use trustworthiness_checker::combinators;
use trustworthiness_checker::combinators::PossiblyUnknown;
use PossiblyUnknown::{Known, Unknown};

#[test]
fn test_not() {
    let x = vec![Known(true), Known(false)];
    assert_eq!(combinators::not(&x), vec![Known(false), Known(true)]);
}

#[test]
fn test_plus() {
    let x = vec![Known(1i64), Known(3)];
    let y = vec![Known(2i64), Known(4)];
    assert_eq!(combinators::plus(&x, &y), vec![Known(3), Known(7)]);
}

#[test]
fn test_str_plus() {
    let x = vec![Known("hello ".to_string()), Known("olleh ".to_string())];
    let y = vec![Known("world".to_string()), Known("dlrow".to_string())];
    let exp = vec![Known("hello world".to_string()), Known("olleh dlrow".to_string())];
    assert_eq!(combinators::concat(&x, &y), exp);
}

#[test]
fn unknown_propagates_and_shorter_stream_wins() {
    let x = vec![Known(true), Unknown, Known(true)];
    let y = vec![Known(false), Known(true)];
    assert_eq!(combinators::and(&x, &y), vec![Known(false), Unknown]);
    assert_eq!(combinators::or(&x, &y), vec![Known(true), Unknown]);
}

#[test]
fn integer_operations() {
    let x = vec![Known(7i64), Known(-7), Unknown];
    let y = vec![Known(2i64), Known(2), Known(1)];
    assert_eq!(combinators::minus(&x, &y), vec![Known(5), Known(-9), Unknown]);
    assert_eq!(combinators::mult(&x, &y), vec![Known(14), Known(-14), Unknown]);
    assert_eq!(combinators::div(&x, &y), vec![Known(3), Known(-3), Unknown]);
    assert_eq!(combinators::modulo(&x, &y), vec![Known(1), Known(-1), Unknown]);
    assert_eq!(combinators::eq(&x, &y), vec![Known(false), Known(false), Unknown]);
    assert_eq!(combinators::le(&x, &y), vec![Known(false), Known(true), Unknown]);
}

#[test]
fn choice_and_default() {
    let c = vec![Known(true), Known(false), Unknown];
    let a = vec![Known(1i64), Known(2), Known(3)];
    let b = vec![Known(10i64), Known(20), Known(30)];
    assert_eq!(combinators::if_stm(&c, &a, &b), vec![Known(1), Known(20), Unknown]);
    let x = vec![Known(1i64), Unknown, Known(3)];
    let d = vec![Known(0i64), Known(0), Known(0)];
    assert_eq!(combinators::default(&x, &d), vec![Known(1), Known(0), Known(3)]);
}

#[test]
fn stream_index_shifts() {
    let x = vec![1i64, 2, 3];
    assert_eq!(combinators::sindex(&x, -1, 0), vec![0, 1, 2, 3]);
    assert_eq!(combinators::sindex(&x, 1, 0), vec![2, 3, 0]);
    assert_eq!(combinators::sindex(&x, 0, 0), vec![1, 2, 3]);
    assert_eq!(combinators::sindex(&x, 5, 9), vec![9, 9, 9, 9, 9]);
    assert_eq!(combinators::val(4i64, 3), vec![4, 4, 4]);
}
