use vstd::prelude::*;

verus! {

/// The name of a stream variable. Names behave exactly like the strings
/// they were made from: two names are equal when their texts are equal.
#[derive(Debug)]
pub struct VarName {
    pub text: String,
}

impl View for VarName {
    type V = Seq<char>;

    open spec fn view(&self) -> Seq<char> {
        self.text@
    }
}

impl VarName {
    /// Makes the variable name with the given text.
    pub fn new(name: &str) -> (res: VarName)
        ensures
            res@ == name@,
    {
        VarName { text: name.to_string_verified() }
    }

    /// The text of the name.
    pub fn name(&self) -> (res: String)
        ensures
            res@ == self@,
    {
        self.text.clone()
    }

    /// Two names are equal when their texts are equal.
    pub fn equals(&self, other: &VarName) -> (res: bool)
        ensures
            res == (self@ == other@),
    {
        self.text == other.text
    }
}

impl Clone for VarName {
    fn clone(&self) -> (res: VarName)
        ensures
            res@ == self@,
    {
        VarName { text: self.text.clone() }
    }
}

/// Copies a string slice into an owned string.
pub trait ToStringVerified {
    fn to_string_verified(&self) -> String;
}

impl ToStringVerified for str {
    fn to_string_verified(&self) -> (res: String)
        ensures
            res@ == self@,
    {
        String::from_str(self)
    }
}

/// The types whose values streams carry.
pub trait StreamData: Clone {}

impl StreamData for i64 {}

impl StreamData for String {}

impl StreamData for bool {}

impl StreamData for Value {}

/// The types that stream values can have.
#[derive(Debug, Clone, Copy, PartialEq, Eq, Structural)]
pub enum StreamType {
    Int,
    Float,
    Str,
    Bool,
    Unit,
}

/// A value carried by an untyped stream. A float is held as the bit pattern
/// of its 32-bit IEEE-754 representation.
#[derive(Debug)]
pub enum Value {
    Int(i64),
    Float(u32),
    Str(String),
    Bool(bool),
    List(Vec<Value>),
    Unknown,
    Unit,
}

/// The mathematical model of a `Value`.
pub enum ValueV {
    Int(i64),
    Float(u32),
    Str(Seq<char>),
    Bool(bool),
    List(Seq<ValueV>),
    Unknown,
    Unit,
}

impl View for Value {
    type V = ValueV;

    open spec fn view(&self) -> ValueV {
        value_view(*self)
    }
}

/// The model of a value: lists are modelled element by element.
pub open spec fn value_view(v: Value) -> ValueV
    decreases v,
{
    match v {
        Value::Int(i) => ValueV::Int(i),
        Value::Float(f) => ValueV::Float(f),
        Value::Str(s) => ValueV::Str(s@),
        Value::Bool(b) => ValueV::Bool(b),
        Value::List(vs) => ValueV::List(
            Seq::new(
                vs.len() as nat,
                |i: int|
                    if 0 <= i < vs.len() {
                        value_view(vs@[i])
                    } else {
                        ValueV::Unknown
                    },
            ),
        ),
        Value::Unknown => ValueV::Unknown,
        Value::Unit => ValueV::Unit,
    }
}

impl Clone for Value {
    #[verifier::loop_isolation(false)]
    fn clone(&self) -> (res: Value)
        ensures
            res@ == self@,
        decreases self,
    {
        match self {
            Value::Int(i) => Value::Int(*i),
            Value::Float(f) => Value::Float(*f),
            Value::Str(s) => Value::Str(s.clone()),
            Value::Bool(b) => Value::Bool(*b),
            Value::List(vs) => {
                let mut out: Vec<Value> = Vec::new();
                let mut i: usize = 0;
                while i < vs.len()
                    invariant
                        i <= vs.len(),
                        out.len() == i,
                        forall|j: int| 0 <= j < i ==> (#[trigger] out@[j])@ == vs@[j]@,
                    decreases vs.len() - i,
                {
                    proof {
                        assert(decreases_to!(*vs => vs[i as int]));
                    }
                    let c = vs[i].clone();
                    out.push(c);
                    i = i + 1;
                }
                let res = Value::List(out);
                proof {
                    assert(res@->List_0.len() == self@->List_0.len());
                    assert forall|j: int| 0 <= j < vs.len() implies res@->List_0[j] == self@->List_0[j] by {
                        assert(res@->List_0[j] == out@[j]@);
                        assert(self@->List_0[j] == vs@[j]@);
                    }
                    assert(res@->List_0 =~= self@->List_0);
                }
                res
            },
            Value::Unknown => Value::Unknown,
            Value::Unit => Value::Unit,
        }
    }
}

impl Value {
    /// Structural equality of two values (floats are compared by their bits).
    #[verifier::loop_isolation(false)]
    pub fn equals(&self, other: &Value) -> (res: bool)
        ensures
            res == (self@ == other@),
        decreases self,
    {
        match self {
            Value::List(a) => {
                let b = match other {
                    Value::List(b) => b,
                    _ => {
                        return false;
                    },
                };
                if a.len() != b.len() {
                    proof {
                        assert(self@->List_0.len() != other@->List_0.len());
                    }
                    return false;
                }
                let mut i: usize = 0;
                while i < a.len()
                    invariant
                        i <= a.len(),
                        a.len() == b.len(),
                        forall|j: int| 0 <= j < i ==> (#[trigger] a@[j])@ == b@[j]@,
                    decreases a.len() - i,
                {
                    proof {
                        assert(decreases_to!(*a => a[i as int]));
                    }
                    if !a[i].equals(&b[i]) {
                        proof {
                            assert(self@->List_0[i as int] == a@[i as int]@);
                            assert(other@->List_0[i as int] == b@[i as int]@);
                        }
                        return false;
                    }
                    i = i + 1;
                }
                proof {
                    assert(self@->List_0 =~= other@->List_0);
                }
                true
            },
            Value::Int(x) => match other {
                Value::Int(y) => *x == *y,
                _ => false,
            },
            Value::Float(x) => match other {
                Value::Float(y) => *x == *y,
                _ => false,
            },
            Value::Str(x) => match other {
                Value::Str(y) => *x == *y,
                _ => false,
            },
            Value::Bool(x) => match other {
                Value::Bool(y) => *x == *y,
                _ => false,
            },
            Value::Unknown => match other {
                Value::Unknown => true,
                _ => false,
            },
            Value::Unit => match other {
                Value::Unit => true,
                _ => false,
            },
        }
    }

    /// The integer held by an `Int` value.
    pub fn to_int(&self) -> (res: Option<i64>)
        ensures
            res == (match self@ {
                ValueV::Int(i) => Some(i),
                _ => None,
            }),
    {
        match self {
            Value::Int(i) => Some(*i),
            _ => None,
        }
    }

    /// The boolean held by a `Bool` value.
    pub fn to_bool(&self) -> (res: Option<bool>)
        ensures
            res == (match self@ {
                ValueV::Bool(b) => Some(b),
                _ => None,
            }),
    {
        match self {
            Value::Bool(b) => Some(*b),
            _ => None,
        }
    }

    /// The text held by a `Str` value.
    pub fn to_str(&self) -> (res: Option<String>)
        ensures
            res is Some <==> self@ is Str,
            res matches Some(s) ==> s@ == self@->Str_0,
    {
        match self {
            Value::Str(s) => Some(s.clone()),
            _ => None,
        }
    }

    /// The bit pattern held by a `Float` value.
    pub fn to_float_bits(&self) -> (res: Option<u32>)
        ensures
            res == (match self@ {
                ValueV::Float(f) => Some(f),
                _ => None,
            }),
    {
        match self {
            Value::Float(f) => Some(*f),
            _ => None,
        }
    }

    /// Whether the value is `Unit`.
    pub fn is_unit(&self) -> (res: bool)
        ensures
            res == (self@ is Unit),
    {
        match self {
            Value::Unit => true,
            _ => false,
        }
    }

    /// A string value with the given text.
    pub fn from_str(s: &str) -> (res: Value)
        ensures
            res@ == ValueV::Str(s@),
    {
        Value::Str(s.to_string_verified())
    }
}

/// The texts of a list of names.
pub open spec fn names_view(vs: Seq<VarName>) -> Seq<Seq<char>> {
    Seq::new(vs.len(), |i: int| vs[i]@)
}

/// A copy of a list of names.
pub fn clone_names(vs: &Vec<VarName>) -> (res: Vec<VarName>)
    ensures
        names_view(res@) == names_view(vs@),
{
    let mut out: Vec<VarName> = Vec::new();
    let mut i: usize = 0;
    while i < vs.len()
        invariant
            i <= vs.len(),
            out.len() == i,
            forall|j: int| 0 <= j < i ==> (#[trigger] out@[j])@ == vs@[j]@,
        decreases vs.len() - i,
    {
        out.push(vs[i].clone());
        i = i + 1;
    }
    proof {
        assert(names_view(out@) =~= names_view(vs@));
    }
    out
}

impl From<i64> for Value {
    fn from(value: i64) -> (res: Value) {
        Value::Int(value)
    }
}

impl vstd::std_specs::convert::FromSpecImpl<i64> for Value {
    open spec fn obeys_from_spec() -> bool {
        true
    }

    open spec fn from_spec(v: i64) -> Value {
        Value::Int(v)
    }
}

impl From<bool> for Value {
    fn from(value: bool) -> (res: Value) {
        Value::Bool(value)
    }
}

impl vstd::std_specs::convert::FromSpecImpl<bool> for Value {
    open spec fn obeys_from_spec() -> bool {
        true
    }

    open spec fn from_spec(v: bool) -> Value {
        Value::Bool(v)
    }
}

impl From<String> for Value {
    fn from(value: String) -> (res: Value) {
        Value::Str(value)
    }
}

impl vstd::std_specs::convert::FromSpecImpl<String> for Value {
    open spec fn obeys_from_spec() -> bool {
        true
    }

    open spec fn from_spec(v: String) -> Value {
        Value::Str(v)
    }
}

impl From<String> for VarName {
    fn from(value: String) -> (res: VarName) {
        VarName { text: value }
    }
}

impl vstd::std_specs::convert::FromSpecImpl<String> for VarName {
    open spec fn obeys_from_spec() -> bool {
        true
    }

    open spec fn from_spec(v: String) -> VarName {
        VarName { text: v }
    }
}

} // verus!
