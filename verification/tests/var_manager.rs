use trustworthiness_checker::var_manager::{SubscriptionOutcome, TickDecision, VarManagerState, VarStage};

#[test]
fn subscriptions_wait_while_gathering_and_are_granted_once_open() {
    let mut m = VarManagerState::new();
    assert_eq!(m.stage, VarStage::Gathering);
    let at = m.request_subscription();
    assert_eq!(at, VarStage::Gathering);
    assert_eq!(m.subscribers, 1);
    assert_eq!(m.outstanding_sub_requests, 1);
    assert_eq!(m.resolve_subscription(at), (SubscriptionOutcome::Wait, false));
    m.start_tick();
    assert_eq!(m.stage, VarStage::Open);
    assert_eq!(m.resolve_subscription(at), (SubscriptionOutcome::Channel, true));
    assert_eq!(m.outstanding_sub_requests, 0);
    assert_eq!(m.tick_decision(), TickDecision::Pull);
}

#[test]
fn a_single_subscriber_of_a_closed_variable_gets_the_input_itself() {
    let mut m = VarManagerState::new();
    let at = m.request_subscription();
    m.close();
    assert_eq!(m.resolve_subscription(at), (SubscriptionOutcome::Direct, true));
    assert_eq!(m.subscribers, 0);
    assert!(!m.has_input);
    assert_eq!(m.tick_decision(), TickDecision::Stop);
}

#[test]
fn ticks_wait_while_subscription_requests_are_outstanding() {
    let mut m = VarManagerState::new();
    let first = m.request_subscription();
    let second = m.request_subscription();
    m.start_tick();
    assert_eq!(m.tick_decision(), TickDecision::Wait);
    assert_eq!(m.resolve_subscription(first), (SubscriptionOutcome::Channel, false));
    assert_eq!(m.tick_decision(), TickDecision::Wait);
    assert_eq!(m.resolve_subscription(second), (SubscriptionOutcome::Channel, true));
    assert_eq!(m.tick_decision(), TickDecision::Pull);
}

#[test]
fn the_clock_counts_values_handed_out() {
    let mut m = VarManagerState::new();
    m.request_subscription();
    m.request_subscription();
    m.start_tick();
    m.after_value(1);
    assert_eq!(m.clock, 1);
    assert_eq!(m.subscribers, 1);
    m.after_end();
    assert_eq!(m.clock, 2);
    assert_eq!(m.subscribers, 0);
    m.close();
    // Both requests are still outstanding.
    assert_eq!(m.tick_decision(), TickDecision::Wait);
}
