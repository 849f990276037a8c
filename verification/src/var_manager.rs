use vstd::prelude::*;

verus! {

/// The stage of a variable's lifecycle.
#[derive(Debug, Clone, Copy, PartialEq, Eq, Structural)]
pub enum VarStage {
    /// Only waiting for subscriptions; no values are handed out.
    Gathering,
    /// Subscriptions are still granted, and values are handed out in step.
    Open,
    /// No new subscriptions; values are still handed out.
    Closed,
}

/// What becomes of a subscription request.
#[derive(Debug, Clone, Copy, PartialEq, Eq, Structural)]
pub enum SubscriptionOutcome {
    /// The variable is still gathering subscribers: ask again later.
    Wait,
    /// The only subscriber of a closed variable gets the input stream itself.
    Direct,
    /// The subscriber gets its own channel fed by every tick.
    Channel,
}

/// What a tick does.
#[derive(Debug, Clone, Copy, PartialEq, Eq, Structural)]
pub enum TickDecision {
    /// Subscription requests are still being served: the tick waits until
    /// none is outstanding.
    Wait,
    /// Stop handing out values.
    Stop,
    /// Take the next input value and hand it to every subscriber.
    Pull,
}

/// The decisions of the manager of one stream variable: its stage, the
/// number of subscribers, the subscription requests still being served,
/// whether it still holds its input stream, and its clock.
#[derive(Debug, Clone, Copy)]
pub struct VarManagerState {
    pub stage: VarStage,
    pub subscribers: usize,
    pub outstanding_sub_requests: usize,
    pub has_input: bool,
    pub clock: usize,
}

impl VarManagerState {
    /// A manager gathering subscribers, with its input stream and clock 0.
    pub fn new() -> (res: VarManagerState)
        ensures
            res.stage == VarStage::Gathering,
            res.subscribers == 0,
            res.outstanding_sub_requests == 0,
            res.has_input,
            res.clock == 0,
    {
        VarManagerState {
            stage: VarStage::Gathering,
            subscribers: 0,
            outstanding_sub_requests: 0,
            has_input: true,
            clock: 0,
        }
    }

    /// A new subscription request: one more subscriber, one more request
    /// being served (ticks wait until no request is outstanding). Gives the
    /// stage at the time of the request.
    pub fn request_subscription(&mut self) -> (res: VarStage)
        requires
            old(self).subscribers < usize::MAX,
            old(self).outstanding_sub_requests < usize::MAX,
        ensures
            res == old(self).stage,
            *final(self) == (VarManagerState {
                subscribers: (old(self).subscribers + 1) as usize,
                outstanding_sub_requests: (old(self).outstanding_sub_requests + 1) as usize,
                ..*old(self)
            }),
    {
        self.subscribers = self.subscribers + 1;
        self.outstanding_sub_requests = self.outstanding_sub_requests + 1;
        self.stage
    }

    /// Serves a subscription request made at stage `requested_at`, which is
    /// not the closed stage (a closed variable takes no new subscribers, and
    /// asking it for one is a fault): postponed while the variable gathers,
    /// else granted (directly when it is closed and has this one subscriber).
    /// A granted request is no longer outstanding; the second result says
    /// whether it was the last one, so that ticks may go on.
    pub fn resolve_subscription(&mut self, requested_at: VarStage) -> (res: (SubscriptionOutcome, bool))
        requires
            requested_at != VarStage::Closed,
            old(self).outstanding_sub_requests > 0,
            old(self).subscribers > 0,
        ensures
            old(self).stage == VarStage::Gathering ==> res.0 == SubscriptionOutcome::Wait && *final(self) == *old(self)
                && !res.1,
            old(self).stage == VarStage::Closed && old(self).subscribers == 1 ==> res.0 == SubscriptionOutcome::Direct
                && *final(self) == (VarManagerState {
                subscribers: 0,
                has_input: false,
                outstanding_sub_requests: (old(self).outstanding_sub_requests - 1) as usize,
                ..*old(self)
            }) && res.1 == (old(self).outstanding_sub_requests == 1),
            old(self).stage != VarStage::Gathering && !(old(self).stage == VarStage::Closed && old(self).subscribers
                == 1) ==> res.0 == SubscriptionOutcome::Channel && *final(self) == (VarManagerState {
                outstanding_sub_requests: (old(self).outstanding_sub_requests - 1) as usize,
                ..*old(self)
            }) && res.1 == (old(self).outstanding_sub_requests == 1),
    {
        if self.stage == VarStage::Gathering {
            return (SubscriptionOutcome::Wait, false);
        }
        let outcome = if self.stage == VarStage::Closed && self.subscribers == 1 {
            self.subscribers = 0;
            self.has_input = false;
            SubscriptionOutcome::Direct
        } else {
            SubscriptionOutcome::Channel
        };
        let last = self.outstanding_sub_requests == 1;
        self.outstanding_sub_requests = self.outstanding_sub_requests - 1;
        (outcome, last)
    }

    /// The start of a tick: a gathering variable opens.
    pub fn start_tick(&mut self)
        ensures
            *final(self) == (VarManagerState {
                stage: if old(self).stage == VarStage::Gathering {
                    VarStage::Open
                } else {
                    old(self).stage
                },
                ..*old(self)
            }),
    {
        if self.stage == VarStage::Gathering {
            self.stage = VarStage::Open;
        }
    }

    /// What a tick does once the variable is open: it waits while any
    /// subscription request is outstanding (no value is handed out before
    /// every requested subscription is in place); then it stops without an
    /// input stream, or for a closed variable nobody subscribes to; else it
    /// hands out the next value.
    pub fn tick_decision(&self) -> (res: TickDecision)
        ensures
            res == (if self.outstanding_sub_requests > 0 {
                TickDecision::Wait
            } else if !self.has_input || (self.stage == VarStage::Closed && self.subscribers == 0) {
                TickDecision::Stop
            } else {
                TickDecision::Pull
            }),
            res == TickDecision::Pull ==> self.outstanding_sub_requests == 0,
    {
        if self.outstanding_sub_requests > 0 {
            TickDecision::Wait
        } else if !self.has_input || (self.stage == VarStage::Closed && self.subscribers == 0) {
            TickDecision::Stop
        } else {
            TickDecision::Pull
        }
    }

    /// A value was handed out: the clock moves on, and the `dropped`
    /// subscribers (whose receivers went away) are forgotten.
    pub fn after_value(&mut self, dropped: usize)
        requires
            old(self).clock < usize::MAX,
            dropped <= old(self).subscribers,
        ensures
            *final(self) == (VarManagerState {
                clock: (old(self).clock + 1) as usize,
                subscribers: (old(self).subscribers - dropped) as usize,
                ..*old(self)
            }),
    {
        self.clock = self.clock + 1;
        self.subscribers = self.subscribers - dropped;
    }

    /// The input stream ended: the clock moves on and every subscriber is let go.
    pub fn after_end(&mut self)
        requires
            old(self).clock < usize::MAX,
        ensures
            *final(self) == (VarManagerState {
                clock: (old(self).clock + 1) as usize,
                subscribers: 0,
                ..*old(self)
            }),
    {
        self.clock = self.clock + 1;
        self.subscribers = 0;
    }

    /// The variable runs on its own: no more subscriptions.
    pub fn close(&mut self)
        ensures
            *final(self) == (VarManagerState { stage: VarStage::Closed, ..*old(self) }),
    {
        self.stage = VarStage::Closed;
    }
}

} // verus!
