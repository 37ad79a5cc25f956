use vstd::prelude::*;

verus! {

/// A request to add `increment_counter_by` to the server's counter.
#[derive(PartialEq, Eq, Copy, Clone, Hash, Debug, Structural)]
pub struct IncrementReq {
    pub increment_counter_by: u32,
}

/// The server's answer to an increment: the counter's value after it.
#[derive(PartialEq, Eq, Copy, Clone, Hash, Debug, Structural)]
pub struct IncrementResp {
    pub new_counter_state: u32,
}

/// The properties the front end starts with.
#[derive(PartialEq, Eq, Clone, Copy, Debug, Structural)]
pub struct Arg {
    pub initial_counter_state: u32,
}

/// The messages that drive the front end.
#[derive(PartialEq, Eq, Clone, Copy, Debug, Structural)]
pub enum Msg {
    TriggerIncrement(IncrementReq),
    OnIncrementResp(IncrementResp),
}

} // verus!
