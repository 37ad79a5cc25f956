use vstd::prelude::*;
use crate::decimal::{decimal, parse_u32, push_decimal, u32_text_value};
use crate::messages::{Arg, IncrementReq, IncrementResp, Msg};

verus! {

/// What the front end asks its host to do after handling a message.
#[derive(PartialEq, Eq, Clone, Copy, Debug, Structural)]
pub enum Command {
    /// Nothing to do.
    Idle,
    /// Send `POST /increment/counter` with the request as its JSON body,
    /// replacing (and so cancelling) any increment still in flight.
    PostIncrement(IncrementReq),
}

/// The result of handling a message: whether to redraw, and what to do.
#[derive(PartialEq, Eq, Clone, Copy, Debug, Structural)]
pub struct Update {
    pub should_render: bool,
    pub command: Command,
}

/// The front end's component state: the counter it shows and whether an
/// increment request is in flight.
pub struct State {
    counter_state: u32,
    increment_in_flight: bool,
}

impl State {
    pub closed spec fn spec_counter_state(self) -> u32 {
        self.counter_state
    }

    pub closed spec fn spec_increment_in_flight(self) -> bool {
        self.increment_in_flight
    }

    /// The state the component starts in: the counter it was given, with no
    /// request in flight.
    pub fn create(arg: Arg) -> (s: State)
        ensures
            s.spec_counter_state() == arg.initial_counter_state,
            !s.spec_increment_in_flight(),
    {
        State { counter_state: arg.initial_counter_state, increment_in_flight: false }
    }

    pub fn counter_state(&self) -> (c: u32)
        ensures
            c == self.spec_counter_state(),
    {
        self.counter_state
    }

    pub fn increment_in_flight(&self) -> (b: bool)
        ensures
            b == self.spec_increment_in_flight(),
    {
        self.increment_in_flight
    }

    /// Handles a message. A trigger sends the increment request and needs no
    /// redraw; a response shows the server's counter, ends the request and
    /// asks for a redraw.
    pub fn update(&mut self, msg: Msg) -> (u: Update)
        ensures
            (final(self).spec_counter_state(), final(self).spec_increment_in_flight()) == next_state(
                old(self).spec_counter_state(),
                old(self).spec_increment_in_flight(),
                msg,
            ),
            match msg {
                Msg::TriggerIncrement(req) => {
                    &&& u == Update { should_render: false, command: Command::PostIncrement(req) }
                    &&& final(self).spec_counter_state() == old(self).spec_counter_state()
                    &&& final(self).spec_increment_in_flight()
                },
                Msg::OnIncrementResp(resp) => {
                    &&& u == Update { should_render: true, command: Command::Idle }
                    &&& final(self).spec_counter_state() == resp.new_counter_state
                    &&& !final(self).spec_increment_in_flight()
                },
            },
    {
        match msg {
            Msg::TriggerIncrement(req) => {
                self.increment_in_flight = true;
                Update { should_render: false, command: Command::PostIncrement(req) }
            },
            Msg::OnIncrementResp(resp) => {
                self.counter_state = resp.new_counter_state;
                self.increment_in_flight = false;
                Update { should_render: true, command: Command::Idle }
            },
        }
    }

    /// What the component shows: a button labelled with the counter that
    /// sends an increment by one when clicked. Reading it changes nothing.
    pub fn view(&self) -> (v: ButtonView)
        ensures
            v.label@ == button_label_text(self.spec_counter_state()),
            v.on_click == Msg::TriggerIncrement(IncrementReq { increment_counter_by: 1 }),
    {
        ButtonView { label: self.button_label(), on_click: click_msg() }
    }

    /// The text on the component's button.
    pub fn button_label(&self) -> (s: String)
        ensures
            s@ == button_label_text(self.spec_counter_state()),
    {
        let mut s = String::new();
        s.append("counter state is ");
        push_decimal(&mut s, self.counter_state as u64);
        s.append(", click to increment by 1");
        s
    }
}

/// The component's rendered content: its button's label and the message a
/// click sends.
pub struct ButtonView {
    pub label: String,
    pub on_click: Msg,
}

/// Two states that show the same counter render the same content.
pub proof fn lemma_view_depends_on_counter_only(a: State, b: State)
    requires
        a.spec_counter_state() == b.spec_counter_state(),
    ensures
        button_label_text(a.spec_counter_state()) == button_label_text(b.spec_counter_state()),
{
}

/// The counter shown and whether a request is in flight, after one message.
pub open spec fn next_state(counter: u32, in_flight: bool, msg: Msg) -> (u32, bool) {
    match msg {
        Msg::TriggerIncrement(_) => (counter, true),
        Msg::OnIncrementResp(resp) => (resp.new_counter_state, false),
    }
}

/// The counter shown and whether a request is in flight, after a sequence of
/// messages handled in order.
pub open spec fn state_after(counter: u32, in_flight: bool, msgs: Seq<Msg>) -> (u32, bool)
    decreases msgs.len(),
{
    if msgs.len() == 0 {
        (counter, in_flight)
    } else {
        let before = state_after(counter, in_flight, msgs.drop_last());
        next_state(before.0, before.1, msgs.last())
    }
}

/// The counter carried by the last response among `msgs`, or `initial` if
/// there is none.
pub open spec fn last_response_value(initial: u32, msgs: Seq<Msg>) -> u32
    decreases msgs.len(),
{
    if msgs.len() == 0 {
        initial
    } else {
        match msgs.last() {
            Msg::OnIncrementResp(resp) => resp.new_counter_state,
            Msg::TriggerIncrement(_) => last_response_value(initial, msgs.drop_last()),
        }
    }
}

/// After any sequence of messages from the start, the component shows the
/// counter of the last server response (the initial counter if none came),
/// and a request is in flight exactly when the last message was a trigger.
pub proof fn lemma_messages_settle(initial: u32, msgs: Seq<Msg>)
    ensures
        state_after(initial, false, msgs).0 == last_response_value(initial, msgs),
        state_after(initial, false, msgs).1 <==> (msgs.len() > 0 && msgs.last() is TriggerIncrement),
    decreases msgs.len(),
{
    if msgs.len() > 0 {
        lemma_messages_settle(initial, msgs.drop_last());
    }
}

pub open spec fn button_label_text(counter: u32) -> Seq<char> {
    "counter state is "@ + decimal(counter as nat) + ", click to increment by 1"@
}

/// The message a click on the button sends: increment by one.
pub fn click_msg() -> (m: Msg)
    ensures
        m == Msg::TriggerIncrement(IncrementReq { increment_counter_by: 1 }),
{
    Msg::TriggerIncrement(IncrementReq { increment_counter_by: 1 })
}

/// The path that increment requests are posted to.
pub fn increment_path() -> (p: &'static str)
    ensures
        p@ == "/increment/counter"@,
{
    "/increment/counter"
}

/// The two path segments the server routes increment requests by.
pub fn increment_route_segments() -> (segs: (&'static str, &'static str))
    ensures
        segs.0@ == "increment"@,
        segs.1@ == "counter"@,
{
    ("increment", "counter")
}

/// The path the front end posts increments to is the one the server routes
/// by its two segments.
pub proof fn lemma_posted_path_is_routed()
    ensures
        "/increment/counter"@ == "/"@ + "increment"@ + "/"@ + "counter"@,
{
    reveal_strlit("/increment/counter");
    reveal_strlit("/");
    reveal_strlit("increment");
    reveal_strlit("counter");
    assert("/increment/counter"@ =~= "/"@ + "increment"@ + "/"@ + "counter"@);
}

/// The content type of an increment request's body.
pub fn increment_content_type() -> (t: &'static str)
    ensures
        t@ == "application/json"@,
{
    "application/json"
}

/// What becomes of the server's reply to an increment request.
#[derive(PartialEq, Eq, Clone, Copy, Debug, Structural)]
pub enum ResponseOutcome {
    /// The reply is delivered to the component as this message.
    Deliver(Msg),
    /// The body is not an `IncrementResp`: the front end fails.
    UnreadableBody,
    /// The status is not 2xx: the front end fails.
    FailedStatus(u16),
}

pub open spec fn is_success_status(status: u16) -> bool {
    200 <= status <= 299
}

/// Turns the reply's status and (parsed) body into the component's next
/// message. The body is looked at before the status, so an unreadable body
/// fails even when the status does too.
pub fn response_outcome(status: u16, body: Option<IncrementResp>) -> (o: ResponseOutcome)
    ensures
        body is None ==> o == ResponseOutcome::UnreadableBody,
        body matches Some(resp) ==> (200 <= status <= 299 ==> o == ResponseOutcome::Deliver(
            Msg::OnIncrementResp(resp),
        )),
        body matches Some(resp) ==> (!(200 <= status <= 299) ==> o == ResponseOutcome::FailedStatus(status)),
        o == (match body {
            None => ResponseOutcome::UnreadableBody,
            Some(resp) => if is_success_status(status) {
                ResponseOutcome::Deliver(Msg::OnIncrementResp(resp))
            } else {
                ResponseOutcome::FailedStatus(status)
            },
        }),
{
    match body {
        None => ResponseOutcome::UnreadableBody,
        Some(resp) => {
            if 200 <= status && status <= 299 {
                ResponseOutcome::Deliver(Msg::OnIncrementResp(resp))
            } else {
                ResponseOutcome::FailedStatus(status)
            }
        },
    }
}

/// The component's properties from the counter text that the index page
/// hands over; `None` where that text is not a `u32`, where the front end
/// fails.
pub fn arg_from_initial_state(text: &str) -> (a: Option<Arg>)
    ensures
        a == (match u32_text_value(text@) {
            Some(v) => Some(Arg { initial_counter_state: v }),
            None => None,
        }),
{
    match parse_u32(text) {
        Some(v) => Some(Arg { initial_counter_state: v }),
        None => None,
    }
}

} // verus!
