use embed_wasm::frontend::{
    arg_from_initial_state, click_msg, increment_content_type, increment_path, response_outcome,
    Command, ResponseOutcome, State, Update,
};
use embed_wasm::messages::{Arg, IncrementReq, IncrementResp, Msg};

#[test]
fn starts_from_initial_counter() {
    let s = State::create(Arg { initial_counter_state: 9 });
    assert_eq!(s.counter_state(), 9);
    assert!(!s.increment_in_flight());
}

#[test]
fn trigger_posts_without_redraw() {
    let mut s = State::create(Arg { initial_counter_state: 4 });
    let u = s.update(click_msg());
    assert_eq!(
        u,
        Update {
            should_render: false,
            command: Command::PostIncrement(IncrementReq { increment_counter_by: 1 })
        }
    );
    assert_eq!(s.counter_state(), 4);
    assert!(s.increment_in_flight());
}

#[test]
fn response_shows_server_counter() {
    let mut s = State::create(Arg { initial_counter_state: 4 });
    s.update(click_msg());
    let u = s.update(Msg::OnIncrementResp(IncrementResp { new_counter_state: 17 }));
    assert_eq!(u, Update { should_render: true, command: Command::Idle });
    assert_eq!(s.counter_state(), 17);
    assert!(!s.increment_in_flight());
}

#[test]
fn button_label_text() {
    let s = State::create(Arg { initial_counter_state: 12 });
    assert_eq!(s.button_label(), "counter state is 12, click to increment by 1");
    assert_eq!(
        s.button_label(),
        format!("counter state is {:?}, click to increment by 1", 12u32)
    );
}

#[test]
fn click_increments_by_one() {
    assert_eq!(click_msg(), Msg::TriggerIncrement(IncrementReq { increment_counter_by: 1 }));
}

#[test]
fn request_endpoint() {
    assert_eq!(increment_path(), "/increment/counter");
    assert_eq!(increment_content_type(), "application/json");
}

#[test]
fn response_outcomes() {
    let body = IncrementResp { new_counter_state: 3 };
    assert_eq!(response_outcome(200, Some(body)), ResponseOutcome::Deliver(Msg::OnIncrementResp(body)));
    assert_eq!(response_outcome(299, Some(body)), ResponseOutcome::Deliver(Msg::OnIncrementResp(body)));
    assert_eq!(response_outcome(300, Some(body)), ResponseOutcome::FailedStatus(300));
    assert_eq!(response_outcome(199, Some(body)), ResponseOutcome::FailedStatus(199));
    assert_eq!(response_outcome(500, None), ResponseOutcome::UnreadableBody);
    assert_eq!(response_outcome(200, None), ResponseOutcome::UnreadableBody);
}

#[test]
fn initial_state_text() {
    assert_eq!(arg_from_initial_state("42"), Some(Arg { initial_counter_state: 42 }));
    assert_eq!(arg_from_initial_state(""), None);
    assert_eq!(arg_from_initial_state("forty"), None);
}

#[test]
fn route_segments_spell_the_posted_path() {
    let (a, b) = embed_wasm::frontend::increment_route_segments();
    assert_eq!(format!("/{}/{}", a, b), increment_path());
}

#[test]
fn sequence_of_messages_settles() {
    let mut s = State::create(Arg { initial_counter_state: 5 });
    let msgs = [
        click_msg(),
        Msg::OnIncrementResp(IncrementResp { new_counter_state: 6 }),
        click_msg(),
        click_msg(),
        Msg::OnIncrementResp(IncrementResp { new_counter_state: 8 }),
        click_msg(),
    ];
    for m in msgs {
        s.update(m);
    }
    assert_eq!(s.counter_state(), 8);
    assert!(s.increment_in_flight());
    s.update(Msg::OnIncrementResp(IncrementResp { new_counter_state: 9 }));
    assert_eq!(s.counter_state(), 9);
    assert!(!s.increment_in_flight());
}

#[test]
fn view_shows_counter_and_click() {
    let s = State::create(Arg { initial_counter_state: 31 });
    let v = s.view();
    assert_eq!(v.label, "counter state is 31, click to increment by 1");
    assert_eq!(v.on_click, click_msg());
    assert_eq!(s.counter_state(), 31);
    assert!(!s.increment_in_flight());
}
