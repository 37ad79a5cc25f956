use embed_wasm::counter::Counter;
use embed_wasm::messages::{IncrementReq, IncrementResp};

#[test]
fn increment_reports_new_value() {
    let mut c = Counter::new(0);
    let r = c.increment(IncrementReq { increment_counter_by: 1 });
    assert_eq!(r, IncrementResp { new_counter_state: 1 });
    let r = c.increment(IncrementReq { increment_counter_by: 5 });
    assert_eq!(r, IncrementResp { new_counter_state: 6 });
    assert_eq!(c.current(), 6);
}

#[test]
fn increments_accumulate_in_any_order() {
    let reqs = [3u32, 0, 11, 7];
    let mut a = Counter::new(2);
    for by in reqs {
        a.increment(IncrementReq { increment_counter_by: by });
    }
    let mut b = Counter::new(2);
    for by in reqs.iter().rev() {
        b.increment(IncrementReq { increment_counter_by: *by });
    }
    assert_eq!(a.current(), 23);
    assert_eq!(b.current(), 23);
}

#[test]
fn checked_increment_refuses_overflow() {
    let mut c = Counter::new(u32::MAX - 1);
    assert_eq!(
        c.checked_increment(IncrementReq { increment_counter_by: 1 }),
        Some(IncrementResp { new_counter_state: u32::MAX })
    );
    assert_eq!(c.checked_increment(IncrementReq { increment_counter_by: 1 }), None);
    assert_eq!(c.current(), u32::MAX);
}

#[test]
fn index_value_is_decimal() {
    assert_eq!(Counter::new(0).index_value(), "0");
    assert_eq!(Counter::new(305).index_value(), "305");
}

#[test]
fn body_limit_is_sixteen_kib() {
    assert_eq!(embed_wasm::counter::INCREMENT_BODY_LIMIT, 1024 * 16);
}
