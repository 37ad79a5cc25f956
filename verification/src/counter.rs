use vstd::prelude::*;
use crate::decimal::{decimal, u32_to_decimal};
use crate::messages::{IncrementReq, IncrementResp};

verus! {

/// The counter after an increment request has been applied to `value`.
pub open spec fn after_increment(value: nat, req: IncrementReq) -> nat {
    value + req.increment_counter_by as nat
}

/// The counter after a sequence of increment requests, applied in order.
pub open spec fn after_increments(value: nat, reqs: Seq<IncrementReq>) -> nat
    decreases reqs.len(),
{
    if reqs.len() == 0 {
        value
    } else {
        after_increment(after_increments(value, reqs.drop_last()), reqs.last())
    }
}

/// The largest body, in bytes, the server reads for an increment request.
pub const INCREMENT_BODY_LIMIT: u64 = 16384;

/// The server's shared counter.
pub struct Counter {
    pub value: u32,
}

impl Counter {
    /// A counter that starts at `initial` (the server starts at zero).
    pub fn new(initial: u32) -> (c: Counter)
        ensures
            c.value == initial,
    {
        Counter { value: initial }
    }

    pub fn current(&self) -> (v: u32)
        ensures
            v == self.value,
    {
        self.value
    }

    /// Adds the request's amount to the counter and answers with the new
    /// value. The sum must fit in a `u32`, as the addition does not wrap.
    pub fn increment(&mut self, req: IncrementReq) -> (resp: IncrementResp)
        requires
            old(self).value + req.increment_counter_by <= u32::MAX,
        ensures
            final(self).value == after_increment(old(self).value as nat, req),
            final(self).value == old(self).value + req.increment_counter_by,
            resp.new_counter_state == final(self).value,
    {
        self.value = self.value + req.increment_counter_by;
        IncrementResp { new_counter_state: self.value }
    }

    /// `increment` where the sum fits in a `u32`; otherwise `None`, and the
    /// counter is left as it was.
    pub fn checked_increment(&mut self, req: IncrementReq) -> (resp: Option<IncrementResp>)
        ensures
            old(self).value + req.increment_counter_by <= u32::MAX ==> {
                &&& final(self).value == after_increment(old(self).value as nat, req)
                &&& final(self).value == old(self).value + req.increment_counter_by
                &&& resp == Some(IncrementResp { new_counter_state: final(self).value })
            },
            old(self).value + req.increment_counter_by > u32::MAX ==> {
                &&& final(self).value == old(self).value
                &&& resp is None
            },
    {
        if req.increment_counter_by <= u32::MAX - self.value {
            Some(self.increment(req))
        } else {
            None
        }
    }

    /// The text the index page hands to the front end: the counter in decimal.
    pub fn index_value(&self) -> (s: String)
        ensures
            s@ == decimal(self.value as nat),
    {
        u32_to_decimal(self.value)
    }
}

/// The sum of the amounts a sequence of requests asks for.
pub open spec fn total_amount(reqs: Seq<IncrementReq>) -> nat
    decreases reqs.len(),
{
    if reqs.len() == 0 {
        0
    } else {
        reqs[0].increment_counter_by as nat + total_amount(reqs.skip(1))
    }
}

proof fn lemma_total_amount_push(reqs: Seq<IncrementReq>, r: IncrementReq)
    ensures
        total_amount(reqs.push(r)) == total_amount(reqs) + r.increment_counter_by,
    decreases reqs.len(),
{
    if reqs.len() > 0 {
        assert(reqs.push(r).skip(1) =~= reqs.skip(1).push(r));
        assert(reqs.push(r)[0] == reqs[0]);
        lemma_total_amount_push(reqs.skip(1), r);
    } else {
        assert(reqs.push(r).skip(1) =~= Seq::<IncrementReq>::empty());
        assert(reqs.push(r)[0] == r);
        assert(total_amount(Seq::<IncrementReq>::empty()) == 0);
    }
}

/// An increment adds exactly the requested amount to the counter.
pub proof fn lemma_increment_adds_amount(value: nat, req: IncrementReq)
    ensures
        after_increment(value, req) - value == req.increment_counter_by,
        after_increment(value, req) >= value,
        req.increment_counter_by > 0 ==> after_increment(value, req) > value,
{
}

/// Applying any sequence of requests in order adds exactly the sum of their
/// amounts to the counter.
pub proof fn lemma_increments_add_total(value: nat, reqs: Seq<IncrementReq>)
    ensures
        after_increments(value, reqs) == value + total_amount(reqs),
    decreases reqs.len(),
{
    if reqs.len() > 0 {
        lemma_increments_add_total(value, reqs.drop_last());
        lemma_total_amount_push(reqs.drop_last(), reqs.last());
        assert(reqs.drop_last().push(reqs.last()) =~= reqs);
    }
}

/// Two increments leave the counter with the same value in either order, so
/// the final count does not depend on how concurrent requests interleave.
pub proof fn lemma_increments_commute(value: nat, a: IncrementReq, b: IncrementReq)
    ensures
        after_increment(after_increment(value, a), b) == after_increment(after_increment(value, b), a),
{
}

/// After a sequence of increments the counter has grown by exactly the sum of
/// the requested amounts, and never shrinks along the way.
pub proof fn lemma_increments_accumulate(value: nat, reqs: Seq<IncrementReq>, k: int)
    requires
        0 <= k <= reqs.len(),
    ensures
        after_increments(value, reqs) == after_increments(value, reqs.take(k)) + (after_increments(0, reqs.skip(k)) as int),
        after_increments(value, reqs.take(k)) <= after_increments(value, reqs),
    decreases reqs.len(),
{
    if k < reqs.len() {
        lemma_increments_accumulate(value, reqs.drop_last(), k);
        assert(reqs.drop_last().take(k) =~= reqs.take(k));
        let rest = reqs.skip(k);
        assert(rest.drop_last() =~= reqs.drop_last().skip(k));
        assert(rest.last() == reqs.last());
    } else {
        assert(reqs.take(k) =~= reqs);
        assert(reqs.skip(k) =~= Seq::<IncrementReq>::empty());
    }
}

} // verus!
