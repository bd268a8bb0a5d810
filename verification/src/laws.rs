//! Laws of the store: properties that relate several operations,
//! stated over the same state transitions and observation functions
//! that the operations' own contracts use.

use vstd::prelude::*;

use crate::store::{StoreView, spec_ttl, incr_result, list_of, list_or_new, lrem_result,
    lrem_every, occurrences};
use crate::value::VView;
use crate::numeric::valid_i64_str;
use crate::command::{CmdView, spec_execute, err_reply};

verus! {

/// Writing a key and then reading it yields the written value, at any
/// time: the write clears any expiration, so the key is live.
pub proof fn lemma_set_then_get(s: StoreView, k: Seq<char>, v: VView, now: u64)
    ensures
        s.upserted(k, v).lookup(k, now) == Some(v),
{
}

/// A write of one key leaves every other key unchanged: its value and
/// its expiration read as before.
pub proof fn lemma_set_frame(s: StoreView, k: Seq<char>, v: VView, k2: Seq<char>, now: u64)
    requires
        k2 != k,
    ensures
        s.upserted(k, v).lookup(k2, now) == s.lookup(k2, now),
        spec_ttl(s.upserted(k, v), k2, now) == spec_ttl(s, k2, now),
{
}

/// After a deletion, a read of the key yields absence, at any time.
/// (That the deletion itself reports whether the key was live is the
/// contract of the delete operation.)
pub proof fn lemma_delete_then_get(s: StoreView, k: Seq<char>, now: u64)
    ensures
        s.dropped(k).lookup(k, now) is None,
        spec_ttl(s.dropped(k), k, now) == -2,
{
}

/// Expiring a live key with zero seconds makes it logically absent at
/// once: at the same instant and at every later one, a read yields
/// absence and the remaining time reads as `-2`.
pub proof fn lemma_expire_zero(s: StoreView, k: Seq<char>, now: u64, later: u64)
    requires
        s.live(k, now),
        later >= now,
    ensures
        s.with_expiry(k, now).lookup(k, later) is None,
        spec_ttl(s.with_expiry(k, now), k, later) == -2,
{
}

/// The remaining time of a key reads `-1` when the key is live with no
/// active expiration and `-2` when the key is not live.
pub proof fn lemma_ttl_values(s: StoreView, k: Seq<char>, now: u64)
    ensures
        s.live(k, now) && !s.exp.contains_key(k) ==> spec_ttl(s, k, now) == -1,
        !s.live(k, now) ==> spec_ttl(s, k, now) == -2,
{
}

/// While an expiration counts down, the remaining time is strictly
/// decreasing and stays positive.
pub proof fn lemma_ttl_countdown(s: StoreView, k: Seq<char>, n1: u64, n2: u64)
    requires
        s.data.contains_key(k),
        s.exp.contains_key(k),
        n1 < n2 < s.exp[k],
    ensures
        spec_ttl(s, k, n1) > spec_ttl(s, k, n2) > 0,
{
}

/// Incrementing a key whose stored value is text that does not read as
/// a signed 64-bit integer, or is not text at all, fails; and since the
/// key is live, the failed operation leaves the whole store unchanged.
pub proof fn lemma_incr_non_numeric(s: StoreView, k: Seq<char>, by: i64, now: u64)
    requires
        match s.lookup(k, now) {
            Some(VView::Text(t)) => !valid_i64_str(t),
            Some(_) => true,
            None => false,
        },
    ensures
        incr_result(s, k, by, now) is None,
        s.purged(k, now) == s,
{
}

/// Pushing onto a key that reads as absent starts from the empty list:
/// a back push stores the values in argument order, a front push stores
/// them reversed, and a read of the key then yields exactly that list.
pub proof fn lemma_push_order(s: StoreView, k: Seq<char>, vs: Seq<Seq<char>>, now: u64)
    requires
        s.lookup(k, now) is None,
    ensures
        s.purged(k, now).upserted(
            k,
            VView::List(list_or_new(s, k, now) + vs),
        ).lookup(k, now) == Some(VView::List(vs)),
        s.purged(k, now).upserted(
            k,
            VView::List(vs.reverse() + list_or_new(s, k, now)),
        ).lookup(k, now) == Some(VView::List(vs.reverse())),
{
    assert(list_or_new(s, k, now) + vs =~= vs);
    assert(vs.reverse() + list_or_new(s, k, now) =~= vs.reverse());
}

/// Removal with count zero removes every occurrence: the count removed
/// is the number of occurrences, and no occurrence remains.
pub proof fn lemma_lrem_all_occurrences(l: Seq<Seq<char>>, v: Seq<char>)
    ensures
        lrem_result(l, v, 0) == lrem_every(l, v),
        l.len() - lrem_result(l, v, 0).len() == occurrences(l, v),
        !lrem_result(l, v, 0).contains(v),
{
    crate::store::lemma_lrem_every_absent(l, v);
}

/// A range request whose bounds are equal is rejected, whatever the
/// key holds: the accepted ranges have `start` strictly below `end`.
pub proof fn lemma_lrange_equal_bounds_rejected(s: StoreView, k: Seq<char>, i: usize, now: u64)
    ensures
        spec_execute(CmdView::LRange(k, i, i), s, now).1 == err_reply("index out of range"@),
        spec_execute(CmdView::LRange(k, i, i), s, now).0 == s.purged(k, now),
{
    match list_of(s, k, now) {
        Some(l) => {
            assert(!(i < i));
        },
        None => {
        },
    }
}

} // verus!
