//! The store engine: the exclusive owner of the keyspace.
//!
//! A store maps each key to one value and, sparsely, to an absolute
//! expiration instant in whole seconds. A key whose instant has been
//! reached is logically absent; it is purged lazily, the next time it
//! is accessed, never by a background sweep. Every operation takes the
//! current time `now` from the caller, so each is a deterministic
//! function of the prior state and its arguments.

use vstd::prelude::*;
use vstd::hash_map::StringHashMap;
use std::collections::VecDeque;

use crate::value::{Value, VView, strs, pair_views, amap, distinct_keys};
use crate::value::{hash_find, hash_put, hash_lookup, hash_del, string_eq_str};
use crate::value::{lemma_amap_contains, lemma_amap_len};
use crate::numeric::{valid_i64_str, i64_str_val, int_digits};
use crate::numeric::{parse_i64, i64_string};

verus! {

/// Mathematical state of the store: the stored values and the sparse
/// expiration instants.
#[verifier::ext_equal]
pub struct StoreView {
    pub data: Map<Seq<char>, VView>,
    pub exp: Map<Seq<char>, u64>,
}

impl StoreView {
    /// Every expiring key is a stored key, and instants fit a signed
    /// 64-bit count of seconds.
    pub open spec fn wf(self) -> bool {
        &&& forall|k: Seq<char>| #[trigger] self.exp.contains_key(k) ==> self.data.contains_key(k)
        &&& forall|k: Seq<char>| #[trigger] self.exp.contains_key(k) ==> self.exp[k] <= i64::MAX
    }

    /// A key is live at `now` when it is stored and its expiration
    /// instant, if any, has not been reached.
    pub open spec fn live(self, k: Seq<char>, now: u64) -> bool {
        &&& self.data.contains_key(k)
        &&& (self.exp.contains_key(k) ==> now < self.exp[k])
    }

    /// The state after the lazy purge of one key: an expired key is
    /// removed together with its instant; anything else is untouched.
    pub open spec fn purged(self, k: Seq<char>, now: u64) -> StoreView {
        if self.exp.contains_key(k) && now >= self.exp[k] {
            StoreView { data: self.data.remove(k), exp: self.exp.remove(k) }
        } else {
            self
        }
    }

    /// The value a read of `k` observes at `now`.
    pub open spec fn lookup(self, k: Seq<char>, now: u64) -> Option<VView> {
        if self.live(k, now) {
            Some(self.data[k])
        } else {
            None
        }
    }

    /// The state after an unconditional write of `k`, which also
    /// clears any expiration for it.
    pub open spec fn upserted(self, k: Seq<char>, v: VView) -> StoreView {
        StoreView { data: self.data.insert(k, v), exp: self.exp.remove(k) }
    }

    /// The state after a deletion of `k`.
    pub open spec fn dropped(self, k: Seq<char>) -> StoreView {
        StoreView { data: self.data.remove(k), exp: self.exp.remove(k) }
    }

    /// The state after an expiration instant is set on `k`.
    pub open spec fn with_expiry(self, k: Seq<char>, at: u64) -> StoreView {
        StoreView { data: self.data, exp: self.exp.insert(k, at) }
    }
}

/// Remaining whole seconds of `k` at `now`; `-1` for a live key with
/// no expiration; `-2` for a key that is not live.
pub open spec fn spec_ttl(s: StoreView, k: Seq<char>, now: u64) -> int {
    if !s.live(k, now) {
        -2
    } else if s.exp.contains_key(k) {
        s.exp[k] - now
    } else {
        -1
    }
}

/// The result of incrementing `k` by `by` at `now`: an absent key
/// counts as zero; a text value must read as a signed 64-bit integer
/// and the sum must fit; anything else fails.
pub open spec fn incr_result(s: StoreView, k: Seq<char>, by: i64, now: u64) -> Option<int> {
    match s.lookup(k, now) {
        None => Some(by as int),
        Some(VView::Text(t)) => {
            if valid_i64_str(t) {
                let n = i64_str_val(t) + by;
                if i64::MIN <= n <= i64::MAX {
                    Some(n)
                } else {
                    None
                }
            } else {
                None
            }
        },
        Some(_) => None,
    }
}

/// The stored list under `k` at `now`, if `k` holds a list.
pub open spec fn list_of(s: StoreView, k: Seq<char>, now: u64) -> Option<Seq<Seq<char>>> {
    match s.lookup(k, now) {
        Some(VView::List(l)) => Some(l),
        _ => None,
    }
}

/// The list a push extends: the stored list, or a fresh empty one when
/// the key is absent or holds another variant (that value is then
/// replaced wholesale — the documented push policy).
pub open spec fn list_or_new(s: StoreView, k: Seq<char>, now: u64) -> Seq<Seq<char>> {
    match list_of(s, k, now) {
        Some(l) => l,
        None => Seq::empty(),
    }
}

/// The stored hash under `k` at `now`, if `k` holds a hash.
pub open spec fn hash_of(s: StoreView, k: Seq<char>, now: u64) -> Option<Map<Seq<char>, Seq<char>>> {
    match s.lookup(k, now) {
        Some(VView::Hash(h)) => Some(h),
        _ => None,
    }
}

/// The hash a field write extends: the stored hash, or a fresh empty
/// one when the key is absent or holds another variant.
pub open spec fn hash_or_new(s: StoreView, k: Seq<char>, now: u64) -> Map<Seq<char>, Seq<char>> {
    match hash_of(s, k, now) {
        Some(h) => h,
        None => Map::empty(),
    }
}

/// The result of incrementing field `f` of the hash under `k`: a
/// missing field counts as created with the delta; a present field
/// must read as a signed 64-bit integer and the sum must fit; a key
/// that does not hold a hash fails.
pub open spec fn hincr_result(
    s: StoreView,
    k: Seq<char>,
    f: Seq<char>,
    by: i64,
    now: u64,
) -> Option<int> {
    match hash_of(s, k, now) {
        Some(h) => {
            if h.contains_key(f) {
                if valid_i64_str(h[f]) {
                    let n = i64_str_val(h[f]) + by;
                    if i64::MIN <= n <= i64::MAX {
                        Some(n)
                    } else {
                        None
                    }
                } else {
                    None
                }
            } else {
                Some(by as int)
            }
        },
        None => None,
    }
}

/// Removes from the front of `l`, left to right, up to `n` elements
/// equal to `v`.
pub open spec fn lrem_front(l: Seq<Seq<char>>, v: Seq<char>, n: nat) -> Seq<Seq<char>>
    decreases l.len(),
{
    if l.len() == 0 || n == 0 {
        l
    } else if l[0] == v {
        lrem_front(l.drop_first(), v, (n - 1) as nat)
    } else {
        seq![l[0]] + lrem_front(l.drop_first(), v, n)
    }
}

/// Removes every element of `l` equal to `v`.
pub open spec fn lrem_every(l: Seq<Seq<char>>, v: Seq<char>) -> Seq<Seq<char>>
    decreases l.len(),
{
    if l.len() == 0 {
        l
    } else if l[0] == v {
        lrem_every(l.drop_first(), v)
    } else {
        seq![l[0]] + lrem_every(l.drop_first(), v)
    }
}

/// Number of elements of `l` equal to `v`.
pub open spec fn occurrences(l: Seq<Seq<char>>, v: Seq<char>) -> nat
    decreases l.len(),
{
    if l.len() == 0 {
        0
    } else {
        occurrences(l.drop_first(), v) + (if l[0] == v { 1nat } else { 0nat })
    }
}

/// The list left by a removal with the given count: a positive count
/// removes the first matches scanning from the front, a negative count
/// the last matches scanning from the back, and zero removes them all.
pub open spec fn lrem_result(l: Seq<Seq<char>>, v: Seq<char>, count: int) -> Seq<Seq<char>> {
    if count > 0 {
        lrem_front(l, v, count as nat)
    } else if count < 0 {
        lrem_front(l.reverse(), v, (-count) as nat).reverse()
    } else {
        lrem_every(l, v)
    }
}

pub proof fn lemma_lrem_front_len(l: Seq<Seq<char>>, v: Seq<char>, n: nat)
    ensures
        lrem_front(l, v, n).len() <= l.len(),
    decreases l.len(),
{
    if l.len() > 0 && n > 0 {
        if l[0] == v {
            lemma_lrem_front_len(l.drop_first(), v, (n - 1) as nat);
        } else {
            lemma_lrem_front_len(l.drop_first(), v, n);
        }
    }
}

pub proof fn lemma_lrem_every_len(l: Seq<Seq<char>>, v: Seq<char>)
    ensures
        lrem_every(l, v).len() <= l.len(),
        l.len() - lrem_every(l, v).len() == occurrences(l, v),
    decreases l.len(),
{
    if l.len() > 0 {
        lemma_lrem_every_len(l.drop_first(), v);
    }
}

/// Removal of every match leaves no occurrence behind: each remaining
/// element differs from `v`, and exactly the matches went away.
pub proof fn lemma_lrem_every_absent(l: Seq<Seq<char>>, v: Seq<char>)
    ensures
        !lrem_every(l, v).contains(v),
        l.len() - lrem_every(l, v).len() == occurrences(l, v),
    decreases l.len(),
{
    lemma_lrem_every_len(l, v);
    if l.len() > 0 {
        lemma_lrem_every_absent(l.drop_first(), v);
        if l[0] != v {
            let rest = lrem_every(l.drop_first(), v);
            let whole = seq![l[0]] + rest;
            if whole.contains(v) {
                let i = choose|i: int| 0 <= i < whole.len() && whole[i] == v;
                assert(i > 0);
                assert(rest[i - 1] == v);
            }
        }
    }
}

/// A budget at least the length removes every match.
pub proof fn lemma_lrem_front_all(l: Seq<Seq<char>>, v: Seq<char>, n: nat)
    requires
        n >= l.len(),
    ensures
        lrem_front(l, v, n) == lrem_every(l, v),
    decreases l.len(),
{
    if l.len() > 0 {
        if l[0] == v {
            lemma_lrem_front_all(l.drop_first(), v, (n - 1) as nat);
        } else {
            lemma_lrem_front_all(l.drop_first(), v, n);
        }
    }
}

/// View of a map of stored values.
pub open spec fn vmap(m: Map<Seq<char>, Value>) -> Map<Seq<char>, VView> {
    Map::new(|k: Seq<char>| m.contains_key(k), |k: Seq<char>| m[k]@)
}

proof fn lemma_vmap_insert(m: Map<Seq<char>, Value>, k: Seq<char>, v: Value)
    ensures
        vmap(m.insert(k, v)) == vmap(m).insert(k, v@),
{
    assert(vmap(m.insert(k, v)) =~= vmap(m).insert(k, v@));
}

proof fn lemma_vmap_remove(m: Map<Seq<char>, Value>, k: Seq<char>)
    ensures
        vmap(m.remove(k)) == vmap(m).remove(k),
{
    assert(vmap(m.remove(k)) =~= vmap(m).remove(k));
}

/// The keyspace: each key maps to one value and, optionally, to an
/// absolute expiration instant.
pub struct Store {
    data: StringHashMap<Value>,
    exp: StringHashMap<u64>,
}

impl View for Store {
    type V = StoreView;

    closed spec fn view(&self) -> StoreView {
        StoreView { data: vmap(self.data@), exp: self.exp@ }
    }
}

impl Store {
    /// Well-formedness: stored values are well-formed, expiring keys
    /// are stored keys, and instants fit a signed count of seconds.
    pub closed spec fn inv(&self) -> bool {
        &&& forall|k: Seq<char>|
            #[trigger] self.data@.contains_key(k) ==> self.data@[k].inv()
        &&& self@.wf()
    }

    /// An empty store.
    pub fn new() -> (r: Store)
        ensures
            r.inv(),
            r@.data == Map::<Seq<char>, VView>::empty(),
            r@.exp == Map::<Seq<char>, u64>::empty(),
    {
        let r = Store { data: StringHashMap::new(), exp: StringHashMap::new() };
        proof {
            assert(vmap(r.data@) =~= Map::<Seq<char>, VView>::empty());
        }
        r
    }

    /// Purges `key` if its expiration instant has been reached.
    fn purge_key(&mut self, key: &str, now: u64)
        requires
            old(self).inv(),
        ensures
            final(self).inv(),
            final(self)@ == old(self)@.purged(key@, now),
    {
        let expired: bool = match self.exp.get(key) {
            Some(e) => now >= *e,
            None => false,
        };
        if expired {
            let ghost olddata = self.data@;
            self.data.remove(key);
            self.exp.remove(key);
            proof {
                lemma_vmap_remove(olddata, key@);
                assert forall|k: Seq<char>| #[trigger] self@.exp.contains_key(k)
                    implies self@.data.contains_key(k) && self@.exp[k] <= i64::MAX by {
                    assert(old(self)@.exp.contains_key(k));
                }
                assert forall|k: Seq<char>| #[trigger] self.data@.contains_key(k)
                    implies self.data@[k].inv() by {
                    assert(old(self).data@.contains_key(k));
                    assert(self.data@[k] == old(self).data@[k]);
                }
            }
        }
    }

    /// Unconditional overwrite; clears any existing expiration for the
    /// key.
    pub fn set(&mut self, key: &str, value: &Value)
        requires
            old(self).inv(),
            value.inv(),
        ensures
            final(self).inv(),
            final(self)@ == old(self)@.upserted(key@, value@),
    {
        let ghost olddata = self.data@;
        self.data.insert(key.to_owned(), value.duplicate());
        self.exp.remove(key);
        proof {
            lemma_vmap_insert(olddata, key@, self.data@[key@]);
        }
    }

    /// Reads the current value of `key`, purging it first if expired;
    /// `None` when the key is not live.
    pub fn get(&mut self, key: &str, now: u64) -> (r: Option<Value>)
        requires
            old(self).inv(),
        ensures
            final(self).inv(),
            final(self)@ == old(self)@.purged(key@, now),
            match r {
                Some(v) => old(self)@.lookup(key@, now) == Some(v@) && v.inv(),
                None => old(self)@.lookup(key@, now) is None,
            },
    {
        self.purge_key(key, now);
        match self.data.get(key) {
            Some(v) => {
                proof {
                    assert(self@.data.contains_key(key@));
                    if old(self)@.exp.contains_key(key@) && now >= old(self)@.exp[key@] {
                        assert(self@.data == old(self)@.data.remove(key@));
                        assert(false);
                    }
                    assert(old(self)@.live(key@, now));
                    assert(self@.data[key@] == old(self)@.data[key@]);
                }
                Some(v.duplicate())
            },
            None => None,
        }
    }

    /// Removes `key` and any expiration; reports whether the key was
    /// live immediately before the call.
    pub fn del(&mut self, key: &str, now: u64) -> (r: bool)
        requires
            old(self).inv(),
        ensures
            final(self).inv(),
            final(self)@ == old(self)@.dropped(key@),
            r == old(self)@.live(key@, now),
    {
        let live: bool = if self.data.contains_key(key) {
            match self.exp.get(key) {
                Some(e) => now < *e,
                None => true,
            }
        } else {
            false
        };
        let ghost olddata = self.data@;
        self.data.remove(key);
        self.exp.remove(key);
        proof {
            lemma_vmap_remove(olddata, key@);
            assert forall|k: Seq<char>| #[trigger] self@.exp.contains_key(k)
                implies self@.data.contains_key(k) && self@.exp[k] <= i64::MAX by {
                assert(old(self)@.exp.contains_key(k));
            }
            assert forall|k: Seq<char>| #[trigger] self.data@.contains_key(k)
                implies self.data@[k].inv() by {
                assert(old(self).data@.contains_key(k));
                assert(self.data@[k] == old(self).data@[k]);
            }
        }
        live
    }

    /// Sets the expiration of `key` to `now + seconds` if the key is
    /// live; reports whether it was set.
    pub fn expire(&mut self, key: &str, seconds: u64, now: u64) -> (r: bool)
        requires
            old(self).inv(),
            now + seconds <= i64::MAX,
        ensures
            final(self).inv(),
            r == old(self)@.live(key@, now),
            final(self)@ == (if old(self)@.live(key@, now) {
                old(self)@.with_expiry(key@, (now + seconds) as u64)
            } else {
                old(self)@.purged(key@, now)
            }),
    {
        self.purge_key(key, now);
        proof {
            if old(self)@.exp.contains_key(key@) && now >= old(self)@.exp[key@] {
                assert(self@.data == old(self)@.data.remove(key@));
                assert(!old(self)@.live(key@, now));
            } else {
                assert(self@ == old(self)@);
            }
        }
        let present = self.data.contains_key(key);
        proof {
            assert(present == self@.data.contains_key(key@));
            assert(present == old(self)@.live(key@, now));
        }
        if present {
            let ghost mid = *self;
            self.exp.insert(key.to_owned(), now + seconds);
            proof {
                assert forall|k: Seq<char>| #[trigger] self@.exp.contains_key(k)
                    implies self@.data.contains_key(k) && self@.exp[k] <= i64::MAX by {
                    if k != key@ {
                        assert(mid@.exp.contains_key(k));
                    }
                }
            }
            true
        } else {
            false
        }
    }

    /// Remaining whole seconds before `key` expires; `-1` when the key
    /// is live without an expiration; `-2` when the key is not live.
    pub fn ttl(&mut self, key: &str, now: u64) -> (r: i64)
        requires
            old(self).inv(),
        ensures
            final(self).inv(),
            final(self)@ == old(self)@.purged(key@, now),
            r == spec_ttl(old(self)@, key@, now),
    {
        self.purge_key(key, now);
        proof {
            if old(self)@.exp.contains_key(key@) && now >= old(self)@.exp[key@] {
                assert(self@.data == old(self)@.data.remove(key@));
                assert(self@.exp == old(self)@.exp.remove(key@));
                assert(!old(self)@.live(key@, now));
            } else {
                assert(self@ == old(self)@);
            }
        }
        let present = self.data.contains_key(key);
        proof {
            assert(present == self@.data.contains_key(key@));
            assert(present == old(self)@.live(key@, now));
        }
        if present {
            match self.exp.get(key) {
                Some(e) => {
                    proof {
                        assert(self@.exp.contains_key(key@));
                        assert(old(self)@.exp.contains_key(key@));
                        assert(now < old(self)@.exp[key@]);
                        assert(self@.exp[key@] <= i64::MAX);
                    }
                    (*e - now) as i64
                },
                None => {
                    proof {
                        assert(!self@.exp.contains_key(key@));
                        assert(!old(self)@.exp.contains_key(key@));
                    }
                    -1
                },
            }
        } else {
            -2
        }
    }

    /// Adds `by` to the integer stored as text under `key`, treating
    /// an absent key as zero; fails without mutating when the value is
    /// not numeric text, not text at all, or the sum does not fit.
    pub fn incr_by(&mut self, key: &str, by: i64, now: u64) -> (r: Option<i64>)
        requires
            old(self).inv(),
        ensures
            final(self).inv(),
            match incr_result(old(self)@, key@, by, now) {
                Some(n) => r == Some(n as i64) && final(self)@ == old(self)@.purged(
                    key@,
                    now,
                ).upserted(key@, VView::Text(int_digits(n))),
                None => r is None && final(self)@ == old(self)@.purged(key@, now),
            },
    {
        match self.get(key, now) {
            None => {
                let text = i64_string(by);
                self.set(key, &Value::Text(text));
                Some(by)
            },
            Some(Value::Text(t)) => {
                match parse_i64(t.as_str()) {
                    Some(n) => {
                        match n.checked_add(by) {
                            Some(sum) => {
                                let text = i64_string(sum);
                                self.set(key, &Value::Text(text));
                                Some(sum)
                            },
                            None => None,
                        }
                    },
                    None => None,
                }
            },
            Some(_) => None,
        }
    }
}



proof fn lemma_strs_cons(x: String, s: Seq<String>)
    ensures
        strs(seq![x] + s) == seq![x@] + strs(s),
{
    let a = strs(seq![x] + s);
    let b = seq![x@] + strs(s);
    assert forall|j: int| 0 <= j < a.len() implies a[j] == b[j] by {
        if j == 0 {
            assert((seq![x] + s)[0] == x);
        } else {
            assert((seq![x] + s)[j] == s[j - 1]);
        }
    }
    assert(a =~= b);
}

proof fn lemma_strs_push(s: Seq<String>, x: String)
    ensures
        strs(s.push(x)) == strs(s).push(x@),
{
    let a = strs(s.push(x));
    let b = strs(s).push(x@);
    assert forall|j: int| 0 <= j < a.len() implies a[j] == b[j] by {
        if j < s.len() {
            assert(s.push(x)[j] == s[j]);
        } else {
            assert(s.push(x)[j] == x);
        }
    }
    assert(a =~= b);
}

proof fn lemma_reverse_push(s: Seq<Seq<char>>, x: Seq<char>)
    ensures
        s.push(x).reverse() == seq![x] + s.reverse(),
{
    let a = s.push(x).reverse();
    let b = seq![x] + s.reverse();
    assert forall|j: int| 0 <= j < a.len() implies a[j] == b[j] by {
        assert(a[j] == s.push(x)[s.len() - j]);
        if j == 0 {
            assert(s.push(x)[s.len() as int] == x);
        } else {
            assert(s.push(x)[s.len() - j] == s[s.len() - j]);
            assert(b[j] == s.reverse()[j - 1]);
        }
    }
    assert(a =~= b);
}

/// One loop step of a front push: pushing the next value extends the
/// reversed prefix.
proof fn lemma_front_push_step(vs: Seq<String>, i: int, prev: Seq<String>, base: Seq<Seq<char>>)
    requires
        0 <= i < vs.len(),
        strs(prev) == strs(vs.subrange(0, i)).reverse() + base,
    ensures
        strs(seq![vs[i]] + prev) == strs(vs.subrange(0, i + 1)).reverse() + base,
{
    lemma_strs_cons(vs[i], prev);
    assert(vs.subrange(0, i + 1) =~= vs.subrange(0, i).push(vs[i]));
    lemma_strs_push(vs.subrange(0, i), vs[i]);
    lemma_reverse_push(strs(vs.subrange(0, i)), vs[i]@);
    assert(seq![vs[i]@] + (strs(vs.subrange(0, i)).reverse() + base)
        =~= (seq![vs[i]@] + strs(vs.subrange(0, i)).reverse()) + base);
}

/// One loop step of a back push: pushing the next value extends the
/// prefix.
proof fn lemma_back_push_step(vs: Seq<String>, i: int, prev: Seq<String>, base: Seq<Seq<char>>)
    requires
        0 <= i < vs.len(),
        strs(prev) == base + strs(vs.subrange(0, i)),
    ensures
        strs(prev.push(vs[i])) == base + strs(vs.subrange(0, i + 1)),
{
    lemma_strs_push(prev, vs[i]);
    assert(vs.subrange(0, i + 1) =~= vs.subrange(0, i).push(vs[i]));
    lemma_strs_push(vs.subrange(0, i), vs[i]);
    assert((base + strs(vs.subrange(0, i))).push(vs[i]@)
        =~= base + strs(vs.subrange(0, i)).push(vs[i]@));
}

/// Copies a list in reverse order.
fn reverse_deque(l: &VecDeque<String>) -> (r: VecDeque<String>)
    ensures
        strs(r@) == strs(l@).reverse(),
{
    let mut r: VecDeque<String> = VecDeque::new();
    let mut i: usize = 0;
    while i < l.len()
        invariant
            0 <= i <= l@.len(),
            strs(r@) == strs(l@.subrange(0, i as int)).reverse(),
        decreases l@.len() - i,
    {
        let ghost prev = r@;
        r.push_front(l[i].clone());
        proof {
            lemma_front_push_step(l@, i as int, prev, Seq::empty());
            assert(strs(l@.subrange(0, i as int)).reverse() + Seq::<Seq<char>>::empty()
                =~= strs(l@.subrange(0, i as int)).reverse());
            assert(strs(l@.subrange(0, i + 1)).reverse() + Seq::<Seq<char>>::empty()
                =~= strs(l@.subrange(0, i + 1)).reverse());
        }
        i = i + 1;
    }
    proof {
        assert(l@.subrange(0, l@.len() as int) =~= l@);
    }
    r
}

/// Copies `l`, dropping up to `n` elements equal to `v`, scanning from
/// the front.
fn remove_front_matches(l: &VecDeque<String>, v: &String, n: u64) -> (r: VecDeque<String>)
    ensures
        strs(r@) == lrem_front(strs(l@), v@, n as nat),
{
    let mut out: VecDeque<String> = VecDeque::new();
    let mut budget: u64 = n;
    let mut i: usize = 0;
    proof {
        assert(strs(out@) =~= Seq::<Seq<char>>::empty());
        assert(strs(l@).skip(0) =~= strs(l@));
        assert(Seq::<Seq<char>>::empty() + lrem_front(strs(l@), v@, n as nat)
            =~= lrem_front(strs(l@), v@, n as nat));
    }
    while i < l.len()
        invariant
            0 <= i <= l@.len(),
            lrem_front(strs(l@), v@, n as nat) == strs(out@) + lrem_front(
                strs(l@).skip(i as int),
                v@,
                budget as nat,
            ),
        decreases l@.len() - i,
    {
        let ghost rest = strs(l@).skip(i as int);
        proof {
            assert(rest.len() > 0);
            assert(rest[0] == strs(l@)[i as int]);
            assert(rest.drop_first() =~= strs(l@).skip(i + 1));
        }
        let x = &l[i];
        if budget > 0 && string_eq_str(x, v.as_str()) {
            proof {
                assert(lrem_front(rest, v@, budget as nat) == lrem_front(
                    rest.drop_first(),
                    v@,
                    (budget - 1) as nat,
                ));
            }
            budget = budget - 1;
        } else {
            let ghost out0 = strs(out@);
            out.push_back(x.clone());
            proof {
                assert(strs(out@) =~= out0.push(rest[0]));
                if budget == 0 {
                    assert(lrem_front(rest, v@, budget as nat) == rest);
                    assert(rest =~= seq![rest[0]] + rest.drop_first());
                    assert(lrem_front(rest.drop_first(), v@, budget as nat)
                        == rest.drop_first());
                } else {
                    assert(rest[0] != v@);
                    assert(lrem_front(rest, v@, budget as nat) == seq![rest[0]] + lrem_front(
                        rest.drop_first(),
                        v@,
                        budget as nat,
                    ));
                }
                assert(out0.push(rest[0]) + lrem_front(rest.drop_first(), v@, budget as nat)
                    =~= out0 + (seq![rest[0]] + lrem_front(rest.drop_first(), v@, budget as nat)));
            }
        }
        i = i + 1;
    }
    proof {
        assert(strs(l@).skip(l@.len() as int) =~= Seq::<Seq<char>>::empty());
        assert(lrem_front(Seq::<Seq<char>>::empty(), v@, budget as nat)
            == Seq::<Seq<char>>::empty());
        assert(strs(out@) + Seq::<Seq<char>>::empty() =~= strs(out@));
    }
    out
}

impl Store {
    /// Pushes each value in argument order onto the front of the list
    /// under `key`, creating a fresh empty list when the key is absent
    /// or holds another variant; returns the resulting length and
    /// clears any expiration for the key.
    pub fn lpush(&mut self, key: &str, values: &Vec<String>, now: u64) -> (r: usize)
        requires
            old(self).inv(),
        ensures
            final(self).inv(),
            final(self)@ == old(self)@.purged(key@, now).upserted(
                key@,
                VView::List(strs(values@).reverse() + list_or_new(old(self)@, key@, now)),
            ),
            r == strs(values@).reverse().len() + list_or_new(old(self)@, key@, now).len(),
    {
        let cur = self.get(key, now);
        let mut l: VecDeque<String> = match cur {
            Some(v) => {
                match v {
                    Value::List(l) => l,
                    _ => VecDeque::new(),
                }
            },
            None => VecDeque::new(),
        };
        proof {
            assert(strs(l@) =~= list_or_new(old(self)@, key@, now));
        }
        let ghost base = strs(l@);
        let mut i: usize = 0;
        while i < values.len()
            invariant
                0 <= i <= values@.len(),
                strs(l@) == strs(values@.subrange(0, i as int)).reverse() + base,
            decreases values@.len() - i,
        {
            let ghost prev = l@;
            l.push_front(values[i].clone());
            proof {
                lemma_front_push_step(values@, i as int, prev, base);
            }
            i = i + 1;
        }
        proof {
            assert(values@.subrange(0, values@.len() as int) =~= values@);
        }
        let r = l.len();
        self.set(key, &Value::List(l));
        r
    }

    /// Pushes each value in argument order onto the back of the list
    /// under `key`, creating a fresh empty list when the key is absent
    /// or holds another variant; returns the resulting length and
    /// clears any expiration for the key.
    pub fn rpush(&mut self, key: &str, values: &Vec<String>, now: u64) -> (r: usize)
        requires
            old(self).inv(),
        ensures
            final(self).inv(),
            final(self)@ == old(self)@.purged(key@, now).upserted(
                key@,
                VView::List(list_or_new(old(self)@, key@, now) + strs(values@)),
            ),
            r == list_or_new(old(self)@, key@, now).len() + strs(values@).len(),
    {
        let cur = self.get(key, now);
        let mut l: VecDeque<String> = match cur {
            Some(v) => {
                match v {
                    Value::List(l) => l,
                    _ => VecDeque::new(),
                }
            },
            None => VecDeque::new(),
        };
        proof {
            assert(strs(l@) =~= list_or_new(old(self)@, key@, now));
        }
        let ghost base = strs(l@);
        let mut i: usize = 0;
        while i < values.len()
            invariant
                0 <= i <= values@.len(),
                strs(l@) == base + strs(values@.subrange(0, i as int)),
            decreases values@.len() - i,
        {
            let ghost prev = l@;
            l.push_back(values[i].clone());
            proof {
                lemma_back_push_step(values@, i as int, prev, base);
            }
            i = i + 1;
        }
        proof {
            assert(values@.subrange(0, values@.len() as int) =~= values@);
        }
        let r = l.len();
        self.set(key, &Value::List(l));
        r
    }

    /// Removes and returns the front element of the list under `key`;
    /// `None` when the key does not hold a list or the list is empty.
    /// A write of the remaining list clears any expiration.
    pub fn lpop(&mut self, key: &str, now: u64) -> (r: Option<String>)
        requires
            old(self).inv(),
        ensures
            final(self).inv(),
            match list_of(old(self)@, key@, now) {
                Some(l) => {
                    &&& final(self)@ == old(self)@.upserted(
                        key@,
                        VView::List(if l.len() > 0 { l.drop_first() } else { l }),
                    )
                    &&& (match r {
                        Some(x) => l.len() > 0 && x@ == l[0],
                        None => l.len() == 0,
                    })
                },
                None => final(self)@ == old(self)@.purged(key@, now) && r is None,
            },
    {
        match self.get(key, now) {
            Some(Value::List(mut l)) => {
                let ghost l0 = strs(l@);
                let v = l.pop_front();
                proof {
                    if l0.len() > 0 {
                        assert(strs(l@) =~= l0.drop_first());
                    } else {
                        assert(strs(l@) =~= l0);
                    }
                }
                self.set(key, &Value::List(l));
                v
            },
            _ => None,
        }
    }

    /// Removes and returns the back element of the list under `key`;
    /// `None` when the key does not hold a list or the list is empty.
    /// A write of the remaining list clears any expiration.
    pub fn rpop(&mut self, key: &str, now: u64) -> (r: Option<String>)
        requires
            old(self).inv(),
        ensures
            final(self).inv(),
            match list_of(old(self)@, key@, now) {
                Some(l) => {
                    &&& final(self)@ == old(self)@.upserted(
                        key@,
                        VView::List(if l.len() > 0 { l.drop_last() } else { l }),
                    )
                    &&& (match r {
                        Some(x) => l.len() > 0 && x@ == l.last(),
                        None => l.len() == 0,
                    })
                },
                None => final(self)@ == old(self)@.purged(key@, now) && r is None,
            },
    {
        match self.get(key, now) {
            Some(Value::List(mut l)) => {
                let ghost l0 = strs(l@);
                let v = l.pop_back();
                proof {
                    if l0.len() > 0 {
                        assert(strs(l@) =~= l0.drop_last());
                    } else {
                        assert(strs(l@) =~= l0);
                    }
                }
                self.set(key, &Value::List(l));
                v
            },
            _ => None,
        }
    }

    /// Length of the list under `key`; `None` when the key does not
    /// hold a list.
    pub fn llen(&mut self, key: &str, now: u64) -> (r: Option<usize>)
        requires
            old(self).inv(),
        ensures
            final(self).inv(),
            final(self)@ == old(self)@.purged(key@, now),
            match r {
                Some(n) => list_of(old(self)@, key@, now) matches Some(l) && n == l.len(),
                None => list_of(old(self)@, key@, now) is None,
            },
    {
        match self.get(key, now) {
            Some(Value::List(l)) => Some(l.len()),
            _ => None,
        }
    }

    /// Element at position `index` of the list under `key`; `None`
    /// when the key does not hold a list or the position is out of
    /// bounds.
    pub fn lindex(&mut self, key: &str, index: usize, now: u64) -> (r: Option<String>)
        requires
            old(self).inv(),
        ensures
            final(self).inv(),
            final(self)@ == old(self)@.purged(key@, now),
            match r {
                Some(x) => list_of(old(self)@, key@, now) matches Some(l) && index < l.len()
                    && x@ == l[index as int],
                None => match list_of(old(self)@, key@, now) {
                    Some(l) => index >= l.len(),
                    None => true,
                },
            },
    {
        match self.get(key, now) {
            Some(Value::List(l)) => {
                if index < l.len() {
                    Some(l[index].clone())
                } else {
                    None
                }
            },
            _ => None,
        }
    }

    /// Overwrites the element at position `index` of the list under
    /// `key`; reports success. A successful write clears any
    /// expiration.
    pub fn lset(&mut self, key: &str, index: usize, value: String, now: u64) -> (r: bool)
        requires
            old(self).inv(),
        ensures
            final(self).inv(),
            match list_of(old(self)@, key@, now) {
                Some(l) => {
                    if index < l.len() {
                        r && final(self)@ == old(self)@.upserted(
                            key@,
                            VView::List(l.update(index as int, value@)),
                        )
                    } else {
                        !r && final(self)@ == old(self)@.purged(key@, now)
                    }
                },
                None => !r && final(self)@ == old(self)@.purged(key@, now),
            },
    {
        match self.get(key, now) {
            Some(Value::List(mut l)) => {
                if index < l.len() {
                    let ghost l0 = strs(l@);
                    let _removed = l.remove(index);
                    l.insert(index, value);
                    proof {
                        assert(strs(l@) =~= l0.update(index as int, value@));
                    }
                    self.set(key, &Value::List(l));
                    true
                } else {
                    false
                }
            },
            _ => false,
        }
    }

    /// The inclusive slice `[start, end]` of the list under `key`,
    /// accepted only when `start < end` and both positions are in
    /// bounds; rejected otherwise (the documented range policy).
    pub fn lrange(&mut self, key: &str, start: usize, end: usize, now: u64) -> (r: Option<
        Vec<String>,
    >)
        requires
            old(self).inv(),
        ensures
            final(self).inv(),
            final(self)@ == old(self)@.purged(key@, now),
            match list_of(old(self)@, key@, now) {
                Some(l) => {
                    if start < end && end < l.len() {
                        r matches Some(v) && strs(v@) == l.subrange(start as int, end + 1)
                    } else {
                        r is None
                    }
                },
                None => r is None,
            },
    {
        match self.get(key, now) {
            Some(Value::List(l)) => {
                if start < end && end < l.len() {
                    let mut out: Vec<String> = Vec::new();
                    let mut i: usize = start;
                    while i <= end
                        invariant
                            start <= i <= end + 1,
                            end < l@.len(),
                            l@.len() <= usize::MAX,
                            strs(out@) == strs(l@).subrange(start as int, i as int),
                        decreases end + 1 - i,
                    {
                        let ghost prev = out@;
                        out.push(l[i].clone());
                        proof {
                            lemma_strs_push(prev, l@[i as int]);
                            assert(strs(l@).subrange(start as int, i + 1)
                                =~= strs(l@).subrange(start as int, i as int).push(strs(l@)[i as int]));
                            assert(strs(l@)[i as int] == l@[i as int]@);
                        }
                        i = i + 1;
                    }
                    Some(out)
                } else {
                    None
                }
            },
            _ => None,
        }
    }

    /// Removes occurrences of `value` from the list under `key`: a
    /// positive count removes the first `count` matches from the
    /// front, a negative count the last `|count|` matches from the
    /// back, and zero removes every match; returns the number removed.
    /// A write of the remaining list clears any expiration.
    pub fn lrem(&mut self, key: &str, count: i64, value: String, now: u64) -> (r: usize)
        requires
            old(self).inv(),
        ensures
            final(self).inv(),
            match list_of(old(self)@, key@, now) {
                Some(l) => {
                    &&& final(self)@ == old(self)@.upserted(
                        key@,
                        VView::List(lrem_result(l, value@, count as int)),
                    )
                    &&& r == l.len() - lrem_result(l, value@, count as int).len()
                },
                None => final(self)@ == old(self)@.purged(key@, now) && r == 0,
            },
    {
        match self.get(key, now) {
            Some(Value::List(l)) => {
                let newl: VecDeque<String> = if count > 0 {
                    let out = remove_front_matches(&l, &value, count as u64);
                    proof {
                        lemma_lrem_front_len(strs(l@), value@, (count as u64) as nat);
                    }
                    out
                } else if count < 0 {
                    let n: u64 = if count == i64::MIN {
                        9223372036854775808u64
                    } else {
                        (-count) as u64
                    };
                    let rev = reverse_deque(&l);
                    let rem = remove_front_matches(&rev, &value, n);
                    let out = reverse_deque(&rem);
                    proof {
                        lemma_lrem_front_len(strs(rev@), value@, n as nat);
                    }
                    out
                } else {
                    let n: u64 = l.len() as u64;
                    let out = remove_front_matches(&l, &value, n);
                    proof {
                        lemma_lrem_front_all(strs(l@), value@, n as nat);
                        lemma_lrem_every_len(strs(l@), value@);
                    }
                    out
                };
                proof {
                    assert(newl@.len() == strs(newl@).len());
                    assert(newl@.len() <= l@.len());
                }
                let removed = l.len() - newl.len();
                self.set(key, &Value::List(newl));
                removed
            },
            _ => 0,
        }
    }

    /// Sets field `field` of the hash under `key` to `value`, creating
    /// a fresh empty hash when the key is absent or holds another
    /// variant; reports whether the field already existed. The write
    /// clears any expiration for the key.
    pub fn hset(&mut self, key: &str, field: &str, value: &str, now: u64) -> (r: bool)
        requires
            old(self).inv(),
        ensures
            final(self).inv(),
            final(self)@ == old(self)@.purged(key@, now).upserted(
                key@,
                VView::Hash(hash_or_new(old(self)@, key@, now).insert(field@, value@)),
            ),
            r == hash_or_new(old(self)@, key@, now).contains_key(field@),
    {
        let cur = self.get(key, now);
        let mut h: Vec<(String, String)> = match cur {
            Some(v) => {
                match v {
                    Value::Hash(h) => h,
                    _ => Vec::new(),
                }
            },
            None => Vec::new(),
        };
        proof {
            assert(distinct_keys(pair_views(h@)) && amap(pair_views(h@)) == hash_or_new(
                old(self)@,
                key@,
                now,
            )) by {
                if hash_of(old(self)@, key@, now) is None {
                    assert(pair_views(h@) =~= Seq::<(Seq<char>, Seq<char>)>::empty());
                    assert(amap(pair_views(h@)) =~= Map::<Seq<char>, Seq<char>>::empty());
                }
            }
            lemma_amap_contains(pair_views(h@), field@);
        }
        let existed = match hash_find(&h, field) {
            Some(_) => true,
            None => false,
        };
        hash_put(&mut h, field.to_owned(), value.to_owned());
        self.set(key, &Value::Hash(h));
        existed
    }

    /// Reads field `field` of the hash under `key`; `None` when the
    /// key does not hold a hash or the field is absent.
    pub fn hget(&mut self, key: &str, field: &str, now: u64) -> (r: Option<String>)
        requires
            old(self).inv(),
        ensures
            final(self).inv(),
            final(self)@ == old(self)@.purged(key@, now),
            match hash_of(old(self)@, key@, now) {
                Some(h) => match r {
                    Some(x) => h.contains_key(field@) && x@ == h[field@],
                    None => !h.contains_key(field@),
                },
                None => r is None,
            },
    {
        match self.get(key, now) {
            Some(Value::Hash(h)) => hash_lookup(&h, field),
            _ => None,
        }
    }

    /// Removes field `field` of the hash under `key`; reports whether
    /// it was present. When the key holds a hash, the write clears any
    /// expiration.
    pub fn hdel(&mut self, key: &str, field: &str, now: u64) -> (r: bool)
        requires
            old(self).inv(),
        ensures
            final(self).inv(),
            match hash_of(old(self)@, key@, now) {
                Some(h) => final(self)@ == old(self)@.upserted(
                    key@,
                    VView::Hash(h.remove(field@)),
                ) && r == h.contains_key(field@),
                None => final(self)@ == old(self)@.purged(key@, now) && !r,
            },
    {
        match self.get(key, now) {
            Some(Value::Hash(mut h)) => {
                let res = hash_del(&mut h, field);
                self.set(key, &Value::Hash(h));
                res
            },
            _ => false,
        }
    }

    /// Number of fields of the hash under `key`; `None` when the key
    /// does not hold a hash.
    pub fn hlen(&mut self, key: &str, now: u64) -> (r: Option<usize>)
        requires
            old(self).inv(),
        ensures
            final(self).inv(),
            final(self)@ == old(self)@.purged(key@, now),
            match r {
                Some(n) => hash_of(old(self)@, key@, now) matches Some(h) && n == h.len(),
                None => hash_of(old(self)@, key@, now) is None,
            },
    {
        match self.get(key, now) {
            Some(Value::Hash(h)) => {
                proof {
                    lemma_amap_len(pair_views(h@));
                }
                Some(h.len())
            },
            _ => None,
        }
    }

    /// All field/value pairs of the hash under `key`, fields unique,
    /// in no promised order; `None` when the key does not hold a hash.
    pub fn hget_all(&mut self, key: &str, now: u64) -> (r: Option<Vec<(String, String)>>)
        requires
            old(self).inv(),
        ensures
            final(self).inv(),
            final(self)@ == old(self)@.purged(key@, now),
            match hash_of(old(self)@, key@, now) {
                Some(h) => r matches Some(v) && distinct_keys(pair_views(v@)) && amap(
                    pair_views(v@),
                ) == h,
                None => r is None,
            },
    {
        match self.get(key, now) {
            Some(Value::Hash(h)) => Some(h),
            _ => None,
        }
    }

    /// Adds `by` to the integer stored as text under field `field` of
    /// the hash under `key`, creating the field with value `by` when
    /// absent; fails without mutating when the key does not hold a
    /// hash, the field value is not numeric text, or the sum does not
    /// fit. A successful write clears any expiration.
    pub fn hincr_by(&mut self, key: &str, field: &str, by: i64, now: u64) -> (r: Option<i64>)
        requires
            old(self).inv(),
        ensures
            final(self).inv(),
            match hincr_result(old(self)@, key@, field@, by, now) {
                Some(n) => r == Some(n as i64) && final(self)@ == old(self)@.purged(
                    key@,
                    now,
                ).upserted(
                    key@,
                    VView::Hash(hash_or_new(old(self)@, key@, now).insert(field@, int_digits(n))),
                ),
                None => r is None && final(self)@ == old(self)@.purged(key@, now),
            },
    {
        match self.get(key, now) {
            Some(Value::Hash(mut h)) => {
                match hash_lookup(&h, field) {
                    Some(t) => {
                        match parse_i64(t.as_str()) {
                            Some(cur) => {
                                match cur.checked_add(by) {
                                    Some(sum) => {
                                        let text = i64_string(sum);
                                        hash_put(&mut h, field.to_owned(), text);
                                        self.set(key, &Value::Hash(h));
                                        Some(sum)
                                    },
                                    None => None,
                                }
                            },
                            None => None,
                        }
                    },
                    None => {
                        let text = i64_string(by);
                        hash_put(&mut h, field.to_owned(), text);
                        self.set(key, &Value::Hash(h));
                        Some(by)
                    },
                }
            },
            _ => None,
        }
    }
}

} // verus!
