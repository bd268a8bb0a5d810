//! The typed value model: one stored value is exactly one of a text
//! string, an ordered double-ended list of strings, a field-to-value
//! hash, or an unordered set of unique strings.
//!
//! Each variant is modelled mathematically: text as a `Seq<char>`, a
//! list as a `Seq` of them, a hash as a `Map`, a set as a `Set`. An
//! operation applied to the wrong variant reports a type mismatch
//! instead of failing fatally.

use vstd::prelude::*;
use vstd::assert_sets_equal;
use std::collections::VecDeque;

verus! {

/// Mathematical shape of a stored value.
pub enum VView {
    Text(Seq<char>),
    List(Seq<Seq<char>>),
    Hash(Map<Seq<char>, Seq<char>>),
    Members(Set<Seq<char>>),
}

/// One stored value; exactly one variant is active at a time.
#[derive(Debug)]
pub enum Value {
    /// An arbitrary string.
    Text(String),
    /// An ordered, double-ended sequence of strings.
    List(VecDeque<String>),
    /// A mapping from field name to string value, fields unique,
    /// insertion order irrelevant.
    Hash(Vec<(String, String)>),
    /// A collection of unique strings.
    Members(Vec<String>),
}

/// Error returned when an operation meets the wrong value variant.
#[derive(Debug, Clone, Copy, PartialEq, Eq, Structural)]
pub struct WrongType;

pub open spec fn strs(s: Seq<String>) -> Seq<Seq<char>> {
    s.map_values(|x: String| x@)
}

pub open spec fn pair_views(s: Seq<(String, String)>) -> Seq<(Seq<char>, Seq<char>)> {
    s.map_values(|p: (String, String)| (p.0@, p.1@))
}

/// The mapping that a sequence of field/value pairs denotes; a later
/// pair with the same field name wins.
pub open spec fn amap(s: Seq<(Seq<char>, Seq<char>)>) -> Map<Seq<char>, Seq<char>>
    decreases s.len(),
{
    if s.len() == 0 {
        Map::empty()
    } else {
        amap(s.drop_last()).insert(s.last().0, s.last().1)
    }
}

pub open spec fn distinct_keys(s: Seq<(Seq<char>, Seq<char>)>) -> bool {
    forall|i: int, j: int| 0 <= i < j < s.len() ==> (#[trigger] s[i]).0 != (#[trigger] s[j]).0
}

impl View for Value {
    type V = VView;

    open spec fn view(&self) -> VView {
        match self {
            Value::Text(s) => VView::Text(s@),
            Value::List(l) => VView::List(strs(l@)),
            Value::Hash(h) => VView::Hash(amap(pair_views(h@))),
            Value::Members(m) => VView::Members(strs(m@).to_set()),
        }
    }
}

impl Value {
    /// Structural well-formedness: hash field names are unique, set
    /// members are unique.
    pub open spec fn inv(&self) -> bool {
        match self {
            Value::Text(_) => true,
            Value::List(_) => true,
            Value::Hash(h) => distinct_keys(pair_views(h@)),
            Value::Members(m) => strs(m@).no_duplicates(),
        }
    }
}

pub proof fn lemma_amap_contains(s: Seq<(Seq<char>, Seq<char>)>, k: Seq<char>)
    ensures
        amap(s).contains_key(k) <==> exists|i: int| 0 <= i < s.len() && (#[trigger] s[i]).0 == k,
    decreases s.len(),
{
    if s.len() > 0 {
        lemma_amap_contains(s.drop_last(), k);
        if s.last().0 == k {
            assert(s[s.len() - 1].0 == k);
        } else {
            if exists|i: int| 0 <= i < s.len() && (#[trigger] s[i]).0 == k {
                let i = choose|i: int| 0 <= i < s.len() && (#[trigger] s[i]).0 == k;
                assert(s.drop_last()[i].0 == k);
            }
        }
    }
}

pub proof fn lemma_amap_get(s: Seq<(Seq<char>, Seq<char>)>, i: int)
    requires
        distinct_keys(s),
        0 <= i < s.len(),
    ensures
        amap(s).contains_key(s[i].0),
        amap(s)[s[i].0] == s[i].1,
    decreases s.len(),
{
    if i < s.len() - 1 {
        assert(distinct_keys(s.drop_last()));
        assert(s.drop_last()[i] == s[i]);
        lemma_amap_get(s.drop_last(), i);
        assert(s[i].0 != s.last().0);
    }
}

pub proof fn lemma_amap_push(s: Seq<(Seq<char>, Seq<char>)>, k: Seq<char>, v: Seq<char>)
    ensures
        amap(s.push((k, v))) == amap(s).insert(k, v),
{
    assert(s.push((k, v)).drop_last() =~= s);
    assert(s.push((k, v)).last() == (k, v));
}

pub proof fn lemma_amap_remove(s: Seq<(Seq<char>, Seq<char>)>, i: int)
    requires
        distinct_keys(s),
        0 <= i < s.len(),
    ensures
        amap(s.remove(i)) == amap(s).remove(s[i].0),
    decreases s.len(),
{
    let k = s[i].0;
    if i == s.len() - 1 {
        assert(s.remove(i) =~= s.drop_last());
        lemma_amap_contains(s.drop_last(), k);
        assert(forall|j: int| 0 <= j < s.len() - 1 ==> (#[trigger] s.drop_last()[j]).0 != k);
        assert(amap(s.remove(i)) =~= amap(s).remove(k));
    } else {
        let dl = s.drop_last();
        assert(distinct_keys(dl));
        assert(dl[i] == s[i]);
        lemma_amap_remove(dl, i);
        assert(s.remove(i).drop_last() =~= dl.remove(i));
        assert(s.remove(i).last() == s.last());
        assert(k != s.last().0);
        assert(amap(s.remove(i)) =~= amap(s).remove(k));
    }
}

pub proof fn lemma_amap_len(s: Seq<(Seq<char>, Seq<char>)>)
    requires
        distinct_keys(s),
    ensures
        amap(s).dom().finite(),
        amap(s).len() == s.len(),
    decreases s.len(),
{
    if s.len() == 0 {
        assert(amap(s).dom() =~= Set::<Seq<char>>::empty());
    } else {
        let dl = s.drop_last();
        assert(distinct_keys(dl));
        lemma_amap_len(dl);
        lemma_amap_contains(dl, s.last().0);
        assert(forall|j: int| 0 <= j < dl.len() ==> (#[trigger] dl[j]).0 != s.last().0);
        assert(!amap(dl).contains_key(s.last().0));
        assert(amap(s).dom() =~= amap(dl).dom().insert(s.last().0));
    }
}

pub proof fn lemma_strs_to_set_push(s: Seq<Seq<char>>, x: Seq<char>)
    ensures
        s.push(x).to_set() == s.to_set().insert(x),
{
    broadcast use vstd::set::group_set_axioms;

    assert_sets_equal!(s.push(x).to_set() == s.to_set().insert(x), y => {
        if s.contains(y) {
            let i = choose|i: int| 0 <= i < s.len() && s[i] == y;
            assert(s.push(x)[i] == y);
        }
        if y == x {
            assert(s.push(x)[s.len() as int] == y);
        }
        if s.push(x).contains(y) {
            let i = choose|i: int| 0 <= i < s.push(x).len() && s.push(x)[i] == y;
            if i < s.len() {
                assert(s[i] == y);
            }
        }
    });
}

pub proof fn lemma_strs_to_set_remove(s: Seq<Seq<char>>, i: int)
    requires
        s.no_duplicates(),
        0 <= i < s.len(),
    ensures
        s.remove(i).to_set() == s.to_set().remove(s[i]),
{
    assert forall|y: Seq<char>| s.remove(i).contains(y) <==> (s.contains(y) && y != s[i]) by {
        if s.remove(i).contains(y) {
            let j = choose|j: int| 0 <= j < s.remove(i).len() && s.remove(i)[j] == y;
            if j < i {
                assert(s[j] == y);
                assert(s[j] != s[i]);
            } else {
                assert(s[j + 1] == y);
                assert(s[j + 1] != s[i]);
            }
        }
        if s.contains(y) && y != s[i] {
            let j = choose|j: int| 0 <= j < s.len() && s[j] == y;
            if j < i {
                assert(s.remove(i)[j] == y);
            } else {
                assert(j > i);
                assert(s.remove(i)[j - 1] == y);
            }
        }
    }
    assert(s.remove(i).to_set() =~= s.to_set().remove(s[i]));
}

/// Equality between an owned string and a borrowed one, decided by
/// their character sequences.
pub(crate) fn string_eq_str(a: &String, b: &str) -> (r: bool)
    ensures
        r == (a@ == b@),
{
    let bs = String::from_str(b);
    *a == bs
}

/// Copies a double-ended list of strings.
fn clone_deque(l: &VecDeque<String>) -> (r: VecDeque<String>)
    ensures
        r@ == l@,
{
    let mut r: VecDeque<String> = VecDeque::new();
    let mut i: usize = 0;
    while i < l.len()
        invariant
            0 <= i <= l@.len(),
            r@ == l@.subrange(0, i as int),
        decreases l@.len() - i,
    {
        r.push_back(l[i].clone());
        proof {
            assert(l@.subrange(0, i + 1) =~= l@.subrange(0, i as int).push(l@[i as int]));
        }
        i = i + 1;
    }
    proof {
        assert(l@.subrange(0, l@.len() as int) =~= l@);
    }
    r
}

/// Copies a vector of strings.
fn clone_strings(v: &Vec<String>) -> (r: Vec<String>)
    ensures
        r@ == v@,
{
    let mut r: Vec<String> = Vec::new();
    let mut i: usize = 0;
    while i < v.len()
        invariant
            0 <= i <= v@.len(),
            r@ == v@.subrange(0, i as int),
        decreases v@.len() - i,
    {
        r.push(v[i].clone());
        proof {
            assert(v@.subrange(0, i + 1) =~= v@.subrange(0, i as int).push(v@[i as int]));
        }
        i = i + 1;
    }
    proof {
        assert(v@.subrange(0, v@.len() as int) =~= v@);
    }
    r
}

/// Copies a vector of field/value pairs.
fn clone_pairs(v: &Vec<(String, String)>) -> (r: Vec<(String, String)>)
    ensures
        r@ == v@,
{
    let mut r: Vec<(String, String)> = Vec::new();
    let mut i: usize = 0;
    while i < v.len()
        invariant
            0 <= i <= v@.len(),
            r@ == v@.subrange(0, i as int),
        decreases v@.len() - i,
    {
        let p = &v[i];
        r.push((p.0.clone(), p.1.clone()));
        proof {
            assert(v@.subrange(0, i + 1) =~= v@.subrange(0, i as int).push(v@[i as int]));
        }
        i = i + 1;
    }
    proof {
        assert(v@.subrange(0, v@.len() as int) =~= v@);
    }
    r
}

/// Position of a field name in a pair vector, scanning from the front.
pub(crate) fn hash_find(h: &Vec<(String, String)>, field: &str) -> (r: Option<usize>)
    ensures
        match r {
            Some(i) => i < h@.len() && pair_views(h@)[i as int].0 == field@,
            None => forall|j: int|
                0 <= j < h@.len() ==> (#[trigger] pair_views(h@)[j]).0 != field@,
        },
{
    let mut i: usize = 0;
    while i < h.len()
        invariant
            0 <= i <= h@.len(),
            forall|j: int| 0 <= j < i ==> (#[trigger] pair_views(h@)[j]).0 != field@,
        decreases h@.len() - i,
    {
        if string_eq_str(&h[i].0, field) {
            return Some(i);
        }
        i = i + 1;
    }
    None
}

/// Position of a string in a member vector, scanning from the front.
fn members_find(m: &Vec<String>, value: &str) -> (r: Option<usize>)
    ensures
        match r {
            Some(i) => i < m@.len() && strs(m@)[i as int] == value@,
            None => forall|j: int| 0 <= j < m@.len() ==> (#[trigger] strs(m@)[j]) != value@,
        },
{
    let mut i: usize = 0;
    while i < m.len()
        invariant
            0 <= i <= m@.len(),
            forall|j: int| 0 <= j < i ==> (#[trigger] strs(m@)[j]) != value@,
        decreases m@.len() - i,
    {
        if string_eq_str(&m[i], value) {
            return Some(i);
        }
        i = i + 1;
    }
    None
}

impl Value {
    /// Empty text value.
    pub fn new_string() -> (r: Value)
        ensures
            r@ == VView::Text(Seq::<char>::empty()),
            r.inv(),
    {
        Value::Text(String::new())
    }

    /// Empty list value.
    pub fn new_list() -> (r: Value)
        ensures
            r@ == VView::List(Seq::<Seq<char>>::empty()),
            r.inv(),
    {
        let l: VecDeque<String> = VecDeque::new();
        proof {
            assert(strs(l@) =~= Seq::<Seq<char>>::empty());
        }
        Value::List(l)
    }

    /// Empty hash value.
    pub fn new_hash() -> (r: Value)
        ensures
            r@ == VView::Hash(Map::<Seq<char>, Seq<char>>::empty()),
            r.inv(),
    {
        let h: Vec<(String, String)> = Vec::new();
        proof {
            assert(pair_views(h@) =~= Seq::<(Seq<char>, Seq<char>)>::empty());
        }
        Value::Hash(h)
    }

    /// Empty set value.
    pub fn new_set() -> (r: Value)
        ensures
            r@ == VView::Members(Set::<Seq<char>>::empty()),
            r.inv(),
    {
        let m: Vec<String> = Vec::new();
        proof {
            assert(strs(m@) =~= Seq::<Seq<char>>::empty());
            assert(strs(m@).to_set() =~= Set::<Seq<char>>::empty());
        }
        Value::Members(m)
    }

    /// A deep copy with the same mathematical value.
    pub fn duplicate(&self) -> (r: Value)
        ensures
            r@ == self@,
            self.inv() ==> r.inv(),
    {
        match self {
            Value::Text(s) => Value::Text(s.clone()),
            Value::List(l) => Value::List(clone_deque(l)),
            Value::Hash(h) => Value::Hash(clone_pairs(h)),
            Value::Members(m) => Value::Members(clone_strings(m)),
        }
    }

    pub fn as_string(&self) -> (r: Option<&String>)
        ensures
            match r {
                Some(s) => self@ == VView::Text(s@),
                None => !(self@ is Text),
            },
    {
        if let Value::Text(ref s) = *self {
            Some(s)
        } else {
            None
        }
    }

    pub fn as_list(&self) -> (r: Option<&VecDeque<String>>)
        ensures
            match r {
                Some(l) => self@ == VView::List(strs(l@)),
                None => !(self@ is List),
            },
    {
        if let Value::List(ref l) = *self {
            Some(l)
        } else {
            None
        }
    }

    pub fn as_hash(&self) -> (r: Option<&Vec<(String, String)>>)
        ensures
            match r {
                Some(h) => self@ == VView::Hash(amap(pair_views(h@))),
                None => !(self@ is Hash),
            },
    {
        if let Value::Hash(ref h) = *self {
            Some(h)
        } else {
            None
        }
    }

    pub fn as_set(&self) -> (r: Option<&Vec<String>>)
        ensures
            match r {
                Some(m) => self@ == VView::Members(strs(m@).to_set()),
                None => !(self@ is Members),
            },
    {
        if let Value::Members(ref m) = *self {
            Some(m)
        } else {
            None
        }
    }

    pub fn is_string(&self) -> (r: bool)
        ensures
            r == (self@ is Text),
    {
        matches!(self, Value::Text(_))
    }

    pub fn is_list(&self) -> (r: bool)
        ensures
            r == (self@ is List),
    {
        matches!(self, Value::List(_))
    }

    pub fn is_hash(&self) -> (r: bool)
        ensures
            r == (self@ is Hash),
    {
        matches!(self, Value::Hash(_))
    }

    pub fn is_set(&self) -> (r: bool)
        ensures
            r == (self@ is Members),
    {
        matches!(self, Value::Members(_))
    }

    /// Appends to the back of a list value; a type mismatch on any
    /// other variant, which is left unchanged.
    pub fn push(&mut self, value: String) -> (r: Result<(), WrongType>)
        ensures
            match r {
                Ok(()) => {
                    &&& old(self)@ is List
                    &&& final(self)@ == VView::List(old(self)@->List_0.push(value@))
                },
                Err(_) => !(old(self)@ is List) && final(self)@ == old(self)@,
            },
            old(self).inv() ==> final(self).inv(),
    {
        let mut tmp = Value::Text(String::new());
        core::mem::swap(self, &mut tmp);
        match tmp {
            Value::List(mut l) => {
                let ghost oldl = strs(l@);
                l.push_back(value);
                proof {
                    assert(strs(l@) =~= oldl.push(value@));
                }
                *self = Value::List(l);
                Ok(())
            },
            other => {
                *self = other;
                Err(WrongType)
            },
        }
    }

    /// Removes and returns the front of a list value, `None` when the
    /// list is empty; a type mismatch on any other variant.
    pub fn pop(&mut self) -> (r: Result<Option<String>, WrongType>)
        ensures
            match r {
                Ok(v) => {
                    &&& old(self)@ is List
                    &&& (match v {
                        Some(x) => old(self)@->List_0.len() > 0 && x@ == old(self)@->List_0[0]
                            && final(self)@ == VView::List(old(self)@->List_0.drop_first()),
                        None => old(self)@->List_0.len() == 0 && final(self)@ == old(self)@,
                    })
                },
                Err(_) => !(old(self)@ is List) && final(self)@ == old(self)@,
            },
            old(self).inv() ==> final(self).inv(),
    {
        let mut tmp = Value::Text(String::new());
        core::mem::swap(self, &mut tmp);
        match tmp {
            Value::List(mut l) => {
                let ghost oldl = strs(l@);
                let v = l.pop_front();
                proof {
                    if oldl.len() > 0 {
                        assert(strs(l@) =~= oldl.drop_first());
                    } else {
                        assert(strs(l@) =~= oldl);
                    }
                }
                *self = Value::List(l);
                Ok(v)
            },
            other => {
                *self = other;
                Err(WrongType)
            },
        }
    }

    /// Sets a field of a hash value, replacing any previous value for
    /// that field; a type mismatch on any other variant.
    pub fn insert(&mut self, key: String, value: String) -> (r: Result<(), WrongType>)
        requires
            old(self).inv(),
        ensures
            final(self).inv(),
            match r {
                Ok(()) => {
                    &&& old(self)@ is Hash
                    &&& final(self)@ == VView::Hash(old(self)@->Hash_0.insert(key@, value@))
                },
                Err(_) => !(old(self)@ is Hash) && final(self)@ == old(self)@,
            },
    {
        let mut tmp = Value::Text(String::new());
        core::mem::swap(self, &mut tmp);
        match tmp {
            Value::Hash(mut h) => {
                hash_put(&mut h, key, value);
                *self = Value::Hash(h);
                Ok(())
            },
            other => {
                *self = other;
                Err(WrongType)
            },
        }
    }

    /// Reads a field of a hash value; a type mismatch on any other
    /// variant.
    pub fn get(&self, key: &str) -> (r: Result<Option<String>, WrongType>)
        requires
            self.inv(),
        ensures
            match r {
                Ok(v) => {
                    &&& self@ is Hash
                    &&& (match v {
                        Some(x) => self@->Hash_0.contains_key(key@) && x@ == self@->Hash_0[key@],
                        None => !self@->Hash_0.contains_key(key@),
                    })
                },
                Err(_) => !(self@ is Hash),
            },
    {
        match self {
            Value::Hash(h) => Ok(hash_lookup(h, key)),
            _ => Err(WrongType),
        }
    }

    /// Adds a string to a set value; no effect if it is already a
    /// member; a type mismatch on any other variant.
    pub fn add(&mut self, value: String) -> (r: Result<(), WrongType>)
        requires
            old(self).inv(),
        ensures
            final(self).inv(),
            match r {
                Ok(()) => {
                    &&& old(self)@ is Members
                    &&& final(self)@ == VView::Members(old(self)@->Members_0.insert(value@))
                },
                Err(_) => !(old(self)@ is Members) && final(self)@ == old(self)@,
            },
    {
        let mut tmp = Value::Text(String::new());
        core::mem::swap(self, &mut tmp);
        match tmp {
            Value::Members(mut m) => {
                let ghost olds = strs(m@);
                match members_find(&m, value.as_str()) {
                    Some(_) => {
                        proof {
                            assert(olds.contains(value@));
                            assert(olds.to_set().contains(value@));
                            assert(olds.to_set().insert(value@) =~= olds.to_set());
                        }
                    },
                    None => {
                        m.push(value);
                        proof {
                            assert(strs(m@) =~= olds.push(value@));
                            lemma_strs_to_set_push(olds, value@);
                            assert(forall|j: int| 0 <= j < olds.len()
                                ==> (#[trigger] olds[j]) != strs(m@).last());
                        }
                    },
                }
                *self = Value::Members(m);
                Ok(())
            },
            other => {
                *self = other;
                Err(WrongType)
            },
        }
    }

    /// Reports whether a string is a member of a set value; a type
    /// mismatch on any other variant.
    pub fn contains(&self, value: &str) -> (r: Result<bool, WrongType>)
        ensures
            match r {
                Ok(b) => self@ is Members && b == self@->Members_0.contains(value@),
                Err(_) => !(self@ is Members),
            },
    {
        match self {
            Value::Members(m) => {
                match members_find(m, value) {
                    Some(i) => {
                        proof {
                            assert(strs(m@).contains(value@));
                        }
                        Ok(true)
                    },
                    None => {
                        proof {
                            assert(!strs(m@).contains(value@));
                        }
                        Ok(false)
                    },
                }
            },
            _ => Err(WrongType),
        }
    }

    /// Removes a string from a set value; no effect if it is not a
    /// member; a type mismatch on any other variant.
    pub fn remove(&mut self, value: &str) -> (r: Result<(), WrongType>)
        requires
            old(self).inv(),
        ensures
            final(self).inv(),
            match r {
                Ok(()) => {
                    &&& old(self)@ is Members
                    &&& final(self)@ == VView::Members(old(self)@->Members_0.remove(value@))
                },
                Err(_) => !(old(self)@ is Members) && final(self)@ == old(self)@,
            },
    {
        let mut tmp = Value::Text(String::new());
        core::mem::swap(self, &mut tmp);
        match tmp {
            Value::Members(mut m) => {
                let ghost olds = strs(m@);
                match members_find(&m, value) {
                    Some(i) => {
                        m.remove(i);
                        proof {
                            assert(strs(m@) =~= olds.remove(i as int));
                            lemma_strs_to_set_remove(olds, i as int);
                            assert(strs(m@).no_duplicates()) by {
                                let rem = olds.remove(i as int);
                                assert forall|a: int, b: int|
                                    0 <= a < rem.len() && 0 <= b < rem.len() && a != b
                                    implies rem[a] != rem[b] by {
                                    let a0: int = if a < i { a } else { a + 1 };
                                    let b0: int = if b < i { b } else { b + 1 };
                                    assert(rem[a] == olds[a0] && rem[b] == olds[b0]);
                                }
                            }
                        }
                    },
                    None => {
                        proof {
                            assert(!olds.contains(value@));
                            assert(!olds.to_set().contains(value@));
                            assert(olds.to_set().remove(value@) =~= olds.to_set());
                        }
                    },
                }
                *self = Value::Members(m);
                Ok(())
            },
            other => {
                *self = other;
                Err(WrongType)
            },
        }
    }

    /// Element or character count: characters of a text, elements of a
    /// list, fields of a hash, members of a set.
    pub fn len(&self) -> (r: usize)
        requires
            self.inv(),
        ensures
            r == match self@ {
                VView::Text(t) => t.len(),
                VView::List(l) => l.len(),
                VView::Hash(h) => h.len(),
                VView::Members(m) => m.len(),
            },
    {
        match self {
            Value::Text(s) => s.as_str().unicode_len(),
            Value::List(l) => l.len(),
            Value::Hash(h) => {
                proof {
                    lemma_amap_len(pair_views(h@));
                }
                h.len()
            },
            Value::Members(m) => {
                proof {
                    strs(m@).unique_seq_to_set();
                }
                m.len()
            },
        }
    }
}

/// Sets a field in a pair vector with unique field names, keeping
/// them unique: any pair with the same name is replaced.
pub(crate) fn hash_put(h: &mut Vec<(String, String)>, key: String, value: String)
    requires
        distinct_keys(pair_views(old(h)@)),
    ensures
        distinct_keys(pair_views(final(h)@)),
        amap(pair_views(final(h)@)) == amap(pair_views(old(h)@)).insert(key@, value@),
{
    let ghost olds = pair_views(h@);
    match hash_find(h, key.as_str()) {
        Some(i) => {
            h.remove(i);
            let ghost mids = pair_views(h@);
            proof {
                assert(mids =~= olds.remove(i as int));
                lemma_amap_remove(olds, i as int);
                assert(distinct_keys(mids)) by {
                    assert(forall|a: int, b: int| 0 <= a < b < mids.len()
                        ==> (#[trigger] mids[a]).0 != (#[trigger] mids[b]).0);
                }
                assert(forall|j: int| 0 <= j < mids.len()
                    ==> (#[trigger] mids[j]).0 != key@) by {
                    assert(forall|j: int| 0 <= j < olds.len() && j != i
                        ==> (#[trigger] olds[j]).0 != key@);
                }
            }
            h.push((key, value));
            proof {
                assert(pair_views(h@) =~= mids.push((key@, value@)));
                lemma_amap_push(mids, key@, value@);
                assert(amap(pair_views(h@)) =~= amap(olds).insert(key@, value@));
            }
        },
        None => {
            h.push((key, value));
            proof {
                assert(pair_views(h@) =~= olds.push((key@, value@)));
                lemma_amap_push(olds, key@, value@);
            }
        },
    }
}

/// Reads a field from a pair vector with unique field names.
pub(crate) fn hash_lookup(h: &Vec<(String, String)>, key: &str) -> (r: Option<String>)
    requires
        distinct_keys(pair_views(h@)),
    ensures
        match r {
            Some(x) => amap(pair_views(h@)).contains_key(key@)
                && x@ == amap(pair_views(h@))[key@],
            None => !amap(pair_views(h@)).contains_key(key@),
        },
{
    proof {
        lemma_amap_contains(pair_views(h@), key@);
    }
    match hash_find(h, key) {
        Some(i) => {
            proof {
                lemma_amap_get(pair_views(h@), i as int);
            }
            Some(h[i].1.clone())
        },
        None => None,
    }
}

/// Removes a field from a pair vector with unique field names;
/// reports whether it was present.
pub(crate) fn hash_del(h: &mut Vec<(String, String)>, key: &str) -> (r: bool)
    requires
        distinct_keys(pair_views(old(h)@)),
    ensures
        distinct_keys(pair_views(final(h)@)),
        r == amap(pair_views(old(h)@)).contains_key(key@),
        amap(pair_views(final(h)@)) == amap(pair_views(old(h)@)).remove(key@),
{
    let ghost olds = pair_views(h@);
    proof {
        lemma_amap_contains(olds, key@);
    }
    match hash_find(h, key) {
        Some(i) => {
            h.remove(i);
            proof {
                assert(pair_views(h@) =~= olds.remove(i as int));
                lemma_amap_remove(olds, i as int);
                assert(distinct_keys(pair_views(h@))) by {
                    let mids = olds.remove(i as int);
                    assert(forall|a: int, b: int| 0 <= a < b < mids.len()
                        ==> (#[trigger] mids[a]).0 != (#[trigger] mids[b]).0);
                }
            }
            true
        },
        None => {
            proof {
                assert(amap(olds).remove(key@) =~= amap(olds));
            }
            false
        },
    }
}

} // verus!
