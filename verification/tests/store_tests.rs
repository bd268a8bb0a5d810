use miniredis::store::Store;
use miniredis::value::Value;

fn s(x: &str) -> String {
    x.to_string()
}

fn text(x: &str) -> Value {
    Value::Text(s(x))
}

fn get_text(st: &mut Store, key: &str, now: u64) -> Option<String> {
    st.get(key, now).map(|v| v.as_string().unwrap().clone())
}

#[test]
fn set_then_get_returns_value() {
    let mut st = Store::new();
    st.set("k", &text("v"));
    assert_eq!(get_text(&mut st, "k", 10), Some(s("v")));
    st.set("k", &text("w"));
    assert_eq!(get_text(&mut st, "k", 10), Some(s("w")));
}

#[test]
fn del_reports_prior_existence_and_get_is_absent() {
    let mut st = Store::new();
    st.set("k", &text("v"));
    assert_eq!(st.del("k", 0), true);
    assert!(st.get("k", 0).is_none());
    assert_eq!(st.del("k", 0), false);
}

#[test]
fn expire_zero_makes_key_absent_and_ttl_minus_two() {
    let mut st = Store::new();
    st.set("k", &text("v"));
    assert_eq!(st.expire("k", 0, 100), true);
    assert!(st.get("k", 100).is_none());
    assert_eq!(st.ttl("k", 100), -2);
}

#[test]
fn expire_on_missing_key_is_refused() {
    let mut st = Store::new();
    assert_eq!(st.expire("k", 5, 100), false);
    assert_eq!(st.ttl("k", 100), -2);
}

#[test]
fn ttl_counts_down_then_key_expires() {
    let mut st = Store::new();
    st.set("k", &text("v"));
    assert_eq!(st.ttl("k", 100), -1);
    assert_eq!(st.expire("k", 5, 100), true);
    assert_eq!(st.ttl("k", 100), 5);
    assert_eq!(st.ttl("k", 102), 3);
    assert_eq!(st.ttl("k", 104), 1);
    assert_eq!(st.ttl("k", 105), -2);
    assert!(st.get("k", 106).is_none());
}

#[test]
fn set_clears_expiration() {
    let mut st = Store::new();
    st.set("k", &text("v"));
    st.expire("k", 5, 100);
    st.set("k", &text("w"));
    assert_eq!(st.ttl("k", 200), -1);
    assert_eq!(get_text(&mut st, "k", 200), Some(s("w")));
}

#[test]
fn incr_on_absent_key_starts_from_zero() {
    let mut st = Store::new();
    assert_eq!(st.incr_by("n", 5, 0), Some(5));
    assert_eq!(st.incr_by("n", -2, 0), Some(3));
    assert_eq!(get_text(&mut st, "n", 0), Some(s("3")));
}

#[test]
fn incr_on_non_numeric_text_fails_without_mutation() {
    let mut st = Store::new();
    st.set("k", &text("abc"));
    assert_eq!(st.incr_by("k", 1, 0), None);
    assert_eq!(get_text(&mut st, "k", 0), Some(s("abc")));
}

#[test]
fn incr_on_non_text_fails() {
    let mut st = Store::new();
    st.rpush("k", &vec![s("a")], 0);
    assert_eq!(st.incr_by("k", 1, 0), None);
}

#[test]
fn incr_overflow_fails_without_mutation() {
    let mut st = Store::new();
    st.set("k", &text("9223372036854775807"));
    assert_eq!(st.incr_by("k", 1, 0), None);
    assert_eq!(get_text(&mut st, "k", 0), Some(s("9223372036854775807")));
}

#[test]
fn rpush_keeps_argument_order() {
    let mut st = Store::new();
    let n = st.rpush("l", &vec![s("a"), s("b"), s("c")], 0);
    assert_eq!(n, 3);
    assert_eq!(st.lrange("l", 0, 2, 0), Some(vec![s("a"), s("b"), s("c")]));
}

#[test]
fn lpush_reverses_argument_order() {
    let mut st = Store::new();
    let n = st.lpush("l", &vec![s("a"), s("b"), s("c")], 0);
    assert_eq!(n, 3);
    assert_eq!(st.lrange("l", 0, 2, 0), Some(vec![s("c"), s("b"), s("a")]));
}

#[test]
fn pops_take_from_both_ends() {
    let mut st = Store::new();
    st.rpush("l", &vec![s("a"), s("b"), s("c")], 0);
    assert_eq!(st.lpop("l", 0), Some(s("a")));
    assert_eq!(st.rpop("l", 0), Some(s("c")));
    assert_eq!(st.llen("l", 0), Some(1));
    assert_eq!(st.lpop("l", 0), Some(s("b")));
    assert_eq!(st.lpop("l", 0), None);
    assert_eq!(st.lpop("missing", 0), None);
}

#[test]
fn lindex_and_lset() {
    let mut st = Store::new();
    st.rpush("l", &vec![s("a"), s("b"), s("c")], 0);
    assert_eq!(st.lindex("l", 1, 0), Some(s("b")));
    assert_eq!(st.lindex("l", 3, 0), None);
    assert_eq!(st.lset("l", 1, s("B"), 0), true);
    assert_eq!(st.lindex("l", 1, 0), Some(s("B")));
    assert_eq!(st.lset("l", 9, s("x"), 0), false);
    assert_eq!(st.lset("other", 0, s("x"), 0), false);
}

#[test]
fn lrange_rejects_equal_or_descending_bounds() {
    let mut st = Store::new();
    st.rpush("l", &vec![s("a"), s("b"), s("c")], 0);
    assert_eq!(st.lrange("l", 2, 2, 0), None);
    assert_eq!(st.lrange("l", 2, 1, 0), None);
    assert_eq!(st.lrange("l", 0, 3, 0), None);
    assert_eq!(st.lrange("l", 1, 2, 0), Some(vec![s("b"), s("c")]));
}

#[test]
fn lrem_zero_removes_every_occurrence() {
    let mut st = Store::new();
    st.rpush("l", &vec![s("x"), s("a"), s("x"), s("b"), s("x")], 0);
    assert_eq!(st.lrem("l", 0, s("x"), 0), 3);
    assert_eq!(st.lrange("l", 0, 1, 0), Some(vec![s("a"), s("b")]));
    assert_eq!(st.lrem("l", 0, s("x"), 0), 0);
}

#[test]
fn lrem_positive_removes_from_front() {
    let mut st = Store::new();
    st.rpush("l", &vec![s("x"), s("a"), s("x"), s("b"), s("x")], 0);
    assert_eq!(st.lrem("l", 2, s("x"), 0), 2);
    assert_eq!(st.lrange("l", 0, 2, 0), Some(vec![s("a"), s("b"), s("x")]));
}

#[test]
fn lrem_negative_removes_from_back() {
    let mut st = Store::new();
    st.rpush("l", &vec![s("x"), s("a"), s("x"), s("b"), s("x")], 0);
    assert_eq!(st.lrem("l", -2, s("x"), 0), 2);
    assert_eq!(st.lrange("l", 0, 2, 0), Some(vec![s("x"), s("a"), s("b")]));
}

#[test]
fn lrem_on_missing_key_removes_nothing() {
    let mut st = Store::new();
    assert_eq!(st.lrem("l", 0, s("x"), 0), 0);
}

#[test]
fn hash_family() {
    let mut st = Store::new();
    assert_eq!(st.hset("h", "f", "1", 0), false);
    assert_eq!(st.hset("h", "f", "2", 0), true);
    assert_eq!(st.hset("h", "g", "3", 0), false);
    assert_eq!(st.hget("h", "f", 0), Some(s("2")));
    assert_eq!(st.hget("h", "missing", 0), None);
    assert_eq!(st.hlen("h", 0), Some(2));
    assert_eq!(st.hdel("h", "f", 0), true);
    assert_eq!(st.hdel("h", "f", 0), false);
    assert_eq!(st.hlen("h", 0), Some(1));
    let mut all = st.hget_all("h", 0).unwrap();
    all.sort();
    assert_eq!(all, vec![(s("g"), s("3"))]);
    assert_eq!(st.hget("nothash", "f", 0), None);
    assert_eq!(st.hlen("nothash", 0), None);
    assert_eq!(st.hget_all("nothash", 0), None);
}

#[test]
fn hincr_by_creates_and_adds() {
    let mut st = Store::new();
    st.hset("h", "other", "x", 0);
    assert_eq!(st.hincr_by("h", "n", 5, 0), Some(5));
    assert_eq!(st.hincr_by("h", "n", -2, 0), Some(3));
    assert_eq!(st.hget("h", "n", 0), Some(s("3")));
    assert_eq!(st.hincr_by("h", "other", 1, 0), None);
    assert_eq!(st.hget("h", "other", 0), Some(s("x")));
    assert_eq!(st.hincr_by("missing", "n", 1, 0), None);
}

#[test]
fn push_replaces_other_variant_wholesale() {
    let mut st = Store::new();
    st.set("k", &text("v"));
    let n = st.rpush("k", &vec![s("a")], 0);
    assert_eq!(n, 1);
    assert_eq!(st.llen("k", 0), Some(1));
}

#[test]
fn lazy_expiration_purges_on_access() {
    let mut st = Store::new();
    st.set("k", &text("v"));
    st.expire("k", 5, 100);
    assert_eq!(get_text(&mut st, "k", 104), Some(s("v")));
    assert!(st.get("k", 105).is_none());
    assert!(st.get("k", 105).is_none());
}
