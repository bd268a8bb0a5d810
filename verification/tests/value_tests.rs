use miniredis::value::{Value, WrongType};

fn s(x: &str) -> String {
    x.to_string()
}

#[test]
fn variant_predicates() {
    assert!(Value::new_string().is_string());
    assert!(Value::new_list().is_list());
    assert!(Value::new_hash().is_hash());
    assert!(Value::new_set().is_set());
    assert!(!Value::new_string().is_list());
    assert!(!Value::new_list().is_hash());
}

#[test]
fn accessors_match_variants() {
    let t = Value::Text(s("hi"));
    assert_eq!(t.as_string(), Some(&s("hi")));
    assert!(t.as_list().is_none());
    assert!(t.as_hash().is_none());
    assert!(t.as_set().is_none());
}

#[test]
fn list_push_pop() {
    let mut v = Value::new_list();
    assert_eq!(v.push(s("a")), Ok(()));
    assert_eq!(v.push(s("b")), Ok(()));
    assert_eq!(v.len(), 2);
    assert_eq!(v.pop(), Ok(Some(s("a"))));
    assert_eq!(v.pop(), Ok(Some(s("b"))));
    assert_eq!(v.pop(), Ok(None));
}

#[test]
fn list_ops_on_wrong_variant_fail() {
    let mut v = Value::new_hash();
    assert_eq!(v.push(s("a")), Err(WrongType));
    assert_eq!(v.pop(), Err(WrongType));
    assert!(v.is_hash());
}

#[test]
fn hash_insert_get_len() {
    let mut v = Value::new_hash();
    assert_eq!(v.insert(s("f"), s("1")), Ok(()));
    assert_eq!(v.insert(s("g"), s("2")), Ok(()));
    assert_eq!(v.get("f"), Ok(Some(s("1"))));
    assert_eq!(v.get("missing"), Ok(None));
    assert_eq!(v.len(), 2);
    assert_eq!(v.insert(s("f"), s("3")), Ok(()));
    assert_eq!(v.get("f"), Ok(Some(s("3"))));
    assert_eq!(v.len(), 2);
}

#[test]
fn hash_ops_on_wrong_variant_fail() {
    let mut v = Value::new_list();
    assert_eq!(v.insert(s("f"), s("1")), Err(WrongType));
    assert_eq!(v.get("f"), Err(WrongType));
}

#[test]
fn set_add_contains_remove() {
    let mut v = Value::new_set();
    assert_eq!(v.add(s("x")), Ok(()));
    assert_eq!(v.add(s("y")), Ok(()));
    assert_eq!(v.add(s("x")), Ok(()));
    assert_eq!(v.len(), 2);
    assert_eq!(v.contains("x"), Ok(true));
    assert_eq!(v.contains("z"), Ok(false));
    assert_eq!(v.remove("x"), Ok(()));
    assert_eq!(v.contains("x"), Ok(false));
    assert_eq!(v.len(), 1);
    assert_eq!(v.remove("never"), Ok(()));
    assert_eq!(v.len(), 1);
}

#[test]
fn set_ops_on_wrong_variant_fail() {
    let mut v = Value::new_string();
    assert_eq!(v.add(s("x")), Err(WrongType));
    assert_eq!(v.contains("x"), Err(WrongType));
    assert_eq!(v.remove("x"), Err(WrongType));
}

#[test]
fn len_counts_characters_of_text() {
    let v = Value::Text(s("hello"));
    assert_eq!(v.len(), 5);
    let empty = Value::new_string();
    assert_eq!(empty.len(), 0);
}

#[test]
fn duplicate_is_deep_and_equal() {
    let mut v = Value::new_list();
    v.push(s("a")).unwrap();
    let mut copy = v.duplicate();
    copy.push(s("b")).unwrap();
    assert_eq!(v.len(), 1);
    assert_eq!(copy.len(), 2);
}
