use miniredis::command::Command;
use miniredis::store::Store;

fn s(x: &str) -> String {
    x.to_string()
}

fn run(st: &mut Store, line: &str, now: u64) -> String {
    let cmd = Command::parse(&s(line)).unwrap();
    cmd.execute(st, now)
}

#[test]
fn ping_and_quit() {
    let mut st = Store::new();
    assert_eq!(run(&mut st, "PING", 0), "+PONG\r\n");
    assert_eq!(run(&mut st, "QUIT", 0), "+OK\r\n");
    assert!(Command::parse(&s("QUIT")).unwrap().is_quit());
    assert!(!Command::parse(&s("PING")).unwrap().is_quit());
}

#[test]
fn set_get_round_trip_on_the_wire() {
    let mut st = Store::new();
    assert_eq!(run(&mut st, "SET k v", 0), "+OK\r\n");
    assert_eq!(run(&mut st, "GET k", 0), "$1\r\nv\r\n");
    assert_eq!(run(&mut st, "GET missing", 0), "$-1\r\n");
}

#[test]
fn verbs_are_case_insensitive() {
    let mut st = Store::new();
    assert_eq!(run(&mut st, "set k value", 0), "+OK\r\n");
    assert_eq!(run(&mut st, "GeT k", 0), "$5\r\nvalue\r\n");
}

#[test]
fn del_and_exists() {
    let mut st = Store::new();
    run(&mut st, "SET k v", 0);
    assert_eq!(run(&mut st, "EXISTS k", 0), ":1\r\n");
    assert_eq!(run(&mut st, "DEL k", 0), ":1\r\n");
    assert_eq!(run(&mut st, "DEL k", 0), ":0\r\n");
    assert_eq!(run(&mut st, "EXISTS k", 0), ":0\r\n");
}

#[test]
fn expire_and_ttl_replies() {
    let mut st = Store::new();
    run(&mut st, "SET k v", 100);
    assert_eq!(run(&mut st, "TTL k", 100), ":-1\r\n");
    assert_eq!(run(&mut st, "EXPIRE k 5", 100), ":1\r\n");
    assert_eq!(run(&mut st, "TTL k", 102), ":3\r\n");
    assert_eq!(run(&mut st, "TTL k", 105), ":-2\r\n");
    assert_eq!(run(&mut st, "GET k", 106), "$-1\r\n");
    assert_eq!(run(&mut st, "EXPIRE missing 5", 100), ":0\r\n");
}

#[test]
fn expire_zero_removes_at_once() {
    let mut st = Store::new();
    run(&mut st, "SET k v", 100);
    assert_eq!(run(&mut st, "EXPIRE k 0", 100), ":1\r\n");
    assert_eq!(run(&mut st, "GET k", 100), "$-1\r\n");
    assert_eq!(run(&mut st, "TTL k", 100), ":-2\r\n");
}

#[test]
fn strlen_counts_characters() {
    let mut st = Store::new();
    run(&mut st, "SET k hello", 0);
    assert_eq!(run(&mut st, "STRLEN k", 0), ":5\r\n");
    assert_eq!(run(&mut st, "STRLEN missing", 0), "$-1\r\n");
}

#[test]
fn increments_and_decrements() {
    let mut st = Store::new();
    assert_eq!(run(&mut st, "INCR n", 0), ":1\r\n");
    assert_eq!(run(&mut st, "INCRBY n 10", 0), ":11\r\n");
    assert_eq!(run(&mut st, "DECR n", 0), ":10\r\n");
    assert_eq!(run(&mut st, "DECRBY n 4", 0), ":6\r\n");
    assert_eq!(run(&mut st, "GET n", 0), "$1\r\n6\r\n");
}

#[test]
fn increment_of_non_numeric_value_is_an_error_reply() {
    let mut st = Store::new();
    run(&mut st, "SET k abc", 0);
    assert_eq!(
        run(&mut st, "INCR k", 0),
        "-ERR value is not an integer or out of range\r\n"
    );
    assert_eq!(run(&mut st, "GET k", 0), "$3\r\nabc\r\n");
}

#[test]
fn list_commands_on_the_wire() {
    let mut st = Store::new();
    assert_eq!(run(&mut st, "RPUSH l a b c", 0), ":3\r\n");
    assert_eq!(run(&mut st, "LLEN l", 0), ":3\r\n");
    assert_eq!(run(&mut st, "LRANGE l 0 2", 0), "*3\r\n$1\r\na\r\n$1\r\nb\r\n$1\r\nc\r\n");
    assert_eq!(run(&mut st, "LINDEX l 1", 0), "$1\r\nb\r\n");
    assert_eq!(run(&mut st, "LSET l 1 B", 0), "+OK\r\n");
    assert_eq!(run(&mut st, "LINDEX l 1", 0), "$1\r\nB\r\n");
    assert_eq!(run(&mut st, "LPOP l", 0), "$1\r\na\r\n");
    assert_eq!(run(&mut st, "RPOP l", 0), "$1\r\nc\r\n");
    assert_eq!(run(&mut st, "LPOP missing", 0), "$-1\r\n");
    assert_eq!(run(&mut st, "LLEN missing", 0), "$-1\r\n");
}

#[test]
fn lpush_inserts_each_at_the_front() {
    let mut st = Store::new();
    assert_eq!(run(&mut st, "LPUSH l a b c", 0), ":3\r\n");
    assert_eq!(run(&mut st, "LRANGE l 0 2", 0), "*3\r\n$1\r\nc\r\n$1\r\nb\r\n$1\r\na\r\n");
}

#[test]
fn lrange_boundary_policy_is_preserved() {
    let mut st = Store::new();
    run(&mut st, "RPUSH l a b c", 0);
    assert_eq!(run(&mut st, "LRANGE l 2 2", 0), "-ERR index out of range\r\n");
    assert_eq!(run(&mut st, "LRANGE l 2 1", 0), "-ERR index out of range\r\n");
    assert_eq!(run(&mut st, "LRANGE l 0 3", 0), "-ERR index out of range\r\n");
}

#[test]
fn lrem_counts_and_removes() {
    let mut st = Store::new();
    run(&mut st, "RPUSH l x a x b x", 0);
    assert_eq!(run(&mut st, "LREM l 0 x", 0), ":3\r\n");
    assert_eq!(run(&mut st, "LRANGE l 0 1", 0), "*2\r\n$1\r\na\r\n$1\r\nb\r\n");
}

#[test]
fn index_errors_on_the_wire() {
    let mut st = Store::new();
    run(&mut st, "RPUSH l a", 0);
    assert_eq!(run(&mut st, "LINDEX l 5", 0), "-ERR index out of range\r\n");
    assert_eq!(run(&mut st, "LSET l 5 x", 0), "-ERR index out of range\r\n");
}

#[test]
fn get_of_a_list_is_a_type_error() {
    let mut st = Store::new();
    run(&mut st, "RPUSH l a", 0);
    assert_eq!(run(&mut st, "GET l", 0), "-ERR wrong type\r\n");
}

#[test]
fn parse_rejects_empty_and_unknown() {
    assert_eq!(Command::parse(&s("")).unwrap_err(), "Empty command");
    assert_eq!(Command::parse(&s("   \t  ")).unwrap_err(), "Empty command");
    assert_eq!(
        Command::parse(&s("NOSUCH a b")).unwrap_err(),
        "Unknown or malformed command: NOSUCH"
    );
    assert_eq!(
        Command::parse(&s("SET onlykey")).unwrap_err(),
        "Unknown or malformed command: SET"
    );
    assert_eq!(
        Command::parse(&s("PING extra")).unwrap_err(),
        "Unknown or malformed command: PING"
    );
}

#[test]
fn parse_rejects_bad_numbers() {
    assert_eq!(Command::parse(&s("EXPIRE k abc")).unwrap_err(), "Invalid time");
    assert_eq!(Command::parse(&s("EXPIRE k -1")).unwrap_err(), "Invalid time");
    assert_eq!(Command::parse(&s("INCRBY k abc")).unwrap_err(), "Invalid value");
    assert_eq!(Command::parse(&s("DECRBY k 1.5")).unwrap_err(), "Invalid value");
    assert_eq!(Command::parse(&s("LRANGE l x 2")).unwrap_err(), "Invalid start");
    assert_eq!(Command::parse(&s("LRANGE l 0 y")).unwrap_err(), "Invalid end");
    assert_eq!(Command::parse(&s("LREM l z v")).unwrap_err(), "Invalid count");
    assert_eq!(Command::parse(&s("LINDEX l z")).unwrap_err(), "Invalid index");
    assert_eq!(Command::parse(&s("LSET l z v")).unwrap_err(), "Invalid index");
}

#[test]
fn parse_tolerates_extra_whitespace() {
    let mut st = Store::new();
    assert_eq!(run(&mut st, "  SET   k    v  \r\n", 0), "+OK\r\n");
    assert_eq!(run(&mut st, "\tGET\tk\n", 0), "$1\r\nv\r\n");
}

#[test]
fn huge_expire_time_is_an_error_reply() {
    let mut st = Store::new();
    run(&mut st, "SET k v", 0);
    assert_eq!(
        run(&mut st, "EXPIRE k 18446744073709551615", 0),
        "-ERR invalid expire time\r\n"
    );
}

#[test]
fn commands_serialize_against_one_store() {
    let mut st = Store::new();
    assert_eq!(run(&mut st, "RPUSH q a", 0), ":1\r\n");
    assert_eq!(run(&mut st, "SET other v", 0), "+OK\r\n");
    assert_eq!(run(&mut st, "RPUSH q b", 0), ":2\r\n");
    assert_eq!(run(&mut st, "LRANGE q 0 1", 0), "*2\r\n$1\r\na\r\n$1\r\nb\r\n");
}

#[test]
fn bulk_reply_of_empty_value() {
    let mut st = Store::new();
    // An empty value cannot arrive via SET (tokens are nonempty), so
    // store an empty text directly.
    st.set("k", &miniredis::value::Value::Text(String::new()));
    assert_eq!(run(&mut st, "GET k", 0), "$0\r\n\r\n");
    assert_eq!(run(&mut st, "STRLEN k", 0), ":0\r\n");
}

#[test]
fn bulk_reply_length_counts_characters() {
    let mut st = Store::new();
    run(&mut st, "SET k h\u{e9}llo", 0);
    assert_eq!(run(&mut st, "GET k", 0), "$5\r\nh\u{e9}llo\r\n");
    assert_eq!(run(&mut st, "STRLEN k", 0), ":5\r\n");
}

#[test]
fn set_on_the_wire_clears_expiration() {
    let mut st = Store::new();
    run(&mut st, "SET k v", 100);
    run(&mut st, "EXPIRE k 5", 100);
    run(&mut st, "SET k w", 100);
    assert_eq!(run(&mut st, "TTL k", 200), ":-1\r\n");
    assert_eq!(run(&mut st, "GET k", 200), "$1\r\nw\r\n");
}

#[test]
fn decrby_minimum_delta_is_an_error_reply() {
    let mut st = Store::new();
    run(&mut st, "SET n 0", 0);
    assert_eq!(
        run(&mut st, "DECRBY n -9223372036854775808", 0),
        "-ERR value is not an integer or out of range\r\n"
    );
    assert_eq!(run(&mut st, "GET n", 0), "$1\r\n0\r\n");
}

#[test]
fn push_on_text_key_replaces_it_on_the_wire() {
    let mut st = Store::new();
    run(&mut st, "SET k v", 0);
    assert_eq!(run(&mut st, "RPUSH k a b", 0), ":2\r\n");
    assert_eq!(run(&mut st, "LRANGE k 0 1", 0), "*2\r\n$1\r\na\r\n$1\r\nb\r\n");
}
