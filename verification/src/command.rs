//! The command interpreter: parses a whitespace-tokenized request line
//! into a command with strict arity checks, executes it against the
//! store, and renders the result as a wire-format reply.
//!
//! Reply encodings: simple success `+OK\r\n`, pong `+PONG\r\n`, error
//! `-ERR <message>\r\n`, integer `:<n>\r\n`, bulk string
//! `$<len>\r\n<data>\r\n` (the length counts characters), absent bulk
//! string `$-1\r\n`, and array `*<count>\r\n` followed by each
//! element's bulk-string encoding.

use vstd::prelude::*;

use crate::value::{Value, VView, strs, string_eq_str};
use crate::store::{Store, StoreView, spec_ttl, incr_result, list_of, list_or_new, lrem_result};
use crate::numeric::{valid_u64_str, u64_str_val, valid_usize_str, valid_i64_str, i64_str_val};
use crate::numeric::{int_digits, nat_digits, parse_u64, parse_usize, parse_i64, i64_string,
    usize_string};

verus! {

// ---------------------------------------------------------------------
// Tokenization: a request line splits on ASCII whitespace.
// ---------------------------------------------------------------------

/// ASCII whitespace, the separators of a request line.
pub open spec fn is_ws(c: char) -> bool {
    c == ' ' || c == '\t' || c == '\n' || c == '\r' || c == '\x0c'
}

/// One left-to-right scan over the line: `cur` is the token being
/// collected, tokens close at whitespace and at the end of the line.
pub open spec fn scan_tokens(s: Seq<char>, i: int, cur: Seq<char>) -> Seq<Seq<char>>
    decreases s.len() - i,
{
    if i < 0 || i >= s.len() {
        if cur.len() > 0 {
            seq![cur]
        } else {
            Seq::empty()
        }
    } else if is_ws(s[i]) {
        if cur.len() > 0 {
            seq![cur] + scan_tokens(s, i + 1, Seq::empty())
        } else {
            scan_tokens(s, i + 1, Seq::empty())
        }
    } else {
        scan_tokens(s, i + 1, cur.push(s[i]))
    }
}

/// The whitespace-separated tokens of a request line.
pub open spec fn tokens_of(s: Seq<char>) -> Seq<Seq<char>> {
    scan_tokens(s, 0, Seq::empty())
}

fn is_ws_exec(c: char) -> (r: bool)
    ensures
        r == is_ws(c),
{
    c == ' ' || c == '\t' || c == '\n' || c == '\r' || c == '\x0c'
}

proof fn lemma_strs_push_tok(s: Seq<String>, x: String)
    ensures
        strs(s.push(x)) == strs(s).push(x@),
{
    let a = strs(s.push(x));
    let b = strs(s).push(x@);
    assert forall|j: int| 0 <= j < a.len() implies a[j] == b[j] by {
        if j < s.len() {
            assert(s.push(x)[j] == s[j]);
        } else {
            assert(s.push(x)[j] == x);
        }
    }
    assert(a =~= b);
}

/// Splits a request line into its whitespace-separated tokens.
pub(crate) fn tokenize(s: &str) -> (r: Vec<String>)
    ensures
        strs(r@) == tokens_of(s@),
{
    let n = s.unicode_len();
    let mut toks: Vec<String> = Vec::new();
    let mut i: usize = 0;
    let mut j: usize = 0;
    proof {
        assert(strs(toks@) =~= Seq::<Seq<char>>::empty());
        assert(s@.subrange(0, 0) =~= Seq::<char>::empty());
        assert(Seq::<Seq<char>>::empty() + scan_tokens(s@, 0, Seq::empty())
            =~= scan_tokens(s@, 0, Seq::empty()));
    }
    while i < n
        invariant
            0 <= j <= i <= n,
            n == s@.len(),
            forall|m: int| j <= m < i ==> !is_ws(s@[m]),
            tokens_of(s@) == strs(toks@) + scan_tokens(
                s@,
                i as int,
                s@.subrange(j as int, i as int),
            ),
        decreases n - i,
    {
        let ghost cur = s@.subrange(j as int, i as int);
        let c = s.get_char(i);
        if is_ws_exec(c) {
            if j < i {
                let tok = s.substring_char(j, i).to_owned();
                let ghost prev = toks@;
                toks.push(tok);
                proof {
                    lemma_strs_push_tok(prev, tok);
                    assert(scan_tokens(s@, i as int, cur) == seq![cur] + scan_tokens(
                        s@,
                        i + 1,
                        Seq::empty(),
                    ));
                    assert(strs(prev) + (seq![cur] + scan_tokens(s@, i + 1, Seq::empty()))
                        =~= strs(prev).push(cur) + scan_tokens(s@, i + 1, Seq::empty()));
                    assert(s@.subrange(i + 1, i + 1) =~= Seq::<char>::empty());
                }
            } else {
                proof {
                    assert(cur.len() == 0);
                    assert(scan_tokens(s@, i as int, cur) == scan_tokens(s@, i + 1, Seq::empty()));
                    assert(s@.subrange(i + 1, i + 1) =~= Seq::<char>::empty());
                }
            }
            j = i + 1;
        } else {
            proof {
                assert(scan_tokens(s@, i as int, cur) == scan_tokens(s@, i + 1, cur.push(s@[i as int])));
                assert(s@.subrange(j as int, i + 1) =~= cur.push(s@[i as int]));
            }
        }
        i = i + 1;
    }
    let ghost cur = s@.subrange(j as int, n as int);
    if j < n {
        let tok = s.substring_char(j, n).to_owned();
        let ghost prev = toks@;
        toks.push(tok);
        proof {
            lemma_strs_push_tok(prev, tok);
            assert(scan_tokens(s@, n as int, cur) == seq![cur]);
            assert(strs(prev) + seq![cur] =~= strs(prev).push(cur));
        }
    } else {
        proof {
            assert(cur.len() == 0);
            assert(scan_tokens(s@, n as int, cur) == Seq::<Seq<char>>::empty());
            assert(strs(toks@) + Seq::<Seq<char>>::empty() =~= strs(toks@));
        }
    }
    toks
}

// ---------------------------------------------------------------------
// ASCII upper-casing, for the command verb.
// ---------------------------------------------------------------------

/// Maps an ASCII lower-case letter to its upper-case form; any other
/// character is unchanged.
pub open spec fn upper_char(c: char) -> char {
    if c == 'a' { 'A' }
    else if c == 'b' { 'B' }
    else if c == 'c' { 'C' }
    else if c == 'd' { 'D' }
    else if c == 'e' { 'E' }
    else if c == 'f' { 'F' }
    else if c == 'g' { 'G' }
    else if c == 'h' { 'H' }
    else if c == 'i' { 'I' }
    else if c == 'j' { 'J' }
    else if c == 'k' { 'K' }
    else if c == 'l' { 'L' }
    else if c == 'm' { 'M' }
    else if c == 'n' { 'N' }
    else if c == 'o' { 'O' }
    else if c == 'p' { 'P' }
    else if c == 'q' { 'Q' }
    else if c == 'r' { 'R' }
    else if c == 's' { 'S' }
    else if c == 't' { 'T' }
    else if c == 'u' { 'U' }
    else if c == 'v' { 'V' }
    else if c == 'w' { 'W' }
    else if c == 'x' { 'X' }
    else if c == 'y' { 'Y' }
    else if c == 'z' { 'Z' }
    else { c }
}

/// ASCII upper-casing of a character sequence.
pub open spec fn upper(s: Seq<char>) -> Seq<char> {
    s.map_values(|c: char| upper_char(c))
}

/// The upper-case letter, as a borrowed string.
fn upper_letter_str(c: char) -> (r: &'static str)
    requires
        'a' <= c && c <= 'z',
    ensures
        r@ == seq![upper_char(c)],
{
    proof {
        reveal_strlit("A");
        reveal_strlit("B");
        reveal_strlit("C");
        reveal_strlit("D");
        reveal_strlit("E");
        reveal_strlit("F");
        reveal_strlit("G");
        reveal_strlit("H");
        reveal_strlit("I");
        reveal_strlit("J");
        reveal_strlit("K");
        reveal_strlit("L");
        reveal_strlit("M");
        reveal_strlit("N");
        reveal_strlit("O");
        reveal_strlit("P");
        reveal_strlit("Q");
        reveal_strlit("R");
        reveal_strlit("S");
        reveal_strlit("T");
        reveal_strlit("U");
        reveal_strlit("V");
        reveal_strlit("W");
        reveal_strlit("X");
        reveal_strlit("Y");
        reveal_strlit("Z");
    }
    let r: &'static str = if c == 'a' { "A" }
    else if c == 'b' { "B" }
    else if c == 'c' { "C" }
    else if c == 'd' { "D" }
    else if c == 'e' { "E" }
    else if c == 'f' { "F" }
    else if c == 'g' { "G" }
    else if c == 'h' { "H" }
    else if c == 'i' { "I" }
    else if c == 'j' { "J" }
    else if c == 'k' { "K" }
    else if c == 'l' { "L" }
    else if c == 'm' { "M" }
    else if c == 'n' { "N" }
    else if c == 'o' { "O" }
    else if c == 'p' { "P" }
    else if c == 'q' { "Q" }
    else if c == 'r' { "R" }
    else if c == 's' { "S" }
    else if c == 't' { "T" }
    else if c == 'u' { "U" }
    else if c == 'v' { "V" }
    else if c == 'w' { "W" }
    else if c == 'x' { "X" }
    else if c == 'y' { "Y" }
    else { "Z" };
    proof {
        assert(r@ =~= seq![upper_char(c)]);
    }
    r
}

/// ASCII upper-casing of a string: `a`..`z` map to `A`..`Z`, all other
/// characters are kept as they are.
pub fn ascii_upper(s: &String) -> (r: String)
    ensures
        r@ == upper(s@),
{
    let n = s.as_str().unicode_len();
    let mut r = String::new();
    let mut i: usize = 0;
    proof {
        assert(r@ =~= upper(s@).subrange(0, 0));
    }
    while i < n
        invariant
            0 <= i <= n,
            n == s@.len(),
            r@ == upper(s@).subrange(0, i as int),
        decreases n - i,
    {
        let c = s.as_str().get_char(i);
        if 'a' <= c && c <= 'z' {
            r.append(upper_letter_str(c));
        } else {
            r.append(s.as_str().substring_char(i, i + 1));
            proof {
                assert(s@.subrange(i as int, i + 1) =~= seq![s@[i as int]]);
                assert(upper_char(s@[i as int]) == s@[i as int]);
            }
        }
        proof {
            assert(upper(s@).subrange(0, i + 1) =~= upper(s@).subrange(0, i as int).push(
                upper_char(s@[i as int]),
            ));
            assert(r@ =~= upper(s@).subrange(0, i as int).push(upper_char(s@[i as int])));
        }
        i = i + 1;
    }
    proof {
        assert(upper(s@).subrange(0, n as int) =~= upper(s@));
    }
    r
}

// ---------------------------------------------------------------------
// Reply encoding.
// ---------------------------------------------------------------------

pub open spec fn crlf() -> Seq<char> {
    seq!['\r', '\n']
}

/// `+OK\r\n`
pub open spec fn ok_reply() -> Seq<char> {
    seq!['+', 'O', 'K', '\r', '\n']
}

/// `+PONG\r\n`
pub open spec fn pong_reply() -> Seq<char> {
    seq!['+', 'P', 'O', 'N', 'G', '\r', '\n']
}

/// `$-1\r\n`, the absent bulk string.
pub open spec fn nil_reply() -> Seq<char> {
    seq!['$', '-', '1', '\r', '\n']
}

/// `-ERR <message>\r\n`
pub open spec fn err_reply(msg: Seq<char>) -> Seq<char> {
    seq!['-', 'E', 'R', 'R', ' '] + msg + crlf()
}

/// `:<n>\r\n`
pub open spec fn int_reply(n: int) -> Seq<char> {
    seq![':'] + int_digits(n) + crlf()
}

/// `$<len>\r\n<data>\r\n`; the length counts characters.
pub open spec fn bulk_reply(s: Seq<char>) -> Seq<char> {
    seq!['$'] + nat_digits(s.len() as int) + crlf() + s + crlf()
}

/// The concatenated bulk-string encodings of the elements.
pub open spec fn bulks(items: Seq<Seq<char>>) -> Seq<char>
    decreases items.len(),
{
    if items.len() == 0 {
        Seq::empty()
    } else {
        bulks(items.drop_last()) + bulk_reply(items.last())
    }
}

/// `*<count>\r\n` followed by each element's bulk-string encoding.
pub open spec fn array_reply(items: Seq<Seq<char>>) -> Seq<char> {
    seq!['*'] + nat_digits(items.len() as int) + crlf() + bulks(items)
}

fn ok_string() -> (r: String)
    ensures
        r@ == ok_reply(),
{
    proof {
        reveal_strlit("+OK\r\n");
        assert("+OK\r\n"@ =~= ok_reply());
    }
    String::from_str("+OK\r\n")
}

fn pong_string() -> (r: String)
    ensures
        r@ == pong_reply(),
{
    proof {
        reveal_strlit("+PONG\r\n");
        assert("+PONG\r\n"@ =~= pong_reply());
    }
    String::from_str("+PONG\r\n")
}

fn nil_string() -> (r: String)
    ensures
        r@ == nil_reply(),
{
    proof {
        reveal_strlit("$-1\r\n");
        assert("$-1\r\n"@ =~= nil_reply());
    }
    String::from_str("$-1\r\n")
}

fn err_string(msg: &str) -> (r: String)
    ensures
        r@ == err_reply(msg@),
{
    proof {
        reveal_strlit("-ERR ");
        reveal_strlit("\r\n");
    }
    let mut r = String::from_str("-ERR ");
    r.append(msg);
    r.append("\r\n");
    proof {
        assert(r@ =~= err_reply(msg@));
    }
    r
}

/// Integer reply of a signed value.
fn int_string(n: i64) -> (r: String)
    ensures
        r@ == int_reply(n as int),
{
    proof {
        reveal_strlit(":");
        reveal_strlit("\r\n");
    }
    let mut r = String::from_str(":");
    let digits = i64_string(n);
    r.append(digits.as_str());
    r.append("\r\n");
    proof {
        assert(r@ =~= int_reply(n as int));
    }
    r
}

/// Integer reply of an unsigned count.
fn uint_string(n: usize) -> (r: String)
    ensures
        r@ == int_reply(n as int),
{
    proof {
        reveal_strlit(":");
        reveal_strlit("\r\n");
    }
    let mut r = String::from_str(":");
    let digits = usize_string(n);
    r.append(digits.as_str());
    r.append("\r\n");
    proof {
        assert(r@ =~= int_reply(n as int));
    }
    r
}

/// Bulk-string reply of a present value.
fn bulk_string(s: &str) -> (r: String)
    ensures
        r@ == bulk_reply(s@),
{
    proof {
        reveal_strlit("$");
        reveal_strlit("\r\n");
    }
    let mut r = String::from_str("$");
    let len = s.unicode_len();
    let digits = usize_string(len);
    r.append(digits.as_str());
    r.append("\r\n");
    r.append(s);
    r.append("\r\n");
    proof {
        assert(r@ =~= bulk_reply(s@));
    }
    r
}

/// Array reply of a sequence of values.
fn array_string(items: &Vec<String>) -> (r: String)
    ensures
        r@ == array_reply(strs(items@)),
{
    proof {
        reveal_strlit("*");
        reveal_strlit("\r\n");
    }
    let mut r = String::from_str("*");
    let count = usize_string(items.len());
    r.append(count.as_str());
    r.append("\r\n");
    let ghost header = r@;
    let mut i: usize = 0;
    proof {
        assert(strs(items@).subrange(0, 0) =~= Seq::<Seq<char>>::empty());
        assert(header + Seq::<char>::empty() =~= header);
    }
    while i < items.len()
        invariant
            0 <= i <= items@.len(),
            r@ == header + bulks(strs(items@).subrange(0, i as int)),
        decreases items@.len() - i,
    {
        let b = bulk_string(items[i].as_str());
        r.append(b.as_str());
        proof {
            let pfx = strs(items@).subrange(0, i as int);
            let pfx1 = strs(items@).subrange(0, i + 1);
            assert(pfx1.drop_last() =~= pfx);
            assert(pfx1.last() == strs(items@)[i as int]);
            assert(bulks(pfx1) == bulks(pfx) + bulk_reply(strs(items@)[i as int]));
            assert((header + bulks(pfx)) + bulk_reply(items@[i as int]@)
                =~= header + (bulks(pfx) + bulk_reply(strs(items@)[i as int])));
        }
        i = i + 1;
    }
    proof {
        assert(strs(items@).subrange(0, items@.len() as int) =~= strs(items@));
    }
    r
}


// ---------------------------------------------------------------------
// Commands.
// ---------------------------------------------------------------------

/// Mathematical shape of a parsed command.
pub enum CmdView {
    Ping,
    Quit,
    SetVal(Seq<char>, VView),
    Get(Seq<char>),
    Del(Seq<char>),
    Expire(Seq<char>, u64),
    TTL(Seq<char>),
    Exists(Seq<char>),
    Strlen(Seq<char>),
    IncrBy(Seq<char>, i64),
    DecrBy(Seq<char>, i64),
    Incr(Seq<char>),
    Decr(Seq<char>),
    LPush(Seq<char>, Seq<Seq<char>>),
    RPush(Seq<char>, Seq<Seq<char>>),
    LPop(Seq<char>),
    RPop(Seq<char>),
    LRange(Seq<char>, usize, usize),
    LRem(Seq<char>, i64, Seq<char>),
    LIndex(Seq<char>, usize),
    LSet(Seq<char>, usize, Seq<char>),
    LLen(Seq<char>),
}

/// One parsed request.
#[derive(Debug)]
pub enum Command {
    Ping,
    Quit,
    SetVal(String, Value),
    Get(String),
    Del(String),
    Expire(String, u64),
    TTL(String),
    Exists(String),
    Strlen(String),
    IncrBy(String, i64),
    DecrBy(String, i64),
    Incr(String),
    Decr(String),
    LPush(String, Vec<String>),
    RPush(String, Vec<String>),
    LPop(String),
    RPop(String),
    LRange(String, usize, usize),
    LRem(String, i64, String),
    LIndex(String, usize),
    LSet(String, usize, String),
    LLen(String),
}

impl View for Command {
    type V = CmdView;

    open spec fn view(&self) -> CmdView {
        match self {
            Command::Ping => CmdView::Ping,
            Command::Quit => CmdView::Quit,
            Command::SetVal(k, v) => CmdView::SetVal(k@, v@),
            Command::Get(k) => CmdView::Get(k@),
            Command::Del(k) => CmdView::Del(k@),
            Command::Expire(k, t) => CmdView::Expire(k@, *t),
            Command::TTL(k) => CmdView::TTL(k@),
            Command::Exists(k) => CmdView::Exists(k@),
            Command::Strlen(k) => CmdView::Strlen(k@),
            Command::IncrBy(k, d) => CmdView::IncrBy(k@, *d),
            Command::DecrBy(k, d) => CmdView::DecrBy(k@, *d),
            Command::Incr(k) => CmdView::Incr(k@),
            Command::Decr(k) => CmdView::Decr(k@),
            Command::LPush(k, vs) => CmdView::LPush(k@, strs(vs@)),
            Command::RPush(k, vs) => CmdView::RPush(k@, strs(vs@)),
            Command::LPop(k) => CmdView::LPop(k@),
            Command::RPop(k) => CmdView::RPop(k@),
            Command::LRange(k, a, b) => CmdView::LRange(k@, *a, *b),
            Command::LRem(k, c, v) => CmdView::LRem(k@, *c, v@),
            Command::LIndex(k, i) => CmdView::LIndex(k@, *i),
            Command::LSet(k, i, v) => CmdView::LSet(k@, *i, v@),
            Command::LLen(k) => CmdView::LLen(k@),
        }
    }
}

impl Command {
    /// Well-formedness of any value carried by the command.
    pub open spec fn inv(&self) -> bool {
        match self {
            Command::SetVal(_, v) => v.inv(),
            _ => true,
        }
    }
}

// ---------------------------------------------------------------------
// Parsing.
// ---------------------------------------------------------------------

/// What parsing a request line yields: the command, or the error
/// message of the reply. The first token, upper-cased, is the verb;
/// the rest are positional arguments. A known verb with the wrong
/// argument count is reported like an unknown verb; a numeric argument
/// that does not read as an integer has its own message.
pub open spec fn spec_parse(line: Seq<char>) -> Result<CmdView, Seq<char>> {
    let toks = tokens_of(line);
    if toks.len() == 0 {
        Err("Empty command"@)
    } else {
        let verb = upper(toks[0]);
        let nargs = toks.len() - 1;
        if verb == "SET"@ && nargs == 2 {
            Ok(CmdView::SetVal(toks[1], VView::Text(toks[2])))
        } else if verb == "GET"@ && nargs == 1 {
            Ok(CmdView::Get(toks[1]))
        } else if verb == "DEL"@ && nargs == 1 {
            Ok(CmdView::Del(toks[1]))
        } else if verb == "EXPIRE"@ && nargs == 2 {
            if valid_u64_str(toks[2]) {
                Ok(CmdView::Expire(toks[1], u64_str_val(toks[2]) as u64))
            } else {
                Err("Invalid time"@)
            }
        } else if verb == "TTL"@ && nargs == 1 {
            Ok(CmdView::TTL(toks[1]))
        } else if verb == "EXISTS"@ && nargs == 1 {
            Ok(CmdView::Exists(toks[1]))
        } else if verb == "STRLEN"@ && nargs == 1 {
            Ok(CmdView::Strlen(toks[1]))
        } else if verb == "INCRBY"@ && nargs == 2 {
            if valid_i64_str(toks[2]) {
                Ok(CmdView::IncrBy(toks[1], i64_str_val(toks[2]) as i64))
            } else {
                Err("Invalid value"@)
            }
        } else if verb == "DECRBY"@ && nargs == 2 {
            if valid_i64_str(toks[2]) {
                Ok(CmdView::DecrBy(toks[1], i64_str_val(toks[2]) as i64))
            } else {
                Err("Invalid value"@)
            }
        } else if verb == "INCR"@ && nargs == 1 {
            Ok(CmdView::Incr(toks[1]))
        } else if verb == "DECR"@ && nargs == 1 {
            Ok(CmdView::Decr(toks[1]))
        } else if verb == "LPUSH"@ && nargs >= 2 {
            Ok(CmdView::LPush(toks[1], toks.skip(2)))
        } else if verb == "RPUSH"@ && nargs >= 2 {
            Ok(CmdView::RPush(toks[1], toks.skip(2)))
        } else if verb == "LPOP"@ && nargs == 1 {
            Ok(CmdView::LPop(toks[1]))
        } else if verb == "RPOP"@ && nargs == 1 {
            Ok(CmdView::RPop(toks[1]))
        } else if verb == "LRANGE"@ && nargs == 3 {
            if !valid_usize_str(toks[2]) {
                Err("Invalid start"@)
            } else if !valid_usize_str(toks[3]) {
                Err("Invalid end"@)
            } else {
                Ok(CmdView::LRange(
                    toks[1],
                    u64_str_val(toks[2]) as usize,
                    u64_str_val(toks[3]) as usize,
                ))
            }
        } else if verb == "LREM"@ && nargs == 3 {
            if valid_i64_str(toks[2]) {
                Ok(CmdView::LRem(toks[1], i64_str_val(toks[2]) as i64, toks[3]))
            } else {
                Err("Invalid count"@)
            }
        } else if verb == "LINDEX"@ && nargs == 2 {
            if valid_usize_str(toks[2]) {
                Ok(CmdView::LIndex(toks[1], u64_str_val(toks[2]) as usize))
            } else {
                Err("Invalid index"@)
            }
        } else if verb == "LSET"@ && nargs == 3 {
            if valid_usize_str(toks[2]) {
                Ok(CmdView::LSet(toks[1], u64_str_val(toks[2]) as usize, toks[3]))
            } else {
                Err("Invalid index"@)
            }
        } else if verb == "LLEN"@ && nargs == 1 {
            Ok(CmdView::LLen(toks[1]))
        } else if verb == "PING"@ && nargs == 0 {
            Ok(CmdView::Ping)
        } else if verb == "QUIT"@ && nargs == 0 {
            Ok(CmdView::Quit)
        } else {
            Err("Unknown or malformed command: "@ + verb)
        }
    }
}

/// Collects the tokens after the key as the values of a push command.
fn tail_values(toks: &Vec<String>) -> (r: Vec<String>)
    requires
        toks@.len() >= 2,
    ensures
        strs(r@) == strs(toks@).skip(2),
{
    let mut vs: Vec<String> = Vec::new();
    let mut i: usize = 2;
    proof {
        assert(strs(vs@) =~= strs(toks@).subrange(2, 2));
    }
    while i < toks.len()
        invariant
            2 <= i <= toks@.len(),
            strs(vs@) == strs(toks@).subrange(2, i as int),
        decreases toks@.len() - i,
    {
        let ghost prev = vs@;
        vs.push(toks[i].clone());
        proof {
            lemma_strs_push_tok(prev, toks@[i as int]);
            assert(strs(toks@).subrange(2, i + 1) =~= strs(toks@).subrange(2, i as int).push(
                strs(toks@)[i as int],
            ));
        }
        i = i + 1;
    }
    proof {
        assert(strs(toks@).subrange(2, toks@.len() as int) =~= strs(toks@).skip(2));
    }
    vs
}

impl Command {
    /// Parses one request line: the first token, upper-cased, is the
    /// verb, the rest are positional arguments; strict arity checks.
    /// An unrecognized or malformed request yields the error message
    /// of the reply.
    pub fn parse(input: &String) -> (r: Result<Command, String>)
        ensures
            match r {
                Ok(c) => spec_parse(input@) == Ok::<CmdView, Seq<char>>(c@) && c.inv(),
                Err(e) => spec_parse(input@) == Err::<CmdView, Seq<char>>(e@),
            },
    {
        let toks = tokenize(input.as_str());
        if toks.len() == 0 {
            return Err(String::from_str("Empty command"));
        }
        let verb = ascii_upper(&toks[0]);
        let nargs = toks.len() - 1;
        proof {
            assert(strs(toks@)[0] == toks@[0]@);
            assert(forall|j: int| 0 <= j < toks@.len()
                ==> (#[trigger] strs(toks@)[j]) == toks@[j]@);
        }
        if string_eq_str(&verb, "SET") && nargs == 2 {
            Ok(Command::SetVal(toks[1].clone(), Value::Text(toks[2].clone())))
        } else if string_eq_str(&verb, "GET") && nargs == 1 {
            Ok(Command::Get(toks[1].clone()))
        } else if string_eq_str(&verb, "DEL") && nargs == 1 {
            Ok(Command::Del(toks[1].clone()))
        } else if string_eq_str(&verb, "EXPIRE") && nargs == 2 {
            match parse_u64(toks[2].as_str()) {
                Some(time) => Ok(Command::Expire(toks[1].clone(), time)),
                None => Err(String::from_str("Invalid time")),
            }
        } else if string_eq_str(&verb, "TTL") && nargs == 1 {
            Ok(Command::TTL(toks[1].clone()))
        } else if string_eq_str(&verb, "EXISTS") && nargs == 1 {
            Ok(Command::Exists(toks[1].clone()))
        } else if string_eq_str(&verb, "STRLEN") && nargs == 1 {
            Ok(Command::Strlen(toks[1].clone()))
        } else if string_eq_str(&verb, "INCRBY") && nargs == 2 {
            match parse_i64(toks[2].as_str()) {
                Some(value) => Ok(Command::IncrBy(toks[1].clone(), value)),
                None => Err(String::from_str("Invalid value")),
            }
        } else if string_eq_str(&verb, "DECRBY") && nargs == 2 {
            match parse_i64(toks[2].as_str()) {
                Some(value) => Ok(Command::DecrBy(toks[1].clone(), value)),
                None => Err(String::from_str("Invalid value")),
            }
        } else if string_eq_str(&verb, "INCR") && nargs == 1 {
            Ok(Command::Incr(toks[1].clone()))
        } else if string_eq_str(&verb, "DECR") && nargs == 1 {
            Ok(Command::Decr(toks[1].clone()))
        } else if string_eq_str(&verb, "LPUSH") && nargs >= 2 {
            let values = tail_values(&toks);
            Ok(Command::LPush(toks[1].clone(), values))
        } else if string_eq_str(&verb, "RPUSH") && nargs >= 2 {
            let values = tail_values(&toks);
            Ok(Command::RPush(toks[1].clone(), values))
        } else if string_eq_str(&verb, "LPOP") && nargs == 1 {
            Ok(Command::LPop(toks[1].clone()))
        } else if string_eq_str(&verb, "RPOP") && nargs == 1 {
            Ok(Command::RPop(toks[1].clone()))
        } else if string_eq_str(&verb, "LRANGE") && nargs == 3 {
            match parse_usize(toks[2].as_str()) {
                Some(start) => {
                    match parse_usize(toks[3].as_str()) {
                        Some(end) => Ok(Command::LRange(toks[1].clone(), start, end)),
                        None => Err(String::from_str("Invalid end")),
                    }
                },
                None => Err(String::from_str("Invalid start")),
            }
        } else if string_eq_str(&verb, "LREM") && nargs == 3 {
            match parse_i64(toks[2].as_str()) {
                Some(count) => Ok(Command::LRem(toks[1].clone(), count, toks[3].clone())),
                None => Err(String::from_str("Invalid count")),
            }
        } else if string_eq_str(&verb, "LINDEX") && nargs == 2 {
            match parse_usize(toks[2].as_str()) {
                Some(index) => Ok(Command::LIndex(toks[1].clone(), index)),
                None => Err(String::from_str("Invalid index")),
            }
        } else if string_eq_str(&verb, "LSET") && nargs == 3 {
            match parse_usize(toks[2].as_str()) {
                Some(index) => Ok(Command::LSet(toks[1].clone(), index, toks[3].clone())),
                None => Err(String::from_str("Invalid index")),
            }
        } else if string_eq_str(&verb, "LLEN") && nargs == 1 {
            Ok(Command::LLen(toks[1].clone()))
        } else if string_eq_str(&verb, "PING") && nargs == 0 {
            Ok(Command::Ping)
        } else if string_eq_str(&verb, "QUIT") && nargs == 0 {
            Ok(Command::Quit)
        } else {
            let mut msg = String::from_str("Unknown or malformed command: ");
            msg.append(verb.as_str());
            Err(msg)
        }
    }

    /// Reports whether this command asks the transport to close the
    /// connection after the reply.
    pub fn is_quit(&self) -> (r: bool)
        ensures
            r == (self@ is Quit),
    {
        matches!(self, Command::Quit)
    }
}


// ---------------------------------------------------------------------
// Execution.
// ---------------------------------------------------------------------

/// Element or character count of a value: characters of a text,
/// elements of a list, fields of a hash, members of a set.
pub open spec fn vview_len(v: VView) -> int {
    match v {
        VView::Text(t) => t.len() as int,
        VView::List(l) => l.len() as int,
        VView::Hash(h) => h.len() as int,
        VView::Members(m) => m.len() as int,
    }
}

/// The state and reply of one increment-style command.
pub open spec fn incr_step(s: StoreView, k: Seq<char>, by: i64, now: u64) -> (StoreView, Seq<
    char,
>) {
    match incr_result(s, k, by, now) {
        Some(n) => (
            s.purged(k, now).upserted(k, VView::Text(int_digits(n))),
            int_reply(n),
        ),
        None => (s.purged(k, now), err_reply("value is not an integer or out of range"@)),
    }
}

/// The meaning of one command: the store state after it and the exact
/// reply text. Every command execution is a deterministic function of
/// the prior state, the command, and the current time.
pub open spec fn spec_execute(c: CmdView, s: StoreView, now: u64) -> (StoreView, Seq<char>) {
    match c {
        CmdView::Ping => (s, pong_reply()),
        CmdView::Quit => (s, ok_reply()),
        CmdView::SetVal(k, v) => (s.upserted(k, v), ok_reply()),
        CmdView::Get(k) => (
            s.purged(k, now),
            match s.lookup(k, now) {
                Some(VView::Text(t)) => bulk_reply(t),
                Some(_) => err_reply("wrong type"@),
                None => nil_reply(),
            },
        ),
        CmdView::Del(k) => (s.dropped(k), int_reply(if s.live(k, now) { 1int } else { 0int })),
        CmdView::Expire(k, secs) => {
            if now + secs <= i64::MAX {
                (
                    if s.live(k, now) {
                        s.with_expiry(k, (now + secs) as u64)
                    } else {
                        s.purged(k, now)
                    },
                    int_reply(if s.live(k, now) { 1int } else { 0int }),
                )
            } else {
                (s, err_reply("invalid expire time"@))
            }
        },
        CmdView::TTL(k) => (s.purged(k, now), int_reply(spec_ttl(s, k, now))),
        CmdView::Exists(k) => (
            s.purged(k, now),
            int_reply(if s.lookup(k, now) is Some { 1int } else { 0int }),
        ),
        CmdView::Strlen(k) => (
            s.purged(k, now),
            match s.lookup(k, now) {
                Some(v) => int_reply(vview_len(v)),
                None => nil_reply(),
            },
        ),
        CmdView::IncrBy(k, d) => incr_step(s, k, d, now),
        CmdView::DecrBy(k, d) => {
            if d == i64::MIN {
                (s, err_reply("value is not an integer or out of range"@))
            } else {
                incr_step(s, k, (-d) as i64, now)
            }
        },
        CmdView::Incr(k) => incr_step(s, k, 1i64, now),
        CmdView::Decr(k) => incr_step(s, k, -1i64, now),
        CmdView::LPush(k, vs) => (
            s.purged(k, now).upserted(k, VView::List(vs.reverse() + list_or_new(s, k, now))),
            int_reply(vs.len() + list_or_new(s, k, now).len() as int),
        ),
        CmdView::RPush(k, vs) => (
            s.purged(k, now).upserted(k, VView::List(list_or_new(s, k, now) + vs)),
            int_reply(list_or_new(s, k, now).len() + vs.len() as int),
        ),
        CmdView::LPop(k) => match list_of(s, k, now) {
            Some(l) => (
                s.upserted(k, VView::List(if l.len() > 0 { l.drop_first() } else { l })),
                if l.len() > 0 { bulk_reply(l[0]) } else { nil_reply() },
            ),
            None => (s.purged(k, now), nil_reply()),
        },
        CmdView::RPop(k) => match list_of(s, k, now) {
            Some(l) => (
                s.upserted(k, VView::List(if l.len() > 0 { l.drop_last() } else { l })),
                if l.len() > 0 { bulk_reply(l.last()) } else { nil_reply() },
            ),
            None => (s.purged(k, now), nil_reply()),
        },
        CmdView::LRange(k, start, end) => (
            s.purged(k, now),
            match list_of(s, k, now) {
                Some(l) => {
                    if start < end && end < l.len() {
                        array_reply(l.subrange(start as int, end + 1))
                    } else {
                        err_reply("index out of range"@)
                    }
                },
                None => err_reply("index out of range"@),
            },
        ),
        CmdView::LRem(k, c0, v) => match list_of(s, k, now) {
            Some(l) => (
                s.upserted(k, VView::List(lrem_result(l, v, c0 as int))),
                int_reply(l.len() - lrem_result(l, v, c0 as int).len()),
            ),
            None => (s.purged(k, now), int_reply(0)),
        },
        CmdView::LIndex(k, i) => (
            s.purged(k, now),
            match list_of(s, k, now) {
                Some(l) => {
                    if i < l.len() {
                        bulk_reply(l[i as int])
                    } else {
                        err_reply("index out of range"@)
                    }
                },
                None => err_reply("index out of range"@),
            },
        ),
        CmdView::LSet(k, i, v) => match list_of(s, k, now) {
            Some(l) => {
                if i < l.len() {
                    (s.upserted(k, VView::List(l.update(i as int, v))), ok_reply())
                } else {
                    (s.purged(k, now), err_reply("index out of range"@))
                }
            },
            None => (s.purged(k, now), err_reply("index out of range"@)),
        },
        CmdView::LLen(k) => (
            s.purged(k, now),
            match list_of(s, k, now) {
                Some(l) => int_reply(l.len() as int),
                None => nil_reply(),
            },
        ),
    }
}

impl Command {
    /// Executes this command against the store at time `now` and
    /// renders the reply: state and reply are exactly those of
    /// `spec_execute`.
    pub fn execute(&self, store: &mut Store, now: u64) -> (r: String)
        requires
            old(store).inv(),
            self.inv(),
            now <= i64::MAX as u64,
        ensures
            final(store).inv(),
            final(store)@ == spec_execute(self@, old(store)@, now).0,
            r@ == spec_execute(self@, old(store)@, now).1,
    {
        match self {
            Command::Ping => pong_string(),
            Command::Quit => ok_string(),
            Command::SetVal(key, value) => {
                store.set(key.as_str(), value);
                ok_string()
            },
            Command::Get(key) => {
                match store.get(key.as_str(), now) {
                    Some(v) => {
                        match v {
                            Value::Text(t) => bulk_string(t.as_str()),
                            _ => err_string("wrong type"),
                        }
                    },
                    None => nil_string(),
                }
            },
            Command::Del(key) => {
                let existed = store.del(key.as_str(), now);
                if existed {
                    uint_string(1)
                } else {
                    uint_string(0)
                }
            },
            Command::Expire(key, time) => {
                if *time <= (i64::MAX as u64) - now {
                    let was_set = store.expire(key.as_str(), *time, now);
                    if was_set {
                        uint_string(1)
                    } else {
                        uint_string(0)
                    }
                } else {
                    err_string("invalid expire time")
                }
            },
            Command::TTL(key) => {
                let t = store.ttl(key.as_str(), now);
                int_string(t)
            },
            Command::Exists(key) => {
                match store.get(key.as_str(), now) {
                    Some(_) => uint_string(1),
                    None => uint_string(0),
                }
            },
            Command::Strlen(key) => {
                match store.get(key.as_str(), now) {
                    Some(v) => uint_string(v.len()),
                    None => nil_string(),
                }
            },
            Command::IncrBy(key, value) => {
                match store.incr_by(key.as_str(), *value, now) {
                    Some(v) => int_string(v),
                    None => err_string("value is not an integer or out of range"),
                }
            },
            Command::DecrBy(key, value) => {
                if *value == i64::MIN {
                    err_string("value is not an integer or out of range")
                } else {
                    match store.incr_by(key.as_str(), -*value, now) {
                        Some(v) => int_string(v),
                        None => err_string("value is not an integer or out of range"),
                    }
                }
            },
            Command::Incr(key) => {
                match store.incr_by(key.as_str(), 1, now) {
                    Some(v) => int_string(v),
                    None => err_string("value is not an integer or out of range"),
                }
            },
            Command::Decr(key) => {
                match store.incr_by(key.as_str(), -1, now) {
                    Some(v) => int_string(v),
                    None => err_string("value is not an integer or out of range"),
                }
            },
            Command::LPush(key, values) => {
                let n = store.lpush(key.as_str(), values, now);
                uint_string(n)
            },
            Command::RPush(key, values) => {
                let n = store.rpush(key.as_str(), values, now);
                uint_string(n)
            },
            Command::LPop(key) => {
                match store.lpop(key.as_str(), now) {
                    Some(v) => bulk_string(v.as_str()),
                    None => nil_string(),
                }
            },
            Command::RPop(key) => {
                match store.rpop(key.as_str(), now) {
                    Some(v) => bulk_string(v.as_str()),
                    None => nil_string(),
                }
            },
            Command::LRange(key, start, end) => {
                match store.lrange(key.as_str(), *start, *end, now) {
                    Some(items) => array_string(&items),
                    None => err_string("index out of range"),
                }
            },
            Command::LRem(key, count, value) => {
                let n = store.lrem(key.as_str(), *count, value.clone(), now);
                uint_string(n)
            },
            Command::LIndex(key, index) => {
                match store.lindex(key.as_str(), *index, now) {
                    Some(v) => bulk_string(v.as_str()),
                    None => err_string("index out of range"),
                }
            },
            Command::LSet(key, index, value) => {
                if store.lset(key.as_str(), *index, value.clone(), now) {
                    ok_string()
                } else {
                    err_string("index out of range")
                }
            },
            Command::LLen(key) => {
                match store.llen(key.as_str(), now) {
                    Some(n) => uint_string(n),
                    None => nil_string(),
                }
            },
        }
    }
}

} // verus!
