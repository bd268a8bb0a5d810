//! Decimal integer parsing and formatting, specified exactly.
//!
//! A numeric token is an optional sign followed by one or more ASCII
//! digits; the value must fit the target integer type. These functions
//! mirror the behaviour of Rust's integer `FromStr` and `Display` for
//! `u64`, `i64` and `usize`, but are implemented and verified here.

use vstd::prelude::*;

verus! {

pub open spec fn is_digit(c: char) -> bool {
    '0' <= c && c <= '9'
}

/// Numeric value of one ASCII digit character (0 for anything else).
pub open spec fn digit_val(c: char) -> int {
    if c == '0' { 0 }
    else if c == '1' { 1 }
    else if c == '2' { 2 }
    else if c == '3' { 3 }
    else if c == '4' { 4 }
    else if c == '5' { 5 }
    else if c == '6' { 6 }
    else if c == '7' { 7 }
    else if c == '8' { 8 }
    else if c == '9' { 9 }
    else { 0 }
}

/// Digit character for a value in 0..10 ('0' for anything else).
pub open spec fn digit_char(d: int) -> char {
    if d == 0 { '0' }
    else if d == 1 { '1' }
    else if d == 2 { '2' }
    else if d == 3 { '3' }
    else if d == 4 { '4' }
    else if d == 5 { '5' }
    else if d == 6 { '6' }
    else if d == 7 { '7' }
    else if d == 8 { '8' }
    else if d == 9 { '9' }
    else { '0' }
}

pub open spec fn all_digits(s: Seq<char>) -> bool {
    forall|i: int| 0 <= i < s.len() ==> is_digit(#[trigger] s[i])
}

/// Value of a digit string read in base ten.
pub open spec fn digits_val(s: Seq<char>) -> int
    decreases s.len(),
{
    if s.len() == 0 {
        0
    } else {
        digits_val(s.drop_last()) * 10 + digit_val(s.last())
    }
}

pub open spec fn pow10(n: nat) -> int
    decreases n,
{
    if n == 0 {
        1
    } else {
        10 * pow10((n - 1) as nat)
    }
}

pub proof fn lemma_pow10_pos(n: nat)
    ensures
        pow10(n) >= 1,
        n >= 1 ==> pow10(n) >= 10,
    decreases n,
{
    if n >= 1 {
        lemma_pow10_pos((n - 1) as nat);
    }
}

pub proof fn lemma_digits_val_nonneg(s: Seq<char>)
    requires
        all_digits(s),
    ensures
        digits_val(s) >= 0,
    decreases s.len(),
{
    if s.len() > 0 {
        assert(all_digits(s.drop_last()));
        lemma_digits_val_nonneg(s.drop_last());
    }
}

/// Reading a concatenation of digit strings: the left part is shifted
/// by one decimal place for each character of the right part.
pub proof fn lemma_digits_split(a: Seq<char>, b: Seq<char>)
    ensures
        digits_val(a + b) == digits_val(a) * pow10(b.len() as nat) + digits_val(b),
    decreases b.len(),
{
    if b.len() == 0 {
        assert(a + b =~= a);
    } else {
        lemma_digits_split(a, b.drop_last());
        assert((a + b).drop_last() =~= a + b.drop_last());
        assert((a + b).last() == b.last());
        let p = pow10((b.len() - 1) as nat);
        assert(digits_val(a) * p * 10 == digits_val(a) * (p * 10)) by (nonlinear_arith);
    }
}

/// A digit string is worth at least any of its prefixes.
pub proof fn lemma_digits_val_prefix_bound(s: Seq<char>, k: int)
    requires
        all_digits(s),
        0 <= k <= s.len(),
    ensures
        digits_val(s) >= digits_val(s.subrange(0, k)),
        k < s.len() ==> digits_val(s) >= digits_val(s.subrange(0, k)) * 10,
{
    let a = s.subrange(0, k);
    let b = s.subrange(k, s.len() as int);
    assert(s =~= a + b);
    lemma_digits_split(a, b);
    lemma_pow10_pos(b.len() as nat);
    assert(all_digits(a));
    assert(all_digits(b));
    lemma_digits_val_nonneg(a);
    lemma_digits_val_nonneg(b);
    let p = pow10(b.len() as nat);
    assert(digits_val(a) * p >= digits_val(a) * 1) by (nonlinear_arith)
        requires digits_val(a) >= 0 && p >= 1;
    if k < s.len() {
        assert(p >= 10);
        assert(digits_val(a) * p >= digits_val(a) * 10) by (nonlinear_arith)
            requires digits_val(a) >= 0 && p >= 10;
    }
}

/// The digits of a numeric token, after any single leading sign.
pub open spec fn sign_body(s: Seq<char>) -> Seq<char> {
    if s.len() > 0 && (s[0] == '+' || s[0] == '-') {
        s.drop_first()
    } else {
        s
    }
}

pub open spec fn sign_of(s: Seq<char>) -> int {
    if s.len() > 0 && s[0] == '-' {
        -1
    } else {
        1
    }
}

/// The token shapes accepted when reading an unsigned 64-bit integer:
/// an optional `+`, then one or more digits, value at most `u64::MAX`.
pub open spec fn valid_u64_str(s: Seq<char>) -> bool {
    &&& s.len() > 0
    &&& s[0] != '-'
    &&& sign_body(s).len() > 0
    &&& all_digits(sign_body(s))
    &&& digits_val(sign_body(s)) <= u64::MAX
}

pub open spec fn u64_str_val(s: Seq<char>) -> int {
    digits_val(sign_body(s))
}

/// The token shapes accepted when reading a signed 64-bit integer:
/// an optional sign, then one or more digits, value within `i64` range.
pub open spec fn valid_i64_str(s: Seq<char>) -> bool {
    &&& sign_body(s).len() > 0
    &&& all_digits(sign_body(s))
    &&& i64::MIN <= sign_of(s) * digits_val(sign_body(s)) <= i64::MAX
}

pub open spec fn i64_str_val(s: Seq<char>) -> int {
    sign_of(s) * digits_val(sign_body(s))
}

pub open spec fn valid_usize_str(s: Seq<char>) -> bool {
    valid_u64_str(s) && u64_str_val(s) <= usize::MAX
}

pub fn is_ascii_digit(c: char) -> (r: bool)
    ensures
        r == is_digit(c),
{
    '0' <= c && c <= '9'
}

/// Value of one digit character.
fn digit_of(c: char) -> (d: u64)
    requires
        is_digit(c),
    ensures
        d == digit_val(c),
        d <= 9,
{
    if c == '0' { 0 }
    else if c == '1' { 1 }
    else if c == '2' { 2 }
    else if c == '3' { 3 }
    else if c == '4' { 4 }
    else if c == '5' { 5 }
    else if c == '6' { 6 }
    else if c == '7' { 7 }
    else { if c == '8' { 8 } else { 9 } }
}

/// Scans the digits of `s` from position `start` to the end and returns
/// their value, or `None` on a non-digit or a value above `u64::MAX`.
fn scan_digits_u64(s: &str, start: usize, n: usize) -> (r: Option<u64>)
    requires
        start < n,
        n == s@.len(),
    ensures
        match r {
            Some(m) => {
                &&& all_digits(s@.subrange(start as int, n as int))
                &&& m == digits_val(s@.subrange(start as int, n as int))
            },
            None => !(all_digits(s@.subrange(start as int, n as int))
                && digits_val(s@.subrange(start as int, n as int)) <= u64::MAX),
        },
{
    let ghost body = s@.subrange(start as int, n as int);
    let mut i: usize = start;
    let mut m: u64 = 0;
    while i < n
        invariant
            start <= i <= n,
            n == s@.len(),
            body == s@.subrange(start as int, n as int),
            all_digits(s@.subrange(start as int, i as int)),
            m == digits_val(s@.subrange(start as int, i as int)),
        decreases n - i,
    {
        let ghost prefix = s@.subrange(start as int, i as int);
        let c = s.get_char(i);
        if !is_ascii_digit(c) {
            proof {
                assert(body[i - start] == s@[i as int]);
                assert(!all_digits(body));
            }
            return None;
        }
        let d = digit_of(c);
        proof {
            assert(s@.subrange(start as int, i + 1) =~= prefix.push(s@[i as int]));
            assert(prefix.push(s@[i as int]).drop_last() =~= prefix);
            assert(body.subrange(0, i - start) =~= prefix);
        }
        if m > 1844674407370955161u64 || (m == 1844674407370955161u64 && d > 5) {
            proof {
                if all_digits(body) {
                    lemma_digits_val_prefix_bound(body, i + 1 - start);
                    assert(body.subrange(0, i + 1 - start) =~= prefix.push(s@[i as int]));
                    assert(digits_val(prefix.push(s@[i as int])) == m * 10 + d);
                    assert(digits_val(body) > u64::MAX);
                }
            }
            return None;
        }
        m = m * 10 + d;
        i = i + 1;
    }
    proof {
        assert(s@.subrange(start as int, n as int) =~= body);
    }
    Some(m)
}

/// Reads an unsigned 64-bit integer as Rust's `u64::from_str` does:
/// an optional `+`, one or more digits, value within range.
pub fn parse_u64(s: &str) -> (r: Option<u64>)
    ensures
        valid_u64_str(s@) ==> r == Some(u64_str_val(s@) as u64),
        !valid_u64_str(s@) ==> r.is_none(),
{
    let n = s.unicode_len();
    if n == 0 {
        return None;
    }
    let first = s.get_char(0);
    if first == '-' {
        return None;
    }
    let start: usize = if first == '+' { 1 } else { 0 };
    proof {
        if start == 1 {
            assert(sign_body(s@) =~= s@.subrange(1, n as int));
        } else {
            assert(sign_body(s@) =~= s@.subrange(0, n as int));
        }
    }
    if start == n {
        return None;
    }
    scan_digits_u64(s, start, n)
}

/// Reads a signed 64-bit integer as Rust's `i64::from_str` does:
/// an optional sign, one or more digits, value within range.
pub fn parse_i64(s: &str) -> (r: Option<i64>)
    ensures
        valid_i64_str(s@) ==> r == Some(i64_str_val(s@) as i64),
        !valid_i64_str(s@) ==> r.is_none(),
{
    let n = s.unicode_len();
    if n == 0 {
        return None;
    }
    let first = s.get_char(0);
    let negative = first == '-';
    let start: usize = if first == '+' || first == '-' { 1 } else { 0 };
    proof {
        if start == 1 {
            assert(sign_body(s@) =~= s@.subrange(1, n as int));
        } else {
            assert(sign_body(s@) =~= s@.subrange(0, n as int));
        }
    }
    if start == n {
        return None;
    }
    let ghost body = s@.subrange(start as int, n as int);
    let mut i: usize = start;
    let mut m: u64 = 0;
    while i < n
        invariant
            start <= i <= n,
            n == s@.len(),
            body == s@.subrange(start as int, n as int),
            body == sign_body(s@),
            all_digits(s@.subrange(start as int, i as int)),
            m == digits_val(s@.subrange(start as int, i as int)),
            m <= 9223372036854775808u64,
        decreases n - i,
    {
        let ghost prefix = s@.subrange(start as int, i as int);
        let c = s.get_char(i);
        if !is_ascii_digit(c) {
            proof {
                assert(body[i - start] == s@[i as int]);
                assert(!all_digits(body));
            }
            return None;
        }
        let d = digit_of(c);
        proof {
            assert(s@.subrange(start as int, i + 1) =~= prefix.push(s@[i as int]));
            assert(prefix.push(s@[i as int]).drop_last() =~= prefix);
            assert(body.subrange(0, i - start) =~= prefix);
            assert(body.subrange(0, i + 1 - start) =~= prefix.push(s@[i as int]));
        }
        if m > 922337203685477580u64 {
            proof {
                if all_digits(body) {
                    lemma_digits_val_prefix_bound(body, i - start);
                    assert(digits_val(body) >= m * 10);
                }
            }
            return None;
        }
        m = m * 10 + d;
        i = i + 1;
        if m > 9223372036854775808u64 {
            proof {
                if all_digits(body) {
                    lemma_digits_val_prefix_bound(body, i - start);
                }
            }
            return None;
        }
    }
    proof {
        assert(s@.subrange(start as int, n as int) =~= body);
    }
    if negative {
        if m == 9223372036854775808u64 {
            Some(i64::MIN)
        } else {
            Some(-(m as i64))
        }
    } else {
        if m == 9223372036854775808u64 {
            None
        } else {
            Some(m as i64)
        }
    }
}

/// Reads an unsigned machine-word integer: like `parse_u64` but the
/// value must also fit `usize`.
pub fn parse_usize(s: &str) -> (r: Option<usize>)
    ensures
        valid_usize_str(s@) ==> r == Some(u64_str_val(s@) as usize),
        !valid_usize_str(s@) ==> r.is_none(),
{
    proof {
        if valid_u64_str(s@) {
            lemma_digits_val_nonneg(sign_body(s@));
        }
    }
    match parse_u64(s) {
        Some(v) => {
            if v <= usize::MAX as u64 {
                Some(v as usize)
            } else {
                None
            }
        },
        None => None,
    }
}

/// Decimal digit string of a nonnegative value.
pub open spec fn nat_digits(n: int) -> Seq<char>
    decreases n,
{
    if n < 10 {
        seq![digit_char(n)]
    } else {
        nat_digits(n / 10).push(digit_char(n % 10))
    }
}

/// Decimal rendering of a signed value, as Rust's `Display` writes it.
pub open spec fn int_digits(n: int) -> Seq<char> {
    if n < 0 {
        seq!['-'] + nat_digits(-n)
    } else {
        nat_digits(n)
    }
}

/// One digit as a borrowed string.
fn digit_str(d: u64) -> (r: &'static str)
    requires
        d <= 9,
    ensures
        r@ == seq![digit_char(d as int)],
{
    proof {
        reveal_strlit("0");
        reveal_strlit("1");
        reveal_strlit("2");
        reveal_strlit("3");
        reveal_strlit("4");
        reveal_strlit("5");
        reveal_strlit("6");
        reveal_strlit("7");
        reveal_strlit("8");
        reveal_strlit("9");
    }
    let r: &'static str = if d == 0 { "0" }
    else if d == 1 { "1" }
    else if d == 2 { "2" }
    else if d == 3 { "3" }
    else if d == 4 { "4" }
    else if d == 5 { "5" }
    else if d == 6 { "6" }
    else if d == 7 { "7" }
    else { if d == 8 { "8" } else { "9" } };
    proof {
        assert(r@ =~= seq![digit_char(d as int)]);
    }
    r
}

/// Writes an unsigned 64-bit integer in decimal.
pub fn u64_string(n: u64) -> (r: String)
    ensures
        r@ == nat_digits(n as int),
    decreases n,
{
    if n < 10 {
        String::from_str(digit_str(n))
    } else {
        let mut s = u64_string(n / 10);
        s.append(digit_str(n % 10));
        proof {
            assert(s@ =~= nat_digits((n / 10) as int).push(digit_char((n % 10) as int)));
        }
        s
    }
}

/// Writes a signed 64-bit integer in decimal.
pub fn i64_string(n: i64) -> (r: String)
    ensures
        r@ == int_digits(n as int),
{
    if n >= 0 {
        u64_string(n as u64)
    } else {
        let mag: u64 = if n == i64::MIN {
            9223372036854775808u64
        } else {
            (-n) as u64
        };
        proof {
            reveal_strlit("-");
        }
        let mut s = String::from_str("-");
        let tail = u64_string(mag);
        s.append(tail.as_str());
        proof {
            assert(s@ =~= seq!['-'] + nat_digits(mag as int));
        }
        s
    }
}

/// Writes a machine-word integer in decimal.
pub fn usize_string(n: usize) -> (r: String)
    ensures
        r@ == nat_digits(n as int),
{
    u64_string(n as u64)
}

} // verus!
