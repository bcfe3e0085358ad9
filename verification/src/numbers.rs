//! Decimal integers: reading them as `str::parse` does and writing them as
//! `to_string` does.
use vstd::prelude::*;
use crate::text::push_char;

verus! {

/// `c` is an ASCII decimal digit.
pub open spec fn is_digit(c: char) -> bool {
    '0' <= c && c <= '9'
}

/// The value of a decimal digit.
pub open spec fn digit_value(c: char) -> int {
    c as int - '0' as int
}

/// Every character of `s` is a decimal digit.
pub open spec fn all_digits(s: Seq<char>) -> bool {
    forall|i: int| 0 <= i < s.len() ==> is_digit(#[trigger] s[i])
}

/// The number that the digits `s` spell.
pub open spec fn digits_value(s: Seq<char>) -> int
    decreases s.len(),
{
    if s.len() == 0 {
        0
    } else {
        10 * digits_value(s.drop_last()) + digit_value(s.last())
    }
}

/// The integer that `s` spells: an optional `+` or `-` and then at least one
/// decimal digit, nothing else.
pub open spec fn decimal_value(s: Seq<char>) -> Option<int> {
    if s.len() > 0 && (s[0] == '+' || s[0] == '-') {
        let d = s.skip(1);
        if d.len() > 0 && all_digits(d) {
            Some(
                if s[0] == '-' {
                    -digits_value(d)
                } else {
                    digits_value(d)
                },
            )
        } else {
            None
        }
    } else if s.len() > 0 && all_digits(s) {
        Some(digits_value(s))
    } else {
        None
    }
}

/// What `s.parse::<i32>()` gives, as an option.
pub open spec fn parsed_i32(s: Seq<char>) -> Option<i32> {
    match decimal_value(s) {
        Some(v) => if i32::MIN <= v <= i32::MAX {
            Some(v as i32)
        } else {
            None
        },
        None => None,
    }
}

/// What `s.parse::<i64>()` gives, as an option.
pub open spec fn parsed_i64(s: Seq<char>) -> Option<i64> {
    match decimal_value(s) {
        Some(v) => if i64::MIN <= v <= i64::MAX {
            Some(v as i64)
        } else {
            None
        },
        None => None,
    }
}

/// A magnitude beyond every 64-bit integer.
pub open spec fn parse_cap() -> int {
    0x1_0000_0000_0000_0000
}

/// `v` limited to the range `-parse_cap() ..= parse_cap()`.
pub open spec fn clamp_cap(v: int) -> int {
    if v > parse_cap() {
        parse_cap()
    } else if v < -parse_cap() {
        -parse_cap()
    } else {
        v
    }
}

proof fn lemma_digits_nonneg(s: Seq<char>)
    requires
        all_digits(s),
    ensures
        digits_value(s) >= 0,
    decreases s.len(),
{
    if s.len() > 0 {
        assert(is_digit(s[s.len() - 1]));
        lemma_digits_nonneg(s.drop_last());
    }
}

/// The value of the digits of `s` from `from` on, limited to `parse_cap()`;
/// `None` when one of them is not a digit.
fn digits_capped(cs: &Vec<char>, from: usize) -> (r: Option<i128>)
    requires
        from <= cs@.len(),
    ensures
        match r {
            Some(v) => all_digits(cs@.skip(from as int)) && v == (if digits_value(
                cs@.skip(from as int),
            ) > parse_cap() {
                parse_cap()
            } else {
                digits_value(cs@.skip(from as int))
            }),
            None => !all_digits(cs@.skip(from as int)),
        },
{
    let ghost d = cs@.skip(from as int);
    let cap: i128 = 0x1_0000_0000_0000_0000;
    let n = cs.len();
    let mut acc: i128 = 0;
    let mut i: usize = from;
    assert(d.take(0) =~= Seq::<char>::empty());
    while i < n
        invariant
            n == cs@.len(),
            from <= i <= n,
            d == cs@.skip(from as int),
            cap == parse_cap(),
            all_digits(d.take(i - from)),
            acc == (if digits_value(d.take(i - from)) > parse_cap() {
                parse_cap()
            } else {
                digits_value(d.take(i - from))
            }),
        decreases n - i,
    {
        let c = cs[i];
        assert(d[i - from] == c);
        if !('0' <= c && c <= '9') {
            assert(!all_digits(d)) by {
                assert(!is_digit(d[i - from]));
            }
            return None;
        }
        let v = (c as u32 - '0' as u32) as i128;
        let ghost prev = d.take(i - from);
        let ghost next = d.take(i + 1 - from);
        assert(next.drop_last() =~= prev);
        assert(next.last() == c);
        assert(all_digits(next)) by {
            assert forall|t: int| 0 <= t < next.len() implies is_digit(#[trigger] next[t]) by {
                if t < prev.len() {
                    assert(next[t] == prev[t]);
                }
            }
        }
        proof {
            lemma_digits_nonneg(prev);
        }
        if acc >= cap {
            acc = cap;
        } else {
            let t = acc * 10 + v;
            acc = if t > cap {
                cap
            } else {
                t
            };
        }
        i = i + 1;
    }
    assert(d.take(n - from) =~= d);
    Some(acc)
}

/// The integer that `s` spells, limited to `-parse_cap() ..= parse_cap()`.
fn decimal_capped(s: &str) -> (r: Option<i128>)
    ensures
        match decimal_value(s@) {
            Some(v) => r == Some(clamp_cap(v) as i128),
            None => r is None,
        },
{
    let cs = crate::text::chars_of(s);
    if cs.len() == 0 {
        return None;
    }
    let c0 = cs[0];
    if c0 == '+' || c0 == '-' {
        if cs.len() == 1 {
            return None;
        }
        match digits_capped(&cs, 1) {
            Some(v) => {
                proof {
                    lemma_digits_nonneg(s@.skip(1));
                }
                if c0 == '-' {
                    Some(-v)
                } else {
                    Some(v)
                }
            },
            None => None,
        }
    } else {
        assert(cs@.skip(0) =~= cs@);
        let r = digits_capped(&cs, 0);
        if r.is_some() {
            proof {
                lemma_digits_nonneg(s@);
            }
        }
        r
    }
}

/// `s.parse::<i32>().ok()`: the integer that `s` spells, when it fits.
pub fn parse_i32(s: &str) -> (r: Option<i32>)
    ensures
        r == parsed_i32(s@),
{
    match decimal_capped(s) {
        Some(v) => if -2147483648 <= v && v <= 2147483647 {
            Some(v as i32)
        } else {
            None
        },
        None => None,
    }
}

/// `s.parse::<i64>().ok()`: the integer that `s` spells, when it fits.
pub fn parse_i64(s: &str) -> (r: Option<i64>)
    ensures
        r == parsed_i64(s@),
{
    match decimal_capped(s) {
        Some(v) => if -9223372036854775808 <= v && v <= 9223372036854775807 {
            Some(v as i64)
        } else {
            None
        },
        None => None,
    }
}

/// The character of the digit `d`.
pub open spec fn digit_char(d: int) -> char {
    ('0' as int + d) as char
}

/// The decimal digits of `n`, most significant first.
pub open spec fn digits_of(n: nat) -> Seq<char>
    decreases n,
{
    if n < 10 {
        seq![digit_char(n as int)]
    } else {
        digits_of(n / 10).push(digit_char((n % 10) as int))
    }
}

/// `n` written in decimal, with a leading `-` when negative.
pub open spec fn decimal(n: int) -> Seq<char> {
    if n < 0 {
        seq!['-'] + digits_of((-n) as nat)
    } else {
        digits_of(n as nat)
    }
}

proof fn lemma_digit_char(k: int)
    requires
        0 <= k < 10,
    ensures
        is_digit(digit_char(k)),
        digit_value(digit_char(k)) == k,
{
    assert(digit_char(k) as int == 48 + k);
}

proof fn lemma_digits_of(n: nat)
    ensures
        all_digits(digits_of(n)),
        digits_value(digits_of(n)) == n,
        digits_of(n).len() > 0,
    decreases n,
{
    if n < 10 {
        lemma_digit_char(n as int);
        let d = digits_of(n);
        assert(d.drop_last() =~= Seq::<char>::empty());
        assert(digits_value(d.drop_last()) == 0);
        assert(d.last() == digit_char(n as int));
        assert(digits_value(d) == 10 * digits_value(d.drop_last()) + digit_value(d.last()));
    } else {
        lemma_digit_char((n % 10) as int);
        lemma_digits_of(n / 10);
        let prev = digits_of(n / 10);
        let d = digits_of(n);
        assert(d.drop_last() =~= prev);
        assert(d.last() == digit_char((n % 10) as int));
        assert(digits_value(d) == 10 * digits_value(prev) + digit_value(d.last()));
        assert(10 * (n / 10) + n % 10 == n);
        assert forall|i: int| 0 <= i < d.len() implies is_digit(#[trigger] d[i]) by {
            if i < prev.len() {
                assert(d[i] == prev[i]);
            }
        }
    }
}

/// Reading back a number written in decimal gives the number: what
/// `format_int` writes, `parse_i64` (and, for an `i32`, `parse_i32`) reads
/// back unchanged.
pub proof fn lemma_decimal_round_trip(n: i64)
    ensures
        parsed_i64(decimal(n as int)) == Some(n),
        i32::MIN <= n <= i32::MAX ==> parsed_i32(decimal(n as int)) == Some(n as i32),
{
    if n < 0 {
        let m = (-n) as nat;
        lemma_digits_of(m);
        let s = decimal(n as int);
        assert(s.skip(1) =~= digits_of(m));
    } else {
        lemma_digits_of(n as nat);
        let s = digits_of(n as nat);
        assert(is_digit(s[0]));
    }
}

fn digit_to_char(d: u64) -> (c: char)
    requires
        d < 10,
    ensures
        c == digit_char(d as int),
{
    if d == 0 {
        '0'
    } else if d == 1 {
        '1'
    } else if d == 2 {
        '2'
    } else if d == 3 {
        '3'
    } else if d == 4 {
        '4'
    } else if d == 5 {
        '5'
    } else if d == 6 {
        '6'
    } else if d == 7 {
        '7'
    } else if d == 8 {
        '8'
    } else {
        '9'
    }
}

fn push_digits(s: &mut String, n: u64)
    ensures
        final(s)@ == old(s)@ + digits_of(n as nat),
    decreases n,
{
    if n >= 10 {
        push_digits(s, n / 10);
    }
    let c = digit_to_char(n % 10);
    push_char(s, c);
}

/// `n` written in decimal.
pub fn format_int(n: i64) -> (r: String)
    ensures
        r@ == decimal(n as int),
{
    let mut s = String::new();
    if n < 0 {
        push_char(&mut s, '-');
        let m = (-(n as i128)) as u64;
        push_digits(&mut s, m);
    } else {
        push_digits(&mut s, n as u64);
    }
    s
}

} // verus!
