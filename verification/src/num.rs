//! Decimal integers in text: `str::parse` for the integer types and the
//! `Display` form of integers, with their round-trip law.
use vstd::prelude::*;

verus! {

pub open spec fn is_digit(c: char) -> bool {
    '0' <= c && c <= '9'
}

pub open spec fn digit_value(c: char) -> int {
    c as int - '0' as int
}

pub open spec fn all_digits(s: Seq<char>) -> bool {
    forall|i: int| 0 <= i < s.len() ==> is_digit(#[trigger] s[i])
}

/// The number that a sequence of decimal digits denotes.
pub open spec fn digits_value(s: Seq<char>) -> int
    decreases s.len(),
{
    if s.len() == 0 {
        0
    } else {
        digits_value(s.drop_last()) * 10 + digit_value(s.last())
    }
}

/// `str::parse` for an unsigned integer type whose largest value is `max`:
/// an optional `+`, then at least one ASCII digit, and a value that fits.
pub open spec fn parse_unsigned(s: Seq<char>, max: int) -> Option<int> {
    let d = if s.len() > 0 && s[0] == '+' {
        s.drop_first()
    } else {
        s
    };
    if d.len() > 0 && all_digits(d) && digits_value(d) <= max {
        Some(digits_value(d))
    } else {
        None
    }
}

/// `str::parse` for a signed integer type with range `min..=max`:
/// as for unsigned types, and a leading `-` negates.
pub open spec fn parse_signed(s: Seq<char>, min: int, max: int) -> Option<int> {
    if s.len() > 0 && s[0] == '-' {
        let d = s.drop_first();
        if d.len() > 0 && all_digits(d) && min <= -digits_value(d) {
            Some(-digits_value(d))
        } else {
            None
        }
    } else {
        parse_unsigned(s, max)
    }
}

/// Digits denote a number that is not negative.
pub proof fn lemma_digits_value_nonneg(s: Seq<char>)
    requires
        all_digits(s),
    ensures
        digits_value(s) >= 0,
    decreases s.len(),
{
    if s.len() > 0 {
        lemma_digits_value_nonneg(s.drop_last());
    }
}

/// The digits of `s[start..]` and their value, when they are all digits,
/// there is at least one, and the value is at most `max`.
fn digits_bounded(s: &Vec<char>, start: usize, max: u64) -> (r: Option<u64>)
    requires
        start <= s.len(),
    ensures
        ({
            let d = s@.subrange(start as int, s.len() as int);
            &&& r matches Some(v) ==> d.len() > 0 && all_digits(d) && digits_value(d) == v
                && v <= max
            &&& r is None ==> !(d.len() > 0 && all_digits(d) && digits_value(d) <= max)
        }),
{
    if start == s.len() {
        return None;
    }
    let mut v: u64 = 0;
    let mut over = false;
    let mut i = start;
    while i < s.len()
        invariant
            start <= i <= s.len(),
            all_digits(s@.subrange(start as int, i as int)),
            !over ==> digits_value(s@.subrange(start as int, i as int)) == v && v <= max,
            over ==> digits_value(s@.subrange(start as int, i as int)) > max,
        decreases s.len() - i,
    {
        let c = s[i];
        if !('0' <= c && c <= '9') {
            proof {
                let d = s@.subrange(start as int, s.len() as int);
                assert(d[i - start] == c);
            }
            return None;
        }
        let dig = (c as u32 - '0' as u32) as u64;
        let ghost prev = s@.subrange(start as int, i as int);
        let ghost next = s@.subrange(start as int, i + 1);
        assert(next.drop_last() =~= prev);
        assert(next.last() == c);
        assert(all_digits(next)) by {
            assert forall|j: int| 0 <= j < next.len() implies is_digit(#[trigger] next[j]) by {
                if j < prev.len() {
                    assert(next[j] == prev[j]);
                }
            }
        }
        proof {
            lemma_digits_value_nonneg(prev);
        }
        if !over {
            let nv: u128 = v as u128 * 10 + dig as u128;
            if nv > max as u128 {
                over = true;
            } else {
                v = nv as u64;
            }
        }
        i += 1;
    }
    if over {
        None
    } else {
        Some(v)
    }
}

/// Digits after an optional leading `+`, bounded by `max`.
fn parse_unsigned_bounded(s: &Vec<char>, max: u64) -> (r: Option<u64>)
    ensures
        r matches Some(v) ==> parse_unsigned(s@, max as int) == Some(v as int),
        r is None ==> parse_unsigned(s@, max as int) is None,
{
    let start: usize = if s.len() > 0 && s[0] == '+' {
        1
    } else {
        0
    };
    assert(s@.len() > 0 && s@[0] == '+' ==> s@.drop_first() =~= s@.subrange(1, s.len() as int));
    assert(s@.subrange(0, s.len() as int) =~= s@);
    digits_bounded(s, start, max)
}

/// `str::parse::<u64>`.
pub fn parse_u64(s: &Vec<char>) -> (r: Option<u64>)
    ensures
        r matches Some(v) ==> parse_unsigned(s@, u64::MAX as int) == Some(v as int),
        r is None ==> parse_unsigned(s@, u64::MAX as int) is None,
{
    parse_unsigned_bounded(s, u64::MAX)
}

/// `str::parse::<u16>`.
pub fn parse_u16(s: &Vec<char>) -> (r: Option<u16>)
    ensures
        r matches Some(v) ==> parse_unsigned(s@, u16::MAX as int) == Some(v as int),
        r is None ==> parse_unsigned(s@, u16::MAX as int) is None,
{
    match parse_unsigned_bounded(s, u16::MAX as u64) {
        Some(v) => Some(v as u16),
        None => None,
    }
}

/// `str::parse::<usize>`.
pub fn parse_usize(s: &Vec<char>) -> (r: Option<usize>)
    ensures
        r matches Some(v) ==> parse_unsigned(s@, usize::MAX as int) == Some(v as int),
        r is None ==> parse_unsigned(s@, usize::MAX as int) is None,
{
    match parse_unsigned_bounded(s, usize::MAX as u64) {
        Some(v) => Some(v as usize),
        None => None,
    }
}

/// Signed parse with magnitude bounds `neg_max` (for `-`) and `pos_max`.
fn parse_signed_bounded(s: &Vec<char>, neg_max: u64, pos_max: u64) -> (r: Option<(bool, u64)>)
    ensures
        r matches Some((neg, m)) ==> parse_signed(s@, -(neg_max as int), pos_max as int) == Some(
            if neg {
                -(m as int)
            } else {
                m as int
            },
        ) && (neg ==> m <= neg_max) && (!neg ==> m <= pos_max),
        r is None ==> parse_signed(s@, -(neg_max as int), pos_max as int) is None,
{
    if s.len() > 0 && s[0] == '-' {
        assert(s@.drop_first() =~= s@.subrange(1, s.len() as int));
        match digits_bounded(s, 1, neg_max) {
            Some(m) => Some((true, m)),
            None => None,
        }
    } else {
        match parse_unsigned_bounded(s, pos_max) {
            Some(m) => Some((false, m)),
            None => None,
        }
    }
}

/// `str::parse::<i64>`.
pub fn parse_i64(s: &Vec<char>) -> (r: Option<i64>)
    ensures
        r matches Some(v) ==> parse_signed(s@, i64::MIN as int, i64::MAX as int) == Some(v as int),
        r is None ==> parse_signed(s@, i64::MIN as int, i64::MAX as int) is None,
{
    match parse_signed_bounded(s, 0x8000_0000_0000_0000u64, 0x7fff_ffff_ffff_ffffu64) {
        Some((neg, m)) => {
            if neg {
                if m == 0x8000_0000_0000_0000u64 {
                    Some(i64::MIN)
                } else {
                    Some(-(m as i64))
                }
            } else {
                Some(m as i64)
            }
        },
        None => None,
    }
}

/// `str::parse::<i32>`.
pub fn parse_i32(s: &Vec<char>) -> (r: Option<i32>)
    ensures
        r matches Some(v) ==> parse_signed(s@, i32::MIN as int, i32::MAX as int) == Some(v as int),
        r is None ==> parse_signed(s@, i32::MIN as int, i32::MAX as int) is None,
{
    match parse_signed_bounded(s, 0x8000_0000u64, 0x7fff_ffffu64) {
        Some((neg, m)) => {
            if neg {
                Some((0i64 - (m as i64)) as i32)
            } else {
                Some(m as i32)
            }
        },
        None => None,
    }
}

// ---------------------------------------------------------------------------
// Formatting
// ---------------------------------------------------------------------------

pub open spec fn digit_char(d: int) -> char {
    ('0' as int + d) as char
}

/// The `Display` form of a natural number: its decimal digits, no leading zeros.
pub open spec fn decimal(n: nat) -> Seq<char>
    decreases n,
{
    if n < 10 {
        seq![digit_char(n as int)]
    } else {
        decimal(n / 10) + seq![digit_char((n % 10) as int)]
    }
}

/// The `Display` form of an integer: a `-` before the digits of a negative one.
pub open spec fn signed_decimal(n: int) -> Seq<char> {
    if n < 0 {
        seq!['-'] + decimal((-n) as nat)
    } else {
        decimal(n as nat)
    }
}

fn push_decimal(n: u64, out: &mut Vec<char>)
    ensures
        final(out)@ == old(out)@ + decimal(n as nat),
    decreases n,
{
    if n >= 10 {
        push_decimal(n / 10, out);
    }
    let d = (n % 10) as u8;
    let c = (48u8 + d) as char;
    assert(c == digit_char((n % 10) as int));
    out.push(c);
    assert(out@ =~= old(out)@ + decimal(n as nat));
}

/// `u64::to_string` as characters.
pub fn format_u64(n: u64) -> (r: Vec<char>)
    ensures
        r@ == decimal(n as nat),
{
    let mut out: Vec<char> = Vec::new();
    push_decimal(n, &mut out);
    assert(out@ =~= decimal(n as nat));
    out
}

/// `i64::to_string` as characters.
pub fn format_i64(n: i64) -> (r: Vec<char>)
    ensures
        r@ == signed_decimal(n as int),
{
    let mut out: Vec<char> = Vec::new();
    if n < 0 {
        out.push('-');
        let m: u64 = if n == i64::MIN {
            0x8000_0000_0000_0000u64
        } else {
            (-n) as u64
        };
        push_decimal(m, &mut out);
    } else {
        push_decimal(n as u64, &mut out);
    }
    assert(out@ =~= signed_decimal(n as int));
    out
}

// ---------------------------------------------------------------------------
// Round trip
// ---------------------------------------------------------------------------

/// The decimal form of a number is a non-empty run of digits denoting it.
pub proof fn lemma_decimal_digits(n: nat)
    ensures
        decimal(n).len() > 0,
        all_digits(decimal(n)),
        digits_value(decimal(n)) == n,
        decimal(n)[0] != '+' && decimal(n)[0] != '-',
    decreases n,
{
    if n >= 10 {
        lemma_decimal_digits(n / 10);
        let d = decimal(n);
        assert(d.drop_last() =~= decimal(n / 10));
        assert(d[0] == decimal(n / 10)[0]);
        assert forall|i: int| 0 <= i < d.len() implies is_digit(#[trigger] d[i]) by {
            if i < d.len() - 1 {
                assert(d[i] == decimal(n / 10)[i]);
            }
        }
        assert(n == (n / 10) * 10 + n % 10) by (nonlinear_arith);
        let k = (n % 10) as int;
        assert(d.last() == digit_char(k));
        assert(digit_value(digit_char(k)) == k);
        assert(digits_value(d) == digits_value(d.drop_last()) * 10 + digit_value(d.last()));
    } else {
        let d = decimal(n);
        assert(d.drop_last() =~= Seq::<char>::empty());
        assert(digit_value(digit_char(n as int)) == n);
        assert(digits_value(d) == digits_value(d.drop_last()) * 10 + digit_value(d.last()));
    }
}

/// Parsing the decimal form of a number that fits gives the number back.
pub proof fn lemma_parse_format_unsigned(n: nat, max: int)
    requires
        n <= max,
    ensures
        parse_unsigned(decimal(n), max) == Some(n as int),
{
    lemma_decimal_digits(n);
}

/// Parsing the `Display` form of an integer in range gives the integer back.
pub proof fn lemma_parse_format_signed(n: int, min: int, max: int)
    requires
        min <= n <= max,
    ensures
        parse_signed(signed_decimal(n), min, max) == Some(n),
{
    if n < 0 {
        lemma_decimal_digits((-n) as nat);
        assert((seq!['-'] + decimal((-n) as nat)).drop_first() =~= decimal((-n) as nat));
    } else {
        lemma_decimal_digits(n as nat);
    }
}

} // verus!
