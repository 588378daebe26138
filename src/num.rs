//! Integer and decimal text: the number syntax of metadata values.
use vstd::prelude::*;

verus! {

pub open spec fn is_digit(c: char) -> bool {
    '0' <= c <= '9'
}

pub open spec fn all_digits(s: Seq<char>) -> bool {
    forall|i: int| 0 <= i < s.len() ==> is_digit(#[trigger] s[i])
}

pub open spec fn digit_val(c: char) -> nat {
    (c as nat - '0' as nat) as nat
}

/// The value of a run of decimal digits (0 for none).
pub open spec fn digits_val(s: Seq<char>) -> nat
    decreases s.len(),
{
    if s.len() == 0 {
        0
    } else {
        digits_val(s.drop_last()) * 10 + digit_val(s.last())
    }
}

pub open spec fn digit_char(d: nat) -> char {
    ((d + 48) as u8) as char
}

/// The shortest decimal text of `n`.
pub open spec fn nat_text(n: nat) -> Seq<char>
    decreases n,
{
    if n < 10 {
        seq![digit_char(n)]
    } else {
        nat_text(n / 10).push(digit_char(n % 10))
    }
}

/// An optional sign (`+`, or `-` where `signed`) and at least one ASCII digit:
/// whether the sign is minus, and the digits' value.
pub open spec fn sign_and_digits_body(s: Seq<char>, signed: bool) -> Seq<char> {
    if (s.len() > 0 && s[0] == '-' && signed) || (s.len() > 0 && s[0] == '+') {
        s.drop_first()
    } else {
        s
    }
}

pub open spec fn sign_and_digits(s: Seq<char>, signed: bool) -> Option<(bool, nat)> {
    let (neg, body) = if s.len() > 0 && s[0] == '-' && signed {
        (true, s.drop_first())
    } else if s.len() > 0 && s[0] == '+' {
        (false, s.drop_first())
    } else {
        (false, s)
    };
    if body.len() > 0 && all_digits(body) {
        Some((neg, digits_val(body)))
    } else {
        None
    }
}

/// The integer that `s` spells, as `str::parse` reads one.
pub open spec fn int_of_text(s: Seq<char>, signed: bool) -> Option<int> {
    match sign_and_digits(s, signed) {
        Some((neg, v)) => Some(if neg { -v } else { v as int }),
        None => None,
    }
}

pub open spec fn parse_u8_spec(s: Seq<char>) -> Option<u8> {
    match int_of_text(s, false) {
        Some(v) => if v <= u8::MAX { Some(v as u8) } else { None },
        None => None,
    }
}

pub open spec fn parse_u64_spec(s: Seq<char>) -> Option<u64> {
    match int_of_text(s, false) {
        Some(v) => if v <= u64::MAX { Some(v as u64) } else { None },
        None => None,
    }
}

pub open spec fn parse_i64_spec(s: Seq<char>) -> Option<i64> {
    match int_of_text(s, true) {
        Some(v) => if i64::MIN <= v <= i64::MAX { Some(v as i64) } else { None },
        None => None,
    }
}

pub open spec fn parse_i32_spec(s: Seq<char>) -> Option<i32> {
    match int_of_text(s, true) {
        Some(v) => if i32::MIN <= v <= i32::MAX { Some(v as i32) } else { None },
        None => None,
    }
}

pub proof fn lemma_digits_val_prefix(s: Seq<char>, i: int)
    requires
        0 <= i <= s.len(),
        all_digits(s),
    ensures
        digits_val(s.subrange(0, i)) <= digits_val(s),
    decreases s.len() - i,
{
    if i < s.len() {
        lemma_digits_val_prefix(s, i + 1);
        assert(s.subrange(0, i + 1).drop_last() == s.subrange(0, i));
    } else {
        assert(s.subrange(0, i) == s);
    }
}

/// The value of the digits of `s[start..end]`, or `None` where it exceeds `u64::MAX`.
pub fn digits_value(s: &[char], start: usize, end: usize) -> (r: Option<u64>)
    requires
        start <= end <= s@.len(),
        all_digits(s@.subrange(start as int, end as int)),
    ensures
        match r {
            Some(v) => v == digits_val(s@.subrange(start as int, end as int)),
            None => digits_val(s@.subrange(start as int, end as int)) > u64::MAX,
        },
{
    let ghost body = s@.subrange(start as int, end as int);
    let mut acc: u64 = 0;
    let mut i: usize = start;
    while i < end
        invariant
            start <= i <= end <= s@.len(),
            body == s@.subrange(start as int, end as int),
            all_digits(body),
            acc == digits_val(body.subrange(0, i - start)),
        decreases end - i,
    {
        let ghost k = (i - start) as int;
        assert(body.subrange(0, k + 1).drop_last() == body.subrange(0, k));
        assert(body.subrange(0, k + 1).last() == s@[i as int]);
        assert(is_digit(body[k]));
        let d = (s[i] as u32 - '0' as u32) as u64;
        if acc > (u64::MAX - d) / 10 {
            proof {
                lemma_digits_val_prefix(body, k + 1);
            }
            return None;
        }
        acc = acc * 10 + d;
        i = i + 1;
    }
    assert(body.subrange(0, end - start) == body);
    Some(acc)
}

/// Reads an optional sign and the digits after it.
pub fn sign_and_digits_of(s: &[char], signed: bool) -> (r: Option<(bool, u64)>)
    ensures
        match sign_and_digits(s@, signed) {
            Some((neg, v)) => if v <= u64::MAX {
                r == Some((neg, v as u64))
            } else {
                r is None
            },
            None => r is None,
        },
{
    let mut start: usize = 0;
    let mut neg = false;
    if s.len() > 0 && s[0] == '-' && signed {
        start = 1;
        neg = true;
    } else if s.len() > 0 && s[0] == '+' {
        start = 1;
    }
    assert(start == 1 ==> s@.drop_first() == s@.subrange(1, s@.len() as int));
    assert(start == 0 ==> s@ == s@.subrange(0, s@.len() as int));
    if start >= s.len() {
        return None;
    }
    let ghost body = s@.subrange(start as int, s@.len() as int);
    assert(sign_and_digits(s@, signed) is Some ==> body == sign_and_digits_body(s@, signed));
    let mut i: usize = start;
    while i < s.len()
        invariant
            start <= i <= s@.len(),
            body == s@.subrange(start as int, s@.len() as int),
            sign_and_digits(s@, signed) is Some ==> body == sign_and_digits_body(s@, signed),
            all_digits(s@.subrange(start as int, i as int)),
        decreases s.len() - i,
    {
        if !(s[i] >= '0' && s[i] <= '9') {
            assert(!is_digit(body[i - start]));
            return None;
        }
        assert(s@.subrange(start as int, i + 1) == s@.subrange(start as int, i as int).push(
            s@[i as int],
        ));
        i = i + 1;
    }
    match digits_value(s, start, s.len()) {
        Some(v) => Some((neg, v)),
        None => None,
    }
}

pub fn parse_u8(s: &[char]) -> (r: Option<u8>)
    ensures
        r == parse_u8_spec(s@),
{
    match sign_and_digits_of(s, false) {
        Some((_, v)) => if v <= 255 { Some(v as u8) } else { None },
        None => None,
    }
}

pub fn parse_u64(s: &[char]) -> (r: Option<u64>)
    ensures
        r == parse_u64_spec(s@),
{
    match sign_and_digits_of(s, false) {
        Some((_, v)) => Some(v),
        None => None,
    }
}

pub fn parse_i64(s: &[char]) -> (r: Option<i64>)
    ensures
        r == parse_i64_spec(s@),
{
    match sign_and_digits_of(s, true) {
        Some((neg, v)) => {
            if neg {
                if v <= 0x8000_0000_0000_0000u64 {
                    if v == 0x8000_0000_0000_0000u64 {
                        Some(i64::MIN)
                    } else {
                        Some(-(v as i64))
                    }
                } else {
                    None
                }
            } else if v <= i64::MAX as u64 {
                Some(v as i64)
            } else {
                None
            }
        },
        None => None,
    }
}

pub fn parse_i32(s: &[char]) -> (r: Option<i32>)
    ensures
        r == parse_i32_spec(s@),
{
    match parse_i64(s) {
        Some(v) => if i32::MIN as i64 <= v && v <= i32::MAX as i64 { Some(v as i32) } else { None },
        None => None,
    }
}

/// Appends the decimal digits of `n` to `out`.
pub fn push_nat_text(out: &mut Vec<char>, n: u64)
    ensures
        final(out)@ == old(out)@ + nat_text(n as nat),
    decreases n,
{
    if n >= 10 {
        push_nat_text(out, n / 10);
    }
    let d = (n % 10) as u8 + 48u8;
    out.push(d as char);
}

} // verus!
