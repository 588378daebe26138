//! Exact decimal numbers: the interval, ease, stability and difficulty values.
use vstd::prelude::*;
use crate::num::{all_digits, digits_val, digits_value, is_digit, nat_text, push_nat_text};

verus! {

/// `±units / 10^scale`, kept without trailing fraction zeros and without a
/// negative zero, so that equal numbers are equal values.
#[derive(Clone, Copy, Debug, PartialEq, Eq, Structural)]
pub struct Decimal {
    pub negative: bool,
    pub units: u64,
    pub scale: u8,
}

pub open spec fn pow10(n: nat) -> nat
    decreases n,
{
    if n == 0 {
        1
    } else {
        10 * pow10((n - 1) as nat)
    }
}

/// Trailing fraction zeros removed, and the sign dropped from zero.
pub open spec fn normalized(negative: bool, units: nat, scale: nat) -> (nat, nat, bool)
    decreases scale,
{
    if scale > 0 && units % 10 == 0 {
        normalized(negative, units / 10, (scale - 1) as nat)
    } else {
        (units, scale, negative && units != 0)
    }
}

impl Decimal {
    pub open spec fn wf(self) -> bool {
        &&& self.scale <= 19
        &&& (self.scale > 0 ==> self.units % 10 != 0)
        &&& (self.units == 0 ==> !self.negative)
    }

    /// The number as a fraction over `10^scale`.
    pub open spec fn numerator(self) -> int {
        if self.negative {
            -(self.units as int)
        } else {
            self.units as int
        }
    }
}

/// The number of leading ASCII digits of `s`.
pub open spec fn leading_digits(s: Seq<char>) -> nat
    decreases s.len(),
{
    if s.len() > 0 && is_digit(s[0]) {
        1 + leading_digits(s.drop_first())
    } else {
        0
    }
}

/// `s` without its sign, when it starts with one.
pub open spec fn unsigned_part(s: Seq<char>) -> Seq<char> {
    if s.len() > 0 && (s[0] == '-' || s[0] == '+') {
        s.drop_first()
    } else {
        s
    }
}

/// Sign, integer digits and fraction digits of `[+-]?digits*(.digits*)?`
/// with at least one digit.
pub open spec fn decimal_parts(s: Seq<char>) -> Option<(bool, Seq<char>, Seq<char>)> {
    let neg = s.len() > 0 && s[0] == '-';
    let body = unsigned_part(s);
    let k = leading_digits(body);
    let ip = body.subrange(0, k as int);
    let rest = body.subrange(k as int, body.len() as int);
    let fp = if rest.len() > 0 { rest.drop_first() } else { rest };
    if (rest.len() == 0 || (rest[0] == '.' && all_digits(fp))) && ip.len() + fp.len() > 0 {
        Some((neg, ip, fp))
    } else {
        None
    }
}

/// The decimal that `s` spells, where its digits fit in `u64` and it has at
/// most 19 fraction digits.
pub open spec fn parse_decimal_spec(s: Seq<char>) -> Option<Decimal> {
    match decimal_parts(s) {
        Some((neg, ip, fp)) => {
            let raw = digits_val(ip + fp);
            if raw <= u64::MAX && fp.len() <= 19 {
                let (u, sc, n) = normalized(neg, raw, fp.len());
                Some(Decimal { negative: n, units: u as u64, scale: sc as u8 })
            } else {
                None
            }
        },
        None => None,
    }
}

/// `n` written with exactly `width` digits, zeros in front (for `n < 10^width`).
pub open spec fn padded_text(n: nat, width: nat) -> Seq<char>
    decreases width,
{
    if width == 0 {
        seq![]
    } else {
        padded_text(n / 10, (width - 1) as nat).push(crate::num::digit_char(n % 10))
    }
}

/// The shortest text of `d`: `-` for a negative number, the integer part, and
/// the fraction digits after a `.` where there are any.
pub open spec fn decimal_text(d: Decimal) -> Seq<char> {
    let sign = if d.negative { seq!['-'] } else { seq![] };
    let p = pow10(d.scale as nat);
    let int_part = nat_text(d.units as nat / p);
    if d.scale == 0 {
        sign + int_part
    } else {
        sign + int_part + seq!['.'] + padded_text(d.units as nat % p, d.scale as nat)
    }
}

proof fn lemma_pow10_mono(a: nat, b: nat)
    requires
        a <= b,
    ensures
        1 <= pow10(a) <= pow10(b),
    decreases b,
{
    if b > a {
        lemma_pow10_mono(a, (b - 1) as nat);
    } else if a > 0 {
        lemma_pow10_mono((a - 1) as nat, (a - 1) as nat);
    }
}

proof fn lemma_pow10_bound(n: nat)
    requires
        n <= 19,
    ensures
        1 <= pow10(n) <= 10_000_000_000_000_000_000,
{
    lemma_pow10_mono(n, 19);
    reveal_with_fuel(pow10, 20);
}

pub fn pow10_u64(n: u8) -> (r: u64)
    requires
        n <= 19,
    ensures
        r == pow10(n as nat),
{
    let mut r: u64 = 1;
    let mut i: u8 = 0;
    while i < n
        invariant
            i <= n <= 19,
            r == pow10(i as nat),
        decreases n - i,
    {
        proof {
            lemma_pow10_bound((i + 1) as nat);
        }
        r = r * 10;
        i = i + 1;
    }
    r
}

/// Drops trailing fraction zeros and the sign of zero.
pub fn normalize(negative: bool, units: u64, scale: u8) -> (r: Decimal)
    requires
        scale <= 19,
    ensures
        r.wf(),
        r.scale <= scale,
        (r.units as nat, r.scale as nat, r.negative) == normalized(negative, units as nat, scale as nat),
{
    let mut u = units;
    let mut s = scale;
    while s > 0 && u % 10 == 0
        invariant
            s <= scale <= 19,
            normalized(negative, u as nat, s as nat) == normalized(negative, units as nat, scale as nat),
        decreases s,
    {
        u = u / 10;
        s = s - 1;
    }
    Decimal { negative: negative && u != 0, units: u, scale: s }
}

proof fn lemma_leading_digits(s: Seq<char>, i: int)
    requires
        0 <= i <= s.len(),
        all_digits(s.subrange(0, i)),
        i == s.len() || !is_digit(s[i]),
    ensures
        leading_digits(s) == i,
    decreases i,
{
    if i > 0 {
        assert(is_digit(s.subrange(0, i)[0]));
        assert forall|j: int| 0 <= j < i - 1 implies is_digit(
            #[trigger] s.drop_first().subrange(0, i - 1)[j],
        ) by {
            assert(s.drop_first().subrange(0, i - 1)[j] == s.subrange(0, i)[j + 1]);
        }
        lemma_leading_digits(s.drop_first(), i - 1);
    }
}

/// The end of the run of ASCII digits that starts at `from`.
pub fn digit_run(s: &[char], from: usize) -> (r: usize)
    requires
        from <= s@.len(),
    ensures
        from <= r <= s@.len(),
        all_digits(s@.subrange(from as int, r as int)),
        r == s@.len() || !is_digit(s@[r as int]),
{
    let mut i: usize = from;
    while i < s.len() && s[i] >= '0' && s[i] <= '9'
        invariant
            from <= i <= s@.len(),
            all_digits(s@.subrange(from as int, i as int)),
        decreases s.len() - i,
    {
        assert(s@.subrange(from as int, i + 1) == s@.subrange(from as int, i as int).push(
            s@[i as int],
        ));
        i = i + 1;
    }
    i
}

pub proof fn lemma_leading_digits_pub(s: Seq<char>, i: int)
    requires
        0 <= i <= s.len(),
        all_digits(s.subrange(0, i)),
        i == s.len() || !is_digit(s[i]),
    ensures
        leading_digits(s) == i,
{
    lemma_leading_digits(s, i);
}

proof fn lemma_parts(s: Seq<char>, start: int, i: int)
    requires
        start == (if s.len() > 0 && (s[0] == '-' || s[0] == '+') { 1int } else { 0int }),
        start <= i <= s.len(),
        all_digits(s.subrange(start, i)),
        i == s.len() || !is_digit(s[i]),
    ensures
        leading_digits(unsigned_part(s)) == i - start,
        unsigned_part(s).subrange(0, i - start) == s.subrange(start, i),
        unsigned_part(s).subrange(i - start, unsigned_part(s).len() as int) == s.subrange(
            i,
            s.len() as int,
        ),
{
    let body = unsigned_part(s);
    assert(body == s.subrange(start, s.len() as int));
    assert(body.subrange(0, i - start) == s.subrange(start, i));
    lemma_leading_digits(body, i - start);
}

/// Reads a decimal number as described by `parse_decimal_spec`.
#[verifier::rlimit(50)]
pub fn parse_decimal(s: &[char]) -> (r: Option<Decimal>)
    ensures
        r == parse_decimal_spec(s@),
        r matches Some(d) ==> d.wf(),
{
    let neg = s.len() > 0 && s[0] == '-';
    let start: usize = if s.len() > 0 && (s[0] == '-' || s[0] == '+') { 1 } else { 0 };
    let int_end = digit_run(s, start);
    proof {
        lemma_parts(s@, start as int, int_end as int);
    }
    let ghost ip = s@.subrange(start as int, int_end as int);
    let ghost rest = s@.subrange(int_end as int, s@.len() as int);
    let mut frac_len: usize = 0;
    if int_end < s.len() {
        if s[int_end] != '.' {
            assert(rest[0] == s@[int_end as int]);
            return None;
        }
        let j = digit_run(s, int_end + 1);
        assert(rest.drop_first() == s@.subrange(int_end + 1, s@.len() as int));
        if j < s.len() {
            assert(!is_digit(rest.drop_first()[j - int_end - 1]));
            return None;
        }
        frac_len = s.len() - int_end - 1;
    }
    let ghost fp = if rest.len() > 0 { rest.drop_first() } else { rest };
    assert(fp.len() == frac_len);
    if int_end - start + frac_len == 0 {
        return None;
    }
    if frac_len > 19 {
        return None;
    }
    // The digits without the dot, read as one number.
    let mut digits: Vec<char> = Vec::new();
    let mut p: usize = start;
    while p < int_end
        invariant
            start <= p <= int_end <= s@.len(),
            digits@ == s@.subrange(start as int, p as int),
        decreases int_end - p,
    {
        digits.push(s[p]);
        assert(s@.subrange(start as int, p + 1) == s@.subrange(start as int, p as int).push(
            s@[p as int],
        ));
        p = p + 1;
    }
    let mut q: usize = if int_end < s.len() { int_end + 1 } else { s.len() };
    while q < s.len()
        invariant
            int_end < q <= s@.len() || q == int_end == s@.len(),
            digits@ == (if int_end < s@.len() { ip + s@.subrange(int_end + 1, q as int) } else { ip }),
        decreases s.len() - q,
    {
        digits.push(s[q]);
        assert(s@.subrange(int_end + 1, q + 1) == s@.subrange(int_end + 1, q as int).push(
            s@[q as int],
        ));
        q = q + 1;
    }
    assert(int_end < s@.len() ==> fp == s@.subrange(int_end + 1, s@.len() as int));
    assert(int_end == s@.len() ==> fp =~= seq![]);
    assert(digits@ =~= ip + fp);
    assert(all_digits(ip + fp)) by {
        assert forall|k: int| 0 <= k < (ip + fp).len() implies is_digit(#[trigger] (ip + fp)[k]) by {
            if k < ip.len() {
                assert(is_digit(ip[k]));
            } else {
                assert(is_digit(fp[k - ip.len()]));
            }
        }
    }
    let n = digits.len();
    assert(digits@.subrange(0, n as int) == digits@);
    match digits_value(digits.as_slice(), 0, n) {
        Some(raw) => Some(normalize(neg, raw, frac_len as u8)),
        None => None,
    }
}

/// `d` rounded to three fraction digits, halves away from zero.
pub open spec fn round3(d: Decimal) -> Decimal {
    if d.scale <= 3 {
        d
    } else {
        let p = pow10((d.scale - 3) as nat);
        let q = d.units as nat / p;
        let q2 = if 2 * (d.units as nat % p) >= p { q + 1 } else { q };
        let (u, sc, n) = normalized(d.negative, q2, 3);
        Decimal { negative: n, units: u as u64, scale: sc as u8 }
    }
}

/// The integer `v` as a decimal.
pub open spec fn decimal_of_int(v: i64) -> Decimal {
    Decimal { negative: v < 0, units: (if v < 0 { -(v as int) } else { v as int }) as u64, scale: 0 }
}

/// `d` without its fraction, towards zero, saturated to the range of `i64`.
pub open spec fn trunc_to_i64(d: Decimal) -> i64 {
    let t = d.numerator() / pow10(d.scale as nat) as int;
    let t = if d.negative { -((d.units as nat / pow10(d.scale as nat)) as int) } else { t };
    if t > i64::MAX {
        i64::MAX
    } else if t < i64::MIN {
        i64::MIN
    } else {
        t as i64
    }
}

fn push_padded(out: &mut Vec<char>, n: u64, width: u8)
    ensures
        final(out)@ == old(out)@ + padded_text(n as nat, width as nat),
    decreases width,
{
    if width > 0 {
        push_padded(out, n / 10, width - 1);
        let d = (n % 10) as u8 + 48u8;
        out.push(d as char);
        assert(final(out)@ == old(out)@ + padded_text(n as nat, width as nat));
    }
}

/// Appends the text of `d` (see `decimal_text`).
pub fn push_decimal_text(out: &mut Vec<char>, d: Decimal)
    requires
        d.wf(),
    ensures
        final(out)@ == old(out)@ + decimal_text(d),
{
    if d.negative {
        out.push('-');
    }
    let p = pow10_u64(d.scale);
    proof {
        lemma_pow10_bound(d.scale as nat);
    }
    push_nat_text(out, d.units / p);
    if d.scale > 0 {
        out.push('.');
        push_padded(out, d.units % p, d.scale);
    }
    assert(final(out)@ =~= old(out)@ + decimal_text(d));
}

pub fn round_to_millis(d: Decimal) -> (r: Decimal)
    requires
        d.wf(),
    ensures
        r == round3(d),
        r.wf(),
        r.scale <= 3,
{
    if d.scale <= 3 {
        return d;
    }
    let p = pow10_u64(d.scale - 3);
    proof {
        lemma_pow10_bound((d.scale - 3) as nat);
    }
    let q = d.units / p;
    let rem = d.units % p;
    assert(q <= u64::MAX / 10) by {
        lemma_pow10_mono(1, (d.scale - 3) as nat);
        assert(d.units as nat / p as nat <= d.units as nat / 10) by (nonlinear_arith)
            requires p >= 10;
    }
    let q2 = if rem >= p - rem { q + 1 } else { q };
    normalize(d.negative, q2, 3)
}

pub fn decimal_from_i64(v: i64) -> (r: Decimal)
    ensures
        r == decimal_of_int(v),
        r.wf(),
{
    if v < 0 {
        let u: u64 = if v == i64::MIN { 0x8000_0000_0000_0000u64 } else { (-v) as u64 };
        Decimal { negative: true, units: u, scale: 0 }
    } else {
        Decimal { negative: false, units: v as u64, scale: 0 }
    }
}

pub fn decimal_trunc_to_i64(d: Decimal) -> (r: i64)
    requires
        d.wf(),
    ensures
        r == trunc_to_i64(d),
{
    let p = pow10_u64(d.scale);
    proof {
        lemma_pow10_bound(d.scale as nat);
    }
    let t = d.units / p;
    if d.negative {
        if t >= 0x8000_0000_0000_0000u64 {
            i64::MIN
        } else {
            -(t as i64)
        }
    } else if t > i64::MAX as u64 {
        i64::MAX
    } else {
        t as i64
    }
}

} // verus!
