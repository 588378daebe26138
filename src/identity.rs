//! A card's address: the fingerprint of its cleaned prompt and the serial
//! number tag embedded after its card marker.
use vstd::prelude::*;
use crate::decimal::leading_digits;
use crate::num::{digit_char, nat_text, parse_u64, parse_u64_spec, push_nat_text};
use crate::text::{find_from, find_lit, push_all, push_lit, slice_of, starts_with_lit};

verus! {

/// The 64-bit hash of a card's cleaned prompt.
#[derive(Clone, Copy, Debug, PartialEq, Eq, Structural)]
pub struct Fingerprint(pub u64);

/// XXH3-64 of the UTF-8 bytes of a text.
pub uninterp spec fn xxh3_of(s: Seq<char>) -> u64;

/// Relies on `xxhash_rust::xxh3::xxh3_64`, a function of the bytes alone.
#[verifier::external_body]
fn xxh3_64_of(s: &str) -> (r: u64)
    ensures
        r == xxh3_of(s@),
{
    xxhash_rust::xxh3::xxh3_64(s.as_bytes())
}

/// The lowest `width` hex digits of `n`, most significant first.
pub open spec fn hex_text(n: nat, width: nat) -> Seq<char>
    decreases width,
{
    if width == 0 {
        seq![]
    } else {
        hex_text(n / 16, (width - 1) as nat).push(hex_digit(n % 16))
    }
}

pub open spec fn hex_digit(d: nat) -> char {
    if d < 10 {
        digit_char(d)
    } else {
        ((d - 10 + 97) as u8) as char
    }
}

/// A hex digit's value, either case.
pub open spec fn hex_val(c: char) -> Option<nat> {
    if '0' <= c <= '9' {
        Some((c as nat - '0' as nat) as nat)
    } else if 'a' <= c <= 'f' {
        Some((c as nat - 'a' as nat + 10) as nat)
    } else if 'A' <= c <= 'F' {
        Some((c as nat - 'A' as nat + 10) as nat)
    } else {
        None
    }
}

/// The value of a run of hex digits, or `None` where one is not a hex digit.
pub open spec fn hex_digits_val(s: Seq<char>) -> Option<nat>
    decreases s.len(),
{
    if s.len() == 0 {
        Some(0)
    } else {
        match (hex_digits_val(s.drop_last()), hex_val(s.last())) {
            (Some(a), Some(d)) => Some(a * 16 + d),
            _ => None,
        }
    }
}

impl Fingerprint {
    /// The fingerprint of a cleaned prompt.
    pub fn of_text(s: &str) -> (r: Fingerprint)
        ensures
            r.0 == xxh3_of(s@),
    {
        Fingerprint(xxh3_64_of(s))
    }

    /// `0x` and sixteen lowercase hex digits.
    pub fn to_text(&self) -> (r: Vec<char>)
        ensures
            r@ == seq!['0', 'x'] + hex_text(self.0 as nat, 16),
    {
        let mut out: Vec<char> = Vec::new();
        out.push('0');
        out.push('x');
        let mut k: u32 = 16;
        let mut digits: Vec<char> = Vec::new();
        let mut n: u64 = self.0;
        // Least significant digit first, then reversed.
        while k > 0
            invariant
                k <= 16,
                hex_text(self.0 as nat, 16) == hex_text(n as nat, k as nat) + digits@,
            decreases k,
        {
            let d = (n % 16) as u8;
            let c = if d < 10 { (d + 48) as char } else { (d - 10 + 97) as char };
            let ghost old_digits = digits@;
            digits.insert(0, c);
            assert(hex_text(n as nat, k as nat) == hex_text((n / 16) as nat, (k - 1) as nat).push(
                hex_digit((n % 16) as nat),
            ));
            assert(digits@ == seq![c] + old_digits);
            n = n / 16;
            k = k - 1;
        }
        push_all(&mut out, digits.as_slice());
        out
    }
}

/// The card marker.
pub open spec fn marker() -> Seq<char> {
    "#card"@
}

/// Opens and closes the serial number tag after the marker.
pub open spec fn tag_open() -> Seq<char> {
    " <!-- CSN:"@
}

pub open spec fn tag_close() -> Seq<char> {
    " -->"@
}

/// The length of a tag `" <!-- CSN:" digits " -->"` at the start of `s`, and
/// its digits.
pub open spec fn tag_at(s: Seq<char>) -> Option<(nat, Seq<char>)> {
    let no = tag_open().len();
    if no <= s.len() && s.subrange(0, no as int) == tag_open() {
        let rest = s.subrange(no as int, s.len() as int);
        let d = leading_digits(rest);
        let after = rest.subrange(d as int, rest.len() as int);
        if d > 0 && tag_close().len() <= after.len() && after.subrange(0, tag_close().len() as int)
            == tag_close() {
            Some((no + d + tag_close().len(), rest.subrange(0, d as int)))
        } else {
            None
        }
    } else {
        None
    }
}

/// The serial number in a prompt: the tag right after the first card marker,
/// where there is one and its number fits in 64 bits.
pub open spec fn serial_of(prompt: Seq<char>) -> Option<u64> {
    match find_from(prompt, marker(), 0) {
        Some(i) => match tag_at(prompt.subrange(i + marker().len() as int, prompt.len() as int)) {
            Some((_, ds)) => parse_u64_spec(ds),
            None => None,
        },
        None => None,
    }
}

/// The prompt with the first marker (and the tag after it, where there is
/// one) replaced by the marker tagged with `n`.
pub open spec fn with_serial(prompt: Seq<char>, n: u64) -> Seq<char> {
    match find_from(prompt, marker(), 0) {
        Some(i) => {
            let after = prompt.subrange(i + marker().len() as int, prompt.len() as int);
            let skip = match tag_at(after) {
                Some((len, _)) => len,
                None => 0,
            };
            prompt.subrange(0, i as int) + marker() + tag_open() + nat_text(n as nat) + tag_close()
                + after.subrange(skip as int, after.len() as int)
        },
        None => prompt,
    }
}

fn tag_of(s: &[char], from: usize) -> (r: Option<(usize, Vec<char>)>)
    requires
        from <= s@.len(),
    ensures
        match tag_at(s@.subrange(from as int, s@.len() as int)) {
            Some((len, ds)) => r matches Some((l, d)) && l == len && d@ == ds,
            None => r is None,
        },
        r matches Some((l, _)) ==> from + l <= s@.len(),
{
    let ghost t = s@.subrange(from as int, s@.len() as int);
    let rest0 = slice_of(s, from, s.len());
    assert(rest0@ == t);
    if !starts_with_lit(rest0.as_slice(), " <!-- CSN:") {
        return None;
    }
    let no: usize = 10;
    proof {
        reveal_strlit(" <!-- CSN:");
    }
    let rest = slice_of(rest0.as_slice(), no, rest0.len());
    let d = crate::decimal::digit_run(rest.as_slice(), 0);
    proof {
        crate::decimal::lemma_leading_digits_pub(rest@, d as int);
    }
    let after = slice_of(rest.as_slice(), d, rest.len());
    if d > 0 && starts_with_lit(after.as_slice(), " -->") {
        proof {
            reveal_strlit(" -->");
        }
        Some((no + d + 4, slice_of(rest.as_slice(), 0, d)))
    } else {
        None
    }
}

/// Reads the serial number tag of a prompt (see `serial_of`).
pub fn extract_serial_num(prompt: &[char]) -> (r: Option<u64>)
    ensures
        r == serial_of(prompt@),
{
    proof {
        reveal_strlit("#card");
    }
    let len = prompt.len();
    match find_lit(prompt, "#card", 0) {
        Some(i) => match tag_of(prompt, i + 5) {
            Some((_, ds)) => parse_u64(ds.as_slice()),
            None => None,
        },
        None => None,
    }
}

/// Embeds serial number `n` after the first card marker (see `with_serial`).
pub fn embed_serial_num(prompt: &[char], n: u64) -> (r: Vec<char>)
    ensures
        r@ == with_serial(prompt@, n),
{
    proof {
        reveal_strlit("#card");
    }
    let len = prompt.len();
    match find_lit(prompt, "#card", 0) {
        Some(i) => {
            assert(i + 5 <= len);
            let skip: usize = match tag_of(prompt, i + 5) {
                Some((len, _)) => len,
                None => 0,
            };
            let mut out = slice_of(prompt, 0, i);
            push_lit(&mut out, "#card");
            push_lit(&mut out, " <!-- CSN:");
            push_nat_text(&mut out, n);
            push_lit(&mut out, " -->");
            let ghost after = prompt@.subrange(i + 5, prompt@.len() as int);
            let tail = slice_of(prompt, i + 5 + skip, prompt.len());
            assert(tail@ == after.subrange(skip as int, after.len() as int));
            push_all(&mut out, tail.as_slice());
            out
        },
        None => slice_of(prompt, 0, prompt.len()),
    }
}

} // verus!
