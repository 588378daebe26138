//! Plain-text forms of a card, and the review answers a key stands for.
use vstd::prelude::*;
use crate::card_text::{card_block, push_terminated};
use crate::codec::{meta_lines, meta_lines_of};
use crate::num::{parse_u64, parse_u64_spec};
use crate::storage::Card;
use crate::text::{chars_of, push_all, split_lines_of, string_of, trim, trim_of};

verus! {

/// How a card is shown.
#[derive(Clone, Copy, Debug, PartialEq, Eq, Structural)]
pub enum OutputFormat {
    Clean,
    Typst,
    Sixel,
    Storage,
}

/// Which parts of a card are shown.
#[derive(Clone, Copy, Debug, PartialEq, Eq, Structural)]
pub enum CardBodyParts {
    Prompt,
    All,
}

/// How hard recalling a card was.
#[derive(Clone, Copy, Debug, PartialEq, Eq, Structural)]
pub enum ReviewResponse {
    LittleEffort,
    SomeEffort,
    MuchEffort,
    NoRecall,
}

/// The answer keys `1` to `4` stand for.
pub open spec fn response_of_key(c: char) -> Option<ReviewResponse> {
    if c == '1' {
        Some(ReviewResponse::LittleEffort)
    } else if c == '2' {
        Some(ReviewResponse::SomeEffort)
    } else if c == '3' {
        Some(ReviewResponse::MuchEffort)
    } else if c == '4' {
        Some(ReviewResponse::NoRecall)
    } else {
        None
    }
}

pub fn response_for_key(c: char) -> (r: Option<ReviewResponse>)
    ensures
        r == response_of_key(c),
{
    if c == '1' {
        Some(ReviewResponse::LittleEffort)
    } else if c == '2' {
        Some(ReviewResponse::SomeEffort)
    } else if c == '3' {
        Some(ReviewResponse::MuchEffort)
    } else if c == '4' {
        Some(ReviewResponse::NoRecall)
    } else {
        None
    }
}

/// The prompt, then (for all parts) the response, each followed by a newline.
pub open spec fn clean_text(prompt: Seq<char>, response: Seq<char>, parts: CardBodyParts) -> Seq<char> {
    match parts {
        CardBodyParts::Prompt => prompt + seq!['\n'],
        CardBodyParts::All => prompt + seq!['\n'] + response + seq!['\n'],
    }
}

/// A card as plain text (see `clean_text`).
pub fn format_card_clean(card: &Card, parts: CardBodyParts) -> (r: String)
    ensures
        r@ == clean_text(card.body.prompt@, card.body.response@, parts),
{
    let mut out = chars_of(card.body.prompt.as_str());
    out.push('\n');
    if parts == CardBodyParts::All {
        let response = chars_of(card.body.response.as_str());
        push_all(&mut out, response.as_slice());
        out.push('\n');
    }
    string_of(out.as_slice())
}

/// A card as it is stored in a page: its block with its metadata lines. Only
/// the whole card can be shown so.
pub fn format_card_storage(card: &Card, parts: CardBodyParts) -> (r: Option<String>)
    requires
        card.metadata.srs_meta.wf(),
    ensures
        parts == CardBodyParts::Prompt ==> r is None,
        parts == CardBodyParts::All ==> (r matches Some(s) && s@ == card_block(
            card.body.prompt@,
            card.body.prompt_indent as nat,
            meta_lines(card.metadata.srs_meta),
            card.body.response@,
        )),
{
    if parts == CardBodyParts::Prompt {
        return None;
    }
    let mut out: Vec<char> = Vec::new();
    let prompt = chars_of(card.body.prompt.as_str());
    let prompt_lines = split_lines_of(prompt.as_slice());
    push_terminated(&mut out, prompt_lines.as_slice(), card.body.prompt_indent, 0);
    let ml = meta_lines_of(&card.metadata.srs_meta);
    push_terminated(&mut out, ml.as_slice(), card.body.prompt_indent, 2);
    let response = chars_of(card.body.response.as_str());
    let response_lines = split_lines_of(response.as_slice());
    push_terminated(&mut out, response_lines.as_slice(), card.body.prompt_indent, 0);
    Some(string_of(out.as_slice()))
}

/// The serial number after the one a counter file holds: the file's text,
/// trimmed, is the last number handed out; an empty file stands for zero.
/// `None` where the text is not a number or the next one does not fit.
pub open spec fn next_serial_spec(counter: Seq<char>) -> Option<u64> {
    let t = trim(counter);
    let last = if t.len() == 0 { Some(0u64) } else { parse_u64_spec(t) };
    match last {
        Some(n) => if n < u64::MAX { Some((n + 1) as u64) } else { None },
        None => None,
    }
}

/// The next serial number from a counter file's text (see `next_serial_spec`).
pub fn next_serial(counter: &str) -> (r: Option<u64>)
    ensures
        r == next_serial_spec(counter@),
{
    let cs = chars_of(counter);
    let t = trim_of(cs.as_slice());
    let last = if t.len() == 0 { Some(0u64) } else { parse_u64(t.as_slice()) };
    match last {
        Some(n) => if n < u64::MAX { Some(n + 1) } else { None },
        None => None,
    }
}

} // verus!
