//! How a card's prompt and response text is cut out of its lines, and how its
//! block is written back.
use vstd::prelude::*;
use crate::text::{
    join_lines, lines_view, push_all, slice_of, split_lines, terminated, trim_end, trim_end_index,
    trim_start, trim_start_index,
};

verus! {

/// The number of spaces that `s` starts with.
pub open spec fn leading_spaces(s: Seq<char>) -> nat
    decreases s.len(),
{
    if s.len() > 0 && s[0] == ' ' {
        1 + leading_spaces(s.drop_first())
    } else {
        0
    }
}

/// `n` spaces.
pub open spec fn spaces(n: nat) -> Seq<char> {
    Seq::new(n, |i: int| ' ')
}

/// `l` without the indentation `n` spaces, where it starts with them.
pub open spec fn strip_indent(l: Seq<char>, n: nat) -> Seq<char> {
    if n <= l.len() && l.subrange(0, n as int) == spaces(n) {
        l.subrange(n as int, l.len() as int)
    } else {
        l
    }
}

/// A metadata line: after its leading whitespace it starts with `card-`.
pub open spec fn is_metadata_line(l: Seq<char>) -> bool {
    let t = trim_start(l);
    t.len() >= 5 && t.subrange(0, 5) == "card-"@
}

/// The prompt's lines without metadata lines and without the indentation.
pub open spec fn cleaned_lines(ls: Seq<Seq<char>>, n: nat) -> Seq<Seq<char>>
    decreases ls.len(),
{
    if ls.len() == 0 {
        seq![]
    } else if is_metadata_line(ls.last()) {
        cleaned_lines(ls.drop_last(), n)
    } else {
        cleaned_lines(ls.drop_last(), n).push(strip_indent(ls.last(), n))
    }
}

/// Lines without the indentation.
pub open spec fn stripped_lines(ls: Seq<Seq<char>>, n: nat) -> Seq<Seq<char>> {
    ls.map_values(|l: Seq<char>| strip_indent(l, n))
}

/// Lines with the indentation put in front.
pub open spec fn indented(ls: Seq<Seq<char>>, n: nat) -> Seq<Seq<char>> {
    ls.map_values(|l: Seq<char>| spaces(n) + l)
}

/// The indentation of a prompt: the leading spaces of its first line.
pub open spec fn prompt_indent(pl: Seq<Seq<char>>) -> nat {
    if pl.len() == 0 {
        0
    } else {
        leading_spaces(trim_end(pl[0]))
    }
}

/// The cleaned prompt: its lines without metadata and indentation, joined.
pub open spec fn cleaned_prompt(pl: Seq<Seq<char>>) -> Seq<char> {
    join_lines(cleaned_lines(pl, prompt_indent(pl)))
}

/// The response text: its lines without the prompt's indentation, joined.
pub open spec fn response_text(pl: Seq<Seq<char>>, rl: Seq<Seq<char>>) -> Seq<char> {
    join_lines(stripped_lines(rl, prompt_indent(pl)))
}

/// Up to 64 characters of the prompt's first line after the indentation and
/// the two-character list marker.
pub open spec fn prompt_prefix(pl: Seq<Seq<char>>) -> Seq<char> {
    let first = if pl.len() == 0 { seq![] } else { trim_end(pl[0]) };
    let from = prompt_indent(pl) + 2;
    if from >= first.len() {
        seq![]
    } else if from + 64 >= first.len() {
        first.subrange(from as int, first.len() as int)
    } else {
        first.subrange(from as int, from + 64int)
    }
}

/// A card's block in a page: its prompt lines, the metadata lines (indented
/// two more), and its response lines, each ended by a newline.
pub open spec fn card_block(
    prompt: Seq<char>,
    indent: nat,
    meta: Seq<Seq<char>>,
    response: Seq<char>,
) -> Seq<char> {
    terminated(indented(split_lines(prompt), indent)) + terminated(indented(meta, indent + 2))
        + terminated(indented(split_lines(response), indent))
}

pub fn count_leading_spaces(s: &[char]) -> (r: usize)
    ensures
        r == leading_spaces(s@),
        r <= s@.len(),
{
    let mut i: usize = 0;
    assert(s@.subrange(0, s@.len() as int) == s@);
    while i < s.len() && s[i] == ' '
        invariant
            i <= s@.len(),
            leading_spaces(s@) == i + leading_spaces(s@.subrange(i as int, s@.len() as int)),
        decreases s.len() - i,
    {
        assert(s@.subrange(i as int, s@.len() as int).drop_first() == s@.subrange(
            i + 1,
            s@.len() as int,
        ));
        i = i + 1;
    }
    i
}

fn strip_indent_of(l: &[char], n: usize) -> (r: Vec<char>)
    ensures
        r@ == strip_indent(l@, n as nat),
{
    if n > l.len() {
        return slice_of(l, 0, l.len());
    }
    let mut i: usize = 0;
    while i < n
        invariant
            n <= l@.len(),
            i <= n,
            l@.subrange(0, i as int) == spaces(i as nat),
        decreases n - i,
    {
        if l[i] != ' ' {
            assert(l@.subrange(0, n as int)[i as int] != spaces(n as nat)[i as int]);
            return slice_of(l, 0, l.len());
        }
        assert(l@.subrange(0, i + 1) =~= spaces((i + 1) as nat));
        i = i + 1;
    }
    slice_of(l, n, l.len())
}

pub fn is_metadata_line_of(l: &[char]) -> (r: bool)
    ensures
        r == is_metadata_line(l@),
{
    let a = trim_start_index(l);
    let t = slice_of(l, a, l.len());
    crate::text::starts_with_lit(t.as_slice(), "card-") && {
        proof {
            reveal_strlit("card-");
        }
        true
    }
}

/// The cleaned lines of a prompt (see `cleaned_lines`).
pub fn cleaned_lines_of(ls: &[Vec<char>], n: usize) -> (r: Vec<Vec<char>>)
    ensures
        lines_view(r@) == cleaned_lines(lines_view(ls@), n as nat),
{
    let mut out: Vec<Vec<char>> = Vec::new();
    let mut i: usize = 0;
    while i < ls.len()
        invariant
            i <= ls@.len(),
            lines_view(out@) == cleaned_lines(lines_view(ls@).subrange(0, i as int), n as nat),
        decreases ls.len() - i,
    {
        assert(lines_view(ls@).subrange(0, i + 1).drop_last() == lines_view(ls@).subrange(
            0,
            i as int,
        ));
        if !is_metadata_line_of(ls[i].as_slice()) {
            let s = strip_indent_of(ls[i].as_slice(), n);
            let ghost before = lines_view(out@);
            out.push(s);
            assert(lines_view(out@) == before.push(s@));
        }
        i = i + 1;
    }
    assert(lines_view(ls@).subrange(0, ls@.len() as int) == lines_view(ls@));
    out
}

/// Lines without the indentation (see `stripped_lines`).
pub fn stripped_lines_of(ls: &[Vec<char>], n: usize) -> (r: Vec<Vec<char>>)
    ensures
        lines_view(r@) == stripped_lines(lines_view(ls@), n as nat),
{
    let mut out: Vec<Vec<char>> = Vec::new();
    let mut i: usize = 0;
    while i < ls.len()
        invariant
            i <= ls@.len(),
            lines_view(out@) == stripped_lines(lines_view(ls@).subrange(0, i as int), n as nat),
        decreases ls.len() - i,
    {
        let s = strip_indent_of(ls[i].as_slice(), n);
        let ghost before = lines_view(out@);
        out.push(s);
        assert(lines_view(out@) =~= before.push(s@));
        assert(stripped_lines(lines_view(ls@).subrange(0, i + 1), n as nat) =~= stripped_lines(
            lines_view(ls@).subrange(0, i as int),
            n as nat,
        ).push(strip_indent(ls@[i as int]@, n as nat)));
        i = i + 1;
    }
    assert(lines_view(ls@).subrange(0, ls@.len() as int) == lines_view(ls@));
    out
}

/// The lines joined with newlines (see `join_lines`).
pub fn join_lines_of(ls: &[Vec<char>]) -> (r: Vec<char>)
    ensures
        r@ == join_lines(lines_view(ls@)),
{
    let mut out: Vec<char> = Vec::new();
    let mut i: usize = 0;
    while i < ls.len()
        invariant
            i <= ls@.len(),
            out@ == join_lines(lines_view(ls@).subrange(0, i as int)),
        decreases ls.len() - i,
    {
        assert(lines_view(ls@).subrange(0, i + 1).drop_last() == lines_view(ls@).subrange(
            0,
            i as int,
        ));
        if i > 0 {
            out.push('\n');
        }
        push_all(&mut out, ls[i].as_slice());
        i = i + 1;
    }
    assert(lines_view(ls@).subrange(0, ls@.len() as int) == lines_view(ls@));
    out
}

/// Appends each line, indented by `n + extra` spaces and ended by a newline.
pub fn push_terminated(out: &mut Vec<char>, ls: &[Vec<char>], n: usize, extra: usize)
    ensures
        final(out)@ == old(out)@ + terminated(indented(lines_view(ls@), (n + extra) as nat)),
{
    let mut i: usize = 0;
    while i < ls.len()
        invariant
            i <= ls@.len(),
            out@ == old(out)@ + terminated(indented(lines_view(ls@).subrange(0, i as int), (n + extra) as nat)),
        decreases ls.len() - i,
    {
        let ghost before = out@;
        let mut k: usize = 0;
        while k < n
            invariant
                k <= n,
                out@ == before + spaces(k as nat),
            decreases n - k,
        {
            out.push(' ');
            assert(spaces((k + 1) as nat) =~= spaces(k as nat).push(' '));
            k = k + 1;
        }
        let mut e: usize = 0;
        while e < extra
            invariant
                e <= extra,
                out@ == before + spaces((n + e) as nat),
            decreases extra - e,
        {
            out.push(' ');
            assert(spaces((n + e + 1) as nat) =~= spaces((n + e) as nat).push(' '));
            e = e + 1;
        }
        push_all(out, ls[i].as_slice());
        out.push('\n');
        assert(indented(lines_view(ls@).subrange(0, i + 1), (n + extra) as nat).drop_last() =~= indented(
            lines_view(ls@).subrange(0, i as int),
            (n + extra) as nat,
        ));
        assert(out@ =~= old(out)@ + terminated(
            indented(lines_view(ls@).subrange(0, i + 1), (n + extra) as nat),
        ));
        i = i + 1;
    }
    assert(lines_view(ls@).subrange(0, ls@.len() as int) == lines_view(ls@));
}

pub proof fn lemma_indented_zero(ls: Seq<Seq<char>>)
    ensures
        indented(ls, 0) == ls,
{
    assert forall|i: int| 0 <= i < ls.len() implies indented(ls, 0)[i] == ls[i] by {
        assert(spaces(0) + ls[i] =~= ls[i]);
    }
    assert(indented(ls, 0) =~= ls);
}

/// The prompt prefix (see `prompt_prefix`).
pub fn prompt_prefix_of(pl: &[Vec<char>]) -> (r: Vec<char>)
    ensures
        r@ == prompt_prefix(lines_view(pl@)),
{
    if pl.len() == 0 {
        return Vec::new();
    }
    let e = trim_end_index(pl[0].as_slice());
    let first = slice_of(pl[0].as_slice(), 0, e);
    let indent = count_leading_spaces(first.as_slice());
    let len = first.len();
    if len < 2 || indent >= len - 2 {
        Vec::new()
    } else if len - (indent + 2) <= 64 {
        slice_of(first.as_slice(), indent + 2, len)
    } else {
        slice_of(first.as_slice(), indent + 2, indent + 2 + 64)
    }
}

pub fn prompt_indent_of(pl: &[Vec<char>]) -> (r: usize)
    ensures
        r == prompt_indent(lines_view(pl@)),
{
    if pl.len() == 0 {
        return 0;
    }
    let e = trim_end_index(pl[0].as_slice());
    let first = slice_of(pl[0].as_slice(), 0, e);
    count_leading_spaces(first.as_slice())
}

} // verus!
