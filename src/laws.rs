//! Properties that relate several operations of the library.
use vstd::prelude::*;
use crate::card_text::{
    card_block, cleaned_lines, cleaned_prompt, indented, is_metadata_line, prompt_indent, spaces,
};
use crate::codec::{
    find_sep_from, fsrs_from_json, fsrs_json_text, key_value, meta_lines, srs_meta_from_lines,
    srs_meta_of_fsrs, FSRSMeta, SRSMeta,
};
use crate::identity::{
    marker, serial_of, tag_at, tag_close, tag_open, with_serial, xxh3_of, Fingerprint,
};
use crate::num::{all_digits, digit_char, digit_val, digits_val, is_digit, nat_text};
use crate::side_store::SideStore;
use crate::storage::{
    merged_srs, range_lines, rebuilt_page, rewrite_of, CardMetadata, LineRange, MetadataMode,
    Rewrite,
};
use crate::text::{
    contains, find_from, is_ws, lines_acc, split_lines, strip_cr, terminated, trim, trim_end,
    trim_start,
};

verus! {

/// In side-store mode, a card whose serial number has a record in the store
/// lists with that record's scheduling state, not the one its page gave.
pub proof fn lemma_merge_precedence(m: CardMetadata, store: SideStore, f: FSRSMeta)
    requires
        m.card_ref.serial_num is Some,
        store.get_spec(m.card_ref.serial_num->Some_0) == Some(f),
    ensures
        merged_srs(m, store) == srs_meta_of_fsrs(f),
        merged_srs(m, store).fsrs_meta == f,
{
}

/// A card without a serial number, or whose serial number has no record,
/// keeps the metadata its page gave.
pub proof fn lemma_merge_fallback(m: CardMetadata, store: SideStore)
    requires
        m.card_ref.serial_num is None || store.get_spec(m.card_ref.serial_num->Some_0) is None,
    ensures
        merged_srs(m, store) == m.srs_meta,
{
}

proof fn lemma_cleaned_append(a: Seq<Seq<char>>, b: Seq<Seq<char>>, n: nat)
    ensures
        cleaned_lines(a + b, n) == cleaned_lines(a, n) + cleaned_lines(b, n),
    decreases b.len(),
{
    if b.len() == 0 {
        assert(a + b =~= a);
        assert(cleaned_lines(a, n) + cleaned_lines(b, n) =~= cleaned_lines(a, n));
    } else {
        lemma_cleaned_append(a, b.drop_last(), n);
        assert((a + b).drop_last() =~= a + b.drop_last());
        assert((a + b).last() == b.last());
        if !is_metadata_line(b.last()) {
            assert(cleaned_lines(a, n) + cleaned_lines(b, n) =~= (cleaned_lines(a, n)
                + cleaned_lines(b.drop_last(), n)).push(
                crate::card_text::strip_indent(b.last(), n),
            ));
        }
    }
}

proof fn lemma_cleaned_metadata(meta: Seq<Seq<char>>, n: nat)
    requires
        forall|i: int| 0 <= i < meta.len() ==> #[trigger] is_metadata_line(meta[i]),
    ensures
        cleaned_lines(meta, n) == Seq::<Seq<char>>::empty(),
    decreases meta.len(),
{
    if meta.len() > 0 {
        assert(is_metadata_line(meta[meta.len() - 1]));
        assert forall|i: int| 0 <= i < meta.drop_last().len() implies #[trigger] is_metadata_line(
            meta.drop_last()[i],
        ) by {
            assert(meta.drop_last()[i] == meta[i]);
        }
        lemma_cleaned_metadata(meta.drop_last(), n);
    }
}

/// Metadata lines do not touch a card's identity: putting metadata lines of
/// any content, in any order, after the first line of a prompt leaves its
/// cleaned text, and so its fingerprint, as it was, and its prefix too.
pub proof fn lemma_fingerprint_ignores_metadata(pl: Seq<Seq<char>>, meta: Seq<Seq<char>>, k: int)
    requires
        1 <= k <= pl.len(),
        forall|i: int| 0 <= i < meta.len() ==> #[trigger] is_metadata_line(meta[i]),
    ensures
        cleaned_prompt(pl.subrange(0, k) + meta + pl.subrange(k, pl.len() as int)) == cleaned_prompt(
            pl,
        ),
        Fingerprint(xxh3_of(cleaned_prompt(pl.subrange(0, k) + meta + pl.subrange(k, pl.len() as int))))
            == Fingerprint(xxh3_of(cleaned_prompt(pl))),
        crate::card_text::prompt_prefix(pl.subrange(0, k) + meta + pl.subrange(k, pl.len() as int))
            == crate::card_text::prompt_prefix(pl),
{
    let q = pl.subrange(0, k) + meta + pl.subrange(k, pl.len() as int);
    assert(q[0] == pl[0]);
    let n = prompt_indent(pl);
    assert(prompt_indent(q) == n);
    lemma_cleaned_append(pl.subrange(0, k) + meta, pl.subrange(k, pl.len() as int), n);
    lemma_cleaned_append(pl.subrange(0, k), meta, n);
    lemma_cleaned_metadata(meta, n);
    lemma_cleaned_append(pl.subrange(0, k), pl.subrange(k, pl.len() as int), n);
    assert(pl.subrange(0, k) + pl.subrange(k, pl.len() as int) =~= pl);
    assert(cleaned_lines(pl.subrange(0, k), n) + Seq::<Seq<char>>::empty() =~= cleaned_lines(
        pl.subrange(0, k),
        n,
    ));
}

/// `s` is empty or ends with a newline.
pub open spec fn line_ended(s: Seq<char>) -> bool {
    s.len() == 0 || s.last() == '\n'
}

pub open spec fn has_no_newline(l: Seq<char>) -> bool {
    forall|i: int| 0 <= i < l.len() ==> l[i] != '\n'
}

proof fn lemma_acc_no_newline(s: Seq<char>)
    requires
        has_no_newline(s),
    ensures
        lines_acc(s) == (Seq::<Seq<char>>::empty(), s),
    decreases s.len(),
{
    if s.len() > 0 {
        assert(has_no_newline(s.drop_last()));
        lemma_acc_no_newline(s.drop_last());
        assert(s.drop_last().push(s.last()) =~= s);
    }
}

proof fn lemma_acc_append(s: Seq<char>, t: Seq<char>)
    requires
        line_ended(s),
    ensures
        lines_acc(s).1 == Seq::<char>::empty(),
        lines_acc(s + t) == (lines_acc(s).0 + lines_acc(t).0, lines_acc(t).1),
    decreases t.len(),
{
    if s.len() > 0 {
        assert(lines_acc(s).1 == Seq::<char>::empty());
    }
    if t.len() == 0 {
        assert(s + t =~= s);
        assert(lines_acc(s).0 + lines_acc(t).0 =~= lines_acc(s).0);
    } else {
        lemma_acc_append(s, t.drop_last());
        assert((s + t).drop_last() =~= s + t.drop_last());
        assert((s + t).last() == t.last());
        let (d, c) = lines_acc(t.drop_last());
        if t.last() == '\n' {
            assert(lines_acc(s).0 + d.push(strip_cr(c)) =~= (lines_acc(s).0 + d).push(strip_cr(c)));
        }
    }
}

proof fn lemma_terminated_ended(ls: Seq<Seq<char>>)
    ensures
        line_ended(terminated(ls)),
{
    if ls.len() > 0 {
        let t = terminated(ls);
        assert(t == terminated(ls.drop_last()) + ls.last() + seq!['\n']);
    }
}

proof fn lemma_acc_terminated(ls: Seq<Seq<char>>)
    requires
        forall|i: int|
            0 <= i < ls.len() ==> has_no_newline(#[trigger] ls[i]) && strip_cr(ls[i]) == ls[i],
    ensures
        lines_acc(terminated(ls)) == (ls, Seq::<char>::empty()),
    decreases ls.len(),
{
    if ls.len() > 0 {
        let a = ls.last();
        let pre = ls.drop_last();
        assert forall|i: int| 0 <= i < pre.len() implies has_no_newline(#[trigger] pre[i])
            && strip_cr(pre[i]) == pre[i] by {
            assert(pre[i] == ls[i]);
        }
        assert(has_no_newline(ls[ls.len() - 1]));
        lemma_acc_terminated(pre);
        lemma_terminated_ended(pre);
        lemma_acc_append(terminated(pre), a);
        lemma_acc_no_newline(a);
        let t = terminated(ls);
        assert(t.drop_last() =~= terminated(pre) + a);
        assert(pre + Seq::<Seq<char>>::empty() =~= pre);
        assert(pre.push(a) =~= ls);
    } else {
        assert(terminated(ls) =~= Seq::<char>::empty());
    }
}

proof fn lemma_acc_lines_have_no_newline(s: Seq<char>)
    ensures
        forall|i: int| 0 <= i < lines_acc(s).0.len() ==> has_no_newline(#[trigger] lines_acc(s).0[i]),
        has_no_newline(lines_acc(s).1),
    decreases s.len(),
{
    if s.len() > 0 {
        lemma_acc_lines_have_no_newline(s.drop_last());
        let (d, c) = lines_acc(s.drop_last());
        if s.last() == '\n' {
            assert(has_no_newline(strip_cr(c)));
            assert forall|i: int| 0 <= i < d.push(strip_cr(c)).len() implies has_no_newline(
                #[trigger] d.push(strip_cr(c))[i],
            ) by {
                if i < d.len() {
                    assert(d.push(strip_cr(c))[i] == d[i]);
                }
            }
        } else {
            assert(has_no_newline(c.push(s.last())));
        }
    }
}

/// No line of a text holds a newline.
pub proof fn lemma_split_lines_have_no_newline(s: Seq<char>)
    ensures
        forall|i: int| 0 <= i < split_lines(s).len() ==> has_no_newline(#[trigger] split_lines(s)[i]),
{
    lemma_acc_lines_have_no_newline(s);
    let (d, c) = lines_acc(s);
    if c.len() > 0 {
        assert forall|i: int| 0 <= i < d.push(c).len() implies has_no_newline(#[trigger] d.push(c)[i]) by {
            if i < d.len() {
                assert(d.push(c)[i] == d[i]);
            }
        }
    }
}

/// Rewriting one card keeps the rest of its page: the new page's lines are
/// the page's lines before the card's prompt, the lines of the new card block,
/// and the page's lines after the card's response, each as it was. (Lines
/// that end in a carriage return are the exception: it would be read as part
/// of the line ending.)
#[verifier::rlimit(50)]
pub proof fn lemma_rewrite_locality(text: Seq<char>, p: LineRange, l: LineRange, block: Seq<char>)
    requires
        p.first <= l.last + 1 <= split_lines(text).len(),
        forall|i: int| 0 <= i < split_lines(text).len() ==> strip_cr(#[trigger] split_lines(text)[i]) == split_lines(text)[i],
        line_ended(block),
    ensures
        split_lines(rebuilt_page(split_lines(text), p, l, block)) == split_lines(text).subrange(
            0,
            p.first as int,
        ) + split_lines(block) + split_lines(text).subrange(l.last + 1, split_lines(text).len() as int),
{
    let lines = split_lines(text);
    lemma_split_lines_have_no_newline(text);
    let before = lines.subrange(0, p.first as int);
    let after = lines.subrange(l.last + 1, lines.len() as int);
    assert forall|i: int| 0 <= i < before.len() implies has_no_newline(#[trigger] before[i])
        && strip_cr(before[i]) == before[i] by {
        assert(before[i] == lines[i]);
    }
    assert forall|i: int| 0 <= i < after.len() implies has_no_newline(#[trigger] after[i])
        && strip_cr(after[i]) == after[i] by {
        assert(after[i] == lines[i + l.last + 1]);
    }
    lemma_acc_terminated(before);
    lemma_acc_terminated(after);
    lemma_terminated_ended(before);
    let tb = terminated(before);
    let ta = terminated(after);
    assert(tb + block + ta =~= tb + (block + ta));
    lemma_acc_append(tb, block + ta);
    lemma_acc_append(block, ta);
    assert(lines_acc(block).1 == Seq::<char>::empty());
    assert(before + (lines_acc(block).0 + after) =~= before + lines_acc(block).0 + after);
}

/// A card block is empty or ends with a newline.
pub proof fn lemma_card_block_ended(prompt: Seq<char>, indent: nat, meta: Seq<Seq<char>>, response: Seq<char>)
    ensures
        line_ended(card_block(prompt, indent, meta, response)),
{
    let a = terminated(indented(split_lines(prompt), indent));
    let b = terminated(indented(meta, indent + 2));
    let c = terminated(indented(split_lines(response), indent));
    lemma_terminated_ended(indented(split_lines(prompt), indent));
    lemma_terminated_ended(indented(meta, indent + 2));
    lemma_terminated_ended(indented(split_lines(response), indent));
    assert(card_block(prompt, indent, meta, response) == a + b + c);
    if c.len() == 0 {
        assert(a + b + c =~= a + b);
        if b.len() == 0 {
            assert(a + b =~= a);
        }
    }
}

proof fn lemma_terminated_first(ls: Seq<Seq<char>>)
    requires
        ls.len() > 0,
        ls[0].len() > 0,
    ensures
        terminated(ls).len() > 0,
        terminated(ls)[0] == ls[0][0],
    decreases ls.len(),
{
    if ls.len() > 1 {
        lemma_terminated_first(ls.drop_last());
    } else {
        assert(terminated(ls.drop_last()) =~= Seq::<char>::empty());
    }
}

/// A page that holds one card and nothing else has, after a rewrite, no
/// newline in front and exactly one at its end (for a card whose first prompt
/// line and last response line are not empty, as a parsed card's are).
#[verifier::rlimit(50)]
pub proof fn lemma_newline_boundary(
    lines: Seq<Seq<char>>,
    p: LineRange,
    l: LineRange,
    prompt: Seq<char>,
    indent: nat,
    meta: Seq<Seq<char>>,
    response: Seq<char>,
)
    requires
        p.first == 0,
        l.last + 1 == lines.len(),
        split_lines(prompt).len() > 0,
        split_lines(prompt)[0].len() > 0,
        split_lines(response).len() > 0,
        split_lines(response).last().len() > 0,
    ensures
        ({
            let t = rebuilt_page(lines, p, l, card_block(prompt, indent, meta, response));
            &&& t.len() >= 2
            &&& t[0] != '\n'
            &&& t.last() == '\n'
            &&& t[t.len() - 2] != '\n'
        }),
{
    let block = card_block(prompt, indent, meta, response);
    assert(lines.subrange(0, 0) =~= Seq::<Seq<char>>::empty());
    assert(lines.subrange(l.last + 1, lines.len() as int) =~= Seq::<Seq<char>>::empty());
    let t = rebuilt_page(lines, p, l, block);
    assert(terminated(Seq::<Seq<char>>::empty()) =~= Seq::<char>::empty());
    assert(t =~= block);
    let ip = indented(split_lines(prompt), indent);
    let ir = indented(split_lines(response), indent);
    let a = terminated(ip);
    let b = terminated(indented(meta, indent + 2));
    let c = terminated(ir);
    assert(block == a + b + c);
    lemma_split_lines_have_no_newline(prompt);
    lemma_split_lines_have_no_newline(response);
    assert(ip[0] == spaces(indent) + split_lines(prompt)[0]);
    lemma_terminated_first(ip);
    if indent > 0 {
        assert(ip[0][0] == ' ');
    } else {
        assert(ip[0][0] == split_lines(prompt)[0][0]);
    }
    let last = ir.last();
    assert(last == spaces(indent) + split_lines(response).last());
    assert(has_no_newline(split_lines(response)[split_lines(response).len() - 1]));
    assert(last.last() != '\n');
    assert(c == terminated(ir.drop_last()) + last + seq!['\n']);
    assert(t[t.len() - 2] == last.last());
}

proof fn lemma_digit_char(d: nat)
    requires
        d < 10,
    ensures
        is_digit(digit_char(d)),
        digit_val(digit_char(d)) == d,
{
    let b: u8 = (d + 48) as u8;
    assert(b as nat == d + 48);
    assert(b as char as nat == b as nat);
}

proof fn lemma_nat_text(n: nat)
    ensures
        nat_text(n).len() > 0,
        all_digits(nat_text(n)),
        digits_val(nat_text(n)) == n,
    decreases n,
{
    if n < 10 {
        lemma_digit_char(n);
        assert(nat_text(n) =~= seq![digit_char(n)]);
        assert(nat_text(n).drop_last() =~= Seq::<char>::empty());
        assert(digits_val(Seq::<char>::empty()) == 0);
        assert(digits_val(nat_text(n)) == digits_val(nat_text(n).drop_last()) * 10 + digit_val(
            nat_text(n).last(),
        ));
        assert(nat_text(n).last() == digit_char(n));
    } else {
        lemma_nat_text(n / 10);
        lemma_digit_char(n % 10);
        let t = nat_text(n);
        assert(t.drop_last() == nat_text(n / 10));
        assert(t.last() == digit_char(n % 10));
        assert(digits_val(t) == digits_val(nat_text(n / 10)) * 10 + digit_val(digit_char(n % 10)));
        assert((n / 10) * 10 + n % 10 == n) by (nonlinear_arith);
        assert forall|i: int| 0 <= i < t.len() implies is_digit(#[trigger] t[i]) by {
            if i < t.len() - 1 {
                assert(t[i] == nat_text(n / 10)[i]);
            }
        }
    }
}

proof fn lemma_find_at(s: Seq<char>, pat: Seq<char>, j: nat, i: nat)
    requires
        find_from(s, pat, j) == Some(i),
    ensures
        j <= i,
        i + pat.len() <= s.len(),
        s.subrange(i as int, i + pat.len() as int) == pat,
    decreases s.len() - j,
{
    if !(j + pat.len() > s.len()) && !(pat.len() == 0 || s.subrange(j as int, j + pat.len() as int)
        == pat) {
        lemma_find_at(s, pat, j + 1, i);
    } else if pat.len() == 0 {
        assert(s.subrange(i as int, i as int) =~= pat);
    }
}

proof fn lemma_find_same_prefix(s1: Seq<char>, s2: Seq<char>, pat: Seq<char>, j: nat, i: nat)
    requires
        find_from(s1, pat, j) == Some(i),
        i + pat.len() <= s2.len(),
        s1.subrange(0, i + pat.len() as int) == s2.subrange(0, i + pat.len() as int),
    ensures
        find_from(s2, pat, j) == Some(i),
    decreases s1.len() - j,
{
    lemma_find_at(s1, pat, j, i);
    assert(s1.subrange(j as int, j + pat.len() as int) == s1.subrange(0, i + pat.len() as int).subrange(
        j as int,
        j + pat.len() as int,
    ));
    assert(s2.subrange(j as int, j + pat.len() as int) == s2.subrange(0, i + pat.len() as int).subrange(
        j as int,
        j + pat.len() as int,
    ));
    if j < i && pat.len() > 0 {
        lemma_find_same_prefix(s1, s2, pat, j + 1, i);
    }
}

/// A serial number embedded in a prompt that holds the card marker is the
/// one read back from it.
#[verifier::rlimit(50)]
pub proof fn lemma_serial_embedded(prompt: Seq<char>, n: u64)
    requires
        contains(prompt, marker()),
    ensures
        serial_of(with_serial(prompt, n)) == Some(n),
{
    reveal_strlit("#card");
    reveal_strlit(" <!-- CSN:");
    reveal_strlit(" -->");
    let i: int = find_from(prompt, marker(), 0)->Some_0 as int;
    lemma_find_at(prompt, marker(), 0, i as nat);
    let after = prompt.subrange(i + 5, prompt.len() as int);
    let skip = match tag_at(after) {
        Some((len, _)) => len,
        None => 0,
    };
    let d = nat_text(n as nat);
    let rest = after.subrange(skip as int, after.len() as int);
    let t = with_serial(prompt, n);
    assert(t == prompt.subrange(0, i) + marker() + tag_open() + d + tag_close() + rest);
    assert(t.subrange(0, i + 5) =~= prompt.subrange(0, i + 5));
    lemma_find_same_prefix(prompt, t, marker(), 0, i as nat);
    let tail = t.subrange(i + 5, t.len() as int);
    assert(tail =~= tag_open() + d + tag_close() + rest);
    assert(tail.subrange(0, 10) =~= tag_open());
    let r1 = tail.subrange(10, tail.len() as int);
    assert(r1 =~= d + tag_close() + rest);
    lemma_nat_text(n as nat);
    assert(r1.subrange(0, d.len() as int) =~= d);
    assert(r1[d.len() as int] == ' ');
    crate::decimal::lemma_leading_digits_pub(r1, d.len() as int);
    let a = r1.subrange(d.len() as int, r1.len() as int);
    assert(a =~= tag_close() + rest);
    assert(a.subrange(0, 4) =~= tag_close());
    assert(crate::num::sign_and_digits_body(d, false) == d);
    assert(d[0] != '-' && d[0] != '+') by {
        assert(is_digit(d[0]));
    }
}

/// Serial numbers are stable under rewrites: a card that has one keeps it,
/// and the prompt a rewrite writes (unchanged, or with the number just
/// allocated) reads back as the serial number the rewrite reports.
pub proof fn lemma_serial_stability(
    w: Rewrite,
    lines: Seq<Seq<char>>,
    p: LineRange,
    l: LineRange,
    m: SRSMeta,
    mode: MetadataMode,
)
    requires
        rewrite_of(w, lines, p, l, m, mode),
        contains(cleaned_prompt(range_lines(lines, p)), marker()),
    ensures
        ({
            let prompt0 = cleaned_prompt(range_lines(lines, p));
            let written = match (serial_of(prompt0), w.serial_num) {
                (None, Some(n)) => with_serial(prompt0, n),
                _ => prompt0,
            };
            &&& (serial_of(prompt0) is Some ==> w.serial_num == serial_of(prompt0) && written == prompt0)
            &&& (w.serial_num is Some ==> serial_of(written) == w.serial_num)
        }),
{
    let prompt0 = cleaned_prompt(range_lines(lines, p));
    if serial_of(prompt0) is None {
        if let Some(n) = w.serial_num {
            lemma_serial_embedded(prompt0, n);
        }
    }
}

proof fn lemma_trim_start_spaces(k: nat, l: Seq<char>)
    requires
        l.len() > 0,
        !is_ws(l[0]),
    ensures
        trim_start(spaces(k) + l) == l,
    decreases k,
{
    if k > 0 {
        assert((spaces(k) + l).drop_first() =~= spaces((k - 1) as nat) + l);
        lemma_trim_start_spaces((k - 1) as nat, l);
    } else {
        assert(spaces(0) + l =~= l);
    }
}

#[verifier::rlimit(50)]
proof fn lemma_snapshot_line(k: nat, j: Seq<char>)
    requires
        j.len() > 0,
        j.last() == '}',
    ensures
        key_value(spaces(k) + ("card-fsrs-metadata:: "@ + j)) == Some(("card-fsrs-metadata"@, j)),
{
    let l = "card-fsrs-metadata:: "@ + j;
    reveal_strlit("card-fsrs-metadata:: ");
    reveal_strlit("card-fsrs-metadata");
    assert(l[0] == 'c');
    lemma_trim_start_spaces(k, l);
    assert(l.last() == '}');
    assert(trim_end(l) == l);
    reveal_with_fuel(find_sep_from, 20);
    assert(find_sep_from(l, 0) == Some(18nat));
    assert(l.subrange(0, 18) =~= "card-fsrs-metadata"@);
    assert(l.subrange(21, l.len() as int) =~= j);
}

proof fn lemma_snapshot_key_is_last_branch()
    ensures
        "card-fsrs-metadata"@ != "card-last-interval"@,
        "card-fsrs-metadata"@ != "card-repeats"@,
        "card-fsrs-metadata"@ != "card-ease-factor"@,
        "card-fsrs-metadata"@ != "card-next-schedule"@,
        "card-fsrs-metadata"@ != "card-last-reviewed"@,
        "card-fsrs-metadata"@ != "card-last-score"@,
{
    reveal_strlit("card-fsrs-metadata");
    reveal_strlit("card-last-interval");
    reveal_strlit("card-repeats");
    reveal_strlit("card-ease-factor");
    reveal_strlit("card-next-schedule");
    reveal_strlit("card-last-reviewed");
    reveal_strlit("card-last-score");
    let key = "card-fsrs-metadata"@;
    assert(key[5] != "card-last-interval"@[5]);
    assert(key[5] != "card-next-schedule"@[5]);
    assert(key[5] != "card-last-reviewed"@[5]);
}

/// Reading back what a rewrite writes: whatever lines come before them, the
/// metadata lines written for `m` read (where they read at all) as the
/// scheduling state that the snapshot line they end with reads as. The
/// snapshot decides; the legacy lines, and their order, do not.
#[verifier::rlimit(50)]
pub proof fn lemma_reread_state_is_written_snapshot(pre: Seq<Seq<char>>, m: SRSMeta, k: nat)
    ensures
        srs_meta_from_lines(pre + indented(meta_lines(m), k)) is Ok ==> fsrs_from_json(
            fsrs_json_text(m.fsrs_meta),
        ) == Some(srs_meta_from_lines(pre + indented(meta_lines(m), k))->Ok_0.fsrs_meta),
{
    let lines = pre + indented(meta_lines(m), k);
    let j = fsrs_json_text(m.fsrs_meta);
    reveal_strlit("\"}");
    assert(j.last() == '}');
    assert(lines.last() == spaces(k) + ("card-fsrs-metadata:: "@ + j));
    lemma_snapshot_line(k, j);
    lemma_snapshot_key_is_last_branch();
    let key = "card-fsrs-metadata"@;
    if crate::codec::read_fields(lines) is Ok {
        let acc = crate::codec::read_fields(lines.drop_last())->Ok_0;
        assert(crate::codec::read_fields(lines.drop_last()) is Ok);
        assert(crate::codec::apply_field(acc, key, j) is Some);
        assert(crate::codec::read_fields(lines)->Ok_0.1 == Some(fsrs_from_json(j)->Some_0));
    }
}

} // verus!
