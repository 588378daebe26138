//! Picking cards by fingerprint or serial number.
use vstd::prelude::*;
use crate::identity::{hex_digits_val, Fingerprint};
use crate::num::{parse_u64, parse_u64_spec};
use std::rc::Rc;
use crate::side_store::SideStore;
use crate::storage::{load_card_metadatas, page_failure, page_listing, CardMetadata, StorageError};

verus! {

/// A card named by the fingerprint of its prompt or by its serial number.
#[derive(Clone, Copy, Debug, PartialEq, Eq, Structural)]
pub enum CardId {
    Fingerprint(Fingerprint),
    SerialNum(u64),
}

/// `s` without every `0x` it starts with.
pub open spec fn strip_hex_prefixes(s: Seq<char>) -> Seq<char>
    decreases s.len(),
{
    if s.len() >= 2 && s[0] == '0' && s[1] == 'x' {
        strip_hex_prefixes(s.subrange(2, s.len() as int))
    } else {
        s
    }
}

/// A `u64` in hex, as `u64::from_str_radix(_, 16)` reads it: an optional `+`
/// and at least one hex digit of either case.
pub open spec fn hex_u64(s: Seq<char>) -> Option<u64> {
    let body = if s.len() > 0 && s[0] == '+' { s.drop_first() } else { s };
    if body.len() == 0 {
        None
    } else {
        match hex_digits_val(body) {
            Some(v) => if v <= u64::MAX { Some(v as u64) } else { None },
            None => None,
        }
    }
}

pub open spec fn parse_hex_spec(s: Seq<char>) -> Option<Fingerprint> {
    match hex_u64(strip_hex_prefixes(s)) {
        Some(v) => Some(Fingerprint(v)),
        None => None,
    }
}

/// A fingerprint where the text starts with `0x`, else a serial number.
pub open spec fn card_id_spec(s: Seq<char>) -> Option<CardId> {
    if s.len() >= 2 && s[0] == '0' && s[1] == 'x' {
        match parse_hex_spec(s) {
            Some(f) => Some(CardId::Fingerprint(f)),
            None => None,
        }
    } else {
        match parse_u64_spec(s) {
            Some(n) => Some(CardId::SerialNum(n)),
            None => None,
        }
    }
}

fn hex_val_of(c: char) -> (r: Option<u64>)
    ensures
        match crate::identity::hex_val(c) {
            Some(v) => r == Some(v as u64) && v < 16,
            None => r is None,
        },
{
    if '0' <= c && c <= '9' {
        Some((c as u32 - '0' as u32) as u64)
    } else if 'a' <= c && c <= 'f' {
        Some((c as u32 - 'a' as u32 + 10) as u64)
    } else if 'A' <= c && c <= 'F' {
        Some((c as u32 - 'A' as u32 + 10) as u64)
    } else {
        None
    }
}


proof fn lemma_hex_prefix_bound(s: Seq<char>, i: int)
    requires
        0 <= i <= s.len(),
        hex_digits_val(s) is Some,
    ensures
        hex_digits_val(s.subrange(0, i)) is Some,
        hex_digits_val(s.subrange(0, i))->Some_0 <= hex_digits_val(s)->Some_0,
    decreases s.len() - i,
{
    if i < s.len() {
        lemma_hex_prefix_bound(s, i + 1);
        assert(s.subrange(0, i + 1).drop_last() == s.subrange(0, i));
    } else {
        assert(s.subrange(0, i) == s);
    }
}

/// Reads a fingerprint in hex (see `parse_hex_spec`).
pub fn parse_hex(src: &[char]) -> (r: Option<Fingerprint>)
    ensures
        r == parse_hex_spec(src@),
{
    let mut start: usize = 0;
    assert(src@.subrange(0, src@.len() as int) == src@);
    while src.len() - start >= 2 && src[start] == '0' && src[start + 1] == 'x'
        invariant
            start <= src@.len(),
            strip_hex_prefixes(src@) == strip_hex_prefixes(src@.subrange(start as int, src@.len() as int)),
        decreases src.len() - start,
    {
        assert(src@.subrange(start as int, src@.len() as int).subrange(2, src@.len() - start)
            == src@.subrange(start + 2, src@.len() as int));
        start = start + 2;
    }
    let ghost s = src@.subrange(start as int, src@.len() as int);
    if start < src.len() && src[start] == '+' {
        start = start + 1;
    }
    let ghost body = if s.len() > 0 && s[0] == '+' { s.drop_first() } else { s };
    assert(body == src@.subrange(start as int, src@.len() as int));
    if start >= src.len() {
        return None;
    }
    let mut acc: u64 = 0;
    let mut i: usize = start;
    while i < src.len()
        invariant
            start <= i <= src@.len(),
            s == strip_hex_prefixes(src@),
            body == (if s.len() > 0 && s[0] == '+' { s.drop_first() } else { s }),
            body.len() > 0,
            body == src@.subrange(start as int, src@.len() as int),
            hex_digits_val(body.subrange(0, i - start)) == Some(acc as nat),
        decreases src.len() - i,
    {
        let ghost k = (i - start) as int;
        assert(body.subrange(0, k + 1).drop_last() == body.subrange(0, k));
        assert(body.subrange(0, k + 1).last() == src@[i as int]);
        let d = match hex_val_of(src[i]) {
            Some(d) => d,
            None => {
                proof {
                    if hex_digits_val(body) is Some {
                        lemma_hex_prefix_bound(body, k + 1);
                    }
                }
                return None;
            },
        };
        if acc > (u64::MAX - d) / 16 {
            assert(acc * 16 + d > u64::MAX) by (nonlinear_arith)
                requires acc > (u64::MAX - d) / 16, d < 16;
            proof {
                if hex_digits_val(body) is Some {
                    lemma_hex_prefix_bound(body, k + 1);
                }
            }
            return None;
        }
        acc = acc * 16 + d;
        i = i + 1;
    }
    assert(body.subrange(0, src@.len() - start) == body);
    Some(Fingerprint(acc))
}

/// Reads a card id (see `card_id_spec`).
pub fn parse_fingerprint_or_id(src: &[char]) -> (r: Option<CardId>)
    ensures
        r == card_id_spec(src@),
{
    if src.len() >= 2 && src[0] == '0' && src[1] == 'x' {
        match parse_hex(src) {
            Some(f) => Some(CardId::Fingerprint(f)),
            None => None,
        }
    } else {
        match parse_u64(src) {
            Some(n) => Some(CardId::SerialNum(n)),
            None => None,
        }
    }
}

/// Whether a card is the one `id` names.
pub open spec fn names(id: CardId, m: CardMetadata) -> bool {
    match id {
        CardId::Fingerprint(f) => m.card_ref.prompt_fingerprint == f,
        CardId::SerialNum(n) => m.card_ref.serial_num == Some(n),
    }
}

/// The cards that `id` names, in order; all of them where there is no id.
pub open spec fn selected(ms: Seq<CardMetadata>, id: Option<CardId>) -> Seq<CardMetadata>
    decreases ms.len(),
{
    if ms.len() == 0 {
        seq![]
    } else {
        let rest = selected(ms.drop_last(), id);
        match id {
            Some(i) => if names(i, ms.last()) {
                rest.push(ms.last())
            } else {
                rest
            },
            None => rest.push(ms.last()),
        }
    }
}

pub fn names_card(id: CardId, m: &CardMetadata) -> (r: bool)
    ensures
        r == names(id, *m),
{
    match id {
        CardId::Fingerprint(f) => m.card_ref.prompt_fingerprint == f,
        CardId::SerialNum(n) => match m.card_ref.serial_num {
            Some(s) => s == n,
            None => false,
        },
    }
}

/// Keeps the cards that `id` names (see `selected`).
pub fn select_card_metadata(metas: Vec<CardMetadata>, id: Option<CardId>) -> (r: Vec<CardMetadata>)
    ensures
        r@ == selected(metas@, id),
{
    let ghost orig = metas@;
    let mut rest = metas;
    let mut out: Vec<CardMetadata> = Vec::new();
    let mut taken: usize = 0;
    assert(orig.len() == rest.len());
    while rest.len() > 0
        invariant
            orig.len() <= usize::MAX,
            taken + rest@.len() == orig.len(),
            rest@ == orig.subrange(taken as int, orig.len() as int),
            out@ == selected(orig.subrange(0, taken as int), id),
        decreases rest@.len(),
    {
        let m = rest.remove(0);
        assert(m == orig[taken as int]);
        assert(orig.subrange(0, taken + 1).drop_last() == orig.subrange(0, taken as int));
        let keep = match id {
            Some(i) => names_card(i, &m),
            None => true,
        };
        if keep {
            out.push(m);
        }
        taken = taken + 1;
        assert(rest@ =~= orig.subrange(taken as int, orig.len() as int));
    }
    assert(orig.subrange(0, orig.len() as int) == orig);
    out
}

/// Whether a card is due by `up_to` (milliseconds since the epoch): its next
/// schedule is not after it.
pub open spec fn due_by(m: CardMetadata, up_to: i64) -> bool {
    m.srs_meta.logseq_srs_meta.next_schedule.millis <= up_to
}

/// The cards due by `up_to`, in order.
pub open spec fn due_cards(ms: Seq<CardMetadata>, up_to: i64) -> Seq<CardMetadata>
    decreases ms.len(),
{
    if ms.len() == 0 {
        seq![]
    } else if due_by(ms.last(), up_to) {
        due_cards(ms.drop_last(), up_to).push(ms.last())
    } else {
        due_cards(ms.drop_last(), up_to)
    }
}

/// Keeps the cards due by `up_to` (see `due_cards`).
pub fn retain_due(metas: Vec<CardMetadata>, up_to: i64) -> (r: Vec<CardMetadata>)
    ensures
        r@ == due_cards(metas@, up_to),
{
    let ghost orig = metas@;
    let mut rest = metas;
    let mut out: Vec<CardMetadata> = Vec::new();
    let mut taken: usize = 0;
    assert(orig.len() == rest.len());
    while rest.len() > 0
        invariant
            orig.len() <= usize::MAX,
            taken + rest@.len() == orig.len(),
            rest@ == orig.subrange(taken as int, orig.len() as int),
            out@ == due_cards(orig.subrange(0, taken as int), up_to),
        decreases rest@.len(),
    {
        let m = rest.remove(0);
        assert(m == orig[taken as int]);
        assert(orig.subrange(0, taken + 1).drop_last() == orig.subrange(0, taken as int));
        if m.srs_meta.logseq_srs_meta.next_schedule.millis <= up_to {
            out.push(m);
        }
        taken = taken + 1;
        assert(rest@ =~= orig.subrange(taken as int, orig.len() as int));
    }
    assert(orig.subrange(0, orig.len() as int) == orig);
    out
}

/// Whether a card may be reviewed at `at` (milliseconds since the epoch): not
/// before its last review.
pub fn can_review_at(m: &CardMetadata, at: i64) -> (r: bool)
    ensures
        r == (at >= m.srs_meta.fsrs_meta.last_review.millis),
{
    at >= m.srs_meta.fsrs_meta.last_review.millis
}

/// The selected cards of each listing, one listing after the other.
pub open spec fn all_selected(ls: Seq<Seq<CardMetadata>>, id: Option<CardId>) -> Seq<CardMetadata>
    decreases ls.len(),
{
    if ls.len() == 0 {
        seq![]
    } else {
        all_selected(ls.drop_last(), id) + selected(ls.last(), id)
    }
}

/// The first `ls.len()` pages list as `ls`, page by page.
pub open spec fn pages_listed(
    pages: Seq<(Rc<String>, String)>,
    store: Option<&SideStore>,
    ls: Seq<Seq<CardMetadata>>,
) -> bool {
    &&& ls.len() <= pages.len()
    &&& forall|j: int|
        0 <= j < ls.len() ==> #[trigger] page_listing(pages[j].0, pages[j].1@, store, ls[j])
}

/// The cards that `id` names among pages given by path and text in
/// discovery order, merged with the side store where one is given. All or
/// nothing: every page lists and the result is their selected cards, page
/// after page; or the first page that does not list gives its place and the
/// error.
#[verifier::rlimit(50)]
pub fn select_card_metadata_in_pages(
    pages: &Vec<(Rc<String>, String)>,
    store: Option<&SideStore>,
    id: Option<CardId>,
) -> (r: Result<Vec<CardMetadata>, (usize, StorageError)>)
    requires
        store matches Some(s) ==> s.wf() && s.states_wf(),
    ensures
        match r {
            Ok(v) => exists|ls: Seq<Seq<CardMetadata>>|
                #[trigger] pages_listed(pages@, store, ls) && ls.len() == pages@.len() && v@
                    == all_selected(ls, id),
            Err((k, e)) => exists|ls: Seq<Seq<CardMetadata>>|
                #[trigger] pages_listed(pages@, store, ls) && ls.len() == k && k < pages@.len()
                    && page_failure(pages@[k as int].1@, e),
        },
{
    let mut out: Vec<CardMetadata> = Vec::new();
    let ghost mut ls: Seq<Seq<CardMetadata>> = seq![];
    let mut j: usize = 0;
    while j < pages.len()
        invariant
            j <= pages@.len(),
            ls.len() == j,
            store matches Some(s) ==> s.wf() && s.states_wf(),
            pages_listed(pages@, store, ls),
            out@ == all_selected(ls, id),
        decreases pages.len() - j,
    {
        match load_card_metadatas(&pages[j].0, pages[j].1.as_str(), store) {
            Err(e) => {
                assert(pages_listed(pages@, store, ls));
                return Err((j, e));
            },
            Ok(metas) => {
                let ghost m = metas@;
                let mut sel = select_card_metadata(metas, id);
                out.append(&mut sel);
                let ghost old_ls = ls;
                proof {
                    ls = ls.push(m);
                    assert(ls.drop_last() == old_ls);
                    assert forall|k: int| 0 <= k < ls.len() implies #[trigger] page_listing(
                        pages@[k].0,
                        pages@[k].1@,
                        store,
                        ls[k],
                    ) by {
                        if k < old_ls.len() {
                            assert(ls[k] == old_ls[k]);
                        }
                    }
                }
            },
        }
        j = j + 1;
    }
    assert(pages_listed(pages@, store, ls));
    Ok(out)
}

} // verus!
