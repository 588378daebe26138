//! The storage manager: cards listed from a page, one card's body found again,
//! and one card's metadata rewritten without touching the rest of its page.
use std::rc::Rc;
use vstd::prelude::*;
use crate::card_text::{
    card_block, push_terminated, cleaned_lines_of, cleaned_prompt, join_lines_of, prompt_indent, prompt_indent_of,
    prompt_prefix, prompt_prefix_of, response_text, stripped_lines_of,
};
use crate::codec::{meta_lines, meta_lines_of, srs_meta_from_lines, srs_meta_of_fsrs, SRSMeta};
use crate::side_store::SideStore;
use crate::identity::{embed_serial_num, extract_serial_num, serial_of, with_serial, xxh3_of, Fingerprint};
use crate::outline::{find_card_list_items, derefs, markdown_outline, page_cards, parse_outline, OutlineNode, Position};
use crate::text::{chars_of, lines_view, split_lines, split_lines_of, string_of, terminated};

verus! {

/// Identifies a card for lookup: the page it is in, the fingerprint of its
/// cleaned prompt, and its serial number once it has one. The page's path is
/// shared by every card of the page.
pub struct CardRef {
    pub source_path: Rc<String>,
    pub prompt_fingerprint: Fingerprint,
    pub serial_num: Option<u64>,
}

/// A card's text as read from its page: the cleaned prompt, the indentation
/// taken off it, and the response.
pub struct CardBody {
    pub prompt: String,
    pub prompt_indent: usize,
    pub response: String,
}

/// What a listing returns for a card.
pub struct CardMetadata {
    pub card_ref: CardRef,
    pub prompt_prefix: String,
    pub srs_meta: SRSMeta,
}

pub struct Card {
    pub metadata: CardMetadata,
    pub body: CardBody,
}

/// Lines `first..=last` of a page, 0-indexed.
#[derive(Clone, Copy, Debug, PartialEq, Eq, Structural)]
pub struct LineRange {
    pub first: usize,
    pub last: usize,
}

/// Why an operation failed.
#[derive(Debug)]
pub enum StorageError {
    /// The path does not exist.
    NotFound { path: String },
    /// A directory without a `pages` subdirectory.
    InvalidLayout { path: String },
    /// The page did not parse, or its top level is not a list.
    ParseError { detail: String },
    /// The card item on `line` is not a prompt paragraph followed by a response list.
    MalformedCard { line: usize },
    /// A position of the card item on `line` lies outside the page's lines.
    RangeError { line: usize },
    /// The value under `key` of the card item on `line` does not read.
    CodecError { line: usize, key: String },
    /// The serial number allocator failed for this card.
    AllocationError { path: String, fingerprint: Fingerprint, detail: String },
    /// No card of the page has this fingerprint.
    CardNotFound { path: String, fingerprint: Fingerprint },
}

/// Why one card item could not be extracted.
pub enum CardFailure {
    Malformed,
    Range,
    Codec(Seq<char>),
}

/// The line the parser gives for a list item (0 where it gives none).
pub open spec fn item_line(item: OutlineNode) -> usize {
    match item {
        OutlineNode::ListItem { position: Some(p), .. } => p.start_line,
        _ => 0,
    }
}

/// The positions of a card's prompt paragraph and response list, where its
/// children are exactly those two.
pub open spec fn card_positions(item: OutlineNode) -> Option<(Option<Position>, Option<Position>)> {
    match item {
        OutlineNode::ListItem { children, .. } => if children@.len() == 2 {
            match (children@[0], children@[1]) {
                (
                    OutlineNode::Paragraph { position: pp, .. },
                    OutlineNode::List { position: lp, .. },
                ) => Some((pp, lp)),
                _ => None,
            }
        } else {
            None
        },
        _ => None,
    }
}

/// A 1-indexed position as a 0-indexed range, where it lies inside `n` lines.
pub open spec fn line_range(p: Position, n: nat) -> Option<LineRange> {
    if 1 <= p.start_line <= p.end_line <= n {
        Some(LineRange { first: (p.start_line - 1) as usize, last: (p.end_line - 1) as usize })
    } else {
        None
    }
}

/// The line ranges of a card's prompt and response in a page of `n` lines.
/// The response must start on the line after the prompt's last.
pub open spec fn card_ranges(item: OutlineNode, n: nat) -> Result<(LineRange, LineRange), CardFailure> {
    match card_positions(item) {
        Some((Some(pp), Some(lp))) => match (line_range(pp, n), line_range(lp, n)) {
            (Some(a), Some(b)) => if b.first == a.last + 1 {
                Ok((a, b))
            } else {
                Err(CardFailure::Malformed)
            },
            _ => Err(CardFailure::Range),
        },
        _ => Err(CardFailure::Malformed),
    }
}

pub open spec fn range_lines(lines: Seq<Seq<char>>, r: LineRange) -> Seq<Seq<char>> {
    lines.subrange(r.first as int, r.last + 1)
}

/// Whether a card item extracts from the page's lines, and if not, why.
pub open spec fn extraction(lines: Seq<Seq<char>>, item: OutlineNode) -> Result<
    (LineRange, LineRange),
    CardFailure,
> {
    match card_ranges(item, lines.len()) {
        Err(f) => Err(f),
        Ok((p, l)) => match srs_meta_from_lines(range_lines(lines, p)) {
            Err(k) => Err(CardFailure::Codec(k)),
            Ok(_) => Ok((p, l)),
        },
    }
}

/// The error that reports a card failure for the item on `line`.
pub open spec fn reports(e: StorageError, f: CardFailure, line: usize) -> bool {
    match f {
        CardFailure::Malformed => e == StorageError::MalformedCard { line },
        CardFailure::Range => e == StorageError::RangeError { line },
        CardFailure::Codec(k) => e matches StorageError::CodecError { line: l, key } && l == line
            && key@ == k,
    }
}

/// The card that a card item with ranges `p` and `l` gives: the cleaned prompt,
/// fingerprinted and searched for a serial number, the response, the prefix,
/// and the metadata read from the prompt's lines.
pub open spec fn card_from(
    c: Card,
    lines: Seq<Seq<char>>,
    p: LineRange,
    l: LineRange,
    path: Rc<String>,
) -> bool {
    let pl = range_lines(lines, p);
    let rl = range_lines(lines, l);
    &&& c.body.prompt@ == cleaned_prompt(pl)
    &&& c.body.prompt_indent == prompt_indent(pl)
    &&& c.body.response@ == response_text(pl, rl)
    &&& c.metadata.prompt_prefix@ == prompt_prefix(pl)
    &&& c.metadata.card_ref.prompt_fingerprint == Fingerprint(xxh3_of(cleaned_prompt(pl)))
    &&& c.metadata.card_ref.serial_num == serial_of(cleaned_prompt(pl))
    &&& c.metadata.card_ref.source_path == path
    &&& srs_meta_from_lines(pl) == Ok::<SRSMeta, Seq<char>>(c.metadata.srs_meta)
    &&& c.metadata.srs_meta.wf()
}

fn position_range(p: Option<Position>, n: usize) -> (r: Option<LineRange>)
    ensures
        match p {
            Some(pos) => r == line_range(pos, n as nat),
            None => r is None,
        },
{
    match p {
        Some(pos) => {
            if 1 <= pos.start_line && pos.start_line <= pos.end_line && pos.end_line <= n {
                Some(LineRange { first: pos.start_line - 1, last: pos.end_line - 1 })
            } else {
                None
            }
        },
        None => None,
    }
}

fn item_line_of(item: &OutlineNode) -> (r: usize)
    ensures
        r == item_line(*item),
{
    match item {
        OutlineNode::ListItem { position: Some(p), .. } => p.start_line,
        _ => 0,
    }
}

/// The line ranges of a card's prompt and response (see `card_ranges`).
pub fn find_card_ranges(item: &OutlineNode, n: usize) -> (r: Result<(LineRange, LineRange), StorageError>)
    ensures
        match card_ranges(*item, n as nat) {
            Ok(rs) => r == Ok::<(LineRange, LineRange), StorageError>(rs),
            Err(f) => r matches Err(e) && reports(e, f, item_line(*item)),
        },
        r matches Ok((a, b)) ==> a.first <= a.last && b.first == a.last + 1 && b.first <= b.last
            && b.last < n,
{
    let line = item_line_of(item);
    match item {
        OutlineNode::ListItem { children, .. } => {
            if children.len() != 2 {
                return Err(StorageError::MalformedCard { line });
            }
            let pp = match &children[0] {
                OutlineNode::Paragraph { position, .. } => *position,
                _ => return Err(StorageError::MalformedCard { line }),
            };
            let lp = match &children[1] {
                OutlineNode::List { position, .. } => *position,
                _ => return Err(StorageError::MalformedCard { line }),
            };
            if pp.is_none() || lp.is_none() {
                return Err(StorageError::MalformedCard { line });
            }
            match (position_range(pp, n), position_range(lp, n)) {
                (Some(a), Some(b)) => {
                    if b.first == a.last + 1 {
                        Ok((a, b))
                    } else {
                        Err(StorageError::MalformedCard { line })
                    }
                },
                _ => Err(StorageError::RangeError { line }),
            }
        },
        _ => Err(StorageError::MalformedCard { line }),
    }
}

fn lines_in(lines: &Vec<Vec<char>>, r: LineRange) -> (out: Vec<Vec<char>>)
    requires
        r.first <= r.last < lines@.len(),
    ensures
        lines_view(out@) == range_lines(lines_view(lines@), r),
{
    let mut out: Vec<Vec<char>> = Vec::new();
    let n = lines.len();
    let end = r.last + 1;
    let mut i: usize = r.first;
    while i < end
        invariant
            r.first <= i <= end,
            end == r.last + 1 <= n == lines@.len(),
            lines_view(out@) == lines_view(lines@).subrange(r.first as int, i as int),
        decreases end - i,
    {
        let ghost before = lines_view(out@);
        let line = crate::text::slice_of(lines[i].as_slice(), 0, lines[i].len());
        assert(line@ == lines@[i as int]@);
        out.push(line);
        assert(lines_view(out@) =~= before.push(lines@[i as int]@));
        assert(lines_view(lines@).subrange(r.first as int, i + 1) =~= lines_view(lines@).subrange(
            r.first as int,
            i as int,
        ).push(lines@[i as int]@));
        i = i + 1;
    }
    out
}

/// The page parsed, but its top level is not an optional paragraph and a list.
fn shape_error() -> (e: StorageError)
    ensures
        e is ParseError,
{
    let mut d: Vec<char> = Vec::new();
    crate::text::push_lit(&mut d, "expected a list at the top level, after at most one paragraph");
    StorageError::ParseError { detail: string_of(d.as_slice()) }
}

/// Extracts the card that a card item stands for (see `extraction` and
/// `card_from`).
#[verifier::rlimit(50)]
pub fn extract_card(item: &OutlineNode, path: &Rc<String>, lines: &Vec<Vec<char>>) -> (r: Result<
    Card,
    StorageError,
>)
    ensures
        match extraction(lines_view(lines@), *item) {
            Ok((p, l)) => r matches Ok(c) && card_from(c, lines_view(lines@), p, l, *path),
            Err(f) => r matches Err(e) && reports(e, f, item_line(*item)),
        },
{
    let (p, l) = find_card_ranges(item, lines.len())?;
    let pl = lines_in(lines, p);
    let rl = lines_in(lines, l);
    let indent = prompt_indent_of(pl.as_slice());
    let cleaned = cleaned_lines_of(pl.as_slice(), indent);
    let prompt = join_lines_of(cleaned.as_slice());
    let stripped = stripped_lines_of(rl.as_slice(), indent);
    let response = join_lines_of(stripped.as_slice());
    let prefix = prompt_prefix_of(pl.as_slice());
    let srs_meta = match SRSMeta::from_prompt_lines(&pl) {
        Ok(m) => m,
        Err(e) => {
            return Err(StorageError::CodecError { line: item_line_of(item), key: e.key });
        },
    };
    let prompt_text = string_of(prompt.as_slice());
    let fingerprint = Fingerprint::of_text(prompt_text.as_str());
    let serial_num = extract_serial_num(prompt.as_slice());
    Ok(
        Card {
            metadata: CardMetadata {
                card_ref: CardRef {
                    source_path: path.clone(),
                    prompt_fingerprint: fingerprint,
                    serial_num,
                },
                prompt_prefix: string_of(prefix.as_slice()),
                srs_meta,
            },
            body: CardBody { prompt: prompt_text, prompt_indent: indent, response: string_of(response.as_slice()) },
        },
    )
}

/// The fingerprint of a card item that extracts.
pub open spec fn card_fingerprint(lines: Seq<Seq<char>>, item: OutlineNode) -> Fingerprint {
    match extraction(lines, item) {
        Ok((p, _)) => Fingerprint(xxh3_of(cleaned_prompt(range_lines(lines, p)))),
        Err(_) => Fingerprint(0),
    }
}

/// The metadata part of `card_from`.
pub open spec fn metadata_from(
    m: CardMetadata,
    lines: Seq<Seq<char>>,
    p: LineRange,
    path: Rc<String>,
) -> bool {
    let pl = range_lines(lines, p);
    &&& m.prompt_prefix@ == prompt_prefix(pl)
    &&& m.card_ref.prompt_fingerprint == Fingerprint(xxh3_of(cleaned_prompt(pl)))
    &&& m.card_ref.serial_num == serial_of(cleaned_prompt(pl))
    &&& m.card_ref.source_path == path
    &&& srs_meta_from_lines(pl) == Ok::<SRSMeta, Seq<char>>(m.srs_meta)
    &&& m.srs_meta.wf()
}

/// A card item that extracts, with `m` as its metadata.
pub open spec fn extracts_with_meta(
    lines: Seq<Seq<char>>,
    item: OutlineNode,
    m: CardMetadata,
    path: Rc<String>,
) -> bool {
    match extraction(lines, item) {
        Ok((p, _)) => metadata_from(m, lines, p, path),
        Err(_) => false,
    }
}

/// A card item that extracts as `c`.
pub open spec fn extracts_as(lines: Seq<Seq<char>>, item: OutlineNode, c: Card, path: Rc<String>) -> bool {
    match extraction(lines, item) {
        Ok((p, l)) => card_from(c, lines, p, l, path),
        Err(_) => false,
    }
}

/// A card item that does not extract, reported by `e`.
pub open spec fn fails_with(lines: Seq<Seq<char>>, item: OutlineNode, e: StorageError) -> bool {
    match extraction(lines, item) {
        Ok(_) => false,
        Err(f) => reports(e, f, item_line(item)),
    }
}

/// The first card that does not extract is the `i`-th, reported by `e`.
pub open spec fn first_failure(lines: Seq<Seq<char>>, cards: Seq<OutlineNode>, i: int, e: StorageError) -> bool {
    &&& 0 <= i < cards.len()
    &&& forall|j: int| 0 <= j < i ==> (#[trigger] extraction(lines, cards[j])) is Ok
    &&& fails_with(lines, cards[i], e)
}

/// Every card extracts and `v` holds their metadata, in order.
pub open spec fn all_extract(
    lines: Seq<Seq<char>>,
    cards: Seq<OutlineNode>,
    v: Seq<CardMetadata>,
    path: Rc<String>,
) -> bool {
    &&& v.len() == cards.len()
    &&& forall|i: int| 0 <= i < cards.len() ==> #[trigger] extracts_with_meta(lines, cards[i], v[i], path)
}

/// The cards before the `i`-th extract and have other fingerprints.
pub open spec fn passed_over(lines: Seq<Seq<char>>, cards: Seq<OutlineNode>, i: int, fp: Fingerprint) -> bool {
    forall|j: int|
        0 <= j < i ==> (#[trigger] extraction(lines, cards[j])) is Ok && card_fingerprint(lines, cards[j])
            != fp
}

/// The lookup of fingerprint `fp` among a page's card items gives `r`.
pub open spec fn lookup_result(
    lines: Seq<Seq<char>>,
    cards: Seq<OutlineNode>,
    fp: Fingerprint,
    path: Rc<String>,
    r: Result<Card, StorageError>,
) -> bool {
    match r {
        Ok(c) => exists|i: int|
            0 <= i < cards.len() && passed_over(lines, cards, i, fp) && #[trigger] extracts_as(
                lines,
                cards[i],
                c,
                path,
            ) && c.metadata.card_ref.prompt_fingerprint == fp,
        Err(StorageError::CardNotFound { fingerprint: f, .. }) => f == fp && passed_over(
            lines,
            cards,
            cards.len() as int,
            fp,
        ),
        Err(e) => exists|i: int| #[trigger] first_failure(lines, cards, i, e),
    }
}

/// The page's lines as `str::lines` gives them.
pub open spec fn page_lines(text: Seq<char>) -> Seq<Seq<char>> {
    split_lines(text)
}

/// The metadata of every card of a parsed page, in page order; all or nothing.
#[verifier::rlimit(50)]
pub fn extract_card_metadatas_in(path: &Rc<String>, lines: &Vec<Vec<char>>, root: &OutlineNode) -> (r:
    Result<Vec<CardMetadata>, StorageError>)
    ensures
        match page_cards(*root) {
            Err(_) => r matches Err(StorageError::ParseError { .. }),
            Ok(cards) => match r {
                Ok(v) => all_extract(lines_view(lines@), cards, v@, *path),
                Err(e) => exists|i: int| #[trigger] first_failure(lines_view(lines@), cards, i, e),
            },
        },
{
    let items = match find_card_list_items(root) {
        Ok(items) => items,
        Err(_) => {
            return Err(shape_error());
        },
    };
    let ghost cards = derefs(items@);
    let mut out: Vec<CardMetadata> = Vec::new();
    let mut i: usize = 0;
    while i < items.len()
        invariant
            i <= items@.len(),
            cards == derefs(items@),
            page_cards(*root) == Ok::<Seq<OutlineNode>, ()>(cards),
            out@.len() == i,
            forall|k: int|
                0 <= k < i ==> #[trigger] extracts_with_meta(lines_view(lines@), cards[k], out@[k], *path),
        decreases items.len() - i,
    {
        let c = match extract_card(items[i], path, lines) {
            Ok(c) => c,
            Err(e) => {
                assert forall|j: int| 0 <= j < i implies (#[trigger] extraction(
                    lines_view(lines@),
                    cards[j],
                )) is Ok by {
                    assert(extracts_with_meta(lines_view(lines@), cards[j], out@[j], *path));
                }
                assert(fails_with(lines_view(lines@), cards[i as int], e));
                assert(first_failure(lines_view(lines@), cards, i as int, e));
                let r: Result<Vec<CardMetadata>, StorageError> = Err(e);
                assert(first_failure(lines_view(lines@), page_cards(*root)->Ok_0, i as int, e));
                return r;
            },
        };
        let ghost before = out@;
        out.push(c.metadata);
        assert(forall|k: int| 0 <= k < i ==> out@[k] == before[k]);
        i = i + 1;
    }
    Ok(out)
}

/// Lists the cards of a page from its text: the page is parsed by the markdown
/// parser and its cards extracted (see `extract_card_metadatas_in`).
pub fn extract_card_metadatas(path: &Rc<String>, text: &str) -> (r: Result<Vec<CardMetadata>, StorageError>)
    ensures
        markdown_outline(text@) is None ==> r matches Err(StorageError::ParseError { .. }),
        markdown_outline(text@) matches Some(root) ==> match page_cards(root) {
            Err(_) => r matches Err(StorageError::ParseError { .. }),
            Ok(cards) => match r {
                Ok(v) => all_extract(page_lines(text@), cards, v@, *path),
                Err(e) => exists|i: int| #[trigger] first_failure(page_lines(text@), cards, i, e),
            },
        },
{
    let root = match parse_outline(text) {
        Ok(root) => root,
        Err(detail) => return Err(StorageError::ParseError { detail }),
    };
    let chars = chars_of(text);
    let lines = split_lines_of(chars.as_slice());
    assert(lines_view(lines@) == page_lines(text@));
    extract_card_metadatas_in(path, &lines, &root)
}

/// Finds the first card of a parsed page with fingerprint `fingerprint`;
/// cards before it that do not extract stop the search.
#[verifier::rlimit(50)]
pub fn extract_card_in(
    path: &Rc<String>,
    fingerprint: Fingerprint,
    lines: &Vec<Vec<char>>,
    root: &OutlineNode,
) -> (r: Result<Card, StorageError>)
    ensures
        match page_cards(*root) {
            Err(_) => r matches Err(StorageError::ParseError { .. }),
            Ok(cards) => lookup_result(lines_view(lines@), cards, fingerprint, *path, r),
        },
{
    let items = match find_card_list_items(root) {
        Ok(items) => items,
        Err(_) => {
            return Err(shape_error());
        },
    };
    let ghost cards = derefs(items@);
    let mut i: usize = 0;
    while i < items.len()
        invariant
            i <= items@.len(),
            cards == derefs(items@),
            page_cards(*root) == Ok::<Seq<OutlineNode>, ()>(cards),
            passed_over(lines_view(lines@), cards, i as int, fingerprint),
        decreases items.len() - i,
    {
        let c = match extract_card(items[i], path, lines) {
            Ok(c) => c,
            Err(e) => {
                assert(fails_with(lines_view(lines@), cards[i as int], e));
                assert(first_failure(lines_view(lines@), cards, i as int, e));
                assert(!(e is CardNotFound));
                return Err(e);
            },
        };
        if c.metadata.card_ref.prompt_fingerprint == fingerprint {
            assert(extracts_as(lines_view(lines@), cards[i as int], c, *path));
            assert(lookup_result(lines_view(lines@), cards, fingerprint, *path, Ok(c)));
            return Ok(c);
        }
        assert(card_fingerprint(lines_view(lines@), cards[i as int]) != fingerprint);
        i = i + 1;
    }
    let p: &String = path;
    Err(StorageError::CardNotFound { path: p.clone(), fingerprint })
}

/// Reads a card's body again from its page's text, by its fingerprint (see
/// `extract_card_in`).
pub fn extract_card_by_ref(card_ref: &CardRef, text: &str) -> (r: Result<Card, StorageError>)
    ensures
        markdown_outline(text@) is None ==> r matches Err(StorageError::ParseError { .. }),
        markdown_outline(text@) matches Some(root) ==> match page_cards(root) {
            Err(_) => r matches Err(StorageError::ParseError { .. }),
            Ok(cards) => lookup_result(
                page_lines(text@),
                cards,
                card_ref.prompt_fingerprint,
                card_ref.source_path,
                r,
            ),
        },
{
    let root = match parse_outline(text) {
        Ok(root) => root,
        Err(detail) => return Err(StorageError::ParseError { detail }),
    };
    let chars = chars_of(text);
    let lines = split_lines_of(chars.as_slice());
    assert(lines_view(lines@) == page_lines(text@));
    extract_card_in(&card_ref.source_path, card_ref.prompt_fingerprint, &lines, &root)
}

/// Hands out serial numbers for cards that have none.
pub trait CardSerialNumAllocator {
    /// The next serial number; `None` where allocating makes no sense here
    /// (no collection root to keep the counter), which is no failure.
    fn allocate_and_get(&mut self) -> Option<Result<u64, String>>;
}

/// The allocator for a page outside any collection root: it never allocates.
pub struct NoSerialNumAllocation;

impl CardSerialNumAllocator for NoSerialNumAllocation {
    fn allocate_and_get(&mut self) -> Option<Result<u64, String>> {
        None
    }
}

/// Where scheduling metadata is kept.
#[derive(Clone, Copy, Debug, PartialEq, Eq, Structural)]
pub enum MetadataMode {
    /// As `key:: value` lines under each card's prompt.
    Inline,
    /// In the side store at the collection root; pages hold text only.
    SideStore,
}

/// The metadata lines a card's block holds in a mode.
pub open spec fn block_meta(m: SRSMeta, mode: MetadataMode) -> Seq<Seq<char>> {
    match mode {
        MetadataMode::Inline => meta_lines(m),
        MetadataMode::SideStore => seq![],
    }
}

/// The page rebuilt around a new card block: the lines before the prompt and
/// the lines after the response as they were, each ended by one newline.
pub open spec fn rebuilt_page(lines: Seq<Seq<char>>, p: LineRange, l: LineRange, block: Seq<char>) -> Seq<char> {
    terminated(lines.subrange(0, p.first as int)) + block + terminated(
        lines.subrange(l.last + 1, lines.len() as int),
    )
}

/// A page after one card's metadata was rewritten.
pub struct Rewrite {
    /// The whole new text of the page.
    pub text: String,
    /// The card's serial number after the rewrite.
    pub serial_num: Option<u64>,
}

/// What a rewrite of the card with ranges `p`, `l` gives: the card keeps its
/// serial number, or gets the one allocated, embedded in its prompt; its
/// block holds the new metadata (inline mode only); the rest of the page is
/// kept.
pub open spec fn rewrite_of(
    w: Rewrite,
    lines: Seq<Seq<char>>,
    p: LineRange,
    l: LineRange,
    m: SRSMeta,
    mode: MetadataMode,
) -> bool {
    let pl = range_lines(lines, p);
    let rl = range_lines(lines, l);
    let prompt0 = cleaned_prompt(pl);
    let prompt = match (serial_of(prompt0), w.serial_num) {
        (None, Some(n)) => with_serial(prompt0, n),
        _ => prompt0,
    };
    &&& (serial_of(prompt0) is Some ==> w.serial_num == serial_of(prompt0))
    &&& w.text@ == rebuilt_page(
        lines,
        p,
        l,
        card_block(prompt, prompt_indent(pl), block_meta(m, mode), response_text(pl, rl)),
    )
}

/// A card item that extracts and is rewritten as `w`.
pub open spec fn rewritten_as(
    lines: Seq<Seq<char>>,
    item: OutlineNode,
    w: Rewrite,
    m: SRSMeta,
    mode: MetadataMode,
) -> bool {
    match extraction(lines, item) {
        Ok((p, l)) => rewrite_of(w, lines, p, l, m, mode),
        Err(_) => false,
    }
}

/// A card item that extracts and has no serial number yet.
pub open spec fn lacks_serial(lines: Seq<Seq<char>>, item: OutlineNode) -> bool {
    match extraction(lines, item) {
        Ok((p, _)) => serial_of(cleaned_prompt(range_lines(lines, p))) is None,
        Err(_) => false,
    }
}

/// The lookup of fingerprint `fp` followed by a rewrite gives `r`.
pub open spec fn rewrite_result(
    lines: Seq<Seq<char>>,
    cards: Seq<OutlineNode>,
    fp: Fingerprint,
    path: Rc<String>,
    m: SRSMeta,
    mode: MetadataMode,
    r: Result<Rewrite, StorageError>,
) -> bool {
    match r {
        Ok(w) => exists|i: int|
            0 <= i < cards.len() && passed_over(lines, cards, i, fp) && card_fingerprint(lines, cards[i])
                == fp && #[trigger] rewritten_as(lines, cards[i], w, m, mode),
        Err(StorageError::CardNotFound { path: pp, fingerprint: f }) => f == fp && pp@ == path@
            && passed_over(lines, cards, cards.len() as int, fp),
        Err(StorageError::AllocationError { path: pp, fingerprint: f, .. }) => f == fp && pp@
            == path@ && exists|i: int|
            0 <= i < cards.len() && passed_over(lines, cards, i, fp) && card_fingerprint(lines, cards[i])
                == fp && #[trigger] lacks_serial(lines, cards[i]),
        Err(e) => exists|i: int| #[trigger] first_failure(lines, cards, i, e),
    }
}

/// The `i`-th card item is the first with fingerprint `fp`: the ones before it
/// extract with other fingerprints, and it extracts as `c` with ranges `p`, `l`.
pub open spec fn located(
    lines: Seq<Seq<char>>,
    cards: Seq<OutlineNode>,
    fp: Fingerprint,
    path: Rc<String>,
    c: Card,
    p: LineRange,
    l: LineRange,
    i: int,
) -> bool {
    &&& 0 <= i < cards.len()
    &&& passed_over(lines, cards, i, fp)
    &&& extraction(lines, cards[i]) == Ok::<(LineRange, LineRange), CardFailure>((p, l))
    &&& card_from(c, lines, p, l, path)
    &&& c.metadata.card_ref.prompt_fingerprint == fp
    &&& card_fingerprint(lines, cards[i]) == fp
}

/// Finds the first card with fingerprint `fingerprint`, with its line ranges
/// and its place among the page's cards.
#[verifier::rlimit(50)]
fn locate_card(path: &Rc<String>, fingerprint: Fingerprint, lines: &Vec<Vec<char>>, root: &OutlineNode) -> (r: Result<
    (Card, LineRange, LineRange, usize),
    StorageError,
>)
    ensures
        match page_cards(*root) {
            Err(_) => r matches Err(StorageError::ParseError { .. }),
            Ok(cards) => match r {
                Ok((c, p, l, i)) => located(lines_view(lines@), cards, fingerprint, *path, c, p, l, i as int)
                    && p.first <= p.last && l.first == p.last + 1 && l.first <= l.last && l.last < lines@.len(),
                Err(StorageError::CardNotFound { path: pp, fingerprint: f }) => f == fingerprint
                    && pp@ == path@ && passed_over(lines_view(lines@), cards, cards.len() as int, fingerprint),
                Err(e) => !(e is CardNotFound) && !(e is AllocationError) && exists|i: int|
                    #[trigger] first_failure(lines_view(lines@), cards, i, e),
            },
        },
{
    let items = match find_card_list_items(root) {
        Ok(items) => items,
        Err(_) => {
            return Err(shape_error());
        },
    };
    let ghost cards = derefs(items@);
    let mut i: usize = 0;
    while i < items.len()
        invariant
            i <= items@.len(),
            cards == derefs(items@),
            page_cards(*root) == Ok::<Seq<OutlineNode>, ()>(cards),
            passed_over(lines_view(lines@), cards, i as int, fingerprint),
        decreases items.len() - i,
    {
        let c = match extract_card(items[i], path, lines) {
            Ok(c) => c,
            Err(e) => {
                assert(fails_with(lines_view(lines@), cards[i as int], e));
                assert(first_failure(lines_view(lines@), page_cards(*root)->Ok_0, i as int, e));
                return Err(e);
            },
        };
        if c.metadata.card_ref.prompt_fingerprint == fingerprint {
            let (p, l) = match find_card_ranges(items[i], lines.len()) {
                Ok(rs) => rs,
                Err(e) => return Err(e),
            };
            assert(located(lines_view(lines@), page_cards(*root)->Ok_0, fingerprint, *path, c, p, l, i as int));
            return Ok((c, p, l, i));
        }
        assert(card_fingerprint(lines_view(lines@), cards[i as int]) != fingerprint);
        i = i + 1;
    }
    let pt: &String = path;
    Err(StorageError::CardNotFound { path: pt.clone(), fingerprint })
}

fn copy_lines(lines: &Vec<Vec<char>>, from: usize, to: usize) -> (out: Vec<Vec<char>>)
    requires
        from <= to <= lines@.len(),
    ensures
        lines_view(out@) == lines_view(lines@).subrange(from as int, to as int),
{
    let mut out: Vec<Vec<char>> = Vec::new();
    let mut i: usize = from;
    while i < to
        invariant
            from <= i <= to <= lines@.len(),
            lines_view(out@) == lines_view(lines@).subrange(from as int, i as int),
        decreases to - i,
    {
        let ghost before = lines_view(out@);
        let line = crate::text::slice_of(lines[i].as_slice(), 0, lines[i].len());
        assert(line@ =~= lines@[i as int]@);
        out.push(line);
        assert(lines_view(out@) =~= before.push(lines@[i as int]@));
        assert(lines_view(lines@).subrange(from as int, i + 1) =~= lines_view(lines@).subrange(
            from as int,
            i as int,
        ).push(lines@[i as int]@));
        i = i + 1;
    }
    out
}

/// Rewrites one card's metadata in a parsed page (see `rewrite_result`). The
/// allocator is asked for a serial number only when the card has none.
#[verifier::rlimit(50)]
pub fn rewrite_card_in<A: CardSerialNumAllocator>(
    path: &Rc<String>,
    fingerprint: Fingerprint,
    lines: &Vec<Vec<char>>,
    root: &OutlineNode,
    srs_meta: &SRSMeta,
    mode: MetadataMode,
    allocator: &mut A,
) -> (r: Result<Rewrite, StorageError>)
    requires
        srs_meta.wf(),
    ensures
        match page_cards(*root) {
            Err(_) => r matches Err(StorageError::ParseError { .. }),
            Ok(cards) => rewrite_result(lines_view(lines@), cards, fingerprint, *path, *srs_meta, mode, r),
        },
{
    let (card, p, l, idx) = match locate_card(path, fingerprint, lines, root) {
        Ok(x) => x,
        Err(e) => return Err(e),
    };
    let ghost lv = lines_view(lines@);
    let ghost cards = page_cards(*root)->Ok_0;
    // The allocator is asked only for a card without a serial number.
    let allocated = if card.metadata.card_ref.serial_num.is_none() {
        allocator.allocate_and_get()
    } else {
        None
    };
    let r = finish_rewrite(path, fingerprint, lines, &card, p, l, srs_meta, mode, allocated);
    proof {
        if r is Ok {
            assert(rewritten_as(lv, cards[idx as int], r->Ok_0, *srs_meta, mode));
        } else {
            assert(lacks_serial(lv, cards[idx as int]));
        }
    }
    r
}

/// Finishes the rewrite of a card found with ranges `p` and `l`, given what
/// the allocator answered (`None` where it was not asked, or where allocating
/// does not apply). A card that has a serial number keeps it; one that has
/// none gets the number allocated, embedded after its marker, gets none where
/// the allocator gave none, and fails where the allocator failed.
#[verifier::rlimit(50)]
pub fn finish_rewrite(
    path: &Rc<String>,
    fingerprint: Fingerprint,
    lines: &Vec<Vec<char>>,
    card: &Card,
    p: LineRange,
    l: LineRange,
    srs_meta: &SRSMeta,
    mode: MetadataMode,
    allocated: Option<Result<u64, String>>,
) -> (r: Result<Rewrite, StorageError>)
    requires
        srs_meta.wf(),
        p.first <= p.last,
        l.first == p.last + 1,
        l.first <= l.last < lines@.len(),
        card_from(*card, lines_view(lines@), p, l, *path),
    ensures
        card.metadata.card_ref.serial_num is Some ==> (r matches Ok(w) && w.serial_num
            == card.metadata.card_ref.serial_num && rewrite_of(w, lines_view(lines@), p, l, *srs_meta, mode)),
        card.metadata.card_ref.serial_num is None ==> match allocated {
            None => (r matches Ok(w) && w.serial_num is None && rewrite_of(
                w,
                lines_view(lines@),
                p,
                l,
                *srs_meta,
                mode,
            )),
            Some(Ok(n)) => (r matches Ok(w) && w.serial_num == Some(n) && rewrite_of(
                w,
                lines_view(lines@),
                p,
                l,
                *srs_meta,
                mode,
            )),
            Some(Err(d)) => (r matches Err(StorageError::AllocationError { path: pp, fingerprint: f, detail })
                && pp@ == path@ && f == fingerprint && detail == d),
        },
{
    let ghost lv = lines_view(lines@);
    let ghost pl = range_lines(lv, p);
    let mut serial_num = card.metadata.card_ref.serial_num;
    let mut prompt = chars_of(card.body.prompt.as_str());
    if serial_num.is_none() {
        match allocated {
            None => {},
            Some(Err(detail)) => {
                let pt: &String = path;
                return Err(StorageError::AllocationError { path: pt.clone(), fingerprint, detail });
            },
            Some(Ok(n)) => {
                prompt = embed_serial_num(prompt.as_slice(), n);
                serial_num = Some(n);
            },
        }
    }
    let mut out: Vec<char> = Vec::new();
    let before = copy_lines(lines, 0, p.first);
    push_terminated(&mut out, before.as_slice(), 0, 0);
    let prompt_lines = split_lines_of(prompt.as_slice());
    push_terminated(&mut out, prompt_lines.as_slice(), card.body.prompt_indent, 0);
    if mode == MetadataMode::Inline {
        let ml = meta_lines_of(srs_meta);
        push_terminated(&mut out, ml.as_slice(), card.body.prompt_indent, 2);
    } else {
        let empty: Vec<Vec<char>> = Vec::new();
        push_terminated(&mut out, empty.as_slice(), card.body.prompt_indent, 2);
        assert(lines_view(empty@) =~= block_meta(*srs_meta, mode));
    }
    let response = chars_of(card.body.response.as_str());
    let response_lines = split_lines_of(response.as_slice());
    push_terminated(&mut out, response_lines.as_slice(), card.body.prompt_indent, 0);
    let n = lines.len();
    let after = copy_lines(lines, l.last + 1, n);
    push_terminated(&mut out, after.as_slice(), 0, 0);
    let w = Rewrite { text: string_of(out.as_slice()), serial_num };
    proof {
        crate::card_text::lemma_indented_zero(lines_view(before@));
        crate::card_text::lemma_indented_zero(lines_view(after@));
        assert(lines_view(prompt_lines@) == split_lines(prompt@));
        assert(w.text@ =~= rebuilt_page(
            lv,
            p,
            l,
            card_block(prompt@, prompt_indent(pl), block_meta(*srs_meta, mode), response_text(pl, range_lines(lv, l))),
        ));
    }
    Ok(w)
}

/// The metadata a card lists with in side-store mode: where its serial number
/// has a record, that record's state (and the legacy fields derived from it);
/// else what its page gave.
pub open spec fn merged_srs(m: CardMetadata, store: SideStore) -> SRSMeta {
    match m.card_ref.serial_num {
        Some(n) => match store.get_spec(n) {
            Some(f) => srs_meta_of_fsrs(f),
            None => m.srs_meta,
        },
        None => m.srs_meta,
    }
}

/// One card's metadata merged with the side store (see `merged_srs`).
pub fn merge_card(m: CardMetadata, store: &SideStore) -> (r: CardMetadata)
    requires
        store.wf(),
        store.states_wf(),
        m.srs_meta.wf(),
    ensures
        r.card_ref == m.card_ref,
        r.prompt_prefix == m.prompt_prefix,
        r.srs_meta == merged_srs(m, *store),
        r.srs_meta.wf(),
{
    let srs_meta = match m.card_ref.serial_num {
        Some(n) => match store.get(n) {
            Some(f) => SRSMeta::from_fsrs(f),
            None => m.srs_meta,
        },
        None => m.srs_meta,
    };
    CardMetadata { card_ref: m.card_ref, prompt_prefix: m.prompt_prefix, srs_meta }
}

/// A listing merged with the side store, card by card, order kept.
pub fn merge_side_store(metas: Vec<CardMetadata>, store: &SideStore) -> (r: Vec<CardMetadata>)
    requires
        store.wf(),
        store.states_wf(),
        forall|i: int| 0 <= i < metas@.len() ==> (#[trigger] metas@[i]).srs_meta.wf(),
    ensures
        r@.len() == metas@.len(),
        forall|i: int|
            0 <= i < metas@.len() ==> (#[trigger] r@[i]).card_ref == metas@[i].card_ref
                && r@[i].prompt_prefix == metas@[i].prompt_prefix && r@[i].srs_meta == merged_srs(
                metas@[i],
                *store,
            ),
{
    let ghost orig = metas@;
    let mut rest = metas;
    let mut out: Vec<CardMetadata> = Vec::new();
    while rest.len() > 0
        invariant
            store.wf(),
            store.states_wf(),
            out@.len() + rest@.len() == orig.len(),
            rest@ == orig.subrange(out@.len() as int, orig.len() as int),
            forall|i: int| 0 <= i < orig.len() ==> (#[trigger] orig[i]).srs_meta.wf(),
            forall|i: int|
                0 <= i < out@.len() ==> (#[trigger] out@[i]).card_ref == orig[i].card_ref
                    && out@[i].prompt_prefix == orig[i].prompt_prefix && out@[i].srs_meta
                    == merged_srs(orig[i], *store),
        decreases rest@.len(),
    {
        let m = rest.remove(0);
        assert(m == orig[out@.len() as int]);
        let merged = merge_card(m, store);
        out.push(merged);
        assert(rest@ =~= orig.subrange(out@.len() as int, orig.len() as int));
    }
    out
}

/// Lists a page's cards from its text (see `extract_card_metadatas`), merged
/// with the side store where one is given.
#[verifier::rlimit(50)]
pub fn load_card_metadatas(path: &Rc<String>, text: &str, store: Option<&SideStore>) -> (r: Result<
    Vec<CardMetadata>,
    StorageError,
>)
    requires
        store matches Some(s) ==> s.wf() && s.states_wf(),
    ensures
        r matches Ok(v) ==> page_listing(*path, text@, store, v@),
        r matches Err(e) ==> page_failure(text@, e),
        markdown_outline(text@) is None ==> r matches Err(StorageError::ParseError { .. }),
        markdown_outline(text@) matches Some(root) ==> match page_cards(root) {
            Err(_) => r matches Err(StorageError::ParseError { .. }),
            Ok(cards) => match r {
                Ok(v) => v@.len() == cards.len() && forall|i: int|
                    0 <= i < cards.len() ==> #[trigger] listed(page_lines(text@), cards[i], v@[i], *path, store),
                Err(e) => exists|i: int| #[trigger] first_failure(page_lines(text@), cards, i, e),
            },
        },
{
    let metas = extract_card_metadatas(path, text)?;
    match store {
        None => {
            proof {
                if let Some(root) = markdown_outline(text@) {
                    if let Ok(cards) = page_cards(root) {
                        assert forall|i: int| 0 <= i < cards.len() implies #[trigger] listed(
                            page_lines(text@),
                            cards[i],
                            metas@[i],
                            *path,
                            store,
                        ) by {
                            assert(extracts_with_meta(page_lines(text@), cards[i], metas@[i], *path));
                        }
                    }
                }
            }
            Ok(metas)
        },
        Some(s) => {
            let ghost before = metas@;
            proof {
                if let Some(root) = markdown_outline(text@) {
                    if let Ok(cards) = page_cards(root) {
                        assert forall|i: int| 0 <= i < before.len() implies (#[trigger] before[i]).srs_meta.wf() by {
                            assert(extracts_with_meta(page_lines(text@), cards[i], before[i], *path));
                        }
                    }
                }
            }
            let merged = merge_side_store(metas, s);
            proof {
                if let Some(root) = markdown_outline(text@) {
                    if let Ok(cards) = page_cards(root) {
                        assert forall|i: int| 0 <= i < cards.len() implies #[trigger] listed(
                            page_lines(text@),
                            cards[i],
                            merged@[i],
                            *path,
                            store,
                        ) by {
                            assert(extracts_with_meta(page_lines(text@), cards[i], before[i], *path));
                        }
                    }
                }
            }
            Ok(merged)
        },
    }
}

/// A page's text lists as `v`: it parses, its top level is a list, and `v`
/// holds one entry for each of its cards, in order (see `listed`).
pub open spec fn page_listing(
    path: Rc<String>,
    text: Seq<char>,
    store: Option<&SideStore>,
    v: Seq<CardMetadata>,
) -> bool {
    &&& markdown_outline(text) is Some
    &&& page_cards(markdown_outline(text)->Some_0) is Ok
    &&& v.len() == page_cards(markdown_outline(text)->Some_0)->Ok_0.len()
    &&& forall|i: int|
        0 <= i < v.len() ==> #[trigger] listed(
            page_lines(text),
            page_cards(markdown_outline(text)->Some_0)->Ok_0[i],
            v[i],
            path,
            store,
        )
}

/// A page's text does not list, and `e` says why: it does not parse, its top
/// level is not a list, or `e` reports its first card that does not extract.
pub open spec fn page_failure(text: Seq<char>, e: StorageError) -> bool {
    match markdown_outline(text) {
        None => e is ParseError,
        Some(root) => match page_cards(root) {
            Err(_) => e is ParseError,
            Ok(cards) => exists|i: int| #[trigger] first_failure(page_lines(text), cards, i, e),
        },
    }
}

/// How a card lists: extracted from its page, and, with a side store, with
/// the merged metadata.
pub open spec fn listed(
    lines: Seq<Seq<char>>,
    item: OutlineNode,
    m: CardMetadata,
    path: Rc<String>,
    store: Option<&SideStore>,
) -> bool {
    match store {
        None => extracts_with_meta(lines, item, m, path),
        Some(s) => exists|page_meta: CardMetadata|
            #[trigger] extracts_with_meta(lines, item, page_meta, path) && m.card_ref
                == page_meta.card_ref && m.prompt_prefix == page_meta.prompt_prefix && m.srs_meta
                == merged_srs(page_meta, *s),
    }
}

/// Rewrites one card's metadata in a page's text (see `rewrite_card_in`).
pub fn rewrite_card_meta<A: CardSerialNumAllocator>(
    card_ref: &CardRef,
    srs_meta: &SRSMeta,
    text: &str,
    mode: MetadataMode,
    allocator: &mut A,
) -> (r: Result<Rewrite, StorageError>)
    requires
        srs_meta.wf(),
    ensures
        markdown_outline(text@) is None ==> r matches Err(StorageError::ParseError { .. }),
        markdown_outline(text@) matches Some(root) ==> match page_cards(root) {
            Err(_) => r matches Err(StorageError::ParseError { .. }),
            Ok(cards) => rewrite_result(
                page_lines(text@),
                cards,
                card_ref.prompt_fingerprint,
                card_ref.source_path,
                *srs_meta,
                mode,
                r,
            ),
        },
{
    let root = match parse_outline(text) {
        Ok(root) => root,
        Err(detail) => return Err(StorageError::ParseError { detail }),
    };
    let chars = chars_of(text);
    let lines = split_lines_of(chars.as_slice());
    rewrite_card_in(
        &card_ref.source_path,
        card_ref.prompt_fingerprint,
        &lines,
        &root,
        srs_meta,
        mode,
        allocator,
    )
}

/// After a rewrite in side-store mode: the card's state recorded under its
/// serial number, where it has one.
pub fn record_rewrite(store: &mut SideStore, w: &Rewrite, srs_meta: &SRSMeta)
    requires
        old(store).wf(),
        old(store).states_wf(),
        srs_meta.wf(),
    ensures
        final(store).wf(),
        final(store).states_wf(),
        match w.serial_num {
            Some(n) => final(store).get_spec(n) == Some(srs_meta.fsrs_meta) && forall|k: u64|
                k != n ==> final(store).get_spec(k) == old(store).get_spec(k),
            None => forall|k: u64| final(store).get_spec(k) == old(store).get_spec(k),
        },
{
    if let Some(n) = w.serial_num {
        store.insert(n, srs_meta.fsrs_meta);
        assert forall|k: u64| #[trigger] store.get_spec(k) is Some implies store.get_spec(k)->Some_0.wf() by {
            if k != n {
                assert(old(store).get_spec(k) is Some);
            }
        }
    }
}

} // verus!
