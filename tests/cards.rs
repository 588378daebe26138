use std::rc::Rc;

use losrs::codec::ReviewState;
use losrs::identity::Fingerprint;
use losrs::locator::{find_page_files, DirEntry, PathFacts};
use losrs::select::{select_card_metadata_in_pages, CardId};
use losrs::side_store::SideStore;
use losrs::storage::{
    extract_card_by_ref, extract_card_metadatas, load_card_metadatas, record_rewrite,
    rewrite_card_meta, CardMetadata, CardSerialNumAllocator, MetadataMode, NoSerialNumAllocation,
    StorageError,
};

const SPHERE_PAGE: &str =
    "- Not card\n- What is a sphere? #card\n  card-repeats:: 6\n  - A round shape.\n- Not card\n";

struct Counter {
    last: u64,
}

impl CardSerialNumAllocator for Counter {
    fn allocate_and_get(&mut self) -> Option<Result<u64, String>> {
        self.last += 1;
        Some(Ok(self.last))
    }
}

struct Failing;

impl CardSerialNumAllocator for Failing {
    fn allocate_and_get(&mut self) -> Option<Result<u64, String>> {
        Some(Err("counter file is not writable".to_string()))
    }
}

fn path() -> Rc<String> {
    Rc::new("/graph/pages/sphere.md".to_string())
}

fn list(text: &str) -> Vec<CardMetadata> {
    extract_card_metadatas(&path(), text).expect("page lists")
}

#[test]
fn listing_finds_the_one_card() {
    let cards = list(SPHERE_PAGE);
    assert_eq!(cards.len(), 1);
    assert_eq!(cards[0].prompt_prefix, "What is a sphere? #card");
    assert_eq!(cards[0].srs_meta.logseq_srs_meta.repeats, 6);
    assert_eq!(cards[0].card_ref.serial_num, None);
    assert_eq!(*cards[0].card_ref.source_path, "/graph/pages/sphere.md");
}

#[test]
fn rewrite_to_seven_repeats_keeps_other_lines() {
    let cards = list(SPHERE_PAGE);
    let mut meta = cards[0].srs_meta;
    meta.logseq_srs_meta.repeats = 7;
    meta.fsrs_meta.reps = 7;
    let w = rewrite_card_meta(
        &cards[0].card_ref,
        &meta,
        SPHERE_PAGE,
        MetadataMode::Inline,
        &mut NoSerialNumAllocation,
    )
    .expect("rewrite");
    assert_eq!(w.serial_num, None);
    let lines: Vec<&str> = w.text.lines().collect();
    assert_eq!(lines[0], "- Not card");
    assert_eq!(*lines.last().unwrap(), "- Not card");
    let again = list(&w.text);
    assert_eq!(again.len(), 1);
    assert_eq!(again[0].srs_meta.logseq_srs_meta.repeats, 7);
    assert_eq!(again[0].srs_meta.fsrs_meta.reps, 7);
}

#[test]
fn card_without_metadata_is_new_and_gains_block() {
    let page = "- What is a cube? #card\n  - Six square faces.\n";
    let cards = list(page);
    assert_eq!(cards.len(), 1);
    let f = cards[0].srs_meta.fsrs_meta;
    assert_eq!(f.state, ReviewState::New);
    assert_eq!(f.reps, 0);
    assert_eq!(f.due.millis, 0);
    assert_eq!(cards[0].srs_meta.logseq_srs_meta.last_interval.units, 0);
    let w = rewrite_card_meta(
        &cards[0].card_ref,
        &cards[0].srs_meta,
        page,
        MetadataMode::Inline,
        &mut NoSerialNumAllocation,
    )
    .unwrap();
    let expected = "- What is a cube? #card\n  card-last-interval:: 0\n  card-repeats:: 0\n  card-ease-factor:: 2.5\n  card-next-schedule:: 1970-01-01T00:00:00.000Z\n  card-last-reviewed:: 1970-01-01T00:00:00.000Z\n  card-last-score:: 5\n  card-fsrs-metadata:: {\"due\":\"1970-01-01T00:00:00Z\",\"stability\":0.0,\"difficulty\":0.0,\"elapsed_days\":0,\"scheduled_days\":0,\"reps\":0,\"lapses\":0,\"state\":\"New\",\"last_review\":\"1970-01-01T00:00:00Z\"}\n  - Six square faces.\n";
    assert_eq!(w.text, expected);
    let again = list(&w.text);
    assert_eq!(again[0].srs_meta.fsrs_meta, f);
}

fn page_facts(entries: Vec<(&str, bool, Option<&str>)>) -> PathFacts {
    PathFacts {
        exists: true,
        is_dir: true,
        parent_name: None,
        grandparent: None,
        pages_dir_exists: true,
        pages_entries: entries
            .into_iter()
            .map(|(p, f, e)| DirEntry {
                path: p.to_string(),
                is_file: f,
                extension: e.map(|e| e.to_string()),
            })
            .collect(),
    }
}

#[test]
fn directory_lists_cards_of_both_pages_in_discovery_order() {
    let facts = page_facts(vec![
        ("/graph/pages/b.md", true, Some("md")),
        ("/graph/pages/notes.txt", true, Some("txt")),
        ("/graph/pages/a.md", true, Some("md")),
    ]);
    let files = find_page_files("/graph", &facts).unwrap();
    assert_eq!(files, vec!["/graph/pages/b.md".to_string(), "/graph/pages/a.md".to_string()]);
    let texts = [
        "- What is the volume of a sphere? #card\n  - 4/3 pi r^3\n",
        "- Not card\n- What is a sphere? #card\n  - A round shape.\n",
    ];
    let mut all = Vec::new();
    for (f, t) in files.iter().zip(texts.iter()) {
        all.extend(extract_card_metadatas(&Rc::new(f.clone()), t).unwrap());
    }
    assert_eq!(all.len(), 2);
    assert_eq!(all[0].prompt_prefix, "What is the volume of a sphere? #card");
    assert_eq!(*all[0].card_ref.source_path, "/graph/pages/b.md");
    assert_eq!(all[1].prompt_prefix, "What is a sphere? #card");
    assert_eq!(*all[1].card_ref.source_path, "/graph/pages/a.md");
}

const REVIEW_PAGE: &str = "- What is a sphere? #card\n  card-last-interval:: 244.14\n  card-repeats:: 6\n  card-ease-factor:: 3.1\n  card-next-schedule:: 2025-11-21T00:00:00.000Z\n  card-last-reviewed:: 2025-03-22T09:54:57.202Z\n  card-last-score:: 5\n  - Set of points in a 3 dimensional space that are equidistant from a center point.\n- Not card";

fn newline_counts_after_write_back() -> (usize, usize) {
    let cards = list(REVIEW_PAGE);
    let w = rewrite_card_meta(
        &cards[0].card_ref,
        &cards[0].srs_meta,
        REVIEW_PAGE,
        MetadataMode::Inline,
        &mut Counter { last: 999 },
    )
    .unwrap();
    let leading = w.text.chars().take_while(|&c| c == '\n').count();
    let trailing = w.text.chars().rev().take_while(|&c| c == '\n').count();
    (leading, trailing)
}

#[test]
fn cli_newline_writeback_on_review() {
    let (leading, trailing) = newline_counts_after_write_back();
    assert_eq!(leading, 0, "expect 0 leading newlines when file is just one card");
    assert_eq!(trailing, 1, "expect 1 trailing newline when file is just one card");
}

#[test]
fn review_newline_writeback_on_review() {
    let (leading, trailing) = newline_counts_after_write_back();
    assert_eq!(leading, 0, "expect 0 leading newlines when file is just one card");
    assert_eq!(trailing, 1, "expect 1 trailing newline when file is just one card");
}

#[test]
fn single_card_file_has_no_leading_and_one_trailing_newline() {
    let page = "- Q? #card\n  - A.";
    let cards = list(page);
    let w = rewrite_card_meta(
        &cards[0].card_ref,
        &cards[0].srs_meta,
        page,
        MetadataMode::SideStore,
        &mut NoSerialNumAllocation,
    )
    .unwrap();
    assert_eq!(w.text, "- Q? #card\n  - A.\n");
}

#[test]
fn serial_is_allocated_once_and_kept() {
    let mut counter = Counter { last: 41 };
    let cards = list(SPHERE_PAGE);
    let w = rewrite_card_meta(
        &cards[0].card_ref,
        &cards[0].srs_meta,
        SPHERE_PAGE,
        MetadataMode::Inline,
        &mut counter,
    )
    .unwrap();
    assert_eq!(w.serial_num, Some(42));
    assert!(w.text.contains("- What is a sphere? #card <!-- CSN:42 -->\n"));
    let again = list(&w.text);
    assert_eq!(again[0].card_ref.serial_num, Some(42));
    let w2 = rewrite_card_meta(
        &again[0].card_ref,
        &again[0].srs_meta,
        &w.text,
        MetadataMode::Inline,
        &mut counter,
    )
    .unwrap();
    assert_eq!(w2.serial_num, Some(42));
    assert_eq!(counter.last, 42);
    assert_eq!(list(&w2.text)[0].card_ref.serial_num, Some(42));
}

#[test]
fn failing_allocator_is_reported() {
    let cards = list(SPHERE_PAGE);
    let r = rewrite_card_meta(
        &cards[0].card_ref,
        &cards[0].srs_meta,
        SPHERE_PAGE,
        MetadataMode::Inline,
        &mut Failing,
    );
    match r {
        Err(StorageError::AllocationError { path, fingerprint, detail }) => {
            assert_eq!(fingerprint, cards[0].card_ref.prompt_fingerprint);
            assert_eq!(path, "/graph/pages/sphere.md");
            assert_eq!(detail, "counter file is not writable");
        }
        _ => panic!("expected an allocation error"),
    }
}

#[test]
fn unknown_fingerprint_is_card_not_found() {
    let cards = list(SPHERE_PAGE);
    let mut card_ref = losrs::storage::CardRef {
        source_path: path(),
        prompt_fingerprint: Fingerprint(1),
        serial_num: None,
    };
    let r = rewrite_card_meta(
        &card_ref,
        &cards[0].srs_meta,
        SPHERE_PAGE,
        MetadataMode::Inline,
        &mut NoSerialNumAllocation,
    );
    match r {
        Err(StorageError::CardNotFound { path, fingerprint }) => {
            assert_eq!(path, "/graph/pages/sphere.md");
            assert_eq!(fingerprint, Fingerprint(1));
        }
        _ => panic!("expected card not found"),
    }
    assert!(matches!(extract_card_by_ref(&card_ref, SPHERE_PAGE), Err(StorageError::CardNotFound { .. })));
    card_ref.prompt_fingerprint = cards[0].card_ref.prompt_fingerprint;
    let card = extract_card_by_ref(&card_ref, SPHERE_PAGE).unwrap();
    assert_eq!(card.body.prompt, "- What is a sphere? #card");
    assert_eq!(card.body.response, "  - A round shape.");
    assert_eq!(card.body.prompt_indent, 0);
}

#[test]
fn fingerprint_is_xxh3_of_cleaned_prompt() {
    let page = "- Not card\n- What is a sphere? #card\n  card-last-interval:: 244.14\n  card-repeats:: 6\n  - Set of points.\n- Not card\n";
    let cards = list(page);
    assert_eq!(cards[0].card_ref.prompt_fingerprint, Fingerprint(0xb9de554a02212aca));
    let reordered = "- Not card\n- What is a sphere? #card\n  card-repeats:: 7\n  card-ease-factor:: 1.5\n  - Other response.\n";
    assert_eq!(list(reordered)[0].card_ref.prompt_fingerprint, Fingerprint(0xb9de554a02212aca));
    let text: String = cards[0].card_ref.prompt_fingerprint.to_text().into_iter().collect();
    assert_eq!(text, "0xb9de554a02212aca");
}

#[test]
fn nested_card_is_found_and_indent_stripped() {
    let page = "- Not card\n- induction\n  - Generated principles\n    - What kind of function? #card\n      card-last-score:: 5\n      card-repeats:: 6\n      - Fixpoint\n- Not card\n";
    let cards = list(page);
    assert_eq!(cards.len(), 1);
    assert_eq!(cards[0].prompt_prefix, "What kind of function? #card");
    let card = extract_card_by_ref(&cards[0].card_ref, page).unwrap();
    assert_eq!(card.body.prompt_indent, 4);
    assert_eq!(card.body.prompt, "- What kind of function? #card");
    assert_eq!(card.body.response, "  - Fixpoint");
}

#[test]
fn malformed_card_aborts_the_file() {
    let page = "- Q? #card\n- Other\n";
    match extract_card_metadatas(&path(), page) {
        Err(StorageError::MalformedCard { line }) => assert_eq!(line, 1),
        _ => panic!("expected a malformed card"),
    }
}

#[test]
fn bad_metadata_value_is_a_codec_error() {
    let page = "- Q? #card\n  card-repeats:: many\n  - A.\n";
    match extract_card_metadatas(&path(), page) {
        Err(StorageError::CodecError { line, key }) => {
            assert_eq!(line, 1);
            assert_eq!(key, "card-repeats");
        }
        _ => panic!("expected a codec error"),
    }
}

#[test]
fn page_that_is_not_a_list_is_a_parse_error() {
    assert!(matches!(
        extract_card_metadatas(&path(), "# Title\n\ntext\n\n- item\n"),
        Err(StorageError::ParseError { .. })
    ));
    assert_eq!(list("just a paragraph\n").len(), 0);
    assert_eq!(list("").len(), 0);
}

#[test]
fn side_store_record_wins_when_listing() {
    let page = "- Q? #card <!-- CSN:3 -->\n  - A.\n";
    let plain = list(page);
    assert_eq!(plain[0].card_ref.serial_num, Some(3));
    assert_eq!(plain[0].srs_meta.fsrs_meta.state, ReviewState::New);
    let mut stored = plain[0].srs_meta;
    stored.fsrs_meta.reps = 4;
    stored.fsrs_meta.state = ReviewState::Review;
    let w = rewrite_card_meta(
        &plain[0].card_ref,
        &stored,
        page,
        MetadataMode::SideStore,
        &mut NoSerialNumAllocation,
    )
    .unwrap();
    assert_eq!(w.text, page);
    let mut store = SideStore::new();
    record_rewrite(&mut store, &w, &stored);
    let merged = load_card_metadatas(&path(), &w.text, Some(&store)).unwrap();
    assert_eq!(merged[0].srs_meta.fsrs_meta.reps, 4);
    assert_eq!(merged[0].srs_meta.fsrs_meta.state, ReviewState::Review);
    assert_eq!(merged[0].srs_meta.logseq_srs_meta.repeats, 4);
    let other = list("- R? #card <!-- CSN:9 -->\n  - B.\n");
    let unmerged = losrs::storage::merge_side_store(other, &store);
    assert_eq!(unmerged[0].srs_meta.fsrs_meta.state, ReviewState::New);
}

#[test]
fn response_apart_from_prompt_is_malformed() {
    let page = "- Q? #card\n\n  - A.\n";
    match extract_card_metadatas(&path(), page) {
        Err(StorageError::MalformedCard { line }) => assert_eq!(line, 1),
        _ => panic!("expected a malformed card"),
    }
}

#[test]
fn pages_are_listed_in_discovery_order_all_or_nothing() {
    let pages = vec![
        (Rc::new("/g/pages/b.md".to_string()), "- What is the volume of a sphere? #card\n  - 4/3 pi r^3\n".to_string()),
        (Rc::new("/g/pages/a.md".to_string()), "- Not card\n- What is a sphere? #card <!-- CSN:3 -->\n  - A round shape.\n".to_string()),
    ];
    let all = select_card_metadata_in_pages(&pages, None, None).unwrap();
    assert_eq!(all.len(), 2);
    assert_eq!(all[0].prompt_prefix, "What is the volume of a sphere? #card");
    assert_eq!(*all[1].card_ref.source_path, "/g/pages/a.md");
    let one = select_card_metadata_in_pages(&pages, None, Some(CardId::SerialNum(3))).unwrap();
    assert_eq!(one.len(), 1);
    assert_eq!(*one[0].card_ref.source_path, "/g/pages/a.md");
    let mut broken = pages.clone();
    broken.push((Rc::new("/g/pages/c.md".to_string()), "- Q? #card\n- Other\n".to_string()));
    match select_card_metadata_in_pages(&broken, None, None) {
        Err((k, StorageError::MalformedCard { line })) => {
            assert_eq!(k, 2);
            assert_eq!(line, 1);
        }
        _ => panic!("expected the third page to fail"),
    }
}
