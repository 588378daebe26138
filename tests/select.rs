use std::rc::Rc;

use losrs::identity::Fingerprint;
use losrs::select::{can_review_at, retain_due, select_card_metadata, CardId};
use losrs::storage::{extract_card_metadatas, CardMetadata};

const PAGE: &str = "- Not card\n- What is a sphere? #card <!-- CSN:8 -->\n  card-last-interval:: 244.14\n  card-repeats:: 6\n  card-next-schedule:: 2025-11-21T00:00:00.000Z\n  card-last-reviewed:: 2025-03-22T09:54:57.202Z\n  - A round shape.\n- What is the volume of a sphere? #card\n  card-last-interval:: 244.14\n  card-next-schedule:: 2025-11-27T00:00:00.000Z\n  card-last-reviewed:: 2025-03-28T07:46:41.223Z\n  - 4/3 pi r^3\n- Not card\n";

fn cards() -> Vec<CardMetadata> {
    extract_card_metadatas(&Rc::new("/g/pages/s.md".to_string()), PAGE).unwrap()
}

#[test]
fn selecting_by_serial_or_fingerprint_keeps_only_that_card() {
    assert_eq!(select_card_metadata(cards(), None).len(), 2);
    let by_serial = select_card_metadata(cards(), Some(CardId::SerialNum(8)));
    assert_eq!(by_serial.len(), 1);
    assert_eq!(by_serial[0].prompt_prefix, "What is a sphere? #card <!-- CSN:8 -->");
    let fp = cards()[1].card_ref.prompt_fingerprint;
    let by_fp = select_card_metadata(cards(), Some(CardId::Fingerprint(fp)));
    assert_eq!(by_fp.len(), 1);
    assert_eq!(by_fp[0].prompt_prefix, "What is the volume of a sphere? #card");
    assert_eq!(select_card_metadata(cards(), Some(CardId::Fingerprint(Fingerprint(7)))).len(), 0);
}

#[test]
fn only_due_cards_are_kept_for_review() {
    // 2025-11-24T00:00:00Z
    let due = retain_due(cards(), 1763942400000);
    assert_eq!(due.len(), 1);
    assert_eq!(due[0].card_ref.serial_num, Some(8));
    assert_eq!(retain_due(cards(), 1764201600000).len(), 2);
    assert_eq!(retain_due(cards(), 0).len(), 0);
}

#[test]
fn a_card_is_not_reviewed_before_its_last_review() {
    let c = &cards()[0];
    assert!(can_review_at(c, 1742637297202));
    assert!(!can_review_at(c, 1742637297201));
}
