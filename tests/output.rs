use std::rc::Rc;

use losrs::output::{format_card_clean, format_card_storage, next_serial, response_for_key, CardBodyParts, ReviewResponse};
use losrs::storage::{extract_card_by_ref, extract_card_metadatas};

const PAGE: &str = "- Not card\n- What is the antiderivative? #card\n  card-last-reviewed:: 2025-04-28T09:12:30.985Z\n  card-last-interval:: 244.14\n  card-ease-factor:: 3.1\n  card-last-score:: 5\n  card-repeats:: 6\n  card-next-schedule:: 2025-12-28T00:00:00.000Z\n  - x^(r+1)/(r+1) + C\n- Not card\n";

fn card() -> losrs::storage::Card {
    let metas = extract_card_metadatas(&Rc::new("/g/pages/p.md".to_string()), PAGE).unwrap();
    extract_card_by_ref(&metas[0].card_ref, PAGE).unwrap()
}

#[test]
fn clean_format_shows_prompt_then_response() {
    let c = card();
    assert_eq!(format_card_clean(&c, CardBodyParts::Prompt), "- What is the antiderivative? #card\n");
    assert_eq!(
        format_card_clean(&c, CardBodyParts::All),
        "- What is the antiderivative? #card\n  - x^(r+1)/(r+1) + C\n"
    );
}

#[test]
fn storage_format_writes_canonical_block() {
    let c = card();
    assert_eq!(format_card_storage(&c, CardBodyParts::Prompt), None);
    let s = format_card_storage(&c, CardBodyParts::All).unwrap();
    let lines: Vec<&str> = s.lines().collect();
    assert_eq!(lines.len(), 9);
    assert_eq!(lines[0], "- What is the antiderivative? #card");
    assert_eq!(lines[1], "  card-last-interval:: 244.14");
    assert_eq!(lines[2], "  card-repeats:: 6");
    assert_eq!(lines[3], "  card-ease-factor:: 3.1");
    assert_eq!(lines[4], "  card-next-schedule:: 2025-12-28T00:00:00.000Z");
    assert_eq!(lines[5], "  card-last-reviewed:: 2025-04-28T09:12:30.985Z");
    assert_eq!(lines[6], "  card-last-score:: 5");
    assert_eq!(lines[7], "  card-fsrs-metadata:: {\"due\":\"2025-12-28T00:00:00Z\",\"stability\":244.14,\"difficulty\":5.0,\"elapsed_days\":244,\"scheduled_days\":244,\"reps\":6,\"lapses\":0,\"state\":\"Review\",\"last_review\":\"2025-04-28T09:12:30.985Z\"}");
    assert_eq!(lines[8], "  - x^(r+1)/(r+1) + C");
}

#[test]
fn keys_one_to_four_are_answers() {
    assert_eq!(response_for_key('1'), Some(ReviewResponse::LittleEffort));
    assert_eq!(response_for_key('2'), Some(ReviewResponse::SomeEffort));
    assert_eq!(response_for_key('3'), Some(ReviewResponse::MuchEffort));
    assert_eq!(response_for_key('4'), Some(ReviewResponse::NoRecall));
    assert_eq!(response_for_key('5'), None);
}

#[test]
fn counter_file_gives_the_next_serial() {
    assert_eq!(next_serial(""), Some(1));
    assert_eq!(next_serial("41\n"), Some(42));
    assert_eq!(next_serial("abc"), None);
    assert_eq!(next_serial("18446744073709551615"), None);
}
