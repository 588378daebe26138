use losrs::codec::{fsrs_from_json_text, fsrs_json, meta_lines_of, FSRSMeta, LogseqSRSMeta, ReviewState, SRSMeta};
use losrs::decimal::{parse_decimal, push_decimal_text, round_to_millis, Decimal};
use losrs::identity::{embed_serial_num, extract_serial_num};
use losrs::num::{parse_i32, parse_i64, parse_u8};
use losrs::time::{format_rfc3339, parse_rfc3339, Timestamp};

fn chars(s: &str) -> Vec<char> {
    s.chars().collect()
}

fn text(v: Vec<char>) -> String {
    v.into_iter().collect()
}

fn dec_text(d: Decimal) -> String {
    let mut out = Vec::new();
    push_decimal_text(&mut out, d);
    text(out)
}

fn lines(ls: &[&str]) -> Vec<Vec<char>> {
    ls.iter().map(|l| chars(l)).collect()
}

#[test]
fn decimals_read_and_write_like_floats() {
    let d = parse_decimal(&chars("244.14")).unwrap();
    assert_eq!(d, Decimal { negative: false, units: 24414, scale: 2 });
    assert_eq!(dec_text(d), "244.14");
    assert_eq!(dec_text(parse_decimal(&chars("9.0")).unwrap()), "9");
    assert_eq!(dec_text(parse_decimal(&chars("-0.50")).unwrap()), "-0.5");
    assert_eq!(dec_text(parse_decimal(&chars("-0.0")).unwrap()), "0");
    assert_eq!(dec_text(parse_decimal(&chars(".25")).unwrap()), "0.25");
    assert_eq!(dec_text(parse_decimal(&chars("+3.")).unwrap()), "3");
    assert_eq!(parse_decimal(&chars("")), None);
    assert_eq!(parse_decimal(&chars(".")), None);
    assert_eq!(parse_decimal(&chars("1e5")), None);
    assert_eq!(parse_decimal(&chars("1.2.3")), None);
}

#[test]
fn rounding_to_three_places_goes_half_away_from_zero() {
    let r = round_to_millis(parse_decimal(&chars("8.774341658142419")).unwrap());
    assert_eq!(dec_text(r), "8.774");
    assert_eq!(dec_text(round_to_millis(parse_decimal(&chars("7.0405")).unwrap())), "7.041");
    assert_eq!(dec_text(round_to_millis(parse_decimal(&chars("-1.9996")).unwrap())), "-2");
    assert_eq!(dec_text(round_to_millis(parse_decimal(&chars("1.25")).unwrap())), "1.25");
}

#[test]
fn integers_read_as_std_parse_does() {
    assert_eq!(parse_u8(&chars("255")), Some(255));
    assert_eq!(parse_u8(&chars("256")), None);
    assert_eq!(parse_u8(&chars("+7")), Some(7));
    assert_eq!(parse_u8(&chars("-1")), None);
    assert_eq!(parse_u8(&chars("")), None);
    assert_eq!(parse_i64(&chars("-9223372036854775808")), Some(i64::MIN));
    assert_eq!(parse_i64(&chars("9223372036854775808")), None);
    assert_eq!(parse_i32(&chars("-245")), Some(-245));
    assert_eq!(parse_i32(&chars("2147483648")), None);
}

#[test]
fn timestamps_go_through_chrono() {
    let t = parse_rfc3339("2025-03-22T09:54:57.202Z").unwrap();
    assert_eq!(t, Timestamp { millis: 1742637297202, offset_secs: 0 });
    assert_eq!(format_rfc3339(t, true), "2025-03-22T09:54:57.202Z");
    assert_eq!(format_rfc3339(Timestamp { millis: 1742637297000, offset_secs: 0 }, false), "2025-03-22T09:54:57Z");
    let o = parse_rfc3339("2025-03-22T11:54:57+02:00").unwrap();
    assert_eq!(o, Timestamp { millis: 1742637297000, offset_secs: 7200 });
    assert_eq!(format_rfc3339(o, true), "2025-03-22T11:54:57.000+02:00");
    assert_eq!(parse_rfc3339("yesterday"), None);
}

#[test]
fn legacy_fields_make_a_review_state() {
    let m = SRSMeta::from_prompt_lines(&lines(&[
        "- What is a sphere? #card",
        "  card-last-interval:: 244.14",
        "  card-repeats:: 6",
        "  card-ease-factor:: 3.1",
        "  card-next-schedule:: 2025-11-21T00:00:00.000Z",
        "  card-last-reviewed:: 2025-03-22T09:54:57.202Z",
        "  card-last-score:: 5",
    ]))
    .unwrap();
    assert_eq!(m.logseq_srs_meta.repeats, 6);
    assert_eq!(m.fsrs_meta.state, ReviewState::Review);
    assert_eq!(m.fsrs_meta.scheduled_days, 244);
    assert_eq!(m.fsrs_meta.elapsed_days, 244);
    assert_eq!(m.fsrs_meta.reps, 6);
    assert_eq!(m.fsrs_meta.stability, Decimal { negative: false, units: 24414, scale: 2 });
    assert_eq!(m.fsrs_meta.difficulty, Decimal { negative: false, units: 5, scale: 0 });
    assert_eq!(m.fsrs_meta.due.millis, 1763683200000);
}

#[test]
fn zero_interval_means_a_new_card() {
    let m = SRSMeta::from_prompt_lines(&lines(&["- Q #card", "  card-last-interval:: -1", "  card-repeats:: 3"])).unwrap();
    assert_eq!(m.fsrs_meta, FSRSMeta::default_meta());
    assert_eq!(m.logseq_srs_meta.repeats, 3);
    let d = SRSMeta::from_prompt_lines(&lines(&["- Q #card"])).unwrap();
    assert_eq!(d.logseq_srs_meta, LogseqSRSMeta::default_meta());
    assert_eq!(d.fsrs_meta, FSRSMeta::default_meta());
}

#[test]
fn snapshot_line_decides_over_legacy_fields() {
    let m = SRSMeta::from_prompt_lines(&lines(&[
        "- What is a sphere? #card",
        "  card-last-interval:: 9.0",
        "  card-repeats:: 2",
        "  card-fsrs-metadata:: {\"due\":\"2025-12-01T15:04:05.123456789Z\",\"stability\":8.774341658142419,\"difficulty\":7.040172161986166,\"elapsed_days\":245,\"scheduled_days\":9,\"reps\":7,\"lapses\":1,\"state\":\"Review\",\"last_review\":\"2025-11-22T15:04:05.123456789Z\"}",
        "  card-someone-else:: kept apart",
    ]))
    .unwrap();
    assert_eq!(m.fsrs_meta.reps, 7);
    assert_eq!(m.fsrs_meta.lapses, 1);
    assert_eq!(m.fsrs_meta.due.millis, 1764601445123);
    assert_eq!(m.logseq_srs_meta.repeats, 7);
    assert_eq!(m.logseq_srs_meta.last_interval, Decimal { negative: false, units: 9, scale: 0 });
    let json = text(fsrs_json(&m.fsrs_meta));
    assert_eq!(json, "{\"due\":\"2025-12-01T15:04:05.123Z\",\"stability\":8.774,\"difficulty\":7.04,\"elapsed_days\":245,\"scheduled_days\":9,\"reps\":7,\"lapses\":1,\"state\":\"Review\",\"last_review\":\"2025-11-22T15:04:05.123Z\"}");
    let back = fsrs_from_json_text(&chars(&json)).unwrap();
    assert_eq!(back.reps, 7);
    assert_eq!(back.stability, Decimal { negative: false, units: 8774, scale: 3 });
}

#[test]
fn metadata_lines_come_in_a_fixed_order() {
    let a = SRSMeta::from_prompt_lines(&lines(&[
        "- Q #card",
        "  card-last-reviewed:: 2025-04-28T09:12:30.985Z",
        "  card-last-interval:: 244.14",
        "  card-ease-factor:: 3.1",
        "  card-last-score:: 5",
        "  card-repeats:: 6",
        "  card-next-schedule:: 2025-12-28T00:00:00.000Z",
    ]))
    .unwrap();
    let written: Vec<String> = meta_lines_of(&a).into_iter().map(text).collect();
    assert_eq!(written[0], "card-last-interval:: 244.14");
    assert_eq!(written[1], "card-repeats:: 6");
    assert_eq!(written[2], "card-ease-factor:: 3.1");
    assert_eq!(written[3], "card-next-schedule:: 2025-12-28T00:00:00.000Z");
    assert_eq!(written[4], "card-last-reviewed:: 2025-04-28T09:12:30.985Z");
    assert_eq!(written[5], "card-last-score:: 5");
    assert!(written[6].starts_with("card-fsrs-metadata:: {\"due\":\"2025-12-28T00:00:00Z\",\"stability\":244.14,\"difficulty\":5.0,"));
    let back = SRSMeta::from_prompt_lines(&lines(&written.iter().map(|s| s.as_str()).collect::<Vec<_>>())).unwrap();
    assert_eq!(back.fsrs_meta, a.fsrs_meta);
}

#[test]
fn bad_values_name_their_key() {
    let e = SRSMeta::from_prompt_lines(&lines(&["- Q #card", "  card-next-schedule:: soon"])).unwrap_err();
    assert_eq!(e.key, "card-next-schedule");
    let e = SRSMeta::from_prompt_lines(&lines(&["- Q #card", "  card-fsrs-metadata:: {\"due\":1}"])).unwrap_err();
    assert_eq!(e.key, "card-fsrs-metadata");
    assert!(SRSMeta::from_prompt_lines(&lines(&["- Q #card", "  card-new-thing:: whatever"])).is_ok());
}

#[test]
fn serial_tag_reads_and_embeds() {
    assert_eq!(extract_serial_num(&chars("- Q #card <!-- CSN:17 -->")), Some(17));
    assert_eq!(extract_serial_num(&chars("- Q #card")), None);
    assert_eq!(extract_serial_num(&chars("- Q #card <!-- CSN: -->")), None);
    assert_eq!(extract_serial_num(&chars("- Q #card <!-- CSN:99999999999999999999 -->")), None);
    assert_eq!(text(embed_serial_num(&chars("- Q #card\nmore"), 5)), "- Q #card <!-- CSN:5 -->\nmore");
    assert_eq!(text(embed_serial_num(&chars("- Q #card <!-- CSN:4 --> x"), 5)), "- Q #card <!-- CSN:5 --> x");
    assert_eq!(text(embed_serial_num(&chars("- Q"), 5)), "- Q");
}
