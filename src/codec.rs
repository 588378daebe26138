//! Scheduling metadata: the legacy `key:: value` fields, the scheduling-state
//! snapshot, the conversions between them, and their text in a page.
use vstd::prelude::*;
use crate::decimal::{
    decimal_from_i64, decimal_of_int, decimal_text, push_decimal_text, round3, round_to_millis,
    trunc_to_i64, decimal_trunc_to_i64, Decimal,
};
use crate::num::{nat_text, push_nat_text};
use crate::decimal::{parse_decimal, parse_decimal_spec};
use crate::num::{parse_i32, parse_i32_spec, parse_i64, parse_i64_spec, parse_u8, parse_u8_spec};
use crate::text::{lines_view, chars_of, eq_lit, push_all, push_lit, slice_of, string_of, trim, trim_of};
use crate::time::{
    epoch, format_rfc3339, parse_rfc3339, rfc3339_reading, rfc3339_text, unix_epoch, Timestamp,
};

verus! {

/// Where a card stands in the scheduling algorithm.
#[derive(Clone, Copy, Debug, PartialEq, Eq, Structural)]
pub enum ReviewState {
    New,
    Learning,
    Review,
    Relearning,
}

/// The scheduling-state snapshot that the scheduling algorithm reads and writes.
/// Its instants are in UTC.
#[derive(Clone, Copy, Debug, PartialEq, Eq, Structural)]
pub struct FSRSMeta {
    pub due: Timestamp,
    pub stability: Decimal,
    pub difficulty: Decimal,
    pub elapsed_days: i64,
    pub scheduled_days: i64,
    pub reps: i32,
    pub lapses: i32,
    pub state: ReviewState,
    pub last_review: Timestamp,
}

/// The line-oriented fields that the host outliner keeps under a card.
#[derive(Clone, Copy, Debug, PartialEq, Eq, Structural)]
pub struct LogseqSRSMeta {
    pub last_interval: Decimal,
    pub repeats: u8,
    pub ease_factor: Decimal,
    pub next_schedule: Timestamp,
    pub last_reviewed: Timestamp,
    pub last_score: u8,
}

/// Scheduling metadata: the legacy fields and the snapshot.
#[derive(Clone, Copy, Debug, PartialEq, Eq, Structural)]
pub struct SRSMeta {
    pub logseq_srs_meta: LogseqSRSMeta,
    pub fsrs_meta: FSRSMeta,
}

impl FSRSMeta {
    pub open spec fn wf(self) -> bool {
        &&& self.due.wf() && self.due.offset_secs == 0
        &&& self.last_review.wf() && self.last_review.offset_secs == 0
        &&& self.stability.wf()
        &&& self.difficulty.wf()
    }
}

impl LogseqSRSMeta {
    pub open spec fn wf(self) -> bool {
        &&& self.last_interval.wf()
        &&& self.ease_factor.wf()
        &&& self.next_schedule.wf()
        &&& self.last_reviewed.wf()
    }
}

impl SRSMeta {
    pub open spec fn wf(self) -> bool {
        self.logseq_srs_meta.wf() && self.fsrs_meta.wf()
    }
}

/// 2.5
pub open spec fn default_ease() -> Decimal {
    Decimal { negative: false, units: 25, scale: 1 }
}

pub open spec fn zero() -> Decimal {
    Decimal { negative: false, units: 0, scale: 0 }
}

/// The legacy fields of a card that has none: interval 0, which marks a new card.
pub open spec fn default_logseq() -> LogseqSRSMeta {
    LogseqSRSMeta {
        last_interval: zero(),
        repeats: 0,
        ease_factor: default_ease(),
        next_schedule: epoch(),
        last_reviewed: epoch(),
        last_score: 5,
    }
}

/// The scheduling library's state of a new card.
pub open spec fn default_fsrs() -> FSRSMeta {
    FSRSMeta {
        due: epoch(),
        stability: zero(),
        difficulty: zero(),
        elapsed_days: 0,
        scheduled_days: 0,
        reps: 0,
        lapses: 0,
        state: ReviewState::New,
        last_review: epoch(),
    }
}

/// The same instant in UTC.
pub open spec fn in_utc(t: Timestamp) -> Timestamp {
    Timestamp { millis: t.millis, offset_secs: 0 }
}

/// A snapshot made from legacy fields: an interval of zero or below marks a
/// new card, which gets the default state.
pub open spec fn fsrs_from_logseq(l: LogseqSRSMeta) -> FSRSMeta {
    if l.last_interval.negative || l.last_interval.units == 0 {
        default_fsrs()
    } else {
        FSRSMeta {
            due: in_utc(l.next_schedule),
            stability: l.last_interval,
            difficulty: Decimal { negative: false, units: 5, scale: 0 },
            elapsed_days: trunc_to_i64(l.last_interval),
            scheduled_days: trunc_to_i64(l.last_interval),
            reps: l.repeats as i32,
            lapses: 0,
            state: ReviewState::Review,
            last_review: in_utc(l.last_reviewed),
        }
    }
}

/// The low eight bits of `v`, as `v as u8` keeps them.
pub open spec fn low_byte(v: i32) -> u8 {
    (v as int % 256) as u8
}

/// Legacy fields derived from a snapshot, for display and for the host outliner.
pub open spec fn logseq_from_fsrs(f: FSRSMeta) -> LogseqSRSMeta {
    LogseqSRSMeta {
        last_interval: decimal_of_int(f.scheduled_days),
        repeats: low_byte(f.reps),
        ease_factor: default_ease(),
        next_schedule: f.due,
        last_reviewed: f.last_review,
        last_score: 5,
    }
}

/// Metadata whose snapshot is `f`: the legacy fields follow from it.
pub open spec fn srs_meta_of_fsrs(f: FSRSMeta) -> SRSMeta {
    SRSMeta { logseq_srs_meta: logseq_from_fsrs(f), fsrs_meta: f }
}

/// Metadata whose legacy fields are `l`: the snapshot follows from them.
pub open spec fn srs_meta_of_logseq(l: LogseqSRSMeta) -> SRSMeta {
    SRSMeta { logseq_srs_meta: l, fsrs_meta: fsrs_from_logseq(l) }
}

impl LogseqSRSMeta {
    pub fn default_meta() -> (r: LogseqSRSMeta)
        ensures
            r == default_logseq(),
            r.wf(),
    {
        LogseqSRSMeta {
            last_interval: Decimal { negative: false, units: 0, scale: 0 },
            repeats: 0,
            ease_factor: Decimal { negative: false, units: 25, scale: 1 },
            next_schedule: unix_epoch(),
            last_reviewed: unix_epoch(),
            last_score: 5,
        }
    }

    pub fn from_fsrs(f: &FSRSMeta) -> (r: LogseqSRSMeta)
        requires
            f.wf(),
        ensures
            r == logseq_from_fsrs(*f),
            r.wf(),
    {
        LogseqSRSMeta {
            last_interval: decimal_from_i64(f.scheduled_days),
            repeats: low_byte_of(f.reps),
            ease_factor: Decimal { negative: false, units: 25, scale: 1 },
            next_schedule: f.due,
            last_reviewed: f.last_review,
            last_score: 5,
        }
    }
}

#[verifier::truncate]
fn low_byte_of(v: i32) -> (r: u8)
    ensures
        r == low_byte(v),
{
    let r = v as u8;
    assert(r == low_byte(v)) by (bit_vector)
        requires r == v as u8;
    r
}

impl FSRSMeta {
    pub fn default_meta() -> (r: FSRSMeta)
        ensures
            r == default_fsrs(),
            r.wf(),
    {
        FSRSMeta {
            due: unix_epoch(),
            stability: Decimal { negative: false, units: 0, scale: 0 },
            difficulty: Decimal { negative: false, units: 0, scale: 0 },
            elapsed_days: 0,
            scheduled_days: 0,
            reps: 0,
            lapses: 0,
            state: ReviewState::New,
            last_review: unix_epoch(),
        }
    }

    pub fn from_logseq(l: &LogseqSRSMeta) -> (r: FSRSMeta)
        requires
            l.wf(),
        ensures
            r == fsrs_from_logseq(*l),
            r.wf(),
    {
        if l.last_interval.negative || l.last_interval.units == 0 {
            FSRSMeta::default_meta()
        } else {
            let days = decimal_trunc_to_i64(l.last_interval);
            FSRSMeta {
                due: Timestamp { millis: l.next_schedule.millis, offset_secs: 0 },
                stability: l.last_interval,
                difficulty: Decimal { negative: false, units: 5, scale: 0 },
                elapsed_days: days,
                scheduled_days: days,
                reps: l.repeats as i32,
                lapses: 0,
                state: ReviewState::Review,
                last_review: Timestamp { millis: l.last_reviewed.millis, offset_secs: 0 },
            }
        }
    }
}

impl SRSMeta {
    pub fn from_fsrs(f: FSRSMeta) -> (r: SRSMeta)
        requires
            f.wf(),
        ensures
            r == srs_meta_of_fsrs(f),
            r.wf(),
    {
        SRSMeta { logseq_srs_meta: LogseqSRSMeta::from_fsrs(&f), fsrs_meta: f }
    }

    pub fn from_logseq(l: LogseqSRSMeta) -> (r: SRSMeta)
        requires
            l.wf(),
        ensures
            r == srs_meta_of_logseq(l),
            r.wf(),
    {
        SRSMeta { logseq_srs_meta: l, fsrs_meta: FSRSMeta::from_logseq(&l) }
    }
}

// ---- text ----

pub open spec fn state_name(s: ReviewState) -> Seq<char> {
    match s {
        ReviewState::New => "New"@,
        ReviewState::Learning => "Learning"@,
        ReviewState::Review => "Review"@,
        ReviewState::Relearning => "Relearning"@,
    }
}

/// An integer's decimal text, with `-` when negative.
pub open spec fn int_text(v: int) -> Seq<char> {
    if v < 0 {
        seq!['-'] + nat_text((-v) as nat)
    } else {
        nat_text(v as nat)
    }
}

/// A number in the snapshot: its decimal text, with `.0` where it has no fraction.
pub open spec fn json_number_text(d: Decimal) -> Seq<char> {
    if d.scale == 0 {
        decimal_text(d) + ".0"@
    } else {
        decimal_text(d)
    }
}

/// The snapshot as one JSON object, instants in chrono's serde form, stability
/// and difficulty rounded to three fraction digits.
pub open spec fn fsrs_json_text(f: FSRSMeta) -> Seq<char> {
    "{\"due\":\""@ + rfc3339_text(f.due, false) + "\",\"stability\":"@ + json_number_text(
        round3(f.stability),
    ) + ",\"difficulty\":"@ + json_number_text(round3(f.difficulty)) + ",\"elapsed_days\":"@
        + int_text(f.elapsed_days as int) + ",\"scheduled_days\":"@ + int_text(
        f.scheduled_days as int,
    ) + ",\"reps\":"@ + int_text(f.reps as int) + ",\"lapses\":"@ + int_text(f.lapses as int)
        + ",\"state\":\""@ + state_name(f.state) + "\",\"last_review\":\""@ + rfc3339_text(
        f.last_review,
        false,
    ) + "\"}"@
}

/// The metadata lines of a card, in their fixed order, without indentation.
pub open spec fn meta_lines(m: SRSMeta) -> Seq<Seq<char>> {
    let l = m.logseq_srs_meta;
    seq![
        "card-last-interval:: "@ + decimal_text(l.last_interval),
        "card-repeats:: "@ + nat_text(l.repeats as nat),
        "card-ease-factor:: "@ + decimal_text(l.ease_factor),
        "card-next-schedule:: "@ + rfc3339_text(l.next_schedule, true),
        "card-last-reviewed:: "@ + rfc3339_text(l.last_reviewed, true),
        "card-last-score:: "@ + nat_text(l.last_score as nat),
        "card-fsrs-metadata:: "@ + fsrs_json_text(m.fsrs_meta),
    ]
}

fn push_int_text(out: &mut Vec<char>, v: i64)
    ensures
        final(out)@ == old(out)@ + int_text(v as int),
{
    if v < 0 {
        out.push('-');
        let u: u64 = if v == i64::MIN { 0x8000_0000_0000_0000u64 } else { (-v) as u64 };
        push_nat_text(out, u);
    } else {
        push_nat_text(out, v as u64);
    }
}

fn push_json_number(out: &mut Vec<char>, d: Decimal)
    requires
        d.wf(),
    ensures
        final(out)@ == old(out)@ + json_number_text(d),
{
    push_decimal_text(out, d);
    if d.scale == 0 {
        push_lit(out, ".0");
    }
}

fn push_timestamp(out: &mut Vec<char>, t: Timestamp, fixed_millis: bool)
    requires
        t.wf(),
    ensures
        final(out)@ == old(out)@ + rfc3339_text(t, fixed_millis),
{
    let s = format_rfc3339(t, fixed_millis);
    let cs = chars_of(s.as_str());
    push_all(out, cs.as_slice());
}

fn push_state_name(out: &mut Vec<char>, s: ReviewState)
    ensures
        final(out)@ == old(out)@ + state_name(s),
{
    match s {
        ReviewState::New => push_lit(out, "New"),
        ReviewState::Learning => push_lit(out, "Learning"),
        ReviewState::Review => push_lit(out, "Review"),
        ReviewState::Relearning => push_lit(out, "Relearning"),
    }
}

/// The snapshot's JSON text (see `fsrs_json_text`).
pub fn fsrs_json(f: &FSRSMeta) -> (r: Vec<char>)
    requires
        f.wf(),
    ensures
        r@ == fsrs_json_text(*f),
{
    let mut out: Vec<char> = Vec::new();
    push_lit(&mut out, "{\"due\":\"");
    push_timestamp(&mut out, f.due, false);
    push_lit(&mut out, "\",\"stability\":");
    push_json_number(&mut out, round_to_millis(f.stability));
    push_lit(&mut out, ",\"difficulty\":");
    push_json_number(&mut out, round_to_millis(f.difficulty));
    push_lit(&mut out, ",\"elapsed_days\":");
    push_int_text(&mut out, f.elapsed_days);
    push_lit(&mut out, ",\"scheduled_days\":");
    push_int_text(&mut out, f.scheduled_days);
    push_lit(&mut out, ",\"reps\":");
    push_int_text(&mut out, f.reps as i64);
    push_lit(&mut out, ",\"lapses\":");
    push_int_text(&mut out, f.lapses as i64);
    push_lit(&mut out, ",\"state\":\"");
    push_state_name(&mut out, f.state);
    push_lit(&mut out, "\",\"last_review\":\"");
    push_timestamp(&mut out, f.last_review, false);
    push_lit(&mut out, "\"}");
    out
}

/// The metadata lines of a card (see `meta_lines`).
pub fn meta_lines_of(m: &SRSMeta) -> (r: Vec<Vec<char>>)
    requires
        m.wf(),
    ensures
        r@.map_values(|l: Vec<char>| l@) == meta_lines(*m),
{
    let l = &m.logseq_srs_meta;
    let mut a: Vec<char> = Vec::new();
    push_lit(&mut a, "card-last-interval:: ");
    push_decimal_text(&mut a, l.last_interval);
    let mut b: Vec<char> = Vec::new();
    push_lit(&mut b, "card-repeats:: ");
    push_nat_text(&mut b, l.repeats as u64);
    let mut c: Vec<char> = Vec::new();
    push_lit(&mut c, "card-ease-factor:: ");
    push_decimal_text(&mut c, l.ease_factor);
    let mut d: Vec<char> = Vec::new();
    push_lit(&mut d, "card-next-schedule:: ");
    push_timestamp(&mut d, l.next_schedule, true);
    let mut e: Vec<char> = Vec::new();
    push_lit(&mut e, "card-last-reviewed:: ");
    push_timestamp(&mut e, l.last_reviewed, true);
    let mut f: Vec<char> = Vec::new();
    push_lit(&mut f, "card-last-score:: ");
    push_nat_text(&mut f, l.last_score as u64);
    let mut g: Vec<char> = Vec::new();
    push_lit(&mut g, "card-fsrs-metadata:: ");
    let j = fsrs_json(&m.fsrs_meta);
    push_all(&mut g, j.as_slice());
    let r = vec![a, b, c, d, e, f, g];
    assert(r@.map_values(|l: Vec<char>| l@) =~= meta_lines(*m));
    r
}

// ---- reading ----

/// What serde_json reads from a JSON object text: its members, each value in
/// the compact JSON text that serde_json writes for it.
pub uninterp spec fn json_members(s: Seq<char>) -> Option<Seq<(Seq<char>, Seq<char>)>>;

pub open spec fn members_view(v: Seq<(String, String)>) -> Seq<(Seq<char>, Seq<char>)> {
    v.map_values(|m: (String, String)| (m.0@, m.1@))
}

/// Relies on `serde_json::from_str` into a `serde_json::Map` (so `s` must be a
/// JSON object): its members in the map's order, each value as `Value`'s
/// `Display` writes it.
#[verifier::external_body]
pub(crate) fn json_object_members(s: &str) -> (r: Option<Vec<(String, String)>>)
    ensures
        match r {
            Some(v) => json_members(s@) == Some(members_view(v@)),
            None => json_members(s@) is None,
        },
{
    serde_json::from_str::<serde_json::Map<String, serde_json::Value>>(s).ok().map(
        |m| m.into_iter().map(|(k, v)| (k, v.to_string())).collect(),
    )
}

/// The value of the first member named `key`.
pub open spec fn member_value(ms: Seq<(Seq<char>, Seq<char>)>, key: Seq<char>) -> Option<Seq<char>>
    decreases ms.len(),
{
    if ms.len() == 0 {
        None
    } else if ms[0].0 == key {
        Some(ms[0].1)
    } else {
        member_value(ms.drop_first(), key)
    }
}

/// The content of a JSON string text that holds no escape.
pub open spec fn json_plain_string(t: Seq<char>) -> Option<Seq<char>> {
    if t.len() >= 2 && t[0] == '"' && t.last() == '"' && (forall|i: int|
        1 <= i < t.len() - 1 ==> #[trigger] t[i] != '"' && t[i] != '\\')
    {
        Some(t.subrange(1, t.len() - 1))
    } else {
        None
    }
}

pub open spec fn state_of_name(n: Seq<char>) -> Option<ReviewState> {
    if n == "New"@ {
        Some(ReviewState::New)
    } else if n == "Learning"@ {
        Some(ReviewState::Learning)
    } else if n == "Review"@ {
        Some(ReviewState::Review)
    } else if n == "Relearning"@ {
        Some(ReviewState::Relearning)
    } else {
        None
    }
}

/// A member that holds an instant, taken in UTC.
pub open spec fn instant_member(ms: Seq<(Seq<char>, Seq<char>)>, key: Seq<char>) -> Option<Timestamp> {
    match member_value(ms, key) {
        Some(t) => match json_plain_string(t) {
            Some(c) => match rfc3339_reading(c) {
                Some(ts) => Some(in_utc(ts)),
                None => None,
            },
            None => None,
        },
        None => None,
    }
}

pub open spec fn decimal_member(ms: Seq<(Seq<char>, Seq<char>)>, key: Seq<char>) -> Option<Decimal> {
    match member_value(ms, key) {
        Some(t) => parse_decimal_spec(t),
        None => None,
    }
}

pub open spec fn i64_member(ms: Seq<(Seq<char>, Seq<char>)>, key: Seq<char>) -> Option<i64> {
    match member_value(ms, key) {
        Some(t) => parse_i64_spec(t),
        None => None,
    }
}

pub open spec fn i32_member(ms: Seq<(Seq<char>, Seq<char>)>, key: Seq<char>) -> Option<i32> {
    match member_value(ms, key) {
        Some(t) => parse_i32_spec(t),
        None => None,
    }
}

pub open spec fn state_member(ms: Seq<(Seq<char>, Seq<char>)>, key: Seq<char>) -> Option<ReviewState> {
    match member_value(ms, key) {
        Some(t) => match json_plain_string(t) {
            Some(c) => state_of_name(c),
            None => None,
        },
        None => None,
    }
}

/// The snapshot held by an object's members; every field must be there.
pub open spec fn fsrs_from_members(ms: Seq<(Seq<char>, Seq<char>)>) -> Option<FSRSMeta> {
    let due = instant_member(ms, "due"@);
    let stability = decimal_member(ms, "stability"@);
    let difficulty = decimal_member(ms, "difficulty"@);
    let elapsed = i64_member(ms, "elapsed_days"@);
    let scheduled = i64_member(ms, "scheduled_days"@);
    let reps = i32_member(ms, "reps"@);
    let lapses = i32_member(ms, "lapses"@);
    let state = state_member(ms, "state"@);
    let last = instant_member(ms, "last_review"@);
    if due is Some && stability is Some && difficulty is Some && elapsed is Some
        && scheduled is Some && reps is Some && lapses is Some && state is Some && last is Some
    {
        Some(
            FSRSMeta {
                due: due->0,
                stability: stability->0,
                difficulty: difficulty->0,
                elapsed_days: elapsed->0,
                scheduled_days: scheduled->0,
                reps: reps->0,
                lapses: lapses->0,
                state: state->0,
                last_review: last->0,
            },
        )
    } else {
        None
    }
}

/// The snapshot held by a JSON object text.
pub open spec fn fsrs_from_json(s: Seq<char>) -> Option<FSRSMeta> {
    match json_members(s) {
        Some(ms) => fsrs_from_members(ms),
        None => None,
    }
}

pub(crate) fn find_member(ms: &Vec<(String, String)>, key: &str) -> (r: Option<Vec<char>>)
    ensures
        match r {
            Some(v) => member_value(members_view(ms@), key@) == Some(v@),
            None => member_value(members_view(ms@), key@) is None,
        },
{
    let mut i: usize = 0;
    assert(members_view(ms@).subrange(0, ms@.len() as int) == members_view(ms@));
    while i < ms.len()
        invariant
            i <= ms@.len(),
            member_value(members_view(ms@), key@) == member_value(
                members_view(ms@).subrange(i as int, ms@.len() as int),
                key@,
            ),
        decreases ms.len() - i,
    {
        let ghost rest = members_view(ms@).subrange(i as int, ms@.len() as int);
        assert(rest.drop_first() == members_view(ms@).subrange(i + 1, ms@.len() as int));
        let k = chars_of(ms[i].0.as_str());
        if eq_lit(k.as_slice(), key) {
            return Some(chars_of(ms[i].1.as_str()));
        }
        i = i + 1;
    }
    assert(members_view(ms@).subrange(ms@.len() as int, ms@.len() as int).len() == 0);
    None
}

fn plain_string(t: &[char]) -> (r: Option<Vec<char>>)
    ensures
        match r {
            Some(v) => json_plain_string(t@) == Some(v@),
            None => json_plain_string(t@) is None,
        },
{
    let n = t.len();
    if n < 2 || t[0] != '"' || t[n - 1] != '"' {
        return None;
    }
    let mut i: usize = 1;
    while i < n - 1
        invariant
            2 <= n == t@.len(),
            1 <= i <= n - 1,
            forall|j: int| 1 <= j < i ==> #[trigger] t@[j] != '"' && t@[j] != '\\',
        decreases n - 1 - i,
    {
        if t[i] == '"' || t[i] == '\\' {
            return None;
        }
        i = i + 1;
    }
    Some(slice_of(t, 1, n - 1))
}

fn state_from_name(c: &[char]) -> (r: Option<ReviewState>)
    ensures
        r == state_of_name(c@),
{
    if eq_lit(c, "New") {
        Some(ReviewState::New)
    } else if eq_lit(c, "Learning") {
        Some(ReviewState::Learning)
    } else if eq_lit(c, "Review") {
        Some(ReviewState::Review)
    } else if eq_lit(c, "Relearning") {
        Some(ReviewState::Relearning)
    } else {
        None
    }
}

fn read_instant(ms: &Vec<(String, String)>, key: &str) -> (r: Option<Timestamp>)
    ensures
        r == instant_member(members_view(ms@), key@),
        r matches Some(t) ==> t.wf() && t.offset_secs == 0,
{
    match find_member(ms, key) {
        Some(t) => match plain_string(t.as_slice()) {
            Some(c) => {
                let text = string_of(c.as_slice());
                match parse_rfc3339(text.as_str()) {
                    Some(ts) => Some(Timestamp { millis: ts.millis, offset_secs: 0 }),
                    None => None,
                }
            },
            None => None,
        },
        None => None,
    }
}

fn read_decimal(ms: &Vec<(String, String)>, key: &str) -> (r: Option<Decimal>)
    ensures
        r == decimal_member(members_view(ms@), key@),
        r matches Some(d) ==> d.wf(),
{
    match find_member(ms, key) {
        Some(t) => parse_decimal(t.as_slice()),
        None => None,
    }
}

fn read_i64(ms: &Vec<(String, String)>, key: &str) -> (r: Option<i64>)
    ensures
        r == i64_member(members_view(ms@), key@),
{
    match find_member(ms, key) {
        Some(t) => parse_i64(t.as_slice()),
        None => None,
    }
}

fn read_i32(ms: &Vec<(String, String)>, key: &str) -> (r: Option<i32>)
    ensures
        r == i32_member(members_view(ms@), key@),
{
    match find_member(ms, key) {
        Some(t) => parse_i32(t.as_slice()),
        None => None,
    }
}

fn read_state(ms: &Vec<(String, String)>, key: &str) -> (r: Option<ReviewState>)
    ensures
        r == state_member(members_view(ms@), key@),
{
    match find_member(ms, key) {
        Some(t) => match plain_string(t.as_slice()) {
            Some(c) => state_from_name(c.as_slice()),
            None => None,
        },
        None => None,
    }
}

/// Reads a snapshot from its JSON text.
pub fn fsrs_from_json_text(s: &[char]) -> (r: Option<FSRSMeta>)
    ensures
        r == fsrs_from_json(s@),
        r matches Some(f) ==> f.wf(),
{
    let text = string_of(s);
    let ms = match json_object_members(text.as_str()) {
        Some(ms) => ms,
        None => return None,
    };
    let due = read_instant(&ms, "due");
    let stability = read_decimal(&ms, "stability");
    let difficulty = read_decimal(&ms, "difficulty");
    let elapsed = read_i64(&ms, "elapsed_days");
    let scheduled = read_i64(&ms, "scheduled_days");
    let reps = read_i32(&ms, "reps");
    let lapses = read_i32(&ms, "lapses");
    let state = read_state(&ms, "state");
    let last = read_instant(&ms, "last_review");
    match (due, stability, difficulty, elapsed, scheduled, reps, lapses, state, last) {
        (
            Some(due),
            Some(stability),
            Some(difficulty),
            Some(elapsed_days),
            Some(scheduled_days),
            Some(reps),
            Some(lapses),
            Some(state),
            Some(last_review),
        ) => Some(
            FSRSMeta {
                due,
                stability,
                difficulty,
                elapsed_days,
                scheduled_days,
                reps,
                lapses,
                state,
                last_review,
            },
        ),
        _ => None,
    }
}

/// The first place at or after `i` where `":: "` stands in `t`.
pub open spec fn find_sep_from(t: Seq<char>, i: nat) -> Option<nat>
    decreases t.len() - i,
{
    if i + 3 > t.len() {
        None
    } else if t[i as int] == ':' && t[i + 1int] == ':' && t[i + 2int] == ' ' {
        Some(i)
    } else {
        find_sep_from(t, i + 1)
    }
}

/// The key and value of a `key:: value` line, both taken from the trimmed line.
pub open spec fn key_value(line: Seq<char>) -> Option<(Seq<char>, Seq<char>)> {
    let t = trim(line);
    match find_sep_from(t, 0) {
        Some(i) => Some((t.subrange(0, i as int), t.subrange(i + 3int, t.len() as int))),
        None => None,
    }
}

/// One field applied to what earlier lines gave; `None` where its value does not read.
/// Keys that are not ours are passed over.
pub open spec fn apply_field(
    acc: (LogseqSRSMeta, Option<FSRSMeta>),
    k: Seq<char>,
    v: Seq<char>,
) -> Option<(LogseqSRSMeta, Option<FSRSMeta>)> {
    let l = acc.0;
    if k == "card-last-interval"@ {
        match parse_decimal_spec(v) {
            Some(d) => Some((LogseqSRSMeta { last_interval: d, ..l }, acc.1)),
            None => None,
        }
    } else if k == "card-repeats"@ {
        match parse_u8_spec(v) {
            Some(n) => Some((LogseqSRSMeta { repeats: n, ..l }, acc.1)),
            None => None,
        }
    } else if k == "card-ease-factor"@ {
        match parse_decimal_spec(v) {
            Some(d) => Some((LogseqSRSMeta { ease_factor: d, ..l }, acc.1)),
            None => None,
        }
    } else if k == "card-next-schedule"@ {
        match rfc3339_reading(v) {
            Some(t) => Some((LogseqSRSMeta { next_schedule: t, ..l }, acc.1)),
            None => None,
        }
    } else if k == "card-last-reviewed"@ {
        match rfc3339_reading(v) {
            Some(t) => Some((LogseqSRSMeta { last_reviewed: t, ..l }, acc.1)),
            None => None,
        }
    } else if k == "card-last-score"@ {
        match parse_u8_spec(v) {
            Some(n) => Some((LogseqSRSMeta { last_score: n, ..l }, acc.1)),
            None => None,
        }
    } else if k == "card-fsrs-metadata"@ {
        match fsrs_from_json(v) {
            Some(f) => Some((l, Some(f))),
            None => None,
        }
    } else {
        Some(acc)
    }
}

/// The fields of a prompt's lines, read in order (a later line wins), or the
/// key of the first line whose value does not read.
pub open spec fn read_fields(lines: Seq<Seq<char>>) -> Result<
    (LogseqSRSMeta, Option<FSRSMeta>),
    Seq<char>,
>
    decreases lines.len(),
{
    if lines.len() == 0 {
        Ok((default_logseq(), None))
    } else {
        match read_fields(lines.drop_last()) {
            Err(k) => Err(k),
            Ok(acc) => match key_value(lines.last()) {
                None => Ok(acc),
                Some((k, v)) => match apply_field(acc, k, v) {
                    Some(a) => Ok(a),
                    None => Err(k),
                },
            },
        }
    }
}

/// The metadata of a prompt: a snapshot line, where there is one, decides and
/// the legacy fields follow from it; else the snapshot follows from the
/// legacy fields.
pub open spec fn srs_meta_from_lines(lines: Seq<Seq<char>>) -> Result<SRSMeta, Seq<char>> {
    match read_fields(lines) {
        Ok((l, Some(f))) => Ok(srs_meta_of_fsrs(f)),
        Ok((l, None)) => Ok(srs_meta_of_logseq(l)),
        Err(k) => Err(k),
    }
}

/// A metadata value that does not read, under the key that holds it.
#[derive(Debug)]
pub struct CodecError {
    pub key: String,
}

fn find_sep(t: &[char]) -> (r: Option<usize>)
    ensures
        match r {
            Some(i) => find_sep_from(t@, 0) == Some(i as nat) && i + 3 <= t@.len(),
            None => find_sep_from(t@, 0) is None,
        },
{
    if t.len() < 3 {
        return None;
    }
    let mut i: usize = 0;
    while i <= t.len() - 3
        invariant
            3 <= t@.len(),
            i <= t@.len(),
            find_sep_from(t@, 0) == find_sep_from(t@, i as nat),
        decreases t.len() - i,
    {
        if t[i] == ':' && t[i + 1] == ':' && t[i + 2] == ' ' {
            return Some(i);
        }
        i = i + 1;
    }
    None
}

fn split_key_value(line: &[char]) -> (r: Option<(Vec<char>, Vec<char>)>)
    ensures
        match r {
            Some((k, v)) => key_value(line@) == Some((k@, v@)),
            None => key_value(line@) is None,
        },
{
    let t = trim_of(line);
    let ts = t.as_slice();
    let n = ts.len();
    match find_sep(ts) {
        Some(i) => {
            assert(i + 3 <= n);
            Some((slice_of(ts, 0, i), slice_of(ts, i + 3, n)))
        },
        None => None,
    }
}

fn apply_field_of(acc: (LogseqSRSMeta, Option<FSRSMeta>), k: &[char], v: &[char]) -> (r: Option<
    (LogseqSRSMeta, Option<FSRSMeta>),
>)
    requires
        acc.0.wf(),
        acc.1 matches Some(f) ==> f.wf(),
    ensures
        r == apply_field(acc, k@, v@),
        r matches Some(a) ==> a.0.wf() && (a.1 matches Some(f) ==> f.wf()),
{
    let l = acc.0;
    if eq_lit(k, "card-last-interval") {
        match parse_decimal(v) {
            Some(d) => Some((LogseqSRSMeta { last_interval: d, ..l }, acc.1)),
            None => None,
        }
    } else if eq_lit(k, "card-repeats") {
        match parse_u8(v) {
            Some(n) => Some((LogseqSRSMeta { repeats: n, ..l }, acc.1)),
            None => None,
        }
    } else if eq_lit(k, "card-ease-factor") {
        match parse_decimal(v) {
            Some(d) => Some((LogseqSRSMeta { ease_factor: d, ..l }, acc.1)),
            None => None,
        }
    } else if eq_lit(k, "card-next-schedule") {
        let text = string_of(v);
        match parse_rfc3339(text.as_str()) {
            Some(t) => Some((LogseqSRSMeta { next_schedule: t, ..l }, acc.1)),
            None => None,
        }
    } else if eq_lit(k, "card-last-reviewed") {
        let text = string_of(v);
        match parse_rfc3339(text.as_str()) {
            Some(t) => Some((LogseqSRSMeta { last_reviewed: t, ..l }, acc.1)),
            None => None,
        }
    } else if eq_lit(k, "card-last-score") {
        match parse_u8(v) {
            Some(n) => Some((LogseqSRSMeta { last_score: n, ..l }, acc.1)),
            None => None,
        }
    } else if eq_lit(k, "card-fsrs-metadata") {
        match fsrs_from_json_text(v) {
            Some(f) => Some((l, Some(f))),
            None => None,
        }
    } else {
        Some(acc)
    }
}

proof fn lemma_read_fields_err(lines: Seq<Seq<char>>, i: int, k: Seq<char>)
    requires
        0 <= i <= lines.len(),
        read_fields(lines.subrange(0, i)) == Err::<(LogseqSRSMeta, Option<FSRSMeta>), Seq<char>>(k),
    ensures
        read_fields(lines) == Err::<(LogseqSRSMeta, Option<FSRSMeta>), Seq<char>>(k),
    decreases lines.len() - i,
{
    if i < lines.len() {
        assert(lines.subrange(0, i + 1).drop_last() == lines.subrange(0, i));
        lemma_read_fields_err(lines, i + 1, k);
    } else {
        assert(lines.subrange(0, i) == lines);
    }
}

impl SRSMeta {
    /// Reads the metadata that a prompt's lines hold (see `srs_meta_from_lines`).
    #[verifier::rlimit(50)]
    pub fn from_prompt_lines(lines: &Vec<Vec<char>>) -> (r: Result<SRSMeta, CodecError>)
        ensures
            match r {
                Ok(m) => srs_meta_from_lines(lines_view(lines@)) == Ok::<SRSMeta, Seq<char>>(m)
                    && m.wf(),
                Err(e) => srs_meta_from_lines(lines_view(lines@)) == Err::<SRSMeta, Seq<char>>(
                    e.key@,
                ),
            },
    {
        let mut acc: (LogseqSRSMeta, Option<FSRSMeta>) = (LogseqSRSMeta::default_meta(), None);
        let mut i: usize = 0;
        while i < lines.len()
            invariant
                i <= lines@.len(),
                read_fields(lines_view(lines@).subrange(0, i as int)) == Ok::<
                    (LogseqSRSMeta, Option<FSRSMeta>),
                    Seq<char>,
                >(acc),
                acc.0.wf(),
                acc.1 matches Some(f) ==> f.wf(),
            decreases lines.len() - i,
        {
            let ghost pre = lines_view(lines@).subrange(0, i as int);
            assert(lines_view(lines@).subrange(0, i + 1).drop_last() == pre);
            assert(lines_view(lines@).subrange(0, i + 1).last() == lines@[i as int]@);
            match split_key_value(lines[i].as_slice()) {
                None => {},
                Some((k, v)) => match apply_field_of(acc, k.as_slice(), v.as_slice()) {
                    Some(a) => {
                        acc = a;
                    },
                    None => {
                        proof {
                            lemma_read_fields_err(lines_view(lines@), i + 1, k@);
                        }
                        return Err(CodecError { key: string_of(k.as_slice()) });
                    },
                },
            }
            i = i + 1;
        }
        assert(lines_view(lines@).subrange(0, lines@.len() as int) == lines_view(lines@));
        match acc.1 {
            Some(f) => Ok(SRSMeta::from_fsrs(f)),
            None => Ok(SRSMeta::from_logseq(acc.0)),
        }
    }
}

} // verus!
