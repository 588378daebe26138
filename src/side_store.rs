//! The side store: scheduling states kept at the collection root, one JSON
//! record per line, keyed by serial number.
use vstd::prelude::*;
use crate::codec::{fsrs_from_json, fsrs_from_json_text, fsrs_json, fsrs_json_text, FSRSMeta};
use crate::num::{nat_text, parse_u64, parse_u64_spec, push_nat_text};
use crate::text::{chars_of, lines_view, push_all, push_lit, split_lines, split_lines_of, string_of};

verus! {

/// One record: a card's serial number and its scheduling state.
#[derive(Clone, Copy, Debug, PartialEq, Eq, Structural)]
pub struct SideRecord {
    pub serial_num: u64,
    pub fsrs_meta: FSRSMeta,
}

/// The records of the side store, in ascending serial-number order, one per
/// serial number.
pub struct SideStore {
    records: Vec<SideRecord>,
}

pub open spec fn ascending(rs: Seq<SideRecord>) -> bool {
    forall|i: int, j: int| 0 <= i < j < rs.len() ==> rs[i].serial_num < rs[j].serial_num
}

/// The state recorded for serial number `k`.
pub open spec fn lookup(rs: Seq<SideRecord>, k: u64) -> Option<FSRSMeta>
    decreases rs.len(),
{
    if rs.len() == 0 {
        None
    } else if rs[0].serial_num == k {
        Some(rs[0].fsrs_meta)
    } else {
        lookup(rs.drop_first(), k)
    }
}

/// One record as a line: `{"serial_number":N,"scheduling_state":{...}}`.
pub open spec fn record_text(r: SideRecord) -> Seq<char> {
    "{\"serial_number\":"@ + nat_text(r.serial_num as nat) + ",\"scheduling_state\":"@
        + fsrs_json_text(r.fsrs_meta) + "}"@
}

/// The store's file: each record's line, ended by a newline, in order.
pub open spec fn store_text(rs: Seq<SideRecord>) -> Seq<char>
    decreases rs.len(),
{
    if rs.len() == 0 {
        seq![]
    } else {
        store_text(rs.drop_last()) + record_text(rs.last()) + seq!['\n']
    }
}

/// The record a line holds: `Some(None)` for a blank line, `None` where the
/// line is not a record.
pub open spec fn record_of_line(l: Seq<char>) -> Option<Option<SideRecord>> {
    if l.len() == 0 {
        Some(None)
    } else {
        match crate::codec::json_members(l) {
            Some(ms) => match (
                crate::codec::member_value(ms, "serial_number"@),
                crate::codec::member_value(ms, "scheduling_state"@),
            ) {
                (Some(n), Some(st)) => match (parse_u64_spec(n), fsrs_from_json(st)) {
                    (Some(k), Some(f)) => Some(Some(SideRecord { serial_num: k, fsrs_meta: f })),
                    _ => None,
                },
                _ => None,
            },
            None => None,
        }
    }
}

/// The state that the last record for `k` among `ls` holds.
pub open spec fn last_record(ls: Seq<Seq<char>>, k: u64) -> Option<FSRSMeta>
    decreases ls.len(),
{
    if ls.len() == 0 {
        None
    } else {
        match record_of_line(ls.last()) {
            Some(Some(r)) => if r.serial_num == k {
                Some(r.fsrs_meta)
            } else {
                last_record(ls.drop_last(), k)
            },
            _ => last_record(ls.drop_last(), k),
        }
    }
}

proof fn lemma_lookup_absent(rs: Seq<SideRecord>, k: u64)
    requires
        forall|i: int| 0 <= i < rs.len() ==> #[trigger] rs[i].serial_num != k,
    ensures
        lookup(rs, k) is None,
    decreases rs.len(),
{
    if rs.len() > 0 {
        assert forall|i: int| 0 <= i < rs.drop_first().len() implies #[trigger] rs.drop_first()[i].serial_num
            != k by {
            assert(rs.drop_first()[i] == rs[i + 1]);
        }
        lemma_lookup_absent(rs.drop_first(), k);
    }
}

proof fn lemma_lookup_at(rs: Seq<SideRecord>, i: int)
    requires
        ascending(rs),
        0 <= i < rs.len(),
    ensures
        lookup(rs, rs[i].serial_num) == Some(rs[i].fsrs_meta),
    decreases i,
{
    if i > 0 {
        assert(ascending(rs.drop_first()));
        assert(rs.drop_first()[i - 1] == rs[i]);
        lemma_lookup_at(rs.drop_first(), i - 1);
    }
}

impl SideStore {
    pub open spec fn wf(&self) -> bool {
        ascending(self.records())
    }

    /// The records, in order.
    pub closed spec fn records(&self) -> Seq<SideRecord> {
        self.records@
    }

    pub open spec fn get_spec(&self, k: u64) -> Option<FSRSMeta> {
        lookup(self.records(), k)
    }

    /// Every recorded state is well formed.
    pub open spec fn states_wf(&self) -> bool {
        forall|k: u64| #[trigger] self.get_spec(k) is Some ==> self.get_spec(k)->Some_0.wf()
    }

    /// An empty store: what an absent file holds.
    pub fn new() -> (r: SideStore)
        ensures
            r.wf(),
            r.states_wf(),
            r.records().len() == 0,
            forall|k: u64| r.get_spec(k) is None,
    {
        SideStore { records: Vec::new() }
    }

    pub fn len(&self) -> (r: usize)
        ensures
            r == self.records().len(),
    {
        self.records.len()
    }

    /// The state recorded for serial number `k`.
    pub fn get(&self, k: u64) -> (r: Option<FSRSMeta>)
        requires
            self.wf(),
        ensures
            r == self.get_spec(k),
    {
        let mut i: usize = 0;
        while i < self.records.len()
            invariant
                self.wf(),
                i <= self.records@.len(),
                forall|j: int| 0 <= j < i ==> #[trigger] self.records@[j].serial_num != k,
            decreases self.records.len() - i,
        {
            if self.records[i].serial_num == k {
                proof {
                    lemma_lookup_at(self.records@, i as int);
                }
                return Some(self.records[i].fsrs_meta);
            }
            i = i + 1;
        }
        proof {
            lemma_lookup_absent(self.records@, k);
        }
        None
    }

    /// Records `f` for serial number `k`, replacing what was there.
    #[verifier::rlimit(50)]
    pub fn insert(&mut self, k: u64, f: FSRSMeta)
        requires
            old(self).wf(),
        ensures
            final(self).wf(),
            final(self).get_spec(k) == Some(f),
            forall|j: u64| j != k ==> final(self).get_spec(j) == old(self).get_spec(j),
    {
        let ghost old_rs = self.records@;
        let mut i: usize = 0;
        while i < self.records.len() && self.records[i].serial_num < k
            invariant
                self.records@ == old_rs,
                ascending(old_rs),
                i <= old_rs.len(),
                forall|j: int| 0 <= j < i ==> #[trigger] old_rs[j].serial_num < k,
            decreases self.records.len() - i,
        {
            i = i + 1;
        }
        let rec = SideRecord { serial_num: k, fsrs_meta: f };
        if i < self.records.len() && self.records[i].serial_num == k {
            self.records.set(i, rec);
        } else {
            self.records.insert(i, rec);
        }
        let ghost rs = self.records@;
        assert(ascending(rs));
        assert forall|j: u64| j != k implies lookup(rs, j) == lookup(old_rs, j) by {
            if exists|t: int| 0 <= t < old_rs.len() && old_rs[t].serial_num == j {
                let t = choose|t: int| 0 <= t < old_rs.len() && old_rs[t].serial_num == j;
                lemma_lookup_at(old_rs, t);
                let t2 = if t < i { t } else if rs.len() == old_rs.len() { t } else { t + 1 };
                assert(rs[t2] == old_rs[t]);
                lemma_lookup_at(rs, t2);
            } else {
                lemma_lookup_absent(old_rs, j);
                assert forall|t: int| 0 <= t < rs.len() implies #[trigger] rs[t].serial_num != j by {
                    if rs[t].serial_num != k {
                        let t0 = if t < i { t } else if rs.len() == old_rs.len() { t } else { t - 1 };
                        assert(rs[t] == old_rs[t0]);
                    }
                }
                lemma_lookup_absent(rs, j);
            }
        }
        proof {
            lemma_lookup_at(rs, i as int);
        }
    }

    /// The store's file text (see `store_text`).
    pub fn to_text(&self) -> (r: String)
        requires
            self.wf(),
            self.states_wf(),
        ensures
            r@ == store_text(self.records()),
    {
        assert forall|j: int| 0 <= j < self.records@.len() implies (#[trigger] self.records@[j]).fsrs_meta.wf() by {
            lemma_lookup_at(self.records@, j);
            assert(self.get_spec(self.records@[j].serial_num) is Some);
        }
        let mut out: Vec<char> = Vec::new();
        let mut i: usize = 0;
        while i < self.records.len()
            invariant
                i <= self.records@.len(),
                forall|j: int| 0 <= j < self.records@.len() ==> (#[trigger] self.records@[j]).fsrs_meta.wf(),
                out@ == store_text(self.records@.subrange(0, i as int)),
            decreases self.records.len() - i,
        {
            let r = self.records[i];
            push_lit(&mut out, "{\"serial_number\":");
            push_nat_text(&mut out, r.serial_num);
            push_lit(&mut out, ",\"scheduling_state\":");
            let j = fsrs_json(&r.fsrs_meta);
            push_all(&mut out, j.as_slice());
            push_lit(&mut out, "}");
            out.push('\n');
            assert(self.records@.subrange(0, i + 1).drop_last() == self.records@.subrange(0, i as int));
            assert(out@ =~= store_text(self.records@.subrange(0, i + 1)));
            i = i + 1;
        }
        assert(self.records@.subrange(0, self.records@.len() as int) == self.records@);
        string_of(out.as_slice())
    }
}

fn record_from_line(l: &[char]) -> (r: Option<Option<SideRecord>>)
    ensures
        r == record_of_line(l@),
        r matches Some(Some(rec)) ==> rec.fsrs_meta.wf(),
{
    if l.len() == 0 {
        return Some(None);
    }
    let text = string_of(l);
    let ms = match crate::codec::json_object_members(text.as_str()) {
        Some(ms) => ms,
        None => return None,
    };
    let n = match crate::codec::find_member(&ms, "serial_number") {
        Some(n) => n,
        None => return None,
    };
    let st = match crate::codec::find_member(&ms, "scheduling_state") {
        Some(st) => st,
        None => return None,
    };
    match (parse_u64(n.as_slice()), fsrs_from_json_text(st.as_slice())) {
        (Some(k), Some(f)) => Some(Some(SideRecord { serial_num: k, fsrs_meta: f })),
        _ => None,
    }
}

impl SideStore {
    /// Reads the store's file: each line a record or blank; a later record for
    /// a serial number replaces an earlier one. The first line that is
    /// neither is reported with its 1-based number.
    #[verifier::rlimit(50)]
    pub fn from_text(text: &str) -> (r: Result<SideStore, usize>)
        ensures
            match r {
                Ok(s) => s.wf() && s.states_wf() && forall|k: u64|
                    #[trigger] s.get_spec(k) == last_record(split_lines(text@), k),
                Err(n) => 1 <= n <= split_lines(text@).len() && record_of_line(
                    split_lines(text@)[n - 1],
                ) is None && forall|j: int|
                    0 <= j < n - 1 ==> #[trigger] record_of_line(split_lines(text@)[j]) is Some,
            },
    {
        let chars = chars_of(text);
        let lines = split_lines_of(chars.as_slice());
        let ghost ls = lines_view(lines@);
        assert(ls == split_lines(text@));
        let mut store = SideStore::new();
        let mut i: usize = 0;
        while i < lines.len()
            invariant
                i <= lines@.len(),
                ls == lines_view(lines@),
                ls == split_lines(text@),
                store.wf(),
                store.states_wf(),
                forall|k: u64| #[trigger] store.get_spec(k) == last_record(ls.subrange(0, i as int), k),
                forall|j: int| 0 <= j < i ==> #[trigger] record_of_line(ls[j]) is Some,
            decreases lines.len() - i,
        {
            assert(ls.subrange(0, i + 1).drop_last() == ls.subrange(0, i as int));
            assert(ls.subrange(0, i + 1).last() == ls[i as int]);
            assert(ls[i as int] == lines@[i as int]@);
            match record_from_line(lines[i].as_slice()) {
                None => {
                    return Err(i + 1);
                },
                Some(None) => {},
                Some(Some(rec)) => {
                    store.insert(rec.serial_num, rec.fsrs_meta);
                },
            }
            i = i + 1;
        }
        assert(ls.subrange(0, lines@.len() as int) == ls);
        Ok(store)
    }
}

} // verus!
