//! Invite analytics: the store of invite snapshots and their deltas.
//!
//! The store maps each invite code to its snapshots in the order they were
//! recorded. Reading it from disk and writing it back is left to the caller.
use vstd::prelude::*;

use crate::invite::InviteInfo;
use crate::text::{decimal, decimal_string, lemma_deep_view_push, opt_text, opt_view, push_decimal};

verus! {

/// One recorded invite snapshot.
#[derive(Debug, PartialEq)]
pub struct TrackRecord {
    pub timestamp: String,
    pub invite_code: String,
    pub guild_id: String,
    pub guild_name: String,
    pub approx_members: u64,
    pub approx_online: u64,
}

impl TrackRecord {
    /// A copy of this record.
    pub fn duplicate(&self) -> (r: TrackRecord)
        ensures
            r == *self,
    {
        TrackRecord {
            timestamp: self.timestamp.clone(),
            invite_code: self.invite_code.clone(),
            guild_id: self.guild_id.clone(),
            guild_name: self.guild_name.clone(),
            approx_members: self.approx_members,
            approx_online: self.approx_online,
        }
    }
}

/// Copies of `records`.
pub fn duplicate_all(records: &Vec<TrackRecord>) -> (r: Vec<TrackRecord>)
    ensures
        r@ == records@,
{
    let mut r: Vec<TrackRecord> = Vec::new();
    let mut i: usize = 0;
    while i < records.len()
        invariant
            i <= records.len(),
            r@ == records@.take(i as int),
        decreases records.len() - i,
    {
        r.push(records[i].duplicate());
        assert(records@.take(i + 1) =~= records@.take(i as int).push(records@[i as int]));
        i += 1;
    }
    assert(records@.take(records.len() as int) =~= records@);
    r
}

/// The map that a list of (code, history) entries stands for; a later
/// entry for the same code would override an earlier one.
pub open spec fn map_of(entries: Seq<(Seq<char>, Seq<TrackRecord>)>) -> Map<
    Seq<char>,
    Seq<TrackRecord>,
>
    decreases entries.len(),
{
    if entries.len() == 0 {
        Map::empty()
    } else {
        map_of(entries.drop_last()).insert(entries.last().0, entries.last().1)
    }
}

pub open spec fn distinct_keys(entries: Seq<(Seq<char>, Seq<TrackRecord>)>) -> bool {
    forall|i: int, j: int|
        0 <= i < entries.len() && 0 <= j < entries.len() && i != j ==> #[trigger] entries[i].0
            != #[trigger] entries[j].0
}

/// The recorded history of `code` in `store`: empty when nothing was recorded.
pub open spec fn history(store: Map<Seq<char>, Seq<TrackRecord>>, code: Seq<char>) -> Seq<TrackRecord> {
    if store.contains_key(code) {
        store[code]
    } else {
        Seq::empty()
    }
}

/// `store` after recording `rec`: appended to the history of its code.
pub open spec fn recorded(store: Map<Seq<char>, Seq<TrackRecord>>, rec: TrackRecord) -> Map<
    Seq<char>,
    Seq<TrackRecord>,
> {
    store.insert(rec.invite_code@, history(store, rec.invite_code@).push(rec))
}

/// A store built from entries with distinct codes holds exactly those codes,
/// each with the history of its own entry.
pub proof fn lemma_map_of_keys(entries: Seq<(Seq<char>, Seq<TrackRecord>)>, k: Seq<char>)
    requires
        distinct_keys(entries),
    ensures
        map_of(entries).contains_key(k) <==> exists|i: int|
            0 <= i < entries.len() && #[trigger] entries[i].0 == k,
        forall|i: int| 0 <= i < entries.len() && #[trigger] entries[i].0 == k ==> map_of(
            entries,
        )[k] == entries[i].1,
    decreases entries.len(),
{
    if entries.len() > 0 {
        let t = entries.drop_last();
        assert forall|i: int, j: int|
            0 <= i < t.len() && 0 <= j < t.len() && i != j implies #[trigger] t[i].0
            != #[trigger] t[j].0 by {
            assert(t[i] == entries[i] && t[j] == entries[j]);
        }
        lemma_map_of_keys(t, k);
        if map_of(t).contains_key(k) {
            let i = choose|i: int| 0 <= i < t.len() && #[trigger] t[i].0 == k;
            assert(entries[i].0 == k);
        }
        if exists|i: int| 0 <= i < entries.len() && #[trigger] entries[i].0 == k {
            let i = choose|i: int| 0 <= i < entries.len() && #[trigger] entries[i].0 == k;
            if i < entries.len() - 1 {
                assert(t[i].0 == k);
            }
        }
        assert forall|i: int| 0 <= i < entries.len() && #[trigger] entries[i].0 == k implies map_of(
            entries,
        )[k] == entries[i].1 by {
            if i < entries.len() - 1 {
                assert(t[i] == entries[i]);
                assert(entries[entries.len() - 1].0 != k);
            }
        }
    }
}

proof fn lemma_map_of_update(
    entries: Seq<(Seq<char>, Seq<TrackRecord>)>,
    i: int,
    v: Seq<TrackRecord>,
)
    requires
        distinct_keys(entries),
        0 <= i < entries.len(),
    ensures
        distinct_keys(entries.update(i, (entries[i].0, v))),
        map_of(entries.update(i, (entries[i].0, v))) == map_of(entries).insert(entries[i].0, v),
    decreases entries.len(),
{
    let u = entries.update(i, (entries[i].0, v));
    assert forall|a: int, b: int|
        0 <= a < u.len() && 0 <= b < u.len() && a != b implies #[trigger] u[a].0
        != #[trigger] u[b].0 by {
        assert(u[a].0 == entries[a].0 && u[b].0 == entries[b].0);
    }
    let t = entries.drop_last();
    assert forall|a: int, b: int|
        0 <= a < t.len() && 0 <= b < t.len() && a != b implies #[trigger] t[a].0
        != #[trigger] t[b].0 by {
        assert(t[a] == entries[a] && t[b] == entries[b]);
    }
    if i == entries.len() - 1 {
        assert(u.drop_last() =~= t);
        assert(map_of(u) =~= map_of(entries).insert(entries[i].0, v));
    } else {
        lemma_map_of_update(t, i, v);
        assert(u.drop_last() =~= t.update(i, (t[i].0, v)));
        assert(entries.last().0 != entries[i].0);
        assert(map_of(u) =~= map_of(entries).insert(entries[i].0, v));
    }
}

/// The (code, history) views of a list of entries.
pub open spec fn view_entries(v: Seq<(String, Vec<TrackRecord>)>) -> Seq<(Seq<char>, Seq<TrackRecord>)> {
    v.map_values(|e: (String, Vec<TrackRecord>)| (e.0@, e.1@))
}

/// The local tracking store: invite code -> chronologically ordered records.
pub struct TrackStore {
    entries: Vec<(String, Vec<TrackRecord>)>,
}

impl View for TrackStore {
    type V = Map<Seq<char>, Seq<TrackRecord>>;

    /// The store as a map from invite code to history.
    closed spec fn view(&self) -> Map<Seq<char>, Seq<TrackRecord>> {
        map_of(self.entries_view())
    }
}

impl TrackStore {
    pub closed spec fn entries_view(&self) -> Seq<(Seq<char>, Seq<TrackRecord>)> {
        view_entries(self.entries@)
    }

    #[verifier::type_invariant]
    closed spec fn keys_distinct(&self) -> bool {
        distinct_keys(self.entries_view())
    }


    /// An empty store.
    pub fn new() -> (s: TrackStore)
        ensures
            s@ == Map::<Seq<char>, Seq<TrackRecord>>::empty(),
    {
        let s = TrackStore { entries: Vec::new() };
        assert(s.entries_view() =~= Seq::<(Seq<char>, Seq<TrackRecord>)>::empty());
        s
    }

    /// The position of `code` among the entries.
    fn find(&self, code: &String) -> (r: Option<usize>)
        ensures
            match r {
                Some(i) => i < self.entries@.len() && self.entries_view()[i as int].0 == code@,
                None => forall|i: int|
                    0 <= i < self.entries@.len() ==> #[trigger] self.entries_view()[i].0 != code@,
            },
    {
        let mut i: usize = 0;
        while i < self.entries.len()
            invariant
                i <= self.entries@.len(),
                forall|j: int| 0 <= j < i ==> #[trigger] self.entries_view()[j].0 != code@,
            decreases self.entries@.len() - i,
        {
            if self.entries[i].0 == *code {
                return Some(i);
            }
            i += 1;
        }
        None
    }

    /// Replace the history of `code`.
    pub fn set_history(&mut self, code: String, records: Vec<TrackRecord>)
        ensures
            final(self)@ == old(self)@.insert(code@, records@),
    {
        proof {
            use_type_invariant(&*self);
        }
        let ghost before = self.entries_view();
        match self.find(&code) {
            Some(i) => {
                proof {
                    lemma_map_of_update(before, i as int, records@);
                }
                let mut entries: Vec<(String, Vec<TrackRecord>)> = Vec::new();
                std::mem::swap(&mut entries, &mut self.entries);
                let ghost rv = records@;
                entries.set(i, (code, records));
                assert(view_entries(entries@)
                    =~= before.update(i as int, (before[i as int].0, rv)));
                self.entries = entries;
            },
            None => {
                let ghost cv = code@;
                let ghost rv = records@;
                let mut entries: Vec<(String, Vec<TrackRecord>)> = Vec::new();
                std::mem::swap(&mut entries, &mut self.entries);
                entries.push((code, records));
                assert(view_entries(entries@)
                    =~= before.push((cv, rv)));
                assert(view_entries(entries@).drop_last()
                    =~= before);
                self.entries = entries;
            },
        }
    }

    /// All (code, history) entries, each code once.
    pub fn to_entries(&self) -> (r: Vec<(String, Vec<TrackRecord>)>)
        ensures
            distinct_keys(view_entries(r@)),
            map_of(view_entries(r@)) == self@,
    {
        proof {
            use_type_invariant(self);
        }
        let mut r: Vec<(String, Vec<TrackRecord>)> = Vec::new();
        let mut i: usize = 0;
        while i < self.entries.len()
            invariant
                i <= self.entries@.len(),
                view_entries(r@) == self.entries_view().take(
                    i as int,
                ),
            decreases self.entries@.len() - i,
        {
            let ghost before = r@;
            assert(view_entries(before).len() == before.len());
            assert(self.entries_view().len() == self.entries@.len());
            assert(before.len() == i);
            let entry = (self.entries[i].0.clone(), duplicate_all(&self.entries[i].1));
            assert((entry.0@, entry.1@) == self.entries_view()[i as int]);
            r.push(entry);
            assert(r@ =~= before.push(entry));
            assert forall|j: int| 0 <= j < i implies #[trigger] view_entries(r@)[j] == self.entries_view()[j] by {
                assert(r@[j] == before[j]);
                assert(view_entries(before)[j]
                    == self.entries_view().take(i as int)[j]);
            }
            assert(view_entries(r@) =~= self.entries_view().take(
                i + 1,
            ));
            i += 1;
        }
        assert(self.entries_view().take(self.entries@.len() as int) =~= self.entries_view());
        r
    }

    /// A store holding the given (code, history) entries; a later entry for
    /// a code replaces an earlier one.
    pub fn from_entries(entries: &Vec<(String, Vec<TrackRecord>)>) -> (s: TrackStore)
        ensures
            s@ == map_of(view_entries(entries@)),
    {
        let ghost all = view_entries(entries@);
        let mut s = TrackStore::new();
        let mut i: usize = 0;
        assert(all.take(0) =~= Seq::<(Seq<char>, Seq<TrackRecord>)>::empty());
        while i < entries.len()
            invariant
                i <= entries@.len(),
                all == view_entries(entries@),
                s@ == map_of(all.take(i as int)),
            decreases entries@.len() - i,
        {
            let code = entries[i].0.clone();
            let records = duplicate_all(&entries[i].1);
            assert(all[i as int] == (code@, records@));
            assert(all.take(i + 1).drop_last() =~= all.take(i as int));
            s.set_history(code, records);
            i += 1;
        }
        assert(all.take(entries@.len() as int) =~= all);
        s
    }
}

/// Record one invite snapshot in `store`: it is appended to the history of
/// its code.
pub fn record(store: &mut TrackStore, rec: TrackRecord)
    ensures
        final(store)@ == recorded(old(store)@, rec),
{
    proof {
        use_type_invariant(&*store);
    }
    let ghost before = store.entries_view();
    let mut records = match store.find(&rec.invite_code) {
        Some(i) => {
            proof {
                lemma_map_of_keys(before, rec.invite_code@);
            }
            duplicate_all(&store.entries[i].1)
        },
        None => {
            proof {
                lemma_map_of_keys(before, rec.invite_code@);
            }
            Vec::new()
        },
    };
    assert(records@ == history(store@, rec.invite_code@));
    let code = rec.invite_code.clone();
    records.push(rec);
    store.set_history(code, records);
}

/// The recorded history of one invite code in `store` (empty when never
/// recorded).
pub fn load_history(store: &TrackStore, code: &str) -> (r: Vec<TrackRecord>)
    ensures
        r@ == history(store@, code@),
{
    proof {
        use_type_invariant(store);
    }
    let key = String::from_str(code);
    proof {
        lemma_map_of_keys(store.entries_view(), code@);
    }
    match store.find(&key) {
        Some(i) => duplicate_all(&store.entries[i].1),
        None => Vec::new(),
    }
}

/// Reading a history back after recording a snapshot gives the earlier
/// history with the snapshot appended; other codes' histories are unchanged.
pub proof fn lemma_history_after_record(
    store: Map<Seq<char>, Seq<TrackRecord>>,
    rec: TrackRecord,
    code: Seq<char>,
)
    ensures
        history(recorded(store, rec), code) == if code == rec.invite_code@ {
            history(store, code).push(rec)
        } else {
            history(store, code)
        },
{
}

// ---------------------------------------------------------------------------
// Deltas
// ---------------------------------------------------------------------------

/// The change in the two counts between two records.
#[derive(Debug, Clone, Copy, PartialEq, Eq, Structural)]
pub struct Delta {
    pub members_abs: i64,
    pub online_abs: i64,
}

/// The signed change from `prev` to `next`, with both counts read as `i64`
/// (wrapping, as an `as` cast does).
pub open spec fn count_change(prev: u64, next: u64) -> int {
    (next as i64) - (prev as i64)
}

/// Whether the changes in both counts fit `i64`.
pub open spec fn delta_representable(prev: TrackRecord, next: TrackRecord) -> bool {
    &&& i64::MIN <= count_change(prev.approx_members, next.approx_members) <= i64::MAX
    &&& i64::MIN <= count_change(prev.approx_online, next.approx_online) <= i64::MAX
}

/// Delta between two records.
pub fn delta(prev: &TrackRecord, next: &TrackRecord) -> (d: Delta)
    requires
        delta_representable(*prev, *next),
    ensures
        d.members_abs == count_change(prev.approx_members, next.approx_members),
        d.online_abs == count_change(prev.approx_online, next.approx_online),
{
    Delta {
        members_abs: next.approx_members as i64 - prev.approx_members as i64,
        online_abs: next.approx_online as i64 - prev.approx_online as i64,
    }
}

/// When both counts fit `i64`, the change is the plain difference.
pub proof fn lemma_small_counts_change(prev: u64, next: u64)
    requires
        prev <= i64::MAX,
        next <= i64::MAX,
    ensures
        count_change(prev, next) == next - prev,
{
}

/// One line of an invite's history: the snapshot and its change from the
/// snapshot before it (`None` for the first one).
pub struct HistoryRow {
    pub timestamp: String,
    pub members: u64,
    pub online: u64,
    pub change: Option<Delta>,
}

/// Whether every change that a history table shows fits `i64`: between
/// neighbouring snapshots, and from the first to the last.
pub open spec fn changes_fit(records: Seq<TrackRecord>) -> bool {
    &&& forall|i: int|
        0 < i < records.len() ==> delta_representable(records[i - 1], #[trigger] records[i])
    &&& records.len() > 0 ==> delta_representable(records[0], records.last())
}

/// The lines of a history table and, for a non-empty history, the overall
/// change from the first snapshot to the last.
pub fn history_rows(records: &Vec<TrackRecord>) -> (r: (Vec<HistoryRow>, Option<Delta>))
    requires
        changes_fit(records@),
    ensures
        r.0@.len() == records@.len(),
        forall|i: int|
            0 <= i < records@.len() ==> {
                let row = #[trigger] r.0@[i];
                &&& row.timestamp == records@[i].timestamp
                &&& row.members == records@[i].approx_members
                &&& row.online == records@[i].approx_online
                &&& i == 0 ==> row.change is None
                &&& i > 0 ==> (row.change matches Some(d) && d.members_abs == count_change(
                    records@[i - 1].approx_members,
                    records@[i].approx_members,
                ) && d.online_abs == count_change(
                    records@[i - 1].approx_online,
                    records@[i].approx_online,
                ))
            },
        records@.len() == 0 ==> r.1 is None,
        records@.len() > 0 ==> (r.1 matches Some(d) && d.members_abs == count_change(
            records@[0].approx_members,
            records@.last().approx_members,
        ) && d.online_abs == count_change(records@[0].approx_online, records@.last().approx_online)),
{
    let mut rows: Vec<HistoryRow> = Vec::new();
    let mut i: usize = 0;
    while i < records.len()
        invariant
            i <= records@.len(),
            changes_fit(records@),
            rows@.len() == i,
            forall|j: int|
                0 <= j < i ==> {
                    let row = #[trigger] rows@[j];
                    &&& row.timestamp == records@[j].timestamp
                    &&& row.members == records@[j].approx_members
                    &&& row.online == records@[j].approx_online
                    &&& j == 0 ==> row.change is None
                    &&& j > 0 ==> (row.change matches Some(d) && d.members_abs == count_change(
                        records@[j - 1].approx_members,
                        records@[j].approx_members,
                    ) && d.online_abs == count_change(
                        records@[j - 1].approx_online,
                        records@[j].approx_online,
                    ))
                },
        decreases records@.len() - i,
    {
        let rec = &records[i];
        let change = if i == 0 {
            None
        } else {
            assert(delta_representable(records@[i - 1], records@[i as int]));
            Some(delta(&records[i - 1], rec))
        };
        rows.push(
            HistoryRow {
                timestamp: rec.timestamp.clone(),
                members: rec.approx_members,
                online: rec.approx_online,
                change,
            },
        );
        i += 1;
    }
    if records.len() == 0 {
        (rows, None)
    } else {
        let last = records.len() - 1;
        let overall = delta(&records[0], &records[last]);
        (rows, Some(overall))
    }
}

// ---------------------------------------------------------------------------
// The history table
// ---------------------------------------------------------------------------

/// `n` in decimal, with a leading `-` when it is negative.
pub open spec fn signed_decimal(n: int) -> Seq<char> {
    if n < 0 {
        "-"@ + decimal((-n) as nat)
    } else {
        decimal(n as nat)
    }
}

/// How a change is shown: `▲ +n (+p%)` for a rise, `▼ -n (p%)` for a fall
/// and `= 0 (p%)` for none, where `pct` is the percentage already written
/// out (one decimal).
pub open spec fn delta_text(abs: int, pct: Seq<char>) -> Seq<char> {
    if abs > 0 {
        "▲ +"@ + decimal(abs as nat) + " (+"@ + pct + "%)"@
    } else if abs < 0 {
        "▼ "@ + signed_decimal(abs) + " ("@ + pct + "%)"@
    } else {
        "= 0 ("@ + pct + "%)"@
    }
}

fn push_signed(s: &mut String, n: i64)
    ensures
        final(s)@ == old(s)@ + signed_decimal(n as int),
{
    if n < 0 {
        s.append("-");
        let m: u64 = (0i128 - n as i128) as u64;
        push_decimal(s, m);
    } else {
        push_decimal(s, n as u64);
    }
}

/// Format a change for the console table; `pct` is its percentage written
/// with one decimal.
pub fn format_delta(abs: i64, pct: &str) -> (s: String)
    ensures
        s@ == delta_text(abs as int, pct@),
{
    let mut s: String;
    if abs > 0 {
        s = String::from_str("▲ +");
        push_decimal(&mut s, abs as u64);
        s.append(" (+");
    } else if abs < 0 {
        s = String::from_str("▼ ");
        push_signed(&mut s, abs);
        s.append(" (");
    } else {
        s = String::from_str("= 0 (");
    }
    s.append(pct);
    s.append("%)");
    s
}

/// The percentages shown beside the two changes of a table line, each
/// written with one decimal.
pub struct PctText {
    pub members: String,
    pub online: String,
}

/// The one line of the table of an invite with no recorded snapshots.
pub open spec fn placeholder_line() -> Seq<Seq<char>> {
    seq![
        "(no records yet — run `discord-recon invite <code> --track` to start tracking)"@,
        Seq::empty(),
        Seq::empty(),
        Seq::empty(),
        Seq::empty(),
    ]
}

/// The table line of snapshot `i`: its time, its counts, and the changes
/// from the snapshot before (`(first seen)` for the first one), shown with
/// the percentages of `pcts[i]`.
pub open spec fn history_line(records: Seq<TrackRecord>, pcts: Seq<PctText>, i: int) -> Seq<
    Seq<char>,
> {
    let r = records[i];
    seq![
        r.timestamp@,
        decimal(r.approx_members as nat),
        decimal(r.approx_online as nat),
        if i == 0 {
            "(first seen)"@
        } else {
            delta_text(
                count_change(records[i - 1].approx_members, r.approx_members),
                pcts[i].members@,
            )
        },
        if i == 0 {
            "(first seen)"@
        } else {
            delta_text(count_change(records[i - 1].approx_online, r.approx_online), pcts[i].online@)
        },
    ]
}

/// The summary line: the counts of the first and last snapshots and the
/// change between them.
pub open spec fn overall_line(records: Seq<TrackRecord>, overall: PctText) -> Seq<Seq<char>> {
    let first = records[0];
    let last = records.last();
    seq![
        "OVERALL"@,
        decimal(first.approx_members as nat) + " → "@ + decimal(last.approx_members as nat),
        decimal(first.approx_online as nat) + " → "@ + decimal(last.approx_online as nat),
        delta_text(count_change(first.approx_members, last.approx_members), overall.members@),
        delta_text(count_change(first.approx_online, last.approx_online), overall.online@),
    ]
}

/// The history table: the placeholder line for an empty history, else one
/// line per snapshot followed by the summary line.
pub open spec fn history_table_of(
    records: Seq<TrackRecord>,
    pcts: Seq<PctText>,
    overall: PctText,
) -> Seq<Seq<Seq<char>>> {
    if records.len() == 0 {
        seq![placeholder_line()]
    } else {
        Seq::new(records.len(), |i: int| history_line(records, pcts, i)).push(
            overall_line(records, overall),
        )
    }
}

fn transition(s: &str, t: u64) -> (r: String)
    ensures
        r@ == s@ + " → "@ + decimal(t as nat),
{
    let mut r = String::from_str(s);
    r.append(" → ");
    push_decimal(&mut r, t);
    r
}

/// The rows of the history table of `records`; `pcts[i]` holds the
/// percentages of the changes into snapshot `i` (the first is not shown)
/// and `overall` those of the change from the first snapshot to the last.
pub fn history_table(records: &Vec<TrackRecord>, pcts: &Vec<PctText>, overall: &PctText) -> (r:
    Vec<Vec<String>>)
    requires
        changes_fit(records@),
        pcts@.len() == records@.len(),
    ensures
        r.deep_view() == history_table_of(records@, pcts@, *overall),
{
    if records.len() == 0 {
        let line = vec![
            String::from_str(
                "(no records yet — run `discord-recon invite <code> --track` to start tracking)",
            ),
            String::new(),
            String::new(),
            String::new(),
            String::new(),
        ];
        assert(line.deep_view() =~= placeholder_line());
        let r = vec![line];
        assert(r.deep_view() =~= history_table_of(records@, pcts@, *overall));
        return r;
    }
    let mut rows: Vec<Vec<String>> = Vec::new();
    let mut i: usize = 0;
    while i < records.len()
        invariant
            i <= records@.len(),
            changes_fit(records@),
            pcts@.len() == records@.len(),
            rows.deep_view() =~= Seq::new(i as nat, |j: int| history_line(records@, pcts@, j)),
        decreases records@.len() - i,
    {
        let rec = &records[i];
        let (dm, dn) = if i == 0 {
            (String::from_str("(first seen)"), String::from_str("(first seen)"))
        } else {
            assert(delta_representable(records@[i - 1], records@[i as int]));
            let d = delta(&records[i - 1], rec);
            (
                format_delta(d.members_abs, pcts[i].members.as_str()),
                format_delta(d.online_abs, pcts[i].online.as_str()),
            )
        };
        let line = vec![
            rec.timestamp.clone(),
            decimal_string(rec.approx_members),
            decimal_string(rec.approx_online),
            dm,
            dn,
        ];
        assert(line.deep_view() =~= history_line(records@, pcts@, i as int));
        let ghost before = rows;
        let ghost gl = line;
        rows.push(line);
        proof {
            lemma_deep_view_push(before, rows, gl);
        }
        assert(rows.deep_view() =~= Seq::new(
            (i + 1) as nat,
            |j: int| history_line(records@, pcts@, j),
        ));
        i += 1;
    }
    let first = &records[0];
    let last = &records[records.len() - 1];
    let d = delta(first, last);
    let line = vec![
        String::from_str("OVERALL"),
        transition(decimal_string(first.approx_members).as_str(), last.approx_members),
        transition(decimal_string(first.approx_online).as_str(), last.approx_online),
        format_delta(d.members_abs, overall.members.as_str()),
        format_delta(d.online_abs, overall.online.as_str()),
    ];
    assert(line.deep_view() =~= overall_line(records@, *overall));
    let ghost before = rows;
    let ghost gl = line;
    rows.push(line);
    proof {
        lemma_deep_view_push(before, rows, gl);
    }
    assert(rows.deep_view() =~= history_table_of(records@, pcts@, *overall));
    rows
}

/// A rise is shown as `▲ +n`, a fall as `▼ -n` and no change as `= 0`,
/// each followed by the percentage in brackets (with a `+` for a rise)
/// and `%`.
pub proof fn lemma_delta_text_shape(abs: int, pct: Seq<char>)
    ensures
        abs > 0 ==> delta_text(abs, pct) == "▲ +"@ + decimal(abs as nat) + " (+"@ + pct + "%)"@,
        abs < 0 ==> delta_text(abs, pct) == "▼ -"@ + decimal((-abs) as nat) + " ("@ + pct + "%)"@,
        abs == 0 ==> delta_text(abs, pct) == "= 0 ("@ + pct + "%)"@,
{
    reveal_strlit("▼ ");
    reveal_strlit("-");
    reveal_strlit("▼ -");
    assert("▼ "@ + "-"@ =~= "▼ -"@);
    if abs < 0 {
        assert("▼ "@ + ("-"@ + decimal((-abs) as nat)) + " ("@ + pct + "%)"@ =~= "▼ -"@ + decimal(
            (-abs) as nat,
        ) + " ("@ + pct + "%)"@);
    }
}

/// The history table of an empty history is the one placeholder line.
/// Otherwise it has one line per snapshot, in order, then the summary line:
/// each line shows the snapshot's time and counts and, from the second
/// line on, the changes in the counts from the snapshot before; the summary
/// shows the first and the last counts and the change between them.
pub proof fn lemma_history_table_columns(
    records: Seq<TrackRecord>,
    pcts: Seq<PctText>,
    overall: PctText,
)
    requires
        pcts.len() == records.len(),
    ensures
        records.len() == 0 ==> history_table_of(records, pcts, overall) == seq![
            seq![
                "(no records yet — run `discord-recon invite <code> --track` to start tracking)"@,
                Seq::<char>::empty(),
                Seq::<char>::empty(),
                Seq::<char>::empty(),
                Seq::<char>::empty(),
            ],
        ],
        records.len() > 0 ==> history_table_of(records, pcts, overall).len() == records.len() + 1,
        forall|i: int|
            0 <= i < records.len() ==> {
                let line = #[trigger] history_table_of(records, pcts, overall)[i];
                &&& line.len() == 5
                &&& line[0] == records[i].timestamp@
                &&& line[1] == decimal(records[i].approx_members as nat)
                &&& line[2] == decimal(records[i].approx_online as nat)
                &&& i == 0 ==> line[3] == "(first seen)"@ && line[4] == "(first seen)"@
                &&& i > 0 ==> line[3] == delta_text(
                    (records[i].approx_members as i64) - (records[i - 1].approx_members as i64),
                    pcts[i].members@,
                )
                &&& i > 0 ==> line[4] == delta_text(
                    (records[i].approx_online as i64) - (records[i - 1].approx_online as i64),
                    pcts[i].online@,
                )
            },
        records.len() > 0 ==> {
            let line = history_table_of(records, pcts, overall)[records.len() as int];
            let first = records[0];
            let last = records[records.len() - 1];
            &&& line.len() == 5
            &&& line[0] == "OVERALL"@
            &&& line[1] == decimal(first.approx_members as nat) + " → "@ + decimal(
                last.approx_members as nat,
            )
            &&& line[2] == decimal(first.approx_online as nat) + " → "@ + decimal(
                last.approx_online as nat,
            )
            &&& line[3] == delta_text(
                (last.approx_members as i64) - (first.approx_members as i64),
                overall.members@,
            )
            &&& line[4] == delta_text(
                (last.approx_online as i64) - (first.approx_online as i64),
                overall.online@,
            )
        },
{
    let t = history_table_of(records, pcts, overall);
    if records.len() > 0 {
        assert forall|i: int| 0 <= i < records.len() implies #[trigger] t[i] == history_line(
            records,
            pcts,
            i,
        ) by {}
    }
}

/// The snapshot of an invite lookup taken at `timestamp`: the invite code,
/// the guild's ID and name (empty when unknown) and the approximate counts
/// (0 when unknown).
pub open spec fn snapshot_of(code: Seq<char>, inv: InviteInfo, timestamp: Seq<char>, rec: TrackRecord) -> bool {
    &&& rec.timestamp@ == timestamp
    &&& rec.invite_code@ == code
    &&& rec.guild_id@ == match inv.guild {
        Some(g) => opt_view(g.id),
        None => Seq::empty(),
    }
    &&& rec.guild_name@ == match inv.guild {
        Some(g) => opt_view(g.name),
        None => Seq::empty(),
    }
    &&& rec.approx_members == match inv.approximate_member_count {
        Some(n) => n,
        None => 0,
    }
    &&& rec.approx_online == match inv.approximate_presence_count {
        Some(n) => n,
        None => 0,
    }
}

/// A snapshot records the lookup's time and invite code, the guild's ID and
/// name (empty without a guild), and the approximate member and online
/// counts as the invite reported them (0 when it did not).
pub proof fn lemma_snapshot_fields(code: Seq<char>, inv: InviteInfo, timestamp: Seq<char>, rec: TrackRecord)
    requires
        snapshot_of(code, inv, timestamp, rec),
    ensures
        rec.timestamp@ == timestamp,
        rec.invite_code@ == code,
        inv.guild matches Some(g) ==> rec.guild_id@ == opt_view(g.id) && rec.guild_name@ == opt_view(g.name),
        inv.guild is None ==> rec.guild_id@.len() == 0 && rec.guild_name@.len() == 0,
        inv.approximate_member_count matches Some(n) ==> rec.approx_members == n,
        inv.approximate_member_count is None ==> rec.approx_members == 0,
        inv.approximate_presence_count matches Some(n) ==> rec.approx_online == n,
        inv.approximate_presence_count is None ==> rec.approx_online == 0,
{
}

/// The tracking record of one invite lookup.
pub fn snapshot(code: &String, inv: &InviteInfo, timestamp: String) -> (rec: TrackRecord)
    ensures
        snapshot_of(code@, *inv, timestamp@, rec),
{
    let (guild_id, guild_name) = match &inv.guild {
        Some(g) => (opt_text(&g.id), opt_text(&g.name)),
        None => (String::new(), String::new()),
    };
    TrackRecord {
        timestamp,
        invite_code: code.clone(),
        guild_id,
        guild_name,
        approx_members: match inv.approximate_member_count {
            Some(n) => n,
            None => 0,
        },
        approx_online: match inv.approximate_presence_count {
            Some(n) => n,
            None => 0,
        },
    }
}

} // verus!
