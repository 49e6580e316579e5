//! The clipboard history: timestamped snapshots of accepted clipboard
//! content. A listing is bounded to the ten most recent snapshots by
//! timestamp, newest first, and only the single most recent snapshot
//! can be deleted. The store here is the in-memory model of the
//! single on-disk table; the unverified shell loads and persists rows
//! and leaves every decision to this module.

use vstd::math::min;
use vstd::prelude::*;

verus! {

/// How many records a history listing returns at most.
pub const HISTORY_LIMIT: usize = 10;

/// One clipboard snapshot: its store-assigned identifier, the text
/// that was accepted, and the second-resolution time of acceptance.
pub struct ClipboardRecord {
    pub id: i64,
    pub content: String,
    pub timestamp: i64,
}

impl Clone for ClipboardRecord {
    /// The copy equals the original in every field.
    fn clone(&self) -> (r: Self)
        ensures
            r == *self,
    {
        ClipboardRecord { id: self.id, content: self.content.clone(), timestamp: self.timestamp }
    }
}

/// Timestamps never increase along the sequence: newest first.
pub open spec fn sorted_desc(s: Seq<ClipboardRecord>) -> bool {
    forall|i: int, j: int| 0 <= i <= j < s.len() ==> s[i].timestamp >= s[j].timestamp
}

/// Inserting an element anywhere adds exactly it to the multiset of
/// the sequence's elements.
proof fn lemma_insert_to_multiset(s: Seq<ClipboardRecord>, j: int, x: ClipboardRecord)
    requires
        0 <= j <= s.len(),
    ensures
        s.insert(j, x).to_multiset() == s.to_multiset().insert(x),
{
    broadcast use vstd::seq_lib::group_to_multiset_ensures;

    let t = s.insert(j, x);
    assert(t[j] == x);
    assert(t.remove(j) =~= s);
    assert(t.remove(j).to_multiset() == t.to_multiset().remove(t[j]));
    assert(t.contains(x));
    assert(t.to_multiset().count(x) > 0);
    assert(t.to_multiset() =~= s.to_multiset().insert(x));
}

/// Inserting `x` right before the first element smaller than it
/// keeps the sequence sorted.
proof fn lemma_insert_sorted(s: Seq<ClipboardRecord>, j: int, x: ClipboardRecord)
    requires
        sorted_desc(s),
        0 <= j <= s.len(),
        forall|k: int| 0 <= k < j ==> s[k].timestamp >= x.timestamp,
        j < s.len() ==> s[j].timestamp < x.timestamp,
    ensures
        sorted_desc(s.insert(j, x)),
{
    let t = s.insert(j, x);
    assert forall|a: int, b: int| 0 <= a <= b < t.len() implies t[a].timestamp >= t[b].timestamp by {
        if a < j && b < j {
            assert(t[a] == s[a] && t[b] == s[b]);
        } else if a < j && b == j {
            assert(t[a] == s[a] && t[b] == x);
        } else if a < j && b > j {
            assert(t[a] == s[a] && t[b] == s[b - 1]);
        } else if a == j && b == j {
        } else if a == j && b > j {
            assert(t[a] == x && t[b] == s[b - 1]);
            assert(s[j].timestamp >= s[b - 1].timestamp);
        } else {
            assert(t[a] == s[a - 1] && t[b] == s[b - 1]);
        }
    }
}

/// Up to ten of the given records, those with the greatest
/// timestamps, newest first: the head of a descending reordering of
/// the whole input. Which of two records with equal timestamps comes
/// first, and which is kept at the cutoff, is left open.
pub fn most_recent_records(records: &Vec<ClipboardRecord>) -> (r: Vec<ClipboardRecord>)
    ensures
        r@.len() == min(records@.len() as int, HISTORY_LIMIT as int),
        sorted_desc(r@),
        exists|full: Seq<ClipboardRecord>|
            full.to_multiset() == records@.to_multiset() && sorted_desc(full) && r@
                == #[trigger] full.take(r@.len() as int),
{
    let mut sorted: Vec<ClipboardRecord> = Vec::new();
    proof {
        assert(sorted@ =~= records@.take(0));
    }
    let mut i: usize = 0;
    while i < records.len()
        invariant
            i <= records@.len(),
            sorted@.len() == i,
            sorted_desc(sorted@),
            sorted@.to_multiset() == records@.take(i as int).to_multiset(),
        decreases records@.len() - i,
    {
        let rec = records[i].clone();
        let mut j: usize = 0;
        while j < sorted.len() && sorted[j].timestamp >= rec.timestamp
            invariant
                j <= sorted@.len(),
                forall|k: int| 0 <= k < j ==> sorted@[k].timestamp >= rec.timestamp,
            decreases sorted@.len() - j,
        {
            j += 1;
        }
        proof {
            broadcast use vstd::seq_lib::group_to_multiset_ensures;

            lemma_insert_sorted(sorted@, j as int, rec);
            lemma_insert_to_multiset(sorted@, j as int, rec);
            assert(records@.take(i + 1).drop_last() =~= records@.take(i as int));
            assert(records@.take(i + 1).last() == records@[i as int]);
            assert(records@.take(i as int).push(records@[i as int]) =~= records@.take(i + 1));
        }
        sorted.insert(j, rec);
        i += 1;
    }
    proof {
        assert(records@.take(records@.len() as int) =~= records@);
    }
    let ghost full = sorted@;
    let mut r = sorted;
    r.truncate(HISTORY_LIMIT);
    proof {
        if full.len() <= HISTORY_LIMIT {
            assert(r@ =~= full.take(r@.len() as int));
        }
        assert(r@ == full.take(r@.len() as int));
    }
    r
}

/// The position of the most recent record: the first one whose
/// timestamp no other record exceeds. `None` exactly when there are
/// no records.
pub fn latest_record_index(records: &Vec<ClipboardRecord>) -> (r: Option<usize>)
    ensures
        r is None <==> records@.len() == 0,
        r matches Some(i) ==> 0 <= i < records@.len() && (forall|j: int|
            0 <= j < records@.len() ==> records@[j].timestamp <= records@[i as int].timestamp)
            && (forall|j: int| 0 <= j < i ==> records@[j].timestamp < records@[i as int].timestamp),
{
    if records.len() == 0 {
        return None;
    }
    let mut best: usize = 0;
    let mut i: usize = 1;
    while i < records.len()
        invariant
            0 <= best < i <= records@.len(),
            forall|j: int| 0 <= j < i ==> records@[j].timestamp <= records@[best as int].timestamp,
            forall|j: int| 0 <= j < best ==> records@[j].timestamp < records@[best as int].timestamp,
        decreases records@.len() - i,
    {
        if records[i].timestamp > records[best].timestamp {
            best = i;
        }
        i += 1;
    }
    Some(best)
}

/// The in-memory clipboard history store: the stored records in
/// insertion order, and the identifier the next insertion will be
/// given.
pub struct HistoryStore {
    records: Vec<ClipboardRecord>,
    next_id: i64,
}

impl View for HistoryStore {
    type V = Seq<ClipboardRecord>;

    closed spec fn view(&self) -> Seq<ClipboardRecord> {
        self.records@
    }
}

impl HistoryStore {
    /// The identifier the store will assign next.
    pub closed spec fn next_id_spec(&self) -> int {
        self.next_id as int
    }

    /// Identifiers are assigned in increasing order, so they are
    /// unique, and all stay below the one to be assigned next.
    pub closed spec fn wf(&self) -> bool {
        &&& 1 <= self.next_id
        &&& forall|i: int, j: int|
            0 <= i < j < self.records@.len() ==> self.records@[i].id < self.records@[j].id
        &&& forall|i: int|
            0 <= i < self.records@.len() ==> #[trigger] self.records@[i].id < self.next_id
    }

    /// The store assigns identifiers uniquely: no two stored records
    /// share one.
    pub proof fn lemma_ids_unique(&self)
        requires
            self.wf(),
        ensures
            forall|i: int, j: int| 0 <= i < j < self@.len() ==> self@[i].id != self@[j].id,
    {
    }

    /// A fresh store holding nothing.
    pub fn new() -> (r: HistoryStore)
        ensures
            r@ =~= Seq::<ClipboardRecord>::empty(),
            r.wf(),
            r.next_id_spec() == 1,
    {
        HistoryStore { records: Vec::new(), next_id: 1 }
    }

    /// Appends one accepted snapshot, timestamped by the caller, and
    /// returns the identifier the store assigned to it. Writing the
    /// text to the clipboard itself is the caller's separate step,
    /// taken before this one; the two are not atomic together.
    pub fn add_clipboard_record(&mut self, content: String, timestamp: i64) -> (id: i64)
        requires
            old(self).wf(),
            old(self).next_id_spec() < i64::MAX,
        ensures
            final(self).wf(),
            id == old(self).next_id_spec(),
            final(self)@ == old(self)@.push(ClipboardRecord { id, content, timestamp }),
            final(self).next_id_spec() == old(self).next_id_spec() + 1,
    {
        let id = self.next_id;
        self.records.push(ClipboardRecord { id, content, timestamp });
        self.next_id = self.next_id + 1;
        id
    }

    /// Up to ten stored records, those most recently timestamped,
    /// newest first.
    pub fn get_clipboard_history(&self) -> (r: Vec<ClipboardRecord>)
        ensures
            r@.len() == min(self@.len() as int, HISTORY_LIMIT as int),
            sorted_desc(r@),
            exists|full: Seq<ClipboardRecord>|
                full.to_multiset() == self@.to_multiset() && sorted_desc(full) && r@
                    == #[trigger] full.take(r@.len() as int),
    {
        most_recent_records(&self.records)
    }

    /// Removes the single most recent record — the first stored one
    /// whose timestamp no other record exceeds — and returns it; a
    /// no-op returning `None` exactly when the history is empty.
    pub fn delete_latest_clipboard_record(&mut self) -> (removed: Option<ClipboardRecord>)
        requires
            old(self).wf(),
        ensures
            final(self).wf(),
            removed is None <==> old(self)@.len() == 0,
            removed is None ==> final(self)@ == old(self)@,
            removed matches Some(rec) ==> exists|i: int|
                0 <= i < old(self)@.len() && rec == old(self)@[i] && (forall|j: int|
                    0 <= j < old(self)@.len() ==> old(self)@[j].timestamp <= rec.timestamp)
                    && (forall|j: int| 0 <= j < i ==> old(self)@[j].timestamp < rec.timestamp)
                    && final(self)@ == #[trigger] old(self)@.remove(i),
            final(self).next_id_spec() == old(self).next_id_spec(),
    {
        match latest_record_index(&self.records) {
            None => None,
            Some(i) => {
                let rec = self.records.remove(i);
                proof {
                    let s = old(self)@;
                    assert forall|a: int, b: int|
                        0 <= a < b < self.records@.len() implies self.records@[a].id
                        < self.records@[b].id by {
                        if b < i {
                            assert(self.records@[a] == s[a] && self.records@[b] == s[b]);
                        } else if a < i {
                            assert(self.records@[a] == s[a] && self.records@[b] == s[b + 1]);
                        } else {
                            assert(self.records@[a] == s[a + 1] && self.records@[b] == s[b + 1]);
                        }
                    }
                    assert forall|a: int|
                        0 <= a < self.records@.len() implies #[trigger] self.records@[a].id
                        < self.next_id by {
                        if a < i {
                            assert(self.records@[a] == s[a]);
                        } else {
                            assert(self.records@[a] == s[a + 1]);
                        }
                    }
                }
                Some(rec)
            },
        }
    }
}

/// With pairwise distinct timestamps there is exactly one descending
/// ordering of a set of records: the reverse of a chronologically
/// increasing sequence.
pub proof fn lemma_sorted_desc_unique(s: Seq<ClipboardRecord>, full: Seq<ClipboardRecord>)
    requires
        forall|i: int, j: int| 0 <= i < j < s.len() ==> s[i].timestamp < s[j].timestamp,
        full.to_multiset() == s.to_multiset(),
        sorted_desc(full),
    ensures
        full =~= s.reverse(),
    decreases s.len(),
{
    broadcast use vstd::seq_lib::group_to_multiset_ensures;

    assert(full.len() == full.to_multiset().len());
    assert(s.len() == s.to_multiset().len());
    if s.len() == 0 {
    } else {
        let n = s.len() as int;
        let last = s[n - 1];
        assert(s.contains(last));
        assert(full.to_multiset().count(last) > 0);
        assert(full.contains(last));
        let k = choose|k: int| 0 <= k < full.len() && full[k] == last;
        assert(full.contains(full[0]));
        assert(s.to_multiset().count(full[0]) > 0);
        assert(s.contains(full[0]));
        let m = choose|m: int| 0 <= m < s.len() && s[m] == full[0];
        assert(full[0].timestamp >= full[k].timestamp);
        assert(s[m].timestamp <= last.timestamp);
        if m < n - 1 {
            assert(s[m].timestamp < last.timestamp);
            assert(false);
        }
        assert(full[0] == last);
        let fr = full.remove(0);
        let sr = s.remove(n - 1);
        assert(fr.to_multiset() == full.to_multiset().remove(full[0]));
        assert(sr.to_multiset() == s.to_multiset().remove(last));
        assert(sorted_desc(fr)) by {
            assert forall|a: int, b: int|
                0 <= a <= b < fr.len() implies fr[a].timestamp >= fr[b].timestamp by {
                assert(fr[a] == full[a + 1] && fr[b] == full[b + 1]);
            }
        }
        assert(forall|i: int, j: int| 0 <= i < j < sr.len() ==> sr[i].timestamp < sr[j].timestamp);
        lemma_sorted_desc_unique(sr, fr);
        assert forall|idx: int| 0 <= idx < full.len() implies full[idx] == s.reverse()[idx] by {
            if idx == 0 {
                assert(s.reverse()[0] == s[n - 1]);
            } else {
                assert(full[idx] == fr[idx - 1]);
                assert(fr[idx - 1] == sr.reverse()[idx - 1]);
                assert(sr.reverse()[idx - 1] == sr[sr.len() - 1 - (idx - 1)]);
                assert(sr[sr.len() - 1 - (idx - 1)] == s[n - 1 - idx]);
                assert(s.reverse()[idx] == s[n - 1 - idx]);
            }
        }
    }
}

/// A history listing taken after records were added with strictly
/// increasing timestamps is exactly the most recently added ones,
/// newest first; once more than ten were added, the earliest is no
/// longer listed. `full` is any descending reordering of the whole
/// store, as the listing's contract provides one.
pub proof fn lemma_history_of_increasing(
    records: Seq<ClipboardRecord>,
    listing: Seq<ClipboardRecord>,
    full: Seq<ClipboardRecord>,
)
    requires
        forall|i: int, j: int|
            0 <= i < j < records.len() ==> records[i].timestamp < records[j].timestamp,
        full.to_multiset() == records.to_multiset(),
        sorted_desc(full),
        listing == full.take(min(records.len() as int, HISTORY_LIMIT as int)),
    ensures
        listing =~= records.reverse().take(min(records.len() as int, HISTORY_LIMIT as int)),
        records.len() > HISTORY_LIMIT ==> !listing.contains(records[0]),
{
    lemma_sorted_desc_unique(records, full);
    let n = records.len() as int;
    if n > HISTORY_LIMIT {
        if listing.contains(records[0]) {
            let k = choose|k: int| 0 <= k < listing.len() && listing[k] == records[0];
            assert(listing[k] == records.reverse()[k]);
            assert(records.reverse()[k] == records[n - 1 - k]);
            assert(0 < n - 1 - k < n);
            assert(records[0].timestamp < records[n - 1 - k].timestamp);
            assert(false);
        }
    }
}

} // verus!
