//! The monitor's own event log: launches and failures it detected, update
//! progress, telemetry problems, downloads. A bounded ring of entries with
//! consecutive sequence numbers, so a client can ask for "everything after
//! N" and an entry that rotated out is simply absent.
use vstd::prelude::*;
use std::collections::VecDeque;

verus! {

/// How many entries the ring keeps.
pub const CAPACITY: usize = 2000;

pub struct Entry {
    /// Monotonic, starts at 1; lets clients ask for "everything after N".
    pub seq: u64,
    pub ts_ms: u64,
    pub level: String,
    pub message: String,
}

impl Entry {
    pub fn duplicate(&self) -> (e: Entry)
        ensures
            e.seq == self.seq,
            e.ts_ms == self.ts_ms,
            e.level@ == self.level@,
            e.message@ == self.message@,
    {
        Entry {
            seq: self.seq,
            ts_ms: self.ts_ms,
            level: self.level.clone(),
            message: self.message.clone(),
        }
    }
}

/// What a client sees of an entry.
pub struct EntryView {
    pub seq: u64,
    pub ts_ms: u64,
    pub level: Seq<char>,
    pub message: Seq<char>,
}

pub open spec fn entry_view(e: Entry) -> EntryView {
    EntryView { seq: e.seq, ts_ms: e.ts_ms, level: e.level@, message: e.message@ }
}

pub struct AppLog {
    entries: VecDeque<Entry>,
    next_seq: u64,
}

impl View for AppLog {
    type V = Seq<EntryView>;

    closed spec fn view(&self) -> Seq<EntryView> {
        self.entries@.map_values(|e: Entry| entry_view(e))
    }
}

impl AppLog {
    /// Sequence number of the newest entry ever pushed (0 before any).
    pub closed spec fn latest(&self) -> nat {
        (self.next_seq - 1) as nat
    }

    /// The ring is bounded and its entries carry consecutive numbers ending
    /// at the newest one.
    pub closed spec fn wf(&self) -> bool {
        &&& self.next_seq >= 1
        &&& self.entries@.len() <= CAPACITY
        &&& self.entries@.len() <= self.next_seq - 1
        &&& forall|i: int|
            0 <= i < self.entries@.len() ==> (#[trigger] self.entries@[i]).seq == self.next_seq
                - self.entries@.len() + i
    }

    pub fn new() -> (log: AppLog)
        ensures
            log.wf(),
            log@ == Seq::<EntryView>::empty(),
            log.latest() == 0,
    {
        let log = AppLog { entries: VecDeque::new(), next_seq: 1 };
        assert(log@ =~= Seq::<EntryView>::empty());
        log
    }

    /// Sequence number of the newest entry (0 when none was ever pushed).
    pub fn latest_seq(&self) -> (n: u64)
        requires
            self.wf(),
        ensures
            n == self.latest(),
    {
        self.next_seq - 1
    }

    /// Appends an entry, dropping the oldest one when the ring is full.
    pub fn push(&mut self, level: &str, message: String, ts_ms: u64)
        requires
            old(self).wf(),
            old(self).latest() < u64::MAX - 1,
        ensures
            final(self).wf(),
            final(self).latest() == old(self).latest() + 1,
            final(self)@ == (if old(self)@.len() >= CAPACITY {
                old(self)@.drop_first()
            } else {
                old(self)@
            }).push(
                EntryView {
                    seq: (old(self).latest() + 1) as u64,
                    ts_ms,
                    level: level@,
                    message: message@,
                },
            ),
    {
        let ghost before = self@;
        if self.entries.len() >= CAPACITY {
            self.entries.pop_front();
            assert(self@ =~= before.drop_first());
        }
        let ghost mid = self@;
        let entry = Entry { seq: self.next_seq, ts_ms, level: level.to_owned(), message };
        self.entries.push_back(entry);
        self.next_seq = self.next_seq + 1;
        assert(self@ =~= mid.push(entry_view(entry)));
        assert forall|i: int|
            0 <= i < self.entries@.len() implies (#[trigger] self.entries@[i]).seq
            == self.next_seq - self.entries@.len() + i by {
            if i < self.entries@.len() - 1 {
                assert(self.entries@[i] == old(self).entries@[i + (old(self).entries@.len() + 1
                    - self.entries@.len())]);
            }
        }
    }

    /// Index of the first entry numbered above `after`.
    pub closed spec fn start_after(&self, after: nat) -> nat {
        let first = self.next_seq - self.entries@.len();
        if after < first {
            0
        } else if after - first + 1 >= self.entries@.len() {
            self.entries@.len()
        } else {
            (after - first + 1) as nat
        }
    }

    /// The entries numbered above `after`, oldest first, at most `limit`.
    pub open spec fn after_spec(&self, after: nat, limit: nat) -> Seq<EntryView> {
        let s = self@.filter(|e: EntryView| e.seq > after);
        s.take(if limit < s.len() { limit as int } else { s.len() as int })
    }

    proof fn lemma_filter_after(&self, after: nat)
        requires
            self.wf(),
        ensures
            self@.filter(|e: EntryView| e.seq > after) =~= self@.skip(
                self.start_after(after) as int,
            ),
    {
        let f = |e: EntryView| e.seq > after;
        let k = self.start_after(after) as int;
        let s = self@;
        assert forall|i: int| 0 <= i < s.len() implies (f(#[trigger] s[i]) <==> i >= k) by {}
        lemma_filter_suffix(s, f, k);
    }

    /// Entries with `seq > after`, oldest first, at most `limit`. Entries
    /// that have already rotated out of the ring are simply absent.
    pub fn entries_after(&self, after: u64, limit: usize) -> (out: Vec<Entry>)
        requires
            self.wf(),
        ensures
            out@.map_values(|e: Entry| entry_view(e)) == self.after_spec(after as nat, limit as nat),
    {
        let first = self.next_seq - self.entries.len() as u64;
        let start: usize = if after < first {
            0
        } else if after - first + 1 >= self.entries.len() as u64 {
            self.entries.len()
        } else {
            (after - first + 1) as usize
        };
        assert(start == self.start_after(after as nat));
        let mut out: Vec<Entry> = Vec::new();
        let mut i = start;
        while i < self.entries.len() && out.len() < limit
            invariant
                start <= i <= self.entries@.len(),
                out@.len() == i - start,
                out@.len() <= limit,
                forall|j: int|
                    0 <= j < out@.len() ==> entry_view(#[trigger] out@[j]) == entry_view(
                        self.entries@[start + j],
                    ),
            decreases self.entries.len() - i,
        {
            out.push(self.entries[i].duplicate());
            i += 1;
        }
        proof {
            self.lemma_filter_after(after as nat);
            let s = self@.filter(|e: EntryView| e.seq > after as nat);
            let n = if (limit as nat) < s.len() {
                limit as int
            } else {
                s.len() as int
            };
            assert(out@.map_values(|e: Entry| entry_view(e)) =~= s.take(n));
        }
        out
    }
}

/// Filtering keeps exactly the suffix from `k` when the predicate holds
/// from `k` on and nowhere before.
pub proof fn lemma_filter_suffix(s: Seq<EntryView>, f: spec_fn(EntryView) -> bool, k: int)
    requires
        0 <= k <= s.len(),
        forall|i: int| 0 <= i < s.len() ==> (f(#[trigger] s[i]) <==> i >= k),
    ensures
        s.filter(f) =~= s.skip(k),
    decreases s.len(),
{
    reveal(Seq::filter);
    if s.len() > 0 {
        let t = s.drop_last();
        if k < s.len() {
            assert forall|i: int| 0 <= i < t.len() implies (f(#[trigger] t[i]) <==> i >= k) by {
                assert(t[i] == s[i]);
            }
            lemma_filter_suffix(t, f, k);
            assert(f(s.last()));
            assert(s.skip(k) =~= t.skip(k).push(s.last()));
        } else {
            assert forall|i: int| 0 <= i < t.len() implies (f(#[trigger] t[i]) <==> i >= t.len())
                by {
                assert(t[i] == s[i]);
            }
            lemma_filter_suffix(t, f, t.len() as int);
            assert(!f(s.last()));
            assert(s.skip(k) =~= Seq::<EntryView>::empty());
            assert(t.skip(t.len() as int) =~= Seq::<EntryView>::empty());
        }
    }
}

/// Logs at level "info".
pub fn info(log: &mut AppLog, message: String, ts_ms: u64)
    requires
        old(log).wf(),
        old(log).latest() < u64::MAX - 1,
    ensures
        final(log).wf(),
        final(log).latest() == old(log).latest() + 1,
        final(log)@ == (if old(log)@.len() >= CAPACITY {
            old(log)@.drop_first()
        } else {
            old(log)@
        }).push(
            EntryView {
                seq: (old(log).latest() + 1) as u64,
                ts_ms,
                level: "info"@,
                message: message@,
            },
        ),
{
    proof {
        reveal_strlit("info");
    }
    log.push("info", message, ts_ms);
}

/// Logs at level "warn".
pub fn warn(log: &mut AppLog, message: String, ts_ms: u64)
    requires
        old(log).wf(),
        old(log).latest() < u64::MAX - 1,
    ensures
        final(log).wf(),
        final(log).latest() == old(log).latest() + 1,
        final(log)@ == (if old(log)@.len() >= CAPACITY {
            old(log)@.drop_first()
        } else {
            old(log)@
        }).push(
            EntryView {
                seq: (old(log).latest() + 1) as u64,
                ts_ms,
                level: "warn"@,
                message: message@,
            },
        ),
{
    proof {
        reveal_strlit("warn");
    }
    log.push("warn", message, ts_ms);
}

/// Logs at level "error".
pub fn error(log: &mut AppLog, message: String, ts_ms: u64)
    requires
        old(log).wf(),
        old(log).latest() < u64::MAX - 1,
    ensures
        final(log).wf(),
        final(log).latest() == old(log).latest() + 1,
        final(log)@ == (if old(log)@.len() >= CAPACITY {
            old(log)@.drop_first()
        } else {
            old(log)@
        }).push(
            EntryView {
                seq: (old(log).latest() + 1) as u64,
                ts_ms,
                level: "error"@,
                message: message@,
            },
        ),
{
    proof {
        reveal_strlit("error");
    }
    log.push("error", message, ts_ms);
}

/// Nothing is numbered above the newest entry: polling with the latest
/// sequence number yields no entries.
pub proof fn law_nothing_after_latest(log: AppLog, limit: nat)
    requires
        log.wf(),
    ensures
        log.after_spec(log.latest(), limit) == Seq::<EntryView>::empty(),
{
    log.lemma_filter_after(log.latest());
    assert(log.after_spec(log.latest(), limit) =~= Seq::<EntryView>::empty());
}

/// Every entry returned is numbered above `after`, the numbers run
/// consecutively, and no more than `limit` come back.
pub proof fn law_after_is_consecutive(log: AppLog, after: nat, limit: nat)
    requires
        log.wf(),
    ensures
        log.after_spec(after, limit).len() <= limit,
        forall|i: int|
            0 <= i < log.after_spec(after, limit).len() ==> #[trigger] log.after_spec(
                after,
                limit,
            )[i].seq > after,
        forall|i: int|
            0 < i < log.after_spec(after, limit).len() ==> #[trigger] log.after_spec(
                after,
                limit,
            )[i].seq == log.after_spec(after, limit)[i - 1].seq + 1,
{
    log.lemma_filter_after(after);
    let k = log.start_after(after) as int;
    let s = log@.skip(k);
    assert forall|i: int| 0 <= i < s.len() implies #[trigger] s[i].seq > after by {
        assert(s[i] == log@[k + i]);
    }
}

/// What a push writes is what a poll from the previous newest number reads
/// back: exactly the new entry.
pub proof fn law_push_then_read(
    before: AppLog,
    after: AppLog,
    level: Seq<char>,
    message: Seq<char>,
    ts_ms: u64,
    limit: nat,
)
    requires
        before.wf(),
        after.wf(),
        limit >= 1,
        after.latest() == before.latest() + 1,
        after@ == (if before@.len() >= CAPACITY {
            before@.drop_first()
        } else {
            before@
        }).push(
            EntryView { seq: (before.latest() + 1) as u64, ts_ms, level, message },
        ),
    ensures
        after.after_spec(before.latest(), limit) == seq![
            EntryView { seq: (before.latest() + 1) as u64, ts_ms, level, message },
        ],
{
    after.lemma_filter_after(before.latest());
    let k = after.start_after(before.latest()) as int;
    assert(after@.len() >= 1);
    assert(after@.last().seq == after.latest());
    assert(k == after@.len() - 1);
    assert(after.after_spec(before.latest(), limit) =~= seq![after@.last()]);
}


/// The ring never holds more than `CAPACITY` entries.
pub proof fn law_log_bounded(log: AppLog)
    requires
        log.wf(),
    ensures
        log@.len() <= CAPACITY,
{
}

} // verus!
