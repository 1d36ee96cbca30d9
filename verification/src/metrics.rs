//! llama-server's `/slots` counters: how many tokens each working slot
//! processed between two polls, and how many slots are idle or working.
use vstd::prelude::*;

verus! {

/// One slot's counters as reported by `/slots`.
#[derive(Debug, Clone, Copy, PartialEq, Eq, Structural)]
pub struct SlotSample {
    pub id: u64,
    pub id_task: Option<u64>,
    pub is_processing: bool,
    pub n_prompt_processed: u64,
    pub n_decoded: u64,
}

impl SlotSample {
    /// A sample from the fields of one `/slots` entry: its `id` (required),
    /// `id_task`, `is_processing` (false when absent),
    /// `n_prompt_tokens_processed` and the first `next_token`'s `n_decoded`
    /// (0 when absent).
    pub fn from_fields(
        id: Option<u64>,
        id_task: Option<u64>,
        is_processing: Option<bool>,
        n_prompt_processed: Option<u64>,
        n_decoded: Option<u64>,
    ) -> (s: Option<SlotSample>)
        ensures
            s is Some <==> id is Some,
            s matches Some(x) ==> x == (SlotSample {
                id: id->0,
                id_task,
                is_processing: match is_processing {
                    Some(b) => b,
                    None => false,
                },
                n_prompt_processed: match n_prompt_processed {
                    Some(n) => n,
                    None => 0,
                },
                n_decoded: match n_decoded {
                    Some(n) => n,
                    None => 0,
                },
            }),
    {
        match id {
            None => None,
            Some(id) => Some(
                SlotSample {
                    id,
                    id_task,
                    is_processing: match is_processing {
                        Some(b) => b,
                        None => false,
                    },
                    n_prompt_processed: match n_prompt_processed {
                        Some(n) => n,
                        None => 0,
                    },
                    n_decoded: match n_decoded {
                        Some(n) => n,
                        None => 0,
                    },
                },
            ),
        }
    }
}

/// The previous reading of the same slot running the same task, if it was
/// processing then too. A new task restarts the counters, so only that
/// reading can be compared against.
pub open spec fn same_task(prev: Seq<SlotSample>, c: SlotSample) -> Option<SlotSample>
    decreases prev.len(),
{
    if prev.len() == 0 {
        None
    } else if prev[0].id == c.id && prev[0].id_task == c.id_task && prev[0].is_processing {
        Some(prev[0])
    } else {
        same_task(prev.drop_first(), c)
    }
}

pub open spec fn sat_sub(a: u64, b: u64) -> nat {
    if a >= b {
        (a - b) as nat
    } else {
        0
    }
}

/// Prompt and generated tokens processed since `prev` by the slots of
/// `cur` that are working, and whether any slot is working.
pub open spec fn slot_deltas_spec(prev: Seq<SlotSample>, cur: Seq<SlotSample>) -> (nat, nat, bool)
    decreases cur.len(),
{
    if cur.len() == 0 {
        (0, 0, false)
    } else {
        let before = slot_deltas_spec(prev, cur.drop_last());
        let c = cur.last();
        if !c.is_processing {
            before
        } else {
            match same_task(prev, c) {
                Some(p) => (
                    before.0 + sat_sub(c.n_prompt_processed, p.n_prompt_processed),
                    before.1 + sat_sub(c.n_decoded, p.n_decoded),
                    true,
                ),
                None => (before.0, before.1, true),
            }
        }
    }
}

pub proof fn lemma_deltas_mono(prev: Seq<SlotSample>, cur: Seq<SlotSample>, i: int)
    requires
        0 <= i <= cur.len(),
    ensures
        slot_deltas_spec(prev, cur.take(i)).0 <= slot_deltas_spec(prev, cur).0,
        slot_deltas_spec(prev, cur.take(i)).1 <= slot_deltas_spec(prev, cur).1,
    decreases cur.len() - i,
{
    if i < cur.len() {
        lemma_deltas_mono(prev, cur, i + 1);
        assert(cur.take(i + 1).drop_last() =~= cur.take(i));
    } else {
        assert(cur.take(i) =~= cur);
    }
}

fn same_task_exec(prev: &[SlotSample], c: SlotSample) -> (r: Option<SlotSample>)
    ensures
        r == same_task(prev@, c),
{
    let mut k: usize = 0;
    assert(prev@.skip(0) =~= prev@);
    while k < prev.len()
        invariant
            k <= prev.len(),
            same_task(prev@, c) == same_task(prev@.skip(k as int), c),
        decreases prev.len() - k,
    {
        assert(prev@.skip(k as int)[0] == prev@[k as int]);
        let p = prev[k];
        if p.id == c.id && p.id_task == c.id_task && p.is_processing {
            return Some(p);
        }
        assert(prev@.skip(k as int).drop_first() =~= prev@.skip(k + 1));
        k += 1;
    }
    None
}

/// Token counts the working slots of `cur` advanced since `prev`, and
/// whether any slot is working; the caller divides by the poll interval.
pub fn slot_deltas(prev: &[SlotSample], cur: &[SlotSample]) -> (r: (u64, u64, bool))
    requires
        slot_deltas_spec(prev@, cur@).0 <= u64::MAX,
        slot_deltas_spec(prev@, cur@).1 <= u64::MAX,
    ensures
        (r.0 as nat, r.1 as nat, r.2) == slot_deltas_spec(prev@, cur@),
{
    let mut prompt: u64 = 0;
    let mut gen: u64 = 0;
    let mut any = false;
    let mut i: usize = 0;
    while i < cur.len()
        invariant
            i <= cur.len(),
            slot_deltas_spec(prev@, cur@).0 <= u64::MAX,
            slot_deltas_spec(prev@, cur@).1 <= u64::MAX,
            (prompt as nat, gen as nat, any) == slot_deltas_spec(prev@, cur@.take(i as int)),
        decreases cur.len() - i,
    {
        let ghost t = cur@.take(i + 1);
        assert(t.drop_last() =~= cur@.take(i as int));
        assert(t.last() == cur@[i as int]);
        proof {
            lemma_deltas_mono(prev@, cur@, i + 1);
        }
        let c = cur[i];
        if c.is_processing {
            any = true;
            match same_task_exec(prev, c) {
                Some(p) => {
                    prompt = prompt + c.n_prompt_processed.saturating_sub(p.n_prompt_processed);
                    gen = gen + c.n_decoded.saturating_sub(p.n_decoded);
                },
                None => {},
            }
        }
        i += 1;
    }
    assert(cur@.take(cur.len() as int) =~= cur@);
    (prompt, gen, any)
}


/// Whether `slot_deltas` can add up the token counts of `cur` since `prev`
/// within `u64`.
pub fn slot_deltas_in_range(prev: &[SlotSample], cur: &[SlotSample]) -> (b: bool)
    ensures
        b == (slot_deltas_spec(prev@, cur@).0 <= u64::MAX && slot_deltas_spec(prev@, cur@).1
            <= u64::MAX),
{
    let mut prompt: u128 = 0;
    let mut gen: u128 = 0;
    let mut i: usize = 0;
    while i < cur.len()
        invariant
            i <= cur.len(),
            prompt <= u64::MAX,
            gen <= u64::MAX,
            prompt == slot_deltas_spec(prev@, cur@.take(i as int)).0,
            gen == slot_deltas_spec(prev@, cur@.take(i as int)).1,
        decreases cur.len() - i,
    {
        let ghost t = cur@.take(i + 1);
        assert(t.drop_last() =~= cur@.take(i as int));
        assert(t.last() == cur@[i as int]);
        let c = cur[i];
        if c.is_processing {
            match same_task_exec(prev, c) {
                Some(p) => {
                    prompt = prompt + c.n_prompt_processed.saturating_sub(p.n_prompt_processed) as u128;
                    gen = gen + c.n_decoded.saturating_sub(p.n_decoded) as u128;
                    if prompt > u64::MAX as u128 || gen > u64::MAX as u128 {
                        proof {
                            lemma_deltas_mono(prev@, cur@, i + 1);
                        }
                        return false;
                    }
                },
                None => {},
            }
        }
        i += 1;
    }
    assert(cur@.take(cur.len() as int) =~= cur@);
    true
}


/// What the slot summary reads of one `/slots` entry: whether it is
/// working, and its context size.
#[derive(Debug, Clone, Copy, PartialEq)]
pub struct SlotStatus {
    pub is_processing: Option<bool>,
    pub n_ctx: Option<u64>,
}

pub open spec fn working(s: SlotStatus) -> bool {
    s.is_processing == Some(true)
}

/// (idle slots, working slots).
pub open spec fn slot_counts(slots: Seq<SlotStatus>) -> (nat, nat)
    decreases slots.len(),
{
    if slots.len() == 0 {
        (0, 0)
    } else {
        let before = slot_counts(slots.drop_last());
        if working(slots.last()) {
            (before.0, before.1 + 1)
        } else {
            (before.0 + 1, before.1)
        }
    }
}

/// The context size of the last slot that reports one (0 when none does).
pub open spec fn per_slot_ctx(slots: Seq<SlotStatus>) -> nat
    decreases slots.len(),
{
    if slots.len() == 0 {
        0
    } else {
        match slots.last().n_ctx {
            Some(n) => n as nat,
            None => per_slot_ctx(slots.drop_last()),
        }
    }
}

pub proof fn lemma_slot_counts_sum(slots: Seq<SlotStatus>)
    ensures
        slot_counts(slots).0 + slot_counts(slots).1 == slots.len(),
    decreases slots.len(),
{
    if slots.len() > 0 {
        lemma_slot_counts_sum(slots.drop_last());
    }
}

/// Whether `slot_summary` can count the slots in `u32` and multiply out
/// the KV cache size in `u64`.
pub fn slot_summary_in_range(slots: &[SlotStatus]) -> (b: bool)
    ensures
        b == (slots@.len() <= u32::MAX && per_slot_ctx(slots@) * slots@.len() <= u64::MAX),
{
    let mut ctx: u64 = 0;
    let mut i: usize = 0;
    while i < slots.len()
        invariant
            i <= slots.len(),
            ctx == per_slot_ctx(slots@.take(i as int)),
        decreases slots.len() - i,
    {
        assert(slots@.take(i + 1).drop_last() =~= slots@.take(i as int));
        match slots[i].n_ctx {
            Some(n) => {
                ctx = n;
            },
            None => {},
        }
        i += 1;
    }
    assert(slots@.take(slots.len() as int) =~= slots@);
    if slots.len() as u64 > u32::MAX as u64 {
        return false;
    }
    let n = slots.len() as u64;
    if ctx == 0 || n == 0 {
        proof {
            assert(ctx * n == 0) by (nonlinear_arith)
                requires
                    ctx == 0 || n == 0,
            ;
        }
        return true;
    }
    let fits = ctx <= u64::MAX / n;
    proof {
        if fits {
            assert(ctx * n <= u64::MAX) by (nonlinear_arith)
                requires
                    ctx <= u64::MAX / n,
                    n > 0,
            ;
        } else {
            assert(ctx * n > u64::MAX) by (nonlinear_arith)
                requires
                    ctx > u64::MAX / n,
                    n > 0,
            ;
        }
    }
    fits
}

/// Idle and working slot counts, and the KV cache size (the last reported
/// per-slot context times the number of slots; nothing when no slot
/// reports a context, so the caller keeps the previous figure).
pub fn slot_summary(slots: &[SlotStatus]) -> (r: (u32, u32, Option<u64>))
    requires
        slots@.len() <= u32::MAX,
        per_slot_ctx(slots@) * slots@.len() <= u64::MAX,
    ensures
        r.0 as nat == slot_counts(slots@).0,
        r.1 as nat == slot_counts(slots@).1,
        r.2 == if per_slot_ctx(slots@) > 0 {
            Some((per_slot_ctx(slots@) * slots@.len()) as u64)
        } else {
            None::<u64>
        },
{
    let mut idle: u32 = 0;
    let mut busy: u32 = 0;
    let mut ctx: u64 = 0;
    let mut i: usize = 0;
    while i < slots.len()
        invariant
            i <= slots.len(),
            slots@.len() <= u32::MAX,
            (idle as nat, busy as nat) == slot_counts(slots@.take(i as int)),
            ctx == per_slot_ctx(slots@.take(i as int)),
        decreases slots.len() - i,
    {
        assert(slots@.take(i + 1).drop_last() =~= slots@.take(i as int));
        proof {
            lemma_slot_counts_sum(slots@.take(i as int));
        }
        let s = slots[i];
        match s.is_processing {
            Some(true) => {
                busy = busy + 1;
            },
            _ => {
                idle = idle + 1;
            },
        }
        match s.n_ctx {
            Some(n) => {
                ctx = n;
            },
            None => {},
        }
        i += 1;
    }
    assert(slots@.take(slots.len() as int) =~= slots@);
    if ctx > 0 {
        (idle, busy, Some(ctx * slots.len() as u64))
    } else {
        (idle, busy, None)
    }
}


/// Slot ids that occur once in a reading.
pub open spec fn distinct_ids(s: Seq<SlotSample>) -> bool {
    forall|i: int, j: int| 0 <= i < j < s.len() ==> s[i].id != s[j].id
}

proof fn lemma_same_task_self(prev: Seq<SlotSample>, k: int)
    requires
        distinct_ids(prev),
        0 <= k < prev.len(),
        prev[k].is_processing,
    ensures
        same_task(prev, prev[k]) == Some(prev[k]),
    decreases prev.len(),
{
    if k > 0 {
        assert(prev[0].id != prev[k].id);
        let rest = prev.drop_first();
        assert(rest[k - 1] == prev[k]);
        assert forall|i: int, j: int| 0 <= i < j < rest.len() implies rest[i].id != rest[j].id by {
            assert(rest[i] == prev[i + 1] && rest[j] == prev[j + 1]);
        }
        lemma_same_task_self(rest, k - 1);
    }
}

proof fn lemma_same_reading_prefix(s: Seq<SlotSample>, i: int)
    requires
        distinct_ids(s),
        0 <= i <= s.len(),
    ensures
        slot_deltas_spec(s, s.take(i)) == (0nat, 0nat, exists|j: int| 0 <= j < i && #[trigger] s[j].is_processing),
    decreases i,
{
    if i > 0 {
        let t = s.take(i);
        assert(t.drop_last() =~= s.take(i - 1));
        lemma_same_reading_prefix(s, i - 1);
        let c = s[i - 1];
        assert(t.last() == c);
        if c.is_processing {
            lemma_same_task_self(s, i - 1);
        } else {
            assert((exists|j: int| 0 <= j < i && #[trigger] s[j].is_processing) == (exists|j: int|
                0 <= j < i - 1 && #[trigger] s[j].is_processing));
        }
    }
}

/// Two identical readings count no new tokens: a slot still on the same
/// task adds only what its counters moved, which here is nothing; and
/// the reading shows activity exactly when some slot is processing.
pub proof fn law_same_reading_counts_nothing(s: Seq<SlotSample>)
    requires
        distinct_ids(s),
    ensures
        slot_deltas_spec(s, s) == (0nat, 0nat, exists|j: int| 0 <= j < s.len() && #[trigger] s[j].is_processing),
{
    lemma_same_reading_prefix(s, s.len() as int);
    assert(s.take(s.len() as int) =~= s);
}

/// One slot read twice: while it stays on the same task, the tokens it
/// processed are its counters now minus its counters then (nothing if a
/// counter went down); on a new task, or when it was idle before, it adds
/// nothing; it counts as activity whenever it is processing now.
pub proof fn law_one_slot_delta(p: SlotSample, c: SlotSample)
    requires
        p.id == c.id,
    ensures
        ({
            let r = slot_deltas_spec(seq![p], seq![c]);
            &&& r.2 == c.is_processing
            &&& (c.is_processing && p.is_processing && p.id_task == c.id_task) ==> r.0 == (if c.n_prompt_processed
                >= p.n_prompt_processed {
                c.n_prompt_processed - p.n_prompt_processed
            } else {
                0
            }) && r.1 == (if c.n_decoded >= p.n_decoded {
                c.n_decoded - p.n_decoded
            } else {
                0
            })
            &&& !(p.is_processing && p.id_task == c.id_task) ==> r.0 == 0 && r.1 == 0
        }),
{
    let cur = seq![c];
    assert(cur.drop_last() =~= Seq::<SlotSample>::empty());
    assert(seq![p].drop_first() =~= Seq::<SlotSample>::empty());
    assert(slot_deltas_spec(seq![p], Seq::<SlotSample>::empty()) == (0nat, 0nat, false));
    assert(same_task(Seq::<SlotSample>::empty(), c) is None);
    assert(cur.last() == c);
}

} // verus!
