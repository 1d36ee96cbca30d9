//! Text order (what `String`'s `Ord` gives: UTF-8 bytes compared in turn,
//! which is the order of the characters' code points) and a stable sort
//! by it.
use vstd::prelude::*;
use crate::text::views;

verus! {

/// `a <= b` in text order.
pub open spec fn text_le(a: Seq<char>, b: Seq<char>) -> bool
    decreases a.len(),
{
    if a.len() == 0 {
        true
    } else if b.len() == 0 {
        false
    } else if a[0] != b[0] {
        a[0] < b[0]
    } else {
        text_le(a.drop_first(), b.drop_first())
    }
}

pub proof fn lemma_text_le_total(a: Seq<char>, b: Seq<char>)
    ensures
        text_le(a, b) || text_le(b, a),
    decreases a.len(),
{
    if a.len() > 0 && b.len() > 0 {
        if a[0] == b[0] {
            lemma_text_le_total(a.drop_first(), b.drop_first());
        }
    }
}

pub proof fn lemma_text_le_trans(a: Seq<char>, b: Seq<char>, c: Seq<char>)
    requires
        text_le(a, b),
        text_le(b, c),
    ensures
        text_le(a, c),
    decreases a.len(),
{
    if a.len() > 0 && b.len() > 0 && c.len() > 0 && a[0] == b[0] && b[0] == c[0] {
        lemma_text_le_trans(a.drop_first(), b.drop_first(), c.drop_first());
    }
}

pub proof fn lemma_text_le_antisym(a: Seq<char>, b: Seq<char>)
    requires
        text_le(a, b),
        text_le(b, a),
    ensures
        a == b,
    decreases a.len(),
{
    if a.len() > 0 && b.len() > 0 {
        lemma_text_le_antisym(a.drop_first(), b.drop_first());
        assert(a =~= seq![a[0]] + a.drop_first());
        assert(b =~= seq![b[0]] + b.drop_first());
    } else if a.len() == 0 && b.len() == 0 {
        assert(a =~= b);
    }
}

fn text_le_exec(a: &Vec<char>, b: &Vec<char>) -> (r: bool)
    ensures
        r == text_le(a@, b@),
{
    let mut i: usize = 0;
    assert(a@.skip(0) =~= a@);
    assert(b@.skip(0) =~= b@);
    loop
        invariant
            i <= a.len(),
            i <= b.len(),
            text_le(a@, b@) == text_le(a@.skip(i as int), b@.skip(i as int)),
        decreases a.len() - i,
    {
        if i == a.len() {
            return true;
        }
        if i == b.len() {
            return false;
        }
        assert(a@.skip(i as int)[0] == a@[i as int]);
        assert(b@.skip(i as int)[0] == b@[i as int]);
        if a[i] != b[i] {
            return a[i] < b[i];
        }
        assert(a@.skip(i as int).drop_first() =~= a@.skip(i + 1));
        assert(b@.skip(i as int).drop_first() =~= b@.skip(i + 1));
        i += 1;
    }
}

/// `order` lists every index of `keys` once, by key, equal keys in the
/// order they came in.
pub open spec fn stable_order(keys: Seq<Seq<char>>, order: Seq<usize>) -> bool {
    &&& order.len() == keys.len()
    &&& forall|i: int| 0 <= i < order.len() ==> #[trigger] order[i] < keys.len()
    &&& forall|i: int, j: int| 0 <= i < j < order.len() ==> #[trigger] order[i] != #[trigger] order[j]
    &&& forall|i: int, j: int|
        0 <= i < j < order.len() ==> text_le(
            #[trigger] keys[order[i] as int],
            #[trigger] keys[order[j] as int],
        )
    &&& forall|i: int, j: int|
        0 <= i < j < order.len() && #[trigger] keys[order[i] as int] == #[trigger] keys[order[j] as int]
            ==> order[i] < order[j]
}

/// The stable order of `keys`: an insertion sort.
pub fn sorted_order(keys: &Vec<Vec<char>>) -> (order: Vec<usize>)
    ensures
        stable_order(views(keys@), order@),
{
    let ghost kv = views(keys@);
    let mut order: Vec<usize> = Vec::new();
    let mut n: usize = 0;
    while n < keys.len()
        invariant
            n <= keys.len(),
            kv == views(keys@),
            order.len() == n,
            forall|i: int| 0 <= i < order.len() ==> #[trigger] order@[i] < n,
            forall|i: int, j: int|
                0 <= i < j < order.len() ==> #[trigger] order@[i] != #[trigger] order@[j],
            forall|i: int, j: int|
                0 <= i < j < order.len() ==> text_le(
                    #[trigger] kv[order@[i] as int],
                    #[trigger] kv[order@[j] as int],
                ),
            forall|i: int, j: int|
                0 <= i < j < order.len() && #[trigger] kv[order@[i] as int]
                    == #[trigger] kv[order@[j] as int] ==> order@[i] < order@[j],
        decreases keys.len() - n,
    {
        let kn = &keys[n];
        assert(kv[n as int] == kn@);
        // The first position holding a key greater than `kn`.
        let mut p: usize = 0;
        while p < order.len() && text_le_exec(&keys[order[p]], kn)
            invariant
                p <= order.len(),
                n < keys.len(),
                kv == views(keys@),
                kn@ == kv[n as int],
                forall|i: int| 0 <= i < order.len() ==> #[trigger] order@[i] < n,
                forall|i: int| 0 <= i < p ==> text_le(#[trigger] kv[order@[i] as int], kn@),
            decreases order.len() - p,
        {
            assert(kv[order@[p as int] as int] == keys@[order@[p as int] as int]@);
            p += 1;
        }
        proof {
            if p < order.len() {
                assert(kv[order@[p as int] as int] == keys@[order@[p as int] as int]@);
                assert(!text_le(kv[order@[p as int] as int], kn@));
            }
        }
        let ghost old_order = order@;
        order.insert(p, n);
        proof {
            assert(order@ == old_order.insert(p as int, n));
            assert forall|i: int| 0 <= i < order.len() implies #[trigger] order@[i] < n + 1 by {
                if i < p {
                    assert(order@[i] == old_order[i]);
                } else if i > p {
                    assert(order@[i] == old_order[i - 1]);
                }
            }
            assert forall|i: int, j: int|
                0 <= i < j < order.len() implies #[trigger] order@[i] != #[trigger] order@[j] by {
                if i != p as int && j != p as int {
                    let i0 = if i < p {
                        i
                    } else {
                        i - 1
                    };
                    let j0 = if j < p {
                        j
                    } else {
                        j - 1
                    };
                    assert(order@[i] == old_order[i0]);
                    assert(order@[j] == old_order[j0]);
                } else if i == p as int {
                    assert(order@[j] == old_order[j - 1]);
                } else {
                    assert(order@[i] == old_order[i]);
                }
            }
            assert forall|i: int, j: int|
                0 <= i < j < order.len() implies text_le(
                #[trigger] kv[order@[i] as int],
                #[trigger] kv[order@[j] as int],
            ) && (kv[order@[i] as int] == kv[order@[j] as int] ==> order@[i] < order@[j]) by {
                if i != p as int && j != p as int {
                    let i0 = if i < p {
                        i
                    } else {
                        i - 1
                    };
                    let j0 = if j < p {
                        j
                    } else {
                        j - 1
                    };
                    assert(order@[i] == old_order[i0]);
                    assert(order@[j] == old_order[j0]);
                    assert(i0 < j0);
                } else if i == p as int {
                    // kn before a key greater than it.
                    assert(order@[j] == old_order[j - 1]);
                    let x = kv[old_order[p as int] as int];
                    assert(!text_le(x, kn@));
                    lemma_text_le_total(x, kn@);
                    if j - 1 > p {
                        let y = kv[old_order[j - 1] as int];
                        assert(text_le(x, y));
                        lemma_text_le_trans(kn@, x, y);
                        if y == kn@ {
                            assert(text_le(x, kn@));
                        }
                    } else {
                        if x == kn@ {
                            lemma_text_le_total(kn@, kn@);
                        }
                    }
                } else {
                    assert(order@[i] == old_order[i]);
                    assert(text_le(kv[old_order[i] as int], kn@));
                }
            }
        }
        n += 1;
    }
    order
}

} // verus!
