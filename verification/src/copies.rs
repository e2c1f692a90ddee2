//! Staging-to-GPU buffer copies queued during a frame and merged at the
//! start of the next one: of several copies into the same destination
//! region only the last one queued is kept.
use vstd::prelude::*;

verus! {

/// One queued copy of `size` bytes from the staging buffer `src` at
/// `src_offset` into the GPU buffer `dst` at `dst_offset` (buffers as raw
/// Vulkan handles).
#[derive(Clone, Copy, Debug, PartialEq, Eq, Structural)]
pub struct BufferCopy {
    pub src: u64,
    pub dst: u64,
    pub src_offset: u64,
    pub dst_offset: u64,
    pub size: u64,
}

/// Whether two copies write the same destination region: same destination
/// buffer, offset and size.
pub open spec fn same_target(a: BufferCopy, b: BufferCopy) -> bool {
    a.dst == b.dst && a.dst_offset == b.dst_offset && a.size == b.size
}

/// Whether copy `i` of `s` is overwritten by a later copy into the same
/// region.
pub open spec fn superseded(s: Seq<BufferCopy>, i: int) -> bool {
    exists|j: int| i < j < s.len() && #[trigger] same_target(s[i], s[j])
}

/// The copies among the first `n` of `s` that no later copy of `s`
/// supersedes, in queue order.
pub open spec fn keep_last_prefix(s: Seq<BufferCopy>, n: nat) -> Seq<BufferCopy>
    decreases n,
{
    if n == 0 {
        Seq::empty()
    } else {
        let rest = keep_last_prefix(s, (n - 1) as nat);
        if superseded(s, n - 1) {
            rest
        } else {
            rest.push(s[n - 1])
        }
    }
}

/// The copies of `s` that survive merging: for each destination region, the
/// last copy queued into it, in queue order.
pub open spec fn keep_last(s: Seq<BufferCopy>) -> Seq<BufferCopy> {
    keep_last_prefix(s, s.len())
}

/// Whether `c` is one of the first `n` copies of `s` that no later copy
/// supersedes.
pub open spec fn unsuperseded_among(s: Seq<BufferCopy>, n: int, c: BufferCopy) -> bool {
    exists|i: int| 0 <= i < n && !superseded(s, i) && c == #[trigger] s[i]
}

/// Whether some copy of `merged` writes the region of `c`.
pub open spec fn target_kept(merged: Seq<BufferCopy>, c: BufferCopy) -> bool {
    exists|k: int| 0 <= k < merged.len() && #[trigger] same_target(merged[k], c)
}

/// The copies to submit for a queue: the last copy into each destination
/// region, in queue order. A hash map keyed by region would hand its
/// survivors out in an order set by its per-process hasher; scanning the
/// queue gives the same survivors in queue order, one of the orders such a
/// map could give, and one that a contract can name.
pub fn last_copy_per_target(copies: &Vec<BufferCopy>) -> (merged: Vec<BufferCopy>)
    ensures
        merged@ == keep_last(copies@),
{
    let n = copies.len();
    let mut merged: Vec<BufferCopy> = Vec::new();
    let mut i: usize = 0;
    while i < n
        invariant
            i <= n,
            n == copies.len(),
            merged@ == keep_last_prefix(copies@, i as nat),
        decreases n - i,
    {
        let c = copies[i];
        let mut later = false;
        let mut j: usize = i + 1;
        while j < n
            invariant
                i < j <= n,
                n == copies.len(),
                c == copies@[i as int],
                later <==> exists|k: int| i < k < j && #[trigger] same_target(
                    copies@[i as int],
                    copies@[k],
                ),
            decreases n - j,
        {
            let d = copies[j];
            if d.dst == c.dst && d.dst_offset == c.dst_offset && d.size == c.size {
                later = true;
                assert(same_target(copies@[i as int], copies@[j as int]));
            } else {
                assert(!same_target(copies@[i as int], copies@[j as int]));
            }
            j = j + 1;
        }
        if !later {
            merged.push(c);
        }
        i = i + 1;
    }
    merged
}

proof fn lemma_keep_last_prefix_members(s: Seq<BufferCopy>, n: nat)
    requires
        n <= s.len(),
    ensures
        forall|k: int|
            0 <= k < keep_last_prefix(s, n).len() ==> unsuperseded_among(
                s,
                n as int,
                #[trigger] keep_last_prefix(s, n)[k],
            ),
        forall|k1: int, k2: int|
            0 <= k1 < k2 < keep_last_prefix(s, n).len() ==> !same_target(
                #[trigger] keep_last_prefix(s, n)[k1],
                #[trigger] keep_last_prefix(s, n)[k2],
            ),
    decreases n,
{
    if n > 0 {
        let m = (n - 1) as nat;
        lemma_keep_last_prefix_members(s, m);
        let rest = keep_last_prefix(s, m);
        if !superseded(s, n - 1) {
            let cur = keep_last_prefix(s, n);
            assert(cur == rest.push(s[n - 1]));
            assert forall|k: int| 0 <= k < cur.len() implies unsuperseded_among(
                s,
                n as int,
                #[trigger] cur[k],
            ) by {
                if k < rest.len() {
                    assert(cur[k] == rest[k]);
                    assert(unsuperseded_among(s, m as int, rest[k]));
                } else {
                    assert(cur[k] == s[n - 1]);
                }
            }
            assert forall|k1: int, k2: int| 0 <= k1 < k2 < cur.len() implies !same_target(
                #[trigger] cur[k1],
                #[trigger] cur[k2],
            ) by {
                if k2 < rest.len() {
                    assert(cur[k1] == rest[k1]);
                    assert(cur[k2] == rest[k2]);
                } else {
                    assert(cur[k1] == rest[k1]);
                    assert(cur[k2] == s[n - 1]);
                    assert(unsuperseded_among(s, m as int, rest[k1]));
                    let i = choose|i: int| 0 <= i < m && !superseded(s, i) && rest[k1] == s[i];
                    if same_target(cur[k1], cur[k2]) {
                        assert(same_target(s[i], s[n - 1]));
                        assert(superseded(s, i));
                    }
                }
            }
        }
    }
}

proof fn lemma_target_kept_from(s: Seq<BufferCopy>, i: int)
    requires
        0 <= i < s.len(),
    ensures
        target_kept(keep_last(s), s[i]),
    decreases s.len() - i,
{
    if superseded(s, i) {
        let j = choose|j: int| i < j < s.len() && #[trigger] same_target(s[i], s[j]);
        lemma_target_kept_from(s, j);
        let merged = keep_last(s);
        let k = choose|k: int| 0 <= k < merged.len() && #[trigger] same_target(merged[k], s[j]);
        assert(same_target(merged[k], s[i]));
    } else {
        lemma_in_keep_last_prefix(s, (i + 1) as nat, s.len(), i);
    }
}

proof fn lemma_in_keep_last_prefix(s: Seq<BufferCopy>, lo: nat, n: nat, i: int)
    requires
        0 <= i < lo <= n <= s.len(),
        !superseded(s, i),
    ensures
        target_kept(keep_last_prefix(s, n), s[i]),
    decreases n,
{
    if n == lo {
        let m = (n - 1) as nat;
        if m == i {
            let cur = keep_last_prefix(s, n);
            assert(cur[cur.len() - 1] == s[i]);
            assert(same_target(cur[cur.len() - 1], s[i]));
        } else {
            lemma_in_keep_last_prefix(s, (lo - 1) as nat, m, i);
            let rest = keep_last_prefix(s, m);
            let k = choose|k: int| 0 <= k < rest.len() && #[trigger] same_target(rest[k], s[i]);
            let cur = keep_last_prefix(s, n);
            assert(cur[k] == rest[k]);
            assert(same_target(cur[k], s[i]));
        }
    } else {
        let m = (n - 1) as nat;
        lemma_in_keep_last_prefix(s, lo, m, i);
        let rest = keep_last_prefix(s, m);
        let k = choose|k: int| 0 <= k < rest.len() && #[trigger] same_target(rest[k], s[i]);
        let cur = keep_last_prefix(s, n);
        assert(cur[k] == rest[k]);
        assert(same_target(cur[k], s[i]));
    }
}

/// Merging keeps exactly one copy per destination region: no two surviving
/// copies write the same region, every queued copy's region is still written
/// by a surviving copy, and each survivor is a queued copy that no later
/// copy overwrites.
pub proof fn lemma_merge_one_copy_per_target(s: Seq<BufferCopy>)
    ensures
        forall|k1: int, k2: int|
            0 <= k1 < k2 < keep_last(s).len() ==> !same_target(
                #[trigger] keep_last(s)[k1],
                #[trigger] keep_last(s)[k2],
            ),
        forall|i: int| 0 <= i < s.len() ==> target_kept(keep_last(s), #[trigger] s[i]),
        forall|k: int|
            0 <= k < keep_last(s).len() ==> unsuperseded_among(
                s,
                s.len() as int,
                #[trigger] keep_last(s)[k],
            ),
{
    lemma_keep_last_prefix_members(s, s.len());
    assert forall|i: int| 0 <= i < s.len() implies target_kept(keep_last(s), #[trigger] s[i]) by {
        lemma_target_kept_from(s, i);
    }
}

} // verus!
