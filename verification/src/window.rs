//! Temporal windowing: selecting, for a target time bucket, the trailing
//! window of buckets whose positions are aggregated into one frame. Two
//! policies exist: count-windowing takes the most recent available buckets
//! regardless of gaps in the indices, range-windowing takes exactly the
//! buckets whose index lies in the trailing range, so gaps shrink what is
//! actually aggregated.

use vstd::prelude::*;
use crate::geo::{BucketEntry, Position, PositionSet};

verus! {

/// Which trailing buckets a window of nominal size `n` covers.
#[derive(Clone, Copy, PartialEq, Eq, Structural, Debug)]
pub enum WindowPolicy {
    /// The `n` largest bucket indices at or before the target, however far
    /// back they reach; robust to gaps in the bucket indices.
    Count,
    /// Every bucket with index in `[target - n + 1, target]`; a missing
    /// index silently shrinks the aggregated window.
    Range,
}

/// Number of elements of `s` that are at most `t`.
pub open spec fn count_le(s: Seq<u32>, t: int) -> nat
    decreases s.len(),
{
    if s.len() == 0 {
        0
    } else {
        count_le(s.drop_last(), t) + if s.last() <= t {
            1 as nat
        } else {
            0 as nat
        }
    }
}

/// `s` is strictly ascending.
pub open spec fn sorted_strict(s: Seq<u32>) -> bool {
    forall|i: int, j: int| 0 <= i < j < s.len() ==> s[i] < s[j]
}

/// One past the last selected index: the number of buckets at or before the
/// target.
pub open spec fn window_hi(s: Seq<u32>, target: u32) -> int {
    count_le(s, target as int) as int
}

/// First selected index under the given policy.
pub open spec fn window_lo(s: Seq<u32>, target: u32, n: u32, policy: WindowPolicy) -> int {
    let k = window_hi(s, target);
    match policy {
        WindowPolicy::Count => if n as int <= k {
            k - n
        } else {
            0
        },
        WindowPolicy::Range => count_le(s, target as int - n as int) as int,
    }
}

/// The bucket indices the policy selects out of the ascending list `s`.
pub open spec fn selected_buckets(s: Seq<u32>, target: u32, n: u32, policy: WindowPolicy) -> Seq<
    u32,
> {
    s.subrange(window_lo(s, target, n, policy), window_hi(s, target))
}

/// The positions of the entries with index in `[lo, hi)`, concatenated in
/// ascending bucket order.
pub open spec fn combined_positions(entries: Seq<BucketEntry>, lo: int, hi: int) -> Seq<Position>
    decreases hi - lo,
{
    if lo >= hi {
        Seq::empty()
    } else {
        combined_positions(entries, lo, hi - 1) + entries[hi - 1].positions@
    }
}

/// In an ascending list, the elements at most `t` are exactly the first
/// `count_le(s, t)`.
pub proof fn lemma_count_le_sorted(s: Seq<u32>, t: int)
    requires
        sorted_strict(s),
    ensures
        count_le(s, t) <= s.len(),
        forall|i: int| 0 <= i < count_le(s, t) ==> s[i] <= t,
        forall|i: int| count_le(s, t) <= i < s.len() ==> s[i] > t,
    decreases s.len(),
{
    if s.len() > 0 {
        let s0 = s.drop_last();
        assert(sorted_strict(s0));
        lemma_count_le_sorted(s0, t);
        if s.last() <= t {
            if count_le(s0, t) < s0.len() {
                assert(s0[count_le(s0, t) as int] > t);
                assert(s0[count_le(s0, t) as int] == s[count_le(s0, t) as int]);
                assert(s[count_le(s0, t) as int] < s[s.len() - 1]);
                assert(false);
            }
            assert(count_le(s0, t) == s0.len());
        }
        assert forall|i: int| 0 <= i < count_le(s, t) implies s[i] <= t by {
            if i < s.len() - 1 {
                assert(s[i] == s0[i]);
                assert(s0[i] <= t);
            }
        }
        assert forall|i: int| count_le(s, t) <= i < s.len() implies s[i] > t by {
            if i < s.len() - 1 {
                assert(s[i] == s0[i]);
                assert(s0[i] > t);
            }
        }
    }
}

/// `count_le` never exceeds the list's length.
pub proof fn lemma_count_le_le_len(s: Seq<u32>, t: int)
    ensures
        count_le(s, t) <= s.len(),
    decreases s.len(),
{
    if s.len() > 0 {
        lemma_count_le_le_len(s.drop_last(), t);
    }
}

/// `count_le` grows with the threshold.
pub proof fn lemma_count_le_mono(s: Seq<u32>, t1: int, t2: int)
    requires
        t1 <= t2,
    ensures
        count_le(s, t1) <= count_le(s, t2),
    decreases s.len(),
{
    if s.len() > 0 {
        lemma_count_le_mono(s.drop_last(), t1, t2);
    }
}

/// In an ascending list, the element `b` found at index `j` is preceded
/// exactly by the elements at most `b`.
proof fn lemma_index_of_sorted(s: Seq<u32>, b: u32, j: int)
    requires
        sorted_strict(s),
        0 <= j < s.len(),
        s[j] == b,
    ensures
        count_le(s, b as int) == j + 1,
{
    lemma_count_le_sorted(s, b as int);
    let cb = count_le(s, b as int) as int;
    if cb <= j {
        assert(s[j] > b);
    }
    if cb > j + 1 {
        assert(s[j + 1] <= b);
        assert(s[j] < s[j + 1]);
    }
}

/// What the range policy means, bucket by bucket: it selects exactly the
/// available buckets whose index lies in `[target - n + 1, target]`; an
/// index missing from the list is simply not there to select.
pub proof fn lemma_range_window_membership(s: Seq<u32>, target: u32, n: u32, b: u32)
    requires
        sorted_strict(s),
    ensures
        selected_buckets(s, target, n, WindowPolicy::Range).contains(b) <==> (s.contains(b)
            && target - n < b <= target),
{
    lemma_count_le_sorted(s, target as int);
    lemma_count_le_sorted(s, target as int - n as int);
    lemma_count_le_mono(s, target as int - n as int, target as int);
    let lo = count_le(s, target as int - n as int) as int;
    let hi = count_le(s, target as int) as int;
    let sel = selected_buckets(s, target, n, WindowPolicy::Range);
    if sel.contains(b) {
        let i = choose|i: int| 0 <= i < sel.len() && sel[i] == b;
        assert(s[lo + i] == b);
        assert(s.contains(b));
    }
    if s.contains(b) && target - n < b <= target {
        let j = choose|j: int| 0 <= j < s.len() && s[j] == b;
        assert(lo <= j < hi) by {
            if j < lo {
                assert(s[j] <= target as int - n as int);
            }
            if j >= hi {
                assert(s[j] > target);
            }
        }
        assert(sel[j - lo] == b);
    }
}

/// What the count policy means, bucket by bucket: it selects exactly the
/// available buckets at or before the target that have fewer than `n`
/// available buckets after them up to the target -- the `n` most recent
/// available buckets, however far back they reach.
pub proof fn lemma_count_window_membership(s: Seq<u32>, target: u32, n: u32, b: u32)
    requires
        sorted_strict(s),
    ensures
        selected_buckets(s, target, n, WindowPolicy::Count).contains(b) <==> (s.contains(b)
            && b <= target && count_le(s, target as int) - count_le(s, b as int) < n),
{
    lemma_count_le_sorted(s, target as int);
    let k = count_le(s, target as int) as int;
    let m: int = if n as int <= k {
        n as int
    } else {
        k
    };
    let sel = selected_buckets(s, target, n, WindowPolicy::Count);
    if sel.contains(b) {
        let i = choose|i: int| 0 <= i < sel.len() && sel[i] == b;
        let j = k - m + i;
        assert(s[j] == b);
        assert(s.contains(b));
        assert(s[j] <= target);
        lemma_index_of_sorted(s, b, j);
    }
    if s.contains(b) && b <= target && count_le(s, target as int) - count_le(s, b as int)
        < n {
        let j = choose|j: int| 0 <= j < s.len() && s[j] == b;
        lemma_index_of_sorted(s, b, j);
        assert(j < k) by {
            if j >= k {
                assert(s[j] > target);
            }
        }
        assert(j >= k - m);
        assert(sel[j - (k - m)] == b);
    }
}

/// Length of a combined range of positions, as a difference of the set's
/// prefix counts.
pub proof fn lemma_combined_len(ps: PositionSet, lo: int, hi: int)
    requires
        0 <= lo <= hi <= ps.entries@.len(),
    ensures
        combined_positions(ps.entries@, lo, hi).len() == ps.count_upto(hi) - ps.count_upto(lo),
    decreases hi - lo,
{
    if lo < hi {
        lemma_combined_len(ps, lo, hi - 1);
    }
}

/// Prefix counts grow with the prefix.
pub proof fn lemma_count_upto_mono(ps: PositionSet, k1: int, k2: int)
    requires
        k1 <= k2,
    ensures
        ps.count_upto(k1) <= ps.count_upto(k2),
    decreases k2 - k1,
{
    if k1 < k2 {
        lemma_count_upto_mono(ps, k1, k2 - 1);
    }
}

/// Every position of a combined range is well formed when the set is.
pub proof fn lemma_combined_wf(ps: PositionSet, lo: int, hi: int)
    requires
        ps.wf(),
        0 <= lo <= hi <= ps.entries@.len(),
    ensures
        forall|k: int| 0 <= k < combined_positions(ps.entries@, lo, hi).len()
            ==> (#[trigger] combined_positions(ps.entries@, lo, hi)[k]).wf(),
    decreases hi - lo,
{
    if lo < hi {
        lemma_combined_wf(ps, lo, hi - 1);
        let whole = combined_positions(ps.entries@, lo, hi);
        let head = combined_positions(ps.entries@, lo, hi - 1);
        assert forall|k: int| 0 <= k < whole.len() implies (#[trigger] whole[k]).wf() by {
            if k < head.len() {
                assert(whole[k] == head[k]);
            } else {
                assert(whole[k] == ps.entries@[hi - 1].positions@[k - head.len()]);
                assert(ps.valid_idx(hi - 1, k - head.len()));
                assert(ps.pos_at(hi - 1, k - head.len()).wf());
            }
        }
    }
}

/// The buckets and combined positions selected for one target bucket, with
/// the selected indices available for diagnostics.
#[derive(Clone, PartialEq, Eq, Debug)]
pub struct WindowSelection {
    pub buckets: Vec<u32>,
    pub positions: Vec<Position>,
}

impl WindowSelection {
    /// Smallest selected bucket index, if any bucket was selected.
    pub fn min_bucket(&self) -> (r: Option<u32>)
        ensures
            r is Some <==> self.buckets@.len() > 0,
            r is Some ==> self.buckets@.contains(r->0) && (forall|i: int|
                0 <= i < self.buckets@.len() ==> r->0 <= #[trigger] self.buckets@[i]),
    {
        if self.buckets.len() == 0 {
            return None;
        }
        let mut m: u32 = self.buckets[0];
        let mut i: usize = 1;
        while i < self.buckets.len()
            invariant
                1 <= i <= self.buckets@.len(),
                self.buckets@.len() > 0,
                self.buckets@.contains(m),
                forall|i2: int| 0 <= i2 < i ==> m <= #[trigger] self.buckets@[i2],
            decreases self.buckets@.len() - i,
        {
            if self.buckets[i] < m {
                m = self.buckets[i];
                proof {
                    assert(self.buckets@[i as int] == m);
                }
            }
            i += 1;
        }
        Some(m)
    }

    /// Largest selected bucket index, if any bucket was selected.
    pub fn max_bucket(&self) -> (r: Option<u32>)
        ensures
            r is Some <==> self.buckets@.len() > 0,
            r is Some ==> self.buckets@.contains(r->0) && (forall|i: int|
                0 <= i < self.buckets@.len() ==> r->0 >= #[trigger] self.buckets@[i]),
    {
        if self.buckets.len() == 0 {
            return None;
        }
        let mut m: u32 = self.buckets[0];
        let mut i: usize = 1;
        while i < self.buckets.len()
            invariant
                1 <= i <= self.buckets@.len(),
                self.buckets@.len() > 0,
                self.buckets@.contains(m),
                forall|i2: int| 0 <= i2 < i ==> m >= #[trigger] self.buckets@[i2],
            decreases self.buckets@.len() - i,
        {
            if self.buckets[i] > m {
                m = self.buckets[i];
                proof {
                    assert(self.buckets@[i as int] == m);
                }
            }
            i += 1;
        }
        Some(m)
    }
}

/// Appends a copy of every position of `src` to `dst`.
fn append_positions(dst: &mut Vec<Position>, src: &Vec<Position>)
    ensures
        final(dst)@ == old(dst)@ + src@,
{
    let mut j: usize = 0;
    while j < src.len()
        invariant
            0 <= j <= src@.len(),
            dst@ == old(dst)@ + src@.subrange(0, j as int),
        decreases src@.len() - j,
    {
        dst.push(src[j]);
        proof {
            assert(src@.subrange(0, j + 1) =~= src@.subrange(0, j as int).push(src@[j as int]));
            assert(dst@ =~= old(dst)@ + src@.subrange(0, j + 1));
        }
        j += 1;
    }
    proof {
        assert(src@.subrange(0, src@.len() as int) =~= src@);
    }
}

/// Selects the trailing window for `target` under the given policy and
/// returns both the selected bucket indices (ascending) and their positions
/// concatenated in ascending bucket order. An empty selection is the
/// caller's signal to skip the frame; it is not an error.
#[verifier::loop_isolation(false)]
pub fn select_window(pset: &PositionSet, target: u32, n: u32, policy: WindowPolicy) -> (w:
    WindowSelection)
    requires
        pset.wf(),
    ensures
        w.buckets@ == selected_buckets(pset.buckets(), target, n, policy),
        w.positions@ == combined_positions(
            pset.entries@,
            window_lo(pset.buckets(), target, n, policy),
            window_hi(pset.buckets(), target),
        ),
{
    let ghost s = pset.buckets();
    proof {
        assert(s.len() == pset.entries@.len());
        assert(forall|i: int| 0 <= i < s.len() ==> s[i] == pset.entries@[i].bucket);
        assert(sorted_strict(s));
        lemma_count_le_sorted(s, target as int);
        lemma_count_le_sorted(s, target as int - n as int);
        lemma_count_le_mono(s, target as int - n as int, target as int);
    }
    let len = pset.entries.len();
    let mut k: usize = 0;
    while k < len && pset.entries[k].bucket <= target
        invariant
            0 <= k <= len,
            forall|i: int| 0 <= i < k ==> s[i] <= target,
        decreases len - k,
    {
        k += 1;
    }
    proof {
        if k < len {
            assert(s[k as int] > target);
        }
        let cnt = count_le(s, target as int) as int;
        if cnt < k {
            assert(s[cnt] > target);
        }
        if cnt > k {
            assert(s[k as int] <= target);
        }
        assert(k == window_hi(s, target));
    }
    let lo: usize = match policy {
        WindowPolicy::Count => {
            if (n as usize) <= k {
                k - n as usize
            } else {
                0
            }
        },
        WindowPolicy::Range => {
            let mut lo: usize = 0;
            while lo < len && (pset.entries[lo].bucket as u64) + (n as u64) <= (target as u64)
                invariant
                    0 <= lo <= len,
                    forall|i: int| 0 <= i < lo ==> s[i] <= target as int - n as int,
                decreases len - lo,
            {
                lo += 1;
            }
            proof {
                if lo < len {
                    assert(s[lo as int] > target as int - n as int);
                }
                let cnt = count_le(s, target as int - n as int) as int;
                if cnt < lo {
                    assert(s[cnt] > target as int - n as int);
                }
                if cnt > lo {
                    assert(s[lo as int] <= target as int - n as int);
                }
                assert(lo == count_le(s, target as int - n as int));
            }
            lo
        },
    };
    proof {
        assert(lo == window_lo(s, target, n, policy));
        assert(lo <= k);
    }
    let mut buckets: Vec<u32> = Vec::new();
    let mut positions: Vec<Position> = Vec::new();
    let mut idx: usize = lo;
    while idx < k
        invariant
            lo <= idx <= k,
            buckets@ == s.subrange(lo as int, idx as int),
            positions@ == combined_positions(pset.entries@, lo as int, idx as int),
        decreases k - idx,
    {
        buckets.push(pset.entries[idx].bucket);
        append_positions(&mut positions, &pset.entries[idx].positions);
        proof {
            assert(s.subrange(lo as int, idx + 1) =~= s.subrange(lo as int, idx as int).push(
                s[idx as int],
            ));
        }
        idx += 1;
    }
    WindowSelection { buckets, positions }
}

} // verus!
