use vstd::prelude::*;
use vstd::relations::*;

verus! {

broadcast use vstd::seq_lib::group_to_multiset_ensures, vstd::multiset::group_multiset_axioms;

/// The order on samples.
pub open spec fn ascending() -> spec_fn(u64, u64) -> bool {
    |a: u64, b: u64| a <= b
}

/// The samples in ascending order.
pub open spec fn sorted_samples(s: Seq<u64>) -> Seq<u64> {
    s.sort_by(ascending())
}

/// The `k`-th smallest sample, counting from zero.
pub open spec fn order_stat(s: Seq<u64>, k: int) -> u64 {
    sorted_samples(s)[k]
}

/// The smallest sample.
pub open spec fn least(s: Seq<u64>) -> u64 {
    order_stat(s, 0)
}

/// The largest sample.
pub open spec fn greatest(s: Seq<u64>) -> u64 {
    order_stat(s, s.len() - 1)
}

/// The two middle samples in ascending order; for an odd count both are the middle one.
pub open spec fn median_pair(s: Seq<u64>) -> (u64, u64) {
    (order_stat(s, (s.len() - 1) / 2), order_stat(s, (s.len() / 2) as int))
}

/// `p` clamped to at most one hundred.
pub open spec fn clamp_percent(p: u32) -> int {
    if p > 100 { 100 } else { p as int }
}

/// Nearest rank: `p / 100 * (n - 1)` rounded to the nearest integer, halves away from zero.
pub open spec fn percentile_rank(n: nat, p: u32) -> int {
    (2 * clamp_percent(p) * (n - 1) + 100) / 200
}

/// The sample at the nearest rank for percent `p`.
pub open spec fn percentile_of(s: Seq<u64>, p: u32) -> u64 {
    order_stat(s, percentile_rank(s.len(), p))
}

/// Every sample before `k` is at most the one at `k`, and every one after it is at least that.
pub open spec fn partitioned_at(s: Seq<u64>, k: int) -> bool {
    &&& forall|i: int| 0 <= i < k ==> s[i] <= s[k]
    &&& forall|j: int| k < j < s.len() ==> s[k] <= s[j]
}

pub proof fn lemma_ascending_total()
    ensures
        total_ordering(ascending()),
{
}

pub proof fn lemma_sorted_samples(s: Seq<u64>)
    ensures
        sorted_by(sorted_samples(s), ascending()),
        sorted_samples(s).to_multiset() == s.to_multiset(),
        sorted_samples(s).len() == s.len(),
        forall|x: u64| s.contains(x) <==> #[trigger] sorted_samples(s).contains(x),
{
    lemma_ascending_total();
    s.lemma_sort_by_ensures(ascending());
    assert(sorted_samples(s).to_multiset().len() == s.to_multiset().len());
    assert forall|x: u64| s.contains(x) <==> #[trigger] sorted_samples(s).contains(x) by {
        assert(s.contains(x) <==> s.to_multiset().count(x) > 0);
        assert(sorted_samples(s).contains(x) <==> sorted_samples(s).to_multiset().count(x) > 0);
    }
}

/// Reordering the samples leaves their ascending order unchanged.
pub proof fn lemma_sorted_samples_permutation(s1: Seq<u64>, s2: Seq<u64>)
    requires
        s1.to_multiset() == s2.to_multiset(),
    ensures
        sorted_samples(s1) == sorted_samples(s2),
{
    lemma_sorted_samples(s1);
    lemma_sorted_samples(s2);
    lemma_ascending_total();
    vstd::seq_lib::lemma_sorted_unique(sorted_samples(s1), sorted_samples(s2), ascending());
}

/// A sequence partitioned at `k` holds the `k`-th smallest sample at `k`, and the largest of
/// what stands before `k` is the one just below it.
pub proof fn lemma_partitioned_order_stat(s: Seq<u64>, k: int)
    requires
        0 <= k < s.len(),
        partitioned_at(s, k),
    ensures
        order_stat(s, k) == s[k],
        forall|m: u64|
            0 < k && s.take(k).contains(m) && (forall|i: int| 0 <= i < k ==> s[i] <= m)
                ==> order_stat(s, k - 1) == m,
{
    let left = s.take(k);
    let right = s.skip(k + 1);
    lemma_sorted_samples(left);
    lemma_sorted_samples(right);
    lemma_sorted_samples(s);
    let sl = sorted_samples(left);
    let sr = sorted_samples(right);
    let t = sl + seq![s[k]] + sr;
    assert(s =~= left + seq![s[k]] + right);
    vstd::seq_lib::lemma_multiset_commutative(left + seq![s[k]], right);
    vstd::seq_lib::lemma_multiset_commutative(left, seq![s[k]]);
    vstd::seq_lib::lemma_multiset_commutative(sl + seq![s[k]], sr);
    vstd::seq_lib::lemma_multiset_commutative(sl, seq![s[k]]);
    assert(t.to_multiset() == s.to_multiset());
    assert forall|i: int| 0 <= i < sl.len() implies sl[i] <= s[k] by {
        assert(sl.contains(sl[i]));
        assert(left.contains(sl[i]));
    }
    assert forall|j: int| 0 <= j < sr.len() implies s[k] <= sr[j] by {
        assert(sr.contains(sr[j]));
        assert(right.contains(sr[j]));
        let jj = choose|jj: int| 0 <= jj < right.len() && right[jj] == sr[j];
        assert(right[jj] == s[k + 1 + jj]);
    }
    assert(sorted_by(t, ascending())) by {
        assert forall|i: int, j: int| 0 <= i < j < t.len() implies #[trigger] ascending()(t[i], t[j]) by {
            if j < k {
                assert(ascending()(sl[i], sl[j]));
            } else if i > k {
                assert(ascending()(sr[i - k - 1], sr[j - k - 1]));
            } else if i < k && j > k {
                assert(sl[i] <= s[k]);
                assert(s[k] <= sr[j - k - 1]);
            }
        }
    }
    lemma_ascending_total();
    vstd::seq_lib::lemma_sorted_unique(t, sorted_samples(s), ascending());
    assert forall|m: u64|
        0 < k && s.take(k).contains(m) && (forall|i: int| 0 <= i < k ==> s[i] <= m)
            implies order_stat(s, k - 1) == m by {
        assert(sl.contains(m));
        let im = choose|im: int| 0 <= im < sl.len() && sl[im] == m;
        assert(ascending()(sl[im], sl[k - 1]) || im == k - 1);
        assert(sl.contains(sl[k - 1]));
        assert(left.contains(sl[k - 1]));
        let il = choose|il: int| 0 <= il < left.len() && left[il] == sl[k - 1];
        assert(s[il] <= m);
        assert(t[k - 1] == sl[k - 1]);
    }
}

/// Exchanges two samples.
fn swap(v: &mut Vec<u64>, i: usize, j: usize)
    requires
        i < old(v).len(),
        j < old(v).len(),
    ensures
        final(v)@ == old(v)@.update(i as int, old(v)@[j as int]).update(j as int, old(v)@[i as int]),
        final(v)@.to_multiset() == old(v)@.to_multiset(),
{
    let a = v[i];
    let b = v[j];
    v.set(i, b);
    v.set(j, a);
    proof {
        let s0 = old(v)@;
        let s1 = s0.update(i as int, b);
        vstd::seq_lib::to_multiset_update(s0, i as int, b);
        vstd::seq_lib::to_multiset_update(s1, j as int, a);
        assert(s1.to_multiset() =~= s0.to_multiset().insert(b).remove(a));
        assert(s1.update(j as int, a).to_multiset() =~= s0.to_multiset());
    }
}

/// Rearranges `v[lo..hi]` around the value that stood last in it and returns where that value
/// now stands: what precedes it in the range is at most it, what follows is above it.
fn partition(v: &mut Vec<u64>, lo: usize, hi: usize, floor: Ghost<int>, ceil: Ghost<int>) -> (p: usize)
    requires
        lo < hi <= old(v).len(),
        forall|t: int| lo <= t < hi ==> floor@ <= #[trigger] old(v)@[t] <= ceil@,
    ensures
        lo <= p < hi,
        final(v)@.len() == old(v)@.len(),
        final(v)@.to_multiset() == old(v)@.to_multiset(),
        final(v)@[p as int] == old(v)@[hi - 1],
        forall|t: int| 0 <= t < lo || hi <= t < final(v)@.len() ==> #[trigger] final(v)@[t] == old(v)@[t],
        forall|t: int| lo <= t < hi ==> floor@ <= #[trigger] final(v)@[t] <= ceil@,
        forall|t: int| lo <= t < p ==> #[trigger] final(v)@[t] <= final(v)@[p as int],
        forall|t: int| p < t < hi ==> final(v)@[p as int] < #[trigger] final(v)@[t],
{
    let pivot = v[hi - 1];
    let mut i: usize = lo;
    let mut j: usize = lo;
    while j < hi - 1
        invariant
            lo <= i <= j <= hi - 1,
            hi <= v@.len(),
            v@.len() == old(v)@.len(),
            v@.to_multiset() == old(v)@.to_multiset(),
            v@[hi - 1] == pivot,
            pivot == old(v)@[hi - 1],
            forall|t: int| 0 <= t < lo || hi <= t < v@.len() ==> #[trigger] v@[t] == old(v)@[t],
            forall|t: int| lo <= t < hi ==> floor@ <= #[trigger] v@[t] <= ceil@,
            forall|t: int| lo <= t < i ==> #[trigger] v@[t] <= pivot,
            forall|t: int| i <= t < j ==> pivot < #[trigger] v@[t],
        decreases hi - 1 - j,
    {
        if v[j] <= pivot {
            swap(v, i, j);
            i = i + 1;
        }
        j = j + 1;
    }
    swap(v, i, hi - 1);
    i
}

/// Rearranges the samples so that the `k`-th smallest stands at `k`, the ones before it are no
/// larger and the ones after it no smaller: a selection, not a sort.
pub fn select_nth(v: &mut Vec<u64>, k: usize)
    requires
        k < old(v).len(),
    ensures
        final(v)@.to_multiset() == old(v)@.to_multiset(),
        final(v)@.len() == old(v)@.len(),
        partitioned_at(final(v)@, k as int),
        final(v)@[k as int] == order_stat(old(v)@, k as int),
{
    let mut lo: usize = 0;
    let mut hi: usize = v.len();
    let ghost mut floor: int = 0;
    let ghost mut ceil: int = u64::MAX as int;
    loop
        invariant
            lo <= k < hi <= v@.len(),
            v@.len() == old(v)@.len(),
            v@.to_multiset() == old(v)@.to_multiset(),
            forall|t: int| 0 <= t < lo ==> #[trigger] v@[t] <= floor,
            forall|t: int| lo <= t < v@.len() ==> floor <= #[trigger] v@[t],
            forall|t: int| 0 <= t < hi ==> #[trigger] v@[t] <= ceil,
            forall|t: int| hi <= t < v@.len() ==> ceil <= #[trigger] v@[t],
        decreases hi - lo,
    {
        let ghost before = v@;
        let p = partition(v, lo, hi, Ghost(floor), Ghost(ceil));
        let ghost pv = v@[p as int];
        assert(floor <= pv <= ceil);
        if p == k {
            assert(partitioned_at(v@, k as int)) by {
                assert forall|i: int| 0 <= i < k implies v@[i] <= v@[k as int] by {
                    if i < lo {
                        assert(before[i] <= floor);
                    }
                }
                assert forall|j: int| k < j < v@.len() implies v@[k as int] <= v@[j] by {
                    if j >= hi {
                        assert(ceil <= before[j]);
                    }
                }
            }
            proof {
                lemma_partitioned_order_stat(v@, k as int);
                lemma_sorted_samples_permutation(v@, old(v)@);
            }
            return;
        } else if k < p {
            proof {
                assert forall|t: int| 0 <= t < p implies #[trigger] v@[t] <= pv by {
                    if t < lo {
                        assert(before[t] <= floor);
                    }
                }
                assert forall|t: int| p <= t < v@.len() implies pv <= #[trigger] v@[t] by {
                    if t >= hi {
                        assert(ceil <= before[t]);
                    }
                }
                ceil = pv as int;
            }
            hi = p;
        } else {
            proof {
                assert forall|t: int| 0 <= t < p + 1 implies #[trigger] v@[t] <= pv by {
                    if t < lo {
                        assert(before[t] <= floor);
                    }
                }
                assert forall|t: int| p + 1 <= t < v@.len() implies pv <= #[trigger] v@[t] by {
                    if t >= hi {
                        assert(ceil <= before[t]);
                    }
                }
                floor = pv as int;
            }
            lo = p + 1;
        }
    }
}

/// A sample that is present and no larger than any other is the smallest.
pub proof fn lemma_least(s: Seq<u64>, m: u64)
    requires
        s.contains(m),
        forall|i: int| 0 <= i < s.len() ==> m <= s[i],
    ensures
        least(s) == m,
{
    lemma_sorted_samples(s);
    let t = sorted_samples(s);
    assert(t.contains(t[0]));
    assert(t.contains(m));
    let i = choose|i: int| 0 <= i < t.len() && t[i] == m;
    assert(i == 0 || ascending()(t[0], t[i]));
}

/// The smallest sample, or `None` for no samples.
pub fn minimum(v: &Vec<u64>) -> (r: Option<u64>)
    ensures
        r is None <==> v@.len() == 0,
        r matches Some(m) ==> m == least(v@) && v@.contains(m),
        r matches Some(m) ==> forall|i: int| 0 <= i < v@.len() ==> m <= v@[i],
{
    if v.len() == 0 {
        return None;
    }
    let mut m = v[0];
    let mut i: usize = 1;
    while i < v.len()
        invariant
            1 <= i <= v@.len(),
            v@.contains(m),
            forall|t: int| 0 <= t < i ==> m <= v@[t],
        decreases v@.len() - i,
    {
        if v[i] < m {
            m = v[i];
        }
        i = i + 1;
    }
    proof {
        lemma_least(v@, m);
    }
    Some(m)
}

/// The two middle samples in ascending order (both the middle one for an odd count), or `None`
/// for no samples. The median is their mean. The samples are reordered.
pub fn median_mut(v: &mut Vec<u64>) -> (r: Option<(u64, u64)>)
    ensures
        final(v)@.to_multiset() == old(v)@.to_multiset(),
        r is None <==> old(v)@.len() == 0,
        r matches Some(pair) ==> pair == median_pair(old(v)@),
{
    let n = v.len();
    if n == 0 {
        return None;
    }
    let mid = n / 2;
    select_nth(v, mid);
    let upper = v[mid];
    if n % 2 == 1 {
        return Some((upper, upper));
    }
    let mut m = v[0];
    let mut i: usize = 1;
    assert(v@.take(mid as int)[0] == v@[0]);
    while i < mid
        invariant
            1 <= i <= mid,
            mid < v@.len(),
            v@.take(mid as int).contains(m),
            forall|t: int| 0 <= t < i ==> v@[t] <= m,
        decreases mid - i,
    {
        if v[i] > m {
            m = v[i];
        }
        proof {
            assert(v@.take(mid as int)[i as int] == v@[i as int]);
        }
        i = i + 1;
    }
    proof {
        lemma_partitioned_order_stat(v@, mid as int);
        lemma_sorted_samples_permutation(v@, old(v)@);
        assert((n - 1) / 2 == mid - 1);
    }
    Some((m, upper))
}

/// The nearest rank for percent `p` (clamped to one hundred) among `len` samples.
pub fn percentile_index(len: usize, p: u32) -> (r: usize)
    requires
        len > 0,
    ensures
        r as int == percentile_rank(len as nat, p),
        r < len,
{
    let pc: u128 = if p > 100 { 100 } else { p as u128 };
    let n1: u128 = (len - 1) as u128;
    assert(2 * pc * n1 <= 200 * n1) by (nonlinear_arith)
        requires pc <= 100;
    assert(200 * n1 <= 200 * 0x1_0000_0000_0000_0000) by (nonlinear_arith)
        requires n1 < 0x1_0000_0000_0000_0000;
    let r = (2 * pc * n1 + 100) / 200;
    assert(r <= n1) by (nonlinear_arith)
        requires r == (2 * pc * n1 + 100) / 200, 2 * pc * n1 <= 200 * n1;
    r as usize
}

/// The sample at the nearest rank for percent `p` (clamped to one hundred), or `None` for no
/// samples. The samples are reordered.
pub fn percentile_mut(v: &mut Vec<u64>, p: u32) -> (r: Option<u64>)
    ensures
        final(v)@.to_multiset() == old(v)@.to_multiset(),
        r is None <==> old(v)@.len() == 0,
        r matches Some(x) ==> x == percentile_of(old(v)@, p),
{
    if v.len() == 0 {
        return None;
    }
    let idx = percentile_index(v.len(), p);
    select_nth(v, idx);
    Some(v[idx])
}

/// Reordering the samples changes none of the aggregates: the smallest sample, the median pair
/// and every percentile depend on the multiset of samples alone.
pub proof fn lemma_aggregates_order_independent(s1: Seq<u64>, s2: Seq<u64>, p: u32)
    requires
        s1.to_multiset() == s2.to_multiset(),
    ensures
        least(s1) == least(s2),
        median_pair(s1) == median_pair(s2),
        percentile_of(s1, p) == percentile_of(s2, p),
{
    lemma_sorted_samples_permutation(s1, s2);
    lemma_sorted_samples(s1);
    lemma_sorted_samples(s2);
}

/// For samples that are not empty, the smallest sample is at most the lower middle one, which is
/// at most the upper middle one, which is at most the largest sample.
pub proof fn lemma_median_between_extremes(s: Seq<u64>)
    requires
        s.len() > 0,
    ensures
        least(s) <= median_pair(s).0 <= median_pair(s).1 <= greatest(s),
{
    lemma_sorted_samples(s);
    let t = sorted_samples(s);
    let n = s.len() as int;
    let a = (n - 1) / 2;
    let b = n / 2;
    assert(a == 0 || ascending()(t[0], t[a]));
    assert(a == b || ascending()(t[a], t[b]));
    assert(b == n - 1 || ascending()(t[b], t[n - 1]));
}

/// For samples that are not empty, the percentile at zero is the smallest sample and the
/// percentile at one hundred is the largest one.
pub proof fn lemma_percentile_extremes(s: Seq<u64>)
    requires
        s.len() > 0,
    ensures
        percentile_of(s, 0) == least(s),
        percentile_of(s, 100) == greatest(s),
        s.contains(least(s)),
        s.contains(greatest(s)),
        forall|i: int| 0 <= i < s.len() ==> least(s) <= #[trigger] s[i] <= greatest(s),
{
    lemma_sorted_samples(s);
    let t = sorted_samples(s);
    let n = s.len() as int;
    assert(percentile_rank(s.len(), 0) == 0);
    assert((2 * 100 * (n - 1) + 100) / 200 == n - 1) by (nonlinear_arith)
        requires n >= 1;
    assert(percentile_rank(s.len(), 100) == n - 1);
    assert(t.contains(t[0]));
    assert(t.contains(t[n - 1]));
    assert forall|i: int| 0 <= i < s.len() implies least(s) <= #[trigger] s[i] <= greatest(s) by {
        assert(s.contains(s[i]));
        assert(t.contains(s[i]));
        let j = choose|j: int| 0 <= j < t.len() && t[j] == s[i];
        assert(j == 0 || ascending()(t[0], t[j]));
        assert(j == n - 1 || ascending()(t[j], t[n - 1]));
    }
}

} // verus!
