//! Exact integer statistics over populations of measurements: sums, sorting,
//! medians, and the rounded fixed-point means the report texts print.
use vstd::prelude::*;
use vstd::arithmetic::div_mod::lemma_fundamental_div_mod;
use vstd::arithmetic::div_mod::lemma_fundamental_div_mod_converse_div;
use vstd::arithmetic::div_mod::lemma_div_is_ordered;
use vstd::arithmetic::div_mod::lemma_div_by_multiple;
use vstd::seq_lib::lemma_sorted_unique;
use vstd::seq_lib::group_to_multiset_ensures;
use vstd::relations::total_ordering;
use vstd::relations::sorted_by;

verus! {

/// The number of sorted values each trimmed mean draws on.
pub const TRIM_COUNT: usize = 500;

/// The ordering the sorting helpers use.
pub open spec fn u64_le() -> spec_fn(u64, u64) -> bool {
    |a: u64, b: u64| a <= b
}

/// The sum of a sequence of measurements, as an unbounded integer.
pub open spec fn sum64(s: Seq<u64>) -> int
    decreases s.len(),
{
    if s.len() == 0 {
        0
    } else {
        sum64(s.drop_last()) + s.last()
    }
}

/// The mean of a sum of `n` values, in hundredths, rounded half-up.
pub open spec fn mean_hundredths(sum: int, n: int) -> int
    recommends
        n >= 1,
{
    (200 * sum + n) / (2 * n)
}

/// The median of a sorted sequence, with the fractional half of an
/// even-length population's middle pair truncated away.
pub open spec fn median_floor(s: Seq<u64>) -> int
    recommends
        s.len() >= 1,
{
    if s.len() % 2 == 1 {
        s[s.len() as int / 2] as int
    } else {
        (s[s.len() as int / 2 - 1] + s[s.len() as int / 2]) as int / 2
    }
}

/// The median of a sorted sequence, in hundredths: an even-length
/// population's middle pair averages to an exact multiple of fifty.
pub open spec fn median_hundredths(s: Seq<u64>) -> int
    recommends
        s.len() >= 1,
{
    if s.len() % 2 == 1 {
        100 * s[s.len() as int / 2]
    } else {
        (s[s.len() as int / 2 - 1] + s[s.len() as int / 2]) * 50
    }
}

pub proof fn lemma_u64_le_total()
    ensures
        total_ordering(u64_le()),
{
}

/// A sequence's sum is bounded by its length times the largest measurement.
pub proof fn lemma_sum64_bounds(s: Seq<u64>)
    ensures
        0 <= sum64(s) <= s.len() * 0xffff_ffff_ffff_ffffu64,
    decreases s.len(),
{
    if s.len() > 0 {
        lemma_sum64_bounds(s.drop_last());
    }
}

/// Removing one element takes exactly its value out of the sum.
pub proof fn lemma_sum64_remove(s: Seq<u64>, i: int)
    requires
        0 <= i < s.len(),
    ensures
        sum64(s.remove(i)) == sum64(s) - s[i],
    decreases s.len(),
{
    if i == s.len() - 1 {
        assert(s.remove(i) =~= s.drop_last());
    } else {
        lemma_sum64_remove(s.drop_last(), i);
        assert(s.remove(i).drop_last() =~= s.drop_last().remove(i));
        assert(s.remove(i).last() == s.last());
    }
}

/// Reordering a sequence does not change its sum.
pub proof fn lemma_sum64_permutation(a: Seq<u64>, b: Seq<u64>)
    requires
        a.to_multiset() == b.to_multiset(),
    ensures
        sum64(a) == sum64(b),
    decreases a.len(),
{
    broadcast use group_to_multiset_ensures;

    assert(a.len() == a.to_multiset().len());
    assert(b.len() == b.to_multiset().len());
    if a.len() > 0 {
        let x = a.last();
        assert(a.to_multiset().contains(x));
        assert(b.contains(x));
        let j = choose|j: int| 0 <= j < b.len() && b[j] == x;
        assert(a.remove(a.len() - 1).to_multiset() =~= a.to_multiset().remove(x));
        assert(b.remove(j).to_multiset() =~= b.to_multiset().remove(x));
        assert(a.remove(a.len() - 1) =~= a.drop_last());
        lemma_sum64_permutation(a.drop_last(), b.remove(j));
        lemma_sum64_remove(b, j);
    }
}

/// Inserting an element anywhere adds exactly one occurrence of it to the
/// sequence's multiset.
pub proof fn lemma_insert_to_multiset(s: Seq<u64>, i: int, x: u64)
    requires
        0 <= i <= s.len(),
    ensures
        s.insert(i, x).to_multiset() =~= s.to_multiset().insert(x),
{
    broadcast use group_to_multiset_ensures;

    let t = s.insert(i, x);
    assert(t.remove(i) =~= s);
    assert(t[i] == x);
    assert(t.remove(i).to_multiset() =~= t.to_multiset().remove(x));
    assert(t.to_multiset().contains(x));
    assert forall|y: u64| s.to_multiset().insert(x).count(y) == t.to_multiset().count(y) by {
        if y == x {
            assert(s.to_multiset().count(y) == t.to_multiset().remove(x).count(y));
        } else {
            assert(s.to_multiset().count(y) == t.to_multiset().remove(x).count(y));
        }
    }
}

/// A value that bounds a sequence from below and occurs in it is the first
/// element of the sorted sequence, and likewise the greatest is the last.
pub proof fn lemma_extremes_of_sorted(s: Seq<u64>, mn: u64, mx: u64)
    requires
        s.len() >= 1,
        s.contains(mn),
        s.contains(mx),
        forall|i: int| 0 <= i < s.len() ==> mn <= #[trigger] s[i] && s[i] <= mx,
    ensures
        s.sort_by(u64_le())[0] == mn,
        s.sort_by(u64_le())[s.len() - 1] == mx,
{
    broadcast use group_to_multiset_ensures;

    lemma_u64_le_total();
    s.lemma_sort_by_ensures(u64_le());
    let t = s.sort_by(u64_le());
    assert(t.len() == t.to_multiset().len());
    assert(s.len() == s.to_multiset().len());
    assert(s.to_multiset().contains(mn));
    assert(t.to_multiset().contains(mn));
    assert(t.contains(mn));
    let j = choose|j: int| 0 <= j < t.len() && t[j] == mn;
    assert(t.to_multiset().contains(t[0]));
    assert(s.to_multiset().contains(t[0]));
    assert(s.contains(t[0]));
    if j > 0 {
        assert(u64_le()(t[0], t[j]));
    }
    assert(s.to_multiset().contains(mx));
    assert(t.to_multiset().contains(mx));
    assert(t.contains(mx));
    let k = choose|k: int| 0 <= k < t.len() && t[k] == mx;
    assert(t.to_multiset().contains(t[t.len() - 1]));
    assert(s.to_multiset().contains(t[t.len() - 1]));
    assert(s.contains(t[t.len() - 1]));
    if k < t.len() - 1 {
        assert(u64_le()(t[k], t[t.len() - 1]));
    }
}

/// Sorts the measurements ascending.
pub fn sort_u64(v: &Vec<u64>) -> (out: Vec<u64>)
    ensures
        out@ == v@.sort_by(u64_le()),
        out@.len() == v@.len(),
        out@.to_multiset() == v@.to_multiset(),
        sorted_by(out@, u64_le()),
{
    broadcast use group_to_multiset_ensures;

    let mut out: Vec<u64> = Vec::new();
    let mut i: usize = 0;
    proof {
        assert(v@.subrange(0, 0) =~= Seq::<u64>::empty());
        assert(out@.to_multiset() =~= v@.subrange(0, 0).to_multiset());
    }
    while i < v.len()
        invariant
            i <= v.len(),
            sorted_by(out@, u64_le()),
            out@.to_multiset() == v@.subrange(0, i as int).to_multiset(),
            out@.len() == i,
        decreases v.len() - i,
    {
        let x = v[i];
        let mut p: usize = 0;
        while p < out.len() && out[p] <= x
            invariant
                p <= out.len(),
                forall|j: int| 0 <= j < p ==> out@[j] <= x,
            decreases out.len() - p,
        {
            p = p + 1;
        }
        proof {
            lemma_insert_to_multiset(out@, p as int, x);
            assert(v@.subrange(0, i + 1) =~= v@.subrange(0, i as int).push(v@[i as int]));
            vstd::seq_lib::to_multiset_build::<u64>(v@.subrange(0, i as int), v@[i as int]);
            let t = out@.insert(p as int, x);
            assert(t.to_multiset() =~= v@.subrange(0, i + 1).to_multiset());
            assert forall|m: int, n: int| 0 <= m < n < t.len() implies u64_le()(t[m], t[n]) by {
                if n < p {
                    assert(u64_le()(out@[m], out@[n]));
                } else if m > p {
                    assert(u64_le()(out@[m - 1], out@[n - 1]));
                } else if m < p && n == p {
                    assert(out@[m] <= x);
                } else if m == p && n > p {
                    assert(p < out@.len());
                    assert(x < out@[p as int]);
                    if n > p + 1 {
                        assert(u64_le()(out@[p as int], out@[n - 1]));
                    }
                } else if m < p && n > p {
                    assert(out@[m] <= x);
                    assert(x < out@[p as int]);
                    if n > p + 1 {
                        assert(u64_le()(out@[p as int], out@[n - 1]));
                    }
                }
            }
        }
        out.insert(p, x);
        i = i + 1;
    }
    proof {
        assert(v@.subrange(0, v@.len() as int) =~= v@);
        lemma_u64_le_total();
        v@.lemma_sort_by_ensures(u64_le());
        lemma_sorted_unique(out@, v@.sort_by(u64_le()), u64_le());
    }
    out
}

/// Sums the measurements into a register wide enough never to overflow.
pub fn sum_measurements(v: &Vec<u64>) -> (s: u128)
    ensures
        s as int == sum64(v@),
{
    let mut s: u128 = 0;
    let mut i: usize = 0;
    proof {
        assert(v@.subrange(0, 0) =~= Seq::<u64>::empty());
    }
    while i < v.len()
        invariant
            i <= v.len(),
            s as int == sum64(v@.subrange(0, i as int)),
        decreases v.len() - i,
    {
        proof {
            lemma_sum64_bounds(v@.subrange(0, i as int));
            assert(v@.subrange(0, i + 1).drop_last() =~= v@.subrange(0, i as int));
        }
        s = s + v[i] as u128;
        i = i + 1;
    }
    proof {
        assert(v@.subrange(0, v@.len() as int) =~= v@);
    }
    s
}

/// Sums the measurements between two positions of a series.
pub fn sum_range(v: &Vec<u64>, lo: usize, hi: usize) -> (s: u128)
    requires
        lo <= hi <= v@.len(),
    ensures
        s as int == sum64(v@.subrange(lo as int, hi as int)),
{
    let mut s: u128 = 0;
    let mut j: usize = lo;
    proof {
        assert(v@.subrange(lo as int, lo as int) =~= Seq::<u64>::empty());
    }
    while j < hi
        invariant
            lo <= j <= hi <= v@.len(),
            s as int == sum64(v@.subrange(lo as int, j as int)),
        decreases hi - j,
    {
        proof {
            lemma_sum64_bounds(v@.subrange(lo as int, j as int));
            assert(v@.subrange(lo as int, j + 1).drop_last() =~= v@.subrange(lo as int, j as int));
        }
        s = s + v[j] as u128;
        j = j + 1;
    }
    s
}

/// The floored mean `sum / n`; it never exceeds the largest measurement's
/// possible value.
pub fn mean_floor(sum: u128, n: usize) -> (m: u64)
    requires
        n >= 1,
        sum as int <= (n as int) * 0xffff_ffff_ffff_ffffu64,
    ensures
        m as int == sum as int / n as int,
{
    proof {
        lemma_div_is_ordered(sum as int, (n as int) * 0xffff_ffff_ffff_ffffu64, n as int);
        lemma_div_by_multiple(0xffff_ffff_ffff_ffffu64 as int, n as int);
        assert((0xffff_ffff_ffff_ffffu64 * (n as int)) / (n as int) == 0xffff_ffff_ffff_ffffu64);
    }
    (sum / n as u128) as u64
}

/// The rounded mean in hundredths, as `mean_hundredths` states it.
pub fn mean_hundredths_exec(sum: u128, n: usize) -> (h: u128)
    requires
        n >= 1,
        sum as int <= (n as int) * 0xffff_ffff_ffff_ffffu64,
    ensures
        h as int == mean_hundredths(sum as int, n as int),
{
    let q: u128 = sum / n as u128;
    let r: u128 = sum % n as u128;
    proof {
        lemma_div_is_ordered(sum as int, (n as int) * 0xffff_ffff_ffff_ffffu64, n as int);
        lemma_div_by_multiple(0xffff_ffff_ffff_ffffu64 as int, n as int);
    }
    let part: u128 = (200 * r + n as u128) / (2 * n as u128);
    let h: u128 = q * 100 + part;
    proof {
        let si = sum as int;
        let ni = n as int;
        let qi = si / ni;
        let ri = si % ni;
        lemma_fundamental_div_mod(si, ni);
        let b = 200 * ri + ni;
        assert(0 <= b < 201 * ni);
        let pi = b / (2 * ni);
        assert(200 * si + ni == (100 * qi + pi) * (2 * ni) + b % (2 * ni)) by {
            lemma_fundamental_div_mod(b, 2 * ni);
            assert((100 * qi + pi) * (2 * ni) == 200 * (qi * ni) + pi * (2 * ni)) by (nonlinear_arith);
            assert(si == qi * ni + ri);
            assert(200 * si == 200 * (qi * ni) + 200 * ri) by (nonlinear_arith)
                requires
                    si == qi * ni + ri,
            ;
        }
        assert(0 <= b % (2 * ni) < 2 * ni) by {
            lemma_fundamental_div_mod(b, 2 * ni);
        }
        lemma_fundamental_div_mod_converse_div(200 * si + ni, 2 * ni, 100 * qi + pi, b % (2 * ni));
        assert(h as int == 100 * qi + pi);
    }
    h
}

} // verus!
