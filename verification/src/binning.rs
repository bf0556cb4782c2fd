//! Quantile bin edges and continuous-value binning.
//!
//! Continuous feature values are handled through an order-preserving integer
//! key: all the binning logic ever does with a raw value is compare it, so a
//! `u64` key that sorts the same way carries everything the algorithm reads.

use vstd::prelude::*;

verus! {

use vstd::relations::sorted_by;
use vstd::relations::total_ordering;
use vstd::seq_lib::lemma_sorted_unique;
use vstd::arithmetic::mul::lemma_mul_inequality;
use vstd::arithmetic::mul::lemma_mul_strict_inequality;
use vstd::arithmetic::div_mod::lemma_div_is_ordered;
use vstd::arithmetic::div_mod::lemma_multiply_divide_lt;

/// A sequence is sorted in non-decreasing order.
pub open spec fn is_sorted(s: Seq<u64>) -> bool {
    forall|i: int, j: int| 0 <= i <= j < s.len() ==> s[i] <= s[j]
}

/// Index of the first edge that is at least `value`; `edges.len()` if none is.
pub open spec fn first_edge_at_least(value: u64, edges: Seq<u64>) -> int
    decreases edges.len(),
{
    if edges.len() == 0 {
        0
    } else if value <= edges[0] {
        0
    } else {
        1 + first_edge_at_least(value, edges.drop_first())
    }
}

/// Bin id assigned to `value` by `edges`: the first edge index holding the
/// value, or, past every edge, the overflow bin `min(edges.len(), 254)`.
pub open spec fn spec_bin(value: u64, edges: Seq<u64>) -> int {
    let first = first_edge_at_least(value, edges);
    if first < edges.len() {
        first
    } else if edges.len() <= 254 {
        edges.len() as int
    } else {
        254
    }
}

/// `first_edge_at_least` is exactly the least index whose edge admits `value`.
pub proof fn lemma_first_edge_at_least(value: u64, edges: Seq<u64>)
    ensures
        0 <= first_edge_at_least(value, edges) <= edges.len(),
        first_edge_at_least(value, edges) < edges.len()
            ==> value <= edges[first_edge_at_least(value, edges)],
        forall|j: int| 0 <= j < first_edge_at_least(value, edges) ==> edges[j] < value,
    decreases edges.len(),
{
    if edges.len() > 0 && !(value <= edges[0]) {
        lemma_first_edge_at_least(value, edges.drop_first());
        assert forall|j: int| 0 <= j < first_edge_at_least(value, edges) implies edges[j]
            < value by {
            if j > 0 {
                assert(edges.drop_first()[j - 1] == edges[j]);
            }
        }
    }
}

/// Maps a continuous value, given as an order key, to a bin id: the index of
/// the first edge that is `>= value`, or `min(edges.len(), 254)` when the
/// value lies beyond every edge.
pub fn bin_continuous(value: u64, edges: &Vec<u64>) -> (r: u8)
    requires
        edges@.len() <= 255,
    ensures
        r as int == spec_bin(value, edges@),
{
    proof {
        lemma_first_edge_at_least(value, edges@);
    }
    let n = edges.len();
    let mut i: usize = 0;
    while i < n
        invariant
            0 <= i <= n,
            n == edges@.len() <= 255,
            forall|j: int| 0 <= j < i ==> edges@[j] < value,
            0 <= first_edge_at_least(value, edges@) <= edges@.len(),
            first_edge_at_least(value, edges@) < edges@.len()
                ==> value <= edges@[first_edge_at_least(value, edges@)],
            forall|j: int| 0 <= j < first_edge_at_least(value, edges@) ==> edges@[j] < value,
        decreases n - i,
    {
        if value <= edges[i] {
            return i as u8;
        }
        i = i + 1;
    }
    if n <= 254 {
        n as u8
    } else {
        254
    }
}

/// Binning is monotonic: over sorted edges, a smaller value never lands in a
/// later bin than a larger one.
pub proof fn lemma_bin_continuous_monotonic(a: u64, b: u64, edges: Seq<u64>)
    requires
        is_sorted(edges),
        a <= b,
        edges.len() <= 255,
    ensures
        spec_bin(a, edges) <= spec_bin(b, edges),
{
    lemma_first_edge_at_least(a, edges);
    lemma_first_edge_at_least(b, edges);
    let fa = first_edge_at_least(a, edges);
    let fb = first_edge_at_least(b, edges);
    if fb < fa {
        assert(edges[fb] < a);
        assert(b <= edges[fb]);
    }
}

/// The non-decreasing order on keys, as a relation value for vstd's sorting
/// vocabulary.
pub open spec fn u64_leq() -> spec_fn(u64, u64) -> bool {
    |a: u64, b: u64| a <= b
}

/// The sorted (non-decreasing) rearrangement of a sequence of keys.
pub open spec fn sorted_of(s: Seq<u64>) -> Seq<u64> {
    s.sort_by(u64_leq())
}

/// Quantile edges over a sample: entry `j` is the sorted sample's value at
/// index `floor((j + 1) * len / num_bins)`.  Empty when the sample is empty
/// or `num_bins` is zero.
pub open spec fn spec_bin_edges(values: Seq<u64>, num_bins: int) -> Seq<u64> {
    if values.len() == 0 || num_bins == 0 {
        Seq::empty()
    } else {
        Seq::new(
            (num_bins - 1) as nat,
            |j: int| sorted_of(values)[(j + 1) * (values.len() as int) / num_bins],
        )
    }
}

pub proof fn lemma_u64_leq_total()
    ensures
        total_ordering(u64_leq()),
{
    assert(vstd::relations::antisymmetric(u64_leq()));
    assert(vstd::relations::transitive(u64_leq()));
    assert(vstd::relations::connected(u64_leq()));
}

/// A sorted permutation of a sequence is its unique sorted rearrangement.
pub proof fn lemma_sorted_permutation_is_sorted_of(orig: Seq<u64>, s: Seq<u64>)
    requires
        sorted_by(s, u64_leq()),
        s.to_multiset() == orig.to_multiset(),
    ensures
        s == sorted_of(orig),
{
    lemma_u64_leq_total();
    orig.lemma_sort_by_ensures(u64_leq());
    assert(s.to_multiset() =~= orig.sort_by(u64_leq()).to_multiset());
    lemma_sorted_unique(s, orig.sort_by(u64_leq()), u64_leq());
    assert(s =~= sorted_of(orig));
}

/// Relies on `<[u64]>::sort`: sorts the slice in non-decreasing order, and
/// the result holds exactly the items of the input (a permutation).
#[verifier::external_body]
fn sort_keys(v: &mut Vec<u64>)
    ensures
        sorted_by(final(v)@, u64_leq()),
        final(v)@.to_multiset() == old(v)@.to_multiset(),
        final(v)@.len() == old(v)@.len(),
{
    v.sort();
}

/// Equal-frequency (quantile) binning: sorts the sample and, for each `i` in
/// `1..num_bins`, takes the value at `floor(i * len / num_bins)` as an edge.
/// Over a non-empty sample every such index is in range, so the result has
/// exactly `num_bins - 1` edges, in non-decreasing order; duplicate values
/// may yield equal adjacent edges, which is accepted as a lossy
/// approximation.  An empty sample or a zero bin count yields no edges.
pub fn compute_bin_edges(values: &Vec<u64>, num_bins: usize) -> (edges: Vec<u64>)
    requires
        (num_bins as int) * (values@.len() as int) <= usize::MAX as int,
    ensures
        edges@ == spec_bin_edges(values@, num_bins as int),
        is_sorted(edges@),
        num_bins >= 1 ==> edges@.len() <= num_bins - 1,
        values@.len() > 0 && num_bins >= 1 ==> edges@.len() == num_bins - 1,
{
    let len = values.len();
    if len == 0 || num_bins == 0 {
        let edges: Vec<u64> = Vec::new();
        proof {
            assert(edges@ =~= spec_bin_edges(values@, num_bins as int));
        }
        return edges;
    }
    let mut sorted_vals: Vec<u64> = Vec::new();
    let mut k: usize = 0;
    while k < len
        invariant
            0 <= k <= len,
            len == values@.len(),
            sorted_vals@ == values@.subrange(0, k as int),
        decreases len - k,
    {
        sorted_vals.push(values[k]);
        k = k + 1;
        proof {
            assert(sorted_vals@ =~= values@.subrange(0, k as int));
        }
    }
    proof {
        assert(sorted_vals@ =~= values@);
    }
    sort_keys(&mut sorted_vals);
    proof {
        lemma_sorted_permutation_is_sorted_of(values@, sorted_vals@);
    }
    let mut edges: Vec<u64> = Vec::new();
    let mut i: usize = 1;
    while i < num_bins
        invariant
            1 <= i <= num_bins,
            len == values@.len() >= 1,
            (num_bins as int) * (len as int) <= usize::MAX as int,
            sorted_vals@ == sorted_of(values@),
            sorted_vals@.len() == len,
            edges@.len() == i - 1,
            forall|j: int|
                0 <= j < i - 1 ==> edges@[j] == sorted_of(values@)[(j + 1) * (len as int)
                    / (num_bins as int)],
        decreases num_bins - i,
    {
        proof {
            lemma_mul_inequality(i as int, num_bins as int, len as int);
            lemma_mul_strict_inequality(i as int, num_bins as int, len as int);
            lemma_multiply_divide_lt(
                (i as int) * (len as int),
                num_bins as int,
                len as int,
            );
        }
        let idx = i * len / num_bins;
        edges.push(sorted_vals[idx]);
        i = i + 1;
    }
    proof {
        lemma_u64_leq_total();
        values@.lemma_sort_by_ensures(u64_leq());
        broadcast use vstd::seq_lib::group_to_multiset_ensures;

        assert(sorted_of(values@).len() == len);
        assert(edges@ =~= spec_bin_edges(values@, num_bins as int));
        assert forall|p: int, q: int| 0 <= p <= q < edges@.len() implies edges@[p]
            <= edges@[q] by {
            lemma_mul_inequality(p + 1, q + 1, len as int);
            lemma_div_is_ordered(
                (p + 1) * (len as int),
                (q + 1) * (len as int),
                num_bins as int,
            );
            lemma_mul_strict_inequality(q + 1, num_bins as int, len as int);
            lemma_multiply_divide_lt(
                (q + 1) * (len as int),
                num_bins as int,
                len as int,
            );
            let ip = (p + 1) * (len as int) / (num_bins as int);
            let iq = (q + 1) * (len as int) / (num_bins as int);
            assert(0 <= ip <= iq < len);
            if ip < iq {
                assert(u64_leq()(sorted_of(values@)[ip], sorted_of(values@)[iq]));
            }
        }
    }
    edges
}

/// Bins one row of raw feature keys, column by column, against each
/// column's own edges.
pub fn bin_row(row: &Vec<u64>, edges_per_feature: &Vec<Vec<u64>>) -> (binned: Vec<u8>)
    requires
        row@.len() == edges_per_feature@.len(),
        forall|j: int| 0 <= j < edges_per_feature@.len() ==> edges_per_feature@[j]@.len() <= 255,
    ensures
        binned@.len() == row@.len(),
        forall|j: int|
            0 <= j < row@.len() ==> binned@[j] as int == spec_bin(row@[j], edges_per_feature@[j]@),
{
    let mut binned: Vec<u8> = Vec::new();
    let mut j: usize = 0;
    while j < row.len()
        invariant
            0 <= j <= row@.len(),
            row@.len() == edges_per_feature@.len(),
            forall|k: int| 0 <= k < edges_per_feature@.len() ==> edges_per_feature@[k]@.len()
                <= 255,
            binned@.len() == j,
            forall|k: int|
                0 <= k < j ==> binned@[k] as int == spec_bin(row@[k], edges_per_feature@[k]@),
        decreases row@.len() - j,
    {
        let b = bin_continuous(row[j], &edges_per_feature[j]);
        binned.push(b);
        j = j + 1;
    }
    binned
}

/// Bins a whole feature matrix: each entry of the result is the bin id of
/// the corresponding raw value under its column's edges.
pub fn bin_matrix(features: &Vec<Vec<u64>>, edges_per_feature: &Vec<Vec<u64>>) -> (binned: Vec<
    Vec<u8>,
>)
    requires
        forall|i: int| 0 <= i < features@.len() ==> features@[i]@.len()
            == edges_per_feature@.len(),
        forall|j: int| 0 <= j < edges_per_feature@.len() ==> edges_per_feature@[j]@.len() <= 255,
    ensures
        binned@.len() == features@.len(),
        forall|i: int| 0 <= i < features@.len() ==> binned@[i]@.len() == features@[i]@.len(),
        forall|i: int, j: int|
            0 <= i < features@.len() && 0 <= j < features@[i]@.len() ==> binned@[i]@[j] as int
                == spec_bin(features@[i]@[j], edges_per_feature@[j]@),
{
    let mut binned: Vec<Vec<u8>> = Vec::new();
    let mut i: usize = 0;
    while i < features.len()
        invariant
            0 <= i <= features@.len(),
            forall|k: int| 0 <= k < features@.len() ==> features@[k]@.len()
                == edges_per_feature@.len(),
            forall|j: int| 0 <= j < edges_per_feature@.len() ==> edges_per_feature@[j]@.len()
                <= 255,
            binned@.len() == i,
            forall|k: int| 0 <= k < i ==> binned@[k]@.len() == features@[k]@.len(),
            forall|k: int, j: int|
                0 <= k < i && 0 <= j < features@[k]@.len() ==> binned@[k]@[j] as int == spec_bin(
                    features@[k]@[j],
                    edges_per_feature@[j]@,
                ),
        decreases features@.len() - i,
    {
        let row = bin_row(&features[i], edges_per_feature);
        binned.push(row);
        i = i + 1;
    }
    binned
}

} // verus!
