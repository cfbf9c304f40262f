//! Fixed-width bucket edges and the histogram aggregation pass.
//!
//! The edges partition the domain `[0, count * width)` into `count`
//! contiguous half-open intervals of equal width. Aggregation counts each
//! outcome in the unique bucket whose interval contains it; an outcome at
//! or above the domain's upper bound falls in no bucket and is dropped
//! from the distribution (a deliberate property of the display domain,
//! not an error).

use vstd::prelude::*;
use vstd::arithmetic::div_mod::{
    lemma_div_pos_is_pos, lemma_fundamental_div_mod, lemma_fundamental_div_mod_converse,
    lemma_mod_bound, lemma_multiply_divide_lt,
};
use vstd::arithmetic::mul::{lemma_mul_inequality, lemma_mul_is_commutative};

verus! {

/// The fixed-width, contiguous bucket edges over the domain
/// `[0, count * width)`, in scaled units.
#[derive(Clone, Copy, Debug)]
pub struct BucketEdges {
    width: u64,
    count: usize,
}

/// The bucket that a scaled value lands in: the index `v / width` when the
/// value lies inside the domain, and no bucket otherwise.
pub open spec fn bucket_of(v: int, width: int, count: int) -> Option<int> {
    if 0 <= v && v < count * width {
        Some(v / width)
    } else {
        None
    }
}

impl BucketEdges {
    pub closed spec fn width_spec(&self) -> int {
        self.width as int
    }

    pub closed spec fn count_spec(&self) -> int {
        self.count as int
    }

    pub open spec fn wf(&self) -> bool {
        &&& self.width_spec() >= 1
        &&& self.count_spec() >= 1
        &&& self.count_spec() * self.width_spec() <= u64::MAX
    }

    /// The upper bound of the covered domain.
    pub open spec fn domain_spec(&self) -> int {
        self.count_spec() * self.width_spec()
    }

    /// Builds the edges of `count` buckets of `width` scaled units each;
    /// refused when either is zero or the domain exceeds the value range.
    pub fn new(width: u64, count: usize) -> (r: Option<BucketEdges>)
        ensures
            match r {
                Some(e) => e.wf() && e.width_spec() == width && e.count_spec() == count,
                None => !(width >= 1 && count >= 1 && count as int * width as int <= u64::MAX),
            },
    {
        proof {
            assert((count as u128) * (width as u128) == (count as int) * (width as int)
                && (count as u128) * (width as u128) <= u128::MAX) by (nonlinear_arith)
                requires
                    count as u128 == count as int,
                    width as u128 == width as int,
                    count as u128 <= u64::MAX,
                    width as u128 <= u64::MAX,
            ;
        }
        if width >= 1 && count >= 1 && (count as u128) * (width as u128) <= u64::MAX as u128 {
            Some(BucketEdges { width, count })
        } else {
            None
        }
    }

    pub fn width(&self) -> (w: u64)
        ensures
            w as int == self.width_spec(),
    {
        self.width
    }

    pub fn count(&self) -> (c: usize)
        ensures
            c as int == self.count_spec(),
    {
        self.count
    }

    /// The lower edge of bucket `b`.
    pub fn low_edge(&self, b: usize) -> (lo: u64)
        requires
            self.wf(),
            b < self.count_spec(),
        ensures
            lo as int == b * self.width_spec(),
    {
        proof {
            assert(0 <= (b as u64) as int * self.width_spec()
                && (b as u64) as int * self.width_spec() <= self.count_spec() * self.width_spec())
                by (nonlinear_arith)
                requires
                    0 <= (b as u64) as int,
                    (b as u64) as int + 1 <= self.count_spec(),
                    self.width_spec() >= 1,
            ;
        }
        (b as u64) * self.width
    }

    /// Finds the unique bucket whose half-open interval contains the value,
    /// by direct division; yields no bucket for a value outside the domain.
    pub fn bucket_index(&self, v: u64) -> (r: Option<usize>)
        requires
            self.wf(),
        ensures
            match r {
                Some(b) => (b as int) < self.count_spec() && bucket_of(
                    v as int,
                    self.width_spec(),
                    self.count_spec(),
                ) == Some(b as int),
                None => bucket_of(v as int, self.width_spec(), self.count_spec()) is None,
            },
    {
        proof {
            assert((self.count as u64) as int * self.width_spec() == self.domain_spec())
                by (nonlinear_arith)
                requires
                    (self.count as u64) as int == self.count_spec(),
            ;
        }
        let domain: u64 = (self.count as u64) * self.width;
        if v < domain {
            proof {
                lemma_mul_is_commutative(self.count_spec(), self.width_spec());
                lemma_multiply_divide_lt(v as int, self.width_spec(), self.count_spec());
                lemma_div_pos_is_pos(v as int, self.width_spec());
            }
            Some((v / self.width) as usize)
        } else {
            None
        }
    }
}

/// Bucket `b` covers exactly the half-open interval
/// `[b * width, b * width + width)`: a value lands in bucket `b` iff it
/// lies in that interval. The buckets are therefore non-overlapping, and
/// contiguously cover the whole domain `[0, count * width)`.
pub proof fn lemma_bucket_coverage(v: int, width: int, count: int, b: int)
    requires
        width >= 1,
        0 <= b < count,
    ensures
        bucket_of(v, width, count) == Some(b) <==> b * width <= v && v < b * width + width,
{
    lemma_mul_is_commutative(b, width);
    lemma_mul_is_commutative(count, width);
    if bucket_of(v, width, count) == Some(b) {
        lemma_fundamental_div_mod(v, width);
        lemma_mod_bound(v, width);
    }
    if b * width <= v && v < b * width + width {
        assert(0 <= b * width) by (nonlinear_arith)
            requires
                0 <= b,
                width >= 1,
        ;
        lemma_mul_inequality(b + 1, count, width);
        assert((b + 1) * width == b * width + width) by (nonlinear_arith);
        lemma_fundamental_div_mod_converse(v, width, b, v - b * width);
    }
}

/// How many of the outcomes land in bucket `b`.
pub open spec fn count_landing(outs: Seq<u64>, b: int, width: int, count: int) -> int
    decreases outs.len(),
{
    if outs.len() == 0 {
        0
    } else {
        count_landing(outs.drop_last(), b, width, count) + if bucket_of(
            outs.last() as int,
            width,
            count,
        ) == Some(b) {
            1int
        } else {
            0int
        }
    }
}

/// No bucket's count exceeds the outcome count.
pub proof fn lemma_count_landing_bound(outs: Seq<u64>, b: int, width: int, count: int)
    ensures
        0 <= count_landing(outs, b, width, count) <= outs.len(),
    decreases outs.len(),
{
    if outs.len() > 0 {
        lemma_count_landing_bound(outs.drop_last(), b, width, count);
    }
}

/// Aggregation splits over any partition of the outcomes: each bucket's
/// count over a concatenation is the sum of its counts over the parts. A
/// parallel scheme may therefore aggregate private partial histograms and
/// merge them by element-wise addition, in any order, with the same result
/// as one sequential pass.
pub proof fn lemma_count_landing_concat(
    first: Seq<u64>,
    second: Seq<u64>,
    b: int,
    width: int,
    count: int,
)
    ensures
        count_landing(first + second, b, width, count) == count_landing(first, b, width, count)
            + count_landing(second, b, width, count),
    decreases second.len(),
{
    if second.len() == 0 {
        assert(first + second =~= first);
    } else {
        lemma_count_landing_concat(first, second.drop_last(), b, width, count);
        assert((first + second).drop_last() =~= first + second.drop_last());
        assert((first + second).last() == second.last());
    }
}

/// The per-bucket occurrence counts over a collection of outcomes.
pub struct Histogram {
    pub counts: Vec<usize>,
}

/// Aggregates the outcomes into a histogram over the given edges: each
/// outcome increments the count of the unique bucket containing it, and an
/// outcome outside the domain increments no count.
pub fn aggregate(outcomes: &Vec<u64>, edges: &BucketEdges) -> (h: Histogram)
    requires
        edges.wf(),
    ensures
        h.counts@.len() == edges.count_spec(),
        forall|b: int| 0 <= b < edges.count_spec() ==> (#[trigger] h.counts@[b]) as int
            == count_landing(outcomes@, b, edges.width_spec(), edges.count_spec()),
{
    let n = edges.count();
    let mut counts: Vec<usize> = Vec::new();
    let mut j: usize = 0;
    while j < n
        invariant
            j <= n,
            counts@.len() == j,
            forall|b: int| 0 <= b < j ==> (#[trigger] counts@[b]) == 0,
        decreases n - j,
    {
        counts.push(0);
        j = j + 1;
    }
    assert(forall|b: int| 0 <= b < edges.count_spec()
        ==> (#[trigger] counts@[b]) as int
            == count_landing(outcomes@.take(0), b, edges.width_spec(), edges.count_spec()));
    let mut k: usize = 0;
    while k < outcomes.len()
        invariant
            k <= outcomes@.len(),
            edges.wf(),
            counts@.len() == edges.count_spec(),
            forall|b: int| 0 <= b < edges.count_spec() ==> (#[trigger] counts@[b]) as int
                == count_landing(outcomes@.take(k as int), b, edges.width_spec(), edges.count_spec()),
        decreases outcomes@.len() - k,
    {
        let ghost prefix = outcomes@.take(k as int);
        let ghost next = outcomes@.take(k as int + 1);
        proof {
            assert(next.drop_last() =~= prefix);
            assert(next.last() == outcomes@[k as int]);
        }
        match edges.bucket_index(outcomes[k]) {
            Some(i) => {
                proof {
                    lemma_count_landing_bound(prefix, i as int, edges.width_spec(), edges.count_spec());
                }
                let c = counts[i];
                counts[i] = c + 1;
            },
            None => {},
        }
        proof {
            assert forall|b: int| 0 <= b < edges.count_spec() implies (#[trigger] counts@[b]) as int
                == count_landing(next, b, edges.width_spec(), edges.count_spec()) by {
                assert(count_landing(next, b, edges.width_spec(), edges.count_spec())
                    == count_landing(prefix, b, edges.width_spec(), edges.count_spec()) + if bucket_of(
                    outcomes@[k as int] as int,
                    edges.width_spec(),
                    edges.count_spec(),
                ) == Some(b) {
                    1int
                } else {
                    0int
                });
            }
        }
        k = k + 1;
    }
    proof {
        assert(outcomes@.take(outcomes@.len() as int) =~= outcomes@);
    }
    Histogram { counts }
}

/// The sum of a histogram's counts.
pub open spec fn sum_counts(counts: Seq<usize>) -> int
    decreases counts.len(),
{
    if counts.len() == 0 {
        0
    } else {
        sum_counts(counts.drop_last()) + counts.last()
    }
}

/// Every outcome lies inside `[0, domain)`.
pub open spec fn all_in_domain(outs: Seq<u64>, domain: int) -> bool {
    forall|j: int| 0 <= j < outs.len() ==> ((#[trigger] outs[j]) as int) < domain
}

/// How many of the outcomes lie inside `[0, domain)`.
pub open spec fn in_domain_count(outs: Seq<u64>, domain: int) -> int
    decreases outs.len(),
{
    if outs.len() == 0 {
        0
    } else {
        in_domain_count(outs.drop_last(), domain) + if (outs.last() as int) < domain {
            1int
        } else {
            0int
        }
    }
}

/// The sum of the first `hi` buckets' counts.
pub open spec fn mass_upto(outs: Seq<u64>, width: int, count: int, hi: nat) -> int
    decreases hi,
{
    if hi == 0 {
        0
    } else {
        mass_upto(outs, width, count, (hi - 1) as nat) + count_landing(outs, hi - 1, width, count)
    }
}

proof fn lemma_mass_upto_empty(width: int, count: int, hi: nat)
    ensures
        mass_upto(Seq::<u64>::empty(), width, count, hi) == 0,
    decreases hi,
{
    if hi > 0 {
        lemma_mass_upto_empty(width, count, (hi - 1) as nat);
    }
}

proof fn lemma_mass_upto_snoc(outs: Seq<u64>, width: int, count: int, hi: nat)
    requires
        outs.len() > 0,
        width >= 1,
    ensures
        mass_upto(outs, width, count, hi) == mass_upto(outs.drop_last(), width, count, hi) + (
        match bucket_of(outs.last() as int, width, count) {
            Some(b) => if b < hi {
                1int
            } else {
                0int
            },
            None => 0int,
        }),
    decreases hi,
{
    if 0 <= outs.last() as int && (outs.last() as int) < count * width {
        lemma_div_pos_is_pos(outs.last() as int, width);
    }
    if hi > 0 {
        lemma_mass_upto_snoc(outs, width, count, (hi - 1) as nat);
        assert(count_landing(outs, hi - 1, width, count) == count_landing(
            outs.drop_last(),
            hi - 1,
            width,
            count,
        ) + if bucket_of(outs.last() as int, width, count) == Some(hi - 1) {
            1int
        } else {
            0int
        });
        assert(mass_upto(outs, width, count, hi) == mass_upto(outs, width, count, (hi - 1) as nat)
            + count_landing(outs, hi - 1, width, count));
        assert(mass_upto(outs.drop_last(), width, count, hi) == mass_upto(
            outs.drop_last(),
            width,
            count,
            (hi - 1) as nat,
        ) + count_landing(outs.drop_last(), hi - 1, width, count));
    }
}

proof fn lemma_mass_is_in_domain_count(outs: Seq<u64>, width: int, count: int)
    requires
        width >= 1,
        count >= 0,
    ensures
        mass_upto(outs, width, count, count as nat) == in_domain_count(outs, count * width),
    decreases outs.len(),
{
    if outs.len() == 0 {
        lemma_mass_upto_empty(width, count, count as nat);
        assert(outs =~= Seq::<u64>::empty());
    } else {
        lemma_mass_is_in_domain_count(outs.drop_last(), width, count);
        lemma_mass_upto_snoc(outs, width, count, count as nat);
        let o = outs.last() as int;
        if 0 <= o && o < count * width {
            lemma_mul_is_commutative(count, width);
            lemma_multiply_divide_lt(o, width, count);
            lemma_div_pos_is_pos(o, width);
        }
    }
}

proof fn lemma_in_domain_count_bounds(outs: Seq<u64>, domain: int)
    ensures
        0 <= in_domain_count(outs, domain) <= outs.len(),
        (in_domain_count(outs, domain) == outs.len()) <==> all_in_domain(outs, domain),
    decreases outs.len(),
{
    if outs.len() > 0 {
        lemma_in_domain_count_bounds(outs.drop_last(), domain);
        assert(forall|j: int| 0 <= j < outs.len() - 1 ==> outs.drop_last()[j] == outs[j]);
    }
}

/// The histogram's total mass is at most the outcome count, and equals it
/// exactly when every outcome lands inside the covered domain
/// `[0, count * width)`. The hypotheses are exactly what [`aggregate`]
/// ensures of its result.
pub proof fn lemma_histogram_mass(counts: Seq<usize>, outs: Seq<u64>, width: int, count: int)
    requires
        width >= 1,
        count >= 0,
        counts.len() == count,
        forall|b: int| 0 <= b < count ==> (#[trigger] counts[b]) as int
            == count_landing(outs, b, width, count),
    ensures
        sum_counts(counts) <= outs.len(),
        (sum_counts(counts) == outs.len()) <==> all_in_domain(outs, count * width),
{
    lemma_sum_counts_is_mass(counts, outs, width, count);
    lemma_mass_is_in_domain_count(outs, width, count);
    lemma_in_domain_count_bounds(outs, count * width);
}

proof fn lemma_sum_counts_is_mass(counts: Seq<usize>, outs: Seq<u64>, width: int, count: int)
    requires
        forall|b: int| 0 <= b < counts.len() ==> (#[trigger] counts[b]) as int
            == count_landing(outs, b, width, count),
    ensures
        sum_counts(counts) == mass_upto(outs, width, count, counts.len()),
    decreases counts.len(),
{
    if counts.len() > 0 {
        assert(forall|b: int| 0 <= b < counts.len() - 1 ==> counts.drop_last()[b] == counts[b]);
        lemma_sum_counts_is_mass(counts.drop_last(), outs, width, count);
    }
}

/// When every outcome is the same in-domain value, the whole mass lies in
/// that value's bucket and every other bucket stays empty.
pub proof fn lemma_constant_outcomes_concentrate(
    outs: Seq<u64>,
    v: u64,
    width: int,
    count: int,
    b: int,
)
    requires
        forall|j: int| 0 <= j < outs.len() ==> (#[trigger] outs[j]) == v,
        bucket_of(v as int, width, count) == Some(b),
    ensures
        count_landing(outs, b, width, count) == outs.len(),
        forall|b2: int| b2 != b ==> (#[trigger] count_landing(outs, b2, width, count)) == 0,
    decreases outs.len(),
{
    if outs.len() > 0 {
        assert(forall|j: int| 0 <= j < outs.len() - 1 ==> outs.drop_last()[j] == outs[j]);
        lemma_constant_outcomes_concentrate(outs.drop_last(), v, width, count, b);
        assert(outs.last() == v);
        assert forall|b2: int| b2 != b implies (#[trigger] count_landing(outs, b2, width, count))
            == 0 by {
            assert(count_landing(outs.drop_last(), b2, width, count) == 0);
        }
    } else {
        assert forall|b2: int| b2 != b implies (#[trigger] count_landing(outs, b2, width, count))
            == 0 by {
        }
    }
}

} // verus!
