use vstd::prelude::*;

use vstd::arithmetic::div_mod::{
    lemma_div_is_ordered, lemma_div_multiples_vanish, lemma_div_plus_one, lemma_div_pos_is_pos,
    lemma_mod_division_less_than_divisor,
};
use vstd::arithmetic::mul::{lemma_mul_inequality, lemma_mul_upper_bound};

use crate::error::GraphError;

verus! {

/// Context tag: parent sampling for a node at or beyond the degree.
pub const TAG_BASE: u64 = 1;

/// Context tag: synthetic parent set of a bootstrap node.
pub const TAG_BOOTSTRAP: u64 = 2;

/// Context tag: expansion edges of the layered graph.
pub const TAG_EXPANSION: u64 = 3;

/// One 64-bit diffusion round of the deterministic parent-generation
/// function: xor-shift mixing.
pub open spec fn mix64(x: u64) -> u64 {
    let a = x ^ (x >> 33);
    let b = a ^ (a << 21);
    b ^ (b >> 17)
}

fn mix64_exec(x: u64) -> (r: u64)
    ensures
        r == mix64(x),
{
    let a = x ^ (x >> 33);
    let b = a ^ (a << 21);
    b ^ (b >> 17)
}

/// The 64-bit word of the seed starting at byte `8 * k`, little endian.
pub open spec fn seed_word(seed: Seq<u8>, k: int) -> u64
    recommends
        0 <= k < 4,
        seed.len() == 32,
{
    (seed[8 * k] as u64) | ((seed[8 * k + 1] as u64) << 8) | ((seed[8 * k + 2] as u64) << 16)
        | ((seed[8 * k + 3] as u64) << 24) | ((seed[8 * k + 4] as u64) << 32) | ((seed[8 * k + 5]
        as u64) << 40) | ((seed[8 * k + 6] as u64) << 48) | ((seed[8 * k + 7] as u64) << 56)
}

fn seed_word_exec(seed: &[u8; 32], k: usize) -> (r: u64)
    requires
        k < 4,
    ensures
        r == seed_word(seed@, k as int),
{
    let b = 8 * k;
    (seed[b] as u64) | ((seed[b + 1] as u64) << 8) | ((seed[b + 2] as u64) << 16) | ((seed[b + 3]
        as u64) << 24) | ((seed[b + 4] as u64) << 32) | ((seed[b + 5] as u64) << 40) | ((seed[b + 6]
        as u64) << 48) | ((seed[b + 7] as u64) << 56)
}

/// Deterministic pseudo-random word derived from the public seed, a node
/// index, a slot and a context tag. This is the only source of
/// "randomness" in graph generation: it is a pure function, so prover and
/// verifier recompute identical topology from the public parameters.
pub open spec fn prf(seed: Seq<u8>, node: u64, slot: u64, tag: u64) -> u64 {
    mix64(
        mix64(mix64(seed_word(seed, 0) ^ node) ^ (seed_word(seed, 1) ^ slot)) ^ (seed_word(seed, 2)
            ^ tag),
    ) ^ seed_word(seed, 3)
}

fn prf_exec(seed: &[u8; 32], node: u64, slot: u64, tag: u64) -> (r: u64)
    ensures
        r == prf(seed@, node, slot, tag),
{
    let w0 = seed_word_exec(seed, 0);
    let w1 = seed_word_exec(seed, 1);
    let w2 = seed_word_exec(seed, 2);
    let w3 = seed_word_exec(seed, 3);
    mix64_exec(mix64_exec(mix64_exec(w0 ^ node) ^ (w1 ^ slot)) ^ (w2 ^ tag)) ^ w3
}

/// Lower end of bucket `j` when the range `[0, m)` is cut into `d`
/// buckets of equal width.
pub open spec fn bucket_lo(j: int, d: int, m: int) -> int
    recommends
        0 < d,
{
    j * m / d
}

/// Element `j` of the deterministic sample: a pseudo-random value drawn
/// from bucket `j` of the range `[0, m)`.
pub open spec fn sample_elem(seed: Seq<u8>, node: u64, tag: u64, d: u64, m: u64, j: int) -> u64
    recommends
        0 < d <= m,
        0 <= j < d,
{
    let lo = bucket_lo(j, d as int, m as int);
    let width = bucket_lo(j + 1, d as int, m as int) - lo;
    (lo + (prf(seed, node, j as u64, tag) as int) % width) as u64
}

/// The full deterministic sample: one value from each of the `d` buckets
/// of `[0, m)`, in bucket order.
pub open spec fn sample_seq(seed: Seq<u8>, node: u64, tag: u64, d: u64, m: u64) -> Seq<u64> {
    Seq::new(d as nat, |j: int| sample_elem(seed, node, tag, d, m, j))
}

/// Buckets are nonempty and stay inside the range: bucket `j` starts at or
/// after zero, ends strictly after it starts, and bucket `d` starts at `m`.
pub proof fn lemma_bucket_lo_bounds(d: int, m: int, j: int)
    requires
        0 < d <= m,
        0 <= j < d,
    ensures
        0 <= bucket_lo(j, d, m),
        bucket_lo(j, d, m) + 1 <= bucket_lo(j + 1, d, m),
        bucket_lo(j + 1, d, m) <= m,
{
    assert(0 <= j * m) by (nonlinear_arith)
        requires
            0 <= j,
            0 < m,
    ;
    lemma_div_pos_is_pos(j * m, d);
    assert((j + 1) * m == j * m + m) by (nonlinear_arith);
    lemma_div_plus_one(j * m, d);
    lemma_div_is_ordered(d + j * m, (j + 1) * m, d);
    lemma_mul_inequality(j + 1, d, m);
    lemma_div_is_ordered((j + 1) * m, d * m, d);
    lemma_div_multiples_vanish(m, d);
}

/// Bucket starts are ordered with the bucket index.
pub proof fn lemma_bucket_lo_ordered(d: int, m: int, j1: int, j2: int)
    requires
        0 < d,
        0 <= m,
        0 <= j1 <= j2,
    ensures
        bucket_lo(j1, d, m) <= bucket_lo(j2, d, m),
{
    lemma_mul_inequality(j1, j2, m);
    lemma_div_is_ordered(j1 * m, j2 * m, d);
}

/// Each sampled element lies in its own bucket.
pub proof fn lemma_sample_elem_in_bucket(
    seed: Seq<u8>,
    node: u64,
    tag: u64,
    d: u64,
    m: u64,
    j: int,
)
    requires
        0 < d <= m,
        0 <= j < d,
    ensures
        bucket_lo(j, d as int, m as int) <= sample_elem(seed, node, tag, d, m, j) as int,
        (sample_elem(seed, node, tag, d, m, j) as int) < bucket_lo(j + 1, d as int, m as int),
{
    lemma_bucket_lo_bounds(d as int, m as int, j);
    let lo = bucket_lo(j, d as int, m as int);
    let width = bucket_lo(j + 1, d as int, m as int) - lo;
    lemma_mod_division_less_than_divisor(prf(seed, node, j as u64, tag) as int, width);
}

/// The deterministic sample holds exactly `d` values below `m`, pairwise
/// distinct: one value per bucket, and the buckets are disjoint.
pub proof fn lemma_sample_valid(seed: Seq<u8>, node: u64, tag: u64, d: u64, m: u64)
    requires
        d <= m,
    ensures
        sample_seq(seed, node, tag, d, m).len() == d as nat,
        forall|k: int|
            0 <= k < d ==> (#[trigger] sample_seq(seed, node, tag, d, m)[k] as int) < m as int,
        forall|k1: int, k2: int|
            0 <= k1 < k2 < d ==> sample_seq(seed, node, tag, d, m)[k1] != sample_seq(
                seed,
                node,
                tag,
                d,
                m,
            )[k2],
{
    if d > 0 {
        let s = sample_seq(seed, node, tag, d, m);
        assert forall|k: int| 0 <= k < d implies (#[trigger] s[k] as int) < m as int by {
            lemma_sample_elem_in_bucket(seed, node, tag, d, m, k);
            lemma_bucket_lo_bounds(d as int, m as int, k);
        }
        assert forall|k1: int, k2: int| 0 <= k1 < k2 < d implies s[k1] != s[k2] by {
            lemma_sample_elem_in_bucket(seed, node, tag, d, m, k1);
            lemma_sample_elem_in_bucket(seed, node, tag, d, m, k2);
            lemma_bucket_lo_ordered(d as int, m as int, k1 + 1, k2);
        }
    }
}

fn sample_one(seed: &[u8; 32], node: u64, tag: u64, d: u64, m: u64, j: u64) -> (r: u64)
    requires
        0 < d <= m,
        j < d,
    ensures
        r == sample_elem(seed@, node, tag, d, m, j as int),
{
    proof {
        lemma_bucket_lo_bounds(d as int, m as int, j as int);
        lemma_mul_upper_bound(j as int, u64::MAX as int, m as int, u64::MAX as int);
        lemma_mul_upper_bound(j as int + 1, u64::MAX as int, m as int, u64::MAX as int);
    }
    let lo128: u128 = (j as u128) * (m as u128) / (d as u128);
    let hi128: u128 = ((j as u128) + 1) * (m as u128) / (d as u128);
    let lo: u64 = lo128 as u64;
    let width: u64 = (hi128 - lo128) as u64;
    let p = prf_exec(seed, node, j, tag);
    proof {
        lemma_mod_division_less_than_divisor(p as int, width as int);
    }
    lo + p % width
}

/// Draw `d` values from `[0, m)`, one per bucket.
pub(crate) fn sample(seed: &[u8; 32], node: u64, tag: u64, d: u64, m: u64) -> (r: Vec<u64>)
    requires
        d <= m,
    ensures
        r@ == sample_seq(seed@, node, tag, d, m),
{
    let mut out: Vec<u64> = Vec::new();
    let mut j: u64 = 0;
    while j < d
        invariant
            d <= m,
            j <= d,
            out@.len() == j as nat,
            forall|k: int| 0 <= k < j ==> out@[k] == sample_elem(seed@, node, tag, d, m, k),
        decreases d - j,
    {
        let v = sample_one(seed, node, tag, d, m, j);
        out.push(v);
        j = j + 1;
    }
    proof {
        assert(out@ =~= sample_seq(seed@, node, tag, d, m));
    }
    out
}

/// Element `j` of the synthetic parent set of a bootstrap node: the fixed
/// sequence `0, 1, ..., d - 1` rotated by a seed-derived offset.
pub open spec fn bootstrap_elem(seed: Seq<u8>, node: u64, d: u64, j: int) -> u64
    recommends
        0 < d,
        0 <= j < d,
{
    let r0 = (prf(seed, node, 0, TAG_BOOTSTRAP) % d) as int;
    if j + r0 < d {
        (j + r0) as u64
    } else {
        (j + r0 - d) as u64
    }
}

/// The synthetic parent set of a bootstrap node: a seed-derived rotation
/// covering `[0, d)`.
pub open spec fn bootstrap_seq(seed: Seq<u8>, node: u64, d: u64) -> Seq<u64> {
    Seq::new(d as nat, |j: int| bootstrap_elem(seed, node, d, j))
}

/// The synthetic parent set holds exactly `d` pairwise-distinct values,
/// each below `d`.
pub proof fn lemma_bootstrap_valid(seed: Seq<u8>, node: u64, d: u64)
    requires
        0 < d,
    ensures
        bootstrap_seq(seed, node, d).len() == d as nat,
        forall|k: int|
            0 <= k < d ==> (#[trigger] bootstrap_seq(seed, node, d)[k] as int) < d as int,
        forall|k1: int, k2: int|
            0 <= k1 < k2 < d ==> bootstrap_seq(seed, node, d)[k1] != bootstrap_seq(seed, node, d)[k2],
{
    lemma_mod_division_less_than_divisor(prf(seed, node, 0, TAG_BOOTSTRAP) as int, d as int);
}

pub(crate) fn bootstrap_parents(seed: &[u8; 32], node: u64, d: u64) -> (r: Vec<u64>)
    requires
        0 < d,
    ensures
        r@ == bootstrap_seq(seed@, node, d),
{
    let p = prf_exec(seed, node, 0, TAG_BOOTSTRAP);
    let r0 = p % d;
    let mut out: Vec<u64> = Vec::new();
    let mut j: u64 = 0;
    while j < d
        invariant
            0 < d,
            j <= d,
            r0 == prf(seed@, node, 0, TAG_BOOTSTRAP) % d,
            out@.len() == j as nat,
            forall|k: int| 0 <= k < j ==> out@[k] == bootstrap_elem(seed@, node, d, k),
        decreases d - j,
    {
        let v = if r0 < d - j {
            j + r0
        } else {
            r0 - (d - j)
        };
        out.push(v);
        j = j + 1;
    }
    proof {
        assert(out@ =~= bootstrap_seq(seed@, node, d));
    }
    out
}

/// The capability every graph offers: its size, degree and seed, and the
/// deterministic parent set of each node. All of it is a pure function of
/// the public parameters, so prover and verifier agree on the topology.
pub trait Graph: Sized {
    /// Validity of the parameter tuple the graph was built from.
    spec fn inv(&self) -> bool;

    spec fn size_spec(&self) -> u64;

    spec fn degree_spec(&self) -> u32;

    spec fn seed_spec(&self) -> Seq<u8>;

    spec fn parents_spec(&self, node: u64) -> Seq<u64>;

    /// Number of nodes.
    fn size(&self) -> (r: u64)
        ensures
            r == self.size_spec(),
    ;

    /// Number of parents of every node.
    fn degree(&self) -> (r: u32)
        requires
            self.inv(),
        ensures
            r == self.degree_spec(),
    ;

    /// The public seed the topology is derived from.
    fn seed(&self) -> (r: [u8; 32])
        ensures
            r@ == self.seed_spec(),
    ;

    /// The parent set of `node`: exactly `degree` indices inside the node
    /// range; fails exactly on nodes at or beyond the size of the graph.
    fn parents(&self, node: u64) -> (r: Result<Vec<u64>, GraphError>)
        requires
            self.inv(),
        ensures
            match r {
                Ok(ps) => {
                    &&& node < self.size_spec()
                    &&& ps@ == self.parents_spec(node)
                    &&& ps@.len() == self.degree_spec() as nat
                    &&& forall|k: int|
                        0 <= k < ps@.len() ==> (#[trigger] ps@[k] as int) < self.size_spec() as int
                },
                Err(e) => node >= self.size_spec() && e == GraphError::OutOfRange,
            },
    ;
}

/// The base depth-robust graph: each node's parents are drawn by the
/// deterministic pseudo-random function, restricted to the indices below
/// the node, one parent per bucket.
#[derive(Clone, Copy, Debug)]
pub struct BucketGraph {
    pub node_count: u64,
    pub base_degree: u32,
    pub seed: [u8; 32],
}

impl BucketGraph {
    pub open spec fn wf(&self) -> bool {
        0 < self.node_count && (self.base_degree as u64) < self.node_count
    }

    /// Build the base graph. Fails on an empty node range, and on a degree
    /// that leaves no room for distinct parents below the first
    /// non-bootstrap node.
    pub fn new(node_count: u64, base_degree: u32, seed: [u8; 32]) -> (r: Result<
        BucketGraph,
        GraphError,
    >)
        ensures
            match r {
                Ok(g) => {
                    &&& 0 < node_count
                    &&& (base_degree as u64) < node_count
                    &&& g == (BucketGraph { node_count, base_degree, seed })
                    &&& g.wf()
                },
                Err(e) => {
                    ||| (node_count == 0 && e == GraphError::MalformedParameters)
                    ||| (0 < node_count && (base_degree as u64) >= node_count && e
                        == GraphError::DegreeTooLarge)
                },
            },
    {
        if node_count == 0 {
            Err(GraphError::MalformedParameters)
        } else if (base_degree as u64) >= node_count {
            Err(GraphError::DegreeTooLarge)
        } else {
            Ok(BucketGraph { node_count, base_degree, seed })
        }
    }
}

impl Graph for BucketGraph {
    open spec fn inv(&self) -> bool {
        self.wf()
    }

    open spec fn size_spec(&self) -> u64 {
        self.node_count
    }

    open spec fn degree_spec(&self) -> u32 {
        self.base_degree
    }

    open spec fn seed_spec(&self) -> Seq<u8> {
        self.seed@
    }

    open spec fn parents_spec(&self, node: u64) -> Seq<u64> {
        if node < self.base_degree as u64 {
            bootstrap_seq(self.seed@, node, self.base_degree as u64)
        } else {
            sample_seq(self.seed@, node, TAG_BASE, self.base_degree as u64, node)
        }
    }

    fn size(&self) -> (r: u64) {
        self.node_count
    }

    fn degree(&self) -> (r: u32) {
        self.base_degree
    }

    fn seed(&self) -> (r: [u8; 32]) {
        self.seed
    }

    fn parents(&self, node: u64) -> (r: Result<Vec<u64>, GraphError>) {
        if node >= self.node_count {
            return Err(GraphError::OutOfRange);
        }
        let d = self.base_degree as u64;
        proof {
            lemma_parents_in_range(*self, node);
        }
        if node < d {
            Ok(bootstrap_parents(&self.seed, node, d))
        } else {
            Ok(sample(&self.seed, node, TAG_BASE, d, node))
        }
    }
}

/// Every parent of a valid node lies inside the node range, and the
/// parent set has exactly `degree` entries.
pub proof fn lemma_parents_in_range(g: BucketGraph, node: u64)
    requires
        g.wf(),
        node < g.size_spec(),
    ensures
        g.parents_spec(node).len() == g.degree_spec() as nat,
        forall|k: int|
            0 <= k < g.parents_spec(node).len() ==> (#[trigger] g.parents_spec(node)[k] as int)
                < g.size_spec() as int,
{
    if node < g.degree_spec() as u64 {
        lemma_bootstrap_valid(g.seed@, node, g.degree_spec() as u64);
    } else {
        lemma_sample_valid(g.seed@, node, TAG_BASE, g.degree_spec() as u64, node);
    }
}

/// For every node at or beyond the degree, the parent set holds exactly
/// `degree` pairwise-distinct indices, each strictly below the node.
pub proof fn lemma_base_parents_valid(g: BucketGraph, node: u64)
    requires
        g.wf(),
        g.degree_spec() as u64 <= node < g.size_spec(),
    ensures
        g.parents_spec(node).len() == g.degree_spec() as nat,
        forall|k: int|
            0 <= k < g.parents_spec(node).len() ==> (#[trigger] g.parents_spec(node)[k] as int)
                < node as int,
        forall|k1: int, k2: int|
            0 <= k1 < k2 < g.parents_spec(node).len() ==> g.parents_spec(node)[k1]
                != g.parents_spec(node)[k2],
{
    lemma_sample_valid(g.seed_spec(), node, TAG_BASE, g.degree_spec() as u64, node);
}

/// For every bootstrap node, the synthetic parent set still holds exactly
/// `degree` pairwise-distinct indices, each below the degree.
pub proof fn lemma_bootstrap_parents_valid(g: BucketGraph, node: u64)
    requires
        g.wf(),
        node < g.degree_spec() as u64,
    ensures
        g.parents_spec(node).len() == g.degree_spec() as nat,
        forall|k: int|
            0 <= k < g.parents_spec(node).len() ==> (#[trigger] g.parents_spec(node)[k] as int)
                < g.degree_spec() as int,
        forall|k1: int, k2: int|
            0 <= k1 < k2 < g.parents_spec(node).len() ==> g.parents_spec(node)[k1]
                != g.parents_spec(node)[k2],
{
    lemma_bootstrap_valid(g.seed_spec(), node, g.degree_spec() as u64);
}

/// Determinism: parent generation has no hidden state, so two parent sets
/// computed from identical parameters are identical. The executable
/// `parents` pins its result to `parents_spec`, so any two successful
/// calls on equal graphs and nodes return equal sequences.
pub proof fn lemma_parents_deterministic(g1: BucketGraph, g2: BucketGraph, node: u64, r1: Seq<u64>, r2: Seq<u64>)
    requires
        g1 == g2,
        r1 == g1.parents_spec(node),
        r2 == g2.parents_spec(node),
    ensures
        r1 == r2,
{
}

} // verus!
