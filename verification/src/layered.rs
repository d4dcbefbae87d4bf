use vstd::prelude::*;

use crate::domain::{leaf_seq_of, parse_leaves, Domain};
use crate::error::{GraphError, StructuralError};
use crate::graph::{
    lemma_parents_in_range, lemma_sample_valid, sample, sample_seq, BucketGraph, Graph,
    TAG_EXPANSION,
};
use crate::tree::{is_pow2, root_of, MerkleTree};

verus! {

/// The layered expander graph: the base depth-robust graph, plus
/// `expansion_degree` further parent edges per node, bucket-sampled over
/// the whole node range. The structure repeats across layers, with the
/// node order reversed on odd layers, so dependency chains span the whole
/// stack.
#[derive(Clone, Copy, Debug)]
pub struct LayeredGraph {
    pub base: BucketGraph,
    pub expansion_degree: u32,
}

impl LayeredGraph {
    pub open spec fn wf(&self) -> bool {
        &&& self.base.wf()
        &&& (self.base.base_degree as u64) + (self.expansion_degree as u64)
            < self.base.node_count
        &&& (self.base.base_degree as u64) + (self.expansion_degree as u64) <= u32::MAX as u64
    }

    /// Build the layered graph. The combined degree must leave room
    /// inside the node range.
    pub fn new_zigzag(
        node_count: u64,
        base_degree: u32,
        expansion_degree: u32,
        seed: [u8; 32],
    ) -> (r: Result<LayeredGraph, GraphError>)
        ensures
            match r {
                Ok(g) => {
                    &&& 0 < node_count
                    &&& (base_degree as u64) + (expansion_degree as u64) < node_count
                    &&& (base_degree as u64) + (expansion_degree as u64) <= u32::MAX as u64
                    &&& g == (LayeredGraph {
                        base: BucketGraph { node_count, base_degree, seed },
                        expansion_degree,
                    })
                    &&& g.wf()
                },
                Err(e) => {
                    ||| (node_count == 0 && e == GraphError::MalformedParameters)
                    ||| (0 < node_count && ((base_degree as u64) + (expansion_degree as u64)
                        >= node_count || (base_degree as u64) + (expansion_degree as u64)
                        > u32::MAX as u64) && e == GraphError::DegreeTooLarge)
                },
            },
    {
        if node_count == 0 {
            return Err(GraphError::MalformedParameters);
        }
        let total = base_degree as u64 + expansion_degree as u64;
        if total >= node_count || total > u32::MAX as u64 {
            return Err(GraphError::DegreeTooLarge);
        }
        match BucketGraph::new(node_count, base_degree, seed) {
            Ok(base) => Ok(LayeredGraph { base, expansion_degree }),
            Err(e) => Err(e),
        }
    }

    /// Expansion parents of a node: one per bucket over the whole range.
    pub open spec fn expansion_spec(&self, node: u64) -> Seq<u64> {
        sample_seq(
            self.base.seed@,
            node,
            TAG_EXPANSION,
            self.expansion_degree as u64,
            self.base.node_count,
        )
    }

    /// Parent set of `node` at `layer`: base parents then expansion
    /// parents; on odd layers the whole construction is read under the
    /// reversed node order.
    pub open spec fn parents_at_layer_spec(&self, node: u64, layer: u32) -> Seq<u64>
        recommends
            self.wf(),
            node < self.base.node_count,
    {
        let n = self.base.node_count;
        if layer % 2 == 0 {
            self.base.parents_spec(node) + self.expansion_spec(node)
        } else {
            let rev = (n - 1 - node) as u64;
            (self.base.parents_spec(rev) + self.expansion_spec(rev)).map_values(
                |p: u64| (n - 1 - p) as u64,
            )
        }
    }

    /// Parent set of `node` at `layer`; fails exactly on nodes at or
    /// beyond the size.
    pub fn parents_at_layer(&self, node: u64, layer: u32) -> (r: Result<Vec<u64>, GraphError>)
        requires
            self.wf(),
        ensures
            match r {
                Ok(ps) => {
                    &&& node < self.base.node_count
                    &&& ps@ == self.parents_at_layer_spec(node, layer)
                    &&& ps@.len() == (self.base.base_degree as nat) + (
                    self.expansion_degree as nat)
                    &&& forall|k: int|
                        0 <= k < ps@.len() ==> (#[trigger] ps@[k] as int)
                            < self.base.node_count as int
                },
                Err(e) => node >= self.base.node_count && e == GraphError::OutOfRange,
            },
    {
        let n = self.base.node_count;
        if node >= n {
            return Err(GraphError::OutOfRange);
        }
        let target = if layer % 2 == 0 {
            node
        } else {
            n - 1 - node
        };
        proof {
            lemma_parents_in_range(self.base, target);
            lemma_sample_valid(
                self.base.seed@,
                target,
                TAG_EXPANSION,
                self.expansion_degree as u64,
                n,
            );
        }
        let mut ps = match self.base.parents(target) {
            Ok(v) => v,
            Err(e) => {
                return Err(e);
            },
        };
        let ghost base_seq = ps@;
        let mut exp = sample(
            &self.base.seed,
            target,
            TAG_EXPANSION,
            self.expansion_degree as u64,
            n,
        );
        ps.append(&mut exp);
        proof {
            let exp_seq = self.expansion_spec(target);
            assert(ps@ == base_seq + exp_seq);
            assert forall|j: int| 0 <= j < ps@.len() implies (#[trigger] ps@[j] as int)
                < n as int by {
                if j < base_seq.len() {
                    assert(ps@[j] == base_seq[j]);
                } else {
                    assert(ps@[j] == exp_seq[j - base_seq.len()]);
                }
            }
        }
        if layer % 2 == 0 {
            Ok(ps)
        } else {
            let ghost fwd = self.base.parents_spec(target) + self.expansion_spec(target);
            let mut out: Vec<u64> = Vec::new();
            let mut k: usize = 0;
            while k < ps.len()
                invariant
                    k <= ps@.len(),
                    ps@ == fwd,
                    n == self.base.node_count,
                    n >= 1,
                    forall|j: int| 0 <= j < fwd.len() ==> (#[trigger] fwd[j] as int) < n as int,
                    out@.len() == k as nat,
                    forall|j: int| 0 <= j < k ==> out@[j] == ((n - 1 - fwd[j]) as u64),
                decreases ps@.len() - k,
            {
                out.push(n - 1 - ps[k]);
                k = k + 1;
            }
            proof {
                assert(out@ =~= fwd.map_values(|p: u64| (n - 1 - p) as u64));
            }
            Ok(out)
        }
    }

    /// The processing order of one layer: even layers walk nodes forward,
    /// odd layers in reverse. A pure permutation that carries no data.
    pub open spec fn layer_ordering_spec(&self, layer: u32, pos: u64) -> u64
        recommends
            pos < self.base.node_count,
    {
        if layer % 2 == 0 {
            pos
        } else {
            (self.base.node_count - 1 - pos) as u64
        }
    }

    /// The node processed at `pos` within `layer`.
    pub fn layer_ordering(&self, layer: u32, pos: u64) -> (r: Result<u64, GraphError>)
        requires
            self.wf(),
        ensures
            match r {
                Ok(v) => pos < self.base.node_count && v == self.layer_ordering_spec(layer, pos),
                Err(e) => pos >= self.base.node_count && e == GraphError::OutOfRange,
            },
    {
        if pos >= self.base.node_count {
            return Err(GraphError::OutOfRange);
        }
        if layer % 2 == 0 {
            Ok(pos)
        } else {
            Ok(self.base.node_count - 1 - pos)
        }
    }

    /// The layer ordering is an involution on the node range, hence a
    /// bijection: it carries no data, only a processing order.
    pub proof fn lemma_layer_ordering_involution(&self, layer: u32, pos: u64)
        requires
            self.wf(),
            pos < self.base.node_count,
        ensures
            self.layer_ordering_spec(layer, pos) < self.base.node_count,
            self.layer_ordering_spec(layer, self.layer_ordering_spec(layer, pos)) == pos,
    {
    }

    /// Build the inclusion tree over raw leaf data: one 32-byte domain
    /// element per node. Fails exactly when the data length is not the
    /// element size times the node count.
    pub fn merkle_tree(
        &self,
        params: &fil_sapling_crypto::jubjub::JubjubBls12,
        data: &Vec<u8>,
    ) -> (r: Result<MerkleTree, StructuralError>)
        requires
            self.wf(),
        ensures
            match r {
                Ok(t) => {
                    &&& data@.len() == 32 * (self.base.node_count as int)
                    &&& t.wf()
                    &&& is_pow2(t.leaf_count())
                    &&& self.base.node_count as nat <= t.leaf_count()
                    &&& t.leaf_count() == 1 || t.leaf_count() < 2 * (self.base.node_count as nat)
                    &&& t.leaves_spec() == leaf_seq_of(data@, self.base.node_count as int)
                        + Seq::new(
                        (t.leaf_count() - self.base.node_count as nat) as nat,
                        |i: int| Domain::zero_spec(),
                    )
                    &&& t.root_spec() == root_of(t.leaves_spec())
                },
                Err(e) => data@.len() != 32 * (self.base.node_count as int) && e
                    == StructuralError::DataSizeMismatch,
            },
    {
        let dlen: usize = data.len();
        let n = self.base.node_count;
        if n > (usize::MAX as u64) / 32 {
            proof {
                let nn = self.base.node_count as int;
                let mx = usize::MAX as int;
                vstd::arithmetic::div_mod::lemma_fundamental_div_mod(mx, 32);
                vstd::arithmetic::div_mod::lemma_mod_division_less_than_divisor(mx, 32);
                assert(32 * nn >= 32 * (mx / 32) + 32) by (nonlinear_arith)
                    requires
                        nn >= mx / 32 + 1,
                ;
                assert(data@.len() < 32 * nn);
            }
            return Err(StructuralError::DataSizeMismatch);
        }
        let n = n as usize;
        if data.len() != 32 * n {
            return Err(StructuralError::DataSizeMismatch);
        }
        let leaves = parse_leaves(data, n);
        match MerkleTree::build(params, leaves) {
            Ok(t) => Ok(t),
            Err(e) => Err(StructuralError::DataSizeMismatch),
        }
    }
}

impl Graph for LayeredGraph {
    open spec fn inv(&self) -> bool {
        self.wf()
    }

    open spec fn size_spec(&self) -> u64 {
        self.base.node_count
    }

    open spec fn degree_spec(&self) -> u32 {
        ((self.base.base_degree as int) + (self.expansion_degree as int)) as u32
    }

    open spec fn seed_spec(&self) -> Seq<u8> {
        self.base.seed@
    }

    open spec fn parents_spec(&self, node: u64) -> Seq<u64> {
        self.parents_at_layer_spec(node, 0)
    }

    fn size(&self) -> (r: u64) {
        self.base.node_count
    }

    fn degree(&self) -> (r: u32) {
        self.base.base_degree + self.expansion_degree
    }

    fn seed(&self) -> (r: [u8; 32]) {
        self.base.seed
    }

    fn parents(&self, node: u64) -> (r: Result<Vec<u64>, GraphError>) {
        self.parents_at_layer(node, 0)
    }
}

} // verus!
