use vstd::prelude::*;

use crate::domain::Domain;
use crate::pedersen::{chain_digest, chain_digest_exec};
use crate::tree::{hash_up, MerkleProof, MerkleTree};

verus! {

/// The ordered per-layer encoded values of one node: `rows[k]` is the
/// node's encoded value at layer `k + 1`. Layer 0, the unencoded original
/// data, lives in a separate tree and is not a row.
#[derive(Clone, Debug, PartialEq, Eq)]
pub struct Column {
    pub index: u32,
    pub rows: Vec<Domain>,
}

/// A column bound to the column-commitment tree: the full column together
/// with the inclusion proof of its commitment at the column's index.
#[derive(Clone, Debug, PartialEq, Eq)]
pub struct ColumnProof {
    pub column: Column,
    pub inclusion_proof: MerkleProof,
}

impl Column {
    /// The commitment of a column: a single row is reinterpreted as a
    /// domain value directly; two or more rows are reduced through the
    /// column hash over the ordered row sequence.
    pub open spec fn hash_spec(&self) -> Domain
        recommends
            self.rows@.len() >= 1,
    {
        if self.rows@.len() == 1 {
            self.rows@[0]
        } else {
            chain_digest(self.rows@)
        }
    }

    /// Build a column from its node index and its ordered rows.
    pub fn new(index: u32, rows: Vec<Domain>) -> (r: Column)
        ensures
            r.index == index,
            r.rows == rows,
    {
        Column { index, rows }
    }

    /// An empty column for a node, to be filled one layer at a time.
    pub fn with_capacity(index: u32, capacity: usize) -> (r: Column)
        ensures
            r.index == index,
            r.rows@ == Seq::<Domain>::empty(),
    {
        Column::new(index, Vec::with_capacity(capacity))
    }

    /// The ordered rows.
    pub fn rows(&self) -> (r: &Vec<Domain>)
        ensures
            r == &self.rows,
    {
        &self.rows
    }

    /// The node index.
    pub fn index(&self) -> (r: u32)
        ensures
            r == self.index,
    {
        self.index
    }

    /// Append the encoded value of the next layer.
    pub fn push_row(&mut self, row: Domain)
        requires
            old(self).rows@.len() < usize::MAX,
        ensures
            final(self).index == old(self).index,
            final(self).rows@ == old(self).rows@.push(row),
    {
        self.rows.push(row);
    }

    /// The column commitment.
    pub fn hash(&self) -> (r: Domain)
        requires
            self.rows@.len() >= 1,
        ensures
            r == self.hash_spec(),
    {
        if self.rows.len() == 1 {
            self.rows[0]
        } else {
            chain_digest_exec(&self.rows)
        }
    }

    /// The node's encoded value at `layer`. Layer 0 belongs to the data
    /// tree, so `layer` starts at 1.
    pub fn get_node_at_layer(&self, layer: usize) -> (r: Domain)
        requires
            1 <= layer <= self.rows@.len(),
        ensures
            r == self.rows@[layer - 1],
    {
        self.rows[layer - 1]
    }

    /// Bind this column to the column-commitment tree: pair it with the
    /// inclusion proof of the leaf at the column's index.
    pub fn into_proof(self, tree_c: &MerkleTree) -> (r: ColumnProof)
        requires
            tree_c.wf(),
            (self.index as nat) < tree_c.leaf_count(),
        ensures
            r.column == self,
            r.inclusion_proof.path@.len() == tree_c.height(),
            hash_up(tree_c.leaves_spec()[self.index as int], r.inclusion_proof.path@)
                == tree_c.root_spec(),
    {
        let inclusion_proof = tree_c.gen_proof(self.index as usize);
        ColumnProof { column: self, inclusion_proof }
    }
}

} // verus!
