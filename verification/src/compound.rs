use vstd::prelude::*;

use crate::domain::Domain;
use crate::error::{CompoundError, GraphError};
use crate::graph::Graph;
use crate::tree::{path_len_of, MerkleProof};

verus! {

/// The pair of commitments published by replication: the root of the
/// replica tree and the root of the data tree.
#[derive(Clone, Copy, Debug, PartialEq, Eq, Structural)]
pub struct Tau {
    pub comm_r: Domain,
    pub comm_d: Domain,
}

/// Public parameters of the scheme: the graph, how many challenges a
/// proof may answer, and whether the commitments stay private.
pub struct PublicParams<G> {
    pub graph: G,
    pub challenges_count: usize,
    pub private: bool,
}

/// Public inputs of one proof: the replica id, the challenged nodes in
/// order, and the commitments where the scheme is not private.
pub struct PublicInputs {
    pub replica_id: Option<Domain>,
    pub challenges: Vec<u64>,
    pub tau: Option<Tau>,
}

/// Public parameters of the Proof-of-Retrievability sub-scheme.
pub struct PorPublicParams {
    pub leaves: u64,
    pub private: bool,
}

/// Public inputs of one PoR instance: the commitment it is evaluated
/// against (absent in private mode) and the challenged leaf.
pub struct PorPublicInputs {
    pub commitment: Option<Domain>,
    pub challenge: u64,
}

/// Size of one PoR input block.
pub open spec fn por_block_size(private: bool) -> int {
    if private {
        1
    } else {
        2
    }
}

/// The positional input block of one PoR instance: the challenged index
/// embedded as a domain element, then, where the scheme is not private,
/// the commitment the proof is evaluated against.
pub open spec fn por_block_spec(commitment: Option<Domain>, challenge: u64) -> Seq<Domain> {
    match commitment {
        Some(c) => seq![Domain::from_u64_spec(challenge), c],
        None => seq![Domain::from_u64_spec(challenge)],
    }
}

/// The concatenated PoR blocks of a run of node indices, in order.
pub open spec fn por_blocks_of(commitment: Option<Domain>, nodes: Seq<u64>) -> Seq<Domain>
    decreases nodes.len(),
{
    if nodes.len() == 0 {
        Seq::empty()
    } else {
        por_block_spec(commitment, nodes[0]) + por_blocks_of(commitment, nodes.drop_first())
    }
}

/// The public-input section of one challenge: the PoR block of the
/// challenge against the replica commitment, one block per parent against
/// the replica commitment, then the block of the challenge against the
/// data commitment.
pub open spec fn challenge_section_spec<G: Graph>(
    g: G,
    comm_r: Option<Domain>,
    comm_d: Option<Domain>,
    c: u64,
) -> Seq<Domain> {
    por_block_spec(comm_r, c) + por_blocks_of(comm_r, g.parents_spec(c)) + por_block_spec(
        comm_d,
        c,
    )
}

/// The full positional public-input vector: the replica id, then the
/// section of each challenge, in the given order.
pub open spec fn public_inputs_spec<G: Graph>(
    g: G,
    replica_id: Domain,
    challenges: Seq<u64>,
    comm_r: Option<Domain>,
    comm_d: Option<Domain>,
) -> Seq<Domain>
    decreases challenges.len(),
{
    if challenges.len() == 0 {
        seq![replica_id]
    } else {
        public_inputs_spec(g, replica_id, challenges.drop_last(), comm_r, comm_d)
            + challenge_section_spec(g, comm_r, comm_d, challenges.last())
    }
}

/// The replica commitment carried by an optional tau.
pub open spec fn tau_comm_r(tau: Option<Tau>) -> Option<Domain> {
    match tau {
        Some(t) => Some(t.comm_r),
        None => None,
    }
}

/// The data commitment carried by an optional tau.
pub open spec fn tau_comm_d(tau: Option<Tau>) -> Option<Domain> {
    match tau {
        Some(t) => Some(t.comm_d),
        None => None,
    }
}

/// Appending one node appends its block.
pub proof fn lemma_por_blocks_push(commitment: Option<Domain>, nodes: Seq<u64>, x: u64)
    ensures
        por_blocks_of(commitment, nodes.push(x)) == por_blocks_of(commitment, nodes)
            + por_block_spec(commitment, x),
    decreases nodes.len(),
{
    if nodes.len() == 0 {
        assert(nodes.push(x).drop_first() =~= nodes);
        assert(por_blocks_of(commitment, nodes.push(x)) =~= por_blocks_of(commitment, nodes)
            + por_block_spec(commitment, x));
    } else {
        assert(nodes.push(x).drop_first() =~= nodes.drop_first().push(x));
        lemma_por_blocks_push(commitment, nodes.drop_first(), x);
        assert(por_blocks_of(commitment, nodes.push(x)) =~= por_blocks_of(commitment, nodes)
            + por_block_spec(commitment, x));
    }
}

/// The blocks of `n` nodes hold `n` times the block size.
pub proof fn lemma_por_blocks_len(commitment: Option<Domain>, nodes: Seq<u64>)
    ensures
        por_blocks_of(commitment, nodes).len() == nodes.len() * (if commitment is None {
            1int
        } else {
            2int
        }),
    decreases nodes.len(),
{
    let bs: int = if commitment is None {
        1
    } else {
        2
    };
    if nodes.len() > 0 {
        lemma_por_blocks_len(commitment, nodes.drop_first());
        let n = nodes.len() as int;
        assert(n * bs == bs + (n - 1) * bs) by (nonlinear_arith);
    }
}

/// The public-input vector holds the replica id and, for each challenge,
/// one block per node reference: the challenge and its `degree` parents
/// against the replica commitment, and the challenge against the data
/// commitment.
pub proof fn lemma_public_inputs_len<G: Graph>(
    g: G,
    replica_id: Domain,
    challenges: Seq<u64>,
    comm_r: Option<Domain>,
    comm_d: Option<Domain>,
)
    requires
        (comm_r is None) == (comm_d is None),
        forall|idx: int|
            0 <= idx < challenges.len() ==> (#[trigger] g.parents_spec(challenges[idx])).len()
                == g.degree_spec() as nat,
    ensures
        public_inputs_spec(g, replica_id, challenges, comm_r, comm_d).len() == 1 + challenges.len()
            * ((g.degree_spec() as int + 2) * (if comm_r is None {
            1int
        } else {
            2int
        })),
    decreases challenges.len(),
{
    let bs: int = if comm_r is None {
        1
    } else {
        2
    };
    let deg = g.degree_spec() as int;
    if challenges.len() > 0 {
        assert forall|idx: int| 0 <= idx < challenges.drop_last().len() implies (
        #[trigger] g.parents_spec(challenges.drop_last()[idx])).len() == g.degree_spec() as nat by {
            assert(challenges.drop_last()[idx] == challenges[idx]);
        }
        lemma_public_inputs_len(g, replica_id, challenges.drop_last(), comm_r, comm_d);
        lemma_por_blocks_len(comm_r, g.parents_spec(challenges.last()));
        let n = challenges.len() as int;
        assert(1 + (n - 1) * ((deg + 2) * bs) + (bs + deg * bs + bs) == 1 + n * ((deg + 2) * bs))
            by (nonlinear_arith);
    }
}

/// The element right after the sections of the first `k` challenges is
/// challenge `k` itself, embedded as a domain element.
pub proof fn lemma_public_inputs_index<G: Graph>(
    g: G,
    replica_id: Domain,
    challenges: Seq<u64>,
    comm_r: Option<Domain>,
    comm_d: Option<Domain>,
    k: int,
)
    requires
        (comm_r is None) == (comm_d is None),
        forall|idx: int|
            0 <= idx < challenges.len() ==> (#[trigger] g.parents_spec(challenges[idx])).len()
                == g.degree_spec() as nat,
        0 <= k < challenges.len(),
    ensures
        ({
            let bs: int = if comm_r is None {
                1
            } else {
                2
            };
            let pos = 1 + k * ((g.degree_spec() as int + 2) * bs);
            let out = public_inputs_spec(g, replica_id, challenges, comm_r, comm_d);
            0 <= pos < out.len() && out[pos] == Domain::from_u64_spec(challenges[k])
        }),
    decreases challenges.len(),
{
    let bs: int = if comm_r is None {
        1
    } else {
        2
    };
    let deg = g.degree_spec() as int;
    let s = (deg + 2) * bs;
    let pos = 1 + k * s;
    let out = public_inputs_spec(g, replica_id, challenges, comm_r, comm_d);
    let n = challenges.len() as int;
    lemma_public_inputs_len(g, replica_id, challenges, comm_r, comm_d);
    assert(s >= 2) by (nonlinear_arith)
        requires
            deg >= 0,
            bs >= 1,
            s == (deg + 2) * bs,
    ;
    assert(0 <= k * s) by (nonlinear_arith)
        requires
            k >= 0,
            s >= 0,
    ;
    assert(k * s <= (n - 1) * s) by (nonlinear_arith)
        requires
            k <= n - 1,
            s >= 0,
    ;
    assert forall|idx: int| 0 <= idx < challenges.drop_last().len() implies (
    #[trigger] g.parents_spec(challenges.drop_last()[idx])).len() == g.degree_spec() as nat by {
        assert(challenges.drop_last()[idx] == challenges[idx]);
    }
    lemma_public_inputs_len(g, replica_id, challenges.drop_last(), comm_r, comm_d);
    let prefix = public_inputs_spec(g, replica_id, challenges.drop_last(), comm_r, comm_d);
    let sect = challenge_section_spec(g, comm_r, comm_d, challenges.last());
    assert(out == prefix + sect);
    if k < n - 1 {
        assert(k * s < (n - 1) * s) by (nonlinear_arith)
            requires
                k < n - 1,
                s >= 1,
        ;
        assert(pos < prefix.len());
        lemma_public_inputs_index(g, replica_id, challenges.drop_last(), comm_r, comm_d, k);
        assert(challenges.drop_last()[k] == challenges[k]);
    } else {
        assert(pos == prefix.len());
        assert(out[pos] == sect[0]);
        assert(sect[0] == por_block_spec(comm_r, challenges.last())[0]);
        assert(por_block_spec(comm_r, challenges.last())[0] == Domain::from_u64_spec(
            challenges.last(),
        ));
    }
}

/// Position sensitivity: the vector binds challenges positionally, so two
/// runs over challenge sequences of equal length that disagree at some
/// position give different vectors.
pub proof fn lemma_public_inputs_position_sensitive<G: Graph>(
    g: G,
    replica_id: Domain,
    challenges1: Seq<u64>,
    challenges2: Seq<u64>,
    comm_r: Option<Domain>,
    comm_d: Option<Domain>,
    k: int,
)
    requires
        (comm_r is None) == (comm_d is None),
        forall|idx: int|
            0 <= idx < challenges1.len() ==> (#[trigger] g.parents_spec(challenges1[idx])).len()
                == g.degree_spec() as nat,
        forall|idx: int|
            0 <= idx < challenges2.len() ==> (#[trigger] g.parents_spec(challenges2[idx])).len()
                == g.degree_spec() as nat,
        challenges1.len() == challenges2.len(),
        0 <= k < challenges1.len(),
        challenges1[k] != challenges2[k],
    ensures
        public_inputs_spec(g, replica_id, challenges1, comm_r, comm_d) != public_inputs_spec(
            g,
            replica_id,
            challenges2,
            comm_r,
            comm_d,
        ),
{
    lemma_public_inputs_index(g, replica_id, challenges1, comm_r, comm_d, k);
    lemma_public_inputs_index(g, replica_id, challenges2, comm_r, comm_d, k);
    if Domain::from_u64_spec(challenges1[k]) == Domain::from_u64_spec(challenges2[k]) {
        crate::domain::lemma_from_u64_injective(challenges1[k], challenges2[k]);
    }
}

/// The public-input block of one PoR instance. Fails exactly when the
/// privacy flag disagrees with the commitment's presence, or the
/// challenge lies outside the leaf range.
pub fn generate_por_public_inputs(pub_in: &PorPublicInputs, pub_params: &PorPublicParams) -> (r:
    Result<Vec<Domain>, CompoundError>)
    ensures
        match r {
            Ok(v) => {
                &&& (pub_in.commitment is None) == pub_params.private
                &&& pub_in.challenge < pub_params.leaves
                &&& v@ == por_block_spec(pub_in.commitment, pub_in.challenge)
            },
            Err(e) => {
                ||| ((pub_in.commitment is None) != pub_params.private && e
                    == CompoundError::PrivacyMismatch)
                ||| ((pub_in.commitment is None) == pub_params.private && pub_in.challenge
                    >= pub_params.leaves && e == CompoundError::Graph(GraphError::OutOfRange))
            },
        },
{
    let consistent = match pub_in.commitment {
        Some(_) => !pub_params.private,
        None => pub_params.private,
    };
    if !consistent {
        return Err(CompoundError::PrivacyMismatch);
    }
    if pub_in.challenge >= pub_params.leaves {
        return Err(CompoundError::Graph(GraphError::OutOfRange));
    }
    let mut block: Vec<Domain> = Vec::new();
    block.push(Domain::from_u64(pub_in.challenge));
    match pub_in.commitment {
        Some(c) => {
            block.push(c);
        },
        None => {},
    }
    proof {
        assert(block@ =~= por_block_spec(pub_in.commitment, pub_in.challenge));
    }
    Ok(block)
}

/// One node's opening in the vanilla proof: its value and the inclusion
/// path binding it to the corresponding tree root.
#[derive(Clone, Debug, PartialEq, Eq)]
pub struct DataProof {
    pub data: Domain,
    pub proof: MerkleProof,
}

/// A vanilla replication proof: per challenge, the opened replica node,
/// the opened replica parents (with their indices), and the opened data
/// node, together with the two roots.
#[derive(Clone, Debug, PartialEq, Eq)]
pub struct VanillaProof {
    pub replica_nodes: Vec<DataProof>,
    pub replica_parents: Vec<Vec<(u64, DataProof)>>,
    pub nodes: Vec<DataProof>,
    pub replica_root: Domain,
    pub data_root: Domain,
}

/// A commitment bound into the circuit: a known value, or a placeholder
/// when deriving keys.
#[derive(Clone, Copy, Debug, PartialEq, Eq)]
pub struct Root {
    pub value: Option<Domain>,
}

/// Commitments supplied privately to circuit synthesis.
#[derive(Clone, Copy, Debug)]
pub struct ComponentPrivateInputs {
    pub comm_d: Option<Root>,
    pub comm_r: Option<Root>,
}

/// The circuit witness structure: per challenge, the replica node and its
/// path, the parent openings, and the data node and its path. Absent
/// values make the blank template used for one-time key derivation.
#[derive(Clone, Debug, PartialEq, Eq)]
pub struct DrgPoRepCircuit {
    pub replica_nodes: Vec<Option<Domain>>,
    pub replica_nodes_paths: Vec<Vec<(Option<Domain>, Option<bool>)>>,
    pub replica_root: Root,
    pub replica_parents: Vec<Vec<Option<Domain>>>,
    pub replica_parents_paths: Vec<Vec<Vec<(Option<Domain>, Option<bool>)>>>,
    pub data_nodes: Vec<Option<Domain>>,
    pub data_nodes_paths: Vec<Vec<(Option<Domain>, Option<bool>)>>,
    pub data_root: Root,
    pub replica_id: Option<Domain>,
    pub private: bool,
}

/// An inclusion path rendered as circuit options.
pub open spec fn path_options(p: Seq<(Domain, bool)>) -> Seq<(Option<Domain>, Option<bool>)> {
    p.map_values(|e: (Domain, bool)| (Some(e.0), Some(e.1)))
}

/// The privately supplied root, or the placeholder where it is absent.
pub open spec fn root_or_blank(x: Option<Root>) -> Root {
    match x {
        Some(r) => r,
        None => Root { value: None },
    }
}

/// The witness relation between a circuit and the vanilla proof it was
/// assembled from.
pub open spec fn circuit_matches_proof(c: DrgPoRepCircuit, p: VanillaProof) -> bool {
    let n = p.nodes@.len();
    &&& c.replica_nodes@.len() == n
    &&& (forall|i: int|
        0 <= i < n ==> c.replica_nodes@[i] == Some(p.replica_nodes@[i].data))
    &&& c.replica_nodes_paths@.len() == n
    &&& (forall|i: int|
        0 <= i < n ==> (#[trigger] c.replica_nodes_paths@[i])@ == path_options(
            p.replica_nodes@[i].proof.path@,
        ))
    &&& c.replica_parents@.len() == n
    &&& (forall|i: int|
        0 <= i < n ==> (#[trigger] c.replica_parents@[i])@ == p.replica_parents@[i]@.map_values(
            |pp: (u64, DataProof)| Some(pp.1.data),
        ))
    &&& c.replica_parents_paths@.len() == n
    &&& (forall|i: int|
        0 <= i < n ==> (#[trigger] c.replica_parents_paths@[i])@.len()
            == p.replica_parents@[i]@.len())
    &&& (forall|i: int, j: int|
        0 <= i < n && 0 <= j < p.replica_parents@[i]@.len() ==> (
        #[trigger] c.replica_parents_paths@[i]@[j])@ == path_options(
            p.replica_parents@[i]@[j].1.proof.path@,
        ))
    &&& c.data_nodes@.len() == n
    &&& (forall|i: int| 0 <= i < n ==> c.data_nodes@[i] == Some(p.nodes@[i].data))
    &&& c.data_nodes_paths@.len() == n
    &&& (forall|i: int|
        0 <= i < n ==> (#[trigger] c.data_nodes_paths@[i])@ == path_options(
            p.nodes@[i].proof.path@,
        ))
}

fn path_to_options(p: &MerkleProof) -> (r: Vec<(Option<Domain>, Option<bool>)>)
    ensures
        r@ == path_options(p.path@),
{
    let mut out: Vec<(Option<Domain>, Option<bool>)> = Vec::new();
    let mut i: usize = 0;
    while i < p.path.len()
        invariant
            i <= p.path@.len(),
            out@.len() == i as nat,
            forall|k: int|
                0 <= k < i ==> out@[k] == (Some(p.path@[k].0), Some(p.path@[k].1)),
        decreases p.path@.len() - i,
    {
        let (v, d) = p.path[i];
        out.push((Some(v), Some(d)));
        i = i + 1;
    }
    proof {
        assert(out@ =~= path_options(p.path@));
    }
    out
}

fn nodes_values(list: &Vec<DataProof>) -> (r: Vec<Option<Domain>>)
    ensures
        r@.len() == list@.len(),
        forall|i: int| 0 <= i < list@.len() ==> r@[i] == Some(list@[i].data),
{
    let mut out: Vec<Option<Domain>> = Vec::new();
    let mut i: usize = 0;
    while i < list.len()
        invariant
            i <= list@.len(),
            out@.len() == i as nat,
            forall|k: int| 0 <= k < i ==> out@[k] == Some(list@[k].data),
        decreases list@.len() - i,
    {
        let dp = &list[i];
        out.push(Some(dp.data));
        i = i + 1;
    }
    out
}

fn nodes_paths(list: &Vec<DataProof>) -> (r: Vec<Vec<(Option<Domain>, Option<bool>)>>)
    ensures
        r@.len() == list@.len(),
        forall|i: int|
            0 <= i < list@.len() ==> (#[trigger] r@[i])@ == path_options(list@[i].proof.path@),
{
    let mut out: Vec<Vec<(Option<Domain>, Option<bool>)>> = Vec::new();
    let mut i: usize = 0;
    while i < list.len()
        invariant
            i <= list@.len(),
            out@.len() == i as nat,
            forall|k: int|
                0 <= k < i ==> (#[trigger] out@[k])@ == path_options(list@[k].proof.path@),
        decreases list@.len() - i,
    {
        let dp = &list[i];
        let path = path_to_options(&dp.proof);
        out.push(path);
        i = i + 1;
    }
    out
}

fn parents_values(list: &Vec<Vec<(u64, DataProof)>>) -> (r: Vec<Vec<Option<Domain>>>)
    ensures
        r@.len() == list@.len(),
        forall|i: int|
            0 <= i < list@.len() ==> (#[trigger] r@[i])@ == list@[i]@.map_values(
                |pp: (u64, DataProof)| Some(pp.1.data),
            ),
{
    let mut out: Vec<Vec<Option<Domain>>> = Vec::new();
    let mut i: usize = 0;
    while i < list.len()
        invariant
            i <= list@.len(),
            out@.len() == i as nat,
            forall|k: int|
                0 <= k < i ==> (#[trigger] out@[k])@ == list@[k]@.map_values(
                    |pp: (u64, DataProof)| Some(pp.1.data),
                ),
        decreases list@.len() - i,
    {
        let inner = &list[i];
        let mut vals: Vec<Option<Domain>> = Vec::new();
        let mut j: usize = 0;
        while j < inner.len()
            invariant
                j <= inner@.len(),
                vals@.len() == j as nat,
                forall|k: int| 0 <= k < j ==> vals@[k] == Some(inner@[k].1.data),
            decreases inner@.len() - j,
        {
            let pair = &inner[j];
            vals.push(Some(pair.1.data));
            j = j + 1;
        }
        proof {
            assert(vals@ =~= inner@.map_values(|pp: (u64, DataProof)| Some(pp.1.data)));
        }
        out.push(vals);
        i = i + 1;
    }
    out
}

fn parents_paths(list: &Vec<Vec<(u64, DataProof)>>) -> (r: Vec<
    Vec<Vec<(Option<Domain>, Option<bool>)>>,
>)
    ensures
        r@.len() == list@.len(),
        forall|i: int|
            0 <= i < list@.len() ==> (#[trigger] r@[i])@.len() == list@[i]@.len(),
        forall|i: int, j: int|
            0 <= i < list@.len() && 0 <= j < list@[i]@.len() ==> (#[trigger] r@[i]@[j])@
                == path_options(list@[i]@[j].1.proof.path@),
{
    let mut out: Vec<Vec<Vec<(Option<Domain>, Option<bool>)>>> = Vec::new();
    let mut i: usize = 0;
    while i < list.len()
        invariant
            i <= list@.len(),
            out@.len() == i as nat,
            forall|k: int| 0 <= k < i ==> (#[trigger] out@[k])@.len() == list@[k]@.len(),
            forall|k: int, j: int|
                0 <= k < i && 0 <= j < list@[k]@.len() ==> (#[trigger] out@[k]@[j])@
                    == path_options(list@[k]@[j].1.proof.path@),
        decreases list@.len() - i,
    {
        let inner = &list[i];
        let mut paths: Vec<Vec<(Option<Domain>, Option<bool>)>> = Vec::new();
        let mut j: usize = 0;
        while j < inner.len()
            invariant
                j <= inner@.len(),
                paths@.len() == j as nat,
                forall|k: int|
                    0 <= k < j ==> (#[trigger] paths@[k])@ == path_options(
                        inner@[k].1.proof.path@,
                    ),
            decreases inner@.len() - j,
        {
            let pair = &inner[j];
            let path = path_to_options(&pair.1.proof);
            paths.push(path);
            j = j + 1;
        }
        out.push(paths);
        i = i + 1;
    }
    out
}

/// Compound-proof assembly for the replication scheme: it turns public
/// inputs into the positional scalar vector the succinct-proof backend
/// consumes, and a vanilla proof into the witness structure of matching
/// shape.
pub struct DrgPoRepCompound {}

impl DrgPoRepCompound {
    /// The positional public-input vector: the replica id, then, for each
    /// challenge in order, one PoR block for the challenge and each of
    /// its parents against the replica commitment, and one for the
    /// challenge against the data commitment.
    pub fn generate_public_inputs<G: Graph>(
        pub_in: &PublicInputs,
        pub_params: &PublicParams<G>,
    ) -> (r: Result<Vec<Domain>, CompoundError>)
        requires
            pub_params.graph.inv(),
        ensures
            match r {
                Ok(v) => {
                    &&& pub_in.replica_id is Some
                    &&& (pub_in.tau is None) == pub_params.private
                    &&& (forall|k: int|
                        0 <= k < pub_in.challenges@.len() ==> #[trigger] pub_in.challenges@[k]
                            < pub_params.graph.size_spec())
                    &&& v@ == public_inputs_spec(
                        pub_params.graph,
                        match pub_in.replica_id {
                            Some(rid) => rid,
                            None => Domain::zero_spec(),
                        },
                        pub_in.challenges@,
                        tau_comm_r(pub_in.tau),
                        tau_comm_d(pub_in.tau),
                    )
                    &&& v@.len() == 1 + pub_in.challenges@.len() * (((
                    pub_params.graph.degree_spec() as int + 1) + 1) * por_block_size(
                        pub_params.private,
                    ))
                },
                Err(e) => {
                    ||| (pub_in.replica_id is None && e == CompoundError::MissingReplicaId)
                    ||| (pub_in.replica_id is Some && (pub_in.tau is None) != pub_params.private
                        && e == CompoundError::PrivacyMismatch)
                    ||| (pub_in.replica_id is Some && (pub_in.tau is None) == pub_params.private
                        && (exists|k: int|
                        0 <= k < pub_in.challenges@.len() && #[trigger] pub_in.challenges@[k]
                            >= pub_params.graph.size_spec()) && e == CompoundError::Graph(
                        GraphError::OutOfRange,
                    ))
                },
            },
    {
        let replica_id = match pub_in.replica_id {
            Some(rid) => rid,
            None => {
                return Err(CompoundError::MissingReplicaId);
            },
        };
        let tau_none = match pub_in.tau {
            Some(_) => false,
            None => true,
        };
        if tau_none != pub_params.private {
            return Err(CompoundError::PrivacyMismatch);
        }
        let (comm_r, comm_d) = match pub_in.tau {
            None => (None, None),
            Some(tau) => (Some(tau.comm_r), Some(tau.comm_d)),
        };
        let leaves = pub_params.graph.size();
        let por_params = PorPublicParams { leaves, private: pub_params.private };
        let mut input: Vec<Domain> = Vec::new();
        input.push(replica_id);
        let mut i: usize = 0;
        while i < pub_in.challenges.len()
            invariant
                pub_params.graph.inv(),
                i <= pub_in.challenges@.len(),
                leaves == pub_params.graph.size_spec(),
                por_params.leaves == leaves,
                por_params.private == pub_params.private,
                pub_in.replica_id == Some(replica_id),
                (pub_in.tau is None) == pub_params.private,
                comm_r == tau_comm_r(pub_in.tau),
                comm_d == tau_comm_d(pub_in.tau),
                (comm_r is None) == pub_params.private,
                (comm_d is None) == pub_params.private,
                input@ == public_inputs_spec(
                    pub_params.graph,
                    replica_id,
                    pub_in.challenges@.take(i as int),
                    comm_r,
                    comm_d,
                ),
                forall|k: int|
                    0 <= k < i ==> #[trigger] pub_in.challenges@[k]
                        < pub_params.graph.size_spec(),
                forall|k: int|
                    0 <= k < i ==> (#[trigger] pub_params.graph.parents_spec(
                        pub_in.challenges@[k],
                    )).len() == pub_params.graph.degree_spec() as nat,
            decreases pub_in.challenges@.len() - i,
        {
            let challenge = pub_in.challenges[i];
            let parents = match pub_params.graph.parents(challenge) {
                Ok(ps) => ps,
                Err(e) => {
                    proof {
                        assert((i as int) < pub_in.challenges@.len());
                        assert(pub_in.challenges@[i as int] >= pub_params.graph.size_spec());
                    }
                    return Err(CompoundError::Graph(e));
                },
            };
            let ghost pre = input@;
            let block = match generate_por_public_inputs(
                &PorPublicInputs { commitment: comm_r, challenge },
                &por_params,
            ) {
                Ok(b) => b,
                Err(e) => {
                    return Err(e);
                },
            };
            let mut block = block;
            input.append(&mut block);
            let mut j: usize = 0;
            while j < parents.len()
                invariant
                    pub_params.graph.inv(),
                    j <= parents@.len(),
                    leaves == pub_params.graph.size_spec(),
                    por_params.leaves == leaves,
                    por_params.private == pub_params.private,
                    (comm_r is None) == pub_params.private,
                    forall|k: int|
                        0 <= k < parents@.len() ==> (#[trigger] parents@[k] as int) < leaves as int,
                    input@ == pre + por_block_spec(comm_r, challenge) + por_blocks_of(
                        comm_r,
                        parents@.take(j as int),
                    ),
                decreases parents@.len() - j,
            {
                let parent = parents[j];
                let pblock = match generate_por_public_inputs(
                    &PorPublicInputs { commitment: comm_r, challenge: parent },
                    &por_params,
                ) {
                    Ok(b) => b,
                    Err(e) => {
                        return Err(e);
                    },
                };
                let mut pblock = pblock;
                input.append(&mut pblock);
                proof {
                    lemma_por_blocks_push(comm_r, parents@.take(j as int), parents@[j as int]);
                    assert(parents@.take(j as int + 1) =~= parents@.take(j as int).push(
                        parents@[j as int],
                    ));
                    assert(input@ =~= pre + por_block_spec(comm_r, challenge) + por_blocks_of(
                        comm_r,
                        parents@.take(j as int + 1),
                    ));
                }
                j = j + 1;
            }
            let dblock = match generate_por_public_inputs(
                &PorPublicInputs { commitment: comm_d, challenge },
                &por_params,
            ) {
                Ok(b) => b,
                Err(e) => {
                    return Err(e);
                },
            };
            let mut dblock = dblock;
            input.append(&mut dblock);
            proof {
                assert(parents@.take(parents@.len() as int) =~= parents@);
                assert(input@ =~= pre + challenge_section_spec(
                    pub_params.graph,
                    comm_r,
                    comm_d,
                    challenge,
                ));
                assert(pub_in.challenges@.take(i as int + 1).drop_last() =~= pub_in.challenges@.take(
                    i as int,
                ));
                assert(pub_in.challenges@.take(i as int + 1).last() == pub_in.challenges@[i as int]);
            }
            i = i + 1;
        }
        proof {
            assert(pub_in.challenges@.take(pub_in.challenges@.len() as int)
                =~= pub_in.challenges@);
            lemma_public_inputs_len(
                pub_params.graph,
                replica_id,
                pub_in.challenges@,
                comm_r,
                comm_d,
            );
        }
        Ok(input)
    }

    /// The cache key prefix under which this scheme's parameters are
    /// stored by the key-caching layer.
    pub fn cache_prefix() -> (r: String)
        ensures
            r@ == "drg-proof-of-replication-pedersen"@,
    {
        "drg-proof-of-replication-pedersen".to_owned()
    }

    /// Assemble the circuit witness from a vanilla proof. The proof may
    /// answer at most `challenges_count` challenges, its per-challenge
    /// bundles must agree in length, private mode needs both roots
    /// supplied privately, and the privacy flag must agree with the
    /// commitments, checked here a second time.
    pub fn circuit<G: Graph>(
        public_inputs: &PublicInputs,
        component_private_inputs: ComponentPrivateInputs,
        proof: &VanillaProof,
        public_params: &PublicParams<G>,
    ) -> (r: Result<DrgPoRepCircuit, CompoundError>)
        ensures
            match r {
                Ok(c) => {
                    &&& proof.nodes@.len() <= public_params.challenges_count
                    &&& proof.replica_parents@.len() == proof.nodes@.len()
                    &&& proof.replica_nodes@.len() == proof.nodes@.len()
                    &&& (public_inputs.tau is None) == public_params.private
                    &&& circuit_matches_proof(c, *proof)
                    &&& c.replica_id == public_inputs.replica_id
                    &&& c.private == public_params.private
                    &&& (public_params.private ==> {
                        &&& component_private_inputs.comm_d is Some
                        &&& component_private_inputs.comm_r is Some
                        &&& c.data_root == root_or_blank(component_private_inputs.comm_d)
                        &&& c.replica_root == root_or_blank(component_private_inputs.comm_r)
                    })
                    &&& (!public_params.private ==> {
                        &&& c.data_root == (Root { value: Some(proof.data_root) })
                        &&& c.replica_root == (Root { value: Some(proof.replica_root) })
                    })
                },
                Err(e) => {
                    let n = proof.nodes@.len();
                    ||| (n > public_params.challenges_count && e == CompoundError::TooManyChallenges)
                    ||| (n <= public_params.challenges_count && proof.replica_parents@.len() != n
                        && e == CompoundError::ParentCountMismatch)
                    ||| (n <= public_params.challenges_count && proof.replica_parents@.len() == n
                        && proof.replica_nodes@.len() != n && e == CompoundError::NodeCountMismatch)
                    ||| (n <= public_params.challenges_count && proof.replica_parents@.len() == n
                        && proof.replica_nodes@.len() == n && public_params.private
                        && (component_private_inputs.comm_d is None
                        || component_private_inputs.comm_r is None) && e
                        == CompoundError::MissingPrivateRoot)
                    ||| (n <= public_params.challenges_count && proof.replica_parents@.len() == n
                        && proof.replica_nodes@.len() == n && (public_params.private
                        ==> component_private_inputs.comm_d is Some
                        && component_private_inputs.comm_r is Some) && (public_inputs.tau is None)
                        != public_params.private && e == CompoundError::PrivacyMismatch)
                },
            },
    {
        let len = proof.nodes.len();
        if len > public_params.challenges_count {
            return Err(CompoundError::TooManyChallenges);
        }
        if proof.replica_parents.len() != len {
            return Err(CompoundError::ParentCountMismatch);
        }
        if proof.replica_nodes.len() != len {
            return Err(CompoundError::NodeCountMismatch);
        }
        let (data_root, replica_root) = if public_params.private {
            let dr = match component_private_inputs.comm_d {
                Some(r) => r,
                None => {
                    return Err(CompoundError::MissingPrivateRoot);
                },
            };
            let rr = match component_private_inputs.comm_r {
                Some(r) => r,
                None => {
                    return Err(CompoundError::MissingPrivateRoot);
                },
            };
            (dr, rr)
        } else {
            (Root { value: Some(proof.data_root) }, Root { value: Some(proof.replica_root) })
        };
        let tau_none = match public_inputs.tau {
            Some(_) => false,
            None => true,
        };
        if tau_none != public_params.private {
            return Err(CompoundError::PrivacyMismatch);
        }
        Ok(
            DrgPoRepCircuit {
                replica_nodes: nodes_values(&proof.replica_nodes),
                replica_nodes_paths: nodes_paths(&proof.replica_nodes),
                replica_root,
                replica_parents: parents_values(&proof.replica_parents),
                replica_parents_paths: parents_paths(&proof.replica_parents),
                data_nodes: nodes_values(&proof.nodes),
                data_nodes_paths: nodes_paths(&proof.nodes),
                data_root,
                replica_id: public_inputs.replica_id,
                private: public_params.private,
            },
        )
    }

    /// The witness-shaped template used once for key derivation: the
    /// exact structural shape a concrete circuit has under the same
    /// parameters, with every value absent, every path entry included.
    pub fn blank_circuit<G: Graph>(public_params: &PublicParams<G>) -> (c: DrgPoRepCircuit)
        requires
            public_params.graph.inv(),
            public_params.graph.size_spec() <= usize::MAX as u64,
        ensures
            c.replica_id is None,
            c.private == public_params.private,
            c.replica_root == (Root { value: None }),
            c.data_root == (Root { value: None }),
            circuit_shape(
                c,
                public_params.challenges_count as int,
                public_params.graph.degree_spec() as int,
                path_len_of(public_params.graph.size_spec() as nat) as int,
            ),
            forall|i: int|
                0 <= i < public_params.challenges_count ==> c.replica_nodes@[i] is None
                    && c.data_nodes@[i] is None,
            forall|i: int, j: int|
                0 <= i < public_params.challenges_count && 0 <= j
                    < public_params.graph.degree_spec() ==> #[trigger] c.replica_parents@[i]@[j]
                    is None,
            forall|i: int|
                0 <= i < public_params.challenges_count ==> (#[trigger] c.replica_nodes_paths@[i])@
                    == blank_path(path_len_of(public_params.graph.size_spec() as nat)),
            forall|i: int|
                0 <= i < public_params.challenges_count ==> (#[trigger] c.data_nodes_paths@[i])@
                    == blank_path(path_len_of(public_params.graph.size_spec() as nat)),
            forall|i: int, j: int|
                0 <= i < public_params.challenges_count && 0 <= j
                    < public_params.graph.degree_spec() ==> (
                #[trigger] c.replica_parents_paths@[i]@[j])@ == blank_path(
                    path_len_of(public_params.graph.size_spec() as nat),
                ),
    {
        let cc = public_params.challenges_count;
        let degree = public_params.graph.degree();
        let depth = tree_depth(public_params.graph.size());
        let mut replica_nodes: Vec<Option<Domain>> = Vec::new();
        let mut replica_nodes_paths: Vec<Vec<(Option<Domain>, Option<bool>)>> = Vec::new();
        let mut replica_parents: Vec<Vec<Option<Domain>>> = Vec::new();
        let mut replica_parents_paths: Vec<Vec<Vec<(Option<Domain>, Option<bool>)>>> = Vec::new();
        let mut data_nodes: Vec<Option<Domain>> = Vec::new();
        let mut data_nodes_paths: Vec<Vec<(Option<Domain>, Option<bool>)>> = Vec::new();
        let mut i: usize = 0;
        while i < cc
            invariant
                i <= cc,
                depth as nat == path_len_of(public_params.graph.size_spec() as nat),
                degree == public_params.graph.degree_spec(),
                replica_nodes@.len() == i as nat,
                replica_nodes_paths@.len() == i as nat,
                replica_parents@.len() == i as nat,
                replica_parents_paths@.len() == i as nat,
                data_nodes@.len() == i as nat,
                data_nodes_paths@.len() == i as nat,
                forall|k: int| 0 <= k < i ==> replica_nodes@[k] is None,
                forall|k: int| 0 <= k < i ==> data_nodes@[k] is None,
                forall|k: int|
                    0 <= k < i ==> (#[trigger] replica_nodes_paths@[k])@ == blank_path(
                        depth as nat,
                    ),
                forall|k: int|
                    0 <= k < i ==> (#[trigger] data_nodes_paths@[k])@ == blank_path(depth as nat),
                forall|k: int|
                    0 <= k < i ==> (#[trigger] replica_parents@[k])@.len() == degree as nat,
                forall|k: int, j: int|
                    0 <= k < i && 0 <= j < degree ==> #[trigger] replica_parents@[k]@[j] is None,
                forall|k: int|
                    0 <= k < i ==> (#[trigger] replica_parents_paths@[k])@.len() == degree as nat,
                forall|k: int, j: int|
                    0 <= k < i && 0 <= j < degree ==> (#[trigger] replica_parents_paths@[k]@[j])@
                        == blank_path(depth as nat),
            decreases cc - i,
        {
            replica_nodes.push(None);
            data_nodes.push(None);
            replica_nodes_paths.push(blank_path_exec(depth));
            data_nodes_paths.push(blank_path_exec(depth));
            let mut parents: Vec<Option<Domain>> = Vec::new();
            let mut parent_paths: Vec<Vec<(Option<Domain>, Option<bool>)>> = Vec::new();
            let mut j: usize = 0;
            while j < degree as usize
                invariant
                    j <= degree as nat,
                    parents@.len() == j as nat,
                    parent_paths@.len() == j as nat,
                    forall|k: int| 0 <= k < j ==> parents@[k] is None,
                    forall|k: int|
                        0 <= k < j ==> (#[trigger] parent_paths@[k])@ == blank_path(depth as nat),
                    depth as nat == path_len_of(public_params.graph.size_spec() as nat),
                decreases degree - j,
            {
                parents.push(None);
                parent_paths.push(blank_path_exec(depth));
                j = j + 1;
            }
            replica_parents.push(parents);
            replica_parents_paths.push(parent_paths);
            i = i + 1;
        }
        DrgPoRepCircuit {
            replica_nodes,
            replica_nodes_paths,
            replica_root: Root { value: None },
            replica_parents,
            replica_parents_paths,
            data_nodes,
            data_nodes_paths,
            data_root: Root { value: None },
            replica_id: None,
            private: public_params.private,
        }
    }
}

/// The number of tree levels above the leaves for `n` leaf slots.
fn tree_depth(n: u64) -> (r: usize)
    requires
        n <= usize::MAX as u64,
    ensures
        r as nat == path_len_of(n as nat),
{
    proof {
        crate::tree::lemma_path_len_bound(n as nat);
    }
    let mut depth: u64 = 0;
    let mut m: u64 = n;
    while m > 1
        invariant
            depth + path_len_of(m as nat) == path_len_of(n as nat),
            path_len_of(n as nat) <= n as nat,
        decreases m,
    {
        let next = (m - 1) / 2 + 1;
        proof {
            assert(next as int == (m as int + 1) / 2);
        }
        m = next;
        depth = depth + 1;
    }
    depth as usize
}

/// An all-placeholder inclusion path of the given depth: absent sibling
/// and absent direction at every level.
pub open spec fn blank_path(depth: nat) -> Seq<(Option<Domain>, Option<bool>)> {
    Seq::new(depth, |i: int| (None::<Domain>, None::<bool>))
}

fn blank_path_exec(depth: usize) -> (r: Vec<(Option<Domain>, Option<bool>)>)
    ensures
        r@ == blank_path(depth as nat),
{
    let mut out: Vec<(Option<Domain>, Option<bool>)> = Vec::new();
    let mut i: usize = 0;
    while i < depth
        invariant
            i <= depth,
            out@.len() == i as nat,
            forall|k: int| 0 <= k < i ==> out@[k] == (None::<Domain>, None::<bool>),
        decreases depth - i,
    {
        out.push((None, None));
        i = i + 1;
    }
    proof {
        assert(out@ =~= blank_path(depth as nat));
    }
    out
}

/// The structural shape of a circuit: how many challenges, parents per
/// challenge, and path levels it holds slots for.
pub open spec fn circuit_shape(c: DrgPoRepCircuit, cc: int, degree: int, depth: int) -> bool {
    &&& c.replica_nodes@.len() == cc
    &&& c.replica_nodes_paths@.len() == cc
    &&& (forall|i: int|
        0 <= i < cc ==> (#[trigger] c.replica_nodes_paths@[i])@.len() == depth)
    &&& c.replica_parents@.len() == cc
    &&& (forall|i: int| 0 <= i < cc ==> (#[trigger] c.replica_parents@[i])@.len() == degree)
    &&& c.replica_parents_paths@.len() == cc
    &&& (forall|i: int|
        0 <= i < cc ==> (#[trigger] c.replica_parents_paths@[i])@.len() == degree)
    &&& (forall|i: int, j: int|
        0 <= i < cc && 0 <= j < degree ==> (#[trigger] c.replica_parents_paths@[i]@[j])@.len()
            == depth)
    &&& c.data_nodes@.len() == cc
    &&& c.data_nodes_paths@.len() == cc
    &&& (forall|i: int| 0 <= i < cc ==> (#[trigger] c.data_nodes_paths@[i])@.len() == depth)
}

/// The shape every vanilla proof produced under matching parameters has:
/// equal bundle counts, `degree` parents per challenge, and inclusion
/// paths of the tree's depth throughout.
pub open spec fn proof_well_shaped(p: VanillaProof, cc: int, degree: int, depth: int) -> bool {
    &&& p.nodes@.len() == cc
    &&& p.replica_nodes@.len() == cc
    &&& p.replica_parents@.len() == cc
    &&& (forall|i: int| 0 <= i < cc ==> (#[trigger] p.replica_parents@[i])@.len() == degree)
    &&& (forall|i: int|
        0 <= i < cc ==> (#[trigger] p.replica_nodes@[i]).proof.path@.len() == depth)
    &&& (forall|i: int| 0 <= i < cc ==> (#[trigger] p.nodes@[i]).proof.path@.len() == depth)
    &&& (forall|i: int, j: int|
        0 <= i < cc && 0 <= j < degree ==> (#[trigger] p.replica_parents@[i]@[j]).1.proof.path@.len()
            == depth)
}

/// A circuit assembled from a well-shaped vanilla proof has exactly the
/// shape of the blank circuit built under the same parameters.
pub proof fn lemma_circuit_shape_from_proof(
    c: DrgPoRepCircuit,
    p: VanillaProof,
    cc: int,
    degree: int,
    depth: int,
)
    requires
        circuit_matches_proof(c, p),
        proof_well_shaped(p, cc, degree, depth),
    ensures
        circuit_shape(c, cc, degree, depth),
{
    assert forall|i: int| 0 <= i < cc implies (#[trigger] c.replica_nodes_paths@[i])@.len()
        == depth by {
        assert(c.replica_nodes_paths@[i]@ == path_options(p.replica_nodes@[i].proof.path@));
    }
    assert forall|i: int| 0 <= i < cc implies (#[trigger] c.data_nodes_paths@[i])@.len()
        == depth by {
        assert(c.data_nodes_paths@[i]@ == path_options(p.nodes@[i].proof.path@));
    }
    assert forall|i: int| 0 <= i < cc implies (#[trigger] c.replica_parents@[i])@.len()
        == degree by {
        assert(c.replica_parents@[i]@ == p.replica_parents@[i]@.map_values(
            |pp: (u64, DataProof)| Some(pp.1.data),
        ));
    }
    assert forall|i: int, j: int| 0 <= i < cc && 0 <= j < degree implies (
    #[trigger] c.replica_parents_paths@[i]@[j])@.len() == depth by {
        assert(c.replica_parents_paths@[i]@[j]@ == path_options(
            p.replica_parents@[i]@[j].1.proof.path@,
        ));
    }
}

pub open spec fn sum_path_lens(ps: Seq<Vec<(Option<Domain>, Option<bool>)>>) -> int
    decreases ps.len(),
{
    if ps.len() == 0 {
        0
    } else {
        ps[0]@.len() + sum_path_lens(ps.drop_first())
    }
}

pub open spec fn sum_parent_lens(ps: Seq<Vec<Option<Domain>>>) -> int
    decreases ps.len(),
{
    if ps.len() == 0 {
        0
    } else {
        ps[0]@.len() + sum_parent_lens(ps.drop_first())
    }
}

pub open spec fn sum_parent_path_lens(ps: Seq<Vec<Vec<(Option<Domain>, Option<bool>)>>>) -> int
    decreases ps.len(),
{
    if ps.len() == 0 {
        0
    } else {
        sum_path_lens(ps[0]@) + sum_parent_path_lens(ps.drop_first())
    }
}

/// Total number of witness slots of a circuit: every node value and path
/// entry, parents included, plus the two roots and the replica id.
pub open spec fn witness_count(c: DrgPoRepCircuit) -> int {
    3 + c.replica_nodes@.len() + sum_path_lens(c.replica_nodes_paths@) + sum_parent_lens(
        c.replica_parents@,
    ) + sum_parent_path_lens(c.replica_parents_paths@) + c.data_nodes@.len() + sum_path_lens(
        c.data_nodes_paths@,
    )
}

proof fn lemma_sum_path_lens_uniform(ps: Seq<Vec<(Option<Domain>, Option<bool>)>>, depth: int)
    requires
        forall|i: int| 0 <= i < ps.len() ==> (#[trigger] ps[i])@.len() == depth,
    ensures
        sum_path_lens(ps) == ps.len() * depth,
    decreases ps.len(),
{
    if ps.len() > 0 {
        lemma_sum_path_lens_uniform(ps.drop_first(), depth);
        let n = ps.len() as int;
        assert(n * depth == depth + (n - 1) * depth) by (nonlinear_arith);
    }
}

proof fn lemma_sum_parent_lens_uniform(ps: Seq<Vec<Option<Domain>>>, degree: int)
    requires
        forall|i: int| 0 <= i < ps.len() ==> (#[trigger] ps[i])@.len() == degree,
    ensures
        sum_parent_lens(ps) == ps.len() * degree,
    decreases ps.len(),
{
    if ps.len() > 0 {
        lemma_sum_parent_lens_uniform(ps.drop_first(), degree);
        let n = ps.len() as int;
        assert(n * degree == degree + (n - 1) * degree) by (nonlinear_arith);
    }
}

proof fn lemma_sum_parent_path_lens_uniform(
    ps: Seq<Vec<Vec<(Option<Domain>, Option<bool>)>>>,
    degree: int,
    depth: int,
)
    requires
        forall|i: int| 0 <= i < ps.len() ==> (#[trigger] ps[i])@.len() == degree,
        forall|i: int, j: int|
            0 <= i < ps.len() && 0 <= j < degree ==> (#[trigger] ps[i]@[j])@.len() == depth,
    ensures
        sum_parent_path_lens(ps) == ps.len() * (degree * depth),
    decreases ps.len(),
{
    if ps.len() > 0 {
        assert forall|i: int| 0 <= i < ps[0]@.len() implies (#[trigger] ps[0]@[i])@.len()
            == depth by {
            assert(ps[0]@[i]@.len() == depth);
        }
        lemma_sum_path_lens_uniform(ps[0]@, depth);
        assert(ps[0]@.len() * depth == degree * depth);
        lemma_sum_parent_path_lens_uniform(ps.drop_first(), degree, depth);
        let n = ps.len() as int;
        assert(n * (degree * depth) == degree * depth + (n - 1) * (degree * depth))
            by (nonlinear_arith);
    }
}

/// The witness count of any circuit of a given shape, in closed form.
proof fn lemma_witness_count_of_shape(c: DrgPoRepCircuit, cc: int, degree: int, depth: int)
    requires
        circuit_shape(c, cc, degree, depth),
        cc >= 0,
        degree >= 0,
        depth >= 0,
    ensures
        witness_count(c) == 3 + 2 * cc + 2 * (cc * depth) + cc * degree + cc * (degree * depth),
{
    lemma_sum_path_lens_uniform(c.replica_nodes_paths@, depth);
    lemma_sum_path_lens_uniform(c.data_nodes_paths@, depth);
    lemma_sum_parent_lens_uniform(c.replica_parents@, degree);
    lemma_sum_parent_path_lens_uniform(c.replica_parents_paths@, degree, depth);
}

/// A blank circuit and a circuit assembled from a vanilla proof under
/// identical challenge count, degree and tree depth hold the same total
/// number of witness slots, so the backend can derive its keys from the
/// blank template alone.
pub proof fn lemma_blank_matches_concrete(
    blank: DrgPoRepCircuit,
    concrete: DrgPoRepCircuit,
    p: VanillaProof,
    cc: int,
    degree: int,
    depth: int,
)
    requires
        circuit_shape(blank, cc, degree, depth),
        circuit_matches_proof(concrete, p),
        proof_well_shaped(p, cc, degree, depth),
        cc >= 0,
        degree >= 0,
        depth >= 0,
    ensures
        witness_count(blank) == witness_count(concrete),
{
    lemma_circuit_shape_from_proof(concrete, p, cc, degree, depth);
    lemma_equal_witness_counts(blank, concrete, cc, degree, depth);
}

/// Two circuits of identical shape hold the same total number of witness
/// slots.
pub proof fn lemma_equal_witness_counts(
    c1: DrgPoRepCircuit,
    c2: DrgPoRepCircuit,
    cc: int,
    degree: int,
    depth: int,
)
    requires
        circuit_shape(c1, cc, degree, depth),
        circuit_shape(c2, cc, degree, depth),
        cc >= 0,
        degree >= 0,
        depth >= 0,
    ensures
        witness_count(c1) == witness_count(c2),
{
    lemma_witness_count_of_shape(c1, cc, degree, depth);
    lemma_witness_count_of_shape(c2, cc, degree, depth);
}

} // verus!
