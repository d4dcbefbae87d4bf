use storage_proofs::compound::{
    generate_por_public_inputs, ComponentPrivateInputs, DrgPoRepCompound, PorPublicInputs,
    PorPublicParams, PublicInputs, PublicParams, Root, Tau, VanillaProof,
};
use storage_proofs::domain::Domain;
use storage_proofs::error::{CompoundError, GraphError};
use storage_proofs::graph::{BucketGraph, Graph};
use storage_proofs::tree::MerkleProof;

fn seed() -> [u8; 32] {
    [5u8; 32]
}

fn d(v: u64) -> Domain {
    Domain::from_u64(v)
}

fn graph() -> BucketGraph {
    BucketGraph::new(8, 2, seed()).unwrap()
}

fn tau() -> Tau {
    Tau {
        comm_r: d(1000),
        comm_d: d(2000),
    }
}

fn public_inputs(challenges: Vec<u64>) -> PublicInputs {
    PublicInputs {
        replica_id: Some(d(77)),
        challenges,
        tau: Some(tau()),
    }
}

fn public_params(private: bool) -> PublicParams<BucketGraph> {
    PublicParams {
        graph: graph(),
        challenges_count: 2,
        private,
    }
}

#[test]
fn por_block_layout() {
    let params = PorPublicParams {
        leaves: 8,
        private: false,
    };
    let block = generate_por_public_inputs(
        &PorPublicInputs {
            commitment: Some(d(9)),
            challenge: 3,
        },
        &params,
    )
    .unwrap();
    assert_eq!(block, vec![d(3), d(9)]);

    let private_params = PorPublicParams {
        leaves: 8,
        private: true,
    };
    let block = generate_por_public_inputs(
        &PorPublicInputs {
            commitment: None,
            challenge: 3,
        },
        &private_params,
    )
    .unwrap();
    assert_eq!(block, vec![d(3)]);

    assert_eq!(
        generate_por_public_inputs(
            &PorPublicInputs {
                commitment: None,
                challenge: 3,
            },
            &params,
        )
        .unwrap_err(),
        CompoundError::PrivacyMismatch
    );
    assert_eq!(
        generate_por_public_inputs(
            &PorPublicInputs {
                commitment: Some(d(9)),
                challenge: 8,
            },
            &params,
        )
        .unwrap_err(),
        CompoundError::Graph(GraphError::OutOfRange)
    );
}

#[test]
fn public_inputs_length_formula() {
    let inputs =
        DrgPoRepCompound::generate_public_inputs(&public_inputs(vec![1, 3]), &public_params(false))
            .unwrap();
    // 1 + challenges * ((degree + 1) + 1) * block_size, with degree 2 and
    // block size 2 in non-private mode.
    assert_eq!(inputs.len(), 1 + 2 * ((2 + 1) + 1) * 2);
    assert_eq!(inputs[0], d(77));
}

#[test]
fn public_inputs_exact_layout() {
    let g = graph();
    let parents1 = g.parents(1).unwrap();
    let parents3 = g.parents(3).unwrap();
    let inputs =
        DrgPoRepCompound::generate_public_inputs(&public_inputs(vec![1, 3]), &public_params(false))
            .unwrap();
    let mut expected = vec![d(77)];
    for (c, parents) in [(1u64, &parents1), (3u64, &parents3)] {
        expected.push(d(c));
        expected.push(tau().comm_r);
        for &p in parents.iter() {
            expected.push(d(p));
            expected.push(tau().comm_r);
        }
        expected.push(d(c));
        expected.push(tau().comm_d);
    }
    assert_eq!(inputs, expected);
}

#[test]
fn public_inputs_are_position_sensitive() {
    let a =
        DrgPoRepCompound::generate_public_inputs(&public_inputs(vec![1, 3]), &public_params(false))
            .unwrap();
    let b =
        DrgPoRepCompound::generate_public_inputs(&public_inputs(vec![3, 1]), &public_params(false))
            .unwrap();
    assert_ne!(a, b);
}

#[test]
fn empty_challenges_give_replica_id_alone() {
    let inputs =
        DrgPoRepCompound::generate_public_inputs(&public_inputs(Vec::new()), &public_params(false))
            .unwrap();
    assert_eq!(inputs, vec![d(77)]);
}

#[test]
fn privacy_invariant_is_enforced() {
    // tau present while the scheme is private: must fail.
    assert_eq!(
        DrgPoRepCompound::generate_public_inputs(&public_inputs(vec![1]), &public_params(true))
            .unwrap_err(),
        CompoundError::PrivacyMismatch
    );
    // tau absent while the scheme is not private: must fail.
    let no_tau = PublicInputs {
        replica_id: Some(d(77)),
        challenges: vec![1],
        tau: None,
    };
    assert_eq!(
        DrgPoRepCompound::generate_public_inputs(&no_tau, &public_params(false)).unwrap_err(),
        CompoundError::PrivacyMismatch
    );
    // tau absent and private: accepted, with one scalar per node reference.
    let inputs =
        DrgPoRepCompound::generate_public_inputs(&no_tau, &public_params(true)).unwrap();
    assert_eq!(inputs.len(), 1 + 1 * ((2 + 1) + 1) * 1);
}

#[test]
fn missing_replica_id_is_reported() {
    let pub_in = PublicInputs {
        replica_id: None,
        challenges: vec![1],
        tau: Some(tau()),
    };
    assert_eq!(
        DrgPoRepCompound::generate_public_inputs(&pub_in, &public_params(false)).unwrap_err(),
        CompoundError::MissingReplicaId
    );
}

#[test]
fn out_of_range_challenge_is_reported() {
    assert_eq!(
        DrgPoRepCompound::generate_public_inputs(&public_inputs(vec![8]), &public_params(false))
            .unwrap_err(),
        CompoundError::Graph(GraphError::OutOfRange)
    );
}

fn empty_proof() -> VanillaProof {
    VanillaProof {
        replica_nodes: Vec::new(),
        replica_parents: Vec::new(),
        nodes: Vec::new(),
        replica_root: d(1000),
        data_root: d(2000),
    }
}

fn tiny_opening(v: u64) -> storage_proofs::compound::DataProof {
    storage_proofs::compound::DataProof {
        data: d(v),
        proof: MerkleProof { path: Vec::new() },
    }
}

#[test]
fn circuit_validates_bundle_lengths() {
    let pub_in = public_inputs(vec![]);
    let none_private = ComponentPrivateInputs {
        comm_d: None,
        comm_r: None,
    };
    let mut proof = empty_proof();
    proof.nodes = vec![tiny_opening(1), tiny_opening(2), tiny_opening(3)];
    assert_eq!(
        DrgPoRepCompound::circuit(&pub_in, none_private, &proof, &public_params(false))
            .unwrap_err(),
        CompoundError::TooManyChallenges
    );
    let mut proof = empty_proof();
    proof.nodes = vec![tiny_opening(1)];
    proof.replica_parents = vec![Vec::new()];
    proof.replica_nodes = vec![];
    assert_eq!(
        DrgPoRepCompound::circuit(&pub_in, none_private, &proof, &public_params(false))
            .unwrap_err(),
        CompoundError::NodeCountMismatch
    );
    let mut proof = empty_proof();
    proof.nodes = vec![];
    proof.replica_parents = vec![Vec::new()];
    assert_eq!(
        DrgPoRepCompound::circuit(&pub_in, none_private, &proof, &public_params(false))
            .unwrap_err(),
        CompoundError::ParentCountMismatch
    );
    let mut proof = empty_proof();
    proof.replica_nodes = vec![];
    proof.nodes = vec![];
    proof.replica_parents = vec![];
    let c = DrgPoRepCompound::circuit(&pub_in, none_private, &proof, &public_params(false));
    assert!(c.is_ok());
}

#[test]
fn circuit_private_mode_needs_roots() {
    let no_tau = PublicInputs {
        replica_id: Some(d(77)),
        challenges: vec![],
        tau: None,
    };
    let proof = empty_proof();
    let none_private = ComponentPrivateInputs {
        comm_d: None,
        comm_r: None,
    };
    assert_eq!(
        DrgPoRepCompound::circuit(&no_tau, none_private, &proof, &public_params(true))
            .unwrap_err(),
        CompoundError::MissingPrivateRoot
    );
    let both = ComponentPrivateInputs {
        comm_d: Some(Root { value: Some(d(2)) }),
        comm_r: Some(Root { value: Some(d(1)) }),
    };
    let c = DrgPoRepCompound::circuit(&no_tau, both, &proof, &public_params(true)).unwrap();
    assert_eq!(c.data_root, Root { value: Some(d(2)) });
    assert_eq!(c.replica_root, Root { value: Some(d(1)) });
    assert!(c.private);
}

#[test]
fn circuit_rechecks_privacy_flag() {
    let pub_in = public_inputs(vec![]);
    let both = ComponentPrivateInputs {
        comm_d: Some(Root { value: None }),
        comm_r: Some(Root { value: None }),
    };
    // tau is present but the parameters claim private: the second check
    // must also reject it.
    assert_eq!(
        DrgPoRepCompound::circuit(&pub_in, both, &empty_proof(), &public_params(true))
            .unwrap_err(),
        CompoundError::PrivacyMismatch
    );
}

#[test]
fn blank_circuit_shape() {
    let params = public_params(false);
    let blank = DrgPoRepCompound::blank_circuit(&params);
    assert_eq!(blank.replica_nodes.len(), 2);
    assert_eq!(blank.data_nodes.len(), 2);
    assert_eq!(blank.replica_parents.len(), 2);
    assert!(blank.replica_nodes.iter().all(|v| v.is_none()));
    assert!(blank.replica_id.is_none());
    assert_eq!(blank.replica_root, Root { value: None });
    assert_eq!(blank.data_root, Root { value: None });
    for i in 0..2 {
        // 8 nodes pad to a tree of depth 3.
        assert_eq!(blank.replica_nodes_paths[i].len(), 3);
        assert_eq!(blank.data_nodes_paths[i].len(), 3);
        assert_eq!(blank.replica_parents[i].len(), 2);
        assert_eq!(blank.replica_parents_paths[i].len(), 2);
        for j in 0..2 {
            assert_eq!(blank.replica_parents_paths[i][j].len(), 3);
            assert_eq!(blank.replica_parents_paths[i][j][0], (None, None));
        }
    }
}

#[test]
fn cache_prefix_names_the_scheme() {
    assert_eq!(
        DrgPoRepCompound::cache_prefix(),
        "drg-proof-of-replication-pedersen"
    );
}
