//! End-to-end run over a small graph: build the graph and both trees,
//! open the challenged nodes into a vanilla proof, derive the positional
//! public inputs, and check the assembled circuit against the blank
//! template of the same parameters.

use storage_proofs::compound::{
    ComponentPrivateInputs, DataProof, DrgPoRepCircuit, DrgPoRepCompound, PublicInputs,
    PublicParams, Root, Tau, VanillaProof,
};
use storage_proofs::domain::Domain;
use storage_proofs::layered::LayeredGraph;
use storage_proofs::pedersen::pedersen_params;
use storage_proofs::tree::{verify_inclusion, MerkleTree};

fn d(v: u64) -> Domain {
    Domain::from_u64(v)
}

fn bytes_of(leaves: &[Domain]) -> Vec<u8> {
    let mut out = Vec::new();
    for leaf in leaves {
        for limb in [leaf.limb0, leaf.limb1, leaf.limb2, leaf.limb3] {
            out.extend_from_slice(&limb.to_le_bytes());
        }
    }
    out
}

fn witness_slots(c: &DrgPoRepCircuit) -> usize {
    let mut count = 3; // the two roots and the replica id
    count += c.replica_nodes.len() + c.data_nodes.len();
    count += c.replica_nodes_paths.iter().map(|p| p.len()).sum::<usize>();
    count += c.data_nodes_paths.iter().map(|p| p.len()).sum::<usize>();
    count += c.replica_parents.iter().map(|p| p.len()).sum::<usize>();
    count += c
        .replica_parents_paths
        .iter()
        .map(|ps| ps.iter().map(|p| p.len()).sum::<usize>())
        .sum::<usize>();
    count
}

#[test]
fn end_to_end_eight_nodes_two_challenges() {
    let seed = [3u8; 32];
    let node_count = 8u64;
    let base_degree = 4u32;
    let challenges: Vec<u64> = vec![1, 3];

    let graph = LayeredGraph::new_zigzag(node_count, base_degree, 0, seed).unwrap();
    let params = pedersen_params();

    // Fabricated encoded leaves standing in for the external replication
    // step: the data layer and the replica layer.
    let data_leaves: Vec<Domain> = (0..node_count).map(|i| d(1000 + i)).collect();
    let replica_leaves: Vec<Domain> = (0..node_count).map(|i| d(2000 + i)).collect();

    let data_tree = graph.merkle_tree(&params, &bytes_of(&data_leaves)).unwrap();
    let replica_tree = graph.merkle_tree(&params, &bytes_of(&replica_leaves)).unwrap();
    assert_eq!(data_tree.leaf_len(), 8);

    let tau = Tau {
        comm_r: replica_tree.root(),
        comm_d: data_tree.root(),
    };
    let replica_id = d(77);

    // Open the challenged nodes and their parents into a vanilla proof.
    let mut replica_nodes = Vec::new();
    let mut replica_parents = Vec::new();
    let mut nodes = Vec::new();
    let mut parent_sets = Vec::new();
    for &c in challenges.iter() {
        let parents = graph.parents_at_layer(c, 0).unwrap();
        assert_eq!(parents.len(), 4);
        replica_nodes.push(DataProof {
            data: replica_leaves[c as usize],
            proof: replica_tree.gen_proof(c as usize),
        });
        replica_parents.push(
            parents
                .iter()
                .map(|&p| {
                    (
                        p,
                        DataProof {
                            data: replica_leaves[p as usize],
                            proof: replica_tree.gen_proof(p as usize),
                        },
                    )
                })
                .collect::<Vec<_>>(),
        );
        nodes.push(DataProof {
            data: data_leaves[c as usize],
            proof: data_tree.gen_proof(c as usize),
        });
        parent_sets.push(parents);
    }
    let proof = VanillaProof {
        replica_nodes,
        replica_parents,
        nodes,
        replica_root: replica_tree.root(),
        data_root: data_tree.root(),
    };

    // Every opening checks out against its root.
    for (i, &c) in challenges.iter().enumerate() {
        assert!(verify_inclusion(
            &params,
            replica_leaves[c as usize],
            &proof.replica_nodes[i].proof,
            replica_tree.root()
        ));
        assert!(verify_inclusion(
            &params,
            data_leaves[c as usize],
            &proof.nodes[i].proof,
            data_tree.root()
        ));
    }

    let pub_inputs = PublicInputs {
        replica_id: Some(replica_id),
        challenges: challenges.clone(),
        tau: Some(tau),
    };
    let pub_params = PublicParams {
        graph,
        challenges_count: 2,
        private: false,
    };

    let inputs = DrgPoRepCompound::generate_public_inputs(&pub_inputs, &pub_params).unwrap();

    // Independently computed expected vector.
    let mut expected = vec![replica_id];
    for (i, &c) in challenges.iter().enumerate() {
        expected.push(d(c));
        expected.push(tau.comm_r);
        for &p in parent_sets[i].iter() {
            expected.push(d(p));
            expected.push(tau.comm_r);
        }
        expected.push(d(c));
        expected.push(tau.comm_d);
    }
    assert_eq!(inputs, expected);
    assert_eq!(inputs.len(), 1 + 2 * ((4 + 1) + 1) * 2);

    let circuit = DrgPoRepCompound::circuit(
        &pub_inputs,
        ComponentPrivateInputs {
            comm_d: None,
            comm_r: None,
        },
        &proof,
        &pub_params,
    )
    .unwrap();
    let blank = DrgPoRepCompound::blank_circuit(&pub_params);

    // The concrete circuit carries the opened values...
    assert_eq!(circuit.replica_nodes[0], Some(replica_leaves[1]));
    assert_eq!(circuit.data_nodes[1], Some(data_leaves[3]));
    assert_eq!(circuit.data_root, Root { value: Some(tau.comm_d) });
    assert_eq!(circuit.replica_root, Root { value: Some(tau.comm_r) });
    assert_eq!(circuit.replica_id, Some(replica_id));

    // ...and the blank template has exactly the same shape.
    assert_eq!(witness_slots(&circuit), witness_slots(&blank));
    assert_eq!(circuit.replica_nodes.len(), blank.replica_nodes.len());
    for i in 0..2 {
        assert_eq!(
            circuit.replica_nodes_paths[i].len(),
            blank.replica_nodes_paths[i].len()
        );
        assert_eq!(circuit.replica_parents[i].len(), blank.replica_parents[i].len());
        for j in 0..4 {
            assert_eq!(
                circuit.replica_parents_paths[i][j].len(),
                blank.replica_parents_paths[i][j].len()
            );
        }
    }
}
