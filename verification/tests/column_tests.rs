use storage_proofs::column::Column;
use storage_proofs::domain::Domain;
use storage_proofs::error::StructuralError;
use storage_proofs::pedersen::pedersen_params;
use storage_proofs::tree::{verify_inclusion, MerkleTree};

fn d(v: u64) -> Domain {
    Domain::from_u64(v)
}

#[test]
fn column_accessors() {
    let col = Column::new(7, vec![d(1), d(2), d(3)]);
    assert_eq!(col.index(), 7);
    assert_eq!(col.rows().as_slice(), &[d(1), d(2), d(3)]);
    let empty = Column::with_capacity(9, 4);
    assert_eq!(empty.index(), 9);
    assert!(empty.rows().is_empty());
}

#[test]
fn push_row_appends_in_order() {
    let mut col = Column::with_capacity(3, 2);
    col.push_row(d(10));
    col.push_row(d(20));
    assert_eq!(col.rows().as_slice(), &[d(10), d(20)]);
    assert_eq!(col.get_node_at_layer(1), d(10));
    assert_eq!(col.get_node_at_layer(2), d(20));
}

#[test]
fn single_row_column_hash_is_the_row_itself() {
    let row = Domain {
        limb0: 0xdeadbeef,
        limb1: 42,
        limb2: 7,
        limb3: 1,
    };
    let col = Column::new(0, vec![row]);
    assert_eq!(col.hash(), row);
}

#[test]
fn multi_row_column_hash_is_not_a_row_and_is_deterministic() {
    let col = Column::new(0, vec![d(1), d(2)]);
    let h1 = col.hash();
    let h2 = Column::new(5, vec![d(1), d(2)]).hash();
    assert_eq!(h1, h2, "hash must depend on rows alone");
    assert_ne!(h1, d(1));
    assert_ne!(h1, d(2));
}

#[test]
fn column_hash_is_sensitive_to_every_row() {
    let base = Column::new(0, vec![d(1), d(2), d(3)]);
    let h = base.hash();
    let variants = [
        Column::new(0, vec![d(9), d(2), d(3)]),
        Column::new(0, vec![d(1), d(9), d(3)]),
        Column::new(0, vec![d(1), d(2), d(9)]),
    ];
    for v in variants.iter() {
        assert_ne!(v.hash(), h, "mutating a row must change the commitment");
    }
}

#[test]
fn column_hash_is_sensitive_to_row_order() {
    let a = Column::new(0, vec![d(1), d(2)]).hash();
    let b = Column::new(0, vec![d(2), d(1)]).hash();
    assert_ne!(a, b);
}

#[test]
fn into_proof_binds_column_to_tree() {
    let columns: Vec<Column> = (0..4u32)
        .map(|i| Column::new(i, vec![d(i as u64 + 100)]))
        .collect();
    let leaves: Vec<Domain> = columns.iter().map(|c| c.hash()).collect();
    let params = pedersen_params();
    let tree_c = MerkleTree::build(&params, leaves.clone()).unwrap();
    let root = tree_c.root();
    for (i, col) in columns.into_iter().enumerate() {
        let proof = col.into_proof(&tree_c);
        assert_eq!(proof.column.index(), i as u32);
        assert_eq!(proof.inclusion_proof.path.len(), 2);
        assert!(verify_inclusion(&params, leaves[i], &proof.inclusion_proof, root));
        assert!(!verify_inclusion(&params, d(12345), &proof.inclusion_proof, root));
    }
}

#[test]
fn tree_of_one_leaf_has_empty_path() {
    let params = pedersen_params();
    let tree = MerkleTree::build(&params, vec![d(5)]).unwrap();
    assert_eq!(tree.leaf_len(), 1);
    assert_eq!(tree.root(), d(5));
    let proof = tree.gen_proof(0);
    assert!(proof.path.is_empty());
    assert!(verify_inclusion(&params, d(5), &proof, tree.root()));
}

#[test]
fn tree_pads_to_power_of_two() {
    let params = pedersen_params();
    let tree = MerkleTree::build(&params, vec![d(1), d(2), d(3)]).unwrap();
    assert_eq!(tree.leaf_len(), 4);
    let proof = tree.gen_proof(2);
    assert_eq!(proof.path.len(), 2);
    assert!(verify_inclusion(&params, d(3), &proof, tree.root()));
}

#[test]
fn tree_rejects_empty_leaves() {
    assert_eq!(
        MerkleTree::build(&pedersen_params(), Vec::new()).unwrap_err(),
        StructuralError::EmptyTree
    );
}
