use storage_proofs::error::GraphError;
use storage_proofs::graph::{BucketGraph, Graph};
use storage_proofs::layered::LayeredGraph;

fn seed() -> [u8; 32] {
    let mut s = [0u8; 32];
    let mut i: usize = 0;
    while i < 32 {
        s[i] = (i as u8).wrapping_mul(37).wrapping_add(11);
        i += 1;
    }
    s
}

#[test]
fn base_parents_are_distinct_and_below_node() {
    let g = BucketGraph::new(16, 4, seed()).unwrap();
    for node in 4..16u64 {
        let parents = g.parents(node).unwrap();
        assert_eq!(parents.len(), 4);
        for (i, &p) in parents.iter().enumerate() {
            assert!(p < node, "parent {} of node {} not below it", p, node);
            for &q in parents.iter().skip(i + 1) {
                assert_ne!(p, q, "duplicate parent for node {}", node);
            }
        }
    }
}

#[test]
fn bootstrap_parents_cover_degree_range() {
    let g = BucketGraph::new(16, 4, seed()).unwrap();
    for node in 0..4u64 {
        let parents = g.parents(node).unwrap();
        assert_eq!(parents.len(), 4);
        let mut sorted = parents.clone();
        sorted.sort();
        assert_eq!(sorted, vec![0, 1, 2, 3]);
    }
}

#[test]
fn parents_are_deterministic() {
    let g1 = BucketGraph::new(64, 6, seed()).unwrap();
    let g2 = BucketGraph::new(64, 6, seed()).unwrap();
    for node in 0..64u64 {
        let a = g1.parents(node).unwrap();
        let b = g2.parents(node).unwrap();
        let c = g1.parents(node).unwrap();
        assert_eq!(a, b);
        assert_eq!(a, c);
    }
}

#[test]
fn different_seeds_change_parents_somewhere() {
    let g1 = BucketGraph::new(64, 6, seed()).unwrap();
    let mut other = seed();
    other[0] ^= 0xff;
    let g2 = BucketGraph::new(64, 6, other).unwrap();
    let mut differs = false;
    for node in 6..64u64 {
        if g1.parents(node).unwrap() != g2.parents(node).unwrap() {
            differs = true;
        }
    }
    assert!(differs);
}

#[test]
fn graph_accessors_and_errors() {
    let g = BucketGraph::new(16, 4, seed()).unwrap();
    assert_eq!(g.size(), 16);
    assert_eq!(g.degree(), 4);
    assert_eq!(g.seed(), seed());
    assert_eq!(g.parents(16).unwrap_err(), GraphError::OutOfRange);
    assert_eq!(g.parents(u64::MAX).unwrap_err(), GraphError::OutOfRange);
    assert_eq!(
        BucketGraph::new(0, 0, seed()).unwrap_err(),
        GraphError::MalformedParameters
    );
    assert_eq!(
        BucketGraph::new(4, 4, seed()).unwrap_err(),
        GraphError::DegreeTooLarge
    );
}

#[test]
fn graph_errors_have_messages() {
    assert_eq!(GraphError::OutOfRange.message(), "node index out of range");
    assert_eq!(GraphError::DegreeTooLarge.message(), "degree too large");
    assert_eq!(
        GraphError::MalformedParameters.message(),
        "malformed graph parameters"
    );
}

#[test]
fn layered_parents_have_combined_degree() {
    let g = LayeredGraph::new_zigzag(32, 3, 5, seed()).unwrap();
    for layer in 0..4u32 {
        for node in 0..32u64 {
            let parents = g.parents_at_layer(node, layer).unwrap();
            assert_eq!(parents.len(), 8);
            for &p in parents.iter() {
                assert!(p < 32);
            }
        }
    }
    assert_eq!(
        g.parents_at_layer(32, 0).unwrap_err(),
        GraphError::OutOfRange
    );
}

#[test]
fn layered_graph_rejects_oversized_degree() {
    assert_eq!(
        LayeredGraph::new_zigzag(8, 4, 4, seed()).unwrap_err(),
        GraphError::DegreeTooLarge
    );
    assert_eq!(
        LayeredGraph::new_zigzag(0, 1, 1, seed()).unwrap_err(),
        GraphError::MalformedParameters
    );
}

#[test]
fn layer_ordering_alternates_and_inverts() {
    let g = LayeredGraph::new_zigzag(8, 2, 1, seed()).unwrap();
    for pos in 0..8u64 {
        assert_eq!(g.layer_ordering(0, pos).unwrap(), pos);
        assert_eq!(g.layer_ordering(1, pos).unwrap(), 7 - pos);
        let once = g.layer_ordering(3, pos).unwrap();
        assert_eq!(g.layer_ordering(3, once).unwrap(), pos);
    }
    assert_eq!(
        g.layer_ordering(0, 8).unwrap_err(),
        GraphError::OutOfRange
    );
}

#[test]
fn odd_layer_parents_are_reversed_reading() {
    let g = LayeredGraph::new_zigzag(32, 3, 2, seed()).unwrap();
    let node = 10u64;
    let mirrored = 31 - node;
    let odd = g.parents_at_layer(node, 1).unwrap();
    let even_of_mirror = g.parents_at_layer(mirrored, 0).unwrap();
    let mapped: Vec<u64> = even_of_mirror.iter().map(|&p| 31 - p).collect();
    assert_eq!(odd, mapped);
}
