use artifact_groups::artifact::Artifact;
use artifact_groups::transitive_set::ProjectionKind;
use artifact_groups::transitive_set::TransitiveSetError;
use artifact_groups::transitive_set::TransitiveSetKey;
use artifact_groups::transitive_set::TransitiveSetNode;
use artifact_groups::transitive_set::TransitiveSetProjectionKey;
use artifact_groups::transitive_set::TransitiveSetStore;

fn leaf(ids: &[u64]) -> TransitiveSetNode {
    TransitiveSetNode {
        artifacts: ids.iter().map(|i| Artifact::new(*i)).collect(),
        children: Vec::new(),
        projections: vec![ProjectionKind::Flatten],
    }
}

#[test]
fn insert_assigns_consecutive_keys() {
    let mut store = TransitiveSetStore::new();
    let a = store.insert(leaf(&[1])).unwrap();
    let b = store.insert(leaf(&[2])).unwrap();
    assert_eq!(a.index, 0);
    assert_eq!(b.index, 1);
    assert_eq!(store.node_count(), 2);
}

#[test]
fn insert_rejects_unknown_child() {
    let mut store = TransitiveSetStore::new();
    let missing = TransitiveSetKey { index: 3 };
    let node = TransitiveSetNode {
        artifacts: vec![Artifact::new(1)],
        children: vec![missing],
        projections: vec![ProjectionKind::Flatten],
    };
    let r = store.insert(node);
    assert_eq!(r, Err(TransitiveSetError::UnknownChild { child: missing }));
    assert_eq!(store.node_count(), 0);
}

#[test]
fn insert_rejects_self_reference() {
    // The key a node would get is the arena length at insertion time, so a
    // node naming its own key is asking for a child that does not exist yet.
    let mut store = TransitiveSetStore::new();
    store.insert(leaf(&[1])).unwrap();
    let own_key = TransitiveSetKey { index: 1 };
    let node = TransitiveSetNode {
        artifacts: vec![Artifact::new(2)],
        children: vec![own_key],
        projections: vec![ProjectionKind::Flatten],
    };
    let r = store.insert(node);
    assert_eq!(r, Err(TransitiveSetError::UnknownChild { child: own_key }));
}

#[test]
fn flatten_parent_first_then_children_in_order() {
    // Node A owns a1; node B owns b1 and references A: flattening B yields
    // [b1, a1].
    let mut store = TransitiveSetStore::new();
    let a = store.insert(leaf(&[11])).unwrap();
    let b = store
        .insert(TransitiveSetNode {
            artifacts: vec![Artifact::new(22)],
            children: vec![a],
            projections: vec![ProjectionKind::Flatten],
        })
        .unwrap();
    let flat = store.flatten(b);
    assert_eq!(flat, vec![Artifact::new(22), Artifact::new(11)]);
}

#[test]
fn flatten_collapses_duplicates_across_paths() {
    // A diamond: d is owned by the shared leaf and reachable through both
    // children, yet appears once, at its first occurrence.
    let mut store = TransitiveSetStore::new();
    let shared = store.insert(leaf(&[7])).unwrap();
    let left = store
        .insert(TransitiveSetNode {
            artifacts: vec![Artifact::new(1)],
            children: vec![shared],
            projections: vec![ProjectionKind::Flatten],
        })
        .unwrap();
    let right = store
        .insert(TransitiveSetNode {
            artifacts: vec![Artifact::new(2)],
            children: vec![shared],
            projections: vec![ProjectionKind::Flatten],
        })
        .unwrap();
    let top = store
        .insert(TransitiveSetNode {
            artifacts: vec![Artifact::new(9), Artifact::new(7)],
            children: vec![left, right],
            projections: vec![ProjectionKind::Flatten],
        })
        .unwrap();
    let flat = store.flatten(top);
    assert_eq!(
        flat,
        vec![
            Artifact::new(9),
            Artifact::new(7),
            Artifact::new(1),
            Artifact::new(2)
        ]
    );
}

#[test]
fn projection_is_memoized_and_deterministic() {
    let mut store = TransitiveSetStore::new();
    let a = store.insert(leaf(&[11])).unwrap();
    let b = store
        .insert(TransitiveSetNode {
            artifacts: vec![Artifact::new(22)],
            children: vec![a],
            projections: vec![ProjectionKind::Flatten],
        })
        .unwrap();
    let key = TransitiveSetProjectionKey { key: b, projection: 0 };
    assert!(!store.is_cached(key));
    assert_eq!(store.computations(), 0);

    let first = store.ensure_projection(key);
    assert_eq!(first, vec![Artifact::new(22), Artifact::new(11)]);
    assert!(store.is_cached(key));
    assert_eq!(store.computations(), 1);

    let second = store.ensure_projection(key);
    assert_eq!(second, first);
    // The repeated demand hit the memo table: nothing was recomputed.
    assert_eq!(store.computations(), 1);
}

#[test]
fn distinct_projection_keys_are_cached_separately() {
    let mut store = TransitiveSetStore::new();
    let a = store
        .insert(TransitiveSetNode {
            artifacts: vec![Artifact::new(1), Artifact::new(2)],
            children: Vec::new(),
            projections: vec![ProjectionKind::Flatten, ProjectionKind::FlattenReversed],
        })
        .unwrap();
    assert_eq!(store.projection_count(a), 2);
    let forward = store.ensure_projection(TransitiveSetProjectionKey { key: a, projection: 0 });
    let backward = store.ensure_projection(TransitiveSetProjectionKey { key: a, projection: 1 });
    assert_eq!(forward, vec![Artifact::new(1), Artifact::new(2)]);
    assert_eq!(backward, vec![Artifact::new(2), Artifact::new(1)]);
    assert_eq!(store.computations(), 2);
}
