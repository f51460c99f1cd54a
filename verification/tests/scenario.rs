//! End to end: seed one base node, expand it, contribute to it, and read
//! everything back.

use fractal_store::config::StorageConfig;
use fractal_store::models::{Contribution, FlowState, FractalNode};
use fractal_store::storage::{FractalStorage, StoreError};

#[test]
fn one_base_node_end_to_end() {
    let mut s = FractalStorage::empty(StorageConfig::default());

    let alpha = FractalNode::new(
        "root:Alpha".to_string(),
        "Alpha".to_string(),
        FlowState::Liquid,
        vec![],
        1000,
        1,
        None,
    );
    s.store_node(&alpha);
    s.expand_node_fractally("root:Alpha").unwrap();

    let stats = s.get_storage_stats();
    assert_eq!(stats.total_nodes, 1);
    assert_eq!(stats.total_subnodes, 0);
    let stored = s.get_node("root:Alpha").unwrap();
    assert_eq!(stored.get_context_count(), 9);

    let e = s.get_fractal_expansion("root:Alpha").unwrap();
    assert_eq!(e.total_contexts, 9);
    assert_eq!(e.scientific.len(), 3);
    assert_eq!(e.symbolic.len(), 3);
    assert_eq!(e.water.len(), 3);

    let c = Contribution::new(
        "root:Alpha".to_string(),
        "u1".to_string(),
        "hello".to_string(),
        700,
        None,
    );
    let receipt = s.store_contribution(c);
    assert_eq!(
        receipt.content_hash,
        "2cf24dba5fb0a30e26e83b2ac5b9e29e1b161e5c1fa7425e73043362938b9824"
    );
    let back = s.get_contribution(&receipt.content_hash).unwrap();
    assert_eq!(back.node_id, "root:Alpha");
    assert_eq!(back.user_id, "u1");
    assert_eq!(back.content, "hello");
    assert_eq!(back.resonance, 700);

    assert!(matches!(s.get_nodes_by_context_family("unknown"), Err(StoreError::BadRequest)));

    let child = FractalNode::new(
        "root:Alpha:child".to_string(),
        "Child".to_string(),
        FlowState::Gas,
        vec![],
        800,
        2,
        Some("root:Alpha".to_string()),
    );
    s.store_node(&child);
    assert!(matches!(
        s.get_fractal_expansion("root:Alpha:child"),
        Err(StoreError::InvalidExpansionTarget)
    ));
}
