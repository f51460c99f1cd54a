use fractal_store::config::{ServerConfig, StorageConfig};
use fractal_store::contexts::{BaseContext, ContextType, ScientificContext, WaterContext};
use fractal_store::models::{FlowState, FractalNode};
use fractal_store::storage::{
    FractalStorage, StoreError, filter_nodes_by_resonance, group_nodes_by_context,
    sort_nodes_by_resonance,
};

fn plain_node(id: &str, resonance: u32, level: u32) -> FractalNode {
    FractalNode::new(
        id.to_string(),
        id.to_string(),
        FlowState::Liquid,
        vec![],
        resonance,
        level,
        None,
    )
}

#[test]
fn seeded_store_has_twelve_expanded_base_nodes() {
    let s = FractalStorage::new("./fractal-test-storage");
    let stats = s.get_storage_stats();
    assert_eq!(stats.total_nodes, 12);
    assert_eq!(stats.total_subnodes, 0);
    assert_eq!(stats.total_contributions, 0);
    assert_eq!(stats.version, "3.0.0");
    let all = s.get_all_nodes();
    assert_eq!(all.len(), 12);
    for n in &all {
        assert_eq!(n.fractal_level, 1);
        assert_eq!(n.get_context_count(), 9);
    }
}

#[test]
fn get_node_finds_seeds_by_identifier() {
    let s = FractalStorage::new("./fractal-test-storage");
    let void = s.get_node("codex:Void").unwrap();
    assert_eq!(void.name, "Void");
    assert_eq!(void.resonance, 1000);
    assert_eq!(void.water_state, FlowState::Plasma);
    assert_eq!(void.archetype, vec!["Potential", "Infinite", "Source"]);
    let wisdom = s.get_node("codex:Wisdom").unwrap();
    assert_eq!(wisdom.resonance, 920);
    assert!(s.get_node("codex:Nothing").is_none());
}

#[test]
fn expansion_view_groups_nine_contexts_by_family() {
    let s = FractalStorage::new("./fractal-test-storage");
    let e = s.get_fractal_expansion("codex:Flow").unwrap();
    assert_eq!(e.base_node.id, "codex:Flow");
    assert_eq!(e.total_contexts, 9);
    assert_eq!(e.scientific.len(), 3);
    assert_eq!(e.symbolic.len(), 3);
    assert_eq!(e.water.len(), 3);
    assert!(e.scientific[0] == ContextType::Scientific(ScientificContext::Empirical));
}

#[test]
fn expansion_rejects_missing_and_non_base_nodes() {
    let mut s = FractalStorage::new("./fractal-test-storage");
    assert!(matches!(s.get_fractal_expansion("codex:Missing"), Err(StoreError::NotFound)));
    let child = plain_node("codex:Void:child", 500, 2);
    s.store_node(&child);
    assert!(matches!(
        s.get_fractal_expansion("codex:Void:child"),
        Err(StoreError::InvalidExpansionTarget)
    ));
    assert!(matches!(
        s.expand_node_fractally("codex:Void:child"),
        Err(StoreError::InvalidExpansionTarget)
    ));
    assert!(matches!(s.expand_node_fractally("codex:Missing"), Err(StoreError::NotFound)));
}

#[test]
fn expanding_twice_appends_the_same_nine_contexts() {
    let mut s = FractalStorage::empty(StorageConfig::default());
    let n = plain_node("base:A", 900, 1);
    s.store_node(&n);
    s.expand_node_fractally("base:A").unwrap();
    let first = s.get_node("base:A").unwrap().contexts;
    s.expand_node_fractally("base:A").unwrap();
    let second = s.get_node("base:A").unwrap().contexts;
    assert_eq!(first.len(), 9);
    assert_eq!(second.len(), 18);
    for i in 0..9 {
        assert!(second[i] == first[i]);
        assert!(second[9 + i] == first[i]);
    }
}

#[test]
fn store_node_replaces_by_identifier_and_tracks_levels() {
    let mut s = FractalStorage::empty(StorageConfig::default());
    s.store_node(&plain_node("n1", 100, 1));
    s.store_node(&plain_node("n2", 200, 2));
    let stats = s.get_storage_stats();
    assert_eq!(stats.total_nodes, 1);
    assert_eq!(stats.total_subnodes, 1);
    s.store_node(&plain_node("n2", 300, 1));
    let stats = s.get_storage_stats();
    assert_eq!(stats.total_nodes, 2);
    assert_eq!(stats.total_subnodes, 0);
    assert_eq!(s.get_node("n2").unwrap().resonance, 300);
    assert_eq!(s.get_all_nodes().len(), 2);
}

#[test]
fn delete_node_removes_and_adjusts_counters() {
    let mut s = FractalStorage::new("./fractal-test-storage");
    s.delete_node("codex:Void");
    assert!(s.get_node("codex:Void").is_none());
    let stats = s.get_storage_stats();
    assert_eq!(stats.total_nodes, 11);
    s.delete_node("codex:Void");
    assert_eq!(s.get_storage_stats().total_nodes, 11);
}

#[test]
fn update_stats_recount_agrees_with_incremental_counters() {
    let mut s = FractalStorage::new("./fractal-test-storage");
    s.store_node(&plain_node("extra:1", 100, 2));
    s.store_node(&plain_node("extra:2", 100, 1));
    let before = s.get_storage_stats();
    s.update_stats();
    let after = s.get_storage_stats();
    assert_eq!(before.total_nodes, after.total_nodes);
    assert_eq!(before.total_subnodes, after.total_subnodes);
    assert_eq!(before.total_contributions, after.total_contributions);
    assert_eq!(after.total_nodes, 13);
    assert_eq!(after.total_subnodes, 1);
}

#[test]
fn context_index_lists_every_seed_under_each_canonical_context() {
    let s = FractalStorage::new("./fractal-test-storage");
    let nodes = s.get_context_nodes(&ContextType::Scientific(ScientificContext::Empirical));
    assert_eq!(nodes.len(), 12);
    assert_eq!(nodes[0].id, "codex:Void");
    let none = s.get_context_nodes(&ContextType::Hybrid(vec![BaseContext::Water(
        WaterContext::Phase,
    )]));
    assert!(none.is_empty());
}

#[test]
fn family_lookup_rejects_unknown_families() {
    let s = FractalStorage::new("./fractal-test-storage");
    assert!(matches!(s.get_nodes_by_context_family("unknown"), Err(StoreError::BadRequest)));
    let sci = s.get_nodes_by_context_family("scientific").unwrap();
    assert_eq!(sci.len(), 36);
    let water = s.get_nodes_by_context_family("water").unwrap();
    assert_eq!(water.len(), 36);
}

#[test]
fn grouping_replicates_hybrids_into_touched_families() {
    let mut n = plain_node("h1", 100, 1);
    n.add_context(ContextType::Scientific(ScientificContext::Empirical));
    n.add_context(ContextType::Hybrid(vec![BaseContext::Water(WaterContext::Phase)]));
    let nodes = vec![n];
    let groups = group_nodes_by_context(&nodes);
    assert_eq!(groups.scientific.len(), 1);
    assert_eq!(groups.symbolic.len(), 0);
    assert_eq!(groups.water.len(), 1);
    assert_eq!(groups.hybrid.len(), 1);
}

#[test]
fn filter_and_sort_by_resonance() {
    let nodes = vec![
        plain_node("low", 100, 1),
        plain_node("high", 900, 1),
        plain_node("mid", 500, 1),
    ];
    let kept = filter_nodes_by_resonance(&nodes, 400);
    assert_eq!(kept.len(), 2);
    assert_eq!(kept[0].id, "high");
    assert_eq!(kept[1].id, "mid");
    let mut sorted = nodes;
    sort_nodes_by_resonance(&mut sorted);
    assert_eq!(sorted[0].id, "high");
    assert_eq!(sorted[1].id, "mid");
    assert_eq!(sorted[2].id, "low");
}

#[test]
fn storage_size_counts_text_lengths() {
    let mut s = FractalStorage::empty(StorageConfig::default());
    assert_eq!(s.get_storage_size(), 0);
    let n = FractalNode::new(
        "ab".to_string(),
        "cd".to_string(),
        FlowState::Solid,
        vec!["e".to_string()],
        100,
        1,
        None,
    );
    s.store_node(&n);
    assert_eq!(s.get_storage_size(), 5);
    let c = fractal_store::models::Contribution::new(
        "ab".to_string(),
        "u".to_string(),
        "xyz".to_string(),
        500,
        None,
    );
    s.store_contribution(c);
    assert_eq!(s.get_storage_size(), 5 + 36 + 2 + 1 + 3);
}

#[test]
fn config_defaults_match_the_stock_settings() {
    let sc = StorageConfig::default();
    assert_eq!(sc.base_path, "./rust-fractal-storage");
    assert_eq!(sc.max_nodes, 1000);
    assert_eq!(sc.max_contributions, 10000);
    assert!(sc.enable_persistence);
    assert_eq!(sc.fractal_levels, vec![1, 2]);
    assert_eq!(sc.supported_contexts.len(), 9);
    assert_eq!(sc.resonance_threshold, 500);
    let vc = ServerConfig::default();
    assert_eq!(vc.host, "0.0.0.0");
    assert_eq!(vc.port, 8789);
    assert_eq!(vc.storage_path, "./rust-fractal-storage");
    assert!(vc.enable_cors);
    assert_eq!(vc.log_level, "info");
    assert_eq!(vc.fractal_levels, vec![1, 2]);
}

#[test]
fn deleted_nodes_leave_index_entries_that_resolve_to_nothing() {
    let mut s = FractalStorage::new("./fractal-test-storage");
    let ctx = ContextType::Scientific(ScientificContext::Empirical);
    assert_eq!(s.get_context_nodes(&ctx).len(), 12);
    s.delete_node("codex:Void");
    let remaining = s.get_context_nodes(&ctx);
    assert_eq!(remaining.len(), 11);
    assert!(remaining.iter().all(|n| n.id != "codex:Void"));
}
