use fractal_store::contexts::{
    BaseContext, ContextType, ScientificContext, SymbolicContext, WaterContext,
    calculate_resonance_multiplier, canonical_contexts, create_context_combination,
};
use fractal_store::models::{
    Contribution, EvolutionStage, FlowState, Flowing, FractalNode, Resonant, StorageStats,
    Transformable,
};

fn base_node(id: &str, resonance: u32, level: u32) -> FractalNode {
    FractalNode::new(
        id.to_string(),
        id.to_string(),
        FlowState::Liquid,
        vec![],
        resonance,
        level,
        None,
    )
}

#[test]
fn new_node_has_expected_fields() {
    let n = FractalNode::new(
        "codex:Test".to_string(),
        "Test".to_string(),
        FlowState::Plasma,
        vec!["One".to_string(), "Two".to_string()],
        1000,
        1,
        None,
    );
    assert_eq!(n.id, "codex:Test");
    assert_eq!(n.name, "Test");
    assert_eq!(n.water_state, FlowState::Plasma);
    assert_eq!(n.archetype, vec!["One".to_string(), "Two".to_string()]);
    assert_eq!(n.resonance, 1000);
    assert_eq!(n.fractal_level, 1);
    assert!(n.contexts.is_empty());
    assert!(n.parent_id.is_none());
    assert_eq!(n.created_at, n.updated_at);
}

#[test]
fn add_context_and_has_context() {
    let mut n = base_node("codex:Test", 800, 1);
    let c = ContextType::Scientific(ScientificContext::Empirical);
    assert_eq!(n.get_context_count(), 0);
    assert!(!n.has_context(&c));
    n.add_context(ContextType::Scientific(ScientificContext::Empirical));
    assert_eq!(n.get_context_count(), 1);
    assert!(n.has_context(&c));
    assert!(!n.has_context(&ContextType::Water(WaterContext::Phase)));
}

#[test]
fn context_equality_is_by_content() {
    let a = ContextType::Hybrid(vec![
        BaseContext::Scientific(ScientificContext::Empirical),
        BaseContext::Water(WaterContext::Flow),
    ]);
    let b = ContextType::Hybrid(vec![
        BaseContext::Scientific(ScientificContext::Empirical),
        BaseContext::Water(WaterContext::Flow),
    ]);
    let c = ContextType::Hybrid(vec![BaseContext::Water(WaterContext::Flow)]);
    assert!(a == b);
    assert!(a != c);
    assert!(a != ContextType::Water(WaterContext::Flow));
}

#[test]
fn get_contexts_by_type_filters_by_family() {
    let mut n = base_node("codex:Test", 800, 1);
    n.add_context(ContextType::Scientific(ScientificContext::Empirical));
    n.add_context(ContextType::Symbolic(SymbolicContext::Cultural));
    n.add_context(ContextType::Scientific(ScientificContext::Theoretical));
    n.add_context(ContextType::Hybrid(vec![BaseContext::Water(WaterContext::Phase)]));
    assert_eq!(n.get_contexts_by_type("scientific").len(), 2);
    assert_eq!(n.get_contexts_by_type("symbolic").len(), 1);
    assert_eq!(n.get_contexts_by_type("water").len(), 0);
    assert_eq!(n.get_contexts_by_type("hybrid").len(), 1);
    assert_eq!(n.get_contexts_by_type("other").len(), 0);
}

#[test]
fn transform_changes_state_and_rejects_unknown_names() {
    let mut n = base_node("codex:Test", 800, 1);
    assert!(n.transform("solid").is_ok());
    assert_eq!(n.water_state, FlowState::Solid);
    assert!(n.transform("plasma").is_ok());
    assert_eq!(n.water_state, FlowState::Plasma);
    let r = n.transform("wave");
    assert_eq!(r, Err("wave".to_string()));
    assert_eq!(n.water_state, FlowState::Plasma);
    assert!(n.transform("molten").is_err());
    assert_eq!(n.water_state, FlowState::Plasma);
}

#[test]
fn evolution_stage_follows_fractal_level() {
    assert_eq!(base_node("a", 1, 1).evolution_stage(), EvolutionStage::Mature);
    assert_eq!(base_node("a", 1, 2).evolution_stage(), EvolutionStage::Transforming);
    assert_eq!(base_node("a", 1, 7).evolution_stage(), EvolutionStage::Transcending);
}

#[test]
fn flowing_reports_state_and_adaptivity() {
    let n = base_node("a", 640, 1);
    assert_eq!(n.flow_state(), FlowState::Liquid);
    assert!(n.can_adapt());
    assert_eq!(n.resonance_level(), 640);
    let mut m = base_node("b", 640, 1);
    m.transform("solid").unwrap();
    assert!(!m.can_adapt());
}

#[test]
fn resonance_frequency_and_strength() {
    let a = base_node("a", 1000, 1);
    let b = base_node("b", 1050, 1);
    let c = base_node("c", 1200, 1);
    assert_eq!(a.resonance_frequency(), 100_000);
    assert!(a.can_resonate_with(&b));
    assert!(!a.can_resonate_with(&c));
    assert_eq!(a.resonance_strength(&a), 1000);
    assert_eq!(a.resonance_strength(&b), 10_000_000 / 15_000);
    assert_eq!(a.resonance_strength(&c), 0);
}

#[test]
fn contribution_new_gets_uuid_and_fields() {
    let c = Contribution::new(
        "codex:Void".to_string(),
        "user-1".to_string(),
        "a note".to_string(),
        500,
        Some(ContextType::Water(WaterContext::Phase)),
    );
    assert_eq!(c.node_id, "codex:Void");
    assert_eq!(c.user_id, "user-1");
    assert_eq!(c.content, "a note");
    assert_eq!(c.resonance, 500);
    assert_eq!(c.id.len(), 36);
    assert!(uuid::Uuid::parse_str(&c.id).is_ok());
}

#[test]
fn resonance_multiplier_table() {
    assert_eq!(
        calculate_resonance_multiplier(&ContextType::Scientific(ScientificContext::Empirical)),
        800
    );
    assert_eq!(
        calculate_resonance_multiplier(&ContextType::Scientific(ScientificContext::Theoretical)),
        850
    );
    assert_eq!(
        calculate_resonance_multiplier(&ContextType::Scientific(ScientificContext::Experimental)),
        750
    );
    assert_eq!(
        calculate_resonance_multiplier(&ContextType::Symbolic(SymbolicContext::Archetypal)),
        900
    );
    assert_eq!(
        calculate_resonance_multiplier(&ContextType::Symbolic(SymbolicContext::Cultural)),
        850
    );
    assert_eq!(
        calculate_resonance_multiplier(&ContextType::Symbolic(SymbolicContext::Personal)),
        800
    );
    assert_eq!(calculate_resonance_multiplier(&ContextType::Water(WaterContext::Phase)), 800);
    assert_eq!(calculate_resonance_multiplier(&ContextType::Water(WaterContext::Flow)), 850);
    assert_eq!(calculate_resonance_multiplier(&ContextType::Water(WaterContext::Coherence)), 900);
    assert_eq!(calculate_resonance_multiplier(&ContextType::Hybrid(vec![])), 950);
}

#[test]
fn context_combination_preserves_dimension_order() {
    let all = create_context_combination(
        Some(ScientificContext::Empirical),
        Some(SymbolicContext::Personal),
        Some(WaterContext::Coherence),
    );
    assert_eq!(all.len(), 3);
    assert!(all[0] == ContextType::Scientific(ScientificContext::Empirical));
    assert!(all[1] == ContextType::Symbolic(SymbolicContext::Personal));
    assert!(all[2] == ContextType::Water(WaterContext::Coherence));
    let none = create_context_combination(None, None, None);
    assert!(none.is_empty());
    let water_only = create_context_combination(None, None, Some(WaterContext::Phase));
    assert_eq!(water_only.len(), 1);
    assert!(water_only[0] == ContextType::Water(WaterContext::Phase));
}

#[test]
fn canonical_taxonomy_has_nine_values() {
    let all = canonical_contexts();
    assert_eq!(all.len(), 9);
    for i in 0..all.len() {
        for j in (i + 1)..all.len() {
            assert!(all[i] != all[j]);
        }
    }
}

#[test]
fn default_stats_snapshot() {
    let s = StorageStats::default();
    assert_eq!(s.version, "3.0.0");
    assert_eq!(s.fractal_level, 2);
    assert_eq!(s.total_contributions, 0);
    assert_eq!(s.total_nodes, 0);
    assert_eq!(s.total_subnodes, 0);
    assert_eq!(s.total_users, 0);
    assert_eq!(s.total_size, 0);
    assert_eq!(s.fractal_expansion.total_fractal_dimensions, 3);
    assert_eq!(s.fractal_expansion.contexts.len(), 3);
    assert!(s.fractal_expansion.level_breakdown.is_empty());
}
