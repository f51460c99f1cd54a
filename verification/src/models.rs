//! Core data types: nodes, contributions and statistics, each with a
//! mathematical view that the contracts speak of.

use vstd::prelude::*;
use crate::contexts::{ContextType, CtxView, ctx_views};
use crate::contexts::{ScientificContext, SymbolicContext, WaterContext};
use crate::seq_util::lemma_filter_take_step;
use crate::seq_util::lemma_filter_take_all;
use crate::support::{now_millis, fresh_id, str_eq};

verus! {

/// Physical/metaphorical state of a node; purely descriptive.
#[derive(Clone, Copy, Debug, PartialEq, Eq, Hash, Structural)]
pub enum FlowState {
    Solid,
    Liquid,
    Gas,
    Plasma,
    Colloidal,
    Crystalline,
    Living,
    Wave,
}

/// Evolution stage of an entity, derived from its fractal level.
#[derive(Clone, Copy, Debug, PartialEq, Eq, Hash, Structural)]
pub enum EvolutionStage {
    Potential,
    Emerging,
    Mature,
    Transforming,
    Transcending,
}

/// The views of a sequence of strings.
pub open spec fn str_views(ss: Seq<String>) -> Seq<Seq<char>> {
    ss.map_values(|s: String| s@)
}

/// The view of an optional string.
pub open spec fn opt_str_view(s: Option<String>) -> Option<Seq<char>> {
    match s {
        Some(x) => Some(x@),
        None => None,
    }
}

/// The view of an optional context value.
pub open spec fn opt_ctx_view(c: Option<ContextType>) -> Option<CtxView> {
    match c {
        Some(x) => Some(x@),
        None => None,
    }
}

/// A conceptual entity: a base node (fractal level 1) or a
/// context-qualified derivative (level 2 and up). Resonance is a salience
/// weight in thousandths; timestamps are milliseconds since the Unix
/// epoch.
#[derive(Debug)]
pub struct FractalNode {
    pub id: String,
    pub name: String,
    pub water_state: FlowState,
    pub archetype: Vec<String>,
    pub resonance: u32,
    pub fractal_level: u32,
    pub contexts: Vec<ContextType>,
    pub parent_id: Option<String>,
    pub created_at: i64,
    pub updated_at: i64,
}

/// The mathematical value of a node.
#[verifier::ext_equal]
pub struct NodeView {
    pub id: Seq<char>,
    pub name: Seq<char>,
    pub water_state: FlowState,
    pub archetype: Seq<Seq<char>>,
    pub resonance: u32,
    pub fractal_level: u32,
    pub contexts: Seq<CtxView>,
    pub parent_id: Option<Seq<char>>,
    pub created_at: i64,
    pub updated_at: i64,
}

impl View for FractalNode {
    type V = NodeView;

    open spec fn view(&self) -> NodeView {
        NodeView {
            id: self.id@,
            name: self.name@,
            water_state: self.water_state,
            archetype: str_views(self.archetype@),
            resonance: self.resonance,
            fractal_level: self.fractal_level,
            contexts: ctx_views(self.contexts@),
            parent_id: opt_str_view(self.parent_id),
            created_at: self.created_at,
            updated_at: self.updated_at,
        }
    }
}

/// Everything of two node views is equal except possibly the context list
/// and the update timestamp.
pub open spec fn node_same_except_contexts(pre: NodeView, post: NodeView) -> bool {
    &&& post.id == pre.id
    &&& post.name == pre.name
    &&& post.water_state == pre.water_state
    &&& post.archetype == pre.archetype
    &&& post.resonance == pre.resonance
    &&& post.fractal_level == pre.fractal_level
    &&& post.parent_id == pre.parent_id
    &&& post.created_at == pre.created_at
}

/// Which context family name a context value is listed under.
pub open spec fn family_name_matches(c: CtxView, name: Seq<char>) -> bool {
    match c {
        CtxView::Scientific(_) => name == "scientific"@,
        CtxView::Symbolic(_) => name == "symbolic"@,
        CtxView::Water(_) => name == "water"@,
        CtxView::Hybrid(_) => name == "hybrid"@,
    }
}

fn clone_string_vec(v: &Vec<String>) -> (r: Vec<String>)
    ensures
        r@ == v@,
{
    let mut r: Vec<String> = Vec::new();
    let mut i: usize = 0;
    while i < v.len()
        invariant
            i <= v@.len(),
            r@ == v@.take(i as int),
        decreases v@.len() - i,
    {
        r.push(v[i].clone());
        proof {
            assert(r@ =~= v@.take(i + 1 as int));
        }
        i += 1;
    }
    proof {
        assert(r@ =~= v@);
    }
    r
}

fn clone_context_vec(v: &Vec<ContextType>) -> (r: Vec<ContextType>)
    ensures
        ctx_views(r@) == ctx_views(v@),
{
    let mut r: Vec<ContextType> = Vec::new();
    let mut i: usize = 0;
    while i < v.len()
        invariant
            i <= v@.len(),
            ctx_views(r@) == ctx_views(v@).take(i as int),
        decreases v@.len() - i,
    {
        let ghost pre = r@;
        let c = v[i].clone();
        proof {
            assert(c@ == v@[i as int]@);
        }
        r.push(c);
        proof {
            assert(ctx_views(pre).len() == i);
            assert(pre.len() == i);
            assert(r@.len() == i + 1);
            assert forall|j: int| 0 <= j < i + 1 implies ctx_views(r@)[j] == ctx_views(v@).take(
                i + 1,
            )[j] by {
                if j < i {
                    assert(r@[j] == pre[j]);
                    assert(ctx_views(pre)[j] == ctx_views(v@).take(i as int)[j]);
                }
            }
            assert(ctx_views(r@) =~= ctx_views(v@).take(i + 1));
        }
        i += 1;
    }
    proof {
        assert(ctx_views(r@) =~= ctx_views(v@));
    }
    r
}

fn clone_opt_context(c: &Option<ContextType>) -> (r: Option<ContextType>)
    ensures
        opt_ctx_view(r) == opt_ctx_view(*c),
{
    match c {
        Some(x) => Some(x.clone()),
        None => None,
    }
}

impl Clone for FractalNode {
    /// A clone carries the same mathematical value.
    fn clone(&self) -> (r: Self)
        ensures
            r@ == self@,
    {
        let r = FractalNode {
            id: self.id.clone(),
            name: self.name.clone(),
            water_state: self.water_state,
            archetype: clone_string_vec(&self.archetype),
            resonance: self.resonance,
            fractal_level: self.fractal_level,
            contexts: clone_context_vec(&self.contexts),
            parent_id: match &self.parent_id {
                Some(p) => Some(p.clone()),
                None => None,
            },
            created_at: self.created_at,
            updated_at: self.updated_at,
        };
        proof {
            assert(r@ =~= self@);
        }
        r
    }
}

impl FractalNode {
    /// Create a node with no contexts; both timestamps are set to the same
    /// current time.
    pub fn new(
        id: String,
        name: String,
        water_state: FlowState,
        archetype: Vec<String>,
        resonance: u32,
        fractal_level: u32,
        parent_id: Option<String>,
    ) -> (r: Self)
        ensures
            r@.id == id@,
            r@.name == name@,
            r@.water_state == water_state,
            r@.archetype == str_views(archetype@),
            r@.resonance == resonance,
            r@.fractal_level == fractal_level,
            r@.contexts == Seq::<CtxView>::empty(),
            r@.parent_id == opt_str_view(parent_id),
            r@.created_at == r@.updated_at,
    {
        let now = now_millis();
        let r = FractalNode {
            id,
            name,
            water_state,
            archetype,
            resonance,
            fractal_level,
            contexts: Vec::new(),
            parent_id,
            created_at: now,
            updated_at: now,
        };
        proof {
            assert(r@.contexts =~= Seq::<CtxView>::empty());
        }
        r
    }

    /// Attach a context value at the end of the list; bumps the update
    /// timestamp.
    pub fn add_context(&mut self, context: ContextType)
        ensures
            final(self)@.contexts == old(self)@.contexts.push(context@),
            node_same_except_contexts(old(self)@, final(self)@),
    {
        let ghost pre = self.contexts@;
        self.contexts.push(context);
        self.updated_at = now_millis();
        proof {
            assert(ctx_views(pre.push(context)) =~= ctx_views(pre).push(context@));
        }
    }

    /// How many context values the node carries.
    pub fn get_context_count(&self) -> (r: usize)
        ensures
            r == self@.contexts.len(),
    {
        self.contexts.len()
    }

    /// Whether the node carries a context equal in content to the given
    /// one.
    pub fn has_context(&self, context_type: &ContextType) -> (r: bool)
        ensures
            r == self@.contexts.contains(context_type@),
    {
        let mut i: usize = 0;
        while i < self.contexts.len()
            invariant
                i <= self@.contexts.len(),
                self@.contexts.len() == self.contexts@.len(),
                forall|j: int| 0 <= j < i ==> self@.contexts[j] != context_type@,
            decreases self@.contexts.len() - i,
        {
            if self.contexts[i] == *context_type {
                proof {
                    assert(self@.contexts[i as int] == context_type@);
                }
                return true;
            }
            i += 1;
        }
        false
    }

    /// All contexts of the node listed under the given family name
    /// (`"scientific"`, `"symbolic"`, `"water"` or `"hybrid"`), in order.
    pub fn get_contexts_by_type(&self, context_type: &str) -> (r: Vec<ContextType>)
        ensures
            ctx_views(r@) == self@.contexts.filter(
                |c: CtxView| family_name_matches(c, context_type@),
            ),
    {
        let ghost p = |c: CtxView| family_name_matches(c, context_type@);
        let is_sci = str_eq(context_type, "scientific");
        let is_sym = str_eq(context_type, "symbolic");
        let is_wat = str_eq(context_type, "water");
        let is_hyb = str_eq(context_type, "hybrid");
        let mut r: Vec<ContextType> = Vec::new();
        let mut i: usize = 0;
        while i < self.contexts.len()
            invariant
                i <= self@.contexts.len(),
                self@.contexts.len() == self.contexts@.len(),
                is_sci == (context_type@ == "scientific"@),
                is_sym == (context_type@ == "symbolic"@),
                is_wat == (context_type@ == "water"@),
                is_hyb == (context_type@ == "hybrid"@),
                p == (|c: CtxView| family_name_matches(c, context_type@)),
                ctx_views(r@) == self@.contexts.take(i as int).filter(p),
            decreases self@.contexts.len() - i,
        {
            let c = &self.contexts[i];
            let keep = match c {
                ContextType::Scientific(_) => is_sci,
                ContextType::Symbolic(_) => is_sym,
                ContextType::Water(_) => is_wat,
                ContextType::Hybrid(_) => is_hyb,
            };
            proof {
                assert(keep == p(self@.contexts[i as int]));
                lemma_filter_take_step(self@.contexts, p, i as int);
            }
            if keep {
                r.push(c.clone());
                proof {
                    assert(ctx_views(r@) =~= self@.contexts.take(i + 1 as int).filter(p));
                }
            }
            i += 1;
        }
        proof {
            lemma_filter_take_all(self@.contexts, p);
        }
        r
    }
}

/// An immutable fact: a user contribution targeting a node. The node
/// reference is intentionally weak and never validated against the node
/// table.
#[derive(Debug)]
pub struct Contribution {
    pub id: String,
    pub node_id: String,
    pub user_id: String,
    pub content: String,
    pub resonance: u32,
    pub timestamp: i64,
    pub fractal_context: Option<ContextType>,
}

/// The mathematical value of a contribution.
#[verifier::ext_equal]
pub struct ContributionView {
    pub id: Seq<char>,
    pub node_id: Seq<char>,
    pub user_id: Seq<char>,
    pub content: Seq<char>,
    pub resonance: u32,
    pub timestamp: i64,
    pub fractal_context: Option<CtxView>,
}

impl View for Contribution {
    type V = ContributionView;

    open spec fn view(&self) -> ContributionView {
        ContributionView {
            id: self.id@,
            node_id: self.node_id@,
            user_id: self.user_id@,
            content: self.content@,
            resonance: self.resonance,
            timestamp: self.timestamp,
            fractal_context: opt_ctx_view(self.fractal_context),
        }
    }
}

impl Clone for Contribution {
    /// A clone carries the same mathematical value.
    fn clone(&self) -> (r: Self)
        ensures
            r@ == self@,
    {
        let r = Contribution {
            id: self.id.clone(),
            node_id: self.node_id.clone(),
            user_id: self.user_id.clone(),
            content: self.content.clone(),
            resonance: self.resonance,
            timestamp: self.timestamp,
            fractal_context: clone_opt_context(&self.fractal_context),
        };
        proof {
            assert(r@ =~= self@);
        }
        r
    }
}

impl Contribution {
    /// Create a contribution with a fresh random 36-character identifier
    /// and the current time.
    pub fn new(
        node_id: String,
        user_id: String,
        content: String,
        resonance: u32,
        fractal_context: Option<ContextType>,
    ) -> (r: Self)
        ensures
            r@.node_id == node_id@,
            r@.user_id == user_id@,
            r@.content == content@,
            r@.resonance == resonance,
            r@.fractal_context == opt_ctx_view(fractal_context),
            r@.id.len() == 36,
    {
        Contribution {
            id: fresh_id(),
            node_id,
            user_id,
            content,
            resonance,
            timestamp: now_millis(),
            fractal_context,
        }
    }
}

/// Static description of the expansion dimensions, kept inside the
/// statistics snapshot.
#[derive(Debug)]
pub struct FractalExpansionStats {
    pub total_fractal_dimensions: usize,
    pub contexts: Vec<ContextType>,
    pub level_breakdown: Vec<(u32, usize)>,
}

/// The mathematical value of the expansion description.
#[verifier::ext_equal]
pub struct ExpansionStatsView {
    pub total_fractal_dimensions: usize,
    pub contexts: Seq<CtxView>,
    pub level_breakdown: Seq<(u32, usize)>,
}

impl View for FractalExpansionStats {
    type V = ExpansionStatsView;

    open spec fn view(&self) -> ExpansionStatsView {
        ExpansionStatsView {
            total_fractal_dimensions: self.total_fractal_dimensions,
            contexts: ctx_views(self.contexts@),
            level_breakdown: self.level_breakdown@,
        }
    }
}

/// Snapshot of derived statistics. Counters are maintained incrementally
/// with every table write and always agree with a full recount.
#[derive(Debug)]
pub struct StorageStats {
    pub version: String,
    pub fractal_level: u32,
    pub total_contributions: usize,
    pub total_nodes: usize,
    pub total_subnodes: usize,
    pub total_users: usize,
    pub total_size: u64,
    pub last_updated: i64,
    pub fractal_expansion: FractalExpansionStats,
}

/// The mathematical value of the statistics snapshot.
#[verifier::ext_equal]
pub struct StatsView {
    pub version: Seq<char>,
    pub fractal_level: u32,
    pub total_contributions: usize,
    pub total_nodes: usize,
    pub total_subnodes: usize,
    pub total_users: usize,
    pub total_size: u64,
    pub last_updated: i64,
    pub fractal_expansion: ExpansionStatsView,
}

impl View for StorageStats {
    type V = StatsView;

    open spec fn view(&self) -> StatsView {
        StatsView {
            version: self.version@,
            fractal_level: self.fractal_level,
            total_contributions: self.total_contributions,
            total_nodes: self.total_nodes,
            total_subnodes: self.total_subnodes,
            total_users: self.total_users,
            total_size: self.total_size,
            last_updated: self.last_updated,
            fractal_expansion: self.fractal_expansion@,
        }
    }
}

fn clone_copy_vec<T: Copy>(v: &Vec<T>) -> (r: Vec<T>)
    ensures
        r@ == v@,
{
    let mut r: Vec<T> = Vec::new();
    let mut i: usize = 0;
    while i < v.len()
        invariant
            i <= v@.len(),
            r@ == v@.take(i as int),
        decreases v@.len() - i,
    {
        r.push(v[i]);
        proof {
            assert(r@ =~= v@.take(i + 1 as int));
        }
        i += 1;
    }
    proof {
        assert(r@ =~= v@);
    }
    r
}

impl Clone for FractalExpansionStats {
    /// A clone carries the same mathematical value.
    fn clone(&self) -> (r: Self)
        ensures
            r@ == self@,
    {
        let r = FractalExpansionStats {
            total_fractal_dimensions: self.total_fractal_dimensions,
            contexts: clone_context_vec(&self.contexts),
            level_breakdown: clone_copy_vec(&self.level_breakdown),
        };
        proof {
            assert(r@ =~= self@);
        }
        r
    }
}

impl Clone for StorageStats {
    /// A clone carries the same mathematical value.
    fn clone(&self) -> (r: Self)
        ensures
            r@ == self@,
    {
        let r = StorageStats {
            version: self.version.clone(),
            fractal_level: self.fractal_level,
            total_contributions: self.total_contributions,
            total_nodes: self.total_nodes,
            total_subnodes: self.total_subnodes,
            total_users: self.total_users,
            total_size: self.total_size,
            last_updated: self.last_updated,
            fractal_expansion: self.fractal_expansion.clone(),
        };
        proof {
            assert(r@ =~= self@);
        }
        r
    }
}

/// The static part of two stats views is equal: everything except the
/// write counters and the update timestamp.
pub open spec fn stats_same_static(pre: StatsView, post: StatsView) -> bool {
    &&& post.version == pre.version
    &&& post.fractal_level == pre.fractal_level
    &&& post.total_users == pre.total_users
    &&& post.total_size == pre.total_size
    &&& post.fractal_expansion == pre.fractal_expansion
}

/// The context values advertised by a default statistics snapshot: the
/// first value of each dimension.
pub open spec fn default_expansion_context_views() -> Seq<CtxView> {
    seq![
        CtxView::Scientific(ScientificContext::Empirical),
        CtxView::Symbolic(SymbolicContext::Archetypal),
        CtxView::Water(WaterContext::Phase),
    ]
}

impl Default for StorageStats {
    /// A fresh snapshot: all counters zero, current timestamp.
    fn default() -> (r: Self)
        ensures
            r@.version == "3.0.0"@,
            r@.fractal_level == 2,
            r@.total_contributions == 0,
            r@.total_nodes == 0,
            r@.total_subnodes == 0,
            r@.total_users == 0,
            r@.total_size == 0,
            r@.fractal_expansion.total_fractal_dimensions == 3,
            r@.fractal_expansion.contexts == default_expansion_context_views(),
            r@.fractal_expansion.level_breakdown == Seq::<(u32, usize)>::empty(),
    {
        let mut contexts: Vec<ContextType> = Vec::new();
        contexts.push(ContextType::Scientific(ScientificContext::Empirical));
        contexts.push(ContextType::Symbolic(SymbolicContext::Archetypal));
        contexts.push(ContextType::Water(WaterContext::Phase));
        proof {
            assert(ctx_views(contexts@) =~= default_expansion_context_views());
        }
        let r = StorageStats {
            version: "3.0.0".to_owned(),
            fractal_level: 2,
            total_contributions: 0,
            total_nodes: 0,
            total_subnodes: 0,
            total_users: 0,
            total_size: 0,
            last_updated: now_millis(),
            fractal_expansion: FractalExpansionStats {
                total_fractal_dimensions: 3,
                contexts,
                level_breakdown: Vec::new(),
            },
        };
        proof {
            assert(r@.fractal_expansion.level_breakdown =~= Seq::<(u32, usize)>::empty());
        }
        r
    }
}

/// The flow state a transform name denotes; the names cover every state
/// but the wave form.
pub open spec fn flow_state_of_name(s: Seq<char>) -> Option<FlowState> {
    if s == "solid"@ {
        Some(FlowState::Solid)
    } else if s == "liquid"@ {
        Some(FlowState::Liquid)
    } else if s == "gas"@ {
        Some(FlowState::Gas)
    } else if s == "plasma"@ {
        Some(FlowState::Plasma)
    } else if s == "colloidal"@ {
        Some(FlowState::Colloidal)
    } else if s == "crystalline"@ {
        Some(FlowState::Crystalline)
    } else if s == "living"@ {
        Some(FlowState::Living)
    } else {
        None
    }
}

fn parse_flow_state(name: &str) -> (r: Option<FlowState>)
    ensures
        r == flow_state_of_name(name@),
{
    if str_eq(name, "solid") {
        Some(FlowState::Solid)
    } else if str_eq(name, "liquid") {
        Some(FlowState::Liquid)
    } else if str_eq(name, "gas") {
        Some(FlowState::Gas)
    } else if str_eq(name, "plasma") {
        Some(FlowState::Plasma)
    } else if str_eq(name, "colloidal") {
        Some(FlowState::Colloidal)
    } else if str_eq(name, "crystalline") {
        Some(FlowState::Crystalline)
    } else if str_eq(name, "living") {
        Some(FlowState::Living)
    } else {
        None
    }
}

/// A successful transform: the state becomes `st`, the update timestamp
/// moves, everything else stays.
pub open spec fn node_transformed(pre: NodeView, post: NodeView, st: FlowState) -> bool {
    &&& post.water_state == st
    &&& post.id == pre.id
    &&& post.name == pre.name
    &&& post.archetype == pre.archetype
    &&& post.resonance == pre.resonance
    &&& post.fractal_level == pre.fractal_level
    &&& post.contexts == pre.contexts
    &&& post.parent_id == pre.parent_id
    &&& post.created_at == pre.created_at
}

/// Entities that flow and adapt: a physical state, an adaptivity test and
/// a resonance weight in thousandths.
pub trait Flowing {
    /// The state the entity reports.
    spec fn spec_flow_state(&self) -> FlowState;

    /// Whether the entity counts as adaptive.
    spec fn spec_can_adapt(&self) -> bool;

    /// The entity's resonance in thousandths.
    spec fn spec_resonance_level(&self) -> u32;

    fn flow_state(&self) -> (r: FlowState)
        ensures
            r == self.spec_flow_state(),
    ;

    fn can_adapt(&self) -> (r: bool)
        ensures
            r == self.spec_can_adapt(),
    ;

    fn resonance_level(&self) -> (r: u32)
        ensures
            r == self.spec_resonance_level(),
    ;
}

impl Flowing for FractalNode {
    open spec fn spec_flow_state(&self) -> FlowState {
        self.water_state
    }

    open spec fn spec_can_adapt(&self) -> bool {
        self.water_state == FlowState::Liquid || self.water_state == FlowState::Gas
            || self.water_state == FlowState::Colloidal
    }

    open spec fn spec_resonance_level(&self) -> u32 {
        self.resonance
    }

    fn flow_state(&self) -> FlowState {
        self.water_state
    }

    fn can_adapt(&self) -> bool {
        matches!(self.water_state, FlowState::Liquid | FlowState::Gas | FlowState::Colloidal)
    }

    fn resonance_level(&self) -> u32 {
        self.resonance
    }
}

/// Entities that can change state by name and report an evolution stage.
pub trait Transformable: Sized {
    /// Which state names a transform accepts.
    spec fn accepts_state(s: Seq<char>) -> bool;

    /// How a successful transform changes the entity.
    spec fn transformed(pre: Self, post: Self, s: Seq<char>) -> bool;

    /// The entity's evolution stage.
    spec fn spec_evolution_stage(&self) -> EvolutionStage;

    fn transform(&mut self, new_state: &str) -> (r: Result<(), String>)
        ensures
            r is Ok <==> Self::accepts_state(new_state@),
            r is Ok ==> Self::transformed(*old(self), *final(self), new_state@),
            r is Err ==> *final(self) == *old(self),
            r matches Err(m) ==> m@ == new_state@,
    ;

    fn evolution_stage(&self) -> (r: EvolutionStage)
        ensures
            r == self.spec_evolution_stage(),
    ;
}

impl Transformable for FractalNode {
    open spec fn accepts_state(s: Seq<char>) -> bool {
        flow_state_of_name(s) is Some
    }

    open spec fn transformed(pre: Self, post: Self, s: Seq<char>) -> bool {
        node_transformed(pre@, post@, flow_state_of_name(s)->Some_0)
    }

    open spec fn spec_evolution_stage(&self) -> EvolutionStage {
        if self.fractal_level == 1 {
            EvolutionStage::Mature
        } else if self.fractal_level == 2 {
            EvolutionStage::Transforming
        } else {
            EvolutionStage::Transcending
        }
    }

    fn transform(&mut self, new_state: &str) -> (r: Result<(), String>) {
        match parse_flow_state(new_state) {
            Some(st) => {
                self.water_state = st;
                self.updated_at = now_millis();
                Ok(())
            },
            None => Err(new_state.to_owned()),
        }
    }

    fn evolution_stage(&self) -> EvolutionStage {
        if self.fractal_level == 1 {
            EvolutionStage::Mature
        } else if self.fractal_level == 2 {
            EvolutionStage::Transforming
        } else {
            EvolutionStage::Transcending
        }
    }
}

/// The absolute gap between two frequencies.
pub open spec fn freq_gap(a: u64, b: u64) -> int {
    if a >= b {
        a - b
    } else {
        b - a
    }
}

/// Resonance strength in thousandths: full at zero gap, falling away as
/// the gap grows, zero once the gap leaves the resonance range.
pub open spec fn spec_resonance_strength(a: u64, b: u64) -> int {
    if freq_gap(a, b) < 10000 {
        10_000_000 as int / (10000 + freq_gap(a, b))
    } else {
        0
    }
}

/// Entities that resonate: a frequency in thousandths and pairwise
/// resonance tests against entities of the same kind.
pub trait Resonant {
    /// The entity's resonance frequency in thousandths.
    spec fn spec_frequency(&self) -> u64;

    fn resonance_frequency(&self) -> (r: u64)
        ensures
            r == self.spec_frequency(),
    ;

    fn can_resonate_with(&self, other: &Self) -> (r: bool)
        ensures
            r == (freq_gap(self.spec_frequency(), other.spec_frequency()) < 10000),
    ;

    fn resonance_strength(&self, other: &Self) -> (r: u64)
        ensures
            r == spec_resonance_strength(self.spec_frequency(), other.spec_frequency()),
    ;
}

impl Resonant for FractalNode {
    open spec fn spec_frequency(&self) -> u64 {
        ((self.resonance as int) * 100) as u64
    }

    fn resonance_frequency(&self) -> (r: u64) {
        proof {
            assert((self.resonance as int) * 100 <= u64::MAX as int);
        }
        (self.resonance as u64) * 100
    }

    fn can_resonate_with(&self, other: &Self) -> (r: bool) {
        let a = self.resonance_frequency();
        let b = other.resonance_frequency();
        let gap = if a >= b {
            a - b
        } else {
            b - a
        };
        gap < 10000
    }

    fn resonance_strength(&self, other: &Self) -> (r: u64) {
        let a = self.resonance_frequency();
        let b = other.resonance_frequency();
        let gap = if a >= b {
            a - b
        } else {
            b - a
        };
        if gap < 10000 {
            10_000_000 / (10000 + gap)
        } else {
            0
        }
    }
}

} // verus!
