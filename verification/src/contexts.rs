//! The context taxonomy: three dimensions of three values each, plus a
//! hybrid form combining several base values. Context values are value
//! types: equal by content, usable as index keys.

use vstd::prelude::*;

verus! {

/// One value of the scientific dimension.
#[derive(Clone, Copy, Debug, PartialEq, Eq, Hash, Structural)]
pub enum ScientificContext {
    Empirical,
    Theoretical,
    Experimental,
}

/// One value of the symbolic dimension.
#[derive(Clone, Copy, Debug, PartialEq, Eq, Hash, Structural)]
pub enum SymbolicContext {
    Archetypal,
    Cultural,
    Personal,
}

/// One value of the water (physical-state) dimension.
#[derive(Clone, Copy, Debug, PartialEq, Eq, Hash, Structural)]
pub enum WaterContext {
    Phase,
    Flow,
    Coherence,
}

/// A context value of a single dimension; hybrid contexts combine several
/// of these.
#[derive(Clone, Copy, Debug, PartialEq, Eq, Hash, Structural)]
pub enum BaseContext {
    Scientific(ScientificContext),
    Symbolic(SymbolicContext),
    Water(WaterContext),
}

/// A context value: one point of the taxonomy, or a hybrid combining
/// several base values.
#[derive(Debug)]
pub enum ContextType {
    Scientific(ScientificContext),
    Symbolic(SymbolicContext),
    Water(WaterContext),
    Hybrid(Vec<BaseContext>),
}

/// The mathematical value of a `ContextType`: hybrids carry the sequence
/// of their base values.
#[verifier::ext_equal]
pub enum CtxView {
    Scientific(ScientificContext),
    Symbolic(SymbolicContext),
    Water(WaterContext),
    Hybrid(Seq<BaseContext>),
}

impl View for ContextType {
    type V = CtxView;

    open spec fn view(&self) -> CtxView {
        match self {
            ContextType::Scientific(s) => CtxView::Scientific(*s),
            ContextType::Symbolic(s) => CtxView::Symbolic(*s),
            ContextType::Water(w) => CtxView::Water(*w),
            ContextType::Hybrid(v) => CtxView::Hybrid(v@),
        }
    }
}

fn base_contexts_eq(a: &Vec<BaseContext>, b: &Vec<BaseContext>) -> (r: bool)
    ensures
        r == (a@ == b@),
{
    if a.len() != b.len() {
        return false;
    }
    let mut i: usize = 0;
    while i < a.len()
        invariant
            a@.len() == b@.len(),
            i <= a@.len(),
            forall|j: int| 0 <= j < i ==> a@[j] == b@[j],
        decreases a@.len() - i,
    {
        if a[i] != b[i] {
            return false;
        }
        i += 1;
    }
    proof {
        assert(a@ =~= b@);
    }
    true
}

impl PartialEq for ContextType {
    fn eq(&self, other: &ContextType) -> (r: bool) {
        match (self, other) {
            (ContextType::Scientific(a), ContextType::Scientific(b)) => a == b,
            (ContextType::Symbolic(a), ContextType::Symbolic(b)) => a == b,
            (ContextType::Water(a), ContextType::Water(b)) => a == b,
            (ContextType::Hybrid(a), ContextType::Hybrid(b)) => base_contexts_eq(a, b),
            _ => false,
        }
    }
}

impl vstd::std_specs::cmp::PartialEqSpecImpl for ContextType {
    open spec fn obeys_eq_spec() -> bool {
        true
    }

    open spec fn eq_spec(&self, other: &ContextType) -> bool {
        self@ == other@
    }
}

fn clone_base_contexts(v: &Vec<BaseContext>) -> (r: Vec<BaseContext>)
    ensures
        r@ == v@,
{
    let mut r: Vec<BaseContext> = Vec::new();
    let mut i: usize = 0;
    while i < v.len()
        invariant
            i <= v@.len(),
            r@ == v@.take(i as int),
        decreases v@.len() - i,
    {
        r.push(v[i]);
        proof {
            assert(r@ =~= v@.take(i + 1 as int));
        }
        i += 1;
    }
    proof {
        assert(r@ =~= v@);
    }
    r
}

impl Clone for ContextType {
    fn clone(&self) -> (r: Self)
        ensures
            r@ == self@,
    {
        match self {
            ContextType::Scientific(s) => ContextType::Scientific(*s),
            ContextType::Symbolic(s) => ContextType::Symbolic(*s),
            ContextType::Water(w) => ContextType::Water(*w),
            ContextType::Hybrid(v) => ContextType::Hybrid(clone_base_contexts(v)),
        }
    }
}

/// The views of a sequence of context values.
pub open spec fn ctx_views(cs: Seq<ContextType>) -> Seq<CtxView> {
    cs.map_values(|c: ContextType| c@)
}

/// The fixed taxonomy: one context value per dimension-value pair, in a
/// fixed order (scientific, then symbolic, then water).
pub open spec fn canonical_context_views() -> Seq<CtxView> {
    seq![
        CtxView::Scientific(ScientificContext::Empirical),
        CtxView::Scientific(ScientificContext::Theoretical),
        CtxView::Scientific(ScientificContext::Experimental),
        CtxView::Symbolic(SymbolicContext::Archetypal),
        CtxView::Symbolic(SymbolicContext::Cultural),
        CtxView::Symbolic(SymbolicContext::Personal),
        CtxView::Water(WaterContext::Phase),
        CtxView::Water(WaterContext::Flow),
        CtxView::Water(WaterContext::Coherence),
    ]
}

/// The fixed taxonomy as executable values.
pub fn canonical_contexts() -> (r: Vec<ContextType>)
    ensures
        ctx_views(r@) == canonical_context_views(),
        r@.len() == 9,
{
    let mut r: Vec<ContextType> = Vec::new();
    r.push(ContextType::Scientific(ScientificContext::Empirical));
    r.push(ContextType::Scientific(ScientificContext::Theoretical));
    r.push(ContextType::Scientific(ScientificContext::Experimental));
    r.push(ContextType::Symbolic(SymbolicContext::Archetypal));
    r.push(ContextType::Symbolic(SymbolicContext::Cultural));
    r.push(ContextType::Symbolic(SymbolicContext::Personal));
    r.push(ContextType::Water(WaterContext::Phase));
    r.push(ContextType::Water(WaterContext::Flow));
    r.push(ContextType::Water(WaterContext::Coherence));
    proof {
        assert(ctx_views(r@) =~= canonical_context_views());
    }
    r
}

/// What a combination of at most one value per dimension contains, in
/// dimension order.
pub open spec fn context_combination_views(
    scientific: Option<ScientificContext>,
    symbolic: Option<SymbolicContext>,
    water: Option<WaterContext>,
) -> Seq<CtxView> {
    (match scientific {
        Some(s) => seq![CtxView::Scientific(s)],
        None => Seq::<CtxView>::empty(),
    }) + (match symbolic {
        Some(s) => seq![CtxView::Symbolic(s)],
        None => Seq::<CtxView>::empty(),
    }) + (match water {
        Some(w) => seq![CtxView::Water(w)],
        None => Seq::<CtxView>::empty(),
    })
}

/// Combine at most one value per dimension into a list of context values,
/// in dimension order.
pub fn create_context_combination(
    scientific: Option<ScientificContext>,
    symbolic: Option<SymbolicContext>,
    water: Option<WaterContext>,
) -> (r: Vec<ContextType>)
    ensures
        ctx_views(r@) == context_combination_views(scientific, symbolic, water),
{
    let mut r: Vec<ContextType> = Vec::new();
    if let Some(sci) = scientific {
        r.push(ContextType::Scientific(sci));
    }
    if let Some(sym) = symbolic {
        r.push(ContextType::Symbolic(sym));
    }
    if let Some(wat) = water {
        r.push(ContextType::Water(wat));
    }
    proof {
        assert(ctx_views(r@) =~= context_combination_views(scientific, symbolic, water));
    }
    r
}

/// Fixed multiplier keyed by context value, in thousandths: a derivative's
/// resonance is its parent's resonance scaled by this factor.
pub open spec fn spec_resonance_multiplier(c: CtxView) -> u32 {
    match c {
        CtxView::Scientific(ScientificContext::Empirical) => 800u32,
        CtxView::Scientific(ScientificContext::Theoretical) => 850u32,
        CtxView::Scientific(ScientificContext::Experimental) => 750u32,
        CtxView::Symbolic(SymbolicContext::Archetypal) => 900u32,
        CtxView::Symbolic(SymbolicContext::Cultural) => 850u32,
        CtxView::Symbolic(SymbolicContext::Personal) => 800u32,
        CtxView::Water(WaterContext::Phase) => 800u32,
        CtxView::Water(WaterContext::Flow) => 850u32,
        CtxView::Water(WaterContext::Coherence) => 900u32,
        CtxView::Hybrid(_) => 950u32,
    }
}

/// The resonance multiplier of a context value, in thousandths; hybrid
/// contexts carry the highest factor.
pub fn calculate_resonance_multiplier(context: &ContextType) -> (r: u32)
    ensures
        r == spec_resonance_multiplier(context@),
{
    match context {
        ContextType::Scientific(ScientificContext::Empirical) => 800,
        ContextType::Scientific(ScientificContext::Theoretical) => 850,
        ContextType::Scientific(ScientificContext::Experimental) => 750,
        ContextType::Symbolic(SymbolicContext::Archetypal) => 900,
        ContextType::Symbolic(SymbolicContext::Cultural) => 850,
        ContextType::Symbolic(SymbolicContext::Personal) => 800,
        ContextType::Water(WaterContext::Phase) => 800,
        ContextType::Water(WaterContext::Flow) => 850,
        ContextType::Water(WaterContext::Coherence) => 900,
        ContextType::Hybrid(_) => 950,
    }
}

} // verus!
