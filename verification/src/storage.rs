//! The fractal store: node table, context index, contribution ledger and
//! statistics snapshot, together with the expansion engine that populates
//! them. The store has a single owner; a shell around it may guard it
//! with one reader/writer lock.

use vstd::prelude::*;
use crate::config::StorageConfig;
use crate::config::StorageConfigView;
use crate::contexts::{ContextType, CtxView, canonical_contexts, canonical_context_views};
use crate::contexts::{BaseContext, ScientificContext, SymbolicContext, WaterContext};
use crate::hashing::{generate_content_hash, content_hash_of};
use crate::models::{Contribution, ContributionView, FlowState, FractalNode, NodeView};
use crate::models::node_same_except_contexts;
use crate::models::{StorageStats, StatsView, stats_same_static, str_views};
use crate::seq_util::{lemma_filter_push, lemma_filter_remove_count, lemma_filter_take_all, lemma_filter_take_step, lemma_filter_update_count};
use crate::seq_util::{seq_flat, lemma_seq_flat_take_step, lemma_seq_flat_take_all};
use crate::seq_util::{seq_sum, lemma_seq_sum_take_step, lemma_seq_sum_take_all, lemma_seq_sum_nonneg};
use vstd::string::StrSliceExecFns;
use crate::support::now_millis;

verus! {

/// Errors a store operation can signal. No operation that signals one
/// leaves the store changed.
#[derive(Clone, Copy, Debug, PartialEq, Eq, Structural)]
pub enum StoreError {
    /// The requested identifier has no matching entry.
    NotFound,
    /// Expansion was requested on a node that is not a base node.
    InvalidExpansionTarget,
    /// The request itself is malformed, e.g. an unknown context family.
    BadRequest,
}

/// What an appended contribution is acknowledged with: the ledger key,
/// the content hash recomputed from the content at append time, and the
/// fields the caller most often echoes.
#[derive(Debug)]
pub struct Receipt {
    pub id: String,
    pub content_hash: String,
    pub node_id: String,
    pub resonance: u32,
    pub timestamp: i64,
}

/// The mathematical value of a receipt.
#[verifier::ext_equal]
pub struct ReceiptView {
    pub id: Seq<char>,
    pub content_hash: Seq<char>,
    pub node_id: Seq<char>,
    pub resonance: u32,
    pub timestamp: i64,
}

impl View for Receipt {
    type V = ReceiptView;

    open spec fn view(&self) -> ReceiptView {
        ReceiptView {
            id: self.id@,
            content_hash: self.content_hash@,
            node_id: self.node_id@,
            resonance: self.resonance,
            timestamp: self.timestamp,
        }
    }
}

/// A base node's expansion, grouped by context family. Hybrid contexts
/// are replicated into every group.
#[derive(Debug)]
pub struct ExpansionResult {
    pub base_node: FractalNode,
    pub scientific: Vec<ContextType>,
    pub symbolic: Vec<ContextType>,
    pub water: Vec<ContextType>,
    pub total_contexts: usize,
}

/// The mathematical value of an expansion view.
#[verifier::ext_equal]
pub struct ExpansionResultView {
    pub base_node: NodeView,
    pub scientific: Seq<CtxView>,
    pub symbolic: Seq<CtxView>,
    pub water: Seq<CtxView>,
    pub total_contexts: usize,
}

impl View for ExpansionResult {
    type V = ExpansionResultView;

    open spec fn view(&self) -> ExpansionResultView {
        ExpansionResultView {
            base_node: self.base_node@,
            scientific: crate::contexts::ctx_views(self.scientific@),
            symbolic: crate::contexts::ctx_views(self.symbolic@),
            water: crate::contexts::ctx_views(self.water@),
            total_contexts: self.total_contexts,
        }
    }
}

/// One entry of the context index: a context value and the identifiers of
/// the nodes carrying it, in the order they were indexed.
#[derive(Debug)]
pub struct ContextEntry {
    pub context: ContextType,
    pub node_ids: Vec<String>,
}

/// The mathematical value of an index entry.
#[verifier::ext_equal]
pub struct EntryView {
    pub context: CtxView,
    pub node_ids: Seq<Seq<char>>,
}

impl View for ContextEntry {
    type V = EntryView;

    open spec fn view(&self) -> EntryView {
        EntryView { context: self.context@, node_ids: str_views(self.node_ids@) }
    }
}

/// The views of a sequence of nodes.
pub open spec fn node_views(s: Seq<FractalNode>) -> Seq<NodeView> {
    s.map_values(|n: FractalNode| n@)
}

/// The views of a sequence of contributions.
pub open spec fn contrib_views(s: Seq<Contribution>) -> Seq<ContributionView> {
    s.map_values(|c: Contribution| c@)
}

/// The views of a sequence of index entries.
pub open spec fn entry_views(s: Seq<ContextEntry>) -> Seq<EntryView> {
    s.map_values(|e: ContextEntry| e@)
}

/// The mathematical value of the whole store.
#[verifier::ext_equal]
pub struct StoreView {
    pub nodes: Seq<NodeView>,
    pub contributions: Seq<ContributionView>,
    pub index: Seq<EntryView>,
    pub stats: StatsView,
    pub config: StorageConfigView,
}

/// The position of the first node with the given identifier, or -1.
pub open spec fn id_pos(nodes: Seq<NodeView>, id: Seq<char>) -> int
    decreases nodes.len(),
{
    if nodes.len() == 0 {
        -1
    } else if nodes[0].id == id {
        0
    } else {
        let p = id_pos(nodes.drop_first(), id);
        if p == -1 {
            -1
        } else {
            p + 1
        }
    }
}

/// Whether some node carries the given identifier.
pub open spec fn has_node_id(nodes: Seq<NodeView>, id: Seq<char>) -> bool {
    id_pos(nodes, id) >= 0
}

/// The first node with the given identifier, if any.
pub open spec fn find_node(nodes: Seq<NodeView>, id: Seq<char>) -> Option<NodeView> {
    if has_node_id(nodes, id) {
        Some(nodes[id_pos(nodes, id)])
    } else {
        None
    }
}

/// What `id_pos` returns: -1 exactly when no node matches, else the first
/// matching position.
pub proof fn lemma_id_pos_props(nodes: Seq<NodeView>, id: Seq<char>)
    ensures
        id_pos(nodes, id) == -1 || (0 <= id_pos(nodes, id) < nodes.len()),
        id_pos(nodes, id) == -1 ==> forall|j: int|
            0 <= j < nodes.len() ==> (#[trigger] nodes[j]).id != id,
        id_pos(nodes, id) >= 0 ==> nodes[id_pos(nodes, id)].id == id && forall|j: int|
            0 <= j < id_pos(nodes, id) ==> (#[trigger] nodes[j]).id != id,
    decreases nodes.len(),
{
    if nodes.len() == 0 {
    } else if nodes[0].id == id {
    } else {
        let rest = nodes.drop_first();
        lemma_id_pos_props(rest, id);
        let p = id_pos(nodes, id);
        if p == -1 {
            assert forall|j: int| 0 <= j < nodes.len() implies (#[trigger] nodes[j]).id != id by {
                if j > 0 {
                    assert(rest[j - 1] == nodes[j]);
                }
            }
        } else {
            assert(rest[p - 1] == nodes[p]);
            assert forall|j: int| 0 <= j < p implies (#[trigger] nodes[j]).id != id by {
                if j > 0 {
                    assert(rest[j - 1] == nodes[j]);
                }
            }
        }
    }
}

/// The position of the first index entry for the given context, or -1.
pub open spec fn entry_pos(index: Seq<EntryView>, c: CtxView) -> int
    decreases index.len(),
{
    if index.len() == 0 {
        -1
    } else if index[0].context == c {
        0
    } else {
        let p = entry_pos(index.drop_first(), c);
        if p == -1 {
            -1
        } else {
            p + 1
        }
    }
}

/// What `entry_pos` returns: -1 exactly when no entry matches, else the
/// first matching position.
pub proof fn lemma_entry_pos_props(index: Seq<EntryView>, c: CtxView)
    ensures
        entry_pos(index, c) == -1 || (0 <= entry_pos(index, c) < index.len()),
        entry_pos(index, c) == -1 ==> forall|j: int|
            0 <= j < index.len() ==> (#[trigger] index[j]).context != c,
        entry_pos(index, c) >= 0 ==> index[entry_pos(index, c)].context == c && forall|j: int|
            0 <= j < entry_pos(index, c) ==> (#[trigger] index[j]).context != c,
    decreases index.len(),
{
    if index.len() == 0 {
    } else if index[0].context == c {
    } else {
        let rest = index.drop_first();
        lemma_entry_pos_props(rest, c);
        let p = entry_pos(index, c);
        if p == -1 {
            assert forall|j: int| 0 <= j < index.len() implies (#[trigger] index[j]).context
                != c by {
                if j > 0 {
                    assert(rest[j - 1] == index[j]);
                }
            }
        } else {
            assert(rest[p - 1] == index[p]);
            assert forall|j: int| 0 <= j < p implies (#[trigger] index[j]).context != c by {
                if j > 0 {
                    assert(rest[j - 1] == index[j]);
                }
            }
        }
    }
}

/// Two indices with the same context at every position agree on every
/// entry position.
pub proof fn lemma_entry_pos_same_keys(a: Seq<EntryView>, b: Seq<EntryView>, c: CtxView)
    requires
        a.len() == b.len(),
        forall|k: int| 0 <= k < a.len() ==> (#[trigger] a[k]).context == b[k].context,
    ensures
        entry_pos(a, c) == entry_pos(b, c),
    decreases a.len(),
{
    if a.len() == 0 {
    } else {
        let ra = a.drop_first();
        let rb = b.drop_first();
        assert(forall|k: int| 0 <= k < ra.len() ==> (#[trigger] ra[k]) == a[k + 1]);
        assert(forall|k: int| 0 <= k < rb.len() ==> (#[trigger] rb[k]) == b[k + 1]);
        lemma_entry_pos_same_keys(ra, rb, c);
    }
}

/// The node identifiers indexed under a context; an absent context yields
/// the empty sequence.
pub open spec fn index_lookup(index: Seq<EntryView>, c: CtxView) -> Seq<Seq<char>> {
    if entry_pos(index, c) >= 0 {
        index[entry_pos(index, c)].node_ids
    } else {
        Seq::empty()
    }
}

/// The index after recording that the node with identifier `id` carries
/// context `c`: the entry for `c` grows at the end, or is created.
pub open spec fn index_add(index: Seq<EntryView>, c: CtxView, id: Seq<char>) -> Seq<EntryView> {
    let p = entry_pos(index, c);
    if p >= 0 {
        index.update(p, EntryView { context: c, node_ids: index[p].node_ids.push(id) })
    } else {
        index.push(EntryView { context: c, node_ids: seq![id] })
    }
}

/// The index after recording one node under each context of `cs`, in
/// order.
pub open spec fn index_add_all(index: Seq<EntryView>, cs: Seq<CtxView>, id: Seq<char>) -> Seq<
    EntryView,
>
    decreases cs.len(),
{
    if cs.len() == 0 {
        index
    } else {
        index_add_all(index_add(index, cs[0], id), cs.drop_first(), id)
    }
}

/// Recording under one more context is one more single-context step.
proof fn lemma_index_add_all_snoc(index: Seq<EntryView>, cs: Seq<CtxView>, c: CtxView, id: Seq<char>)
    ensures
        index_add_all(index, cs.push(c), id) == index_add(index_add_all(index, cs, id), c, id),
    decreases cs.len(),
{
    if cs.len() == 0 {
        assert(cs.push(c)[0] == c);
        assert(cs.push(c).drop_first() =~= Seq::<CtxView>::empty());
        assert(index_add_all(index, cs.push(c), id) == index_add_all(
            index_add(index, c, id),
            Seq::<CtxView>::empty(),
            id,
        ));
        assert(index_add_all(index_add(index, c, id), Seq::<CtxView>::empty(), id) == index_add(
            index,
            c,
            id,
        ));
        assert(index_add_all(index, cs, id) == index);
    } else {
        assert(cs.push(c)[0] == cs[0]);
        assert(cs.push(c).drop_first() =~= cs.drop_first().push(c));
        lemma_index_add_all_snoc(index_add(index, cs[0], id), cs.drop_first(), c, id);
        assert(index_add_all(index, cs.push(c), id) == index_add_all(
            index_add(index, cs[0], id),
            cs.drop_first().push(c),
            id,
        ));
        assert(index_add_all(index, cs, id) == index_add_all(
            index_add(index, cs[0], id),
            cs.drop_first(),
            id,
        ));
    }
}

/// No two nodes of the table share an identifier.
pub open spec fn node_ids_distinct(nodes: Seq<NodeView>) -> bool {
    forall|i: int, j: int|
        0 <= i < j < nodes.len() ==> (#[trigger] nodes[i]).id != (#[trigger] nodes[j]).id
}

/// No two index entries share a context.
pub open spec fn index_keys_distinct(index: Seq<EntryView>) -> bool {
    forall|i: int, j: int|
        0 <= i < j < index.len() ==> (#[trigger] index[i]).context != (#[trigger] index[j]).context
}

/// How many nodes of the table sit at level 1.
pub open spec fn level1_count(nodes: Seq<NodeView>) -> int {
    nodes.filter(|n: NodeView| n.fractal_level == 1).len() as int
}

/// How many nodes of the table sit away from level 1.
pub open spec fn sublevel_count(nodes: Seq<NodeView>) -> int {
    nodes.filter(|n: NodeView| n.fractal_level != 1).len() as int
}

/// The statistics counters agree with a full recount of the tables.
pub open spec fn stats_counters_match(s: StoreView) -> bool {
    &&& s.stats.total_nodes == level1_count(s.nodes)
    &&& s.stats.total_subnodes == sublevel_count(s.nodes)
    &&& s.stats.total_contributions == s.contributions.len()
}

/// Well-formedness of the store: unique node identifiers, unique index
/// keys, and statistics counters that agree with the tables. Constructors
/// establish it; every operation preserves it.
pub open spec fn store_wf(s: StoreView) -> bool {
    &&& node_ids_distinct(s.nodes)
    &&& index_keys_distinct(s.index)
    &&& stats_counters_match(s)
}

/// The context index agrees with the node table: a context carried by a
/// node is indexed to it, and an indexed identifier names a node of the
/// table carrying that context.
pub open spec fn index_consistent(s: StoreView) -> bool {
    &&& forall|i: int, c: CtxView|
        0 <= i < s.nodes.len() && #[trigger] s.nodes[i].contexts.contains(c) ==> index_lookup(
            s.index,
            c,
        ).contains(s.nodes[i].id)
    &&& forall|j: int, k: int|
        0 <= j < s.index.len() && 0 <= k < s.index[j].node_ids.len() ==> {
            let p = id_pos(s.nodes, #[trigger] s.index[j].node_ids[k]);
            p >= 0 && s.nodes[p].contexts.contains(s.index[j].context)
        }
}

/// Adding one identifier under one context: the entry for that context
/// grows by the identifier, every other entry stays, and key uniqueness
/// is kept.
pub proof fn lemma_index_add_props(index: Seq<EntryView>, c: CtxView, id: Seq<char>)
    requires
        index_keys_distinct(index),
    ensures
        index_keys_distinct(index_add(index, c, id)),
        index_lookup(index_add(index, c, id), c) == index_lookup(index, c).push(id),
        forall|c2: CtxView|
            c2 != c ==> #[trigger] index_lookup(index_add(index, c, id), c2) == index_lookup(
                index,
                c2,
            ),
        entry_pos(index, c) >= 0 ==> index_add(index, c, id).len() == index.len(),
        entry_pos(index, c) == -1 ==> index_add(index, c, id).len() == index.len() + 1,
        forall|k: int|
            0 <= k < index_add(index, c, id).len() ==> (#[trigger] index_add(index, c, id)[k]).context
                == (if k < index.len() {
                index[k].context
            } else {
                c
            }),
{
    let p = entry_pos(index, c);
    lemma_entry_pos_props(index, c);
    let new = index_add(index, c, id);
    if p >= 0 {
        assert(forall|k: int| 0 <= k < new.len() ==> (#[trigger] new[k]).context == index[k].context);
        lemma_entry_pos_same_keys(new, index, c);
        assert(index_lookup(new, c) == index[p].node_ids.push(id));
        assert forall|c2: CtxView| c2 != c implies #[trigger] index_lookup(new, c2) == index_lookup(
            index,
            c2,
        ) by {
            lemma_entry_pos_same_keys(new, index, c2);
            lemma_entry_pos_props(index, c2);
            let q = entry_pos(index, c2);
            if q >= 0 {
                assert(index[q].context == c2);
                assert(q != p);
            }
        }
    } else {
        let e = EntryView { context: c, node_ids: seq![id] };
        assert(new == index.push(e));
        lemma_entry_pos_props(new, c);
        let q = entry_pos(new, c);
        assert(new[index.len() as int].context == c);
        assert(q != -1);
        assert(forall|k: int| 0 <= k < index.len() ==> (#[trigger] new[k]) == index[k]);
        assert(q == index.len());
        assert(index_lookup(new, c) == seq![id]);
        assert(index_lookup(index, c) =~= Seq::<Seq<char>>::empty());
        assert(index_lookup(new, c) =~= index_lookup(index, c).push(id));
        assert forall|c2: CtxView| c2 != c implies #[trigger] index_lookup(new, c2) == index_lookup(
            index,
            c2,
        ) by {
            lemma_entry_pos_props(index, c2);
            lemma_entry_pos_props(new, c2);
            let q1 = entry_pos(index, c2);
            let q2 = entry_pos(new, c2);
            if q1 >= 0 {
                assert(new[q1].context == c2);
                assert(q2 != -1);
                assert(q2 < new.len());
                if q2 < q1 {
                    assert(new[q2].context == index[q2].context);
                    assert(false);
                }
                if q2 > q1 {
                    assert(new[q1].context != c2);
                    assert(false);
                }
                assert(new[q2].node_ids == index[q1].node_ids);
            } else {
                if q2 >= 0 {
                    assert(new[q2].context == c2);
                    if q2 < index.len() {
                        assert(index[q2].context == c2);
                        assert(false);
                    }
                    assert(q2 == index.len());
                    assert(new[q2].context == c);
                    assert(false);
                }
            }
        }
    }
}

/// Pushing a node commutes with taking views.
proof fn lemma_node_views_push(v: Seq<FractalNode>, n: FractalNode)
    ensures
        node_views(v.push(n)) == node_views(v).push(n@),
{
    assert forall|j: int| 0 <= j < v.len() + 1 implies node_views(v.push(n))[j] == node_views(
        v,
    ).push(n@)[j] by {
        if j < v.len() {
            assert(v.push(n)[j] == v[j]);
        }
    }
    assert(node_views(v.push(n)) =~= node_views(v).push(n@));
}

/// Overwriting one node commutes with taking views.
proof fn lemma_node_views_update(v: Seq<FractalNode>, i: int, n: FractalNode)
    requires
        0 <= i < v.len(),
    ensures
        node_views(v.update(i, n)) == node_views(v).update(i, n@),
{
    assert forall|j: int| 0 <= j < v.len() implies node_views(v.update(i, n))[j] == node_views(
        v,
    ).update(i, n@)[j] by {
        if j != i {
            assert(v.update(i, n)[j] == v[j]);
        }
    }
    assert(node_views(v.update(i, n)) =~= node_views(v).update(i, n@));
}

/// Removing one node commutes with taking views.
proof fn lemma_node_views_remove(v: Seq<FractalNode>, i: int)
    requires
        0 <= i < v.len(),
    ensures
        node_views(v.remove(i)) == node_views(v).remove(i),
{
    assert forall|j: int| 0 <= j < v.len() - 1 implies node_views(v.remove(i))[j] == node_views(
        v,
    ).remove(i)[j] by {
        if j < i {
            assert(v.remove(i)[j] == v[j]);
            assert(node_views(v).remove(i)[j] == node_views(v)[j]);
        } else {
            assert(v.remove(i)[j] == v[j + 1]);
            assert(node_views(v).remove(i)[j] == node_views(v)[j + 1]);
        }
    }
    assert(node_views(v.remove(i)) =~= node_views(v).remove(i));
}

/// Pushing a contribution commutes with taking views.
proof fn lemma_contrib_views_push(v: Seq<Contribution>, c: Contribution)
    ensures
        contrib_views(v.push(c)) == contrib_views(v).push(c@),
{
    assert forall|j: int| 0 <= j < v.len() + 1 implies contrib_views(v.push(c))[j]
        == contrib_views(v).push(c@)[j] by {
        if j < v.len() {
            assert(v.push(c)[j] == v[j]);
        }
    }
    assert(contrib_views(v.push(c)) =~= contrib_views(v).push(c@));
}

/// Pushing an index entry commutes with taking views.
proof fn lemma_entry_views_push(v: Seq<ContextEntry>, e: ContextEntry)
    ensures
        entry_views(v.push(e)) == entry_views(v).push(e@),
{
    assert forall|j: int| 0 <= j < v.len() + 1 implies entry_views(v.push(e))[j] == entry_views(
        v,
    ).push(e@)[j] by {
        if j < v.len() {
            assert(v.push(e)[j] == v[j]);
        }
    }
    assert(entry_views(v.push(e)) =~= entry_views(v).push(e@));
}

/// Removing an index entry commutes with taking views.
proof fn lemma_entry_views_remove(v: Seq<ContextEntry>, i: int)
    requires
        0 <= i < v.len(),
    ensures
        entry_views(v.remove(i)) == entry_views(v).remove(i),
{
    assert forall|j: int| 0 <= j < v.len() - 1 implies entry_views(v.remove(i))[j] == entry_views(
        v,
    ).remove(i)[j] by {
        if j < i {
            assert(v.remove(i)[j] == v[j]);
            assert(entry_views(v).remove(i)[j] == entry_views(v)[j]);
        } else {
            assert(v.remove(i)[j] == v[j + 1]);
            assert(entry_views(v).remove(i)[j] == entry_views(v)[j + 1]);
        }
    }
    assert(entry_views(v.remove(i)) =~= entry_views(v).remove(i));
}

/// Inserting an index entry commutes with taking views.
proof fn lemma_entry_views_insert(v: Seq<ContextEntry>, i: int, e: ContextEntry)
    requires
        0 <= i <= v.len(),
    ensures
        entry_views(v.insert(i, e)) == entry_views(v).insert(i, e@),
{
    assert forall|j: int| 0 <= j < v.len() + 1 implies entry_views(v.insert(i, e))[j]
        == entry_views(v).insert(i, e@)[j] by {
        if j < i {
            assert(v.insert(i, e)[j] == v[j]);
            assert(entry_views(v).insert(i, e@)[j] == entry_views(v)[j]);
        } else if j == i {
            assert(v.insert(i, e)[j] == e);
            assert(entry_views(v).insert(i, e@)[j] == e@);
        } else {
            assert(v.insert(i, e)[j] == v[j - 1]);
            assert(entry_views(v).insert(i, e@)[j] == entry_views(v)[j - 1]);
        }
    }
    assert(entry_views(v.insert(i, e)) =~= entry_views(v).insert(i, e@));
}

/// Pushing a string commutes with taking views.
proof fn lemma_str_views_push(v: Seq<String>, x: String)
    ensures
        str_views(v.push(x)) == str_views(v).push(x@),
{
    assert forall|j: int| 0 <= j < v.len() + 1 implies str_views(v.push(x))[j] == str_views(
        v,
    ).push(x@)[j] by {
        if j < v.len() {
            assert(v.push(x)[j] == v[j]);
        }
    }
    assert(str_views(v.push(x)) =~= str_views(v).push(x@));
}

/// The position of the first contribution whose content hashes to `h`,
/// or -1.
pub open spec fn hash_pos(cs: Seq<ContributionView>, h: Seq<char>) -> int
    decreases cs.len(),
{
    if cs.len() == 0 {
        -1
    } else if content_hash_of(cs[0].content) == h {
        0
    } else {
        let p = hash_pos(cs.drop_first(), h);
        if p == -1 {
            -1
        } else {
            p + 1
        }
    }
}

/// What `hash_pos` returns: -1 exactly when no contribution's content
/// hashes to `h`, else the first matching position.
pub proof fn lemma_hash_pos_props(cs: Seq<ContributionView>, h: Seq<char>)
    ensures
        hash_pos(cs, h) == -1 || (0 <= hash_pos(cs, h) < cs.len()),
        hash_pos(cs, h) == -1 ==> forall|j: int|
            0 <= j < cs.len() ==> content_hash_of((#[trigger] cs[j]).content) != h,
        hash_pos(cs, h) >= 0 ==> content_hash_of(cs[hash_pos(cs, h)].content) == h && forall|j: int|
            0 <= j < hash_pos(cs, h) ==> content_hash_of((#[trigger] cs[j]).content) != h,
    decreases cs.len(),
{
    if cs.len() == 0 {
    } else if content_hash_of(cs[0].content) == h {
    } else {
        let rest = cs.drop_first();
        lemma_hash_pos_props(rest, h);
        let p = hash_pos(cs, h);
        if p == -1 {
            assert forall|j: int| 0 <= j < cs.len() implies content_hash_of(
                (#[trigger] cs[j]).content,
            ) != h by {
                if j > 0 {
                    assert(rest[j - 1] == cs[j]);
                }
            }
        } else {
            assert(rest[p - 1] == cs[p]);
            assert forall|j: int| 0 <= j < p implies content_hash_of((#[trigger] cs[j]).content)
                != h by {
                if j > 0 {
                    assert(rest[j - 1] == cs[j]);
                }
            }
        }
    }
}

/// A successful expansion of one node: the canonical taxonomy is
/// appended to its context list, everything else about it stays.
pub open spec fn node_expanded(pre: NodeView, post: NodeView) -> bool {
    &&& post.contexts == pre.contexts + canonical_context_views()
    &&& node_same_except_contexts(pre, post)
}

/// A successful expansion of the store at node position `p`: that node is
/// expanded, its identifier is recorded in the index under every
/// canonical context, and nothing else moves.
pub open spec fn expand_transition(pre: StoreView, post: StoreView, p: int) -> bool {
    &&& 0 <= p < pre.nodes.len()
    &&& pre.nodes[p].fractal_level == 1
    &&& post.nodes.len() == pre.nodes.len()
    &&& node_expanded(pre.nodes[p], post.nodes[p])
    &&& forall|j: int| 0 <= j < pre.nodes.len() && j != p ==> post.nodes[j] == pre.nodes[j]
    &&& post.index == index_add_all(pre.index, canonical_context_views(), pre.nodes[p].id)
    &&& post.contributions == pre.contributions
    &&& post.config == pre.config
    &&& post.stats == pre.stats
}

/// Inserting a node commutes with taking views.
proof fn lemma_node_views_insert(v: Seq<FractalNode>, i: int, n: FractalNode)
    requires
        0 <= i <= v.len(),
    ensures
        node_views(v.insert(i, n)) == node_views(v).insert(i, n@),
{
    assert forall|j: int| 0 <= j < v.len() + 1 implies node_views(v.insert(i, n))[j] == node_views(
        v,
    ).insert(i, n@)[j] by {
        if j < i {
            assert(v.insert(i, n)[j] == v[j]);
            assert(node_views(v).insert(i, n@)[j] == node_views(v)[j]);
        } else if j == i {
            assert(v.insert(i, n)[j] == n);
            assert(node_views(v).insert(i, n@)[j] == n@);
        } else {
            assert(v.insert(i, n)[j] == v[j - 1]);
            assert(node_views(v).insert(i, n@)[j] == node_views(v)[j - 1]);
        }
    }
    assert(node_views(v.insert(i, n)) =~= node_views(v).insert(i, n@));
}

spec fn ctx_tag(c: CtxView) -> int {
    match c {
        CtxView::Scientific(ScientificContext::Empirical) => 0,
        CtxView::Scientific(ScientificContext::Theoretical) => 1,
        CtxView::Scientific(ScientificContext::Experimental) => 2,
        CtxView::Symbolic(SymbolicContext::Archetypal) => 3,
        CtxView::Symbolic(SymbolicContext::Cultural) => 4,
        CtxView::Symbolic(SymbolicContext::Personal) => 5,
        CtxView::Water(WaterContext::Phase) => 6,
        CtxView::Water(WaterContext::Flow) => 7,
        CtxView::Water(WaterContext::Coherence) => 8,
        CtxView::Hybrid(_) => 9,
    }
}

/// The canonical taxonomy lists nine pairwise distinct context values.
pub proof fn lemma_canonical_distinct()
    ensures
        canonical_context_views().len() == 9,
        forall|a: int, b: int|
            0 <= a < b < 9 ==> canonical_context_views()[a] != canonical_context_views()[b],
{
    assert forall|j: int| 0 <= j < 9 implies ctx_tag(#[trigger] canonical_context_views()[j])
        == j by {}
    assert forall|a: int, b: int| 0 <= a < b < 9 implies canonical_context_views()[a]
        != canonical_context_views()[b] by {
        assert(ctx_tag(canonical_context_views()[a]) == a);
        assert(ctx_tag(canonical_context_views()[b]) == b);
    }
}

/// Recording one identifier under a pairwise-distinct key sequence, when
/// the index's keys line up with a prefix of those keys (or all of them):
/// each listed key's entry grows by the identifier (or is created), in
/// key order.
proof fn lemma_index_add_all_aligned(
    index: Seq<EntryView>,
    full: Seq<CtxView>,
    id: Seq<char>,
    m: int,
)
    requires
        forall|a: int, b: int| 0 <= a < b < full.len() ==> full[a] != full[b],
        0 <= m <= full.len(),
        index.len() == m || index.len() == full.len(),
        forall|j: int| 0 <= j < index.len() ==> (#[trigger] index[j]).context == full[j],
    ensures
        index_add_all(index, full.skip(m), id).len() == full.len(),
        forall|j: int|
            0 <= j < full.len() ==> (#[trigger] index_add_all(index, full.skip(m), id)[j]).context
                == full[j],
        forall|j: int|
            0 <= j < m ==> (#[trigger] index_add_all(index, full.skip(m), id)[j]).node_ids
                == index[j].node_ids,
        forall|j: int|
            m <= j < full.len() ==> (#[trigger] index_add_all(index, full.skip(m), id)[j]).node_ids
                == (if j < index.len() {
                index[j].node_ids.push(id)
            } else {
                seq![id]
            }),
    decreases full.len() - m,
{
    let cs = full.skip(m);
    if m == full.len() {
        assert(cs.len() == 0);
        assert(index.len() == full.len());
    } else {
        assert(cs[0] == full[m]);
        lemma_entry_pos_props(index, full[m]);
        let q = entry_pos(index, full[m]);
        let mid = index_add(index, full[m], id);
        if index.len() == full.len() {
            assert(q >= 0) by {
                if q == -1 {
                    assert(index[m].context == full[m]);
                }
            }
            assert(index[q].context == full[q]);
            assert(full[q] == full[m]);
            assert(q == m) by {
                if q < m {
                    assert(full[q] != full[m]);
                }
                if q > m {
                    assert(full[m] != full[q]);
                }
            }
            assert(mid == index.update(
                m,
                EntryView { context: full[m], node_ids: index[m].node_ids.push(id) },
            ));
            assert(forall|j: int| 0 <= j < mid.len() ==> (#[trigger] mid[j]).context == full[j]);
            assert(cs.drop_first() =~= full.skip(m + 1));
            lemma_index_add_all_aligned(mid, full, id, m + 1);
            assert(index_add_all(index, cs, id) == index_add_all(mid, full.skip(m + 1), id));
        } else {
            assert(index.len() == m);
            assert(q == -1) by {
                if q >= 0 {
                    assert(index[q].context == full[q]);
                    assert(full[q] != full[m]);
                }
            }
            let e = EntryView { context: full[m], node_ids: seq![id] };
            assert(mid == index.push(e));
            assert(forall|j: int| 0 <= j < mid.len() ==> (#[trigger] mid[j]).context == full[j]);
            assert(cs.drop_first() =~= full.skip(m + 1));
            lemma_index_add_all_aligned(mid, full, id, m + 1);
            assert(index_add_all(index, cs, id) == index_add_all(mid, full.skip(m + 1), id));
        }
    }
}

/// How many seed nodes initialization installs.
pub open spec fn seed_count() -> int {
    12
}

/// The identifier of the `i`-th seed node.
pub open spec fn seed_id(i: int) -> Seq<char> {
    if i == 0 {
        "codex:Void"@
    } else if i == 1 {
        "codex:Field"@
    } else if i == 2 {
        "codex:Pattern"@
    } else if i == 3 {
        "codex:Flow"@
    } else if i == 4 {
        "codex:Coherence"@
    } else if i == 5 {
        "codex:Resonance"@
    } else if i == 6 {
        "codex:Transformation"@
    } else if i == 7 {
        "codex:Integration"@
    } else if i == 8 {
        "codex:Emergence"@
    } else if i == 9 {
        "codex:Wisdom"@
    } else if i == 10 {
        "codex:Consciousness"@
    } else {
        "codex:Breath"@
    }
}

/// The display name of the `i`-th seed node.
pub open spec fn seed_name(i: int) -> Seq<char> {
    if i == 0 {
        "Void"@
    } else if i == 1 {
        "Field"@
    } else if i == 2 {
        "Pattern"@
    } else if i == 3 {
        "Flow"@
    } else if i == 4 {
        "Coherence"@
    } else if i == 5 {
        "Resonance"@
    } else if i == 6 {
        "Transformation"@
    } else if i == 7 {
        "Integration"@
    } else if i == 8 {
        "Emergence"@
    } else if i == 9 {
        "Wisdom"@
    } else if i == 10 {
        "Consciousness"@
    } else {
        "Breath"@
    }
}

/// The water state of the `i`-th seed node.
pub open spec fn seed_state(i: int) -> FlowState {
    if i == 0 {
        FlowState::Plasma
    } else if i == 1 {
        FlowState::Gas
    } else if i == 2 {
        FlowState::Crystalline
    } else if i == 3 {
        FlowState::Liquid
    } else if i == 4 {
        FlowState::Crystalline
    } else if i == 5 {
        FlowState::Wave
    } else if i == 6 {
        FlowState::Colloidal
    } else if i == 7 {
        FlowState::Colloidal
    } else if i == 8 {
        FlowState::Living
    } else if i == 9 {
        FlowState::Living
    } else if i == 10 {
        FlowState::Living
    } else {
        FlowState::Gas
    }
}

/// The resonance, in thousandths, of the `i`-th seed node.
pub open spec fn seed_resonance(i: int) -> u32 {
    if i == 0 {
        1000u32
    } else if i == 1 {
        800u32
    } else if i == 2 {
        900u32
    } else if i == 3 {
        850u32
    } else if i == 4 {
        950u32
    } else if i == 5 {
        880u32
    } else if i == 6 {
        820u32
    } else if i == 7 {
        870u32
    } else if i == 8 {
        830u32
    } else if i == 9 {
        920u32
    } else if i == 10 {
        960u32
    } else {
        780u32
    }
}

/// The archetype tags of the `i`-th seed node.
pub open spec fn seed_archetype(i: int) -> Seq<Seq<char>> {
    if i == 0 {
        seq!["Potential"@, "Infinite"@, "Source"@]
    } else if i == 1 {
        seq!["Connectivity"@, "Information"@, "Flow"@]
    } else if i == 2 {
        seq!["Form"@, "Rhythm"@, "Order"@]
    } else if i == 3 {
        seq!["Movement"@, "Change"@, "Process"@]
    } else if i == 4 {
        seq!["Alignment"@, "Resonance"@, "Unity"@]
    } else if i == 5 {
        seq!["Vibration"@, "Harmony"@, "Sync"@]
    } else if i == 6 {
        seq!["Change"@, "Evolution"@, "Metamorphosis"@]
    } else if i == 7 {
        seq!["Unity"@, "Wholeness"@, "Synthesis"@]
    } else if i == 8 {
        seq!["Novelty"@, "Spontaneity"@, "Creation"@]
    } else if i == 9 {
        seq!["Knowledge"@, "Understanding"@, "Insight"@]
    } else if i == 10 {
        seq!["Awareness"@, "Experience"@, "Presence"@]
    } else {
        seq!["Life"@, "Energy"@, "Spirit"@]
    }
}

/// A node as initialization installs it: the `i`-th seed, expanded across
/// the whole taxonomy. Timestamps are left open.
pub open spec fn matches_seed(n: NodeView, i: int) -> bool {
    &&& n.id == seed_id(i)
    &&& n.name == seed_name(i)
    &&& n.water_state == seed_state(i)
    &&& n.archetype == seed_archetype(i)
    &&& n.resonance == seed_resonance(i)
    &&& n.fractal_level == 1
    &&& n.parent_id is None
    &&& n.contexts == canonical_context_views()
}

/// A node as it looks before expansion: the `i`-th seed with no contexts.
spec fn bare_seed(n: NodeView, i: int) -> bool {
    &&& n.id == seed_id(i)
    &&& n.name == seed_name(i)
    &&& n.water_state == seed_state(i)
    &&& n.archetype == seed_archetype(i)
    &&& n.resonance == seed_resonance(i)
    &&& n.fractal_level == 1
    &&& n.parent_id is None
    &&& n.contexts == Seq::<CtxView>::empty()
}

/// The seed identifiers in installation order.
pub open spec fn seed_ids() -> Seq<Seq<char>> {
    Seq::new(seed_count() as nat, |i: int| seed_id(i))
}

/// The seed identifiers are pairwise distinct.
pub proof fn lemma_seed_ids_distinct()
    ensures
        forall|a: int, b: int| 0 <= a < b < seed_count() ==> seed_id(a) != seed_id(b),
{
    reveal_strlit("codex:Void");
    reveal_strlit("codex:Field");
    reveal_strlit("codex:Pattern");
    reveal_strlit("codex:Flow");
    reveal_strlit("codex:Coherence");
    reveal_strlit("codex:Resonance");
    reveal_strlit("codex:Transformation");
    reveal_strlit("codex:Integration");
    reveal_strlit("codex:Emergence");
    reveal_strlit("codex:Wisdom");
    reveal_strlit("codex:Consciousness");
    reveal_strlit("codex:Breath");
    assert("codex:Void"@.len() == 10);
    assert("codex:Field"@.len() == 11);
    assert("codex:Pattern"@.len() == 13);
    assert("codex:Flow"@.len() == 10);
    assert("codex:Coherence"@.len() == 15);
    assert("codex:Resonance"@.len() == 15);
    assert("codex:Transformation"@.len() == 20);
    assert("codex:Integration"@.len() == 17);
    assert("codex:Emergence"@.len() == 15);
    assert("codex:Wisdom"@.len() == 12);
    assert("codex:Consciousness"@.len() == 19);
    assert("codex:Breath"@.len() == 12);
    assert("codex:Void"@[6] == 'V');
    assert("codex:Flow"@[6] == 'F');
    assert("codex:Coherence"@[6] == 'C');
    assert("codex:Resonance"@[6] == 'R');
    assert("codex:Emergence"@[6] == 'E');
    assert("codex:Wisdom"@[6] == 'W');
    assert("codex:Breath"@[6] == 'B');
}

/// The table and index exactly as they stand after the first `k` seeds
/// have been installed into a store that began as `base`.
spec fn partially_seeded(s: StoreView, base: StoreView, k: int) -> bool {
    &&& s.nodes.len() == k
    &&& forall|i: int| 0 <= i < k ==> matches_seed(#[trigger] s.nodes[i], i)
    &&& s.index.len() == (if k == 0 {
        0int
    } else {
        9int
    })
    &&& forall|j: int|
        0 <= j < s.index.len() ==> (#[trigger] s.index[j]).context == canonical_context_views()[j]
            && s.index[j].node_ids == seed_ids().take(k)
    &&& s.contributions == base.contributions
    &&& s.config == base.config
    &&& stats_same_static(base.stats, s.stats)
    &&& s.stats.total_contributions == base.stats.total_contributions
}

/// A store exactly as initialization leaves it: the twelve seed nodes,
/// each expanded, the index mapping every canonical context to all twelve
/// identifiers, an empty ledger, and counters to match.
pub open spec fn store_seeded(s: StoreView) -> bool {
    &&& s.nodes.len() == seed_count()
    &&& forall|i: int| 0 <= i < seed_count() ==> matches_seed(#[trigger] s.nodes[i], i)
    &&& s.contributions.len() == 0
    &&& s.index.len() == 9
    &&& forall|j: int|
        0 <= j < 9 ==> (#[trigger] s.index[j]).context == canonical_context_views()[j]
            && s.index[j].node_ids == seed_ids()
    &&& s.stats.total_nodes == seed_count()
    &&& s.stats.total_subnodes == 0
    &&& s.stats.total_contributions == 0
    &&& s.stats.version == "3.0.0"@
    &&& s.stats.fractal_level == 2
    &&& s.stats.total_users == 0
    &&& s.stats.total_size == 0
}

/// A table of nodes that all sit at level 1 counts fully toward the
/// level-1 counter.
proof fn lemma_level1_count_all(nodes: Seq<NodeView>)
    requires
        forall|i: int| 0 <= i < nodes.len() ==> (#[trigger] nodes[i]).fractal_level == 1,
    ensures
        level1_count(nodes) == nodes.len(),
        sublevel_count(nodes) == 0,
    decreases nodes.len(),
{
    reveal(Seq::filter);
    if nodes.len() > 0 {
        let rest = nodes.drop_last();
        assert(forall|i: int| 0 <= i < rest.len() ==> (#[trigger] rest[i]) == nodes[i]);
        lemma_level1_count_all(rest);
    }
}

/// With distinct identifiers, a node's position is found by its
/// identifier.
pub proof fn lemma_id_pos_unique(nodes: Seq<NodeView>, i: int)
    requires
        node_ids_distinct(nodes),
        0 <= i < nodes.len(),
    ensures
        id_pos(nodes, nodes[i].id) == i,
{
    lemma_id_pos_props(nodes, nodes[i].id);
    let p = id_pos(nodes, nodes[i].id);
    if p == -1 {
        assert(nodes[i].id != nodes[i].id);
    } else if p < i {
        assert(nodes[p].id != nodes[i].id);
        assert(false);
    } else if p > i {
        assert(nodes[i].id != nodes[i].id);
    }
}

/// Two tables with the same identifier at every position agree on every
/// identifier position.
pub proof fn lemma_id_pos_same_ids(a: Seq<NodeView>, b: Seq<NodeView>, id: Seq<char>)
    requires
        a.len() == b.len(),
        forall|k: int| 0 <= k < a.len() ==> (#[trigger] a[k]).id == b[k].id,
    ensures
        id_pos(a, id) == id_pos(b, id),
    decreases a.len(),
{
    if a.len() == 0 {
    } else {
        let ra = a.drop_first();
        let rb = b.drop_first();
        assert(forall|k: int| 0 <= k < ra.len() ==> (#[trigger] ra[k]) == a[k + 1]);
        assert(forall|k: int| 0 <= k < rb.len() ==> (#[trigger] rb[k]) == b[k + 1]);
        lemma_id_pos_same_ids(ra, rb, id);
    }
}

/// Recording one identifier under each context of a list: every listed
/// context now lists the identifier, no previously indexed identifier is
/// lost, and every indexed identifier either is the new one under a
/// listed context or was already indexed under its entry's context.
pub proof fn lemma_index_add_all_membership(index: Seq<EntryView>, cs: Seq<CtxView>, id: Seq<char>)
    requires
        index_keys_distinct(index),
    ensures
        index_keys_distinct(index_add_all(index, cs, id)),
        forall|c: CtxView|
            cs.contains(c) ==> #[trigger] index_lookup(index_add_all(index, cs, id), c).contains(
                id,
            ),
        forall|c: CtxView, x: Seq<char>|
            #[trigger] index_lookup(index, c).contains(x) ==> index_lookup(
                index_add_all(index, cs, id),
                c,
            ).contains(x),
        forall|k: int, m: int|
            0 <= k < index_add_all(index, cs, id).len() && 0 <= m < index_add_all(
                index,
                cs,
                id,
            )[k].node_ids.len() ==> ((#[trigger] index_add_all(index, cs, id)[k].node_ids[m]) == id
                && cs.contains(index_add_all(index, cs, id)[k].context)) || index_lookup(
                index,
                index_add_all(index, cs, id)[k].context,
            ).contains(index_add_all(index, cs, id)[k].node_ids[m]),
    decreases cs.len(),
{
    if cs.len() == 0 {
        assert(index_add_all(index, cs, id) == index);
        assert forall|k: int, m: int|
            0 <= k < index.len() && 0 <= m < index[k].node_ids.len() implies index_lookup(
            index,
            index[k].context,
        ).contains(#[trigger] index[k].node_ids[m]) by {
            lemma_entry_pos_props(index, index[k].context);
            let q = entry_pos(index, index[k].context);
            if q == -1 {
                assert(index[k].context != index[k].context);
            }
            assert(index[q].context == index[k].context);
            if q < k {
                assert(index[q].context != index[k].context);
                assert(false);
            }
            if q > k {
                assert(index[k].context != index[q].context);
                assert(false);
            }
            assert(index_lookup(index, index[k].context) == index[k].node_ids);
        }
    } else {
        let c0 = cs[0];
        let mid = index_add(index, c0, id);
        lemma_index_add_props(index, c0, id);
        lemma_index_add_all_membership(mid, cs.drop_first(), id);
        let result = index_add_all(index, cs, id);
        assert(result == index_add_all(mid, cs.drop_first(), id));
        assert forall|c: CtxView| cs.contains(c) implies #[trigger] index_lookup(
            result,
            c,
        ).contains(id) by {
            let w = choose|w: int| 0 <= w < cs.len() && cs[w] == c;
            if w == 0 {
                assert(index_lookup(mid, c0) == index_lookup(index, c0).push(id));
                assert(index_lookup(mid, c0)[index_lookup(mid, c0).len() - 1] == id);
                assert(index_lookup(mid, c0).contains(id));
            } else {
                assert(cs.drop_first()[w - 1] == c);
                assert(cs.drop_first().contains(c));
            }
        }
        assert forall|c: CtxView, x: Seq<char>|
            #[trigger] index_lookup(index, c).contains(x) implies index_lookup(result, c).contains(
            x,
        ) by {
            if c == c0 {
                let w = choose|w: int|
                    0 <= w < index_lookup(index, c).len() && index_lookup(index, c)[w] == x;
                assert(index_lookup(mid, c)[w] == x);
                assert(index_lookup(mid, c).contains(x));
            } else {
                assert(index_lookup(mid, c) == index_lookup(index, c));
            }
        }
        assert forall|k: int, m: int|
            0 <= k < result.len() && 0 <= m < result[k].node_ids.len() implies ((
        #[trigger] result[k].node_ids[m]) == id && cs.contains(result[k].context)) || index_lookup(
            index,
            result[k].context,
        ).contains(result[k].node_ids[m]) by {
            let ctx = result[k].context;
            let x = result[k].node_ids[m];
            if x == id && cs.drop_first().contains(ctx) {
                let w = choose|w: int|
                    0 <= w < cs.drop_first().len() && cs.drop_first()[w] == ctx;
                assert(cs[w + 1] == ctx);
                assert(cs.contains(ctx));
            } else if !(x == id && cs.drop_first().contains(ctx)) {
                assert(index_lookup(mid, ctx).contains(x));
                if ctx == c0 {
                    assert(index_lookup(mid, c0) == index_lookup(index, c0).push(id));
                    let w = choose|w: int|
                        0 <= w < index_lookup(mid, c0).len() && index_lookup(mid, c0)[w] == x;
                    if w < index_lookup(index, c0).len() {
                        assert(index_lookup(index, c0)[w] == x);
                        assert(index_lookup(index, c0).contains(x));
                    } else {
                        assert(x == id);
                        assert(cs.contains(c0));
                    }
                } else {
                    assert(index_lookup(mid, ctx) == index_lookup(index, ctx));
                }
            }
        }
    }
}

/// Whether a context value is shown under the scientific group of an
/// expansion view; hybrid contexts appear in every group.
pub open spec fn exp_group_scientific(c: CtxView) -> bool {
    c is Scientific || c is Hybrid
}

/// Whether a context value is shown under the symbolic group of an
/// expansion view; hybrid contexts appear in every group.
pub open spec fn exp_group_symbolic(c: CtxView) -> bool {
    c is Symbolic || c is Hybrid
}

/// Whether a context value is shown under the water group of an
/// expansion view; hybrid contexts appear in every group.
pub open spec fn exp_group_water(c: CtxView) -> bool {
    c is Water || c is Hybrid
}

/// The nodes of the table named by a list of identifiers, in list order;
/// identifiers naming no node are skipped.
pub open spec fn resolve_ids(nodes: Seq<NodeView>, ids: Seq<Seq<char>>) -> Seq<NodeView> {
    seq_flat(
        ids,
        |id: Seq<char>|
            match find_node(nodes, id) {
                Some(n) => seq![n],
                None => Seq::<NodeView>::empty(),
            },
    )
}

/// Whether a hybrid's base values touch the scientific dimension.
pub open spec fn hybrid_has_scientific(parts: Seq<BaseContext>) -> bool {
    exists|i: int| 0 <= i < parts.len() && (#[trigger] parts[i]) is Scientific
}

/// Whether a hybrid's base values touch the symbolic dimension.
pub open spec fn hybrid_has_symbolic(parts: Seq<BaseContext>) -> bool {
    exists|i: int| 0 <= i < parts.len() && (#[trigger] parts[i]) is Symbolic
}

/// Whether a hybrid's base values touch the water dimension.
pub open spec fn hybrid_has_water(parts: Seq<BaseContext>) -> bool {
    exists|i: int| 0 <= i < parts.len() && (#[trigger] parts[i]) is Water
}

/// Whether a context files a node under the scientific family: a
/// scientific value, or a hybrid carrying a scientific base value.
pub open spec fn in_family_scientific(c: CtxView) -> bool {
    match c {
        CtxView::Scientific(_) => true,
        CtxView::Hybrid(parts) => hybrid_has_scientific(parts),
        _ => false,
    }
}

/// Whether a context files a node under the symbolic family.
pub open spec fn in_family_symbolic(c: CtxView) -> bool {
    match c {
        CtxView::Symbolic(_) => true,
        CtxView::Hybrid(parts) => hybrid_has_symbolic(parts),
        _ => false,
    }
}

/// Whether a context files a node under the water family.
pub open spec fn in_family_water(c: CtxView) -> bool {
    match c {
        CtxView::Water(_) => true,
        CtxView::Hybrid(parts) => hybrid_has_water(parts),
        _ => false,
    }
}

/// Whether a context files a node under the hybrid family.
pub open spec fn in_family_hybrid(c: CtxView) -> bool {
    c is Hybrid
}

/// One node, repeated once for each of its contexts the predicate keeps.
pub open spec fn node_reps(n: NodeView, p: spec_fn(CtxView) -> bool) -> Seq<NodeView> {
    Seq::new(n.contexts.filter(p).len(), |k: int| n)
}

/// The family bucket of a table: every node, once per qualifying
/// context, in table order.
pub open spec fn family_bucket(nodes: Seq<NodeView>, p: spec_fn(CtxView) -> bool) -> Seq<
    NodeView,
> {
    seq_flat(nodes, |n: NodeView| node_reps(n, p))
}

fn hybrid_part_scan(parts: &Vec<BaseContext>) -> (r: (bool, bool, bool))
    ensures
        r.0 == hybrid_has_scientific(parts@),
        r.1 == hybrid_has_symbolic(parts@),
        r.2 == hybrid_has_water(parts@),
{
    let mut has_sci = false;
    let mut has_sym = false;
    let mut has_wat = false;
    let mut i: usize = 0;
    while i < parts.len()
        invariant
            i <= parts@.len(),
            has_sci == (exists|j: int| 0 <= j < i && (#[trigger] parts@[j]) is Scientific),
            has_sym == (exists|j: int| 0 <= j < i && (#[trigger] parts@[j]) is Symbolic),
            has_wat == (exists|j: int| 0 <= j < i && (#[trigger] parts@[j]) is Water),
        decreases parts@.len() - i,
    {
        match parts[i] {
            BaseContext::Scientific(_) => {
                has_sci = true;
            },
            BaseContext::Symbolic(_) => {
                has_sym = true;
            },
            BaseContext::Water(_) => {
                has_wat = true;
            },
        }
        proof {
            assert(parts@[i as int] == parts@[i as int]);
        }
        i += 1;
    }
    (has_sci, has_sym, has_wat)
}

/// All nodes grouped by context family, a node repeated once per
/// qualifying context.
#[derive(Debug)]
pub struct ContextGroups {
    pub scientific: Vec<FractalNode>,
    pub symbolic: Vec<FractalNode>,
    pub water: Vec<FractalNode>,
    pub hybrid: Vec<FractalNode>,
}

/// The mathematical value of a grouping.
#[verifier::ext_equal]
pub struct GroupsView {
    pub scientific: Seq<NodeView>,
    pub symbolic: Seq<NodeView>,
    pub water: Seq<NodeView>,
    pub hybrid: Seq<NodeView>,
}

impl View for ContextGroups {
    type V = GroupsView;

    open spec fn view(&self) -> GroupsView {
        GroupsView {
            scientific: node_views(self.scientific@),
            symbolic: node_views(self.symbolic@),
            water: node_views(self.water@),
            hybrid: node_views(self.hybrid@),
        }
    }
}

fn count_family_contexts(node: &FractalNode) -> (r: (usize, usize, usize, usize))
    ensures
        r.0 == node@.contexts.filter((|c: CtxView| in_family_scientific(c))).len(),
        r.1 == node@.contexts.filter((|c: CtxView| in_family_symbolic(c))).len(),
        r.2 == node@.contexts.filter((|c: CtxView| in_family_water(c))).len(),
        r.3 == node@.contexts.filter((|c: CtxView| in_family_hybrid(c))).len(),
{
    let ghost cv = node@.contexts;
    let ghost ps = |c: CtxView| in_family_scientific(c);
    let ghost pm = |c: CtxView| in_family_symbolic(c);
    let ghost pw = |c: CtxView| in_family_water(c);
    let ghost ph = |c: CtxView| in_family_hybrid(c);
    let n = node.contexts.len();
    let mut cs: usize = 0;
    let mut cm: usize = 0;
    let mut cw: usize = 0;
    let mut ch: usize = 0;
    let mut k: usize = 0;
    proof {
        assert(cv.take(0) =~= Seq::<CtxView>::empty());
    }
    while k < n
        invariant
            n == cv.len(),
            cv == node@.contexts,
            k <= n,
            ps == (|c: CtxView| in_family_scientific(c)),
            pm == (|c: CtxView| in_family_symbolic(c)),
            pw == (|c: CtxView| in_family_water(c)),
            ph == (|c: CtxView| in_family_hybrid(c)),
            cs as int == cv.take(k as int).filter(ps).len(),
            cm as int == cv.take(k as int).filter(pm).len(),
            cw as int == cv.take(k as int).filter(pw).len(),
            ch as int == cv.take(k as int).filter(ph).len(),
            cs <= k && cm <= k && cw <= k && ch <= k,
        decreases n - k,
    {
        proof {
            lemma_filter_take_step(cv, ps, k as int);
            lemma_filter_take_step(cv, pm, k as int);
            lemma_filter_take_step(cv, pw, k as int);
            lemma_filter_take_step(cv, ph, k as int);
        }
        let c = &node.contexts[k];
        proof {
            assert(c@ == cv[k as int]);
        }
        match c {
            ContextType::Scientific(_) => {
                cs += 1;
            },
            ContextType::Symbolic(_) => {
                cm += 1;
            },
            ContextType::Water(_) => {
                cw += 1;
            },
            ContextType::Hybrid(parts) => {
                let (in_s, in_m, in_w) = hybrid_part_scan(parts);
                if in_s {
                    cs += 1;
                }
                if in_m {
                    cm += 1;
                }
                if in_w {
                    cw += 1;
                }
                ch += 1;
            },
        }
        k += 1;
    }
    proof {
        lemma_filter_take_all(cv, ps);
        lemma_filter_take_all(cv, pm);
        lemma_filter_take_all(cv, pw);
        lemma_filter_take_all(cv, ph);
    }
    (cs, cm, cw, ch)
}

fn append_reps(bucket: &mut Vec<FractalNode>, node: &FractalNode, count: usize)
    ensures
        node_views(final(bucket)@) == node_views(old(bucket)@) + Seq::new(
            count as nat,
            (|q: int| node@),
        ),
{
    let ghost base = node_views(old(bucket)@);
    let mut t: usize = 0;
    proof {
        assert(node_views(bucket@) =~= base + Seq::new(0nat, |q: int| node@));
    }
    while t < count
        invariant
            t <= count,
            node_views(bucket@) == base + Seq::new(t as nat, (|q: int| node@)),
        decreases count - t,
    {
        let ghost rpre = bucket@;
        bucket.push(node.clone());
        proof {
            assert(node_views(rpre).len() == rpre.len());
            assert forall|j: int| 0 <= j < rpre.len() + 1 implies node_views(bucket@)[j] == (base
                + Seq::new((t + 1) as nat, (|q: int| node@)))[j] by {
                if j < rpre.len() {
                    assert(bucket@[j] == rpre[j]);
                    assert(node_views(rpre)[j] == (base + Seq::new(t as nat, (|q: int| node@)))[j]);
                }
            }
            assert(node_views(bucket@) =~= base + Seq::new((t + 1) as nat, (|q: int| node@)));
        }
        t += 1;
    }
}

/// All nodes grouped into the four context families: a node appears in a
/// family's list once per context of that family it carries; a hybrid
/// context also files its node under each dimension its base values
/// touch.
pub fn group_nodes_by_context(nodes: &Vec<FractalNode>) -> (r: ContextGroups)
    ensures
        r@.scientific == family_bucket(node_views(nodes@), (|c: CtxView| in_family_scientific(c))),
        r@.symbolic == family_bucket(node_views(nodes@), (|c: CtxView| in_family_symbolic(c))),
        r@.water == family_bucket(node_views(nodes@), (|c: CtxView| in_family_water(c))),
        r@.hybrid == family_bucket(node_views(nodes@), (|c: CtxView| in_family_hybrid(c))),
{
    let ghost nv = node_views(nodes@);
    let ghost ps = |c: CtxView| in_family_scientific(c);
    let ghost pm = |c: CtxView| in_family_symbolic(c);
    let ghost pw = |c: CtxView| in_family_water(c);
    let ghost ph = |c: CtxView| in_family_hybrid(c);
    let ghost fs = |n: NodeView| node_reps(n, ps);
    let ghost fm = |n: NodeView| node_reps(n, pm);
    let ghost fw = |n: NodeView| node_reps(n, pw);
    let ghost fh = |n: NodeView| node_reps(n, ph);
    let n = nodes.len();
    let mut sci: Vec<FractalNode> = Vec::new();
    let mut sym: Vec<FractalNode> = Vec::new();
    let mut wat: Vec<FractalNode> = Vec::new();
    let mut hyb: Vec<FractalNode> = Vec::new();
    let mut i: usize = 0;
    proof {
        assert(nv.take(0) =~= Seq::<NodeView>::empty());
    }
    while i < n
        invariant
            n == nodes@.len(),
            nv == node_views(nodes@),
            i <= n,
            ps == (|c: CtxView| in_family_scientific(c)),
            pm == (|c: CtxView| in_family_symbolic(c)),
            pw == (|c: CtxView| in_family_water(c)),
            ph == (|c: CtxView| in_family_hybrid(c)),
            fs == (|n: NodeView| node_reps(n, ps)),
            fm == (|n: NodeView| node_reps(n, pm)),
            fw == (|n: NodeView| node_reps(n, pw)),
            fh == (|n: NodeView| node_reps(n, ph)),
            node_views(sci@) == seq_flat(nv.take(i as int), fs),
            node_views(sym@) == seq_flat(nv.take(i as int), fm),
            node_views(wat@) == seq_flat(nv.take(i as int), fw),
            node_views(hyb@) == seq_flat(nv.take(i as int), fh),
        decreases n - i,
    {
        let node = &nodes[i];
        proof {
            assert(node@ == nv[i as int]);
        }
        let (cs, cm, cw, ch) = count_family_contexts(node);
        append_reps(&mut sci, node, cs);
        append_reps(&mut sym, node, cm);
        append_reps(&mut wat, node, cw);
        append_reps(&mut hyb, node, ch);
        proof {
            lemma_seq_flat_take_step(nv, fs, i as int);
            lemma_seq_flat_take_step(nv, fm, i as int);
            lemma_seq_flat_take_step(nv, fw, i as int);
            lemma_seq_flat_take_step(nv, fh, i as int);
            assert(Seq::new(cs as nat, (|q: int| node@)) =~= node_reps(nv[i as int], ps));
            assert(Seq::new(cm as nat, (|q: int| node@)) =~= node_reps(nv[i as int], pm));
            assert(Seq::new(cw as nat, (|q: int| node@)) =~= node_reps(nv[i as int], pw));
            assert(Seq::new(ch as nat, (|q: int| node@)) =~= node_reps(nv[i as int], ph));
            assert(node_views(sci@) =~= seq_flat(nv.take(i + 1), fs));
            assert(node_views(sym@) =~= seq_flat(nv.take(i + 1), fm));
            assert(node_views(wat@) =~= seq_flat(nv.take(i + 1), fw));
            assert(node_views(hyb@) =~= seq_flat(nv.take(i + 1), fh));
        }
        i += 1;
    }
    proof {
        lemma_seq_flat_take_all(nv, fs);
        lemma_seq_flat_take_all(nv, fm);
        lemma_seq_flat_take_all(nv, fw);
        lemma_seq_flat_take_all(nv, fh);
    }
    ContextGroups { scientific: sci, symbolic: sym, water: wat, hybrid: hyb }
}

/// The estimated size, in bytes of text, of a stored node: the lengths
/// of its identifier, name and archetype tags.
pub open spec fn spec_node_size(n: NodeView) -> int {
    n.id.len() + n.name.len() + seq_sum(n.archetype, (|a: Seq<char>| a.len() as int))
}

/// The estimated size, in bytes of text, of a stored contribution: the
/// lengths of its identifier, node and user references, and content.
pub open spec fn spec_contribution_size(c: ContributionView) -> int {
    c.id.len() + c.node_id.len() + c.user_id.len() + c.content.len() as int
}

/// The estimated size of the whole store: both tables summed.
pub open spec fn spec_storage_size(s: StoreView) -> int {
    seq_sum(s.nodes, (|n: NodeView| spec_node_size(n))) + seq_sum(
        s.contributions,
        (|c: ContributionView| spec_contribution_size(c)),
    )
}

/// A non-negative quantity clipped to what a 64-bit counter can hold.
pub open spec fn clamp_u64(x: int) -> int {
    if x > u64::MAX as int {
        u64::MAX as int
    } else {
        x
    }
}

fn sat_add_u64(a: u64, b: u64) -> (r: u64)
    ensures
        r as int == clamp_u64(a as int + b as int),
{
    if a > u64::MAX - b {
        u64::MAX
    } else {
        a + b
    }
}

proof fn lemma_clamp_chain(s: int, x: int)
    requires
        s >= 0,
        x >= 0,
    ensures
        clamp_u64(clamp_u64(s) + x) == clamp_u64(s + x),
        clamp_u64(clamp_u64(s) + clamp_u64(x)) == clamp_u64(s + x),
{
}

fn archetype3(a: &str, b: &str, c: &str) -> (r: Vec<String>)
    ensures
        str_views(r@) == seq![a@, b@, c@],
{
    let mut r: Vec<String> = Vec::new();
    r.push(a.to_owned());
    r.push(b.to_owned());
    r.push(c.to_owned());
    proof {
        assert(str_views(r@) =~= seq![a@, b@, c@]);
    }
    r
}

/// The store itself. It owns every table exclusively; callers receive
/// copies.
pub struct FractalStorage {
    config: StorageConfig,
    nodes: Vec<FractalNode>,
    contributions: Vec<Contribution>,
    stats: StorageStats,
    node_contexts: Vec<ContextEntry>,
}

impl View for FractalStorage {
    type V = StoreView;

    closed spec fn view(&self) -> StoreView {
        StoreView {
            nodes: node_views(self.nodes@),
            contributions: contrib_views(self.contributions@),
            index: entry_views(self.node_contexts@),
            stats: self.stats@,
            config: self.config@,
        }
    }
}

impl FractalStorage {
    /// A store with the given configuration and no contents.
    pub fn empty(config: StorageConfig) -> (r: Self)
        ensures
            r@.nodes == Seq::<NodeView>::empty(),
            r@.contributions == Seq::<ContributionView>::empty(),
            r@.index == Seq::<EntryView>::empty(),
            r@.config == config@,
            r@.stats.version == "3.0.0"@,
            r@.stats.fractal_level == 2,
            r@.stats.total_contributions == 0,
            r@.stats.total_nodes == 0,
            r@.stats.total_subnodes == 0,
            r@.stats.total_users == 0,
            r@.stats.total_size == 0,
            store_wf(r@),
            index_consistent(r@),
    {
        let r = FractalStorage {
            config,
            nodes: Vec::new(),
            contributions: Vec::new(),
            stats: StorageStats::default(),
            node_contexts: Vec::new(),
        };
        proof {
            assert(r@.nodes =~= Seq::<NodeView>::empty());
            assert(r@.contributions =~= Seq::<ContributionView>::empty());
            assert(r@.index =~= Seq::<EntryView>::empty());
            assert(r@.nodes.filter(|n: NodeView| n.fractal_level == 1) =~= Seq::<
                NodeView,
            >::empty());
            assert(r@.nodes.filter(|n: NodeView| n.fractal_level != 1) =~= Seq::<
                NodeView,
            >::empty());
        }
        r
    }

    /// The current statistics snapshot, as a copy.
    pub fn get_storage_stats(&self) -> (r: StorageStats)
        ensures
            r@ == self@.stats,
    {
        self.stats.clone()
    }

    /// Point lookup of a node by identifier; the result is a copy.
    pub fn get_node(&self, node_id: &str) -> (r: Option<FractalNode>)
        ensures
            match r {
                Some(n) => find_node(self@.nodes, node_id@) == Some(n@),
                None => find_node(self@.nodes, node_id@) is None,
            },
    {
        let key: String = node_id.to_owned();
        let n = self.nodes.len();
        let mut i: usize = 0;
        while i < n
            invariant
                n == self.nodes@.len(),
                i <= n,
                key@ == node_id@,
                forall|j: int| 0 <= j < i ==> (#[trigger] node_views(self.nodes@)[j]).id != node_id@,
            decreases n - i,
        {
            if self.nodes[i].id == key {
                proof {
                    assert(node_views(self.nodes@)[i as int].id == node_id@);
                    lemma_id_pos_props(self@.nodes, node_id@);
                }
                return Some(self.nodes[i].clone());
            }
            i += 1;
        }
        proof {
            lemma_id_pos_props(self@.nodes, node_id@);
        }
        None
    }

    /// A full snapshot of the node table, as copies, in table order.
    pub fn get_all_nodes(&self) -> (r: Vec<FractalNode>)
        ensures
            node_views(r@) == self@.nodes,
    {
        let mut r: Vec<FractalNode> = Vec::new();
        let mut i: usize = 0;
        while i < self.nodes.len()
            invariant
                i <= self.nodes@.len(),
                node_views(r@) == node_views(self.nodes@).take(i as int),
            decreases self.nodes@.len() - i,
        {
            let ghost pre = r@;
            r.push(self.nodes[i].clone());
            proof {
                assert(node_views(pre).len() == i);
                assert(pre.len() == i);
                assert forall|j: int| 0 <= j < i + 1 implies node_views(r@)[j] == node_views(
                    self.nodes@,
                ).take(i + 1)[j] by {
                    if j < i {
                        assert(r@[j] == pre[j]);
                        assert(node_views(pre)[j] == node_views(self.nodes@).take(i as int)[j]);
                    }
                }
                assert(node_views(r@) =~= node_views(self.nodes@).take(i + 1));
            }
            i += 1;
        }
        proof {
            assert(node_views(r@) =~= self@.nodes);
        }
        r
    }

    /// Insert a node, or replace the node sharing its identifier. The
    /// per-level counters are adjusted so that they keep matching the
    /// table; the context index is not touched.
    pub fn store_node(&mut self, node: &FractalNode)
        requires
            store_wf(old(self)@),
        ensures
            store_wf(final(self)@),
            final(self)@.contributions == old(self)@.contributions,
            final(self)@.index == old(self)@.index,
            final(self)@.config == old(self)@.config,
            stats_same_static(old(self)@.stats, final(self)@.stats),
            final(self)@.stats.total_contributions == old(self)@.stats.total_contributions,
            ({
                let p = id_pos(old(self)@.nodes, node@.id);
                if p >= 0 {
                    final(self)@.nodes == old(self)@.nodes.update(p, node@)
                } else {
                    final(self)@.nodes == old(self)@.nodes.push(node@)
                }
            }),
    {
        let ghost pre = self@;
        let ghost lvl1 = |n: NodeView| n.fractal_level == 1;
        let ghost lvlo = |n: NodeView| n.fractal_level != 1;
        let n = self.nodes.len();
        let key: String = node.id.clone();
        let mut i: usize = 0;
        let mut pos: usize = n;
        while i < n
            invariant
                *self == *old(self),
                n == self@.nodes.len(),
                i <= n,
                key@ == node@.id,
                pos == n || (pos < i && self@.nodes[pos as int].id == node@.id && forall|j: int|
                    0 <= j < pos ==> (#[trigger] self@.nodes[j]).id != node@.id),
                pos == n ==> forall|j: int|
                    0 <= j < i ==> (#[trigger] self@.nodes[j]).id != node@.id,
            decreases n - i,
        {
            if pos == n && self.nodes[i].id == key {
                pos = i;
                proof {
                    assert(self@.nodes[i as int].id == node@.id);
                }
            }
            i += 1;
        }
        proof {
            lemma_id_pos_props(pre.nodes, node@.id);
        }
        let ghost p = id_pos(pre.nodes, node@.id);
        let copy = node.clone();
        let ghost copyv = copy;
        if pos < n {
            proof {
                assert(p == pos as int);
            }
            let old_level = self.nodes[pos].fractal_level;
            self.nodes.set(pos, copy);
            proof {
                lemma_node_views_update(old(self).nodes@, pos as int, copyv);
                assert(self@.nodes == pre.nodes.update(p, node@));
                lemma_filter_update_count(pre.nodes, lvl1, p, node@);
                lemma_filter_update_count(pre.nodes, lvlo, p, node@);
                self@.nodes.lemma_filter_len(lvl1);
                self@.nodes.lemma_filter_len(lvlo);
                assert(self@.nodes.len() == n);
            }
            if old_level == 1 {
                proof {
                    pre.nodes.lemma_filter_contains(lvl1, p);
                    assert(pre.nodes.filter(lvl1).len() >= 1);
                }
                self.stats.total_nodes = self.stats.total_nodes - 1;
            } else {
                proof {
                    pre.nodes.lemma_filter_contains(lvlo, p);
                    assert(pre.nodes.filter(lvlo).len() >= 1);
                }
                self.stats.total_subnodes = self.stats.total_subnodes - 1;
            }
            if node.fractal_level == 1 {
                self.stats.total_nodes = self.stats.total_nodes + 1;
            } else {
                self.stats.total_subnodes = self.stats.total_subnodes + 1;
            }
            self.stats.last_updated = now_millis();
            proof {
                let newn = self@.nodes;
                assert forall|a: int, b: int| 0 <= a < b < newn.len() implies (
                #[trigger] newn[a]).id != (#[trigger] newn[b]).id by {
                    if a == p {
                        assert(newn[a].id == node@.id);
                        assert(pre.nodes[p].id == node@.id);
                        assert(newn[b] == pre.nodes[b]);
                    } else if b == p {
                        assert(newn[b].id == node@.id);
                        assert(pre.nodes[p].id == node@.id);
                        assert(newn[a] == pre.nodes[a]);
                    } else {
                        assert(newn[a] == pre.nodes[a]);
                        assert(newn[b] == pre.nodes[b]);
                    }
                }
            }
        } else {
            self.nodes.push(copy);
            let newlen = self.nodes.len();
            proof {
                lemma_node_views_push(old(self).nodes@, copyv);
                assert(self@.nodes == pre.nodes.push(node@));
                assert(newlen as int == n + 1);
                lemma_filter_push(pre.nodes, lvl1, node@);
                lemma_filter_push(pre.nodes, lvlo, node@);
                self@.nodes.lemma_filter_len(lvl1);
                self@.nodes.lemma_filter_len(lvlo);
            }
            if node.fractal_level == 1 {
                self.stats.total_nodes = self.stats.total_nodes + 1;
            } else {
                self.stats.total_subnodes = self.stats.total_subnodes + 1;
            }
            self.stats.last_updated = now_millis();
            proof {
                let newn = self@.nodes;
                assert forall|a: int, b: int| 0 <= a < b < newn.len() implies (
                #[trigger] newn[a]).id != (#[trigger] newn[b]).id by {
                    if b < pre.nodes.len() {
                        assert(newn[a] == pre.nodes[a]);
                        assert(newn[b] == pre.nodes[b]);
                    } else {
                        assert(newn[a] == pre.nodes[a]);
                        assert(newn[b] == node@);
                    }
                }
            }
        }
    }

    /// Remove the node with the given identifier, if present; the
    /// per-level counters follow. The context index is not cascaded:
    /// entries pointing at the removed node stay behind.
    pub fn delete_node(&mut self, node_id: &str)
        requires
            store_wf(old(self)@),
        ensures
            store_wf(final(self)@),
            final(self)@.contributions == old(self)@.contributions,
            final(self)@.index == old(self)@.index,
            final(self)@.config == old(self)@.config,
            stats_same_static(old(self)@.stats, final(self)@.stats),
            final(self)@.stats.total_contributions == old(self)@.stats.total_contributions,
            ({
                let p = id_pos(old(self)@.nodes, node_id@);
                if p >= 0 {
                    final(self)@.nodes == old(self)@.nodes.remove(p)
                } else {
                    *final(self) == *old(self)
                }
            }),
    {
        let ghost pre = self@;
        let ghost lvl1 = |n: NodeView| n.fractal_level == 1;
        let ghost lvlo = |n: NodeView| n.fractal_level != 1;
        let n = self.nodes.len();
        let key: String = node_id.to_owned();
        let mut i: usize = 0;
        let mut pos: usize = n;
        while i < n
            invariant
                *self == *old(self),
                n == self@.nodes.len(),
                i <= n,
                key@ == node_id@,
                pos == n || (pos < i && self@.nodes[pos as int].id == node_id@ && forall|j: int|
                    0 <= j < pos ==> (#[trigger] self@.nodes[j]).id != node_id@),
                pos == n ==> forall|j: int|
                    0 <= j < i ==> (#[trigger] self@.nodes[j]).id != node_id@,
            decreases n - i,
        {
            if pos == n && self.nodes[i].id == key {
                pos = i;
                proof {
                    assert(self@.nodes[i as int].id == node_id@);
                }
            }
            i += 1;
        }
        proof {
            lemma_id_pos_props(pre.nodes, node_id@);
        }
        let ghost p = id_pos(pre.nodes, node_id@);
        if pos < n {
            proof {
                assert(p == pos as int);
            }
            let removed = self.nodes.remove(pos);
            proof {
                lemma_node_views_remove(old(self).nodes@, pos as int);
                assert(self@.nodes == pre.nodes.remove(p));
                lemma_filter_remove_count(pre.nodes, lvl1, p);
                lemma_filter_remove_count(pre.nodes, lvlo, p);
            }
            if removed.fractal_level == 1 {
                proof {
                    assert(removed@ == pre.nodes[p]);
                    pre.nodes.lemma_filter_contains(lvl1, p);
                    assert(pre.nodes.filter(lvl1).len() >= 1);
                }
                self.stats.total_nodes = self.stats.total_nodes - 1;
            } else {
                proof {
                    assert(removed@ == pre.nodes[p]);
                    pre.nodes.lemma_filter_contains(lvlo, p);
                    assert(pre.nodes.filter(lvlo).len() >= 1);
                }
                self.stats.total_subnodes = self.stats.total_subnodes - 1;
            }
            self.stats.last_updated = now_millis();
            proof {
                let newn = self@.nodes;
                assert forall|a: int, b: int| 0 <= a < b < newn.len() implies (
                #[trigger] newn[a]).id != (#[trigger] newn[b]).id by {
                    if a < p {
                        assert(newn[a] == pre.nodes[a]);
                    } else {
                        assert(newn[a] == pre.nodes[a + 1]);
                    }
                    if b < p {
                        assert(newn[b] == pre.nodes[b]);
                    } else {
                        assert(newn[b] == pre.nodes[b + 1]);
                    }
                }
            }
        }
    }

    /// Record in the index that the node with this identifier carries the
    /// given context.
    fn add_node_to_context(&mut self, context: &ContextType, node_id: &str)
        requires
            store_wf(old(self)@),
        ensures
            store_wf(final(self)@),
            final(self)@.index == index_add(old(self)@.index, context@, node_id@),
            final(self)@.nodes == old(self)@.nodes,
            final(self)@.contributions == old(self)@.contributions,
            final(self)@.config == old(self)@.config,
            final(self)@.stats == old(self)@.stats,
    {
        let ghost pre = self@;
        let n = self.node_contexts.len();
        let mut i: usize = 0;
        let mut pos: usize = n;
        while i < n
            invariant
                *self == *old(self),
                n == self@.index.len(),
                i <= n,
                pos == n || (pos < i && self@.index[pos as int].context == context@ && forall|
                    j: int,
                |
                    0 <= j < pos ==> (#[trigger] self@.index[j]).context != context@),
                pos == n ==> forall|j: int|
                    0 <= j < i ==> (#[trigger] self@.index[j]).context != context@,
            decreases n - i,
        {
            if pos == n && self.node_contexts[i].context == *context {
                pos = i;
                proof {
                    assert(self@.index[i as int].context == context@);
                }
            }
            i += 1;
        }
        proof {
            lemma_entry_pos_props(pre.index, context@);
            lemma_index_add_props(pre.index, context@, node_id@);
        }
        let ghost p = entry_pos(pre.index, context@);
        if pos < n {
            proof {
                assert(p == pos as int);
            }
            let mut e = self.node_contexts.remove(pos);
            let ghost epre = e@;
            e.node_ids.push(node_id.to_owned());
            proof {
                lemma_str_views_push(old(self).node_contexts@[pos as int].node_ids@, e.node_ids@[e.node_ids@.len() - 1]);
            }
            let ghost enew = e@;
            self.node_contexts.insert(pos, e);
            proof {
                assert(enew.context == context@);
                assert(enew.node_ids =~= pre.index[p].node_ids.push(node_id@));
                lemma_entry_views_remove(old(self).node_contexts@, pos as int);
                lemma_entry_views_insert(old(self).node_contexts@.remove(pos as int), pos as int, self.node_contexts@[pos as int]);
                assert(self@.index =~= pre.index.remove(p).insert(p, enew));
                assert(self@.index =~= pre.index.update(
                    p,
                    EntryView { context: context@, node_ids: pre.index[p].node_ids.push(node_id@) },
                ));
                assert(self@.index == index_add(pre.index, context@, node_id@));
            }
        } else {
            let mut ids: Vec<String> = Vec::new();
            ids.push(node_id.to_owned());
            let e = ContextEntry { context: context.clone(), node_ids: ids };
            let ghost ev = e@;
            self.node_contexts.push(e);
            proof {
                assert(p == -1);
                lemma_entry_views_push(old(self).node_contexts@, self.node_contexts@[n as int]);
                assert(ev.context == context@);
                assert(ev.node_ids =~= seq![node_id@]);
                assert(self@.index =~= pre.index.push(
                    EntryView { context: context@, node_ids: seq![node_id@] },
                ));
                assert(self@.index == index_add(pre.index, context@, node_id@));
            }
        }
    }

    /// Append a contribution to the ledger. Always succeeds; the receipt
    /// carries the hex SHA-256 of the content, computed now and not
    /// stored.
    pub fn store_contribution(&mut self, contribution: Contribution) -> (r: Receipt)
        requires
            store_wf(old(self)@),
        ensures
            store_wf(final(self)@),
            final(self)@.nodes == old(self)@.nodes,
            final(self)@.index == old(self)@.index,
            final(self)@.config == old(self)@.config,
            final(self)@.contributions == old(self)@.contributions.push(contribution@),
            stats_same_static(old(self)@.stats, final(self)@.stats),
            final(self)@.stats.total_nodes == old(self)@.stats.total_nodes,
            final(self)@.stats.total_subnodes == old(self)@.stats.total_subnodes,
            final(self)@.stats.total_contributions == old(self)@.stats.total_contributions + 1,
            r@.id == contribution@.id,
            r@.content_hash == content_hash_of(contribution@.content),
            r@.node_id == contribution@.node_id,
            r@.resonance == contribution@.resonance,
            r@.timestamp == contribution@.timestamp,
    {
        let ghost pre = self@;
        let receipt = Receipt {
            id: contribution.id.clone(),
            content_hash: generate_content_hash(contribution.content.as_str()),
            node_id: contribution.node_id.clone(),
            resonance: contribution.resonance,
            timestamp: contribution.timestamp,
        };
        let ghost cv = contribution;
        self.contributions.push(contribution);
        let newlen = self.contributions.len();
        proof {
            lemma_contrib_views_push(old(self).contributions@, cv);
            assert(self@.contributions == pre.contributions.push(cv@));
            assert(newlen as int == pre.contributions.len() + 1);
        }
        self.stats.total_contributions = self.stats.total_contributions + 1;
        self.stats.last_updated = now_millis();
        receipt
    }

    /// The first contribution, in ledger order, whose content hashes to
    /// the given hex SHA-256 digest; the hash is recomputed for every
    /// stored contribution on each lookup.
    pub fn get_contribution(&self, content_hash: &str) -> (r: Option<Contribution>)
        ensures
            ({
                let p = hash_pos(self@.contributions, content_hash@);
                match r {
                    Some(c) => p >= 0 && c@ == self@.contributions[p],
                    None => p == -1,
                }
            }),
    {
        let key: String = content_hash.to_owned();
        let n = self.contributions.len();
        let mut i: usize = 0;
        while i < n
            invariant
                n == self@.contributions.len(),
                i <= n,
                key@ == content_hash@,
                forall|j: int|
                    0 <= j < i ==> content_hash_of((#[trigger] self@.contributions[j]).content)
                        != content_hash@,
            decreases n - i,
        {
            let h = generate_content_hash(self.contributions[i].content.as_str());
            if h == key {
                proof {
                    assert(content_hash_of(self@.contributions[i as int].content) == content_hash@);
                    lemma_hash_pos_props(self@.contributions, content_hash@);
                }
                return Some(self.contributions[i].clone());
            }
            i += 1;
        }
        proof {
            lemma_hash_pos_props(self@.contributions, content_hash@);
        }
        None
    }

    /// Every contribution targeting the given node, in ledger order, as
    /// copies.
    pub fn get_node_contributions(&self, node_id: &str) -> (r: Vec<Contribution>)
        ensures
            contrib_views(r@) == self@.contributions.filter(
                (|c: ContributionView| c.node_id == node_id@),
            ),
    {
        let ghost p = |c: ContributionView| c.node_id == node_id@;
        let key: String = node_id.to_owned();
        let n = self.contributions.len();
        let mut r: Vec<Contribution> = Vec::new();
        let mut i: usize = 0;
        while i < n
            invariant
                n == self@.contributions.len(),
                i <= n,
                key@ == node_id@,
                p == (|c: ContributionView| c.node_id == node_id@),
                contrib_views(r@) == self@.contributions.take(i as int).filter(p),
            decreases n - i,
        {
            proof {
                lemma_filter_take_step(self@.contributions, p, i as int);
            }
            if self.contributions[i].node_id == key {
                let ghost rpre = r@;
                let c = self.contributions[i].clone();
                let ghost cv = c;
                r.push(c);
                proof {
                    assert(cv@ == self@.contributions[i as int]);
                    assert(contrib_views(rpre).len() == self@.contributions.take(
                        i as int,
                    ).filter(p).len());
                    assert(rpre.len() == contrib_views(rpre).len());
                    assert forall|j: int| 0 <= j < rpre.len() + 1 implies contrib_views(r@)[j]
                        == self@.contributions.take(i + 1).filter(p)[j] by {
                        if j < rpre.len() {
                            assert(r@[j] == rpre[j]);
                            assert(contrib_views(rpre)[j] == self@.contributions.take(
                                i as int,
                            ).filter(p)[j]);
                        }
                    }
                    assert(contrib_views(r@) =~= self@.contributions.take(i + 1).filter(p));
                }
            }
            i += 1;
        }
        proof {
            lemma_filter_take_all(self@.contributions, p);
        }
        r
    }

    /// Every contribution submitted by the given user, in ledger order,
    /// as copies.
    pub fn get_user_contributions(&self, user_id: &str) -> (r: Vec<Contribution>)
        ensures
            contrib_views(r@) == self@.contributions.filter(
                (|c: ContributionView| c.user_id == user_id@),
            ),
    {
        let ghost p = |c: ContributionView| c.user_id == user_id@;
        let key: String = user_id.to_owned();
        let n = self.contributions.len();
        let mut r: Vec<Contribution> = Vec::new();
        let mut i: usize = 0;
        while i < n
            invariant
                n == self@.contributions.len(),
                i <= n,
                key@ == user_id@,
                p == (|c: ContributionView| c.user_id == user_id@),
                contrib_views(r@) == self@.contributions.take(i as int).filter(p),
            decreases n - i,
        {
            proof {
                lemma_filter_take_step(self@.contributions, p, i as int);
            }
            if self.contributions[i].user_id == key {
                let ghost rpre = r@;
                let c = self.contributions[i].clone();
                let ghost cv = c;
                r.push(c);
                proof {
                    assert(cv@ == self@.contributions[i as int]);
                    assert(contrib_views(rpre).len() == self@.contributions.take(
                        i as int,
                    ).filter(p).len());
                    assert(rpre.len() == contrib_views(rpre).len());
                    assert forall|j: int| 0 <= j < rpre.len() + 1 implies contrib_views(r@)[j]
                        == self@.contributions.take(i + 1).filter(p)[j] by {
                        if j < rpre.len() {
                            assert(r@[j] == rpre[j]);
                            assert(contrib_views(rpre)[j] == self@.contributions.take(
                                i as int,
                            ).filter(p)[j]);
                        }
                    }
                    assert(contrib_views(r@) =~= self@.contributions.take(i + 1).filter(p));
                }
            }
            i += 1;
        }
        proof {
            lemma_filter_take_all(self@.contributions, p);
        }
        r
    }

    /// Expand the stored node with this identifier across the whole
    /// taxonomy: its context list grows by the nine canonical contexts
    /// and the index records it under each of them, both together or not
    /// at all. Only base (level-1) nodes can be expanded.
    pub fn expand_node_fractally(&mut self, node_id: &str) -> (r: Result<(), StoreError>)
        requires
            store_wf(old(self)@),
        ensures
            store_wf(final(self)@),
            r is Ok <==> ({
                let p = id_pos(old(self)@.nodes, node_id@);
                p >= 0 && old(self)@.nodes[p].fractal_level == 1
            }),
            r == Err::<(), StoreError>(StoreError::NotFound) <==> !has_node_id(
                old(self)@.nodes,
                node_id@,
            ),
            r == Err::<(), StoreError>(StoreError::InvalidExpansionTarget) <==> ({
                let p = id_pos(old(self)@.nodes, node_id@);
                p >= 0 && old(self)@.nodes[p].fractal_level != 1
            }),
            r is Err ==> *final(self) == *old(self),
            r is Ok ==> expand_transition(
                old(self)@,
                final(self)@,
                id_pos(old(self)@.nodes, node_id@),
            ),
    {
        let ghost pre = self@;
        let ghost lvl1 = |n: NodeView| n.fractal_level == 1;
        let ghost lvlo = |n: NodeView| n.fractal_level != 1;
        let n = self.nodes.len();
        let key: String = node_id.to_owned();
        let mut i: usize = 0;
        let mut pos: usize = n;
        while i < n
            invariant
                *self == *old(self),
                n == self@.nodes.len(),
                i <= n,
                key@ == node_id@,
                pos == n || (pos < i && self@.nodes[pos as int].id == node_id@ && forall|j: int|
                    0 <= j < pos ==> (#[trigger] self@.nodes[j]).id != node_id@),
                pos == n ==> forall|j: int|
                    0 <= j < i ==> (#[trigger] self@.nodes[j]).id != node_id@,
            decreases n - i,
        {
            if pos == n && self.nodes[i].id == key {
                pos = i;
                proof {
                    assert(self@.nodes[i as int].id == node_id@);
                }
            }
            i += 1;
        }
        proof {
            lemma_id_pos_props(pre.nodes, node_id@);
        }
        let ghost p = id_pos(pre.nodes, node_id@);
        if pos == n {
            return Err(StoreError::NotFound);
        }
        proof {
            assert(p == pos as int);
        }
        if self.nodes[pos].fractal_level != 1 {
            return Err(StoreError::InvalidExpansionTarget);
        }
        let mut node = self.nodes.remove(pos);
        proof {
            lemma_node_views_remove(old(self).nodes@, pos as int);
        }
        let ghost node0 = node@;
        let contexts = canonical_contexts();
        proof {
            assert(canonical_context_views().take(0) =~= Seq::<CtxView>::empty());
            assert(node0.contexts + canonical_context_views().take(0) =~= node0.contexts);
        }
        let mut k: usize = 0;
        while k < contexts.len()
            invariant
                contexts@.len() == 9,
                crate::contexts::ctx_views(contexts@) == canonical_context_views(),
                k <= 9,
                node@.contexts == node0.contexts + canonical_context_views().take(k as int),
                node_same_except_contexts(node0, node@),
            decreases 9 - k,
        {
            let c = contexts[k].clone();
            proof {
                assert(c@ == canonical_context_views()[k as int]);
            }
            node.add_context(c);
            proof {
                assert(canonical_context_views().take(k + 1) =~= canonical_context_views().take(
                    k as int,
                ).push(canonical_context_views()[k as int]));
                assert(node@.contexts =~= node0.contexts + canonical_context_views().take(k + 1));
            }
            k += 1;
        }
        proof {
            assert(canonical_context_views().take(9) =~= canonical_context_views());
        }
        let ghost nodex = node@;
        let ghost removed_nodes = self.nodes@;
        self.nodes.insert(pos, node);
        let ghost mid = self@;
        proof {
            lemma_node_views_insert(removed_nodes, pos as int, self.nodes@[pos as int]);
            assert(mid.nodes =~= pre.nodes.remove(p).insert(p, nodex));
            assert(mid.nodes =~= pre.nodes.update(p, nodex));
            lemma_filter_update_count(pre.nodes, lvl1, p, nodex);
            lemma_filter_update_count(pre.nodes, lvlo, p, nodex);
            assert(store_wf(mid)) by {
                assert forall|a: int, b: int| 0 <= a < b < mid.nodes.len() implies (
                #[trigger] mid.nodes[a]).id != (#[trigger] mid.nodes[b]).id by {
                    if a == p {
                        assert(mid.nodes[b] == pre.nodes[b]);
                        assert(pre.nodes[p].id == nodex.id);
                    } else if b == p {
                        assert(mid.nodes[a] == pre.nodes[a]);
                        assert(pre.nodes[p].id == nodex.id);
                    } else {
                        assert(mid.nodes[a] == pre.nodes[a]);
                        assert(mid.nodes[b] == pre.nodes[b]);
                    }
                }
            }
        }
        proof {
            assert(canonical_context_views().take(0) =~= Seq::<CtxView>::empty());
        }
        let mut k: usize = 0;
        while k < contexts.len()
            invariant
                contexts@.len() == 9,
                crate::contexts::ctx_views(contexts@) == canonical_context_views(),
                k <= 9,
                key@ == node_id@,
                node_id@ == pre.nodes[p].id,
                0 <= p < pre.nodes.len(),
                store_wf(self@),
                self@.nodes == mid.nodes,
                self@.contributions == mid.contributions,
                self@.config == mid.config,
                self@.stats == mid.stats,
                self@.index == index_add_all(
                    pre.index,
                    canonical_context_views().take(k as int),
                    node_id@,
                ),
            decreases 9 - k,
        {
            let c = &contexts[k];
            proof {
                assert(c@ == canonical_context_views()[k as int]);
            }
            self.add_node_to_context(c, key.as_str());
            proof {
                lemma_index_add_all_snoc(
                    pre.index,
                    canonical_context_views().take(k as int),
                    canonical_context_views()[k as int],
                    node_id@,
                );
                assert(canonical_context_views().take(k + 1) =~= canonical_context_views().take(
                    k as int,
                ).push(canonical_context_views()[k as int]));
            }
            k += 1;
        }
        proof {
            assert(canonical_context_views().take(9) =~= canonical_context_views());
            assert(node_expanded(pre.nodes[p], self@.nodes[p]));
        }
        Ok(())
    }

    /// Install one seed node: store it bare, then expand it.
    fn install_seed(&mut self, node: FractalNode, Ghost(k): Ghost<int>, Ghost(base): Ghost<StoreView>)
        requires
            store_wf(old(self)@),
            0 <= k < seed_count(),
            partially_seeded(old(self)@, base, k),
            bare_seed(node@, k),
        ensures
            store_wf(final(self)@),
            partially_seeded(final(self)@, base, k + 1),
    {
        let ghost pre = self@;
        proof {
            lemma_seed_ids_distinct();
            lemma_id_pos_props(pre.nodes, node@.id);
            let q = id_pos(pre.nodes, node@.id);
            if q >= 0 {
                assert(matches_seed(pre.nodes[q], q));
                assert(pre.nodes[q].id == seed_id(q));
                assert(seed_id(q) != seed_id(k));
                assert(false);
            }
        }
        self.store_node(&node);
        let ghost mid = self@;
        proof {
            assert(mid.nodes == pre.nodes.push(node@));
        }
        let r = self.expand_node_fractally(node.id.as_str());
        proof {
            lemma_id_pos_props(mid.nodes, node@.id);
            let q2 = id_pos(mid.nodes, node@.id);
            assert(mid.nodes[k] == node@);
            assert forall|j: int| 0 <= j < k implies (#[trigger] mid.nodes[j]).id != node@.id by {
                assert(mid.nodes[j] == pre.nodes[j]);
                assert(matches_seed(pre.nodes[j], j));
                assert(seed_id(j) != seed_id(k));
            }
            if q2 == -1 {
                assert(mid.nodes[k].id != node@.id);
                assert(false);
            }
            if q2 < k {
                assert(mid.nodes[q2].id != node@.id);
                assert(false);
            }
            if q2 > k {
                assert(mid.nodes[k].id != node@.id);
                assert(false);
            }
            assert(q2 == k);
            assert(mid.nodes[k].fractal_level == 1);
            assert(r is Ok);
            assert(expand_transition(mid, self@, k));
            let fin = self@;
            assert(fin.nodes.len() == k + 1);
            assert(node_expanded(node@, fin.nodes[k]));
            assert(node@.contexts + canonical_context_views() =~= canonical_context_views());
            assert(matches_seed(fin.nodes[k], k));
            assert forall|i: int| 0 <= i < k + 1 implies matches_seed(#[trigger] fin.nodes[i], i) by {
                if i < k {
                    assert(fin.nodes[i] == mid.nodes[i]);
                    assert(mid.nodes[i] == pre.nodes[i]);
                }
            }
            lemma_canonical_distinct();
            assert(mid.index == pre.index);
            assert(canonical_context_views().skip(0) =~= canonical_context_views());
            lemma_index_add_all_aligned(pre.index, canonical_context_views(), node@.id, 0);
            assert(fin.index == index_add_all(pre.index, canonical_context_views(), node@.id));
            assert(fin.index.len() == 9);
            assert forall|j: int| 0 <= j < 9 implies (#[trigger] fin.index[j]).context
                == canonical_context_views()[j] && fin.index[j].node_ids == seed_ids().take(
                k + 1,
            ) by {
                if k == 0 {
                    assert(fin.index[j].node_ids == seq![node@.id]);
                    assert(seed_ids().take(1) =~= seq![seed_id(0)]);
                } else {
                    assert(fin.index[j].node_ids == pre.index[j].node_ids.push(node@.id));
                    assert(pre.index[j].node_ids == seed_ids().take(k));
                    assert(seed_ids().take(k + 1) =~= seed_ids().take(k).push(seed_id(k)));
                }
            }
        }
    }

    /// Install and expand the twelve seed nodes of the codex.
    fn initialize_fractal_nodes(&mut self)
        requires
            store_wf(old(self)@),
            old(self)@.nodes.len() == 0,
            old(self)@.index.len() == 0,
        ensures
            store_wf(final(self)@),
            index_consistent(final(self)@),
            final(self)@.nodes.len() == seed_count(),
            forall|i: int|
                0 <= i < seed_count() ==> matches_seed(#[trigger] final(self)@.nodes[i], i),
            final(self)@.index.len() == 9,
            forall|j: int|
                0 <= j < 9 ==> (#[trigger] final(self)@.index[j]).context
                    == canonical_context_views()[j] && final(self)@.index[j].node_ids == seed_ids(),
            final(self)@.contributions == old(self)@.contributions,
            final(self)@.config == old(self)@.config,
            stats_same_static(old(self)@.stats, final(self)@.stats),
            final(self)@.stats.total_contributions == old(self)@.stats.total_contributions,
            final(self)@.stats.total_nodes == seed_count(),
            final(self)@.stats.total_subnodes == 0,
    {
        let ghost base = self@;
        proof {
            assert(partially_seeded(self@, base, 0));
        }
        self.install_seed(
            FractalNode::new(
                "codex:Void".to_owned(),
                "Void".to_owned(),
                FlowState::Plasma,
                archetype3("Potential", "Infinite", "Source"),
                1000,
                1,
                None,
            ),
            Ghost(0),
            Ghost(base),
        );
        self.install_seed(
            FractalNode::new(
                "codex:Field".to_owned(),
                "Field".to_owned(),
                FlowState::Gas,
                archetype3("Connectivity", "Information", "Flow"),
                800,
                1,
                None,
            ),
            Ghost(1),
            Ghost(base),
        );
        self.install_seed(
            FractalNode::new(
                "codex:Pattern".to_owned(),
                "Pattern".to_owned(),
                FlowState::Crystalline,
                archetype3("Form", "Rhythm", "Order"),
                900,
                1,
                None,
            ),
            Ghost(2),
            Ghost(base),
        );
        self.install_seed(
            FractalNode::new(
                "codex:Flow".to_owned(),
                "Flow".to_owned(),
                FlowState::Liquid,
                archetype3("Movement", "Change", "Process"),
                850,
                1,
                None,
            ),
            Ghost(3),
            Ghost(base),
        );
        self.install_seed(
            FractalNode::new(
                "codex:Coherence".to_owned(),
                "Coherence".to_owned(),
                FlowState::Crystalline,
                archetype3("Alignment", "Resonance", "Unity"),
                950,
                1,
                None,
            ),
            Ghost(4),
            Ghost(base),
        );
        self.install_seed(
            FractalNode::new(
                "codex:Resonance".to_owned(),
                "Resonance".to_owned(),
                FlowState::Wave,
                archetype3("Vibration", "Harmony", "Sync"),
                880,
                1,
                None,
            ),
            Ghost(5),
            Ghost(base),
        );
        self.install_seed(
            FractalNode::new(
                "codex:Transformation".to_owned(),
                "Transformation".to_owned(),
                FlowState::Colloidal,
                archetype3("Change", "Evolution", "Metamorphosis"),
                820,
                1,
                None,
            ),
            Ghost(6),
            Ghost(base),
        );
        self.install_seed(
            FractalNode::new(
                "codex:Integration".to_owned(),
                "Integration".to_owned(),
                FlowState::Colloidal,
                archetype3("Unity", "Wholeness", "Synthesis"),
                870,
                1,
                None,
            ),
            Ghost(7),
            Ghost(base),
        );
        self.install_seed(
            FractalNode::new(
                "codex:Emergence".to_owned(),
                "Emergence".to_owned(),
                FlowState::Living,
                archetype3("Novelty", "Spontaneity", "Creation"),
                830,
                1,
                None,
            ),
            Ghost(8),
            Ghost(base),
        );
        self.install_seed(
            FractalNode::new(
                "codex:Wisdom".to_owned(),
                "Wisdom".to_owned(),
                FlowState::Living,
                archetype3("Knowledge", "Understanding", "Insight"),
                920,
                1,
                None,
            ),
            Ghost(9),
            Ghost(base),
        );
        self.install_seed(
            FractalNode::new(
                "codex:Consciousness".to_owned(),
                "Consciousness".to_owned(),
                FlowState::Living,
                archetype3("Awareness", "Experience", "Presence"),
                960,
                1,
                None,
            ),
            Ghost(10),
            Ghost(base),
        );
        self.install_seed(
            FractalNode::new(
                "codex:Breath".to_owned(),
                "Breath".to_owned(),
                FlowState::Gas,
                archetype3("Life", "Energy", "Spirit"),
                780,
                1,
                None,
            ),
            Ghost(11),
            Ghost(base),
        );
        proof {
            let fin = self@;
            assert(seed_ids().take(12) =~= seed_ids());
            assert forall|i: int| 0 <= i < fin.nodes.len() implies (
            #[trigger] fin.nodes[i]).fractal_level == 1 by {
                assert(matches_seed(fin.nodes[i], i));
            }
            lemma_level1_count_all(fin.nodes);
            lemma_canonical_distinct();
            lemma_seed_ids_distinct();
            assert forall|i: int, c: CtxView|
                0 <= i < fin.nodes.len() && #[trigger] fin.nodes[i].contexts.contains(c) implies index_lookup(
                fin.index,
                c,
            ).contains(fin.nodes[i].id) by {
                assert(matches_seed(fin.nodes[i], i));
                let j = choose|j: int|
                    0 <= j < canonical_context_views().len() && canonical_context_views()[j] == c;
                lemma_entry_pos_props(fin.index, c);
                let q = entry_pos(fin.index, c);
                if q == -1 {
                    assert(fin.index[j].context != c);
                    assert(false);
                }
                assert(index_lookup(fin.index, c) == fin.index[q].node_ids);
                assert(fin.index[q].node_ids == seed_ids());
                assert(seed_ids()[i] == fin.nodes[i].id);
                assert(index_lookup(fin.index, c).contains(fin.nodes[i].id));
            }
            assert forall|j: int, k: int|
                0 <= j < fin.index.len() && 0 <= k < fin.index[j].node_ids.len() implies ({
                let p = id_pos(fin.nodes, #[trigger] fin.index[j].node_ids[k]);
                p >= 0 && fin.nodes[p].contexts.contains(fin.index[j].context)
            }) by {
                assert(fin.index[j].node_ids == seed_ids());
                assert(fin.index[j].node_ids[k] == seed_id(k));
                lemma_id_pos_props(fin.nodes, seed_id(k));
                let p = id_pos(fin.nodes, seed_id(k));
                assert(matches_seed(fin.nodes[k], k));
                assert(fin.nodes[k].id == seed_id(k));
                assert forall|a: int| 0 <= a < k implies (#[trigger] fin.nodes[a]).id
                    != seed_id(k) by {
                    assert(matches_seed(fin.nodes[a], a));
                    assert(seed_id(a) != seed_id(k));
                }
                if p == -1 {
                    assert(fin.nodes[k].id != seed_id(k));
                    assert(false);
                }
                if p < k {
                    assert(fin.nodes[p].id != seed_id(k));
                    assert(false);
                }
                if p > k {
                    assert(fin.nodes[k].id != seed_id(k));
                    assert(false);
                }
                assert(p == k);
                assert(fin.nodes[k].contexts == canonical_context_views());
                assert(fin.nodes[k].contexts[j] == fin.index[j].context);
                assert(fin.nodes[k].contexts.contains(fin.index[j].context));
            }
        }
    }

    /// A store seeded with the twelve base nodes of the codex, each
    /// expanded across the whole taxonomy.
    pub fn with_config(config: StorageConfig) -> (r: Self)
        ensures
            store_wf(r@),
            index_consistent(r@),
            store_seeded(r@),
            r@.config == config@,
    {
        let mut s = Self::empty(config);
        s.initialize_fractal_nodes();
        s
    }

    /// A seeded store whose base path is the given one and whose other
    /// settings are the stock configuration.
    pub fn new(storage_path: &str) -> (r: Self)
        ensures
            store_wf(r@),
            index_consistent(r@),
            store_seeded(r@),
            r@.config.base_path == storage_path@,
            r@.config.max_nodes == 1000,
            r@.config.max_contributions == 10000,
            r@.config.enable_persistence,
            r@.config.fractal_levels == seq![1u32, 2u32],
            r@.config.supported_contexts == canonical_context_views(),
            r@.config.resonance_threshold == 500,
    {
        let mut config = StorageConfig::default();
        config.base_path = storage_path.to_owned();
        Self::with_config(config)
    }

    /// A read-only expansion view of a stored base node: its contexts
    /// grouped by family, hybrid contexts replicated into every group.
    pub fn get_fractal_expansion(&self, node_id: &str) -> (r: Result<ExpansionResult, StoreError>)
        ensures
            r is Ok <==> ({
                let p = id_pos(self@.nodes, node_id@);
                p >= 0 && self@.nodes[p].fractal_level == 1
            }),
            r == Err::<ExpansionResult, StoreError>(StoreError::NotFound) <==> !has_node_id(
                self@.nodes,
                node_id@,
            ),
            r == Err::<ExpansionResult, StoreError>(StoreError::InvalidExpansionTarget) <==> ({
                let p = id_pos(self@.nodes, node_id@);
                p >= 0 && self@.nodes[p].fractal_level != 1
            }),
            r matches Ok(e) ==> ({
                let p = id_pos(self@.nodes, node_id@);
                &&& e@.base_node == self@.nodes[p]
                &&& e@.scientific == self@.nodes[p].contexts.filter(
                    (|c: CtxView| exp_group_scientific(c)),
                )
                &&& e@.symbolic == self@.nodes[p].contexts.filter(
                    (|c: CtxView| exp_group_symbolic(c)),
                )
                &&& e@.water == self@.nodes[p].contexts.filter((|c: CtxView| exp_group_water(c)))
                &&& e@.total_contexts == self@.nodes[p].contexts.len()
            }),
    {
        let ghost psci = |c: CtxView| exp_group_scientific(c);
        let ghost psym = |c: CtxView| exp_group_symbolic(c);
        let ghost pwat = |c: CtxView| exp_group_water(c);
        let n = self.nodes.len();
        let key: String = node_id.to_owned();
        let mut i: usize = 0;
        let mut pos: usize = n;
        while i < n
            invariant
                n == self@.nodes.len(),
                i <= n,
                key@ == node_id@,
                pos == n || (pos < i && self@.nodes[pos as int].id == node_id@ && forall|j: int|
                    0 <= j < pos ==> (#[trigger] self@.nodes[j]).id != node_id@),
                pos == n ==> forall|j: int|
                    0 <= j < i ==> (#[trigger] self@.nodes[j]).id != node_id@,
            decreases n - i,
        {
            if pos == n && self.nodes[i].id == key {
                pos = i;
                proof {
                    assert(self@.nodes[i as int].id == node_id@);
                }
            }
            i += 1;
        }
        proof {
            lemma_id_pos_props(self@.nodes, node_id@);
        }
        let ghost p = id_pos(self@.nodes, node_id@);
        if pos == n {
            return Err(StoreError::NotFound);
        }
        proof {
            assert(p == pos as int);
        }
        if self.nodes[pos].fractal_level != 1 {
            return Err(StoreError::InvalidExpansionTarget);
        }
        let node = self.nodes[pos].clone();
        let ghost cv = self@.nodes[p].contexts;
        proof {
            assert(node@.contexts == cv);
            assert(cv.take(0) =~= Seq::<CtxView>::empty());
        }
        let total = node.contexts.len();
        let mut sci: Vec<ContextType> = Vec::new();
        let mut sym: Vec<ContextType> = Vec::new();
        let mut wat: Vec<ContextType> = Vec::new();
        let mut k: usize = 0;
        while k < total
            invariant
                total == cv.len(),
                node@.contexts == cv,
                k <= total,
                psci == (|c: CtxView| exp_group_scientific(c)),
                psym == (|c: CtxView| exp_group_symbolic(c)),
                pwat == (|c: CtxView| exp_group_water(c)),
                crate::contexts::ctx_views(sci@) == cv.take(k as int).filter(psci),
                crate::contexts::ctx_views(sym@) == cv.take(k as int).filter(psym),
                crate::contexts::ctx_views(wat@) == cv.take(k as int).filter(pwat),
            decreases total - k,
        {
            proof {
                lemma_filter_take_step(cv, psci, k as int);
                lemma_filter_take_step(cv, psym, k as int);
                lemma_filter_take_step(cv, pwat, k as int);
            }
            let c = &node.contexts[k];
            let in_sci = matches!(c, ContextType::Scientific(_) | ContextType::Hybrid(_));
            let in_sym = matches!(c, ContextType::Symbolic(_) | ContextType::Hybrid(_));
            let in_wat = matches!(c, ContextType::Water(_) | ContextType::Hybrid(_));
            proof {
                assert(c@ == cv[k as int]);
                assert(in_sci == psci(cv[k as int]));
                assert(in_sym == psym(cv[k as int]));
                assert(in_wat == pwat(cv[k as int]));
            }
            if in_sci {
                let ghost rpre = sci@;
                sci.push(c.clone());
                proof {
                    assert(crate::contexts::ctx_views(rpre).len() == rpre.len());
                    assert forall|j: int| 0 <= j < rpre.len() + 1 implies crate::contexts::ctx_views(
                        sci@,
                    )[j] == cv.take(k + 1).filter(psci)[j] by {
                        if j < rpre.len() {
                            assert(sci@[j] == rpre[j]);
                            assert(crate::contexts::ctx_views(rpre)[j] == cv.take(k as int).filter(
                                psci,
                            )[j]);
                        }
                    }
                    assert(crate::contexts::ctx_views(sci@) =~= cv.take(k + 1).filter(psci));
                }
            }
            if in_sym {
                let ghost rpre = sym@;
                sym.push(c.clone());
                proof {
                    assert(crate::contexts::ctx_views(rpre).len() == rpre.len());
                    assert forall|j: int| 0 <= j < rpre.len() + 1 implies crate::contexts::ctx_views(
                        sym@,
                    )[j] == cv.take(k + 1).filter(psym)[j] by {
                        if j < rpre.len() {
                            assert(sym@[j] == rpre[j]);
                            assert(crate::contexts::ctx_views(rpre)[j] == cv.take(k as int).filter(
                                psym,
                            )[j]);
                        }
                    }
                    assert(crate::contexts::ctx_views(sym@) =~= cv.take(k + 1).filter(psym));
                }
            }
            if in_wat {
                let ghost rpre = wat@;
                wat.push(c.clone());
                proof {
                    assert(crate::contexts::ctx_views(rpre).len() == rpre.len());
                    assert forall|j: int| 0 <= j < rpre.len() + 1 implies crate::contexts::ctx_views(
                        wat@,
                    )[j] == cv.take(k + 1).filter(pwat)[j] by {
                        if j < rpre.len() {
                            assert(wat@[j] == rpre[j]);
                            assert(crate::contexts::ctx_views(rpre)[j] == cv.take(k as int).filter(
                                pwat,
                            )[j]);
                        }
                    }
                    assert(crate::contexts::ctx_views(wat@) =~= cv.take(k + 1).filter(pwat));
                }
            }
            k += 1;
        }
        proof {
            lemma_filter_take_all(cv, psci);
            lemma_filter_take_all(cv, psym);
            lemma_filter_take_all(cv, pwat);
        }
        Ok(ExpansionResult { base_node: node, scientific: sci, symbolic: sym, water: wat, total_contexts: total })
    }

    /// The nodes currently indexed under a context value, resolved
    /// through the node table, as copies; an unknown context yields the
    /// empty list.
    pub fn get_context_nodes(&self, context: &ContextType) -> (r: Vec<FractalNode>)
        ensures
            node_views(r@) == resolve_ids(self@.nodes, index_lookup(self@.index, context@)),
    {
        let ghost f = |id: Seq<char>|
            match find_node(self@.nodes, id) {
                Some(n) => seq![n],
                None => Seq::<NodeView>::empty(),
            };
        let n = self.node_contexts.len();
        let mut i: usize = 0;
        let mut pos: usize = n;
        while i < n
            invariant
                n == self@.index.len(),
                i <= n,
                pos == n || (pos < i && self@.index[pos as int].context == context@ && forall|
                    j: int,
                |
                    0 <= j < pos ==> (#[trigger] self@.index[j]).context != context@),
                pos == n ==> forall|j: int|
                    0 <= j < i ==> (#[trigger] self@.index[j]).context != context@,
            decreases n - i,
        {
            if pos == n && self.node_contexts[i].context == *context {
                pos = i;
                proof {
                    assert(self@.index[i as int].context == context@);
                }
            }
            i += 1;
        }
        proof {
            lemma_entry_pos_props(self@.index, context@);
        }
        let mut r: Vec<FractalNode> = Vec::new();
        if pos == n {
            proof {
                assert(index_lookup(self@.index, context@) =~= Seq::<Seq<char>>::empty());
                assert(resolve_ids(self@.nodes, index_lookup(self@.index, context@)) =~= Seq::<
                    NodeView,
                >::empty());
                assert(node_views(r@) =~= Seq::<NodeView>::empty());
            }
            return r;
        }
        proof {
            assert(entry_pos(self@.index, context@) == pos as int);
        }
        let ghost lk = index_lookup(self@.index, context@);
        let ids = &self.node_contexts[pos].node_ids;
        let m = ids.len();
        proof {
            assert(str_views(ids@) == lk);
            assert(lk.take(0) =~= Seq::<Seq<char>>::empty());
        }
        let mut k: usize = 0;
        while k < m
            invariant
                m == lk.len(),
                str_views(ids@) == lk,
                ids@.len() == lk.len(),
                k <= m,
                f == (|id: Seq<char>|
                    match find_node(self@.nodes, id) {
                        Some(n) => seq![n],
                        None => Seq::<NodeView>::empty(),
                    }),
                node_views(r@) == seq_flat(lk.take(k as int), f),
            decreases m - k,
        {
            proof {
                lemma_seq_flat_take_step(lk, f, k as int);
                assert(str_views(ids@)[k as int] == ids@[k as int]@);
            }
            match self.get_node(ids[k].as_str()) {
                Some(nd) => {
                    let ghost rpre = r@;
                    let ghost ndv = nd@;
                    r.push(nd);
                    proof {
                        assert(f(lk[k as int]) =~= seq![ndv]);
                        assert(node_views(rpre).len() == rpre.len());
                        assert forall|j: int| 0 <= j < rpre.len() + 1 implies node_views(r@)[j]
                            == seq_flat(lk.take(k + 1), f)[j] by {
                            if j < rpre.len() {
                                assert(r@[j] == rpre[j]);
                                assert(node_views(rpre)[j] == seq_flat(lk.take(k as int), f)[j]);
                            } else {
                                assert(seq_flat(lk.take(k + 1), f) == seq_flat(
                                    lk.take(k as int),
                                    f,
                                ) + seq![ndv]);
                            }
                        }
                        assert(node_views(r@) =~= seq_flat(lk.take(k + 1), f));
                    }
                },
                None => {
                    proof {
                        assert(f(lk[k as int]) =~= Seq::<NodeView>::empty());
                        assert(seq_flat(lk.take(k + 1), f) =~= seq_flat(lk.take(k as int), f));
                    }
                },
            }
            k += 1;
        }
        proof {
            lemma_seq_flat_take_all(lk, f);
            assert(lk.take(lk.len() as int) =~= lk);
        }
        r
    }

    /// Replace the statistics counters with a full recount of both
    /// tables; under well-formedness the recount returns exactly the
    /// incrementally maintained values.
    pub fn update_stats(&mut self)
        requires
            store_wf(old(self)@),
        ensures
            store_wf(final(self)@),
            final(self)@.nodes == old(self)@.nodes,
            final(self)@.contributions == old(self)@.contributions,
            final(self)@.index == old(self)@.index,
            final(self)@.config == old(self)@.config,
            stats_same_static(old(self)@.stats, final(self)@.stats),
            final(self)@.stats.total_nodes == level1_count(old(self)@.nodes),
            final(self)@.stats.total_subnodes == sublevel_count(old(self)@.nodes),
            final(self)@.stats.total_contributions == old(self)@.contributions.len(),
            final(self)@.stats.total_nodes == old(self)@.stats.total_nodes,
            final(self)@.stats.total_subnodes == old(self)@.stats.total_subnodes,
            final(self)@.stats.total_contributions == old(self)@.stats.total_contributions,
    {
        let ghost lvl1 = |n: NodeView| n.fractal_level == 1;
        let ghost lvlo = |n: NodeView| n.fractal_level != 1;
        let n = self.nodes.len();
        let mut a: usize = 0;
        let mut b: usize = 0;
        let mut i: usize = 0;
        proof {
            assert(self@.nodes.take(0) =~= Seq::<NodeView>::empty());
        }
        while i < n
            invariant
                *self == *old(self),
                n == self@.nodes.len(),
                i <= n,
                lvl1 == (|n: NodeView| n.fractal_level == 1),
                lvlo == (|n: NodeView| n.fractal_level != 1),
                a as int == self@.nodes.take(i as int).filter(lvl1).len(),
                b as int == self@.nodes.take(i as int).filter(lvlo).len(),
                a + b == i,
            decreases n - i,
        {
            proof {
                lemma_filter_take_step(self@.nodes, lvl1, i as int);
                lemma_filter_take_step(self@.nodes, lvlo, i as int);
            }
            if self.nodes[i].fractal_level == 1 {
                a += 1;
            } else {
                b += 1;
            }
            i += 1;
        }
        proof {
            lemma_filter_take_all(self@.nodes, lvl1);
            lemma_filter_take_all(self@.nodes, lvlo);
        }
        self.stats.total_nodes = a;
        self.stats.total_subnodes = b;
        self.stats.total_contributions = self.contributions.len();
        self.stats.last_updated = now_millis();
    }

    /// The nodes of one context family (`"scientific"`, `"symbolic"` or
    /// `"water"`); any other family name is a bad request and changes
    /// nothing.
    pub fn get_nodes_by_context_family(&self, family: &str) -> (r: Result<
        Vec<FractalNode>,
        StoreError,
    >)
        ensures
            r is Ok <==> (family@ == "scientific"@ || family@ == "symbolic"@ || family@
                == "water"@),
            r matches Err(e) ==> e == StoreError::BadRequest,
            r matches Ok(v) ==> node_views(v@) == (if family@ == "scientific"@ {
                family_bucket(self@.nodes, (|c: CtxView| in_family_scientific(c)))
            } else if family@ == "symbolic"@ {
                family_bucket(self@.nodes, (|c: CtxView| in_family_symbolic(c)))
            } else {
                family_bucket(self@.nodes, (|c: CtxView| in_family_water(c)))
            }),
    {
        let is_sci = crate::support::str_eq(family, "scientific");
        let is_sym = crate::support::str_eq(family, "symbolic");
        let is_wat = crate::support::str_eq(family, "water");
        if !is_sci && !is_sym && !is_wat {
            return Err(StoreError::BadRequest);
        }
        let groups = group_nodes_by_context(&self.nodes);
        if is_sci {
            Ok(groups.scientific)
        } else if is_sym {
            Ok(groups.symbolic)
        } else {
            Ok(groups.water)
        }
    }

    /// An estimate of the store's size: the total text length, in
    /// characters, of both tables, saturating at what a 64-bit counter
    /// can hold.
    pub fn get_storage_size(&self) -> (r: u64)
        ensures
            r as int == clamp_u64(spec_storage_size(self@)),
    {
        let ghost fnode = |n: NodeView| spec_node_size(n);
        let ghost fcon = |c: ContributionView| spec_contribution_size(c);
        let ghost fstr = |a: Seq<char>| a.len() as int;
        proof {
            assert forall|a: Seq<char>| #[trigger] fstr(a) >= 0 by {}
            assert forall|n: NodeView| #[trigger] fnode(n) >= 0 by {
                lemma_seq_sum_nonneg(n.archetype, fstr);
            }
            assert forall|c: ContributionView| #[trigger] fcon(c) >= 0 by {}
            assert(self@.nodes.take(0) =~= Seq::<NodeView>::empty());
        }
        let nn = self.nodes.len();
        let mut acc: u64 = 0;
        let mut i: usize = 0;
        while i < nn
            invariant
                nn == self@.nodes.len(),
                i <= nn,
                fnode == (|n: NodeView| spec_node_size(n)),
                fstr == (|a: Seq<char>| a.len() as int),
                forall|n: NodeView| #[trigger] fnode(n) >= 0,
                forall|a: Seq<char>| #[trigger] fstr(a) >= 0,
                acc as int == clamp_u64(seq_sum(self@.nodes.take(i as int), fnode)),
            decreases nn - i,
        {
            let ghost nd = self@.nodes[i as int];
            let idl = self.nodes[i].id.as_str().unicode_len();
            let nal = self.nodes[i].name.as_str().unicode_len();
            let mut nodesz: u64 = sat_add_u64(idl as u64, nal as u64);
            let na = self.nodes[i].archetype.len();
            let mut t: usize = 0;
            proof {
                assert(nd.archetype.take(0) =~= Seq::<Seq<char>>::empty());
                assert(nodesz as int == clamp_u64(
                    nd.id.len() + nd.name.len() + seq_sum(nd.archetype.take(0), fstr),
                ));
            }
            while t < na
                invariant
                    0 <= i < self@.nodes.len(),
                    nd == self@.nodes[i as int],
                    na == nd.archetype.len(),
                    t <= na,
                    fstr == (|a: Seq<char>| a.len() as int),
                    forall|a: Seq<char>| #[trigger] fstr(a) >= 0,
                    nodesz as int == clamp_u64(
                        nd.id.len() + nd.name.len() + seq_sum(nd.archetype.take(t as int), fstr),
                    ),
                decreases na - t,
            {
                let al = self.nodes[i].archetype[t].as_str().unicode_len();
                proof {
                    lemma_seq_sum_take_step(nd.archetype, fstr, t as int);
                    lemma_seq_sum_nonneg(nd.archetype.take(t as int), fstr);
                    assert(nd.archetype[t as int] == self@.nodes[i as int].archetype[t as int]);
                    lemma_clamp_chain(
                        nd.id.len() + nd.name.len() + seq_sum(nd.archetype.take(t as int), fstr),
                        al as int,
                    );
                }
                nodesz = sat_add_u64(nodesz, al as u64);
                t += 1;
            }
            proof {
                lemma_seq_sum_take_all(nd.archetype, fstr);
                assert(nodesz as int == clamp_u64(fnode(nd)));
                lemma_seq_sum_take_step(self@.nodes, fnode, i as int);
                lemma_seq_sum_nonneg(self@.nodes.take(i as int), fnode);
                lemma_clamp_chain(seq_sum(self@.nodes.take(i as int), fnode), fnode(nd));
            }
            acc = sat_add_u64(acc, nodesz);
            i += 1;
        }
        proof {
            lemma_seq_sum_take_all(self@.nodes, fnode);
            assert(self@.contributions.take(0) =~= Seq::<ContributionView>::empty());
        }
        let ghost ns = seq_sum(self@.nodes, fnode);
        let nc = self.contributions.len();
        let mut j: usize = 0;
        while j < nc
            invariant
                nc == self@.contributions.len(),
                j <= nc,
                ns == seq_sum(self@.nodes, (|n: NodeView| spec_node_size(n))),
                ns >= 0,
                fcon == (|c: ContributionView| spec_contribution_size(c)),
                forall|c: ContributionView| #[trigger] fcon(c) >= 0,
                acc as int == clamp_u64(ns + seq_sum(self@.contributions.take(j as int), fcon)),
            decreases nc - j,
        {
            let ghost cd = self@.contributions[j as int];
            let idl = self.contributions[j].id.as_str().unicode_len();
            let ndl = self.contributions[j].node_id.as_str().unicode_len();
            let usl = self.contributions[j].user_id.as_str().unicode_len();
            let col = self.contributions[j].content.as_str().unicode_len();
            let mut csz: u64 = sat_add_u64(idl as u64, ndl as u64);
            csz = sat_add_u64(csz, usl as u64);
            csz = sat_add_u64(csz, col as u64);
            proof {
                lemma_clamp_chain(cd.id.len() + cd.node_id.len() as int, cd.user_id.len() as int);
                lemma_clamp_chain(
                    cd.id.len() + cd.node_id.len() + cd.user_id.len() as int,
                    cd.content.len() as int,
                );
                assert(csz as int == clamp_u64(fcon(cd)));
                lemma_seq_sum_take_step(self@.contributions, fcon, j as int);
                lemma_seq_sum_nonneg(self@.contributions.take(j as int), fcon);
                lemma_clamp_chain(ns + seq_sum(self@.contributions.take(j as int), fcon), fcon(cd));
            }
            acc = sat_add_u64(acc, csz);
            j += 1;
        }
        proof {
            lemma_seq_sum_take_all(self@.contributions, fcon);
        }
        acc
    }
}

/// The nodes whose resonance reaches the given floor, in input order, as
/// copies.
pub fn filter_nodes_by_resonance(nodes: &Vec<FractalNode>, min_resonance: u32) -> (r: Vec<
    FractalNode,
>)
    ensures
        node_views(r@) == node_views(nodes@).filter((|n: NodeView| n.resonance >= min_resonance)),
{
    let ghost p = |n: NodeView| n.resonance >= min_resonance;
    let ghost nv = node_views(nodes@);
    let n = nodes.len();
    let mut r: Vec<FractalNode> = Vec::new();
    let mut i: usize = 0;
    proof {
        assert(nv.take(0) =~= Seq::<NodeView>::empty());
    }
    while i < n
        invariant
            n == nodes@.len(),
            nv == node_views(nodes@),
            i <= n,
            p == (|n: NodeView| n.resonance >= min_resonance),
            node_views(r@) == nv.take(i as int).filter(p),
        decreases n - i,
    {
        proof {
            lemma_filter_take_step(nv, p, i as int);
        }
        if nodes[i].resonance >= min_resonance {
            let ghost rpre = r@;
            r.push(nodes[i].clone());
            proof {
                assert(node_views(rpre).len() == rpre.len());
                assert forall|j: int| 0 <= j < rpre.len() + 1 implies node_views(r@)[j] == nv.take(
                    i + 1,
                ).filter(p)[j] by {
                    if j < rpre.len() {
                        assert(r@[j] == rpre[j]);
                        assert(node_views(rpre)[j] == nv.take(i as int).filter(p)[j]);
                    }
                }
                assert(node_views(r@) =~= nv.take(i + 1).filter(p));
            }
        }
        i += 1;
    }
    proof {
        lemma_filter_take_all(nv, p);
    }
    r
}

/// Sort nodes by resonance, highest first; the multiset of nodes is
/// unchanged.
pub fn sort_nodes_by_resonance(nodes: &mut Vec<FractalNode>)
    ensures
        final(nodes)@.len() == old(nodes)@.len(),
        forall|a: int, b: int|
            0 <= a < b < final(nodes)@.len() ==> node_views(final(nodes)@)[a].resonance
                >= node_views(final(nodes)@)[b].resonance,
        node_views(final(nodes)@).to_multiset() == node_views(old(nodes)@).to_multiset(),
{
    let n = nodes.len();
    let mut i: usize = 0;
    while i < n
        invariant
            n == nodes@.len(),
            i <= n,
            node_views(nodes@).to_multiset() == node_views(old(nodes)@).to_multiset(),
            forall|a: int, b: int|
                0 <= a < b < i ==> node_views(nodes@)[a].resonance >= node_views(
                    nodes@,
                )[b].resonance,
            forall|a: int, b: int|
                0 <= a < i <= b < n ==> node_views(nodes@)[a].resonance >= node_views(
                    nodes@,
                )[b].resonance,
        decreases n - i,
    {
        let mut best: usize = i;
        let mut k: usize = i + 1;
        while k < n
            invariant
                n == nodes@.len(),
                i <= best < n,
                i < k <= n,
                forall|m: int|
                    i <= m < k ==> node_views(nodes@)[best as int].resonance >= node_views(
                        nodes@,
                    )[m].resonance,
            decreases n - k,
        {
            if nodes[k].resonance > nodes[best].resonance {
                best = k;
            }
            k += 1;
        }
        if best != i {
            let ghost pre = nodes@;
            let a = nodes[i].clone();
            let b = nodes[best].clone();
            let ghost av = a;
            let ghost bv = b;
            nodes.set(i, b);
            proof {
                lemma_node_views_update(pre, i as int, bv);
            }
            nodes.set(best, a);
            proof {
                broadcast use vstd::seq_lib::group_to_multiset_ensures;
                broadcast use vstd::multiset::group_multiset_axioms;

                lemma_node_views_update(pre.update(i as int, bv), best as int, av);
                let v0 = node_views(pre);
                let v2 = node_views(nodes@);
                assert(v2 == v0.update(i as int, bv@).update(best as int, av@));
                assert(v0.update(i as int, bv@).to_multiset() == v0.to_multiset().insert(
                    bv@,
                ).remove(v0[i as int]));
                assert(v2.to_multiset() == v0.update(i as int, bv@).to_multiset().insert(
                    av@,
                ).remove(v0.update(i as int, bv@)[best as int]));
                assert(v0.update(i as int, bv@)[best as int] == v0[best as int]);
                assert(av@ == v0[i as int]);
                assert(bv@ == v0[best as int]);
                assert(v2.to_multiset() =~= v0.to_multiset());
            }
        }
        i += 1;
    }
}

} // verus!
