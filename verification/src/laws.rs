//! The library-wide properties of the store, stated and proved once, on
//! top of the operations' own contracts.

use vstd::prelude::*;
use crate::contexts::{CtxView, ScientificContext, SymbolicContext, WaterContext};
use crate::contexts::canonical_context_views;
use crate::hashing::content_hash_of;
use crate::models::{ContributionView, NodeView};
use crate::storage::{StoreView, expand_transition, index_consistent, store_wf};
use crate::storage::{entry_pos, id_pos, index_lookup, level1_count, sublevel_count};
use crate::storage::{hash_pos, lemma_canonical_distinct, lemma_entry_pos_props, lemma_hash_pos_props};
use crate::storage::{lemma_id_pos_props, lemma_id_pos_same_ids, lemma_id_pos_unique};
use crate::storage::lemma_index_add_all_membership;
use crate::seq_util::lemma_filter_push;

verus! {

/// Expansion is deterministic: two expansions of the node at the same
/// position, starting from the same tables, produce the same context
/// lists, the same resonances and the same index; only timestamps may
/// differ.
pub proof fn lemma_expansion_deterministic(
    pre1: StoreView,
    post1: StoreView,
    pre2: StoreView,
    post2: StoreView,
    p: int,
)
    requires
        pre1.nodes == pre2.nodes,
        pre1.index == pre2.index,
        expand_transition(pre1, post1, p),
        expand_transition(pre2, post2, p),
    ensures
        post1.nodes.len() == post2.nodes.len(),
        forall|j: int|
            0 <= j < post1.nodes.len() ==> (#[trigger] post1.nodes[j]).contexts
                == post2.nodes[j].contexts && post1.nodes[j].resonance == post2.nodes[j].resonance,
        post1.index == post2.index,
{
    assert forall|j: int|
        0 <= j < post1.nodes.len() implies (#[trigger] post1.nodes[j]).contexts
        == post2.nodes[j].contexts && post1.nodes[j].resonance == post2.nodes[j].resonance by {
        if j != p {
            assert(post1.nodes[j] == pre1.nodes[j]);
            assert(post2.nodes[j] == pre2.nodes[j]);
        }
    }
}

/// Expansion is complete: the canonical taxonomy holds exactly nine
/// context values, pairwise distinct, one for every dimension-value
/// pair and none hybrid; an expanded node therefore gains exactly nine
/// contexts, one per combination, with no duplicate among them.
pub proof fn lemma_expansion_complete()
    ensures
        canonical_context_views().len() == 9,
        forall|a: int, b: int|
            0 <= a < b < 9 ==> canonical_context_views()[a] != canonical_context_views()[b],
        forall|sc: ScientificContext|
            #[trigger] canonical_context_views().contains(CtxView::Scientific(sc)),
        forall|sy: SymbolicContext|
            #[trigger] canonical_context_views().contains(CtxView::Symbolic(sy)),
        forall|w: WaterContext| #[trigger] canonical_context_views().contains(CtxView::Water(w)),
        forall|j: int| 0 <= j < 9 ==> !((#[trigger] canonical_context_views()[j]) is Hybrid),
{
    lemma_canonical_distinct();
    let cv = canonical_context_views();
    assert forall|sc: ScientificContext| #[trigger] cv.contains(CtxView::Scientific(sc)) by {
        match sc {
            ScientificContext::Empirical => {
                assert(cv[0] == CtxView::Scientific(ScientificContext::Empirical));
            },
            ScientificContext::Theoretical => {
                assert(cv[1] == CtxView::Scientific(ScientificContext::Theoretical));
            },
            ScientificContext::Experimental => {
                assert(cv[2] == CtxView::Scientific(ScientificContext::Experimental));
            },
        }
    }
    assert forall|sy: SymbolicContext| #[trigger] cv.contains(CtxView::Symbolic(sy)) by {
        match sy {
            SymbolicContext::Archetypal => {
                assert(cv[3] == CtxView::Symbolic(SymbolicContext::Archetypal));
            },
            SymbolicContext::Cultural => {
                assert(cv[4] == CtxView::Symbolic(SymbolicContext::Cultural));
            },
            SymbolicContext::Personal => {
                assert(cv[5] == CtxView::Symbolic(SymbolicContext::Personal));
            },
        }
    }
    assert forall|w: WaterContext| #[trigger] cv.contains(CtxView::Water(w)) by {
        match w {
            WaterContext::Phase => {
                assert(cv[6] == CtxView::Water(WaterContext::Phase));
            },
            WaterContext::Flow => {
                assert(cv[7] == CtxView::Water(WaterContext::Flow));
            },
            WaterContext::Coherence => {
                assert(cv[8] == CtxView::Water(WaterContext::Coherence));
            },
        }
    }
}

/// An expansion yields the full cross-product on the node itself: its
/// context list grows by exactly nine values, it now carries every
/// dimension-value pair, and the nine appended values are pairwise
/// distinct.
pub proof fn lemma_expand_yields_full_taxonomy(pre: StoreView, post: StoreView, p: int)
    requires
        expand_transition(pre, post, p),
    ensures
        post.nodes[p].contexts.len() == pre.nodes[p].contexts.len() + 9,
        forall|sc: ScientificContext|
            #[trigger] post.nodes[p].contexts.contains(CtxView::Scientific(sc)),
        forall|sy: SymbolicContext|
            #[trigger] post.nodes[p].contexts.contains(CtxView::Symbolic(sy)),
        forall|w: WaterContext| #[trigger] post.nodes[p].contexts.contains(CtxView::Water(w)),
        forall|a: int, b: int|
            pre.nodes[p].contexts.len() <= a < b < post.nodes[p].contexts.len()
                ==> post.nodes[p].contexts[a] != post.nodes[p].contexts[b],
{
    lemma_expansion_complete();
    let cv = canonical_context_views();
    let base = pre.nodes[p].contexts.len() as int;
    let ctxs = post.nodes[p].contexts;
    assert(forall|j: int| 0 <= j < 9 ==> ctxs[base + j] == cv[j]);
    assert forall|sc: ScientificContext| #[trigger] ctxs.contains(CtxView::Scientific(sc)) by {
        let w = choose|w: int| 0 <= w < 9 && cv[w] == CtxView::Scientific(sc);
        assert(ctxs[base + w] == CtxView::Scientific(sc));
    }
    assert forall|sy: SymbolicContext| #[trigger] ctxs.contains(CtxView::Symbolic(sy)) by {
        let w = choose|w: int| 0 <= w < 9 && cv[w] == CtxView::Symbolic(sy);
        assert(ctxs[base + w] == CtxView::Symbolic(sy));
    }
    assert forall|w: WaterContext| #[trigger] ctxs.contains(CtxView::Water(w)) by {
        let q = choose|q: int| 0 <= q < 9 && cv[q] == CtxView::Water(w);
        assert(ctxs[base + q] == CtxView::Water(w));
    }
    assert forall|a: int, b: int| base <= a < b < ctxs.len() implies ctxs[a] != ctxs[b] by {
        assert(ctxs[a] == cv[a - base]);
        assert(ctxs[b] == cv[b - base]);
    }
}

/// Expansion keeps the index consistent with the node table: if every
/// context carried by a node was indexed to it and every indexed
/// identifier named a node carrying the entry's context, the same holds
/// after an expansion.
pub proof fn lemma_expand_preserves_index_consistency(pre: StoreView, post: StoreView, p: int)
    requires
        store_wf(pre),
        index_consistent(pre),
        expand_transition(pre, post, p),
    ensures
        index_consistent(post),
{
    let id = pre.nodes[p].id;
    let cs = canonical_context_views();
    lemma_index_add_all_membership(pre.index, cs, id);
    assert forall|i: int, c: CtxView|
        0 <= i < post.nodes.len() && #[trigger] post.nodes[i].contexts.contains(c) implies index_lookup(
        post.index,
        c,
    ).contains(post.nodes[i].id) by {
        if i != p {
            assert(post.nodes[i] == pre.nodes[i]);
            assert(pre.nodes[i].contexts.contains(c));
            assert(index_lookup(pre.index, c).contains(pre.nodes[i].id));
        } else {
            let w = choose|w: int|
                0 <= w < post.nodes[p].contexts.len() && post.nodes[p].contexts[w] == c;
            if w < pre.nodes[p].contexts.len() {
                assert(pre.nodes[p].contexts[w] == c);
                assert(pre.nodes[p].contexts.contains(c));
                assert(index_lookup(pre.index, c).contains(id));
            } else {
                assert(cs[w - pre.nodes[p].contexts.len()] == c);
                assert(cs.contains(c));
                assert(index_lookup(post.index, c).contains(id));
            }
        }
    }
    assert forall|j: int, k: int|
        0 <= j < post.index.len() && 0 <= k < post.index[j].node_ids.len() implies ({
        let q = id_pos(post.nodes, #[trigger] post.index[j].node_ids[k]);
        q >= 0 && post.nodes[q].contexts.contains(post.index[j].context)
    }) by {
        let ctx = post.index[j].context;
        let x = post.index[j].node_ids[k];
        assert forall|a: int| 0 <= a < post.nodes.len() implies (#[trigger] post.nodes[a]).id
            == pre.nodes[a].id by {
            if a != p {
                assert(post.nodes[a] == pre.nodes[a]);
            }
        }
        lemma_id_pos_same_ids(post.nodes, pre.nodes, x);
        if x == id && cs.contains(ctx) {
            lemma_id_pos_unique(pre.nodes, p);
            assert(id_pos(post.nodes, x) == p);
            let w = choose|w: int| 0 <= w < cs.len() && cs[w] == ctx;
            assert(post.nodes[p].contexts[pre.nodes[p].contexts.len() + w] == ctx);
            assert(post.nodes[p].contexts.contains(ctx));
        } else {
            assert(index_lookup(pre.index, ctx).contains(x));
            lemma_entry_pos_props(pre.index, ctx);
            let e = entry_pos(pre.index, ctx);
            assert(e >= 0);
            let m = choose|m: int|
                0 <= m < pre.index[e].node_ids.len() && pre.index[e].node_ids[m] == x;
            let q = id_pos(pre.nodes, x);
            lemma_id_pos_props(pre.nodes, x);
            assert(q >= 0 && pre.nodes[q].contexts.contains(ctx));
            if q == p {
                let w = choose|w: int|
                    0 <= w < pre.nodes[p].contexts.len() && pre.nodes[p].contexts[w] == ctx;
                assert(post.nodes[p].contexts[w] == ctx);
                assert(post.nodes[p].contexts.contains(ctx));
            } else {
                assert(post.nodes[q] == pre.nodes[q]);
            }
        }
    }
}

/// Appending a contribution touches neither the node table nor the
/// index, so it keeps them consistent with each other.
pub proof fn lemma_append_preserves_index_consistency(pre: StoreView, post: StoreView)
    requires
        index_consistent(pre),
        post.nodes == pre.nodes,
        post.index == pre.index,
    ensures
        index_consistent(post),
{
}

/// Storing a node keeps the index consistent when the node agrees with
/// the index about itself: it carries a context exactly when the index
/// already lists its identifier under that context. A bare, never
/// indexed node satisfies this trivially.
pub proof fn lemma_store_node_preserves_index_consistency(
    pre: StoreView,
    post: StoreView,
    node: NodeView,
)
    requires
        store_wf(pre),
        index_consistent(pre),
        post.index == pre.index,
        forall|c: CtxView|
            #[trigger] node.contexts.contains(c) <==> index_lookup(pre.index, c).contains(node.id),
        ({
            let p = id_pos(pre.nodes, node.id);
            if p >= 0 {
                post.nodes == pre.nodes.update(p, node)
            } else {
                post.nodes == pre.nodes.push(node)
            }
        }),
    ensures
        index_consistent(post),
{
    lemma_id_pos_props(pre.nodes, node.id);
    let p = id_pos(pre.nodes, node.id);
    assert forall|i: int, c: CtxView|
        0 <= i < post.nodes.len() && #[trigger] post.nodes[i].contexts.contains(c) implies index_lookup(
        post.index,
        c,
    ).contains(post.nodes[i].id) by {
        if p >= 0 && i == p {
            assert(post.nodes[i] == node);
        } else if p < 0 && i == pre.nodes.len() {
            assert(post.nodes[i] == node);
        } else {
            assert(post.nodes[i] == pre.nodes[i]);
        }
    }
    assert forall|j: int, k: int|
        0 <= j < post.index.len() && 0 <= k < post.index[j].node_ids.len() implies ({
        let q = id_pos(post.nodes, #[trigger] post.index[j].node_ids[k]);
        q >= 0 && post.nodes[q].contexts.contains(post.index[j].context)
    }) by {
        let ctx = post.index[j].context;
        let x = post.index[j].node_ids[k];
        let q0 = id_pos(pre.nodes, x);
        lemma_id_pos_props(pre.nodes, x);
        assert(q0 >= 0 && pre.nodes[q0].contexts.contains(ctx));
        assert(pre.nodes[q0].id == x);
        if p >= 0 {
            assert forall|a: int| 0 <= a < post.nodes.len() implies (#[trigger] post.nodes[a]).id
                == pre.nodes[a].id by {
                if a != p {
                    assert(post.nodes[a] == pre.nodes[a]);
                }
            }
            lemma_id_pos_same_ids(post.nodes, pre.nodes, x);
            if q0 == p {
                assert(pre.nodes[p].id == node.id);
                assert(x == node.id);
                assert(index_lookup(pre.index, ctx).contains(x));
                assert(node.contexts.contains(ctx));
                assert(post.nodes[q0] == node);
            } else {
                assert(post.nodes[q0] == pre.nodes[q0]);
            }
        } else {
            assert forall|a: int| 0 <= a < pre.nodes.len() implies (#[trigger] post.nodes[a])
                == pre.nodes[a] by {}
            lemma_id_pos_props(post.nodes, x);
            let q1 = id_pos(post.nodes, x);
            if q1 == -1 {
                assert(post.nodes[q0].id != x);
                assert(false);
            }
            if q1 < pre.nodes.len() {
                assert(post.nodes[q1] == pre.nodes[q1]);
            } else {
                assert(q1 == pre.nodes.len());
                assert(post.nodes[q1] == node);
                assert(x == node.id);
                assert(index_lookup(pre.index, ctx).contains(x));
                assert(node.contexts.contains(ctx));
            }
        }
    }
}

/// Deleting a node that the index never listed keeps the index
/// consistent. Deleting an indexed node would orphan its entries, since
/// deletion does not cascade into the index.
pub proof fn lemma_delete_preserves_index_consistency(pre: StoreView, post: StoreView, p: int)
    requires
        store_wf(pre),
        index_consistent(pre),
        0 <= p < pre.nodes.len(),
        post.nodes == pre.nodes.remove(p),
        post.index == pre.index,
        forall|j: int, k: int|
            0 <= j < pre.index.len() && 0 <= k < pre.index[j].node_ids.len()
                ==> #[trigger] pre.index[j].node_ids[k] != pre.nodes[p].id,
    ensures
        index_consistent(post),
{
    assert forall|i: int, c: CtxView|
        0 <= i < post.nodes.len() && #[trigger] post.nodes[i].contexts.contains(c) implies index_lookup(
        post.index,
        c,
    ).contains(post.nodes[i].id) by {
        if i < p {
            assert(post.nodes[i] == pre.nodes[i]);
        } else {
            assert(post.nodes[i] == pre.nodes[i + 1]);
        }
    }
    assert forall|j: int, k: int|
        0 <= j < post.index.len() && 0 <= k < post.index[j].node_ids.len() implies ({
        let q = id_pos(post.nodes, #[trigger] post.index[j].node_ids[k]);
        q >= 0 && post.nodes[q].contexts.contains(post.index[j].context)
    }) by {
        let ctx = post.index[j].context;
        let x = post.index[j].node_ids[k];
        let q0 = id_pos(pre.nodes, x);
        lemma_id_pos_props(pre.nodes, x);
        assert(q0 >= 0 && pre.nodes[q0].contexts.contains(ctx));
        assert(pre.nodes[q0].id == x);
        assert(x != pre.nodes[p].id);
        assert(q0 != p);
        let q1: int = if q0 < p {
            q0
        } else {
            q0 - 1
        };
        assert(post.nodes[q1] == pre.nodes[q0]);
        lemma_id_pos_props(post.nodes, x);
        let q = id_pos(post.nodes, x);
        if q == -1 {
            assert(post.nodes[q1].id != x);
            assert(false);
        }
        assert(post.nodes[q].id == x);
        assert forall|a: int| 0 <= a < post.nodes.len() && post.nodes[a].id == x implies a
            == q1 by {
            let a0: int = if a < p {
                a
            } else {
                a + 1
            };
            assert(post.nodes[a] == pre.nodes[a0]);
            if a0 != q0 {
                assert(pre.nodes[a0].id != pre.nodes[q0].id);
            }
        }
        assert(q == q1);
    }
}

/// The ledger is append-only: after one append, the new contribution is
/// found both among its node's contributions and among its user's, and
/// every earlier entry stands unchanged.
pub proof fn lemma_ledger_append(
    pre: Seq<ContributionView>,
    post: Seq<ContributionView>,
    c: ContributionView,
)
    requires
        post == pre.push(c),
    ensures
        post.filter((|x: ContributionView| x.node_id == c.node_id)).contains(c),
        post.filter((|x: ContributionView| x.user_id == c.user_id)).contains(c),
        post.len() == pre.len() + 1,
        forall|i: int| 0 <= i < pre.len() ==> post[i] == pre[i],
{
    let pn = |x: ContributionView| x.node_id == c.node_id;
    let pu = |x: ContributionView| x.user_id == c.user_id;
    lemma_filter_push(pre, pn, c);
    lemma_filter_push(pre, pu, c);
    let fn1 = post.filter(pn);
    let fu1 = post.filter(pu);
    assert(fn1[fn1.len() - 1] == c);
    assert(fu1[fu1.len() - 1] == c);
}

/// The content hash is deterministic: the digest computed at append time
/// and the digest recomputed at lookup time are the same function of the
/// content, so equal contents always share one hash.
pub proof fn lemma_content_hash_deterministic(a: Seq<char>, b: Seq<char>)
    requires
        a == b,
    ensures
        content_hash_of(a) == content_hash_of(b),
{
}

/// A contribution just appended is retrievable through its content hash:
/// some contribution in the ledger hashes to it.
pub proof fn lemma_appended_contribution_retrievable(
    pre: Seq<ContributionView>,
    post: Seq<ContributionView>,
    c: ContributionView,
    h: Seq<char>,
)
    requires
        post == pre.push(c),
        h == content_hash_of(c.content),
    ensures
        hash_pos(post, h) >= 0,
        content_hash_of(post[hash_pos(post, h)].content) == h,
{
    lemma_hash_pos_props(post, h);
    if hash_pos(post, h) == -1 {
        assert(content_hash_of(post[post.len() - 1].content) != h);
        assert(post[post.len() - 1] == c);
        assert(false);
    }
}

/// The statistics counters always agree with a full recount: in a
/// well-formed store, the level-1 counter is the number of level-1
/// nodes, the subnode counter the number of all other nodes, and the
/// contribution counter the ledger's length.
pub proof fn lemma_stats_match_tables(s: StoreView)
    requires
        store_wf(s),
    ensures
        s.stats.total_nodes == level1_count(s.nodes),
        s.stats.total_subnodes == sublevel_count(s.nodes),
        s.stats.total_contributions == s.contributions.len(),
{
}

} // verus!
