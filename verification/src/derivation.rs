//! The derivation reconstructor: turning a complete edge's recorded history
//! back into a labeled ordered parse tree.
//!
//! The tree of an edge is rooted at its rule's left-hand-side nonterminal.
//! Its children follow the rule's right-hand side in order: each terminal
//! symbol becomes a leaf, and each nonterminal symbol becomes the
//! recursively reconstructed tree of the next history entry.  (Terminals
//! never appear in histories, so they are re-inserted from the right-hand
//! side here.)  The recursion is well founded because a well-formed chart's
//! histories only ever point at earlier edges of the store; an edge whose
//! history is too short for its rule — which a well-formed chart never
//! stores — contributes bare nonterminal leaves instead.

use vstd::prelude::*;

use crate::chart::Chart;
use crate::edge::ChartEdge;
use crate::edge::EdgeModel;
use crate::grammar::Symbol;
use crate::tree::Tree;
use crate::tree::TreeModel;

verus! {

/// The children of the tree of edge `e`: the right-hand side from position
/// `pos` on, with nonterminals resolved through the history from entry `k`
/// on.  Only history entries below `bound` are followed, which grounds the
/// recursion.
pub open spec fn spec_tree_children(
    edges: Seq<EdgeModel>,
    e: EdgeModel,
    bound: int,
    pos: int,
    k: int,
) -> Seq<TreeModel>
    decreases bound, 0int, e.dotted_rule.production.rhs.len() - pos,
{
    let rhs = e.dotted_rule.production.rhs;
    if pos < 0 || pos >= rhs.len() {
        Seq::empty()
    } else {
        let child = match rhs[pos] {
            Symbol::Terminal(t) => TreeModel {
                value: Symbol::Terminal(t),
                children: Seq::empty(),
            },
            Symbol::Nonterminal(n) => {
                if 0 <= k < e.history.len() && 0 <= e.history[k] < bound {
                    spec_tree_at(edges, e.history[k] as int)
                } else {
                    TreeModel { value: Symbol::Nonterminal(n), children: Seq::empty() }
                }
            },
        };
        let next_k = if rhs[pos] is Nonterminal {
            k + 1
        } else {
            k
        };
        seq![child] + spec_tree_children(edges, e, bound, pos + 1, next_k)
    }
}

/// The derivation tree of the edge stored at index `i` of the edge store.
pub open spec fn spec_tree_at(edges: Seq<EdgeModel>, i: int) -> TreeModel
    decreases i, 1int, 0int,
{
    if 0 <= i < edges.len() {
        let e = edges[i];
        TreeModel {
            value: Symbol::Nonterminal(e.dotted_rule.production.lhs),
            children: spec_tree_children(edges, e, i, 0, 0),
        }
    } else {
        TreeModel { value: Symbol::Nonterminal(0), children: Seq::empty() }
    }
}

/// The derivation tree of the edge `e` against the edge store `edges`.
pub open spec fn spec_tree_of(edges: Seq<EdgeModel>, e: EdgeModel) -> TreeModel {
    TreeModel {
        value: Symbol::Nonterminal(e.dotted_rule.production.lhs),
        children: spec_tree_children(edges, e, edges.len() as int, 0, 0),
    }
}

/// Builds the derivation tree of the edge stored at index `i`.
fn build_tree_at(chart: &Chart, i: usize) -> (t: Tree)
    requires
        i < chart@.edges.len(),
    ensures
        t@ == spec_tree_at(chart@.edges, i as int),
    decreases i, 1int,
{
    let e = chart.edge_at(i);
    let lhs = *e.dotted_rule.production().lhs();
    let children = build_children(chart, e, i);
    let t = Tree::new(Symbol::Nonterminal(lhs), children);
    proof {
        assert(t@ =~= spec_tree_at(chart@.edges, i as int));
    }
    t
}

/// Builds the children of the tree of `edge`: leaves for terminals,
/// recursively built subtrees for nonterminals, in right-hand-side order.
fn build_children(chart: &Chart, edge: &ChartEdge, bound: usize) -> (v: Vec<Tree>)
    requires
        bound <= chart@.edges.len(),
    ensures
        v@.map_values(|t: Tree| t@) == spec_tree_children(
            chart@.edges,
            edge@,
            bound as int,
            0,
            0,
        ),
    decreases bound, 0int,
{
    let ghost all = chart@.edges;
    let ghost em = edge@;
    let ghost full = spec_tree_children(all, em, bound as int, 0, 0);
    let rhs = edge.dotted_rule.production().rhs();
    let mut v: Vec<Tree> = Vec::new();
    let mut pos: usize = 0;
    let mut k: usize = 0;
    while pos < rhs.len()
        invariant
            bound <= all.len(),
            all == chart@.edges,
            em == edge@,
            full == spec_tree_children(all, em, bound as int, 0, 0),
            rhs@ == em.dotted_rule.production.rhs,
            0 <= pos <= rhs@.len(),
            0 <= k <= pos,
            em.history == edge.history@,
            full =~= v@.map_values(|t: Tree| t@) + spec_tree_children(
                all,
                em,
                bound as int,
                pos as int,
                k as int,
            ),
        decreases rhs@.len() - pos,
    {
        let ghost prefix = v@.map_values(|t: Tree| t@);
        let ghost rest = spec_tree_children(all, em, bound as int, pos as int, k as int);
        let child: Tree = match rhs[pos] {
            Symbol::Terminal(t) => {
                let no_children: Vec<Tree> = Vec::new();
                let leaf = Tree::new(Symbol::Terminal(t), no_children);
                proof {
                    assert(leaf@.children =~= Seq::<TreeModel>::empty());
                    assert(leaf@ =~= (TreeModel {
                        value: Symbol::Terminal(t),
                        children: Seq::empty(),
                    }));
                }
                leaf
            },
            Symbol::Nonterminal(n) => {
                if k < edge.history.len() && edge.history[k] < bound {
                    let h = edge.history[k];
                    build_tree_at(chart, h)
                } else {
                    let no_children: Vec<Tree> = Vec::new();
                    let leaf = Tree::new(Symbol::Nonterminal(n), no_children);
                    proof {
                        assert(leaf@.children =~= Seq::<TreeModel>::empty());
                        assert(leaf@ =~= (TreeModel {
                            value: Symbol::Nonterminal(n),
                            children: Seq::empty(),
                        }));
                    }
                    leaf
                }
            },
        };
        let next_k = match rhs[pos] {
            Symbol::Nonterminal(_) => k + 1,
            Symbol::Terminal(_) => k,
        };
        proof {
            assert(rest =~= seq![child@] + spec_tree_children(
                all,
                em,
                bound as int,
                pos as int + 1,
                next_k as int,
            ));
        }
        v.push(child);
        proof {
            assert(v@.map_values(|t: Tree| t@) =~= prefix.push(child@));
            assert(prefix.push(child@) + spec_tree_children(
                all,
                em,
                bound as int,
                pos as int + 1,
                next_k as int,
            ) =~= prefix + rest);
        }
        pos += 1;
        k = next_k;
    }
    proof {
        assert(spec_tree_children(all, em, bound as int, pos as int, k as int) =~= Seq::empty());
        assert(full =~= v@.map_values(|t: Tree| t@));
    }
    v
}

impl ChartEdge {
    /// Reconstructs one concrete parse from this edge's recorded history,
    /// against the chart that discovered it: an ordered tree rooted at the
    /// rule's left-hand side, with the rule's terminals as leaves and its
    /// nonterminals as the recursively reconstructed history entries, in
    /// right-hand-side order.
    pub fn generate_derivation_tree(&self, chart: &Chart) -> (t: Tree)
        ensures
            t@ == spec_tree_of(chart@.edges, self@),
    {
        let lhs = *self.dotted_rule.production().lhs();
        let bound = chart.edge_store_len();
        let children = build_children(chart, self, bound);
        let t = Tree::new(Symbol::Nonterminal(lhs), children);
        proof {
            assert(t@ =~= spec_tree_of(chart@.edges, self@));
        }
        t
    }
}

impl Chart {
    /// The derivation trees of every recorded complete derivation, in
    /// discovery order.
    pub fn generate_derivation_trees(&self) -> (v: Vec<Tree>)
        ensures
            v@.len() == self@.complete_derivations.len(),
            forall|i: int|
                0 <= i < v@.len() ==> (#[trigger] v@[i])@ == spec_tree_of(
                    self@.edges,
                    self@.complete_derivations[i],
                ),
    {
        let ds = self.derivations_ref();
        let mut v: Vec<Tree> = Vec::new();
        let mut i: usize = 0;
        while i < ds.len()
            invariant
                0 <= i <= ds@.len(),
                ds@.map_values(|e: ChartEdge| e@) == self@.complete_derivations,
                v@.len() == i,
                forall|l: int|
                    0 <= l < i ==> (#[trigger] v@[l])@ == spec_tree_of(
                        self@.edges,
                        self@.complete_derivations[l],
                    ),
            decreases ds@.len() - i,
        {
            let t = ds[i].generate_derivation_tree(self);
            proof {
                assert(ds@[i as int]@ == self@.complete_derivations[i as int]);
            }
            v.push(t);
            i += 1;
        }
        v
    }
}

} // verus!
