//! Chart edges: a dotted rule matched against a span of the input, together
//! with the edge's derivation history.
//!
//! Edges live in an arena (the chart's discovery-order edge list), and an
//! edge's history is a list of indices into that arena, one per nonterminal
//! symbol already matched, in right-hand-side order.  Two edges with the same
//! rule and span but different histories are distinct: equality includes the
//! history.

use vstd::prelude::*;

use crate::grammar::rule_eq;
use crate::grammar::DottedRule;
use crate::grammar::DottedRuleModel;

verus! {

/// Mathematical model of a chart edge.
#[verifier::ext_equal]
pub ghost struct EdgeModel {
    pub dotted_rule: DottedRuleModel,
    pub start: int,
    pub end: int,
    pub history: Seq<usize>,
}

/// A dotted rule that has matched `input[start..end)`.  The matched
/// nonterminal symbols before the dot correspond, in order, to the edges at
/// the `history` indices of the owning chart's edge list.  Immutable once
/// created.
#[derive(Debug)]
pub struct ChartEdge {
    pub dotted_rule: DottedRule,
    pub start: usize,
    pub end: usize,
    pub history: Vec<usize>,
}

impl View for ChartEdge {
    type V = EdgeModel;

    open spec fn view(&self) -> EdgeModel {
        EdgeModel {
            dotted_rule: self.dotted_rule@,
            start: self.start as int,
            end: self.end as int,
            history: self.history@,
        }
    }
}

impl Clone for ChartEdge {
    fn clone(&self) -> (r: Self)
        ensures
            r@ == self@,
    {
        let history = self.history.clone();
        proof {
            assert(history@ =~= self.history@);
        }
        ChartEdge {
            dotted_rule: self.dotted_rule.clone(),
            start: self.start,
            end: self.end,
            history,
        }
    }
}

impl ChartEdge {
    /// The dotted rule this edge carries.
    pub fn dotted_rule(&self) -> (r: &DottedRule)
        ensures
            r@ == self@.dotted_rule,
    {
        &self.dotted_rule
    }

    /// Start of the matched input span.
    pub fn start(&self) -> (n: usize)
        ensures
            n as int == self@.start,
    {
        self.start
    }

    /// End of the matched input span (exclusive).
    pub fn end(&self) -> (n: usize)
        ensures
            n as int == self@.end,
    {
        self.end
    }

    /// The derivation history: for each nonterminal already matched, in
    /// order, the index of the justifying complete edge in the owning chart's
    /// edge list.
    pub fn history(&self) -> (h: &Vec<usize>)
        ensures
            h@ == self@.history,
    {
        &self.history
    }
}

/// Structural equality of edges: rule, span and history all agree.  This is
/// the equality the deduplication filter uses.
pub(crate) fn edge_eq(a: &ChartEdge, b: &ChartEdge) -> (r: bool)
    ensures
        r == (a@ == b@),
{
    if a.start != b.start || a.end != b.end {
        return false;
    }
    if !rule_eq(&a.dotted_rule, &b.dotted_rule) {
        return false;
    }
    if a.history.len() != b.history.len() {
        proof {
            assert(a@.history.len() != b@.history.len());
        }
        return false;
    }
    let mut k: usize = 0;
    while k < a.history.len()
        invariant
            0 <= k <= a.history.len(),
            a.history.len() == b.history.len(),
            a@.start == b@.start,
            a@.end == b@.end,
            a@.dotted_rule == b@.dotted_rule,
            a@.history == a.history@,
            b@.history == b.history@,
            forall|l: int| 0 <= l < k ==> a.history@[l] == b.history@[l],
        decreases a.history.len() - k,
    {
        if a.history[k] != b.history[k] {
            return false;
        }
        k += 1;
    }
    proof {
        assert(a@.history =~= b@.history);
        assert(a@ =~= b@);
    }
    true
}

} // verus!
