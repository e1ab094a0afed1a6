//! The grammar model: symbols, productions, and dotted rules.
//!
//! Symbols are tagged integers: the grammar author assigns a `u64` identity to
//! each terminal and to each nonterminal.

use vstd::prelude::*;

verus! {

/// A grammar symbol: either a terminal (an input token) or a nonterminal
/// (a symbol expandable by productions).
#[derive(Clone, Copy, PartialEq, Eq, Structural, Debug)]
pub enum Symbol {
    Nonterminal(u64),
    Terminal(u64),
}

/// Mathematical model of a production.
#[verifier::ext_equal]
pub ghost struct ProductionModel {
    pub lhs: u64,
    pub rhs: Seq<Symbol>,
}

/// A rewrite rule: a nonterminal on the left, a sequence of symbols on the
/// right.  Immutable once constructed.
#[derive(Debug)]
pub struct Production {
    lhs: u64,
    rhs: Vec<Symbol>,
}

impl View for Production {
    type V = ProductionModel;

    closed spec fn view(&self) -> ProductionModel {
        ProductionModel { lhs: self.lhs, rhs: self.rhs@ }
    }
}

impl Clone for Production {
    fn clone(&self) -> (r: Self)
        ensures
            r@ == self@,
    {
        let rhs = self.rhs.clone();
        proof {
            assert(rhs@ =~= self.rhs@);
        }
        Production { lhs: self.lhs, rhs }
    }
}

impl Production {
    /// Builds the production `lhs -> rhs`.
    pub fn new(lhs: u64, rhs: Vec<Symbol>) -> (p: Self)
        ensures
            p@ == (ProductionModel { lhs, rhs: rhs@ }),
    {
        Production { lhs, rhs }
    }

    /// The nonterminal on the left-hand side.
    pub fn lhs(&self) -> (n: &u64)
        ensures
            *n == self@.lhs,
    {
        &self.lhs
    }

    /// The right-hand side, in order.
    pub fn rhs(&self) -> (r: &Vec<Symbol>)
        ensures
            r@ == self@.rhs,
    {
        &self.rhs
    }

    /// Marks this production with a dot position, turning it into a dotted
    /// rule.  The dot may stand anywhere from the start of the right-hand
    /// side to just past its end.
    pub(crate) fn into_dotted_rule(self, dot_pos: usize) -> (d: DottedRule)
        requires
            dot_pos <= self@.rhs.len(),
        ensures
            d@ == (DottedRuleModel { production: self@, dot_pos: dot_pos as int }),
    {
        DottedRule { production: self, dot_pos }
    }
}

/// Mathematical model of a dotted rule.
#[verifier::ext_equal]
pub ghost struct DottedRuleModel {
    pub production: ProductionModel,
    pub dot_pos: int,
}

/// Whether the dot of `r` stands within its right-hand side.
pub open spec fn rule_wf(r: DottedRuleModel) -> bool {
    0 <= r.dot_pos <= r.production.rhs.len()
}

/// The symbol immediately after the dot, or `None` when the rule is complete.
pub open spec fn spec_next_symbol(r: DottedRuleModel) -> Option<Symbol> {
    if r.dot_pos >= r.production.rhs.len() {
        None
    } else {
        Some(r.production.rhs[r.dot_pos])
    }
}

/// Whether the dot stands past the whole right-hand side.
pub open spec fn spec_is_complete(r: DottedRuleModel) -> bool {
    r.dot_pos >= r.production.rhs.len()
}

/// The rule with its dot advanced over one symbol.
pub open spec fn spec_advanced(r: DottedRuleModel) -> DottedRuleModel {
    DottedRuleModel { production: r.production, dot_pos: r.dot_pos + 1 }
}

/// A production with a marked position (the "dot") in its right-hand side:
/// everything before the dot has been matched, everything after it is still
/// expected.
#[derive(Debug)]
pub struct DottedRule {
    production: Production,
    dot_pos: usize,
}

impl View for DottedRule {
    type V = DottedRuleModel;

    closed spec fn view(&self) -> DottedRuleModel {
        DottedRuleModel { production: self.production@, dot_pos: self.dot_pos as int }
    }
}

impl Clone for DottedRule {
    fn clone(&self) -> (r: Self)
        ensures
            r@ == self@,
    {
        DottedRule { production: self.production.clone(), dot_pos: self.dot_pos }
    }
}

impl DottedRule {
    /// The symbol immediately after the dot, or `None` when the rule is
    /// complete.
    pub(crate) fn next_symbol(&self) -> (s: Option<Symbol>)
        ensures
            s == spec_next_symbol(self@),
    {
        if self.dot_pos >= self.production.rhs.len() {
            None
        } else {
            Some(self.production.rhs[self.dot_pos])
        }
    }

    /// This rule with the dot advanced over one symbol.  The dot must not
    /// already stand past the end.
    pub(crate) fn advanced_dot(self) -> (r: Self)
        requires
            !spec_is_complete(self@),
        ensures
            r@ == spec_advanced(self@),
    {
        let n = self.production.rhs.len();
        let DottedRule { production, dot_pos } = self;
        assert(dot_pos < n);
        DottedRule { production, dot_pos: dot_pos + 1 }
    }

    /// How many right-hand-side symbols stand before the dot.
    pub fn dot_pos(&self) -> (n: usize)
        ensures
            n as int == self@.dot_pos,
    {
        self.dot_pos
    }

    /// Whether the whole right-hand side has been matched.
    pub fn is_complete(&self) -> (b: bool)
        ensures
            b == spec_is_complete(self@),
    {
        self.dot_pos >= self.production.rhs.len()
    }

    /// The underlying production.
    pub fn production(&self) -> (p: &Production)
        ensures
            p@ == self@.production,
    {
        &self.production
    }
}

/// Structural equality of dotted rules: production and dot position agree.
pub(crate) fn rule_eq(a: &DottedRule, b: &DottedRule) -> (r: bool)
    ensures
        r == (a@ == b@),
{
    if a.dot_pos != b.dot_pos {
        return false;
    }
    production_eq(&a.production, &b.production)
}

/// Structural equality of productions: left-hand side and right-hand side
/// agree.
pub(crate) fn production_eq(a: &Production, b: &Production) -> (r: bool)
    ensures
        r == (a@ == b@),
{
    if a.lhs != b.lhs {
        return false;
    }
    if a.rhs.len() != b.rhs.len() {
        proof {
            assert(a@.rhs.len() != b@.rhs.len());
        }
        return false;
    }
    let mut k: usize = 0;
    while k < a.rhs.len()
        invariant
            0 <= k <= a.rhs@.len(),
            a.rhs@.len() == b.rhs@.len(),
            a@.lhs == b@.lhs,
            a@.rhs == a.rhs@,
            b@.rhs == b.rhs@,
            forall|l: int| 0 <= l < k ==> a.rhs@[l] == b.rhs@[l],
        decreases a.rhs@.len() - k,
    {
        if a.rhs[k] != b.rhs[k] {
            return false;
        }
        k += 1;
    }
    proof {
        assert(a@.rhs =~= b@.rhs);
        assert(a@ =~= b@);
    }
    true
}

/// How many of the first `upto` right-hand-side symbols are nonterminals.
pub open spec fn nt_count(rhs: Seq<Symbol>, upto: int) -> int
    decreases upto,
{
    if upto <= 0 {
        0
    } else {
        nt_count(rhs, upto - 1) + if rhs[upto - 1] is Nonterminal {
            1int
        } else {
            0int
        }
    }
}

/// Whether some production of `g` defines the nonterminal `n`.
pub open spec fn has_production(g: Seq<ProductionModel>, n: u64) -> bool {
    exists|i: int| 0 <= i < g.len() && g[i].lhs == n
}

/// A well-formed grammar: the start nonterminal has at least one production,
/// and so does every nonterminal that occurs on a right-hand side.  A chart
/// over a grammar that breaks this could demand a prediction for which no
/// production exists.
pub open spec fn grammar_wf(g: Seq<ProductionModel>, start_symbol: u64) -> bool {
    &&& has_production(g, start_symbol)
    &&& forall|i: int, j: int|
        0 <= i < g.len() && 0 <= j < g[i].rhs.len() && g[i].rhs[j] is Nonterminal
            ==> has_production(g, g[i].rhs[j]->Nonterminal_0)
}

/// Decides `grammar_wf`: whether the start nonterminal and every nonterminal
/// on a right-hand side have at least one production.
pub fn grammar_is_wf(productions: &Vec<Production>, start_symbol: u64) -> (b: bool)
    ensures
        b == grammar_wf(productions@.map_values(|p: Production| p@), start_symbol),
{
    let ghost g = productions@.map_values(|p: Production| p@);
    if !some_production_has_lhs(productions, start_symbol) {
        return false;
    }
    let mut i: usize = 0;
    while i < productions.len()
        invariant
            0 <= i <= productions.len(),
            g == productions@.map_values(|p: Production| p@),
            has_production(g, start_symbol),
            forall|k: int, j: int|
                0 <= k < i && 0 <= j < g[k].rhs.len() && g[k].rhs[j] is Nonterminal
                    ==> has_production(g, g[k].rhs[j]->Nonterminal_0),
        decreases productions.len() - i,
    {
        let rhs = &productions[i].rhs;
        let mut j: usize = 0;
        while j < rhs.len()
            invariant
                0 <= j <= rhs.len(),
                0 <= i < productions.len(),
                rhs@ == g[i as int].rhs,
                g == productions@.map_values(|p: Production| p@),
                forall|l: int|
                    0 <= l < j && rhs@[l] is Nonterminal
                        ==> has_production(g, rhs@[l]->Nonterminal_0),
            decreases rhs.len() - j,
        {
            if let Symbol::Nonterminal(n) = rhs[j] {
                if !some_production_has_lhs(productions, n) {
                    return false;
                }
            }
            j += 1;
        }
        i += 1;
    }
    true
}

/// Decides `has_production`: whether any production of the grammar has the
/// given left-hand side.
fn some_production_has_lhs(productions: &Vec<Production>, n: u64) -> (b: bool)
    ensures
        b == has_production(productions@.map_values(|p: Production| p@), n),
{
    let ghost g = productions@.map_values(|p: Production| p@);
    let mut i: usize = 0;
    while i < productions.len()
        invariant
            0 <= i <= productions.len(),
            g == productions@.map_values(|p: Production| p@),
            forall|k: int| 0 <= k < i ==> g[k].lhs != n,
        decreases productions.len() - i,
    {
        if productions[i].lhs == n {
            proof {
                assert(g[i as int] == productions@[i as int]@);
            }
            return true;
        }
        i += 1;
    }
    false
}

} // verus!
