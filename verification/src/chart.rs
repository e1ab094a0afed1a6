//! The chart engine: the edge store, the worklist, and the
//! predict/scan/complete fixed-point step.
//!
//! The chart keeps every edge discovered so far in one discovery-ordered
//! arena (`edges`); the worklist is the arena's tail, starting at
//! `next_to_process`.  Every processing step is specified exactly by
//! `spec_step`, and a bounded run by `spec_run`.

use vstd::prelude::*;

use crate::edge::edge_eq;
use crate::edge::ChartEdge;
use crate::edge::EdgeModel;
use crate::grammar::grammar_wf;
use crate::grammar::nt_count;
use crate::grammar::rule_wf;
use crate::grammar::spec_advanced;
use crate::grammar::spec_is_complete;
use crate::grammar::spec_next_symbol;
use crate::grammar::DottedRuleModel;
use crate::grammar::Production;
use crate::grammar::ProductionModel;
use crate::grammar::Symbol;

verus! {

/// Mathematical model of a whole chart.
#[verifier::ext_equal]
pub ghost struct ChartModel {
    /// The fixed input token sequence.
    pub input: Seq<u64>,
    /// The grammar's start nonterminal.
    pub start_symbol: u64,
    /// The grammar: every production, in insertion order.
    pub grammar: Seq<ProductionModel>,
    /// Every edge discovered so far, in discovery order.
    pub edges: Seq<EdgeModel>,
    /// The worklist cursor: edges at this index and after are still pending.
    pub next_to_process: int,
    /// Edges recorded as complete derivations, in discovery order.
    pub complete_derivations: Seq<EdgeModel>,
    /// The trace log: accepted edges with their histories resolved to trace
    /// indices.
    pub trace_log: Seq<(EdgeModel, Seq<usize>)>,
    /// Whether the trace log is being written.
    pub tracing: bool,
}

/// Whether a structurally equal edge already stands in the store.
pub open spec fn edge_in(edges: Seq<EdgeModel>, e: EdgeModel) -> bool {
    exists|i: int| 0 <= i < edges.len() && edges[i] == e
}

/// The first index of `target` in the trace log at or after `j`, or
/// `usize::MAX` when the log does not hold it.
pub open spec fn trace_resolve_from(
    log: Seq<(EdgeModel, Seq<usize>)>,
    target: EdgeModel,
    j: int,
) -> usize
    decreases log.len() - j,
{
    if j < 0 || j >= log.len() {
        usize::MAX
    } else if log[j].0 == target {
        j as usize
    } else {
        trace_resolve_from(log, target, j + 1)
    }
}

/// A history, rewritten from edge-store indices to trace-log indices: each
/// history entry's edge value is looked up in the log.
pub open spec fn resolve_history(
    log: Seq<(EdgeModel, Seq<usize>)>,
    edges: Seq<EdgeModel>,
    history: Seq<usize>,
) -> Seq<usize> {
    Seq::new(history.len(), |k: int| trace_resolve_from(log, edges[history[k] as int], 0))
}

/// The chart after logging `e` in the trace (a no-op when tracing is off).
pub open spec fn spec_record_trace(c: ChartModel, e: EdgeModel) -> ChartModel {
    if c.tracing {
        ChartModel {
            trace_log: c.trace_log.push((e, resolve_history(c.trace_log, c.edges, e.history))),
            ..c
        }
    } else {
        c
    }
}

/// The insertion filter: the chart after offering it the edge `e`.  A new
/// edge is logged and appended to the store and the worklist; an edge
/// structurally equal to one already present is discarded.  This filter is
/// the sole termination mechanism for cyclic grammars.
pub open spec fn spec_add_edge(c: ChartModel, e: EdgeModel) -> ChartModel {
    if edge_in(c.edges, e) {
        c
    } else {
        let c1 = spec_record_trace(c, e);
        ChartModel { edges: c1.edges.push(e), ..c1 }
    }
}

/// The chart after offering every edge of `es` to the insertion filter, in order.
pub open spec fn spec_add_edges(c: ChartModel, es: Seq<EdgeModel>) -> ChartModel
    decreases es.len(),
{
    if es.len() == 0 {
        c
    } else {
        spec_add_edge(spec_add_edges(c, es.drop_last()), es.last())
    }
}

/// A freshly predicted edge: the production with its dot at the start, an
/// empty span at position `at`, and no history.
pub open spec fn predict_edge(p: ProductionModel, at: int) -> EdgeModel {
    EdgeModel {
        dotted_rule: DottedRuleModel { production: p, dot_pos: 0 },
        start: at,
        end: at,
        history: Seq::empty(),
    }
}

/// The predicted edges for nonterminal `nt` at position `at`, from the first
/// `n` productions of the grammar, in grammar order.
pub open spec fn spec_predict(g: Seq<ProductionModel>, n: int, nt: u64, at: int) -> Seq<
    EdgeModel,
>
    decreases n,
{
    if n <= 0 {
        Seq::empty()
    } else {
        let pre = spec_predict(g, n - 1, nt, at);
        if g[n - 1].lhs == nt {
            pre.push(predict_edge(g[n - 1], at))
        } else {
            pre
        }
    }
}

/// The edge produced by scanning a matching input token: the dot advances
/// over the terminal, the span grows by one, and the history is kept
/// (terminals contribute no history entries).
pub open spec fn scan_edge(e: EdgeModel) -> EdgeModel {
    EdgeModel {
        dotted_rule: spec_advanced(e.dotted_rule),
        start: e.start,
        end: e.end + 1,
        history: e.history,
    }
}

/// Whether `e` is waiting for the nonterminal `nt` at input position `at`:
/// its next expected symbol is `nt` and its span ends at `at`.
pub open spec fn waiting_on(e: EdgeModel, nt: u64, at: int) -> bool {
    spec_next_symbol(e.dotted_rule) == Some(Symbol::Nonterminal(nt)) && e.end == at
}

/// The edge that resumes `waiting` after the complete edge `done` (stored at
/// index `done_idx`): the dot advances over the completed nonterminal, the
/// span absorbs `done`'s, and `done_idx` joins the history.
pub open spec fn complete_edge(waiting: EdgeModel, done: EdgeModel, done_idx: usize) -> EdgeModel {
    EdgeModel {
        dotted_rule: spec_advanced(waiting.dotted_rule),
        start: waiting.start,
        end: done.end,
        history: waiting.history.push(done_idx),
    }
}

/// The edges produced by completing `done` (stored at index `done_idx`)
/// against the first `n` edges of the store, in store order.
pub open spec fn spec_complete(
    edges: Seq<EdgeModel>,
    n: int,
    done: EdgeModel,
    done_idx: usize,
) -> Seq<EdgeModel>
    decreases n,
{
    if n <= 0 {
        Seq::empty()
    } else {
        let pre = spec_complete(edges, n - 1, done, done_idx);
        if waiting_on(edges[n - 1], done.dotted_rule.production.lhs, done.start) {
            pre.push(complete_edge(edges[n - 1], done, done_idx))
        } else {
            pre
        }
    }
}

/// Whether the completed edge `e` constitutes a full parse: it spans the
/// whole input and derives the start symbol.
pub open spec fn is_full_parse(c: ChartModel, e: EdgeModel) -> bool {
    &&& e.dotted_rule.production.lhs == c.start_symbol
    &&& e.start == 0
    &&& e.end == c.input.len()
}

/// One processing step: pop the head of the worklist and dispatch on the
/// symbol after its dot.  A nonterminal predicts, a terminal scans, and a
/// complete rule records a full parse (when it is one) and resumes every
/// waiting edge.  All produced edges pass through the insertion filter.
pub open spec fn spec_step(c: ChartModel) -> ChartModel
    recommends
        c.next_to_process < c.edges.len(),
{
    let e = c.edges[c.next_to_process];
    let c1 = ChartModel { next_to_process: c.next_to_process + 1, ..c };
    match spec_next_symbol(e.dotted_rule) {
        Some(Symbol::Nonterminal(nt)) => spec_add_edges(
            c1,
            spec_predict(c.grammar, c.grammar.len() as int, nt, e.end),
        ),
        Some(Symbol::Terminal(t)) => {
            if e.end < c.input.len() && c.input[e.end] == t {
                spec_add_edge(c1, scan_edge(e))
            } else {
                c1
            }
        },
        None => {
            let c2 = if is_full_parse(c, e) {
                ChartModel { complete_derivations: c1.complete_derivations.push(e), ..c1 }
            } else {
                c1
            };
            spec_add_edges(
                c2,
                spec_complete(c.edges, c.edges.len() as int, e, c.next_to_process as usize),
            )
        },
    }
}

/// Up to `fuel` processing steps, stopping early once the worklist is empty.
pub open spec fn spec_run(c: ChartModel, fuel: nat) -> ChartModel
    decreases fuel,
{
    if fuel == 0 || c.next_to_process >= c.edges.len() {
        c
    } else {
        spec_run(spec_step(c), (fuel - 1) as nat)
    }
}

/// The freshly initialized chart: the insertion filter is seeded with one edge per
/// production of the start symbol, each with its dot at the start, an empty
/// span at position 0, and no history.  Tracing starts disabled.
pub open spec fn spec_initial(input: Seq<u64>, g: Seq<ProductionModel>, start_symbol: u64) -> ChartModel {
    let base = ChartModel {
        input,
        start_symbol,
        grammar: g,
        edges: Seq::empty(),
        next_to_process: 0,
        complete_derivations: Seq::empty(),
        trace_log: Seq::empty(),
        tracing: false,
    };
    spec_add_edges(base, spec_predict(g, g.len() as int, start_symbol, 0))
}

/// Whether some production of the grammar equals `p`.
pub open spec fn production_in_grammar(g: Seq<ProductionModel>, p: ProductionModel) -> bool {
    exists|i: int| 0 <= i < g.len() && g[i] == p
}

/// A well-formed edge of chart `c`: its dot is in range, its production is
/// one of the grammar's, its span lies within the input, its history holds
/// exactly one entry per nonterminal already matched, and every history entry
/// points at a complete edge of the store.
pub open spec fn edge_wf(c: ChartModel, e: EdgeModel) -> bool {
    &&& rule_wf(e.dotted_rule)
    &&& production_in_grammar(c.grammar, e.dotted_rule.production)
    &&& 0 <= e.start <= e.end <= c.input.len()
    &&& e.history.len() == nt_count(
        e.dotted_rule.production.rhs,
        e.dotted_rule.dot_pos as int,
    )
    &&& forall|k: int|
        0 <= k < e.history.len() ==> (#[trigger] e.history[k]) < c.edges.len()
            && spec_is_complete(c.edges[e.history[k] as int].dotted_rule)
}

/// A recorded complete derivation of chart `c`: an edge of the store whose
/// rule is complete, whose production derives the start symbol, and whose
/// span is the whole input.
pub open spec fn complete_wf(c: ChartModel, e: EdgeModel) -> bool {
    &&& edge_in(c.edges, e)
    &&& spec_is_complete(e.dotted_rule)
    &&& e.dotted_rule.production.lhs == c.start_symbol
    &&& e.start == 0
    &&& e.end == c.input.len()
}

/// The chart invariant: the grammar is well formed, the worklist cursor is in
/// range, every stored edge is well formed and refers only to earlier edges,
/// no two stored edges are structurally equal, and every recorded complete
/// derivation really is one.
pub open spec fn chart_wf(c: ChartModel) -> bool {
    &&& grammar_wf(c.grammar, c.start_symbol)
    &&& 0 <= c.next_to_process <= c.edges.len()
    &&& forall|i: int| 0 <= i < c.edges.len() ==> edge_wf(c, #[trigger] c.edges[i])
    &&& forall|i: int, k: int|
        0 <= i < c.edges.len() && 0 <= k < c.edges[i].history.len()
            ==> (#[trigger] c.edges[i].history[k]) < i
    &&& forall|i: int, j: int|
        0 <= i < j < c.edges.len() ==> c.edges[i] != c.edges[j]
    &&& forall|i: int|
        0 <= i < c.complete_derivations.len() ==> complete_wf(
            c,
            #[trigger] c.complete_derivations[i],
        )
}

/// `c2` is `c` with possibly more edges: same input, grammar and start
/// symbol, and every edge of `c` still at its index.
pub open spec fn chart_extends(c2: ChartModel, c: ChartModel) -> bool {
    &&& c2.input == c.input
    &&& c2.start_symbol == c.start_symbol
    &&& c2.grammar == c.grammar
    &&& c.edges.len() <= c2.edges.len()
    &&& forall|i: int| 0 <= i < c.edges.len() ==> c2.edges[i] == c.edges[i]
}

/// The chart: the input, the grammar, the edge store with its worklist
/// cursor, the complete derivations found so far, and the optional trace log.
/// One chart serves one `(grammar, input)` pair.
pub struct Chart {
    input_string: Vec<u64>,
    start_symbol: u64,
    productions: Vec<Production>,
    edges: Vec<ChartEdge>,
    next_to_process: usize,
    complete_derivations: Vec<ChartEdge>,
    trace_chart: Vec<(ChartEdge, Vec<usize>)>,
    trace: bool,
}

impl View for Chart {
    type V = ChartModel;

    closed spec fn view(&self) -> ChartModel {
        ChartModel {
            input: self.input_string@,
            start_symbol: self.start_symbol,
            grammar: self.productions@.map_values(|p: Production| p@),
            edges: self.edges@.map_values(|e: ChartEdge| e@),
            next_to_process: self.next_to_process as int,
            complete_derivations: self.complete_derivations@.map_values(|e: ChartEdge| e@),
            trace_log: self.trace_chart@.map_values(
                |t: (ChartEdge, Vec<usize>)| (t.0@, t.1@),
            ),
            tracing: self.trace,
        }
    }
}

impl Chart {
    /// Whether the worklist still holds an edge to process.
    pub fn more_to_process(&self) -> (b: bool)
        ensures
            b == (self@.next_to_process < self@.edges.len()),
    {
        self.next_to_process < self.edges.len()
    }

    /// Turns the trace log on or off.  Tracing is purely observational: it
    /// never changes what the engine discovers.
    pub fn set_trace(&mut self, trace: bool)
        ensures
            final(self)@ == (ChartModel { tracing: trace, ..old(self)@ }),
    {
        self.trace = trace;
        proof {
            assert(self@ =~= (ChartModel { tracing: trace, ..old(self)@ }));
        }
    }

    /// The trace log: every edge accepted by the insertion filter while tracing was on,
    /// in discovery order, with its history rewritten to trace-log indices
    /// (`usize::MAX` for an edge the log does not hold).
    pub fn trace_chart(&self) -> (t: &Vec<(ChartEdge, Vec<usize>)>)
        ensures
            t@.map_values(|p: (ChartEdge, Vec<usize>)| (p.0@, p.1@)) == self@.trace_log,
    {
        &self.trace_chart
    }

    /// The complete derivations found so far, in discovery order.  Every one
    /// of them spans the whole input with a complete rule that derives the
    /// start symbol; an empty list means no parse has been found.
    pub fn complete_derivations(&self) -> (r: &Vec<ChartEdge>)
        requires
            chart_wf(self@),
        ensures
            r@.map_values(|e: ChartEdge| e@) == self@.complete_derivations,
            forall|i: int|
                0 <= i < r@.len() ==> {
                    let e = (#[trigger] r@[i])@;
                    &&& spec_is_complete(e.dotted_rule)
                    &&& e.dotted_rule.production.lhs == self@.start_symbol
                    &&& e.start == 0
                    &&& e.end == self@.input.len()
                },
    {
        proof {
            assert forall|i: int| 0 <= i < self.complete_derivations@.len() implies complete_wf(
                self@,
                (#[trigger] self.complete_derivations@[i])@,
            ) by {
                assert(self@.complete_derivations[i] == self.complete_derivations@[i]@);
            }
        }
        &self.complete_derivations
    }

    /// The edge stored at index `i` of the edge store.
    pub(crate) fn edge_at(&self, i: usize) -> (e: &ChartEdge)
        requires
            i < self@.edges.len(),
        ensures
            e@ == self@.edges[i as int],
    {
        &self.edges[i]
    }

    /// How many edges the edge store holds.
    pub(crate) fn edge_store_len(&self) -> (n: usize)
        ensures
            n == self@.edges.len(),
    {
        self.edges.len()
    }

    /// The recorded complete derivations, without any well-formedness
    /// demand on the chart.
    pub(crate) fn derivations_ref(&self) -> (r: &Vec<ChartEdge>)
        ensures
            r@.map_values(|e: ChartEdge| e@) == self@.complete_derivations,
    {
        &self.complete_derivations
    }

    /// Appends `edge` to the trace log when tracing is on, with its history
    /// rewritten from edge-store indices to trace-log indices by value lookup
    /// (`usize::MAX` when the log does not hold the edge).
    fn add_to_trace_chart(&mut self, edge: &ChartEdge)
        requires
            forall|k: int|
                0 <= k < edge@.history.len() ==> (#[trigger] edge@.history[k])
                    < old(self)@.edges.len(),
        ensures
            final(self)@ == spec_record_trace(old(self)@, edge@),
    {
        if self.trace {
            let ghost log0 = self@.trace_log;
            let mut resolved: Vec<usize> = Vec::new();
            let mut k: usize = 0;
            while k < edge.history.len()
                invariant
                    *self == *old(self),
                    0 <= k <= edge.history@.len(),
                    edge@.history == edge.history@,
                    log0 == self@.trace_log,
                    forall|l: int|
                        0 <= l < edge@.history.len() ==> (#[trigger] edge@.history[l])
                            < self@.edges.len(),
                    resolved@.len() == k,
                    forall|l: int|
                        0 <= l < k ==> resolved@[l] == trace_resolve_from(
                            log0,
                            self@.edges[edge@.history[l] as int],
                            0,
                        ),
                decreases edge.history@.len() - k,
            {
                let h = edge.history[k];
                let target = &self.edges[h];
                proof {
                    assert(target@ == self@.edges[h as int]);
                }
                let mut j: usize = 0;
                let mut hit: usize = usize::MAX;
                let mut found = false;
                proof {
                    assert(log0.len() == self.trace_chart@.len());
                }
                while j < self.trace_chart.len()
                    invariant
                        *self == *old(self),
                        log0 == self@.trace_log,
                        log0.len() == self.trace_chart@.len(),
                        0 <= j <= self.trace_chart@.len(),
                        target@ == self@.edges[h as int],
                        !found ==> hit == usize::MAX && (forall|l: int|
                            0 <= l < j ==> log0[l].0 != target@),
                        found ==> trace_resolve_from(log0, target@, 0) == hit,
                    decreases self.trace_chart@.len() - j,
                {
                    if !found && edge_eq(&self.trace_chart[j].0, target) {
                        proof {
                            assert(log0[j as int].0 == target@);
                            lemma_trace_resolve_skip(log0, target@, j as int);
                        }
                        hit = j;
                        found = true;
                    }
                    j += 1;
                }
                proof {
                    if !found {
                        lemma_trace_resolve_skip(log0, target@, log0.len() as int);
                        assert(trace_resolve_from(log0, target@, 0) == usize::MAX);
                    }
                    assert(hit == trace_resolve_from(log0, self@.edges[edge@.history[k as int] as int], 0));
                }
                resolved.push(hit);
                k += 1;
            }
            proof {
                assert(resolved@ =~= resolve_history(log0, self@.edges, edge@.history));
            }
            let entry = (edge.clone(), resolved);
            self.trace_chart.push(entry);
            proof {
                assert(self.trace_chart@.map_values(|t: (ChartEdge, Vec<usize>)| (t.0@, t.1@))
                    =~= log0.push((edge@, resolve_history(log0, old(self)@.edges, edge@.history))));
                assert(self@ =~= spec_record_trace(old(self)@, edge@));
            }
        }
    }

    /// The insertion filter: appends `new_edge` to the store, the worklist and
    /// the trace log, unless a structurally equal edge is already present, in
    /// which case the edge is discarded.
    fn add_edge(&mut self, new_edge: ChartEdge)
        requires
            forall|k: int|
                0 <= k < new_edge@.history.len() ==> (#[trigger] new_edge@.history[k])
                    < old(self)@.edges.len(),
        ensures
            final(self)@ == spec_add_edge(old(self)@, new_edge@),
    {
        let mut i: usize = 0;
        while i < self.edges.len()
            invariant
                *self == *old(self),
                0 <= i <= self.edges@.len(),
                forall|l: int| 0 <= l < i ==> self@.edges[l] != new_edge@,
            decreases self.edges@.len() - i,
        {
            if edge_eq(&self.edges[i], &new_edge) {
                proof {
                    assert(self@.edges[i as int] == new_edge@);
                    assert(edge_in(self@.edges, new_edge@));
                }
                return ;
            }
            i += 1;
        }
        proof {
            assert(!edge_in(old(self)@.edges, new_edge@));
        }
        self.add_to_trace_chart(&new_edge);
        let ghost traced = self@;
        self.edges.push(new_edge);
        proof {
            assert(self@.edges =~= traced.edges.push(new_edge@));
            assert(self@ =~= spec_add_edge(old(self)@, new_edge@));
        }
    }

    /// Offers every edge of `new_edges` to the insertion filter, in order.
    fn add_edges(&mut self, new_edges: Vec<ChartEdge>)
        requires
            forall|k: int, l: int|
                0 <= k < new_edges@.len() && 0 <= l < new_edges@[k]@.history.len()
                    ==> (#[trigger] new_edges@[k]@.history[l]) < old(self)@.edges.len(),
        ensures
            final(self)@ == spec_add_edges(
                old(self)@,
                new_edges@.map_values(|e: ChartEdge| e@),
            ),
    {
        let ghost es = new_edges@.map_values(|e: ChartEdge| e@);
        let mut k: usize = 0;
        while k < new_edges.len()
            invariant
                0 <= k <= es.len(),
                es == new_edges@.map_values(|e: ChartEdge| e@),
                forall|k2: int, l: int|
                    0 <= k2 < new_edges@.len() && 0 <= l < new_edges@[k2]@.history.len()
                        ==> (#[trigger] new_edges@[k2]@.history[l]) < old(self)@.edges.len(),
                old(self)@.edges.len() <= self@.edges.len(),
                self@ == spec_add_edges(old(self)@, es.subrange(0, k as int)),
            decreases es.len() - k,
        {
            let e = new_edges[k].clone();
            proof {
                assert(e@ == es[k as int]);
            }
            self.add_edge(e);
            proof {
                assert(es.subrange(0, k + 1).drop_last() =~= es.subrange(0, k as int));
                assert(es.subrange(0, k + 1).last() == es[k as int]);
            }
            k += 1;
        }
        proof {
            assert(es.subrange(0, es.len() as int) =~= es);
        }
    }

    /// Collects the predicted edges for nonterminal `nt` at position `at`:
    /// one fresh edge per production of `nt`, in grammar order.
    fn collect_predictions(&self, nt: u64, at: usize) -> (v: Vec<ChartEdge>)
        ensures
            v@.map_values(|e: ChartEdge| e@) == spec_predict(
                self@.grammar,
                self@.grammar.len() as int,
                nt,
                at as int,
            ),
    {
        let ghost g = self@.grammar;
        let mut v: Vec<ChartEdge> = Vec::new();
        let mut i: usize = 0;
        while i < self.productions.len()
            invariant
                0 <= i <= self.productions@.len(),
                g == self@.grammar,
                g == self.productions@.map_values(|p: Production| p@),
                v@.map_values(|e: ChartEdge| e@) == spec_predict(g, i as int, nt, at as int),
            decreases self.productions@.len() - i,
        {
            let ghost prefix = v@.map_values(|e: ChartEdge| e@);
            let p = &self.productions[i];
            proof {
                assert(p@ == g[i as int]);
            }
            if *p.lhs() == nt {
                let e = ChartEdge {
                    dotted_rule: p.clone().into_dotted_rule(0),
                    start: at,
                    end: at,
                    history: Vec::new(),
                };
                proof {
                    assert(e@ =~= predict_edge(g[i as int], at as int));
                }
                v.push(e);
                proof {
                    assert(v@.map_values(|e2: ChartEdge| e2@) =~= prefix.push(
                        predict_edge(g[i as int], at as int),
                    ));
                }
            }
            i += 1;
        }
        v
    }

    /// Collects the edges that resume every stored edge waiting on the
    /// completed edge `done` (stored at index `done_idx`), in store order.
    fn collect_completions(&self, done: &ChartEdge, done_idx: usize) -> (v: Vec<ChartEdge>)
        ensures
            v@.map_values(|e: ChartEdge| e@) == spec_complete(
                self@.edges,
                self@.edges.len() as int,
                done@,
                done_idx,
            ),
    {
        let ghost all = self@.edges;
        let done_lhs = *done.dotted_rule().production().lhs();
        let done_start = done.start();
        let done_end = done.end();
        let mut v: Vec<ChartEdge> = Vec::new();
        let mut j: usize = 0;
        while j < self.edges.len()
            invariant
                0 <= j <= self.edges@.len(),
                all == self@.edges,
                all == self.edges@.map_values(|e: ChartEdge| e@),
                done_lhs == done@.dotted_rule.production.lhs,
                done_start as int == done@.start,
                done_end as int == done@.end,
                v@.map_values(|e: ChartEdge| e@) == spec_complete(all, j as int, done@, done_idx),
            decreases self.edges@.len() - j,
        {
            let ghost prefix = v@.map_values(|e: ChartEdge| e@);
            let other = &self.edges[j];
            proof {
                assert(other@ == all[j as int]);
            }
            let next = other.dotted_rule.next_symbol();
            let is_waiting = match next {
                Some(Symbol::Nonterminal(n)) => n == done_lhs && other.end == done_start,
                _ => false,
            };
            if is_waiting {
                proof {
                    assert(waiting_on(all[j as int], done@.dotted_rule.production.lhs, done@.start));
                }
                let mut history = other.history.clone();
                history.push(done_idx);
                let e = ChartEdge {
                    dotted_rule: other.dotted_rule.clone().advanced_dot(),
                    start: other.start,
                    end: done_end,
                    history,
                };
                proof {
                    assert(e@ =~= complete_edge(all[j as int], done@, done_idx));
                }
                v.push(e);
                proof {
                    assert(v@.map_values(|e2: ChartEdge| e2@) =~= prefix.push(
                        complete_edge(all[j as int], done@, done_idx),
                    ));
                }
            } else {
                proof {
                    assert(!waiting_on(
                        all[j as int],
                        done@.dotted_rule.production.lhs,
                        done@.start,
                    ));
                }
            }
            j += 1;
        }
        v
    }
}

/// Builds the chart for one `(grammar, input)` run: the productions are kept
/// in insertion order, and the insertion filter is seeded with one edge per production
/// of the start symbol.  The grammar must be well formed: the start symbol
/// and every nonterminal on a right-hand side must have a production
/// (anything else is a fatal grammar-construction error, checked by
/// `grammar_is_wf`).
impl Chart {
    pub fn new(input_string: Vec<u64>, productions: Vec<Production>, start_symbol: u64) -> (c:
        Chart)
        requires
            grammar_wf(productions@.map_values(|p: Production| p@), start_symbol),
        ensures
            c@ == spec_initial(
                input_string@,
                productions@.map_values(|p: Production| p@),
                start_symbol,
            ),
            chart_wf(c@),
    {
        let ghost g = productions@.map_values(|p: Production| p@);
        let ghost input = input_string@;
        let mut chart = Chart {
            input_string,
            start_symbol,
            productions,
            edges: Vec::new(),
            next_to_process: 0,
            complete_derivations: Vec::new(),
            trace_chart: Vec::new(),
            trace: false,
        };
        let ghost base = chart@;
        proof {
            assert(base =~= ChartModel {
                input,
                start_symbol,
                grammar: g,
                edges: Seq::empty(),
                next_to_process: 0,
                complete_derivations: Seq::empty(),
                trace_log: Seq::empty(),
                tracing: false,
            });
            assert(chart_wf(base));
            lemma_predict_wf(base, g.len() as int, start_symbol, 0);
        }
        let seeds = chart.collect_predictions(start_symbol, 0);
        let ghost seed_models = seeds@.map_values(|e: ChartEdge| e@);
        proof {
            assert forall|k: int, l: int|
                0 <= k < seeds@.len() && 0 <= l < seeds@[k]@.history.len() implies (
            #[trigger] seeds@[k]@.history[l]) < base.edges.len() by {
                assert(edge_wf(base, seed_models[k]));
            }
            lemma_add_edges_wf(base, seed_models);
        }
        chart.add_edges(seeds);
        chart
    }

    /// Processes the head of the worklist: predicts on a nonterminal, scans
    /// on a terminal, completes on a finished rule.  The chart advances by
    /// exactly one specification step, and the processed edge is returned.
    /// The worklist must not be empty.
    pub fn process_one(&mut self) -> (edge: ChartEdge)
        requires
            chart_wf(old(self)@),
            old(self)@.next_to_process < old(self)@.edges.len(),
        ensures
            final(self)@ == spec_step(old(self)@),
            chart_wf(final(self)@),
            edge@ == old(self)@.edges[old(self)@.next_to_process as int],
    {
        let ghost c = old(self)@;
        proof {
            lemma_step_wf(c);
        }
        let idx = self.next_to_process;
        let worklist_len = self.edges.len();
        assert(idx < worklist_len);
        let edge = self.edges[idx].clone();
        proof {
            assert(edge@ == c.edges[idx as int]);
            assert(edge_wf(c, edge@));
        }
        self.next_to_process = idx + 1;
        let ghost c1 = ChartModel { next_to_process: c.next_to_process + 1, ..c };
        proof {
            assert(self@ =~= c1);
            assert(chart_extends(c1, c));
        }
        match edge.dotted_rule.next_symbol() {
            Some(Symbol::Nonterminal(nt)) => {
                let new_edges = self.collect_predictions(nt, edge.end);
                let ghost es = new_edges@.map_values(|e: ChartEdge| e@);
                proof {
                    assert(es == spec_predict(c.grammar, c.grammar.len() as int, nt, edge@.end));
                    lemma_predict_wf(c, c.grammar.len() as int, nt, edge@.end);
                    assert forall|k: int, l: int|
                        0 <= k < new_edges@.len() && 0 <= l < new_edges@[k]@.history.len() implies (
                    #[trigger] new_edges@[k]@.history[l]) < c1.edges.len() by {
                        assert(edge_wf(c, es[k]));
                    }
                }
                self.add_edges(new_edges);
                proof {
                    assert(self@ == spec_step(c));
                }
            },
            Some(Symbol::Terminal(t)) => {
                if edge.end < self.input_string.len() && self.input_string[edge.end] == t {
                    let dotted_rule = edge.dotted_rule.clone().advanced_dot();
                    let history = edge.history.clone();
                    let new_edge = ChartEdge {
                        dotted_rule,
                        start: edge.start,
                        end: edge.end + 1,
                        history,
                    };
                    proof {
                        assert(new_edge@ =~= scan_edge(edge@));
                        assert forall|k: int|
                            0 <= k < new_edge@.history.len() implies (
                        #[trigger] new_edge@.history[k]) < c1.edges.len() by {
                            assert(edge_wf(c, edge@));
                        }
                    }
                    self.add_edge(new_edge);
                    proof {
                        assert(self@ == spec_step(c));
                    }
                } else {
                    proof {
                        assert(self@ == spec_step(c));
                    }
                }
            },
            None => {
                let lhs = *edge.dotted_rule.production().lhs();
                if lhs == self.start_symbol && edge.start == 0 && edge.end
                    == self.input_string.len() {
                    let recorded = edge.clone();
                    self.complete_derivations.push(recorded);
                    proof {
                        assert(self@.complete_derivations =~= c1.complete_derivations.push(
                            edge@,
                        ));
                        assert(self@ =~= ChartModel {
                            complete_derivations: c1.complete_derivations.push(edge@),
                            ..c1
                        });
                    }
                } else {
                    proof {
                        assert(!is_full_parse(c, edge@));
                    }
                }
                let ghost c2 = self@;
                let new_edges = self.collect_completions(&edge, idx);
                let ghost es = new_edges@.map_values(|e: ChartEdge| e@);
                proof {
                    assert(self@.edges == c.edges);
                    assert(es == spec_complete(c.edges, c.edges.len() as int, edge@, idx));
                    lemma_complete_candidates_wf(c, c.edges.len() as int, edge@, idx);
                    assert forall|k: int, l: int|
                        0 <= k < new_edges@.len() && 0 <= l < new_edges@[k]@.history.len() implies (
                    #[trigger] new_edges@[k]@.history[l]) < c2.edges.len() by {
                        assert(edge_wf(c, es[k]));
                    }
                }
                self.add_edges(new_edges);
                proof {
                    assert(self@ == spec_step(c));
                }
            },
        }
        edge
    }

    /// Runs up to `max_steps` processing steps, stopping early when the
    /// worklist empties.  Returns whether the fixed point was reached: once
    /// it is, the chart holds every derivable edge and every complete
    /// derivation of the input.
    pub fn process_all(&mut self, max_steps: usize) -> (finished: bool)
        requires
            chart_wf(old(self)@),
        ensures
            final(self)@ == spec_run(old(self)@, max_steps as nat),
            chart_wf(final(self)@),
            finished == (final(self)@.next_to_process >= final(self)@.edges.len()),
    {
        let mut steps: usize = 0;
        while steps < max_steps && self.more_to_process()
            invariant
                chart_wf(old(self)@),
                0 <= steps <= max_steps,
                chart_wf(self@),
                self@ == spec_run(old(self)@, steps as nat),
            decreases max_steps - steps,
        {
            self.process_one();
            proof {
                lemma_run_succ(old(self)@, steps as nat);
            }
            steps += 1;
        }
        let finished = !self.more_to_process();
        proof {
            if finished {
                lemma_run_add(old(self)@, steps as nat, (max_steps - steps) as nat);
            }
        }
        finished
    }
}

/// Skipping a prefix of the trace log that does not hold `target` leaves the
/// lookup's result unchanged.
proof fn lemma_trace_resolve_skip(log: Seq<(EdgeModel, Seq<usize>)>, target: EdgeModel, j: int)
    requires
        0 <= j <= log.len(),
        forall|l: int| 0 <= l < j ==> log[l].0 != target,
    ensures
        trace_resolve_from(log, target, 0) == trace_resolve_from(log, target, j),
    decreases j,
{
    if j > 0 {
        lemma_trace_resolve_skip(log, target, j - 1);
    }
}

/// A well-formed edge stays well formed when the chart only grows.
proof fn lemma_edge_wf_mono(c: ChartModel, c2: ChartModel, e: EdgeModel)
    requires
        edge_wf(c, e),
        chart_extends(c2, c),
    ensures
        edge_wf(c2, e),
{
    assert forall|k: int| 0 <= k < e.history.len() implies (#[trigger] e.history[k])
        < c2.edges.len() && spec_is_complete(c2.edges[e.history[k] as int].dotted_rule) by {
        assert(e.history[k] < c.edges.len());
        assert(c2.edges[e.history[k] as int] == c.edges[e.history[k] as int]);
    }
}

/// A recorded complete derivation stays one when the chart only grows.
proof fn lemma_complete_wf_mono(c: ChartModel, c2: ChartModel, e: EdgeModel)
    requires
        complete_wf(c, e),
        chart_extends(c2, c),
        c2.input == c.input,
    ensures
        complete_wf(c2, e),
{
    let i = choose|i: int| 0 <= i < c.edges.len() && c.edges[i] == e;
    assert(c2.edges[i] == e);
}

/// The insertion filter changes nothing but the edge store and the trace log, and grows
/// the store by at most one edge.
proof fn lemma_add_edge_frame(c: ChartModel, e: EdgeModel)
    ensures
        chart_extends(spec_add_edge(c, e), c),
        spec_add_edge(c, e).next_to_process == c.next_to_process,
        spec_add_edge(c, e).complete_derivations == c.complete_derivations,
        spec_add_edge(c, e).tracing == c.tracing,
        c.edges.len() <= spec_add_edge(c, e).edges.len() <= c.edges.len() + 1,
{
}

/// Offering a whole sequence to the insertion filter changes nothing but the edge store
/// and the trace log.
proof fn lemma_add_edges_frame(c: ChartModel, es: Seq<EdgeModel>)
    ensures
        chart_extends(spec_add_edges(c, es), c),
        spec_add_edges(c, es).next_to_process == c.next_to_process,
        spec_add_edges(c, es).complete_derivations == c.complete_derivations,
        spec_add_edges(c, es).tracing == c.tracing,
    decreases es.len(),
{
    if es.len() != 0 {
        lemma_add_edges_frame(c, es.drop_last());
        lemma_add_edge_frame(spec_add_edges(c, es.drop_last()), es.last());
    }
}

/// The insertion filter preserves the chart invariant when offered a well-formed edge.
proof fn lemma_add_edge_wf(c: ChartModel, e: EdgeModel)
    requires
        chart_wf(c),
        edge_wf(c, e),
    ensures
        chart_wf(spec_add_edge(c, e)),
{
    let c2 = spec_add_edge(c, e);
    lemma_add_edge_frame(c, e);
    if !edge_in(c.edges, e) {
        assert(c2.edges =~= c.edges.push(e));
        assert forall|i: int| 0 <= i < c2.edges.len() implies edge_wf(
            c2,
            #[trigger] c2.edges[i],
        ) by {
            if i < c.edges.len() {
                lemma_edge_wf_mono(c, c2, c.edges[i]);
            } else {
                assert(c2.edges[i] == e);
                lemma_edge_wf_mono(c, c2, e);
            }
        }
        assert forall|i: int, k: int|
            0 <= i < c2.edges.len() && 0 <= k < c2.edges[i].history.len() implies (
        #[trigger] c2.edges[i].history[k]) < i by {
            if i >= c.edges.len() {
                assert(c2.edges[i] == e);
                assert(e.history[k] < c.edges.len());
            }
        }
        assert forall|i: int, j: int| 0 <= i < j < c2.edges.len() implies c2.edges[i]
            != c2.edges[j] by {
            if j >= c.edges.len() {
                assert(c2.edges[j] == e);
                if c2.edges[i] == e {
                    assert(c.edges[i] == e);
                    assert(edge_in(c.edges, e));
                }
            }
        }
        assert forall|i: int| 0 <= i < c2.complete_derivations.len() implies complete_wf(
            c2,
            #[trigger] c2.complete_derivations[i],
        ) by {
            lemma_complete_wf_mono(c, c2, c.complete_derivations[i]);
        }
    }
}

/// The insertion filter preserves the chart invariant when offered a whole sequence of
/// well-formed edges.
proof fn lemma_add_edges_wf(c: ChartModel, es: Seq<EdgeModel>)
    requires
        chart_wf(c),
        forall|k: int| 0 <= k < es.len() ==> edge_wf(c, #[trigger] es[k]),
    ensures
        chart_wf(spec_add_edges(c, es)),
    decreases es.len(),
{
    if es.len() != 0 {
        assert(forall|k: int|
            0 <= k < es.drop_last().len() ==> #[trigger] es.drop_last()[k] == es[k]);
        lemma_add_edges_wf(c, es.drop_last());
        let mid = spec_add_edges(c, es.drop_last());
        lemma_add_edges_frame(c, es.drop_last());
        lemma_edge_wf_mono(c, mid, es.last());
        lemma_add_edge_wf(mid, es.last());
    }
}

/// Chart extension is transitive.
proof fn lemma_extends_trans(c3: ChartModel, c2: ChartModel, c1: ChartModel)
    requires
        chart_extends(c3, c2),
        chart_extends(c2, c1),
    ensures
        chart_extends(c3, c1),
{
    assert forall|i: int| 0 <= i < c1.edges.len() implies c3.edges[i] == c1.edges[i] by {
        assert(c2.edges[i] == c1.edges[i]);
    }
}

/// Every predicted edge is well formed: a production of the grammar with the
/// dot at the start, an empty span within the input, and no history.
proof fn lemma_predict_wf(c: ChartModel, n: int, nt: u64, at: int)
    requires
        0 <= n <= c.grammar.len(),
        0 <= at <= c.input.len(),
    ensures
        forall|k: int|
            0 <= k < spec_predict(c.grammar, n, nt, at).len() ==> edge_wf(
                c,
                #[trigger] spec_predict(c.grammar, n, nt, at)[k],
            ),
    decreases n,
{
    if n > 0 {
        lemma_predict_wf(c, n - 1, nt, at);
        let pre = spec_predict(c.grammar, n - 1, nt, at);
        let cur = spec_predict(c.grammar, n, nt, at);
        if c.grammar[n - 1].lhs == nt {
            let e = predict_edge(c.grammar[n - 1], at);
            assert(production_in_grammar(c.grammar, e.dotted_rule.production));
            assert(nt_count(c.grammar[n - 1].rhs, 0) == 0);
            assert(edge_wf(c, e));
            assert forall|k: int| 0 <= k < cur.len() implies edge_wf(c, #[trigger] cur[k]) by {
                if k < pre.len() {
                    assert(cur[k] == pre[k]);
                } else {
                    assert(cur[k] == e);
                }
            }
        }
    }
}

/// Every completion edge is well formed: it resumes a well-formed waiting
/// edge with the dot advanced over one nonterminal, and its history gains the
/// index of the complete edge that justified it.
proof fn lemma_complete_candidates_wf(c: ChartModel, n: int, done: EdgeModel, done_idx: usize)
    requires
        chart_wf(c),
        0 <= n <= c.edges.len(),
        done_idx < c.edges.len(),
        c.edges[done_idx as int] == done,
        spec_is_complete(done.dotted_rule),
    ensures
        forall|k: int|
            0 <= k < spec_complete(c.edges, n, done, done_idx).len() ==> edge_wf(
                c,
                #[trigger] spec_complete(c.edges, n, done, done_idx)[k],
            ),
    decreases n,
{
    if n > 0 {
        lemma_complete_candidates_wf(c, n - 1, done, done_idx);
        let pre = spec_complete(c.edges, n - 1, done, done_idx);
        let cur = spec_complete(c.edges, n, done, done_idx);
        let w = c.edges[n - 1];
        if waiting_on(w, done.dotted_rule.production.lhs, done.start) {
            let e = complete_edge(w, done, done_idx);
            assert(edge_wf(c, w));
            assert(edge_wf(c, done));
            let rhs = w.dotted_rule.production.rhs;
            let dot = w.dotted_rule.dot_pos as int;
            assert(rhs[dot] is Nonterminal);
            assert(nt_count(rhs, dot + 1) == nt_count(rhs, dot) + 1);
            assert forall|l: int|
                0 <= l < e.history.len() implies (#[trigger] e.history[l]) < c.edges.len()
                    && spec_is_complete(c.edges[e.history[l] as int].dotted_rule) by {
                if l < w.history.len() {
                    assert(e.history[l] == w.history[l]);
                } else {
                    assert(e.history[l] == done_idx);
                }
            }
            assert(edge_wf(c, e));
            assert forall|k: int| 0 <= k < cur.len() implies edge_wf(c, #[trigger] cur[k]) by {
                if k < pre.len() {
                    assert(cur[k] == pre[k]);
                } else {
                    assert(cur[k] == e);
                }
            }
        }
    }
}

/// One processing step preserves the chart invariant and only grows the
/// chart.
proof fn lemma_step_wf(c: ChartModel)
    requires
        chart_wf(c),
        c.next_to_process < c.edges.len(),
        c.next_to_process <= usize::MAX,
    ensures
        chart_wf(spec_step(c)),
        chart_extends(spec_step(c), c),
        spec_step(c).next_to_process == c.next_to_process + 1,
        spec_step(c).tracing == c.tracing,
{
    let e = c.edges[c.next_to_process];
    assert(edge_wf(c, e));
    let c1 = ChartModel { next_to_process: c.next_to_process + 1, ..c };
    assert(chart_extends(c1, c));
    assert forall|i: int| 0 <= i < c1.edges.len() implies edge_wf(c1, #[trigger] c1.edges[i]) by {
        lemma_edge_wf_mono(c, c1, c.edges[i]);
    }
    assert forall|i: int| 0 <= i < c1.complete_derivations.len() implies complete_wf(
        c1,
        #[trigger] c1.complete_derivations[i],
    ) by {
        lemma_complete_wf_mono(c, c1, c.complete_derivations[i]);
    }
    assert(chart_wf(c1));
    match spec_next_symbol(e.dotted_rule) {
        Some(Symbol::Nonterminal(nt)) => {
            let es = spec_predict(c.grammar, c.grammar.len() as int, nt, e.end);
            lemma_predict_wf(c, c.grammar.len() as int, nt, e.end);
            assert forall|k: int| 0 <= k < es.len() implies edge_wf(c1, #[trigger] es[k]) by {
                lemma_edge_wf_mono(c, c1, es[k]);
            }
            lemma_add_edges_wf(c1, es);
            lemma_add_edges_frame(c1, es);
            lemma_extends_trans(spec_step(c), c1, c);
        },
        Some(Symbol::Terminal(t)) => {
            if e.end < c.input.len() && c.input[e.end] == t {
                let s = scan_edge(e);
                let rhs = e.dotted_rule.production.rhs;
                let dot = e.dotted_rule.dot_pos as int;
                assert(rhs[dot] is Terminal);
                assert(nt_count(rhs, dot + 1) == nt_count(rhs, dot));
                assert(edge_wf(c1, s));
                lemma_add_edge_wf(c1, s);
                lemma_add_edge_frame(c1, s);
                lemma_extends_trans(spec_step(c), c1, c);
            }
        },
        None => {
            let c2 = if is_full_parse(c, e) {
                ChartModel { complete_derivations: c1.complete_derivations.push(e), ..c1 }
            } else {
                c1
            };
            assert(chart_extends(c2, c1));
            assert forall|i: int| 0 <= i < c2.complete_derivations.len() implies complete_wf(
                c2,
                #[trigger] c2.complete_derivations[i],
            ) by {
                if i < c1.complete_derivations.len() {
                    lemma_complete_wf_mono(c1, c2, c1.complete_derivations[i]);
                } else {
                    assert(c2.complete_derivations[i] == e);
                    assert(c.edges[c.next_to_process] == e);
                    assert(edge_in(c2.edges, e));
                }
            }
            assert forall|i: int| 0 <= i < c2.edges.len() implies edge_wf(
                c2,
                #[trigger] c2.edges[i],
            ) by {
                lemma_edge_wf_mono(c1, c2, c1.edges[i]);
            }
            assert(chart_wf(c2));
            let es = spec_complete(c.edges, c.edges.len() as int, e, c.next_to_process as usize);
            lemma_complete_candidates_wf(c, c.edges.len() as int, e, c.next_to_process as usize);
            assert forall|k: int| 0 <= k < es.len() implies edge_wf(c2, #[trigger] es[k]) by {
                lemma_edge_wf_mono(c, c2, es[k]);
            }
            lemma_add_edges_wf(c2, es);
            lemma_add_edges_frame(c2, es);
            lemma_extends_trans(spec_step(c), c2, c);
        },
    }
}

/// Running for `a + b` steps is running for `a` steps, then `b` more.
proof fn lemma_run_add(c: ChartModel, a: nat, b: nat)
    ensures
        spec_run(c, a + b) == spec_run(spec_run(c, a), b),
    decreases a,
{
    if a > 0 && c.next_to_process < c.edges.len() {
        lemma_run_add(spec_step(c), (a - 1) as nat, b);
    }
}

/// While the worklist is not yet empty, one more unit of fuel performs
/// exactly one more step.
proof fn lemma_run_succ(c: ChartModel, n: nat)
    requires
        spec_run(c, n).next_to_process < spec_run(c, n).edges.len(),
    ensures
        spec_run(c, n + 1) == spec_step(spec_run(c, n)),
    decreases n,
{
    if n == 0 {
        assert(spec_run(c, 0) == c);
        assert(c.next_to_process < c.edges.len());
        assert(spec_run(c, 1) == spec_run(spec_step(c), 0));
        assert(spec_run(spec_step(c), 0) == spec_step(c));
    } else {
        if c.next_to_process < c.edges.len() {
            assert(spec_run(c, n) == spec_run(spec_step(c), (n - 1) as nat));
            lemma_run_succ(spec_step(c), (n - 1) as nat);
            assert(spec_run(c, n + 1) == spec_run(spec_step(c), n));
        } else {
            assert(spec_run(c, n) == c);
        }
    }
}

/// An edge offered to the insertion filter stands in the store afterwards,
/// whether it was new or already present.
proof fn lemma_add_edge_absorbs(c: ChartModel, e: EdgeModel)
    ensures
        edge_in(spec_add_edge(c, e).edges, e),
{
    if !edge_in(c.edges, e) {
        assert(spec_add_edge(c, e).edges[c.edges.len() as int] == e);
    }
}

/// An edge of the store stays in the store when the chart only grows.
proof fn lemma_edge_in_mono(c: ChartModel, c2: ChartModel, e: EdgeModel)
    requires
        edge_in(c.edges, e),
        chart_extends(c2, c),
    ensures
        edge_in(c2.edges, e),
{
    let i = choose|i: int| 0 <= i < c.edges.len() && c.edges[i] == e;
    assert(c2.edges[i] == e);
}

/// Every edge of a batch offered to the insertion filter stands in the store
/// afterwards.
proof fn lemma_add_edges_absorb(c: ChartModel, es: Seq<EdgeModel>)
    ensures
        forall|k: int|
            0 <= k < es.len() ==> edge_in(spec_add_edges(c, es).edges, #[trigger] es[k]),
    decreases es.len(),
{
    if es.len() != 0 {
        lemma_add_edges_absorb(c, es.drop_last());
        let mid = spec_add_edges(c, es.drop_last());
        let fin = spec_add_edges(c, es);
        lemma_add_edge_frame(mid, es.last());
        assert forall|k: int| 0 <= k < es.len() implies edge_in(fin.edges, #[trigger] es[k]) by {
            if k < es.len() - 1 {
                assert(es.drop_last()[k] == es[k]);
                lemma_edge_in_mono(mid, fin, es[k]);
            } else {
                lemma_add_edge_absorbs(mid, es.last());
            }
        }
    }
}

/// The completion batch holds the resumption of every waiting edge among the
/// first `n` edges of the store.
proof fn lemma_complete_covers(
    edges: Seq<EdgeModel>,
    n: int,
    done: EdgeModel,
    done_idx: usize,
    j: int,
)
    requires
        0 <= j < n <= edges.len(),
        waiting_on(edges[j], done.dotted_rule.production.lhs, done.start),
    ensures
        edge_in(spec_complete(edges, n, done, done_idx), complete_edge(edges[j], done, done_idx)),
    decreases n,
{
    let cur = spec_complete(edges, n, done, done_idx);
    let pre = spec_complete(edges, n - 1, done, done_idx);
    if j == n - 1 {
        assert(cur[pre.len() as int] == complete_edge(edges[j], done, done_idx));
    } else {
        lemma_complete_covers(edges, n - 1, done, done_idx, j);
        let k = choose|k: int|
            0 <= k < pre.len() && pre[k] == complete_edge(edges[j], done, done_idx);
        assert(cur[k] == complete_edge(edges[j], done, done_idx));
    }
}

/// The prediction batch holds a fresh edge for every production of the
/// predicted nonterminal among the first `n` productions of the grammar.
proof fn lemma_predict_covers(g: Seq<ProductionModel>, n: int, nt: u64, at: int, j: int)
    requires
        0 <= j < n <= g.len(),
        g[j].lhs == nt,
    ensures
        edge_in(spec_predict(g, n, nt, at), predict_edge(g[j], at)),
    decreases n,
{
    let cur = spec_predict(g, n, nt, at);
    let pre = spec_predict(g, n - 1, nt, at);
    if j == n - 1 {
        assert(cur[pre.len() as int] == predict_edge(g[j], at));
    } else {
        lemma_predict_covers(g, n - 1, nt, at, j);
        let k = choose|k: int| 0 <= k < pre.len() && pre[k] == predict_edge(g[j], at);
        assert(cur[k] == predict_edge(g[j], at));
    }
}

/// Law (completion propagates): when the processed edge is complete, every
/// stored edge waiting on its nonterminal at its start position — whether
/// created before or after that edge — stands resumed in the store after the
/// step: its dot advanced over the nonterminal, its span stretched to the
/// completed edge's end, and the completed edge's index appended to its
/// history.
pub proof fn lemma_completion_resumes_waiting(c: ChartModel, j: int)
    requires
        0 <= c.next_to_process < c.edges.len(),
        c.next_to_process <= usize::MAX,
        spec_next_symbol(c.edges[c.next_to_process].dotted_rule) is None,
        0 <= j < c.edges.len(),
        waiting_on(
            c.edges[j],
            c.edges[c.next_to_process].dotted_rule.production.lhs,
            c.edges[c.next_to_process].start,
        ),
    ensures
        edge_in(
            spec_step(c).edges,
            complete_edge(
                c.edges[j],
                c.edges[c.next_to_process],
                c.next_to_process as usize,
            ),
        ),
{
    let e = c.edges[c.next_to_process];
    let idx = c.next_to_process as usize;
    let es = spec_complete(c.edges, c.edges.len() as int, e, idx);
    lemma_complete_covers(c.edges, c.edges.len() as int, e, idx, j);
    let c1 = ChartModel { next_to_process: c.next_to_process + 1, ..c };
    let c2 = if is_full_parse(c, e) {
        ChartModel { complete_derivations: c1.complete_derivations.push(e), ..c1 }
    } else {
        c1
    };
    lemma_add_edges_absorb(c2, es);
    let k = choose|k: int| 0 <= k < es.len() && es[k] == complete_edge(c.edges[j], e, idx);
    assert(edge_in(spec_step(c).edges, es[k]));
}

/// Law (prediction covers the grammar): when the processed edge expects a
/// nonterminal, then for every production of that nonterminal a fresh edge —
/// dot at the start, empty span at the processed edge's end, no history —
/// stands in the store after the step.
pub proof fn lemma_prediction_covers_productions(c: ChartModel, j: int)
    requires
        0 <= c.next_to_process < c.edges.len(),
        0 <= j < c.grammar.len(),
        spec_next_symbol(c.edges[c.next_to_process].dotted_rule) == Some(
            Symbol::Nonterminal(c.grammar[j].lhs),
        ),
    ensures
        edge_in(
            spec_step(c).edges,
            predict_edge(c.grammar[j], c.edges[c.next_to_process].end),
        ),
{
    let e = c.edges[c.next_to_process];
    let nt = c.grammar[j].lhs;
    let at = e.end;
    let es = spec_predict(c.grammar, c.grammar.len() as int, nt, at);
    lemma_predict_covers(c.grammar, c.grammar.len() as int, nt, at, j);
    let c1 = ChartModel { next_to_process: c.next_to_process + 1, ..c };
    lemma_add_edges_absorb(c1, es);
    let k = choose|k: int| 0 <= k < es.len() && es[k] == predict_edge(c.grammar[j], at);
    assert(edge_in(spec_step(c).edges, es[k]));
}

/// Law (deduplication): offering the insertion filter an edge structurally identical to
/// one already in the store — same rule, same span, same history — changes
/// nothing: re-processing can never re-insert a duplicate.
pub proof fn lemma_filter_discards_duplicates(c: ChartModel, e: EdgeModel)
    requires
        edge_in(c.edges, e),
    ensures
        spec_add_edge(c, e) == c,
{
}

/// Law (deduplication): in a well-formed chart the edge store never holds
/// two structurally equal edges.
pub proof fn lemma_edge_store_duplicate_free(c: ChartModel, i: int, j: int)
    requires
        chart_wf(c),
        0 <= i < c.edges.len(),
        0 <= j < c.edges.len(),
        i != j,
    ensures
        c.edges[i] != c.edges[j],
{
}

/// Law (determinism): for a fixed starting chart, any two runs long enough
/// to empty the worklist end in the same state, so the edge store's final
/// size is deterministic for a fixed `(grammar, input)` pair.
pub proof fn lemma_fixed_point_deterministic(c: ChartModel, fuel1: nat, fuel2: nat)
    requires
        spec_run(c, fuel1).next_to_process >= spec_run(c, fuel1).edges.len(),
        spec_run(c, fuel2).next_to_process >= spec_run(c, fuel2).edges.len(),
    ensures
        spec_run(c, fuel1) == spec_run(c, fuel2),
{
    if fuel1 <= fuel2 {
        lemma_run_add(c, fuel1, (fuel2 - fuel1) as nat);
    } else {
        lemma_run_add(c, fuel2, (fuel1 - fuel2) as nat);
    }
}

/// Law (history/production correspondence): in a well-formed chart, every
/// stored edge's history holds exactly one entry per `Nonterminal` symbol
/// before its dot — terminal symbols never contribute history entries.  For
/// a complete edge the dot stands past the whole right-hand side, so its
/// history length equals the count of nonterminals in its rule's entire
/// right-hand side.
pub proof fn lemma_history_matches_nonterminals(c: ChartModel, i: int)
    requires
        chart_wf(c),
        0 <= i < c.edges.len(),
    ensures
        c.edges[i].history.len() == nt_count(
            c.edges[i].dotted_rule.production.rhs,
            c.edges[i].dotted_rule.dot_pos as int,
        ),
{
}

} // verus!
