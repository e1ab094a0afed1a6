//! Trace-log behavior, history/production correspondence, and a larger
//! natural-language grammar.

use earley::Chart;
use earley::ChartEdge;
use earley::Production;
use earley::Symbol;

const S: u64 = 1;
const NP: u64 = 2;
const PP: u64 = 3;
const VP: u64 = 4;
const N: u64 = 5;
const P: u64 = 6;
const V: u64 = 7;
const A: u64 = 8;

const TOK_CAN: u64 = 100;
const TOK_FISH: u64 = 101;
const TOK_RIVERS: u64 = 102;
const TOK_THEY: u64 = 103;
const TOK_DECEMBER: u64 = 104;
const TOK_IN: u64 = 105;
const TOK_A: u64 = 106;

const FUEL: usize = 1_000_000;

fn nt(id: u64) -> Symbol {
    Symbol::Nonterminal(id)
}

fn term(id: u64) -> Symbol {
    Symbol::Terminal(id)
}

fn unit_chain_grammar() -> Vec<Production> {
    vec![
        Production::new(S, vec![nt(A)]),
        Production::new(A, vec![term(TOK_A)]),
    ]
}

#[test]
fn trace_records_accepted_edges_with_backreferences() {
    let mut chart = Chart::new(vec![TOK_A], unit_chain_grammar(), S);
    chart.set_trace(true);
    assert!(chart.process_all(FUEL));
    let log = chart.trace_chart();
    // The seeded start edge predates tracing; after it the insertion filter accepts the
    // predicted `A` rule, the scanned token, and the completed start rule.
    assert_eq!(log.len(), 3);
    // Predicted A -> . a  at [0,0): no history.
    assert!(log[0].1.is_empty());
    // Scanned   A -> a .  over [0,1): terminals leave no history entries.
    assert!(log[1].1.is_empty());
    assert!(log[1].0.dotted_rule().is_complete());
    // Completed S -> A .  over [0,1): one back-reference to the scanned edge,
    // resolved to its index in this same log.
    assert!(log[2].0.dotted_rule().is_complete());
    assert_eq!(log[2].1, vec![1]);
}

#[test]
fn trace_enabled_late_resolves_unknown_edges_to_max() {
    let mut chart = Chart::new(vec![TOK_A], unit_chain_grammar(), S);
    // Predict A, then scan the token, without tracing.
    chart.process_one();
    chart.process_one();
    chart.set_trace(true);
    // Completing A now resumes the start rule; the completed edge it refers
    // to was accepted before tracing began, so the log cannot resolve it.
    chart.process_one();
    let log = chart.trace_chart();
    assert_eq!(log.len(), 1);
    assert_eq!(log[0].1, vec![usize::MAX]);
}

#[test]
fn tracing_does_not_change_results() {
    let run = |trace: bool| {
        let mut chart = Chart::new(vec![TOK_A], unit_chain_grammar(), S);
        chart.set_trace(trace);
        let mut processed: usize = 0;
        while chart.more_to_process() {
            chart.process_one();
            processed += 1;
        }
        (processed, chart.complete_derivations().len())
    };
    assert_eq!(run(false), run(true));
}

fn nonterminal_count(edge: &ChartEdge, upto: usize) -> usize {
    let rhs = edge.dotted_rule().production().rhs();
    let mut count: usize = 0;
    let mut i: usize = 0;
    while i < upto {
        if matches!(rhs[i], Symbol::Nonterminal(_)) {
            count += 1;
        }
        i += 1;
    }
    count
}

fn demo_grammar() -> Vec<Production> {
    vec![
        Production::new(S, vec![nt(NP), nt(VP)]),
        Production::new(NP, vec![nt(N)]),
        Production::new(NP, vec![nt(N), nt(PP)]),
        Production::new(PP, vec![nt(P), nt(NP)]),
        Production::new(VP, vec![nt(V)]),
        Production::new(VP, vec![nt(V), nt(NP)]),
        Production::new(VP, vec![nt(V), nt(VP)]),
        Production::new(VP, vec![nt(VP), nt(PP)]),
        Production::new(N, vec![term(TOK_CAN)]),
        Production::new(N, vec![term(TOK_FISH)]),
        Production::new(N, vec![term(TOK_RIVERS)]),
        Production::new(N, vec![term(TOK_THEY)]),
        Production::new(N, vec![term(TOK_DECEMBER)]),
        Production::new(P, vec![term(TOK_IN)]),
        Production::new(V, vec![term(TOK_CAN)]),
        Production::new(V, vec![term(TOK_FISH)]),
    ]
}

fn demo_input() -> Vec<u64> {
    vec![
        TOK_THEY,
        TOK_CAN,
        TOK_FISH,
        TOK_IN,
        TOK_RIVERS,
        TOK_IN,
        TOK_DECEMBER,
    ]
}

#[test]
fn every_edge_history_matches_its_matched_nonterminals() {
    let mut chart = Chart::new(demo_input(), demo_grammar(), S);
    let mut checked: usize = 0;
    while chart.more_to_process() {
        let edge = chart.process_one();
        let dot = edge.dotted_rule().dot_pos();
        assert_eq!(edge.history().len(), nonterminal_count(&edge, dot));
        if edge.dotted_rule().is_complete() {
            let rhs_len = edge.dotted_rule().production().rhs().len();
            assert_eq!(edge.history().len(), nonterminal_count(&edge, rhs_len));
        }
        checked += 1;
    }
    assert!(checked > 0);
}

#[test]
fn ambiguous_sentence_has_multiple_sound_parses() {
    let input = demo_input();
    let input_len = input.len();
    let mut chart = Chart::new(input, demo_grammar(), S);
    assert!(chart.process_all(FUEL));
    let derivations = chart.complete_derivations();
    // Prepositional phrases can attach to noun phrases or verb phrases, and
    // "can" and "fish" are each both noun and verb.
    assert_eq!(derivations.len(), 9);
    for edge in derivations {
        assert_eq!(edge.start(), 0);
        assert_eq!(edge.end(), input_len);
        assert!(edge.dotted_rule().is_complete());
        assert_eq!(*edge.dotted_rule().production().lhs(), S);
    }
    let trees = chart.generate_derivation_trees();
    assert_eq!(trees.len(), derivations.len());
    for tree in &trees {
        assert_eq!(tree.value(), nt(S));
        assert_eq!(tree.children().len(), 2);
    }
    // Every ambiguous parse is a distinct tree.
    let mut i: usize = 0;
    while i < trees.len() {
        let mut j: usize = i + 1;
        while j < trees.len() {
            assert_ne!(trees[i], trees[j]);
            j += 1;
        }
        i += 1;
    }
}

#[test]
fn demo_sentence_edge_count_is_deterministic() {
    let count = || {
        let mut chart = Chart::new(demo_input(), demo_grammar(), S);
        let mut edges: usize = 0;
        while chart.more_to_process() {
            chart.process_one();
            edges += 1;
        }
        (edges, chart.complete_derivations().len())
    };
    let first = count();
    assert_eq!(first, count());
    assert_eq!(first, (149, 9));
}

#[test]
fn processed_edge_getters_agree_with_reconstruction() {
    let mut chart = Chart::new(vec![TOK_A], unit_chain_grammar(), S);
    assert!(chart.process_all(FUEL));
    let derivations = chart.complete_derivations().clone();
    assert_eq!(derivations.len(), 1);
    let edge = &derivations[0];
    let tree = edge.generate_derivation_tree(&chart);
    assert_eq!(tree.value(), nt(S));
    assert_eq!(tree.children().len(), 1);
    assert_eq!(tree.children()[0].value(), nt(A));
    assert_eq!(tree.children()[0].children()[0].value(), term(TOK_A));
}
