//! Engine-level scenarios: recognition, ambiguity, recursion, deduplication.

use earley::grammar::grammar_is_wf;
use earley::Chart;
use earley::ChartEdge;
use earley::Production;
use earley::Symbol;
use earley::Tree;

const S: u64 = 1;
const A: u64 = 2;
const B: u64 = 3;

const TOK_A: u64 = 100;
const TOK_B: u64 = 101;
const TOK_X: u64 = 102;

const FUEL: usize = 100_000;

fn nt(id: u64) -> Symbol {
    Symbol::Nonterminal(id)
}

fn term(id: u64) -> Symbol {
    Symbol::Terminal(id)
}

fn leaf(s: Symbol) -> Tree {
    Tree::new(s, vec![])
}

#[test]
fn single_token_grammar_accepts_its_token() {
    let prods = vec![Production::new(S, vec![term(TOK_A)])];
    let mut chart = Chart::new(vec![TOK_A], prods, S);
    assert!(chart.process_all(FUEL));
    assert_eq!(chart.complete_derivations().len(), 1);
    let trees = chart.generate_derivation_trees();
    assert_eq!(trees.len(), 1);
    assert_eq!(trees[0], Tree::new(nt(S), vec![leaf(term(TOK_A))]));
}

#[test]
fn single_token_grammar_rejects_longer_input() {
    let prods = vec![Production::new(S, vec![term(TOK_A)])];
    let mut chart = Chart::new(vec![TOK_A, TOK_A], prods, S);
    assert!(chart.process_all(FUEL));
    assert_eq!(chart.complete_derivations().len(), 0);
}

#[test]
fn single_token_grammar_rejects_empty_input() {
    let prods = vec![Production::new(S, vec![term(TOK_A)])];
    let mut chart = Chart::new(vec![], prods, S);
    assert!(chart.process_all(FUEL));
    assert_eq!(chart.complete_derivations().len(), 0);
}

#[test]
fn single_token_grammar_rejects_wrong_token() {
    let prods = vec![Production::new(S, vec![term(TOK_A)])];
    let mut chart = Chart::new(vec![TOK_B], prods, S);
    assert!(chart.process_all(FUEL));
    assert_eq!(chart.complete_derivations().len(), 0);
}

#[test]
fn empty_production_derives_empty_input() {
    let prods = vec![Production::new(S, vec![])];
    let mut chart = Chart::new(vec![], prods, S);
    assert!(chart.process_all(FUEL));
    assert_eq!(chart.complete_derivations().len(), 1);
    let trees = chart.generate_derivation_trees();
    assert_eq!(trees[0], Tree::new(nt(S), vec![]));
}

#[test]
fn ambiguous_grammar_yields_two_distinct_derivations() {
    let prods = vec![
        Production::new(S, vec![nt(A)]),
        Production::new(S, vec![nt(B)]),
        Production::new(A, vec![term(TOK_X)]),
        Production::new(B, vec![term(TOK_X)]),
    ];
    let mut chart = Chart::new(vec![TOK_X], prods, S);
    assert!(chart.process_all(FUEL));
    assert_eq!(chart.complete_derivations().len(), 2);
    let trees = chart.generate_derivation_trees();
    assert_eq!(trees.len(), 2);
    assert_ne!(trees[0], trees[1]);
    let via_a = Tree::new(nt(S), vec![Tree::new(nt(A), vec![leaf(term(TOK_X))])]);
    let via_b = Tree::new(nt(S), vec![Tree::new(nt(B), vec![leaf(term(TOK_X))])]);
    assert!(trees.contains(&via_a));
    assert!(trees.contains(&via_b));
    for tree in &trees {
        assert_eq!(tree.value(), nt(S));
    }
}

#[test]
fn left_recursion_terminates_with_left_branching_tree() {
    let prods = vec![
        Production::new(S, vec![nt(S), term(TOK_X)]),
        Production::new(S, vec![term(TOK_X)]),
    ];
    let mut chart = Chart::new(vec![TOK_X, TOK_X, TOK_X], prods, S);
    assert!(chart.process_all(FUEL));
    assert_eq!(chart.complete_derivations().len(), 1);
    let trees = chart.generate_derivation_trees();
    let depth1 = Tree::new(nt(S), vec![leaf(term(TOK_X))]);
    let depth2 = Tree::new(nt(S), vec![depth1, leaf(term(TOK_X))]);
    let depth3 = Tree::new(nt(S), vec![depth2, leaf(term(TOK_X))]);
    assert_eq!(trees[0], depth3);
}

#[test]
fn right_recursion_terminates() {
    let prods = vec![
        Production::new(S, vec![term(TOK_X), nt(S)]),
        Production::new(S, vec![term(TOK_X)]),
    ];
    let mut chart = Chart::new(vec![TOK_X, TOK_X, TOK_X], prods, S);
    assert!(chart.process_all(FUEL));
    assert_eq!(chart.complete_derivations().len(), 1);
    let trees = chart.generate_derivation_trees();
    let depth1 = Tree::new(nt(S), vec![leaf(term(TOK_X))]);
    let depth2 = Tree::new(nt(S), vec![leaf(term(TOK_X)), depth1]);
    let depth3 = Tree::new(nt(S), vec![leaf(term(TOK_X)), depth2]);
    assert_eq!(trees[0], depth3);
}

#[test]
fn terminal_after_nonterminal_keeps_history() {
    let prods = vec![
        Production::new(S, vec![nt(A), term(TOK_B)]),
        Production::new(A, vec![term(TOK_A)]),
    ];
    let mut chart = Chart::new(vec![TOK_A, TOK_B], prods, S);
    assert!(chart.process_all(FUEL));
    assert_eq!(chart.complete_derivations().len(), 1);
    let derivation = &chart.complete_derivations()[0];
    assert_eq!(derivation.history().len(), 1);
    let trees = chart.generate_derivation_trees();
    let expected = Tree::new(
        nt(S),
        vec![Tree::new(nt(A), vec![leaf(term(TOK_A))]), leaf(term(TOK_B))],
    );
    assert_eq!(trees[0], expected);
}

fn count_edges(mut chart: Chart) -> (usize, usize) {
    let mut processed: usize = 0;
    while chart.more_to_process() {
        chart.process_one();
        processed += 1;
    }
    (processed, chart.complete_derivations().len())
}

#[test]
fn edge_store_size_is_deterministic_across_runs() {
    let build = || {
        let prods = vec![
            Production::new(S, vec![nt(S), term(TOK_X)]),
            Production::new(S, vec![nt(A)]),
            Production::new(A, vec![term(TOK_X)]),
        ];
        Chart::new(vec![TOK_X, TOK_X], prods, S)
    };
    let (edges_first, parses_first) = count_edges(build());
    let (edges_second, parses_second) = count_edges(build());
    assert_eq!(edges_first, edges_second);
    assert_eq!(parses_first, parses_second);
}

#[test]
fn reprocessing_a_finished_chart_changes_nothing() {
    let prods = vec![
        Production::new(S, vec![nt(S), term(TOK_X)]),
        Production::new(S, vec![term(TOK_X)]),
    ];
    let mut chart = Chart::new(vec![TOK_X, TOK_X], prods, S);
    assert!(chart.process_all(FUEL));
    let parses = chart.complete_derivations().len();
    assert!(!chart.more_to_process());
    assert!(chart.process_all(FUEL));
    assert_eq!(chart.complete_derivations().len(), parses);
    assert!(!chart.more_to_process());
}

#[test]
fn complete_derivations_are_sound() {
    let prods = vec![
        Production::new(S, vec![nt(S), term(TOK_X)]),
        Production::new(S, vec![term(TOK_X)]),
    ];
    let input = vec![TOK_X, TOK_X];
    let input_len = input.len();
    let mut chart = Chart::new(input, prods, S);
    assert!(chart.process_all(FUEL));
    let derivations: &Vec<ChartEdge> = chart.complete_derivations();
    assert!(!derivations.is_empty());
    for edge in derivations {
        assert_eq!(edge.start(), 0);
        assert_eq!(edge.end(), input_len);
        assert!(edge.dotted_rule().is_complete());
        assert_eq!(*edge.dotted_rule().production().lhs(), S);
    }
}

#[test]
fn production_getters_round_trip() {
    let p = Production::new(S, vec![nt(A), term(TOK_B)]);
    assert_eq!(*p.lhs(), S);
    assert_eq!(*p.rhs(), vec![nt(A), term(TOK_B)]);
}

#[test]
fn processed_edge_getters_expose_rule_and_span() {
    let prods = vec![
        Production::new(S, vec![nt(S), term(TOK_X)]),
        Production::new(S, vec![term(TOK_X)]),
    ];
    let mut chart = Chart::new(vec![TOK_X], prods, S);
    // The first processed edge is the first seeded start rule, with its dot
    // at the beginning of an empty span at position 0.
    let edge = chart.process_one();
    let rule = edge.dotted_rule();
    assert_eq!(rule.dot_pos(), 0);
    assert!(!rule.is_complete());
    assert_eq!(*rule.production().lhs(), S);
    assert_eq!(*rule.production().rhs(), vec![nt(S), term(TOK_X)]);
    assert_eq!(edge.start(), 0);
    assert_eq!(edge.end(), 0);
    assert!(edge.history().is_empty());
}

#[test]
fn grammar_check_accepts_closed_grammar() {
    let prods = vec![
        Production::new(S, vec![nt(A), term(TOK_B)]),
        Production::new(A, vec![term(TOK_A)]),
    ];
    assert!(grammar_is_wf(&prods, S));
}

#[test]
fn grammar_check_rejects_missing_start() {
    let prods = vec![Production::new(A, vec![term(TOK_A)])];
    assert!(!grammar_is_wf(&prods, S));
}

#[test]
fn grammar_check_rejects_undefined_rhs_nonterminal() {
    let prods = vec![Production::new(S, vec![nt(A)])];
    assert!(!grammar_is_wf(&prods, S));
}
