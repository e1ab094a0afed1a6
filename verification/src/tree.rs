//! Ordered, labeled trees: the shape of a reconstructed derivation.

use vstd::prelude::*;

use crate::grammar::Symbol;

verus! {

broadcast use vstd::std_specs::vec::group_vec_axioms, vstd::seq::group_seq_axioms;

/// Mathematical model of a tree.
#[verifier::ext_equal]
pub ghost struct TreeModel {
    pub value: Symbol,
    pub children: Seq<TreeModel>,
}

/// An ordered tree with a symbol at every node.  In a derivation tree,
/// internal nodes are labeled by nonterminals and leaves by terminals (or by
/// nonterminals whose production has an empty right-hand side).
#[derive(Debug, PartialEq, Eq)]
pub struct Tree {
    value: Symbol,
    children: Vec<Tree>,
}

impl View for Tree {
    type V = TreeModel;

    closed spec fn view(&self) -> TreeModel {
        self.model()
    }
}

/// The models of a sequence of trees, in order.
pub closed spec fn trees_model(s: Seq<Tree>) -> Seq<TreeModel>
    decreases s,
    via trees_model_decreases
{
    if s.len() == 0 {
        Seq::empty()
    } else {
        trees_model(s.drop_last()).push(s.last().model())
    }
}

#[via_fn]
proof fn trees_model_decreases(s: Seq<Tree>) {
    if s.len() != 0 {
        assert(decreases_to!(s => s[s.len() - 1]));
        assert(decreases_to!(s => s.subrange(0, s.len() - 1)));
        assert(s.drop_last() == s.subrange(0, s.len() - 1));
    }
}

/// `trees_model` agrees with mapping each tree to its model.
pub proof fn lemma_trees_model_is_map(s: Seq<Tree>)
    ensures
        trees_model(s) == s.map_values(|t: Tree| t@),
    decreases s.len(),
{
    if s.len() == 0 {
        assert(trees_model(s) =~= s.map_values(|t: Tree| t@));
    } else {
        lemma_trees_model_is_map(s.drop_last());
        assert(trees_model(s) =~= s.map_values(|t: Tree| t@));
    }
}

impl Tree {
    /// The model of this tree: the same shape, with `Seq` in place of `Vec`.
    closed spec fn model(&self) -> TreeModel
        decreases self,
        via Self::model_decreases
    {
        TreeModel { value: self.value, children: trees_model(self.children@) }
    }

    #[via_fn]
    proof fn model_decreases(&self) {
        assert(decreases_to!(self => self.children));
        assert(decreases_to!(self.children => self.children@));
    }

    /// Builds a tree node with the given label and children.
    pub fn new(value: Symbol, children: Vec<Tree>) -> (t: Self)
        ensures
            t@.value == value,
            t@.children == children@.map_values(|c: Tree| c@),
    {
        proof {
            lemma_trees_model_is_map(children@);
        }
        Tree { value, children }
    }

    /// The label of this node.
    pub fn value(&self) -> (s: Symbol)
        ensures
            s == self@.value,
    {
        self.value
    }

    /// The children of this node, in order.
    pub fn children(&self) -> (c: &Vec<Tree>)
        ensures
            c@.map_values(|t: Tree| t@) == self@.children,
    {
        proof {
            lemma_trees_model_is_map(self.children@);
        }
        &self.children
    }
}

} // verus!
