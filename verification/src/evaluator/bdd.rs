//! Compiling a logic tree into a decision diagram.

use super::diagram::{
    diagram_and, diagram_evaluate, diagram_functions, diagram_label_list, diagram_labels,
    diagram_new, diagram_not, diagram_or, diagram_terminal, diagram_xor,
};
use crate::token::lemma_outcome_is_value;
use crate::truths;
use crate::gate::Gate;
use crate::token::parse::{parse, parse_spec, ParseError, ParseFailure};
use crate::token::LogicTree;
use crate::TerminalId;
use boolean_expression::BDD;
use std::collections::HashMap;
use std::str::FromStr;
use vstd::map_lib::lemma_submap_of_trans;
use vstd::prelude::*;

verus! {

/// The boolean function of a tree: the assignments under which it is true.
pub open spec fn models(tree: LogicTree) -> Set<Set<TerminalId>> {
    Set::new(|s: Set<TerminalId>| tree.value(s))
}

/// A compiled policy: a decision diagram and the handle of the policy's
/// function in it.
pub struct BDDData {
    bdd: BDD<TerminalId>,
    root_func: usize,
}

impl BDDData {
    #[verifier::type_invariant]
    spec fn root_is_valid(&self) -> bool {
        diagram_functions(self.bdd).contains_key(self.root_func)
    }

    /// The policy's boolean function: the assignments under which it is true.
    pub closed spec fn function(&self) -> Set<Set<TerminalId>> {
        diagram_functions(self.bdd)[self.root_func]
    }

    /// The variables of the diagram: the distinct terminals of the policy.
    pub closed spec fn variables(&self) -> Set<TerminalId> {
        diagram_labels(self.bdd)
    }

    /// The diagram computes the tree's truth value under every assignment,
    /// and has one variable for each terminal id of the tree.
    pub open spec fn represents(&self, tree: LogicTree) -> bool {
        &&& self.function() == models(tree)
        &&& self.variables() == tree.terminals()
    }

    /// Compiles infix policy text.
    pub fn build_bdd_from_source(source: &str) -> (result: Result<Self, ParseError>)
        ensures
            match result {
                Ok(data) => parse_spec(source@) is Ok && data.represents(parse_spec(source@)->Ok_0),
                Err(error) => parse_spec(source@) == Err::<LogicTree, ParseFailure>(error@),
            },
    {
        match parse(source) {
            Ok(tree) => Ok(Self::compile(tree)),
            Err(error) => Err(error),
        }
    }

    /// Compiles a logic tree.
    pub fn compile(tree: LogicTree) -> (data: Self)
        requires
            tree.well_formed(),
        ensures
            data.represents(tree),
    {
        let mut bdd = diagram_new();
        let root_func = Self::build_bdd(&mut bdd, tree);
        proof {
            assert(diagram_labels(bdd) =~= tree.terminals());
        }
        BDDData { bdd, root_func }
    }

    fn build_bdd(bdd: &mut BDD<TerminalId>, token_tree: LogicTree) -> (f: usize)
        requires
            token_tree.well_formed(),
        ensures
            diagram_functions(*old(bdd)).submap_of(diagram_functions(*final(bdd))),
            diagram_functions(*final(bdd)).contains_key(f),
            diagram_functions(*final(bdd))[f] == models(token_tree),
            diagram_labels(*final(bdd)) == diagram_labels(*old(bdd)).union(token_tree.terminals()),
        decreases token_tree,
    {
        let ghost before = diagram_functions(*bdd);
        match token_tree {
            LogicTree::Terminal(c) => diagram_terminal(bdd, c),
            LogicTree::Not(operand) => {
                let operand_func = Self::build_bdd(bdd, *operand);
                let ghost inner = diagram_functions(*bdd);
                let f = diagram_not(bdd, operand_func);
                proof {
                    lemma_submap_of_trans(before, inner, diagram_functions(*bdd));
                }
                f
            },
            LogicTree::Gate { gate, left, right } => {
                let left_bdd_func = Self::build_bdd(bdd, *left);
                let ghost between = diagram_functions(*bdd);
                let right_bdd_func = Self::build_bdd(bdd, *right);
                let ghost operands = diagram_functions(*bdd);
                proof {
                    assert(operands.dom().contains(left_bdd_func));
                    lemma_submap_of_trans(before, between, operands);
                }
                let f = match gate {
                    Gate::And => diagram_and(bdd, left_bdd_func, right_bdd_func),
                    Gate::Or => diagram_or(bdd, left_bdd_func, right_bdd_func),
                    Gate::Nand => {
                        let tmp_bdd_func = diagram_and(bdd, left_bdd_func, right_bdd_func);
                        let ghost inner = diagram_functions(*bdd);
                        let f = diagram_not(bdd, tmp_bdd_func);
                        proof {
                            lemma_submap_of_trans(operands, inner, diagram_functions(*bdd));
                        }
                        f
                    },
                    Gate::Nor => {
                        let tmp_bdd_func = diagram_or(bdd, left_bdd_func, right_bdd_func);
                        let ghost inner = diagram_functions(*bdd);
                        let f = diagram_not(bdd, tmp_bdd_func);
                        proof {
                            lemma_submap_of_trans(operands, inner, diagram_functions(*bdd));
                        }
                        f
                    },
                    Gate::Xor => diagram_xor(bdd, left_bdd_func, right_bdd_func),
                    Gate::Not => diagram_not(bdd, right_bdd_func),
                };
                proof {
                    lemma_submap_of_trans(before, operands, diagram_functions(*bdd));
                }
                f
            },
        }
    }

    /// The diagram's variables, each once, in no particular order.
    pub fn labels(&self) -> (labels: Vec<TerminalId>)
        ensures
            labels@.no_duplicates(),
            labels@.to_set() == self.variables(),
    {
        diagram_label_list(&self.bdd)
    }

    /// The policy's value under `values`; a terminal without an entry counts
    /// as false.
    pub fn evaluate(&self, values: &HashMap<TerminalId, bool>) -> (value: bool)
        ensures
            value == self.function().contains(truths(values@)),
    {
        proof {
            use_type_invariant(self);
        }
        diagram_evaluate(&self.bdd, self.root_func, values)
    }
}

impl FromStr for BDDData {
    type Err = ParseError;

    fn from_str(source: &str) -> (result: Result<Self, Self::Err>)
        ensures
            match result {
                Ok(data) => parse_spec(source@) is Ok && data.represents(parse_spec(source@)->Ok_0),
                Err(error) => parse_spec(source@) == Err::<LogicTree, ParseFailure>(error@),
            },
    {
        Self::build_bdd_from_source(source)
    }
}

/// A compiled policy and the tree it was compiled from have the same value
/// under every assignment.
pub proof fn lemma_diagram_computes_tree_value(
    data: BDDData,
    tree: LogicTree,
    values: Map<TerminalId, bool>,
)
    requires
        data.represents(tree),
    ensures
        data.function().contains(truths(values)) == tree.value(truths(values)),
{
}

/// Where the assignment has an entry for every terminal of the tree,
/// evaluating the compiled policy gives what evaluating the tree gives.
pub proof fn lemma_diagram_agrees_with_tree(
    data: BDDData,
    tree: LogicTree,
    values: Map<TerminalId, bool>,
)
    requires
        tree.well_formed(),
        data.represents(tree),
        tree.terminals().subset_of(values.dom()),
    ensures
        tree.outcome(values) == Ok::<bool, Seq<char>>(data.function().contains(truths(values))),
{
    lemma_outcome_is_value(tree, values);
}

/// Two policies whose trees have the same value under every assignment
/// compile to the same boolean function, however the trees are written.
pub proof fn lemma_equivalent_trees_compile_alike(
    one: BDDData,
    other: BDDData,
    one_tree: LogicTree,
    other_tree: LogicTree,
)
    requires
        one.represents(one_tree),
        other.represents(other_tree),
        forall|s: Set<TerminalId>| one_tree.value(s) == other_tree.value(s),
    ensures
        one.function() == other.function(),
        forall|values: Map<TerminalId, bool>|
            one.function().contains(truths(values)) == other.function().contains(truths(values)),
{
}

/// A compiled policy has exactly one variable for each terminal id of its
/// tree, however often the id occurs in the tree.
pub proof fn lemma_one_variable_per_terminal(
    data: BDDData,
    tree: LogicTree,
    labels: Seq<TerminalId>,
    id: TerminalId,
)
    requires
        data.represents(tree),
        labels.no_duplicates(),
        labels.to_set() == data.variables(),
        tree.terminals().contains(id),
    ensures
        exists|i: int| 0 <= i < labels.len() && labels[i] == id,
        forall|i: int, j: int|
            0 <= i < labels.len() && 0 <= j < labels.len() && labels[i] == id && labels[j] == id
                ==> i == j,
{
}

} // verus!
