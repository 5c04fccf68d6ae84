//! The decision diagram of `boolean_expression`, as far as a policy uses it.
//!
//! A diagram is a table of boolean functions over terminals. Nothing of it
//! is verified here: this module states what its operations do, and the rest
//! of the crate is proved from that.

use crate::truths;
use boolean_expression::BDD;
use std::collections::HashMap;
use std::fmt::Debug;
use std::hash::Hash;
use vstd::prelude::*;

verus! {

/// `BDD`, the decision diagram over terminals of type `T`. What it holds is
/// seen through [`diagram_functions`] and [`diagram_labels`] only.
#[verifier::external_type_specification]
#[verifier::external_body]
#[verifier::reject_recursive_types(T)]
pub struct ExBDD<T: Clone + Debug + Eq + Hash>(BDD<T>);

/// The boolean functions that a diagram holds: each valid function handle,
/// with the function it stands for. A function is given by the assignments
/// under which it is true, an assignment by the set of terminals that hold.
pub uninterp spec fn diagram_functions(diagram: BDD<u16>) -> Map<usize, Set<Set<u16>>>;

/// The terminals that were registered in a diagram.
pub uninterp spec fn diagram_labels(diagram: BDD<u16>) -> Set<u16>;

/// The handle of the constant function `false`.
pub open spec fn constant_false() -> usize {
    usize::MAX
}

/// The handle of the constant function `true`.
pub open spec fn constant_true() -> usize {
    (usize::MAX - 1) as usize
}

/// `BDD::new`: a diagram without terminals, whose only functions are the two
/// constants.
#[verifier::external_body]
pub(crate) fn diagram_new() -> (diagram: BDD<u16>)
    ensures
        diagram_labels(diagram) == Set::<u16>::empty(),
        diagram_functions(diagram) == map![
            constant_false() => Set::<Set<u16>>::empty(),
            constant_true() => Set::<Set<u16>>::full(),
        ],
{
    BDD::new()
}

/// `BDD::terminal`: registers the terminal and returns the function that is
/// true exactly where the terminal holds. The handles that existed keep their
/// meaning.
#[verifier::external_body]
pub(crate) fn diagram_terminal(diagram: &mut BDD<u16>, id: u16) -> (f: usize)
    ensures
        diagram_functions(*old(diagram)).submap_of(diagram_functions(*final(diagram))),
        diagram_functions(*final(diagram)).contains_key(f),
        diagram_functions(*final(diagram))[f] == Set::new(|s: Set<u16>| s.contains(id)),
        diagram_labels(*final(diagram)) == diagram_labels(*old(diagram)).insert(id),
{
    diagram.terminal(id)
}

/// `BDD::not`: the complement of a function of the diagram. The handles that
/// existed keep their meaning, and no terminal is registered.
#[verifier::external_body]
pub(crate) fn diagram_not(diagram: &mut BDD<u16>, n: usize) -> (f: usize)
    requires
        diagram_functions(*old(diagram)).contains_key(n),
    ensures
        diagram_functions(*old(diagram)).submap_of(diagram_functions(*final(diagram))),
        diagram_functions(*final(diagram)).contains_key(f),
        diagram_functions(*final(diagram))[f] == diagram_functions(*old(diagram))[n].complement(),
        diagram_labels(*final(diagram)) == diagram_labels(*old(diagram)),
{
    diagram.not(n)
}

/// `BDD::and`: the conjunction of two functions of the diagram. The handles
/// that existed keep their meaning, and no terminal is registered.
#[verifier::external_body]
pub(crate) fn diagram_and(diagram: &mut BDD<u16>, a: usize, b: usize) -> (f: usize)
    requires
        diagram_functions(*old(diagram)).contains_key(a),
        diagram_functions(*old(diagram)).contains_key(b),
    ensures
        diagram_functions(*old(diagram)).submap_of(diagram_functions(*final(diagram))),
        diagram_functions(*final(diagram)).contains_key(f),
        diagram_functions(*final(diagram))[f] == diagram_functions(*old(diagram))[a].intersect(
            diagram_functions(*old(diagram))[b],
        ),
        diagram_labels(*final(diagram)) == diagram_labels(*old(diagram)),
{
    diagram.and(a, b)
}

/// `BDD::or`: the disjunction of two functions of the diagram. The handles
/// that existed keep their meaning, and no terminal is registered.
#[verifier::external_body]
pub(crate) fn diagram_or(diagram: &mut BDD<u16>, a: usize, b: usize) -> (f: usize)
    requires
        diagram_functions(*old(diagram)).contains_key(a),
        diagram_functions(*old(diagram)).contains_key(b),
    ensures
        diagram_functions(*old(diagram)).submap_of(diagram_functions(*final(diagram))),
        diagram_functions(*final(diagram)).contains_key(f),
        diagram_functions(*final(diagram))[f] == diagram_functions(*old(diagram))[a].union(
            diagram_functions(*old(diagram))[b],
        ),
        diagram_labels(*final(diagram)) == diagram_labels(*old(diagram)),
{
    diagram.or(a, b)
}

/// `BDD::xor`: the function that is true where exactly one of two functions
/// of the diagram is. The handles that existed keep their meaning, and no
/// terminal is registered.
#[verifier::external_body]
pub(crate) fn diagram_xor(diagram: &mut BDD<u16>, a: usize, b: usize) -> (f: usize)
    requires
        diagram_functions(*old(diagram)).contains_key(a),
        diagram_functions(*old(diagram)).contains_key(b),
    ensures
        diagram_functions(*old(diagram)).submap_of(diagram_functions(*final(diagram))),
        diagram_functions(*final(diagram)).contains_key(f),
        diagram_functions(*final(diagram))[f] == Set::new(
            |s: Set<u16>|
                diagram_functions(*old(diagram))[a].contains(s) != diagram_functions(
                    *old(diagram),
                )[b].contains(s),
        ),
        diagram_labels(*final(diagram)) == diagram_labels(*old(diagram)),
{
    diagram.xor(a, b)
}

/// `BDD::evaluate`: the value of a function of the diagram under `values`,
/// where a terminal without an entry counts as false.
#[verifier::external_body]
pub(crate) fn diagram_evaluate(diagram: &BDD<u16>, f: usize, values: &HashMap<u16, bool>) -> (value:
    bool)
    requires
        diagram_functions(*diagram).contains_key(f),
    ensures
        value == diagram_functions(*diagram)[f].contains(truths(values@)),
{
    diagram.evaluate(f, values)
}

/// `BDD::labels`: the registered terminals, each once, in no particular
/// order.
#[verifier::external_body]
pub(crate) fn diagram_label_list(diagram: &BDD<u16>) -> (labels: Vec<u16>)
    ensures
        labels@.no_duplicates(),
        labels@.to_set() == diagram_labels(*diagram),
{
    diagram.labels()
}

} // verus!
