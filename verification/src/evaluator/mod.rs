//! Compiled policies and their evaluation.

use crate::requirement::{Requirement, RequirementResult};
use crate::truths;
use crate::TerminalId;
use std::collections::HashMap;
use vstd::prelude::*;
use vstd::set_lib::lemma_subset_equality;

pub mod bdd;
pub mod diagram;

pub use bdd::BDDData;

verus! {

/// Why a policy and a set of requirements do not make an evaluator.
#[derive(Clone, Copy, Debug, PartialEq, Eq, Structural)]
pub enum ConstructionError {
    /// The terminals that have a requirement are not exactly the diagram's
    /// variables.
    TerminalMismatch,
}

/// Why an evaluation gave no decision.
#[derive(Debug)]
pub enum EvalError {
    /// The check of the terminal failed, for the given reason.
    RequirementFailed(TerminalId, String),
}

/// The value of an [`EvalError`].
pub enum EvalFailure {
    RequirementFailed(TerminalId, Seq<char>),
}

impl View for EvalError {
    type V = EvalFailure;

    open spec fn view(&self) -> EvalFailure {
        match self {
            EvalError::RequirementFailed(id, cause) => EvalFailure::RequirementFailed(*id, cause@),
        }
    }
}

/// The value of a sequence of check outcomes.
pub open spec fn outcomes_view(outcomes: Seq<RequirementResult>) -> Seq<Result<bool, Seq<char>>> {
    outcomes.map_values(
        |outcome: RequirementResult|
            match outcome {
                Ok(met) => Ok(met),
                Err(cause) => Err(cause@),
            },
    )
}

/// The reason given for a terminal that has no outcome.
pub open spec fn unresolved() -> Seq<char> {
    "requirement was not resolved"@
}

/// The outcome for the terminal at `index`: the one at that place, or a
/// failure where the outcomes end before it.
pub open spec fn outcome_at(outcomes: Seq<Result<bool, Seq<char>>>, index: int) -> Result<
    bool,
    Seq<char>,
> {
    if 0 <= index < outcomes.len() {
        outcomes[index]
    } else {
        Err(unresolved())
    }
}

/// The first of the terminals `from..count` whose outcome is a failure.
pub open spec fn first_failure(
    count: int,
    outcomes: Seq<Result<bool, Seq<char>>>,
    from: int,
) -> Option<int>
    decreases count - from,
{
    if from >= count {
        None
    } else if outcome_at(outcomes, from) is Err {
        Some(from)
    } else {
        first_failure(count, outcomes, from + 1)
    }
}

/// The terminals whose check said that the requirement is met.
pub open spec fn resolved_truths(
    terminals: Seq<TerminalId>,
    outcomes: Seq<Result<bool, Seq<char>>>,
) -> Set<TerminalId> {
    Set::new(
        |id: TerminalId|
            exists|i: int|
                0 <= i < terminals.len() && terminals[i] == id && #[trigger] outcome_at(outcomes, i)
                    == Ok::<bool, Seq<char>>(true),
    )
}

/// The decision on a batch of outcomes, one for each terminal in order: the
/// first failure if there is one, else the value of `function` where exactly
/// the terminals hold whose requirement is met.
pub open spec fn decision(
    terminals: Seq<TerminalId>,
    function: Set<Set<TerminalId>>,
    outcomes: Seq<Result<bool, Seq<char>>>,
) -> Result<bool, EvalFailure> {
    match first_failure(terminals.len() as int, outcomes, 0) {
        Some(i) => Err(EvalFailure::RequirementFailed(terminals[i], outcome_at(outcomes, i)->Err_0)),
        None => Ok(function.contains(resolved_truths(terminals, outcomes))),
    }
}

/// The value of what an evaluation returns.
pub open spec fn eval_view(result: Result<bool, EvalError>) -> Result<bool, EvalFailure> {
    match result {
        Ok(value) => Ok(value),
        Err(error) => Err(error@),
    }
}

/// A compiled policy together with the requirement that resolves each of
/// its terminals.
pub struct Evaluator<R> {
    data: BDDData,
    terminals: Vec<TerminalId>,
    requirements: HashMap<TerminalId, R>,
}

impl<R> Evaluator<R> {
    #[verifier::type_invariant]
    spec fn bound(&self) -> bool {
        &&& self.terminals@.no_duplicates()
        &&& self.terminals@.to_set() == self.data.variables()
        &&& self.requirements@.dom() == self.data.variables()
    }

    /// The compiled policy.
    pub closed spec fn data(&self) -> BDDData {
        self.data
    }

    /// The terminals of the policy, each once, in the order in which their
    /// outcomes are expected.
    pub closed spec fn terminal_order(&self) -> Seq<TerminalId> {
        self.terminals@
    }

    /// The requirement of each terminal.
    pub closed spec fn requirements(&self) -> Map<TerminalId, R> {
        self.requirements@
    }

    /// Binds a compiled policy to its requirements. The terminals that have
    /// a requirement must be exactly the variables of the diagram.
    pub fn new(bdd_data: BDDData, requirements: HashMap<TerminalId, R>) -> (result: Result<
        Self,
        ConstructionError,
    >)
        ensures
            match result {
                Ok(evaluator) => {
                    &&& requirements@.dom() == bdd_data.variables()
                    &&& evaluator.data() == bdd_data
                    &&& evaluator.requirements() == requirements@
                    &&& evaluator.terminal_order().no_duplicates()
                    &&& evaluator.terminal_order().to_set() == bdd_data.variables()
                },
                Err(error) => {
                    &&& error == ConstructionError::TerminalMismatch
                    &&& requirements@.dom() != bdd_data.variables()
                },
            },
    {
        broadcast use vstd::std_specs::hash::group_hash_axioms;

        let terminals = bdd_data.labels();
        proof {
            terminals@.unique_seq_to_set();
        }
        if requirements.len() != terminals.len() {
            return Err(ConstructionError::TerminalMismatch);
        }
        let mut i: usize = 0;
        while i < terminals.len()
            invariant
                0 <= i <= terminals.len(),
                terminals@.to_set() == bdd_data.variables(),
                forall|j: int| 0 <= j < i ==> requirements@.contains_key(#[trigger] terminals@[j]),
            decreases terminals.len() - i,
        {
            if !requirements.contains_key(&terminals[i]) {
                return Err(ConstructionError::TerminalMismatch);
            }
            i += 1;
        }
        proof {
            lemma_subset_equality(terminals@.to_set(), requirements@.dom());
        }
        Ok(Evaluator { data: bdd_data, terminals, requirements })
    }

    /// The terminals of the policy, each once, in the order in which
    /// [`Evaluator::decide`] expects their outcomes.
    pub fn terminals(&self) -> (terminals: &Vec<TerminalId>)
        ensures
            terminals@ == self.terminal_order(),
            terminals@.no_duplicates(),
            terminals@.to_set() == self.data().variables(),
    {
        proof {
            use_type_invariant(self);
        }
        &self.terminals
    }

    /// The requirement that resolves `id`, if `id` is a terminal of the
    /// policy.
    pub fn requirement(&self, id: TerminalId) -> (requirement: Option<&R>)
        ensures
            match requirement {
                Some(r) => self.requirements().contains_key(id) && *r == self.requirements()[id],
                None => !self.requirements().contains_key(id),
            },
            requirement is Some <==> self.data().variables().contains(id),
    {
        broadcast use vstd::std_specs::hash::group_hash_axioms;

        proof {
            use_type_invariant(self);
        }
        self.requirements.get(&id)
    }

    /// Decides on the outcomes of the checks, `outcomes[i]` being that of
    /// the terminal `self.terminals()[i]`. The first failure is returned; a
    /// terminal without an outcome counts as failed. Where every check has
    /// an outcome, the result is the policy's value under it.
    pub fn decide(&self, outcomes: &Vec<RequirementResult>) -> (result: Result<bool, EvalError>)
        ensures
            eval_view(result) == decision(
                self.terminal_order(),
                self.data().function(),
                outcomes_view(outcomes@),
            ),
    {
        broadcast use vstd::std_specs::hash::group_hash_axioms;

        proof {
            use_type_invariant(self);
        }
        let ghost given = outcomes_view(outcomes@);
        let ghost count = self.terminals.len() as int;
        let mut values: HashMap<TerminalId, bool> = HashMap::new();
        let mut i: usize = 0;
        while i < self.terminals.len()
            invariant
                0 <= i <= self.terminals.len(),
                count == self.terminals.len(),
                given == outcomes_view(outcomes@),
                self.terminals@.no_duplicates(),
                first_failure(count, given, 0) == first_failure(count, given, i as int),
                forall|j: int| 0 <= j < i ==> #[trigger] outcome_at(given, j) is Ok,
                forall|id: TerminalId|
                    values@.contains_key(id) <==> exists|j: int|
                        0 <= j < i && #[trigger] self.terminals@[j] == id,
                forall|j: int|
                    0 <= j < i ==> values@[#[trigger] self.terminals@[j]] == outcome_at(
                        given,
                        j,
                    )->Ok_0,
            decreases self.terminals.len() - i,
        {
            let id = self.terminals[i];
            if i >= outcomes.len() {
                return Err(
                    EvalError::RequirementFailed(id, "requirement was not resolved".to_owned()),
                );
            }
            match &outcomes[i] {
                Err(cause) => {
                    return Err(EvalError::RequirementFailed(id, cause.clone()));
                },
                Ok(met) => {
                    values.insert(id, *met);
                },
            }
            i += 1;
        }
        proof {
            let terminals = self.terminals@;
            assert forall|id: TerminalId|
                truths(values@).contains(id) == resolved_truths(terminals, given).contains(
                    id,
                ) by {
                if truths(values@).contains(id) {
                    let j = choose|j: int| 0 <= j < count && #[trigger] terminals[j] == id;
                    assert(outcome_at(given, j) == Ok::<bool, Seq<char>>(true));
                }
                if resolved_truths(terminals, given).contains(id) {
                    let j = choose|j: int|
                        0 <= j < terminals.len() && terminals[j] == id && #[trigger] outcome_at(
                            given,
                            j,
                        ) == Ok::<bool, Seq<char>>(true);
                    assert(values@[terminals[j]]);
                }
            }
            assert(truths(values@) =~= resolved_truths(terminals, given));
        }
        Ok(self.data.evaluate(&values))
    }
}

impl<R: Requirement> Evaluator<R> {
    /// Checks the requirement of every terminal once, in the order of
    /// [`Evaluator::terminals`], each with `querier`, and decides on the
    /// outcomes. Whatever the checks return, the result is the decision on
    /// one outcome for each terminal: that of its own requirement.
    pub fn evaluate(&self, querier: &R::Querier) -> (result: Result<bool, EvalError>)
        ensures
            exists|outcomes: Seq<RequirementResult>|
                {
                    &&& outcomes.len() == self.terminal_order().len()
                    &&& forall|i: int|
                        0 <= i < outcomes.len() ==> call_ensures(
                            R::check,
                            (&self.requirements()[self.terminal_order()[i]], querier),
                            #[trigger] outcomes[i],
                        )
                    &&& eval_view(result) == decision(
                        self.terminal_order(),
                        self.data().function(),
                        outcomes_view(outcomes),
                    )
                },
    {
        broadcast use vstd::std_specs::hash::group_hash_axioms;

        proof {
            use_type_invariant(self);
        }
        let mut outcomes: Vec<RequirementResult> = Vec::new();
        let mut i: usize = 0;
        while i < self.terminals.len()
            invariant
                0 <= i <= self.terminals.len(),
                outcomes.len() == i,
                self.terminals@.to_set() == self.requirements@.dom(),
                forall|j: int|
                    0 <= j < i ==> call_ensures(
                        R::check,
                        (&self.requirements@[self.terminals@[j]], querier),
                        #[trigger] outcomes@[j],
                    ),
            decreases self.terminals.len() - i,
        {
            let id = self.terminals[i];
            let requirement = self.requirements.get(&id).unwrap();
            let outcome = requirement.check(querier);
            outcomes.push(outcome);
            i += 1;
        }
        let result = self.decide(&outcomes);
        proof {
            let witness = outcomes@;
            assert(eval_view(result) == decision(
                self.terminal_order(),
                self.data().function(),
                outcomes_view(witness),
            ));
        }
        result
    }
}

/// The first failure, if there is one, is a failure, and no terminal before
/// it has one; if there is none, no terminal has a failure.
pub proof fn lemma_first_failure(count: int, outcomes: Seq<Result<bool, Seq<char>>>, from: int)
    requires
        0 <= from,
    ensures
        match first_failure(count, outcomes, from) {
            Some(first) => {
                &&& from <= first < count
                &&& outcome_at(outcomes, first) is Err
                &&& forall|i: int| from <= i < first ==> #[trigger] outcome_at(outcomes, i) is Ok
            },
            None => forall|i: int| from <= i < count ==> #[trigger] outcome_at(outcomes, i) is Ok,
        },
    decreases count - from,
{
    if from < count && outcome_at(outcomes, from) is Ok {
        lemma_first_failure(count, outcomes, from + 1);
    }
}

/// A failed check fails the decision. Where the check of any terminal
/// failed, or is missing, the decision is the failure of such a terminal and
/// no truth value; where every check has an outcome, the decision is a truth
/// value.
pub proof fn lemma_failure_propagates(
    terminals: Seq<TerminalId>,
    function: Set<Set<TerminalId>>,
    outcomes: Seq<Result<bool, Seq<char>>>,
)
    ensures
        decision(terminals, function, outcomes) is Err <==> exists|i: int|
            0 <= i < terminals.len() && #[trigger] outcome_at(outcomes, i) is Err,
        decision(terminals, function, outcomes) matches Err(
            EvalFailure::RequirementFailed(id, cause),
        ) ==> exists|i: int|
            0 <= i < terminals.len() && terminals[i] == id && #[trigger] outcome_at(outcomes, i)
                == Err::<bool, Seq<char>>(cause),
{
    lemma_first_failure(terminals.len() as int, outcomes, 0);
}

/// Every terminal is resolved once. Where no terminal occurs twice in the
/// order and every check has an outcome, a terminal holds in the decision
/// exactly if its one check said so.
pub proof fn lemma_resolved_once(
    terminals: Seq<TerminalId>,
    outcomes: Seq<Result<bool, Seq<char>>>,
    place: int,
)
    requires
        terminals.no_duplicates(),
        0 <= place < terminals.len(),
    ensures
        resolved_truths(terminals, outcomes).contains(terminals[place]) <==> outcome_at(
            outcomes,
            place,
        ) == Ok::<bool, Seq<char>>(true),
{
}

} // verus!
