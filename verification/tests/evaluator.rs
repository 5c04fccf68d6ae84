use boolean_policy::evaluator::{BDDData, ConstructionError, EvalError, Evaluator};
use boolean_policy::requirement::{Requirement, RequirementResult};
use std::cell::Cell;
use std::collections::HashMap;
use std::str::FromStr;

#[derive(Clone, Debug)]
struct Free;

impl Requirement for Free {
    type Querier = u8;

    fn check(&self, _querier: &Self::Querier) -> RequirementResult {
        Ok(true)
    }
}

#[derive(Clone, Debug)]
struct Fixed(bool);

impl Requirement for Fixed {
    type Querier = u8;

    fn check(&self, _querier: &Self::Querier) -> RequirementResult {
        Ok(self.0)
    }
}

struct Counted<'a> {
    calls: &'a Cell<usize>,
    outcome: RequirementResult,
}

impl<'a> Requirement for Counted<'a> {
    type Querier = u8;

    fn check(&self, _querier: &Self::Querier) -> RequirementResult {
        self.calls.set(self.calls.get() + 1);
        self.outcome.clone()
    }
}

fn keyed<R>(requirements: Vec<R>) -> HashMap<u16, R> {
    let mut map = HashMap::new();
    for (id, requirement) in requirements.into_iter().enumerate() {
        map.insert(id as u16, requirement);
    }
    map
}

#[test]
fn free_requirement() {
    let requirements = vec![&Free as &dyn Requirement<Querier = u8>];
    let client = 0u8; // querier can be any type

    let evaluator = Evaluator::new(BDDData::from_str("0").unwrap(), keyed(requirements)).unwrap();
    assert!(evaluator.evaluate(&client).unwrap());
}

#[test]
fn reused_terminals() {
    let requirements = vec![&Free as &dyn Requirement<Querier = u8>; 3];
    let client = 0u8; // querier can be any type

    let evaluator = Evaluator::new(
        BDDData::from_str("(0 AND 1) OR (0 AND 2)").unwrap(),
        keyed(requirements.clone()),
    )
    .unwrap();

    assert!(evaluator.evaluate(&client).unwrap());

    let evaluator = Evaluator::new(
        BDDData::from_str("(0 NAND 1) OR (0 AND 2)").unwrap(),
        keyed(requirements.clone()),
    )
    .unwrap();
    assert!(evaluator.evaluate(&client).unwrap());

    let evaluator = Evaluator::new(
        BDDData::from_str("(0 NAND 1) OR (0 NAND 2)").unwrap(),
        keyed(requirements),
    )
    .unwrap();
    assert!(!evaluator.evaluate(&client).unwrap());
}

#[test]
fn different_types_same_trait() {
    struct U32(u32);
    struct U128(u128);

    impl Requirement for U32 {
        type Querier = String;

        fn check(&self, _querier: &Self::Querier) -> RequirementResult {
            if self.0 < 100 {
                Ok(true)
            } else {
                Ok(false)
            }
        }
    }

    impl Requirement for U128 {
        type Querier = String;

        fn check(&self, _querier: &Self::Querier) -> RequirementResult {
            if self.0 > 100 {
                Ok(true)
            } else {
                Ok(false)
            }
        }
    }

    let requirements = vec![
        &U128(123) as &dyn Requirement<Querier = String>,
        &U32(400) as &dyn Requirement<Querier = String>,
        &U32(1) as &dyn Requirement<Querier = String>,
        &U128(2) as &dyn Requirement<Querier = String>,
    ];

    let evaluator = Evaluator::new(
        BDDData::from_str("0 OR (1 AND 2) OR 3").unwrap(),
        keyed(requirements),
    )
    .unwrap();
    let client = String::new();
    // true || (false && true) || false
    assert!(evaluator.evaluate(&client).unwrap());
}

#[test]
fn shared_terminal_with_fixed_outcomes() {
    let data = || BDDData::from_str("(0 AND 1) OR (0 AND 2)").unwrap();
    let evaluator =
        Evaluator::new(data(), keyed(vec![Fixed(true), Fixed(false), Fixed(true)])).unwrap();
    assert!(evaluator.evaluate(&0).unwrap());

    for zero in [false, true] {
        for one in [false, true] {
            for two in [false, true] {
                let evaluator = Evaluator::new(
                    BDDData::from_str("(0 NAND 1) OR (0 NAND 2)").unwrap(),
                    keyed(vec![Fixed(zero), Fixed(one), Fixed(two)]),
                )
                .unwrap();
                assert_eq!(
                    evaluator.evaluate(&0).unwrap(),
                    !(zero && one) || !(zero && two)
                );
            }
        }
    }
}

#[test]
fn every_requirement_is_checked_once() {
    let counters = [Cell::new(0), Cell::new(0)];
    let requirements = vec![
        Counted { calls: &counters[0], outcome: Ok(true) },
        Counted { calls: &counters[1], outcome: Ok(false) },
    ];
    let evaluator = Evaluator::new(
        BDDData::from_str("(0 AND 1) OR (0 XOR 1) OR NOT 0").unwrap(),
        keyed(requirements),
    )
    .unwrap();
    assert!(evaluator.evaluate(&0).unwrap());
    assert_eq!(counters[0].get(), 1);
    assert_eq!(counters[1].get(), 1);
    assert!(evaluator.evaluate(&0).unwrap());
    assert_eq!(counters[0].get(), 2);
    assert_eq!(counters[1].get(), 2);
}

#[test]
fn a_failed_check_fails_the_evaluation() {
    let counters = [Cell::new(0), Cell::new(0), Cell::new(0)];
    let requirements = vec![
        Counted { calls: &counters[0], outcome: Ok(true) },
        Counted { calls: &counters[1], outcome: Err("no answer".to_string()) },
        Counted { calls: &counters[2], outcome: Ok(true) },
    ];
    let evaluator = Evaluator::new(
        BDDData::from_str("0 OR (1 AND 2)").unwrap(),
        keyed(requirements),
    )
    .unwrap();
    match evaluator.evaluate(&0) {
        Err(EvalError::RequirementFailed(1, cause)) => assert_eq!(cause, "no answer"),
        other => panic!("unexpected {:?}", other),
    }
}

#[test]
fn requirements_must_cover_the_variables_exactly() {
    let data = || BDDData::from_str("0 AND 5").unwrap();
    assert_eq!(
        Evaluator::new(data(), keyed(vec![Free])).err(),
        Some(ConstructionError::TerminalMismatch)
    );
    assert_eq!(
        Evaluator::new(data(), keyed(vec![Free, Free])).err(),
        Some(ConstructionError::TerminalMismatch)
    );
    let mut requirements = HashMap::new();
    requirements.insert(0, Free);
    requirements.insert(5, Free);
    requirements.insert(6, Free);
    assert_eq!(
        Evaluator::new(data(), requirements).err(),
        Some(ConstructionError::TerminalMismatch)
    );
    let mut requirements = HashMap::new();
    requirements.insert(5, Free);
    requirements.insert(0, Free);
    let evaluator = Evaluator::new(data(), requirements).unwrap();
    let mut terminals = evaluator.terminals().clone();
    terminals.sort();
    assert_eq!(terminals, vec![0, 5]);
    assert!(evaluator.requirement(5).is_some());
    assert!(evaluator.requirement(1).is_none());
}

#[test]
fn decide_takes_the_outcomes_in_the_order_of_the_terminals() {
    let mut requirements = HashMap::new();
    requirements.insert(3, Free);
    requirements.insert(8, Free);
    let evaluator =
        Evaluator::new(BDDData::from_str("3 AND NOT 8").unwrap(), requirements).unwrap();
    let terminals = evaluator.terminals().clone();
    let outcomes = |three: RequirementResult, eight: RequirementResult| {
        if terminals[0] == 3 {
            vec![three, eight]
        } else {
            vec![eight, three]
        }
    };
    assert_eq!(evaluator.decide(&outcomes(Ok(true), Ok(false))).unwrap(), true);
    assert_eq!(evaluator.decide(&outcomes(Ok(true), Ok(true))).unwrap(), false);
    assert_eq!(evaluator.decide(&outcomes(Ok(false), Ok(false))).unwrap(), false);
    match evaluator.decide(&outcomes(Err("down".to_string()), Ok(false))) {
        Err(EvalError::RequirementFailed(3, cause)) => assert_eq!(cause, "down"),
        other => panic!("unexpected {:?}", other),
    }
    match evaluator.decide(&vec![Ok(true)]) {
        Err(EvalError::RequirementFailed(id, cause)) => {
            assert_eq!(id, terminals[1]);
            assert_eq!(cause, "requirement was not resolved");
        }
        other => panic!("unexpected {:?}", other),
    }
    match evaluator.decide(&vec![]) {
        Err(EvalError::RequirementFailed(id, _)) => assert_eq!(id, terminals[0]),
        other => panic!("unexpected {:?}", other),
    }
}
