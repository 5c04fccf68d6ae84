//! The logic gates of a policy expression.

use vstd::prelude::*;

verus! {

/// A boolean connective. `Not` takes one operand, every other gate two.
#[derive(Clone, Copy, Debug, PartialEq, Eq, Structural)]
pub enum Gate {
    And,
    Or,
    Not,
    Nand,
    Nor,
    Xor,
}

impl Gate {
    /// The upper-case keyword that is written for this gate in source text.
    pub open spec fn keyword(self) -> Seq<char> {
        match self {
            Gate::And => seq!['A', 'N', 'D'],
            Gate::Or => seq!['O', 'R'],
            Gate::Not => seq!['N', 'O', 'T'],
            Gate::Nand => seq!['N', 'A', 'N', 'D'],
            Gate::Nor => seq!['N', 'O', 'R'],
            Gate::Xor => seq!['X', 'O', 'R'],
        }
    }

    /// What `word` stands for, if it is exactly the keyword of a gate.
    pub open spec fn from_keyword(word: Seq<char>) -> Option<Gate> {
        if word == Gate::And.keyword() {
            Some(Gate::And)
        } else if word == Gate::Or.keyword() {
            Some(Gate::Or)
        } else if word == Gate::Not.keyword() {
            Some(Gate::Not)
        } else if word == Gate::Nand.keyword() {
            Some(Gate::Nand)
        } else if word == Gate::Nor.keyword() {
            Some(Gate::Nor)
        } else if word == Gate::Xor.keyword() {
            Some(Gate::Xor)
        } else {
            None
        }
    }

    /// Whether this gate takes two operands.
    pub open spec fn is_binary(self) -> bool {
        self != Gate::Not
    }

    /// The truth function of a binary gate; `Not` negates its right operand.
    pub open spec fn apply(self, left: bool, right: bool) -> bool {
        match self {
            Gate::And => left && right,
            Gate::Or => left || right,
            Gate::Not => !right,
            Gate::Nand => !(left && right),
            Gate::Nor => !(left || right),
            Gate::Xor => left != right,
        }
    }

    /// Reads a keyword, case-sensitively.
    pub fn from_chars(word: &Vec<char>) -> (gate: Option<Gate>)
        ensures
            gate == Gate::from_keyword(word@),
    {
        let n: usize = word.len();
        let gate = if n == 2 {
            if word[0] == 'O' && word[1] == 'R' {
                Some(Gate::Or)
            } else {
                None
            }
        } else if n == 3 {
            if word[0] == 'A' && word[1] == 'N' && word[2] == 'D' {
                Some(Gate::And)
            } else if word[0] == 'N' && word[1] == 'O' && word[2] == 'T' {
                Some(Gate::Not)
            } else if word[0] == 'N' && word[1] == 'O' && word[2] == 'R' {
                Some(Gate::Nor)
            } else if word[0] == 'X' && word[1] == 'O' && word[2] == 'R' {
                Some(Gate::Xor)
            } else {
                None
            }
        } else if n == 4 {
            if word[0] == 'N' && word[1] == 'A' && word[2] == 'N' && word[3] == 'D' {
                Some(Gate::Nand)
            } else {
                None
            }
        } else {
            None
        };
        proof {
            match gate {
                Some(g) => {
                    assert(word@ =~= g.keyword());
                },
                None => {
                    lemma_spelling();
                },
            }
        }
        gate
    }

    /// The keyword, as text.
    pub fn to_string(&self) -> (text: String)
        ensures
            text@ == self.keyword(),
    {
        let text = match self {
            Gate::And => "AND",
            Gate::Or => "OR",
            Gate::Not => "NOT",
            Gate::Nand => "NAND",
            Gate::Nor => "NOR",
            Gate::Xor => "XOR",
        };
        proof {
            reveal_strlit("AND");
            reveal_strlit("OR");
            reveal_strlit("NOT");
            reveal_strlit("NAND");
            reveal_strlit("NOR");
            reveal_strlit("XOR");
        }
        text.to_owned()
    }

    /// Computes the truth function.
    pub fn compute(self, left: bool, right: bool) -> (value: bool)
        ensures
            value == self.apply(left, right),
    {
        match self {
            Gate::And => left && right,
            Gate::Or => left || right,
            Gate::Not => !right,
            Gate::Nand => !(left && right),
            Gate::Nor => !(left || right),
            Gate::Xor => left != right,
        }
    }
}

/// The letters of the keywords, one by one.
pub proof fn lemma_spelling()
    ensures
        Gate::And.keyword().len() == 3,
        Gate::And.keyword()[0] == 'A' && Gate::And.keyword()[1] == 'N' && Gate::And.keyword()[2]
            == 'D',
        Gate::Or.keyword().len() == 2,
        Gate::Or.keyword()[0] == 'O' && Gate::Or.keyword()[1] == 'R',
        Gate::Not.keyword().len() == 3,
        Gate::Not.keyword()[0] == 'N' && Gate::Not.keyword()[1] == 'O' && Gate::Not.keyword()[2]
            == 'T',
        Gate::Nand.keyword().len() == 4,
        Gate::Nand.keyword()[0] == 'N' && Gate::Nand.keyword()[1] == 'A' && Gate::Nand.keyword()[2]
            == 'N' && Gate::Nand.keyword()[3] == 'D',
        Gate::Nor.keyword().len() == 3,
        Gate::Nor.keyword()[0] == 'N' && Gate::Nor.keyword()[1] == 'O' && Gate::Nor.keyword()[2]
            == 'R',
        Gate::Xor.keyword().len() == 3,
        Gate::Xor.keyword()[0] == 'X' && Gate::Xor.keyword()[1] == 'O' && Gate::Xor.keyword()[2]
            == 'R',
{
}

/// A keyword is made of capitals and stands for its own gate only.
pub proof fn lemma_keyword(gate: Gate)
    ensures
        Gate::from_keyword(gate.keyword()) == Some(gate),
        2 <= gate.keyword().len() <= 4,
        forall|i: int|
            0 <= i < gate.keyword().len() ==> 'A' <= #[trigger] gate.keyword()[i] && gate.keyword()[i]
                <= 'Z',
{
    lemma_spelling();
}

/// `NAND` is the negation of `AND`, and `NOR` the negation of `OR`.
pub proof fn lemma_nand_nor(x: bool, y: bool)
    ensures
        Gate::Nand.apply(x, y) == !Gate::And.apply(x, y),
        Gate::Nor.apply(x, y) == !Gate::Or.apply(x, y),
{
}

} // verus!
