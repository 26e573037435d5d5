//! The four arithmetic operations a challenge can ask for, and the keyword
//! that names each of them in the challenge text.
use vstd::prelude::*;

verus! {

#[derive(Clone, Copy, Debug, PartialEq, Eq, Structural)]
pub enum MathOperator {
    Add,
    Subtract,
    Multiply,
    Divide,
}

/// The keyword that signals the operation in a challenge.
pub open spec fn keyword_chars(op: MathOperator) -> Seq<char> {
    match op {
        MathOperator::Add => "combined"@,
        MathOperator::Subtract => "slows"@,
        MathOperator::Multiply => "times"@,
        MathOperator::Divide => "split"@,
    }
}

impl MathOperator {
    pub fn keyword(self) -> (k: &'static str)
        ensures
            k@ == keyword_chars(self),
    {
        match self {
            MathOperator::Add => "combined",
            MathOperator::Subtract => "slows",
            MathOperator::Multiply => "times",
            MathOperator::Divide => "split",
        }
    }
}

/// The keywords are made of lower-case ASCII letters only.
pub proof fn lemma_keyword_letters(op: MathOperator)
    ensures
        keyword_chars(op).len() > 0,
        forall|i: int|
            0 <= i < keyword_chars(op).len() ==> 'a' <= #[trigger] keyword_chars(op)[i] && keyword_chars(op)[i]
                <= 'z',
{
    reveal_strlit("combined");
    reveal_strlit("slows");
    reveal_strlit("times");
    reveal_strlit("split");
}

} // verus!
