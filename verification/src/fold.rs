//! Operation selection and fold planning.
//!
//! The reducer folds the collected values left to right with one of four
//! operations. The library decides the seed and the operand order; applying
//! the machine arithmetic itself is the caller's part.

use crate::numeric::numeric_literal;
use vstd::prelude::*;

verus! {

/// The four operations the reducer can fold with.
#[derive(Clone, Copy, Debug, PartialEq, Eq, Structural)]
pub enum Op {
    /// Add all inputs.
    Add,
    /// Subtract all inputs.
    Sub,
    /// Multiply all inputs.
    Mul,
    /// Divide all inputs.
    Div,
}

impl Op {
    /// The identity element of the operation, as literal text: `"0"` for the
    /// additive operations, `"1"` for the multiplicative ones.
    pub fn identity_literal(self) -> (r: String)
        ensures
            self is Add || self is Sub ==> r@ == "0"@,
            self is Mul || self is Div ==> r@ == "1"@,
            numeric_literal(r@),
    {
        match self {
            Op::Add | Op::Sub => {
                let r = String::from_str("0");
                proof {
                    reveal_strlit("0");
                    assert(r@.len() == 1);
                    assert(r@.drop_last() =~= Seq::<char>::empty());
                    assert(crate::numeric::scan_run(r@.drop_last())
                        == crate::numeric::ScanState::Start);
                    assert(r@.last() == '0');
                    assert(crate::numeric::is_digit('0'));
                    assert(crate::numeric::scan_run(r@) == crate::numeric::ScanState::Whole);
                }
                r
            },
            Op::Mul | Op::Div => {
                let r = String::from_str("1");
                proof {
                    reveal_strlit("1");
                    assert(r@.len() == 1);
                    assert(r@.drop_last() =~= Seq::<char>::empty());
                    assert(crate::numeric::scan_run(r@.drop_last())
                        == crate::numeric::ScanState::Start);
                    assert(r@.last() == '1');
                    assert(crate::numeric::is_digit('1'));
                    assert(crate::numeric::scan_run(r@) == crate::numeric::ScanState::Whole);
                }
                r
            },
        }
    }
}

/// Decide the seed and the remaining operands of the left fold over `values`,
/// in order. Under the seeded mode the identity seeds and every value is an
/// operand, so no value at all folds to the identity itself; otherwise the
/// first value seeds, and with no value at all there is no answer.
pub fn fold_plan(seeded: bool, identity: String, values: Vec<String>) -> (r: Option<
    (String, Vec<String>),
>)
    ensures
        seeded ==> (r matches Some(pl) && pl.0 == identity && pl.1 == values),
        !seeded && values@.len() == 0 ==> r is None,
        !seeded && values@.len() > 0 ==> (r matches Some(pl) && pl.0 == values@[0] && pl.1@
            == values@.subrange(1, values@.len() as int)),
{
    if seeded {
        Some((identity, values))
    } else if values.len() == 0 {
        None
    } else {
        let mut rest = values;
        let seed = rest.remove(0);
        proof {
            assert(rest@ =~= values@.subrange(1, values@.len() as int));
        }
        Some((seed, rest))
    }
}

} // verus!
