use vstd::prelude::*;
use crate::error::UtilsError;

verus! {

/// The information criteria by which a fit can be scored.
#[derive(Clone, Copy, Debug, PartialEq, Eq, Structural)]
pub enum Criterion {
    /// Penalises each degree of freedom by `2 / n`.
    Aic,
    /// Penalises each degree of freedom by `ln(n) / n`.
    Bic,
}

/// The criterion that a tag names, if any.
pub open spec fn criterion_of(tag: Seq<char>) -> Option<Criterion> {
    if tag == seq!['A', 'I', 'C'] {
        Some(Criterion::Aic)
    } else if tag == seq!['B', 'I', 'C'] {
        Some(Criterion::Bic)
    } else {
        None
    }
}

/// Reads a criterion tag: "AIC" or "BIC", in capitals. Any other tag is
/// rejected with `InvalidCriterion`.
pub fn parse_criterion(tag: &str) -> (r: Result<Criterion, UtilsError>)
    ensures
        r == (match criterion_of(tag@) {
            Some(c) => Ok::<Criterion, UtilsError>(c),
            None => Err::<Criterion, UtilsError>(UtilsError::InvalidCriterion),
        }),
{
    if tag.unicode_len() != 3 {
        return Err(UtilsError::InvalidCriterion);
    }
    let first: char = tag.get_char(0);
    let second: char = tag.get_char(1);
    let third: char = tag.get_char(2);
    if second == 'I' && third == 'C' {
        if first == 'A' {
            proof {
                assert(tag@ =~= seq!['A', 'I', 'C']);
            }
            return Ok(Criterion::Aic);
        }
        if first == 'B' {
            proof {
                assert(tag@ =~= seq!['B', 'I', 'C']);
            }
            return Ok(Criterion::Bic);
        }
    }
    Err(UtilsError::InvalidCriterion)
}

impl Criterion {
    /// The tag that names this criterion.
    pub fn tag(&self) -> (text: &'static str)
        ensures
            criterion_of(text@) == Some(*self),
    {
        match self {
            Criterion::Aic => {
                proof {
                    reveal_strlit("AIC");
                    assert("AIC"@ =~= seq!['A', 'I', 'C']);
                }
                "AIC"
            },
            Criterion::Bic => {
                proof {
                    reveal_strlit("BIC");
                    assert("BIC"@ =~= seq!['B', 'I', 'C']);
                }
                "BIC"
            },
        }
    }
}

} // verus!
