use vstd::prelude::*;

use crate::expression_tree::Priority;

verus! {

/// The recognized operator tokens. `Pow` is the two-byte sequence `**`;
/// every other operator is a single byte.
#[derive(Debug, Clone, Copy)]
pub enum BinaryOperator {
    Add,
    Sub,
    Div,
    Mul,
    Pow,
    Mod,
    Xor,
    Or,
    And,
}

/// The operator token starting at index `i` of `s`, if any, together with
/// the index just past it. A `*` followed by another `*` is the power
/// operator; a lone `*` is multiplication.
pub open spec fn spec_operator_at(s: Seq<u8>, i: int) -> Option<(BinaryOperator, int)> {
    if 0 <= i < s.len() {
        if s[i] == 43 {
            Some((BinaryOperator::Add, i + 1))
        } else if s[i] == 45 {
            Some((BinaryOperator::Sub, i + 1))
        } else if s[i] == 42 {
            if i + 1 < s.len() && s[i + 1] == 42 {
                Some((BinaryOperator::Pow, i + 2))
            } else {
                Some((BinaryOperator::Mul, i + 1))
            }
        } else if s[i] == 47 {
            Some((BinaryOperator::Div, i + 1))
        } else if s[i] == 37 {
            Some((BinaryOperator::Mod, i + 1))
        } else if s[i] == 94 {
            Some((BinaryOperator::Xor, i + 1))
        } else if s[i] == 124 {
            Some((BinaryOperator::Or, i + 1))
        } else if s[i] == 38 {
            Some((BinaryOperator::And, i + 1))
        } else {
            None
        }
    } else {
        None
    }
}

impl BinaryOperator {
    /// Reads one operator token at `*idx`, advancing `*idx` past it; on an
    /// unrecognized byte, or at the end of the input, `*idx` is left
    /// unchanged and no token is returned.
    pub fn parse_next(bytes: &[u8], idx: &mut usize) -> (r: Option<BinaryOperator>)
        ensures
            (match spec_operator_at(bytes@, *old(idx) as int) {
                Some((op, next)) => r == Some(op) && *final(idx) == next,
                None => r is None && *final(idx) == *old(idx),
            }),
    {
        if *idx >= bytes.len() {
            return None;
        }
        match bytes[*idx] {
            43 => {
                *idx += 1;
                Some(BinaryOperator::Add)
            },
            45 => {
                *idx += 1;
                Some(BinaryOperator::Sub)
            },
            42 => {
                *idx += 1;
                if *idx < bytes.len() && bytes[*idx] == 42 {
                    *idx += 1;
                    return Some(BinaryOperator::Pow);
                }
                Some(BinaryOperator::Mul)
            },
            47 => {
                *idx += 1;
                Some(BinaryOperator::Div)
            },
            37 => {
                *idx += 1;
                Some(BinaryOperator::Mod)
            },
            94 => {
                *idx += 1;
                Some(BinaryOperator::Xor)
            },
            124 => {
                *idx += 1;
                Some(BinaryOperator::Or)
            },
            38 => {
                *idx += 1;
                Some(BinaryOperator::And)
            },
            _ => None,
        }
    }
}

impl Priority for BinaryOperator {
    open spec fn spec_priority(&self) -> usize {
        match self {
            BinaryOperator::Add => 0,
            BinaryOperator::Sub => 0,
            BinaryOperator::Div => 1,
            BinaryOperator::Mul => 1,
            BinaryOperator::Mod => 1,
            BinaryOperator::Pow => 2,
            BinaryOperator::Or => 2,
            BinaryOperator::And => 2,
            BinaryOperator::Xor => 2,
        }
    }

    fn priority(&self) -> (p: usize) {
        match self {
            BinaryOperator::Add => 0,
            BinaryOperator::Sub => 0,
            BinaryOperator::Div => 1,
            BinaryOperator::Mul => 1,
            BinaryOperator::Mod => 1,
            BinaryOperator::Pow => 2,
            BinaryOperator::Or => 2,
            BinaryOperator::And => 2,
            BinaryOperator::Xor => 2,
        }
    }
}

} // verus!
