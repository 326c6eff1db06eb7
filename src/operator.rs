use crate::errors::JQError;
use vstd::prelude::*;
use vstd::string::StrSliceExecFns;

verus! {

/// A binary operator of an expression.
#[derive(Clone, Copy, Debug, PartialEq, Eq, Structural)]
pub enum Operator {
    Plus,
    Minus,
    Multiply,
    Divide,
    Equal,
    NotEqual,
    Gt,
    Lt,
    Gte,
    Lte,
}

/// The operator that a symbol denotes.
pub open spec fn operator_of(s: Seq<char>) -> Option<Operator> {
    if s == "+"@ {
        Some(Operator::Plus)
    } else if s == "-"@ {
        Some(Operator::Minus)
    } else if s == "*"@ {
        Some(Operator::Multiply)
    } else if s == "/"@ {
        Some(Operator::Divide)
    } else if s == "=="@ {
        Some(Operator::Equal)
    } else if s == "!="@ {
        Some(Operator::NotEqual)
    } else if s == ">"@ {
        Some(Operator::Gt)
    } else if s == "<"@ {
        Some(Operator::Lt)
    } else if s == ">="@ {
        Some(Operator::Gte)
    } else if s == "<="@ {
        Some(Operator::Lte)
    } else {
        None
    }
}

impl Operator {
    /// The operator that a symbol denotes, or `GeneralError`.
    pub fn from_symbol(s: &str) -> (r: Result<Operator, JQError>)
        ensures
            match operator_of(s@) {
                Some(op) => r == Ok::<Operator, JQError>(op),
                None => r is Err,
            },
    {
        let n = s.unicode_len();
        let c0 = if n > 0 { s.get_char(0) } else { ' ' };
        let c1 = if n > 1 { s.get_char(1) } else { ' ' };
        proof {
            reveal_strlit("+");
            reveal_strlit("-");
            reveal_strlit("*");
            reveal_strlit("/");
            reveal_strlit("==");
            reveal_strlit("!=");
            reveal_strlit(">");
            reveal_strlit("<");
            reveal_strlit(">=");
            reveal_strlit("<=");
        }
        if n == 1 {
            if c0 == '+' {
                assert(s@ =~= "+"@);
                return Ok(Operator::Plus);
            } else if c0 == '-' {
                assert(s@ =~= "-"@);
                return Ok(Operator::Minus);
            } else if c0 == '*' {
                assert(s@ =~= "*"@);
                return Ok(Operator::Multiply);
            } else if c0 == '/' {
                assert(s@ =~= "/"@);
                return Ok(Operator::Divide);
            } else if c0 == '>' {
                assert(s@ =~= ">"@);
                return Ok(Operator::Gt);
            } else if c0 == '<' {
                assert(s@ =~= "<"@);
                return Ok(Operator::Lt);
            }
        } else if n == 2 && c1 == '=' {
            if c0 == '=' {
                assert(s@ =~= "=="@);
                return Ok(Operator::Equal);
            } else if c0 == '!' {
                assert(s@ =~= "!="@);
                return Ok(Operator::NotEqual);
            } else if c0 == '>' {
                assert(s@ =~= ">="@);
                return Ok(Operator::Gte);
            } else if c0 == '<' {
                assert(s@ =~= "<="@);
                return Ok(Operator::Lte);
            }
        }
        Err(JQError::GeneralError("Bad operator".to_owned()))
    }
}

impl TryFrom<&str> for Operator {
    type Error = JQError;

    fn try_from(value: &str) -> Result<Operator, JQError> {
        Operator::from_symbol(value)
    }
}

impl vstd::std_specs::convert::TryFromSpecImpl<&str> for Operator {
    open spec fn obeys_try_from_spec() -> bool {
        false
    }

    open spec fn try_from_spec(value: &str) -> Result<Operator, JQError> {
        arbitrary()
    }
}

} // verus!
