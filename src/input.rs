//! Reading a number typed by the user.
use crate::decimal::{literal_value, Decimal};
use vstd::prelude::*;
use vstd::string::{StrSliceExecFns, StringExecFns};

verus! {

#[derive(Debug, PartialEq)]
pub enum InputError {
    /// Nothing was typed.
    Empty,
    /// The text is not a decimal number.
    Invalid,
}

/// The text a typed input stands for: a leading `_` is a minus sign, so that
/// `-` stays free for subtraction.
pub open spec fn input_text(s: Seq<char>) -> Seq<char> {
    if s.len() > 0 && s[0] == '_' {
        seq!['-'] + s.skip(1)
    } else {
        s
    }
}

/// The number typed as `s`.
pub fn input_value(s: &str) -> (r: Result<Decimal, InputError>)
    ensures
        s@.len() == 0 ==> r == Err::<Decimal, InputError>(InputError::Empty),
        s@.len() > 0 ==> match literal_value(input_text(s@)) {
            Some(v) => r matches Ok(d) && d@ == v,
            None => r == Err::<Decimal, InputError>(InputError::Invalid),
        },
{
    let n = s.unicode_len();
    if n == 0 {
        return Err(InputError::Empty);
    }
    let parsed = if s.get_char(0) == '_' {
        proof {
            reveal_strlit("-");
        }
        let minus = String::from_str("-");
        let text = minus.concat(s.substring_char(1, n));
        assert(text@ =~= input_text(s@));
        Decimal::parse(text.as_str())
    } else {
        Decimal::parse(s)
    };
    match parsed {
        Some(d) => Ok(d),
        None => Err(InputError::Invalid),
    }
}

/// An input is acceptable when it is empty or reads as a number.
pub fn input_is_valid(s: &str) -> (r: bool)
    ensures
        r == (s@.len() == 0 || literal_value(input_text(s@)) is Some),
{
    match input_value(s) {
        Ok(_) => true,
        Err(InputError::Empty) => true,
        Err(InputError::Invalid) => false,
    }
}

} // verus!
