//! The persisted record of a stack: its values as text and its precision.
use crate::decimal::{lemma_scale_fits, literal_value, record_text, Decimal};
use crate::format::{decimal_chars, push_range, string_from_chars};
use crate::stack::{views, Stack, DEFAULT_PRECISION};
use vstd::prelude::*;

verus! {

/// What is kept of a stack between runs.
pub struct State {
    /// The current values, top first, each in the text form that reads back
    /// to the same value at the same scale (see `record_text`).
    pub stack: Vec<String>,
    pub precision: Option<u64>,
}

/// Why a `State` cannot be loaded.
#[derive(Debug, PartialEq)]
pub enum LoadError {
    /// The value at this index is not a decimal number.
    InvalidNumber(usize),
}

/// The precision a stack loaded with `p` gets: the default when absent, and
/// at most `i64::MAX`, the largest scale a number can take.
pub open spec fn loaded_precision(p: Option<u64>) -> int {
    match p {
        None => DEFAULT_PRECISION as int,
        Some(x) => if x <= i64::MAX {
            x as int
        } else {
            i64::MAX as int
        },
    }
}

/// The stored text of `d`.
pub fn record_string(d: &Decimal) -> (r: String)
    ensures
        r@ == record_text(d@),
{
    let mut r = d.unscaled().to_plain_chars();
    r.push('e');
    let e = -(d.scale() as i128);
    let digits = if e < 0 {
        r.push('-');
        decimal_chars((-e) as u64)
    } else {
        decimal_chars(e as u64)
    };
    let ghost before = r@;
    push_range(&mut r, &digits, 0, digits.len());
    assert(digits@.subrange(0, digits@.len() as int) =~= digits@);
    assert(r@ =~= record_text(d@));
    string_from_chars(&r)
}

/// Every text of `texts` reads as a decimal number.
pub open spec fn all_literals(texts: Seq<String>) -> bool {
    forall|i: int| 0 <= i < texts.len() ==> (#[trigger] literal_value(texts[i]@)) is Some
}

/// `texts` are the record texts of `vals`, one for one.
pub open spec fn records_of(texts: Seq<String>, vals: Seq<(int, int)>) -> bool {
    &&& texts.len() == vals.len()
    &&& forall|i: int|
        0 <= i < vals.len() ==> (i64::MIN <= vals[i].1 && vals[i].1 <= i64::MAX) && (#[trigger] texts[i])@
            == record_text(vals[i])
}

/// `r` is the record of the current state of `stack`: each stored value
/// (not capped at the precision) as its record text, and the precision.
pub open spec fn saved(stack: Stack, r: State) -> bool {
    &&& records_of(r.stack@, stack.level().0)
    &&& r.precision == Some(stack.level().1 as u64)
}

/// `r` is what loading `state` gives.
pub open spec fn loaded(state: State, r: Result<Stack, LoadError>) -> bool {
    &&& r is Ok <==> all_literals(state.stack@)
    &&& r matches Ok(s) ==> {
        &&& s.wf()
        &&& s.cursor() == 0
        &&& s.levels().len() == 1
        &&& s.level().1 == loaded_precision(state.precision)
        &&& s.level().0.len() == state.stack@.len()
        &&& forall|i: int|
            0 <= i < state.stack@.len() ==> literal_value(state.stack@[i]@) == Some(
                #[trigger] s.level().0[i],
            )
    }
    &&& r matches Err(LoadError::InvalidNumber(i)) ==> {
        &&& i < state.stack@.len()
        &&& literal_value(state.stack@[i as int]@) is None
        &&& forall|j: int| 0 <= j < i ==> (#[trigger] literal_value(state.stack@[j]@)) is Some
    }
    &&& forall|vals: Seq<(int, int)>|
        #[trigger] records_of(state.stack@, vals) ==> (r matches Ok(s) && s.level().0 == vals)
}

impl State {
    /// The record of the current state of `stack`.
    pub fn from_stack(stack: &Stack) -> (r: State)
        requires
            stack.wf(),
        ensures
            saved(*stack, r),
    {
        let values = stack.values();
        let mut texts: Vec<String> = Vec::new();
        let mut i: usize = 0;
        while i < values.len()
            invariant
                i <= values@.len(),
                views(values@) == stack.level().0,
                texts@.len() == i,
                forall|j: int| 0 <= j < i ==> (#[trigger] texts@[j])@ == record_text(values@[j]@),
            decreases values@.len() - i,
        {
            let ghost before = texts@;
            let t = record_string(&values[i]);
            assert(t@ == record_text(values@[i as int]@));
            texts.push(t);
            assert(texts@[i as int]@ == record_text(values@[i as int]@));
            assert forall|j: int| 0 <= j < i + 1 implies (#[trigger] texts@[j])@ == record_text(
                values@[j]@,
            ) by {
                if j < i {
                    assert(texts@[j] == before[j]);
                }
            }
            i = i + 1;
        }
        let r = State { stack: texts, precision: Some(stack.precision()) };
        let ghost vals = stack.level().0;
        let ghost ts = r.stack@;
        assert(ts.len() == vals.len());
        assert forall|j: int| 0 <= j < vals.len() implies #[trigger] ts[j]@ == record_text(
            vals[j],
        ) by {
            assert(vals[j] == values@[j]@);
        }
        assert forall|j: int| 0 <= j < vals.len() implies i64::MIN <= (#[trigger] vals[j]).1
            && vals[j].1 <= i64::MAX by {
            assert(vals[j] == values@[j]@);
            lemma_scale_fits(values@[j]);
        }
        assert(records_of(ts, vals));
        r
    }
}

impl Stack {
    /// A stack holding the values of `state`, read as decimal numbers. A
    /// single text that does not read fails the whole load.
    pub fn try_from(state: &State) -> (r: Result<Stack, LoadError>)
        ensures
            loaded(*state, r),
    {
        let mut values: Vec<Decimal> = Vec::new();
        let mut i: usize = 0;
        while i < state.stack.len()
            invariant
                i <= state.stack@.len(),
                values@.len() == i,
                forall|j: int|
                    0 <= j < i ==> literal_value(state.stack@[j]@) == Some(#[trigger] values@[j]@),
                forall|vals: Seq<(int, int)>|
                    #[trigger] records_of(state.stack@, vals) ==> forall|j: int|
                        0 <= j < i ==> (#[trigger] values@[j])@ == vals[j],
            decreases state.stack@.len() - i,
        {
            let parsed = Decimal::parse(state.stack[i].as_str());
            match parsed {
                Some(d) => {
                    assert forall|vals: Seq<(int, int)>|
                        #[trigger] records_of(state.stack@, vals) implies d@ == vals[i as int] by {
                        assert(state.stack@[i as int]@ == record_text(vals[i as int]));
                    }
                    values.push(d);
                },
                None => {
                    assert forall|j: int| 0 <= j < i implies (#[trigger] literal_value(
                        state.stack@[j]@,
                    )) is Some by {
                        assert(literal_value(state.stack@[j]@) == Some(values@[j]@));
                    }
                    assert forall|vals: Seq<(int, int)>|
                        !(#[trigger] records_of(state.stack@, vals)) by {
                        if records_of(state.stack@, vals) {
                            assert(state.stack@[i as int]@ == record_text(vals[i as int]));
                        }
                    }
                    return Err(LoadError::InvalidNumber(i));
                },
            }
            i = i + 1;
        }
        assert forall|j: int| 0 <= j < state.stack@.len() implies (#[trigger] literal_value(
            state.stack@[j]@,
        )) is Some by {
            assert(literal_value(state.stack@[j]@) == Some(values@[j]@));
        }
        let precision = match state.precision {
            None => DEFAULT_PRECISION,
            Some(p) => {
                if p > i64::MAX as u64 {
                    i64::MAX as u64
                } else {
                    p
                }
            },
        };
        let ghost vs = values@;
        let s = Stack::with_precision(values, precision);
        assert(s.level().0 == views(vs));
        assert forall|vals: Seq<(int, int)>|
            #[trigger] records_of(state.stack@, vals) implies s.level().0 == vals by {
            assert(views(vs) =~= vals);
        }
        Ok(s)
    }
}

} // verus!
