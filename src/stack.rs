//! The RPN stack: operations, their all-or-nothing application, and history.
use crate::decimal::{
    abs, bit_length, difference, division_scale_fits, pow10, DIVISION_PRECISION, integer_value, is_integral, normalize, product, quotient_of,
    remainder, rescaled, same_value, square_root_of, sum, Decimal,
};
use crate::undo::Undoable;
use std::collections::VecDeque;
use vstd::arithmetic::div_mod::lemma_fundamental_div_mod;
use vstd::arithmetic::power::{lemma_pow_increases, lemma_pow_positive, pow};
use vstd::prelude::*;
use vstd::string::StringExecFns;

verus! {

/// Largest bit length that `Pow` may produce: a guard against results that
/// would take unreasonable time and memory.
pub const MAX_BIT_COUNT: u64 = 1024;

/// Display precision of a new stack.
pub const DEFAULT_PRECISION: u64 = 12;

#[derive(Debug, PartialEq)]
pub enum StackError {
    /// The operation needs that many values on the stack.
    MissingValue(usize),
    /// An operand is outside the operation's domain.
    InvalidArgument(String),
}

#[derive(Debug)]
pub enum Op {
    Push(Decimal),
    Add,
    Subtract,
    Multiply,
    Divide,
    Modulo,
    Sqrt,
    Pow,
    Duplicate,
    Pop,
    Precision,
    Rotate,
    Undo,
    Redo,
}

/// The model of a stack state: its values, top first, and its display precision.
pub type Level = (Seq<(int, int)>, int);

/// How many values `op` reads from the top of the stack.
pub open spec fn arity(op: Op) -> nat {
    match op {
        Op::Add | Op::Subtract | Op::Multiply | Op::Divide | Op::Modulo | Op::Pow | Op::Rotate => 2,
        Op::Sqrt | Op::Duplicate | Op::Pop | Op::Precision => 1,
        _ => 0,
    }
}

/// The operation fails for lack of values: the count it needs.
pub open spec fn missing(l: Level, op: Op) -> Option<nat> {
    if l.0.len() < arity(op) {
        Some(arity(op))
    } else {
        None
    }
}

pub open spec fn fits_i64(x: int) -> bool {
    i64::MIN <= x <= i64::MAX
}

/// `a ^ b` is allowed: `b` a positive integer, `a` an integer whose digits
/// can be brought to scale zero, and the result no longer than
/// `MAX_BIT_COUNT` bits by the estimate `bits(a) * b`.
pub open spec fn pow_allowed(a: (int, int), b: (int, int)) -> bool {
    &&& is_integral(b)
    &&& b.0 > 0
    &&& is_integral(a)
    &&& (a.0 == 0 || a.1 > i64::MIN)
    &&& bit_length(abs(integer_value(a)) as nat) * integer_value(b) <= MAX_BIT_COUNT
}

/// A valid precision: a positive integer that fits an `i64`.
pub open spec fn precision_allowed(d: (int, int)) -> bool {
    is_integral(d) && d.0 > 0 && integer_value(d) <= i64::MAX
}

/// With enough values, an operand is outside the operation's domain.
/// `b` is the top value and `a` the one beneath it.
pub open spec fn invalid(l: Level, op: Op) -> bool {
    let b = l.0[0];
    let a = l.0[1];
    match op {
        Op::Multiply => !fits_i64(a.1 + b.1),
        Op::Divide => b.0 == 0 || !division_scale_fits(a, b),
        Op::Modulo => b.0 == 0,
        Op::Sqrt => b.0 < 0,
        Op::Pow => !pow_allowed(a, b),
        Op::Precision => !precision_allowed(b),
        _ => false,
    }
}

/// `n` has `x` in place of the top two values of `l`.
pub open spec fn top_two_replaced(l: Level, n: Level, x: (int, int)) -> bool {
    n.0 == seq![x] + l.0.skip(2)
}

/// `n` has a value equal to `x` in place of the top two values of `l`.
pub open spec fn top_two_replaced_by_value(l: Level, n: Level, x: (int, int)) -> bool {
    &&& n.0.len() == l.0.len() - 1
    &&& n.0.skip(1) == l.0.skip(2)
    &&& same_value(n.0[0], x)
}

/// `n` is what a successful `op` makes of `l`.
pub open spec fn transition(l: Level, op: Op, n: Level) -> bool {
    let b = l.0[0];
    let a = l.0[1];
    &&& n.1 == (if op is Precision { integer_value(b) } else { l.1 })
    &&& match op {
        Op::Push(d) => n.0 == seq![d@] + l.0,
        Op::Add => top_two_replaced_by_value(l, n, sum(a, b)),
        Op::Subtract => top_two_replaced_by_value(l, n, difference(a, b)),
        Op::Multiply => top_two_replaced_by_value(l, n, product(a, b)),
        Op::Divide => top_two_replaced(l, n, quotient_of(a, b)),
        Op::Modulo => top_two_replaced(l, n, remainder(a, b)),
        Op::Sqrt => n.0 == seq![square_root_of(b)] + l.0.skip(1),
        Op::Pow => top_two_replaced(
            l,
            n,
            normalize((pow(integer_value(a), integer_value(b) as nat), 0)),
        ),
        Op::Duplicate => n.0 == seq![b] + l.0,
        Op::Pop | Op::Precision => n.0 == l.0.skip(1),
        Op::Rotate => n.0 == seq![a, b] + l.0.skip(2),
        Op::Undo | Op::Redo => n.0 == l.0,
    }
}

/// `d` with its scale capped at `p`.
pub open spec fn capped(d: (int, int), p: int) -> (int, int) {
    if d.1 > p {
        rescaled(d, p)
    } else {
        d
    }
}

/// What a snapshot of a state shows.
pub open spec fn snapshot_of(l: Level) -> Seq<(int, int)> {
    l.0.map_values(|d: (int, int)| capped(d, l.1))
}

pub open spec fn views(s: Seq<Decimal>) -> Seq<(int, int)> {
    s.map_values(|d: Decimal| d@)
}

/// The values of one stack state, top first, and its display precision.
pub struct InstantStack {
    s: VecDeque<Decimal>,
    precision: u64,
}

impl InstantStack {
    pub closed spec fn level(&self) -> Level {
        (views(self.s@), self.precision as int)
    }

    pub closed spec fn wf(&self) -> bool {
        self.precision <= i64::MAX
    }

    pub fn new(values: Vec<Decimal>, precision: u64) -> (r: InstantStack)
        requires
            precision <= i64::MAX,
        ensures
            r.wf(),
            r.level() == (views(values@), precision as int),
    {
        let mut s: VecDeque<Decimal> = VecDeque::new();
        let mut values = values;
        let ghost all = values@;
        let mut i: usize = values.len();
        // Drain from the back so that the first value ends up on top.
        while i > 0
            invariant
                i == values@.len(),
                i <= all.len(),
                values@ == all.take(i as int),
                s@.len() == all.len() - i,
                forall|j: int| 0 <= j < s@.len() ==> (#[trigger] s@[j])@ == all[j + i]@,
            decreases i,
        {
            let v = values.pop().unwrap();
            s.push_front(v);
            i = i - 1;
            assert(values@ =~= all.take(i as int));
        }
        assert(views(s@) =~= views(all));
        InstantStack { s, precision }
    }

    pub fn precision(&self) -> (r: u64)
        ensures
            r == self.level().1,
    {
        self.precision
    }

    pub fn len(&self) -> (r: usize)
        ensures
            r == self.level().0.len(),
    {
        self.s.len()
    }

    /// A copy of this state.
    pub fn duplicate(&self) -> (r: InstantStack)
        requires
            self.wf(),
        ensures
            r.wf(),
            r.level() == self.level(),
    {
        let mut s: VecDeque<Decimal> = VecDeque::new();
        let mut i: usize = 0;
        while i < self.s.len()
            invariant
                i <= self.s@.len(),
                s@.len() == i,
                forall|j: int| 0 <= j < i ==> (#[trigger] s@[j])@ == self.s@[j]@,
            decreases self.s@.len() - i,
        {
            let v = self.s[i].copy();
            s.push_back(v);
            i = i + 1;
        }
        assert(views(s@) =~= views(self.s@));
        InstantStack { s, precision: self.precision }
    }

    /// The values with each scale capped at the precision; never padded.
    pub fn snapshot(&self) -> (r: Vec<Decimal>)
        requires
            self.wf(),
        ensures
            views(r@) == snapshot_of(self.level()),
    {
        let mut r: Vec<Decimal> = Vec::new();
        let mut i: usize = 0;
        while i < self.s.len()
            invariant
                self.wf(),
                i <= self.s@.len(),
                r@.len() == i,
                forall|j: int| 0 <= j < i ==> (#[trigger] r@[j])@ == capped(self.s@[j]@, self.precision as int),
            decreases self.s@.len() - i,
        {
            let v = &self.s[i];
            let c = if v.scale() as i128 > self.precision as i128 {
                v.with_scale(self.precision as i64)
            } else {
                v.copy()
            };
            r.push(c);
            i = i + 1;
        }
        assert(views(r@) =~= snapshot_of(self.level()));
        r
    }
}


fn invalid_argument(msg: &str) -> (r: StackError)
    ensures
        r matches StackError::InvalidArgument(m) && m@ == msg@,
{
    StackError::InvalidArgument(String::from_str(msg))
}

/// A positive integral number at scale -20 or below is at least `10^20`,
/// beyond any `u64`.
proof fn lemma_large_integer(d: (int, int))
    requires
        d.0 > 0,
        d.1 <= -20,
    ensures
        integer_value(d) > u64::MAX,
{
    lemma_pow_increases(10, 20, (0 - d.1) as nat);
    reveal_with_fuel(pow, 21);
    let p = pow10(0 - d.1);
    assert(p >= 100000000000000000000);
    assert(d.0 * p >= p) by (nonlinear_arith)
        requires
            d.0 >= 1,
            p >= 0,
    ;
}

fn op_arity(op: &Op) -> (r: usize)
    ensures
        r == arity(*op),
{
    match op {
        Op::Add | Op::Subtract | Op::Multiply | Op::Divide | Op::Modulo | Op::Pow | Op::Rotate => 2,
        Op::Sqrt | Op::Duplicate | Op::Pop | Op::Precision => 1,
        _ => 0,
    }
}

/// An integral number is positive exactly when the integer it denotes is.
proof fn lemma_integer_value_positive(d: (int, int))
    requires
        is_integral(d),
        d.0 > 0,
    ensures
        integer_value(d) > 0,
{
    if d.1 <= 0 {
        lemma_pow_positive(10, (0 - d.1) as nat);
        let p = pow10(0 - d.1);
        assert(d.0 * p > 0) by (nonlinear_arith)
            requires
                d.0 > 0,
                p > 0,
        ;
    } else {
        lemma_pow_positive(10, d.1 as nat);
        let p = pow10(d.1);
        lemma_fundamental_div_mod(d.0, p);
        let q = d.0 / p;
        assert(q > 0) by (nonlinear_arith)
            requires
                d.0 == p * q,
                d.0 > 0,
                p > 0,
        ;
    }
}

proof fn lemma_pow_zero_base(e: nat)
    requires
        e > 0,
    ensures
        pow(0, e) == 0,
{
    reveal(pow);
}

impl InstantStack {
    fn put(&mut self, v: Decimal)
        requires
            old(self).wf(),
        ensures
            final(self).wf(),
            final(self).level() == (seq![v@] + old(self).level().0, old(self).level().1),
    {
        self.s.push_front(v);
        assert(views(self.s@) =~= seq![v@] + views(old(self).s@));
    }

    fn take_top(&mut self) -> (r: Decimal)
        requires
            old(self).wf(),
            old(self).level().0.len() >= 1,
        ensures
            final(self).wf(),
            r@ == old(self).level().0[0],
            final(self).level() == (old(self).level().0.skip(1), old(self).level().1),
    {
        let r = self.s.pop_front().unwrap();
        assert(views(self.s@) =~= views(old(self).s@).skip(1));
        r
    }

    fn value(&self, i: usize) -> (r: &Decimal)
        requires
            i < self.level().0.len(),
        ensures
            r@ == self.level().0[i as int],
    {
        &self.s[i]
    }

    /// `a ^ b`, with `b` on top: validated before anything is removed.
    fn power(&mut self) -> (r: Result<(), StackError>)
        requires
            old(self).wf(),
            old(self).level().0.len() >= 2,
        ensures
            final(self).wf(),
            r is Ok <==> pow_allowed(old(self).level().0[1], old(self).level().0[0]),
            r is Err ==> (r matches Err(StackError::InvalidArgument(_))),
            r is Ok ==> transition(old(self).level(), Op::Pow, final(self).level()),
            r is Err ==> final(self).level() == old(self).level(),
    {
        let ghost l = self.level();
        let ghost a = l.0[1];
        let ghost b = l.0[0];
        let b_ok = {
            let top = self.value(0);
            top.is_integer() && !top.is_negative() && !top.is_zero()
        };
        if !b_ok {
            return Err(invalid_argument("element 1 must be a positive integer"));
        }
        if !self.value(1).is_integer() {
            return Err(invalid_argument("element 2 must be an integer"));
        }
        if self.value(1).scale() == i64::MIN && !self.value(1).is_zero() {
            return Err(invalid_argument("too big for me"));
        }
        proof {
            lemma_integer_value_positive(b);
        }
        let base = self.value(1).with_scale(0);
        assert(base@ == (integer_value(a), 0int));
        let bits = base.unscaled_bits();
        let result = if bits == 0 {
            proof {
                lemma_pow_zero_base(integer_value(b) as nat);
            }
            Decimal::from_i64(0)
        } else {
            if self.value(0).scale() <= -20 {
                proof {
                    lemma_large_integer(b);
                    let e = integer_value(b);
                    assert(bits * e > MAX_BIT_COUNT) by (nonlinear_arith)
                        requires
                            bits >= 1,
                            e > u64::MAX,
                    ;
                }
                return Err(invalid_argument("too big for me"));
            }
            match self.value(0).to_u64() {
                None => {
                    let ghost e = integer_value(b);
                    assert(bits * e > MAX_BIT_COUNT) by (nonlinear_arith)
                        requires
                            bits >= 1,
                            e > u64::MAX,
                    ;
                    return Err(invalid_argument("too big for me"));
                },
                Some(e) => {
                    assert(bits as u128 * e as u128 <= u128::MAX) by (nonlinear_arith)
                        requires
                            bits <= u64::MAX,
                            e <= u64::MAX,
                    ;
                    if bits as u128 * e as u128 > MAX_BIT_COUNT as u128 {
                        return Err(invalid_argument("too big for me"));
                    }
                    assert(e <= MAX_BIT_COUNT) by (nonlinear_arith)
                        requires
                            bits >= 1,
                            bits * e <= MAX_BIT_COUNT,
                    ;
                    let p = base.unscaled_pow(e as u32);
                    let _ = p.num_digits();
                    p.normalized()
                },
            }
        };
        let _ = self.take_top();
        let _ = self.take_top();
        self.put(result);
        assert(final(self).level().0 =~= seq![result@] + l.0.skip(2));
        Ok(())
    }
}

impl InstantStack {
    /// Runs one operation other than `Undo` and `Redo`. Operands are checked
    /// before any value is removed.
    pub fn execute(&mut self, op: Op) -> (r: Result<(), StackError>)
        requires
            old(self).wf(),
            !(op is Undo),
            !(op is Redo),
        ensures
            final(self).wf(),
            r is Ok <==> (missing(old(self).level(), op) is None && !invalid(
                old(self).level(),
                op,
            )),
            missing(old(self).level(), op) matches Some(n) ==> r == Err::<(), StackError>(
                StackError::MissingValue(n as usize),
            ),
            missing(old(self).level(), op) is None && invalid(old(self).level(), op) ==> (r matches Err(StackError::InvalidArgument(_))),
            r is Ok ==> transition(old(self).level(), op, final(self).level()),
            r is Err ==> final(self).level() == old(self).level(),
    {
        let ghost l = self.level();
        let need = op_arity(&op);
        if self.s.len() < need {
            return Err(StackError::MissingValue(need));
        }
        match op {
            Op::Push(v) => {
                self.put(v);
            },
            Op::Add => {
                let b = self.take_top();
                let a = self.take_top();
                self.put(a.add(&b));
                assert(self.level().0.skip(1) =~= l.0.skip(2));
                assert(self.level().0 =~= seq![self.level().0[0]] + l.0.skip(2));
            },
            Op::Subtract => {
                let b = self.take_top();
                let a = self.take_top();
                self.put(a.subtract(&b));
                assert(self.level().0.skip(1) =~= l.0.skip(2));
                assert(self.level().0 =~= seq![self.level().0[0]] + l.0.skip(2));
            },
            Op::Multiply => {
                let scale = self.value(1).scale() as i128 + self.value(0).scale() as i128;
                if scale < i64::MIN as i128 || scale > i64::MAX as i128 {
                    return Err(invalid_argument("scale out of range"));
                }
                let b = self.take_top();
                let a = self.take_top();
                self.put(a.multiply(&b));
                assert(self.level().0.skip(1) =~= l.0.skip(2));
                assert(self.level().0 =~= seq![self.level().0[0]] + l.0.skip(2));
            },
            Op::Divide => {
                if self.value(0).is_zero() {
                    return Err(invalid_argument("element 1 must be non-zero"));
                }
                let scale = self.value(1).scale() as i128 - self.value(0).scale() as i128;
                let growth = self.value(0).significant_digits() as i128
                    + DIVISION_PRECISION as i128;
                if scale < i64::MIN as i128 || scale + growth > i64::MAX as i128 {
                    return Err(invalid_argument("scale out of range"));
                }
                let b = self.take_top();
                let a = self.take_top();
                self.put(a.divide(&b));
                assert(self.level().0.skip(1) =~= l.0.skip(2));
                assert(self.level().0 =~= seq![self.level().0[0]] + l.0.skip(2));
            },
            Op::Modulo => {
                if self.value(0).is_zero() {
                    return Err(invalid_argument("element 1 must be non-zero"));
                }
                let b = self.take_top();
                let a = self.take_top();
                self.put(a.remainder(&b));
                assert(self.level().0.skip(1) =~= l.0.skip(2));
                assert(self.level().0 =~= seq![self.level().0[0]] + l.0.skip(2));
            },
            Op::Sqrt => {
                if self.value(0).is_negative() {
                    return Err(invalid_argument("element 1 must be positive"));
                }
                match self.value(0).sqrt() {
                    Some(x) => {
                        let _ = self.take_top();
                        self.put(x);
                        assert(self.level().0 =~= seq![x@] + l.0.skip(1));
                    },
                    None => {
                        return Err(invalid_argument("element 1 must be positive"));
                    },
                }
            },
            Op::Pow => {
                return self.power();
            },
            Op::Duplicate => {
                let a = self.take_top();
                let c = a.copy();
                self.put(a);
                self.put(c);
                assert(self.level().0 =~= seq![l.0[0]] + l.0);
            },
            Op::Pop => {
                let _ = self.take_top();
            },
            Op::Precision => {
                let ok = {
                    let top = self.value(0);
                    top.is_integer() && !top.is_negative() && !top.is_zero()
                };
                if !ok {
                    return Err(invalid_argument("element 1 must be a positive integer"));
                }
                proof {
                    lemma_integer_value_positive(l.0[0]);
                }
                if self.value(0).scale() <= -20 {
                    proof {
                        lemma_large_integer(l.0[0]);
                    }
                    return Err(invalid_argument("element 1 must be a positive integer"));
                }
                match self.value(0).to_u64() {
                    Some(p) => {
                        if p > i64::MAX as u64 {
                            return Err(invalid_argument("element 1 must be a positive integer"));
                        }
                        let _ = self.take_top();
                        self.precision = p;
                        assert(self.level().0 =~= l.0.skip(1));
                    },
                    None => {
                        return Err(invalid_argument("element 1 must be a positive integer"));
                    },
                }
            },
            Op::Rotate => {
                let b = self.take_top();
                let a = self.take_top();
                self.put(b);
                self.put(a);
                assert(self.level().0 =~= seq![l.0[1], l.0[0]] + l.0.skip(2));
            },
            Op::Undo | Op::Redo => {},
        }
        Ok(())
    }
}

/// An RPN stack with a history of its states.
pub struct Stack {
    h: Undoable<InstantStack>,
}

/// What `apply` does: `s` before, `t` after, `r` its result.
pub open spec fn applied(s: Stack, op: Op, r: Result<(), StackError>, t: Stack) -> bool {
    match op {
        Op::Undo => {
            &&& r is Ok <==> s.cursor() > 0
            &&& r is Err ==> (r matches Err(StackError::InvalidArgument(m)) && m@ == "nothing to undo"@)
            &&& t.levels() == s.levels()
            &&& t.cursor() == if r is Ok {
                s.cursor() - 1
            } else {
                s.cursor()
            }
        },
        Op::Redo => {
            &&& r is Ok <==> s.cursor() + 1 < s.levels().len()
            &&& r is Err ==> (r matches Err(StackError::InvalidArgument(m)) && m@ == "nothing to redo"@)
            &&& t.levels() == s.levels()
            &&& t.cursor() == if r is Ok {
                s.cursor() + 1
            } else {
                s.cursor()
            }
        },
        _ => {
            &&& r is Ok <==> (missing(s.level(), op) is None && !invalid(s.level(), op))
            &&& missing(s.level(), op) matches Some(n) ==> r == Err::<(), StackError>(
                StackError::MissingValue(n as usize),
            )
            &&& missing(s.level(), op) is None && invalid(s.level(), op) ==> (r matches Err(StackError::InvalidArgument(_)))
            &&& r is Ok ==> {
                &&& t.cursor() == s.cursor() + 1
                &&& t.levels() == s.levels().take(s.cursor() + 1).push(t.level())
                &&& transition(s.level(), op, t.level())
            }
            &&& r is Err ==> t.levels() == s.levels() && t.cursor() == s.cursor()
        },
    }
}

impl Stack {
    /// Every state of the history, oldest first.
    pub closed spec fn levels(&self) -> Seq<Level> {
        self.h.states().map_values(|i: InstantStack| i.level())
    }

    /// Index of the current state in `levels()`.
    pub closed spec fn cursor(&self) -> int {
        self.h.position()
    }

    pub open spec fn level(&self) -> Level {
        self.levels()[self.cursor()]
    }

    /// The precision of a well-formed stack fits an `i64`.
    pub proof fn lemma_precision_fits(&self)
        requires
            self.wf(),
        ensures
            0 <= self.level().1 <= i64::MAX,
    {
        assert(self.h.states()[self.h.position()].wf());
    }

    /// The cursor of a well-formed stack points into its history.
    pub proof fn lemma_cursor_in_range(&self)
        requires
            self.wf(),
        ensures
            0 <= self.cursor() < self.levels().len(),
    {
    }

    pub closed spec fn wf(&self) -> bool {
        &&& self.h.wf()
        &&& forall|i: int| 0 <= i < self.h.states().len() ==> (#[trigger] self.h.states()[i]).wf()
    }

    /// A stack holding `values`, top first, shown at `precision` digits.
    pub fn with_precision(values: Vec<Decimal>, precision: u64) -> (r: Stack)
        requires
            precision <= i64::MAX,
        ensures
            r.wf(),
            r.levels() == seq![(views(values@), precision as int)],
            r.cursor() == 0,
    {
        let first = InstantStack::new(values, precision);
        let h = Undoable::new(first);
        let r = Stack { h };
        assert(r.levels() =~= seq![(views(values@), precision as int)]);
        r
    }

    /// A stack holding `values`, top first, at the default precision.
    pub fn from(values: Vec<Decimal>) -> (r: Stack)
        ensures
            r.wf(),
            r.levels() == seq![(views(values@), DEFAULT_PRECISION as int)],
            r.cursor() == 0,
    {
        Stack::with_precision(values, DEFAULT_PRECISION)
    }

    /// An empty stack at the default precision.
    pub fn new() -> (r: Stack)
        ensures
            r.wf(),
            r.levels() == seq![(Seq::<(int, int)>::empty(), DEFAULT_PRECISION as int)],
            r.cursor() == 0,
    {
        let r = Stack::from(Vec::new());
        assert(views(Seq::<Decimal>::empty()) =~= Seq::<(int, int)>::empty());
        r
    }

    /// Runs `op`. `Undo` and `Redo` move through the history; any other
    /// operation either records exactly one new state, dropping the states
    /// that could have been redone, or changes nothing and returns the error.
    pub fn apply(&mut self, op: Op) -> (r: Result<(), StackError>)
        requires
            old(self).wf(),
        ensures
            final(self).wf(),
            applied(*old(self), op, r, *final(self)),
    {
        match op {
            Op::Undo => {
                if self.h.undo() {
                    Ok(())
                } else {
                    Err(invalid_argument("nothing to undo"))
                }
            },
            Op::Redo => {
                if self.h.redo() {
                    Ok(())
                } else {
                    Err(invalid_argument("nothing to redo"))
                }
            },
            _ => {
                let ghost before = self.h.states();
                let mut next = self.h.cur().duplicate();
                match next.execute(op) {
                    Ok(()) => {
                        self.h.add(next);
                        assert(self.levels() =~= old(self).levels().take(old(self).cursor() + 1).push(
                            self.level(),
                        ));
                        assert forall|i: int|
                            0 <= i < self.h.states().len() implies (#[trigger] self.h.states()[i]).wf() by {
                            if i < self.h.states().len() - 1 {
                                assert(self.h.states()[i] == before[i]);
                            }
                        }
                        Ok(())
                    },
                    Err(e) => Err(e),
                }
            },
        }
    }

    /// The current values, each with its scale capped at the precision.
    pub fn snapshot(&self) -> (r: Vec<Decimal>)
        requires
            self.wf(),
        ensures
            views(r@) == snapshot_of(self.level()),
    {
        self.h.cur().snapshot()
    }

    /// The current values as stored, top first.
    pub fn values(&self) -> (r: Vec<Decimal>)
        requires
            self.wf(),
        ensures
            views(r@) == self.level().0,
    {
        let cur = self.h.cur();
        let mut r: Vec<Decimal> = Vec::new();
        let mut i: usize = 0;
        while i < cur.len()
            invariant
                i <= cur.level().0.len(),
                r@.len() == i,
                forall|j: int| 0 <= j < i ==> (#[trigger] r@[j])@ == cur.level().0[j],
            decreases cur.level().0.len() - i,
        {
            r.push(cur.value(i).copy());
            i = i + 1;
        }
        assert(views(r@) =~= cur.level().0);
        r
    }

    pub fn precision(&self) -> (r: u64)
        requires
            self.wf(),
        ensures
            r == self.level().1,
    {
        self.h.cur().precision()
    }

    /// Records a new state without the top value and hands that value out
    /// for editing; `None`, with nothing changed, on an empty stack.
    pub fn edit_top(&mut self) -> (r: Option<Decimal>)
        requires
            old(self).wf(),
        ensures
            final(self).wf(),
            old(self).level().0.len() == 0 ==> r is None && *final(self) == *old(self),
            old(self).level().0.len() > 0 ==> {
                &&& (r matches Some(d) && d@ == old(self).level().0[0])
                &&& final(self).cursor() == old(self).cursor() + 1
                &&& final(self).levels() == old(self).levels().take(old(self).cursor() + 1).push(
                    final(self).level(),
                )
                &&& final(self).level() == (old(self).level().0.skip(1), old(self).level().1)
            },
    {
        if self.h.cur().len() == 0 {
            return None;
        }
        let ghost before = self.h.states();
        let mut next = self.h.cur().duplicate();
        let top = next.take_top();
        self.h.add(next);
        assert(self.levels() =~= old(self).levels().take(old(self).cursor() + 1).push(self.level()));
        assert forall|i: int|
            0 <= i < self.h.states().len() implies (#[trigger] self.h.states()[i]).wf() by {
            if i < self.h.states().len() - 1 {
                assert(self.h.states()[i] == before[i]);
            }
        }
        Some(top)
    }
}

} // verus!
