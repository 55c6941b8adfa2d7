//! Laws that relate several calls of the stack's operations.
use crate::decimal::{difference, product, quotient_of, remainder, same_value, sum, Decimal};
use crate::format::{find_dot, fixed_width, sign_len, split_layout, MARKER};
use crate::stack::{applied, snapshot_of, Op, Stack, StackError};
use crate::state::{loaded, records_of, saved, LoadError, State};
use vstd::prelude::*;

verus! {

pub open spec fn is_meta(op: Op) -> bool {
    op is Undo || op is Redo
}

/// Pushing a value onto an empty stack succeeds, and the snapshot then shows
/// that value alone, provided its scale is within the display precision.
pub proof fn law_push_then_snapshot(s: Stack, v: Decimal, r: Result<(), StackError>, t: Stack)
    requires
        s.level().0.len() == 0,
        v@.1 <= s.level().1,
        applied(s, Op::Push(v), r, t),
    ensures
        r is Ok,
        snapshot_of(t.level()) == seq![v@],
{
    assert(snapshot_of(t.level()) =~= seq![v@]);
}

/// On an empty stack, pushing `a`, then `b`, then a successful binary
/// operation leaves exactly one value: `a OP b`, with `a` the operand that
/// was beneath.
pub proof fn law_binary_after_two_pushes(
    s0: Stack,
    a: Decimal,
    b: Decimal,
    op: Op,
    r1: Result<(), StackError>,
    s1: Stack,
    r2: Result<(), StackError>,
    s2: Stack,
    s3: Stack,
)
    requires
        s0.level().0.len() == 0,
        op is Add || op is Subtract || op is Multiply || op is Divide || op is Modulo,
        applied(s0, Op::Push(a), r1, s1),
        applied(s1, Op::Push(b), r2, s2),
        applied(s2, op, Ok(()), s3),
    ensures
        r1 is Ok && r2 is Ok,
        s3.level().0.len() == 1,
        s3.level().1 == s0.level().1,
        snapshot_of(s3.level()).len() == 1,
        op is Add ==> same_value(s3.level().0[0], sum(a@, b@)),
        op is Subtract ==> same_value(s3.level().0[0], difference(a@, b@)),
        op is Multiply ==> same_value(s3.level().0[0], product(a@, b@)),
        op is Divide ==> s3.level().0[0] == quotient_of(a@, b@),
        op is Modulo ==> s3.level().0[0] == remainder(a@, b@),
{
    assert(s2.level().0 =~= seq![b@, a@]);
    assert(s2.level().0[1] == a@);
}

/// Dividing by a zero on top fails with `InvalidArgument` and leaves the
/// stack as it was.
pub proof fn law_divide_by_zero_keeps_state(s: Stack, r: Result<(), StackError>, t: Stack)
    requires
        s.level().0.len() >= 2,
        s.level().0[0].0 == 0,
        applied(s, Op::Divide, r, t),
    ensures
        r matches Err(StackError::InvalidArgument(_)),
        t.levels() == s.levels(),
        t.cursor() == s.cursor(),
        t.level() == s.level(),
{
}

/// `Undo` right after a successful operation succeeds and brings back the
/// state from before it.
pub proof fn law_undo_restores(
    s0: Stack,
    op: Op,
    s1: Stack,
    r: Result<(), StackError>,
    s2: Stack,
)
    requires
        s0.wf(),
        !is_meta(op),
        applied(s0, op, Ok(()), s1),
        applied(s1, Op::Undo, r, s2),
    ensures
        r is Ok,
        s2.level() == s0.level(),
{
    s0.lemma_cursor_in_range();
    assert(s1.levels()[s0.cursor()] == s0.levels()[s0.cursor()]);
}

/// `Redo` right after a successful `Undo` succeeds and brings back the state
/// that was undone.
pub proof fn law_redo_after_undo(s1: Stack, s2: Stack, r: Result<(), StackError>, s3: Stack)
    requires
        s1.wf(),
        applied(s1, Op::Undo, Ok(()), s2),
        applied(s2, Op::Redo, r, s3),
    ensures
        r is Ok,
        s3.level() == s1.level(),
{
    s1.lemma_cursor_in_range();
}

/// A successful operation drops the states that could have been redone: a
/// `Redo` right after it fails.
pub proof fn law_new_op_discards_redo(
    s: Stack,
    op: Op,
    t: Stack,
    r: Result<(), StackError>,
    u: Stack,
)
    requires
        s.wf(),
        !is_meta(op),
        applied(s, op, Ok(()), t),
        applied(t, Op::Redo, r, u),
    ensures
        r matches Err(StackError::InvalidArgument(m)) && m@ == "nothing to redo"@,
        u.level() == t.level(),
{
    s.lemma_cursor_in_range();
}

/// At the oldest state `Undo` fails and changes nothing.
pub proof fn law_undo_at_oldest_fails(s: Stack, r: Result<(), StackError>, t: Stack)
    requires
        s.cursor() == 0,
        applied(s, Op::Undo, r, t),
    ensures
        r matches Err(StackError::InvalidArgument(m)) && m@ == "nothing to undo"@,
        t.level() == s.level(),
{
}

/// A text without a dot has no dot index.
pub(crate) proof fn lemma_no_dot(r: Seq<char>, i: int)
    requires
        0 <= i,
        forall|j: int| 0 <= j < r.len() ==> r[j] != '.',
    ensures
        find_dot(r, i) == -1,
    decreases r.len() - i,
{
    if i < r.len() {
        lemma_no_dot(r, i + 1);
    }
}

/// A twelve-digit integer laid out in ten cells takes exactly ten: three
/// leading digits, the digit count `~12~`, three trailing digits.
pub proof fn law_twelve_digits_in_ten_cells(r: Seq<char>, grouping: bool)
    requires
        r.len() == 12,
        forall|j: int| 0 <= j < r.len() ==> '0' <= #[trigger] r[j] <= '9',
    ensures
        fixed_width(r, 10, grouping).len() == 10,
        fixed_width(r, 10, grouping) == r.take(3) + seq!['~', '1', '2', '~'] + r.skip(9),
{
    assert forall|j: int| 0 <= j < r.len() implies r[j] != '.' by {
        assert('0' <= r[j] <= '9');
    }
    lemma_no_dot(r, 0);
    reveal_with_fuel(crate::decimal::decimal_digits, 3);
    assert(crate::decimal::decimal_digits(12) =~= seq!['1', '2']);
    assert(sign_len(r) == 0) by {
        assert('0' <= r[0] <= '9');
    }
    let mag = seq![MARKER] + crate::decimal::decimal_digits(12) + seq![MARKER];
    assert(mag =~= seq!['~', '1', '2', '~']);
    assert(split_layout(r, 10) == r.take(3) + mag + r.skip(9));
    assert(fixed_width(r, 10, grouping) =~= r.take(3) + seq!['~', '1', '2', '~'] + r.skip(9));
}

/// A negative thirteen-digit integer needs seven cells: in six or fewer only
/// the marker is shown.
pub proof fn law_too_narrow_gives_marker(r: Seq<char>, w: int, grouping: bool)
    requires
        r.len() == 14,
        r[0] == '-',
        forall|j: int| 1 <= j < r.len() ==> '0' <= #[trigger] r[j] <= '9',
        0 <= w <= 6,
    ensures
        fixed_width(r, w, grouping) == seq![MARKER],
{
    assert forall|j: int| 0 <= j < r.len() implies r[j] != '.' by {
        if j > 0 {
            assert('0' <= r[j] <= '9');
        }
    }
    lemma_no_dot(r, 0);
    reveal_with_fuel(crate::decimal::decimal_digits, 3);
}

/// A run of successful operations from `states[0]`: each `states[i + 1]`
/// is what `ops[i]` made of `states[i]`.
pub open spec fn successful_run(states: Seq<Stack>, ops: Seq<Op>) -> bool {
    &&& states.len() == ops.len() + 1
    &&& forall|i: int|
        0 <= i < ops.len() ==> !is_meta(#[trigger] ops[i]) && applied(
            states[i],
            ops[i],
            Ok(()),
            states[i + 1],
        )
}

/// A run of `Undo` calls from `undone[0]`, with their results.
pub open spec fn undo_run(undone: Seq<Stack>, results: Seq<Result<(), StackError>>) -> bool {
    &&& undone.len() == results.len() + 1
    &&& forall|k: int|
        0 <= k < results.len() ==> applied(
            #[trigger] undone[k],
            Op::Undo,
            results[k],
            undone[k + 1],
        )
}

proof fn lemma_run_history(states: Seq<Stack>, ops: Seq<Op>, i: int)
    requires
        states[0].wf(),
        successful_run(states, ops),
        0 <= i <= ops.len(),
    ensures
        states[i].cursor() == states[0].cursor() + i,
        states[i].levels().len() >= states[0].cursor() + i + 1,
        forall|j: int|
            0 <= j <= i ==> (#[trigger] states[i].levels()[states[0].cursor() + j])
                == states[j].level(),
    decreases i,
{
    let c = states[0].cursor();
    states[0].lemma_cursor_in_range();
    if i > 0 {
        lemma_run_history(states, ops, i - 1);
        assert(!is_meta(ops[i - 1]));
        let prev = states[i - 1].levels();
        assert(states[i].levels() == prev.take(c + i).push(states[i].level()));
        assert forall|j: int| 0 <= j <= i implies (#[trigger] states[i].levels()[c + j])
            == states[j].level() by {
            if j < i {
                assert(states[i].levels()[c + j] == prev[c + j]);
            }
        }
    }
}

/// `k` undos from a state whose cursor is `c + n` step back to `c + n - k`,
/// succeeding while the cursor is above zero.
proof fn lemma_undo_history(
    undone: Seq<Stack>,
    results: Seq<Result<(), StackError>>,
    c: int,
    n: int,
    k: int,
)
    requires
        undo_run(undone, results),
        c >= 0,
        n >= 0,
        undone[0].cursor() == c + n,
        0 <= k < undone.len(),
        k <= n + 1,
    ensures
        undone[k].levels() == undone[0].levels(),
        k <= n ==> undone[k].cursor() == c + n - k,
        forall|m: int| 0 <= m < k && m < n ==> (#[trigger] results[m]) is Ok,
        k == n + 1 ==> (results[n] is Err <==> c == 0),
    decreases k,
{
    if k > 0 {
        lemma_undo_history(undone, results, c, n, k - 1);
        assert(applied(undone[k - 1], Op::Undo, results[k - 1], undone[k]));
    }
}

/// Undoing a run of `N` successful operations one step at a time succeeds
/// `N` times, each time bringing back the state from before the next
/// operation in reverse order. One more `Undo` fails exactly when the run
/// started from the oldest state of the history.
pub proof fn law_undo_walks_back(
    states: Seq<Stack>,
    ops: Seq<Op>,
    undone: Seq<Stack>,
    results: Seq<Result<(), StackError>>,
)
    requires
        states[0].wf(),
        successful_run(states, ops),
        undo_run(undone, results),
        undone[0] == states[ops.len() as int],
        results.len() == ops.len() + 1,
    ensures
        forall|k: int|
            0 <= k < ops.len() ==> (#[trigger] results[k]) is Ok && undone[k + 1].level()
                == states[ops.len() - 1 - k].level(),
        results[ops.len() as int] is Err <==> states[0].cursor() == 0,
{
    let n = ops.len() as int;
    let c = states[0].cursor();
    lemma_run_history(states, ops, n);
    states[0].lemma_cursor_in_range();
    lemma_undo_history(undone, results, c, n, n + 1);
    assert forall|k: int| 0 <= k < n implies (#[trigger] results[k]) is Ok && undone[k
        + 1].level() == states[n - 1 - k].level() by {
        lemma_undo_history(undone, results, c, n, k + 1);
        assert(states[n].levels()[c + (n - 1 - k)] == states[n - 1 - k].level());
    }
}

/// Saving a stack and loading the record succeeds and gives back a fresh
/// history holding the current values, each at its own scale, and the
/// precision.
pub proof fn law_save_then_load(s: Stack, t: State, r: Result<Stack, LoadError>)
    requires
        s.wf(),
        saved(s, t),
        loaded(t, r),
    ensures
        r matches Ok(u) && u.level() == s.level() && u.cursor() == 0 && u.levels().len() == 1,
{
    s.lemma_precision_fits();
    assert(records_of(t.stack@, s.level().0));
}

} // verus!
