//! Linear undo/redo history over whole snapshots of a value.
use vstd::prelude::*;

verus! {

/// A history of values with a cursor on the current one. Moving the cursor
/// back and forth is undo and redo; adding a value drops whatever lay beyond
/// the cursor.
pub struct Undoable<T> {
    history: Vec<T>,
    current: usize,
}

impl<T> Undoable<T> {
    /// Every value the history holds, oldest first.
    pub closed spec fn states(&self) -> Seq<T> {
        self.history@
    }

    /// Index of the current value in `states()`.
    pub closed spec fn position(&self) -> int {
        self.current as int
    }

    pub open spec fn wf(&self) -> bool {
        0 <= self.position() < self.states().len()
    }

    pub open spec fn current_state(&self) -> T {
        self.states()[self.position()]
    }

    pub fn new(start: T) -> (r: Self)
        ensures
            r.wf(),
            r.states() == seq![start],
            r.position() == 0,
    {
        let mut history = Vec::new();
        history.push(start);
        Undoable { history, current: 0 }
    }

    /// Drops the values beyond the current one, appends `v` and makes it current.
    pub fn add(&mut self, v: T)
        requires
            old(self).wf(),
        ensures
            final(self).wf(),
            final(self).states() == old(self).states().take(old(self).position() + 1).push(v),
            final(self).position() == old(self).position() + 1,
    {
        let n = self.history.len();
        self.history.truncate(self.current + 1);
        assert(self.history@.len() == self.current + 1 <= n);
        self.history.push(v);
        self.current = self.current + 1;
    }

    /// Steps back one value; `false`, with nothing changed, at the oldest one.
    pub fn undo(&mut self) -> (r: bool)
        requires
            old(self).wf(),
        ensures
            final(self).wf(),
            final(self).states() == old(self).states(),
            r == (old(self).position() > 0),
            final(self).position() == if r {
                old(self).position() - 1
            } else {
                old(self).position()
            },
    {
        if self.current == 0 {
            false
        } else {
            self.current = self.current - 1;
            true
        }
    }

    /// Steps forward one value; `false`, with nothing changed, at the newest one.
    pub fn redo(&mut self) -> (r: bool)
        requires
            old(self).wf(),
        ensures
            final(self).wf(),
            final(self).states() == old(self).states(),
            r == (old(self).position() + 1 < old(self).states().len()),
            final(self).position() == if r {
                old(self).position() + 1
            } else {
                old(self).position()
            },
    {
        if self.current == self.history.len() - 1 {
            false
        } else {
            self.current = self.current + 1;
            true
        }
    }

    pub fn cur(&self) -> (r: &T)
        requires
            self.wf(),
        ensures
            *r == self.current_state(),
    {
        &self.history[self.current]
    }
}

} // verus!
