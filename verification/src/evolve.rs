//! The evolution step: birth on exactly three live neighbours, survival on
//! two or three. A cell that survives keeps the frame of its birth.

use vstd::prelude::*;
use crate::grid::{
    lemma_cell_of_index, lemma_index_in_range, lemma_index_injective, lemma_is_with_write,
    lemma_with_write_at, lemma_with_write_by, read_cell, write_cell_unchecked, GameState,
    StateView,
};

verus! {

/// `1` for a live cell and `0` for a dead one.
pub open spec fn alive(value: u32) -> int {
    if value > 0 {
        1
    } else {
        0
    }
}

/// What becomes of a cell that holds `value` and has `neighbours` live
/// neighbours, in frame `frame`.
pub open spec fn next_value(value: u32, neighbours: int, frame: u32) -> u32 {
    if value > 0 {
        if neighbours == 2 || neighbours == 3 {
            value
        } else {
            0
        }
    } else if neighbours == 3 {
        frame
    } else {
        0
    }
}

impl StateView {
    /// Number of live cells among the eight around `(x, y)` in the generation
    /// that is evolved from.
    pub open spec fn neighbours(self, x: int, y: int) -> int {
        alive(self.read_at(x - 1, y - 1)) + alive(self.read_at(x, y - 1)) + alive(
            self.read_at(x + 1, y - 1),
        ) + alive(self.read_at(x - 1, y)) + alive(self.read_at(x + 1, y)) + alive(
            self.read_at(x - 1, y + 1),
        ) + alive(self.read_at(x, y + 1)) + alive(self.read_at(x + 1, y + 1))
    }

    /// A cell that does not lie on the outermost ring of the grid.
    pub open spec fn interior(self, x: int, y: int) -> bool {
        1 <= x < self.width - 1 && 1 <= y < self.height - 1
    }

    /// The cell at `(x, y)` of the written generation after a step in frame
    /// `frame`: the rule decides the interior, the outermost ring stays as it
    /// was written.
    pub open spec fn stepped_at(self, frame: u32, x: int, y: int) -> u32 {
        if self.interior(x, y) {
            next_value(self.read_at(x, y), self.neighbours(x, y), frame)
        } else {
            self.write_at(x, y)
        }
    }

    /// The state after a step in frame `frame`: the written generation is
    /// new, everything else is as it was.
    pub open spec fn stepped(self, frame: u32) -> StateView {
        self.with_write(|x: int, y: int| self.stepped_at(frame, x, y))
    }

    /// Every cell on the outermost ring of the written generation is dead.
    pub open spec fn ring_is_dead(self) -> bool {
        forall|x: int, y: int|
            self.in_grid(x, y) && !self.interior(x, y) ==> #[trigger] self.write_at(x, y) == 0
    }
}

/// The rule as executable code.
pub fn evolve_cell(value: u32, neighbours: u32, frame: u32) -> (new_value: u32)
    ensures
        new_value == next_value(value, neighbours as int, frame),
{
    if value > 0 && (neighbours == 2 || neighbours == 3) {
        value
    } else if value > 0 {
        0
    } else if neighbours == 3 {
        frame
    } else {
        0
    }
}

/// Counts the live cells among the eight around `(x, y)`. Neighbours beyond
/// the edge of the grid count as dead, also where `x - 1` or `y - 1` would
/// fall below zero.
pub fn count_neighbours(state: &GameState, x: u32, y: u32) -> (n: u32)
    requires
        state.wf(),
    ensures
        n == state@.neighbours(x as int, y as int),
        n <= 8,
{
    // `u32::MAX` is a column and a row of no grid, so it can stand for `-1`
    // and for `u32::MAX + 1` alike.
    let left: u32 = x.wrapping_sub(1);
    let right: u32 = x.saturating_add(1);
    let up: u32 = y.wrapping_sub(1);
    let down: u32 = y.saturating_add(1);
    let n0: u32 = if read_cell(state, left, up) > 0 { 1 } else { 0 };
    let n1: u32 = if read_cell(state, x, up) > 0 { 1 } else { 0 };
    let n2: u32 = if read_cell(state, right, up) > 0 { 1 } else { 0 };
    let n3: u32 = if read_cell(state, left, y) > 0 { 1 } else { 0 };
    let n4: u32 = if read_cell(state, right, y) > 0 { 1 } else { 0 };
    let n5: u32 = if read_cell(state, left, down) > 0 { 1 } else { 0 };
    let n6: u32 = if read_cell(state, x, down) > 0 { 1 } else { 0 };
    let n7: u32 = if read_cell(state, right, down) > 0 { 1 } else { 0 };
    n0 + n1 + n2 + n3 + n4 + n5 + n6 + n7
}

impl StateView {
    /// The written generation agrees with the step's result on every cell
    /// that comes before `(x, y)` row by row, and with `before` from there on.
    spec fn stepped_until(self, before: StateView, frame: u32, x: int, y: int) -> bool {
        forall|cx: int, cy: int|
            before.in_grid(cx, cy) ==> #[trigger] self.write_at(cx, cy) == (if cy < y || (cy == y
                && cx < x) {
                before.stepped_at(frame, cx, cy)
            } else {
                before.write_at(cx, cy)
            })
    }
}

/// Storing the new value of `(x, y)` extends the finished part of a step by
/// that cell.
proof fn lemma_step_one(
    before: StateView,
    mid: StateView,
    after: StateView,
    frame: u32,
    x: int,
    y: int,
)
    requires
        before.in_grid(x, y),
        mid.width == before.width,
        mid.height == before.height,
        mid.write.len() == before.width * before.height,
        mid.stepped_until(before, frame, x, y),
        after == (StateView {
            write: mid.write.update(mid.index(x, y), before.stepped_at(frame, x, y)),
            ..mid
        }),
    ensures
        after.stepped_until(before, frame, x + 1, y),
{
    let w = before.width as int;
    let h = before.height as int;
    lemma_index_in_range(w, h, x, y);
    assert forall|cx: int, cy: int| before.in_grid(cx, cy) implies #[trigger] after.write_at(
        cx,
        cy,
    ) == (if cy < y || (cy == y && cx < x + 1) {
        before.stepped_at(frame, cx, cy)
    } else {
        before.write_at(cx, cy)
    }) by {
        lemma_index_in_range(w, h, cx, cy);
        assert(mid.write_at(cx, cy) == mid.write[cy * w + cx]);
        if cy * w + cx == y * w + x {
            lemma_index_injective(w, cx, cy, x, y);
        }
    }
}

/// Computes the next generation from the one that is evolved from and stores
/// it in the one that is written to. The rule is applied to every cell inside
/// the outermost ring; the ring itself keeps what was written there. The
/// generation that is evolved from does not change, nor does anything else
/// in the state. `frame` becomes the birth frame of every new cell.
pub fn step_generation(state: &mut GameState, frame: u32)
    requires
        old(state).wf(),
    ensures
        final(state).wf(),
        final(state)@ == old(state)@.stepped(frame),
        forall|x: int, y: int|
            old(state)@.in_grid(x, y) ==> #[trigger] final(state)@.write_at(x, y) == old(
                state,
            )@.stepped_at(frame, x, y),
{
    let ghost before = state@;
    let width: u32 = state.width;
    let height: u32 = state.height;
    if width < 2 || height < 2 {
        proof {
            lemma_is_with_write(
                before,
                state@,
                |x: int, y: int| before.stepped_at(frame, x, y),
            );
        }
        return ;
    }
    let mut y: u32 = 1;
    while y < height - 1
        invariant
            state.wf(),
            before.wf(),
            width == before.width,
            height == before.height,
            width >= 2,
            height >= 2,
            1 <= y <= height - 1,
            state@ == (StateView { write: state@.write, ..before }),
            state@.stepped_until(before, frame, 0, y as int),
        decreases height - y,
    {
        let mut x: u32 = 1;
        proof {
            assert(state@.stepped_until(before, frame, 1, y as int)) by {
                assert forall|cx: int, cy: int| before.in_grid(cx, cy) implies #[trigger] state@.write_at(
                    cx,
                    cy,
                ) == (if cy < y || (cy == y && cx < 1) {
                    before.stepped_at(frame, cx, cy)
                } else {
                    before.write_at(cx, cy)
                }) by {}
            }
        }
        while x < width - 1
            invariant
                state.wf(),
                before.wf(),
                width == before.width,
                height == before.height,
                width >= 2,
                1 <= y < height - 1,
                1 <= x <= width - 1,
                state@ == (StateView { write: state@.write, ..before }),
                state@.stepped_until(before, frame, x as int, y as int),
            decreases width - x,
        {
            let neighbours: u32 = count_neighbours(state, x, y);
            let value: u32 = read_cell(state, x, y);
            let new_value: u32 = evolve_cell(value, neighbours, frame);
            let ghost mid = state@;
            proof {
                lemma_index_in_range(width as int, height as int, x as int, y as int);
                assert(value == before.read[y * width + x]);
                assert(new_value == before.stepped_at(frame, x as int, y as int));
            }
            write_cell_unchecked(state, x, y, new_value);
            proof {
                lemma_step_one(before, mid, state@, frame, x as int, y as int);
            }
            x = x + 1;
        }
        proof {
            assert(state@.stepped_until(before, frame, 0, y + 1)) by {
                assert forall|cx: int, cy: int| before.in_grid(cx, cy) implies #[trigger] state@.write_at(
                    cx,
                    cy,
                ) == (if cy < y + 1 || (cy == y + 1 && cx < 0) {
                    before.stepped_at(frame, cx, cy)
                } else {
                    before.write_at(cx, cy)
                }) by {}
            }
        }
        y = y + 1;
    }
    proof {
        lemma_is_with_write(
            before,
            state@,
            |x: int, y: int| before.stepped_at(frame, x, y),
        );
    }
}

/// The rule, case by case: a live cell with two or three live neighbours
/// keeps its value, any other live cell dies, a dead cell with exactly three
/// live neighbours is born with the current frame as its value, and any other
/// dead cell stays dead.
pub proof fn lemma_rule_table(value: u32, neighbours: int, frame: u32)
    ensures
        value > 0 && (neighbours == 2 || neighbours == 3) ==> next_value(value, neighbours, frame)
            == value,
        value > 0 && neighbours != 2 && neighbours != 3 ==> next_value(value, neighbours, frame)
            == 0,
        value == 0 && neighbours == 3 ==> next_value(value, neighbours, frame) == frame,
        value == 0 && neighbours != 3 ==> next_value(value, neighbours, frame) == 0,
{
}

/// A step gives every cell inside the outermost ring the value that the rule
/// assigns to its old value and the number of its live neighbours, which is
/// between 0 and 8; a cell on the ring keeps what was written there.
pub proof fn lemma_step_applies_rule(s: StateView, frame: u32, x: int, y: int)
    requires
        s.wf(),
        s.in_grid(x, y),
    ensures
        0 <= s.neighbours(x, y) <= 8,
        s.interior(x, y) ==> s.stepped(frame).write_at(x, y) == next_value(
            s.read_at(x, y),
            s.neighbours(x, y),
            frame,
        ),
        !s.interior(x, y) ==> s.stepped(frame).write_at(x, y) == s.write_at(x, y),
        s.stepped(frame) == (StateView { write: s.stepped(frame).write, ..s }),
{
    lemma_with_write_at(s, |cx: int, cy: int| s.stepped_at(frame, cx, cy), x, y);
}

/// A live cell that survives a step keeps the frame of its birth: it is not
/// stamped with the frame of the step.
pub proof fn lemma_survivor_keeps_value(s: StateView, frame: u32, x: int, y: int)
    requires
        s.wf(),
        s.interior(x, y),
        s.read_at(x, y) > 0,
        s.neighbours(x, y) == 2 || s.neighbours(x, y) == 3,
    ensures
        s.stepped(frame).write_at(x, y) == s.read_at(x, y),
{
    lemma_step_applies_rule(s, frame, x, y);
}

/// No cell is born from nothing: a step from an empty generation leaves the
/// written generation empty, whatever was written inside the outermost ring
/// before. The ring itself is not stepped, so it is dead after the step only
/// if it was dead before.
pub proof fn lemma_no_spontaneous_birth(s: StateView, frame: u32)
    requires
        s.wf(),
        s.read_is_empty(),
        s.ring_is_dead(),
    ensures
        s.stepped(frame).write_is_empty(),
{
    let w = s.width as int;
    let h = s.height as int;
    let t = s.stepped(frame);
    assert forall|i: int| 0 <= i < t.write.len() implies #[trigger] t.write[i] == 0 by {
        lemma_cell_of_index(w, h, i);
        let x = i % w;
        let y = i / w;
        assert(t.write[i] == s.stepped_at(frame, x, y));
        lemma_all_dead_around(s, x, y);
        assert(!s.interior(x, y) ==> s.write_at(x, y) == 0);
    }
}

/// A written generation without a live cell has a dead ring.
pub proof fn lemma_empty_has_dead_ring(s: StateView)
    requires
        s.wf(),
        s.write_is_empty(),
    ensures
        s.ring_is_dead(),
{
    assert forall|x: int, y: int| s.in_grid(x, y) && !s.interior(x, y) implies #[trigger] s.write_at(
        x,
        y,
    ) == 0 by {
        lemma_index_in_range(s.width as int, s.height as int, x, y);
    }
}

/// A step brings in no birth frame but its own: where no cell was born after
/// `by` and the step's frame is not after `by` either, no cell is born after
/// `by` when the step is done.
pub proof fn lemma_step_keeps_births(s: StateView, frame: u32, by: u32)
    requires
        s.wf(),
        s.births_by(by),
        frame <= by,
    ensures
        s.stepped(frame).births_by(by),
{
    let cell = |x: int, y: int| s.stepped_at(frame, x, y);
    assert forall|x: int, y: int| s.in_grid(x, y) implies #[trigger] cell(x, y) <= by by {
        lemma_index_in_range(s.width as int, s.height as int, x, y);
        assert(s.read_at(x, y) == s.read[y * s.width + x]);
        assert(s.write_at(x, y) == s.write[y * s.width + x]);
    }
    lemma_with_write_by(s, cell, by);
}

/// In an empty generation every cell is dead and has no live neighbour.
proof fn lemma_all_dead_around(s: StateView, x: int, y: int)
    requires
        s.wf(),
        s.read_is_empty(),
    ensures
        s.read_at(x, y) == 0,
        s.neighbours(x, y) == 0,
{
    assert forall|cx: int, cy: int| #[trigger] s.read_at(cx, cy) == 0 by {
        if s.in_grid(cx, cy) {
            lemma_index_in_range(s.width as int, s.height as int, cx, cy);
        }
    }
}

} // verus!
