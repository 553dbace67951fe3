//! The pattern catalog and the placement of a pattern on the grid.
//!
//! A pattern is a list of points around an origin. To place it, the origin is
//! subtracted from each point, the offset is multiplied by a pair of signs
//! (a reflection that stands in for a quarter turn), and the destination cell
//! is added.

use vstd::prelude::*;
use crate::grid::{
    lemma_index_in_range, lemma_index_injective, lemma_is_with_write, lemma_with_write_at,
    lemma_with_write_by, write_cell_checked, GameState, StateView,
};

verus! {

/// A shape to stamp or to draw: points relative to an origin.
#[derive(Debug)]
pub struct Pattern {
    pub origin_x: i32,
    pub origin_y: i32,
    pub points: Vec<(i32, i32)>,
}

/// Mathematical model of a [`Pattern`].
pub struct Shape {
    pub origin_x: i32,
    pub origin_y: i32,
    pub points: Seq<(i32, i32)>,
}

impl View for Pattern {
    type V = Shape;

    open spec fn view(&self) -> Shape {
        Shape { origin_x: self.origin_x, origin_y: self.origin_y, points: self.points@ }
    }
}

/// Where a coordinate `point` of a pattern with origin coordinate `origin`
/// lands when the pattern is placed at `cell` with sign `sign`.
pub open spec fn placed(cell: int, sign: int, point: int, origin: int) -> int {
    sign * (point - origin) + cell
}

impl Shape {
    /// The cell that point `k` lands on when the pattern is placed at
    /// `(cell_x, cell_y)` with `rotation`.
    pub open spec fn target(self, k: int, cell_x: int, cell_y: int, rotation: (i32, i32)) -> (
        int,
        int,
    ) {
        (
            placed(cell_x, rotation.0 as int, self.points[k].0 as int, self.origin_x as int),
            placed(cell_y, rotation.1 as int, self.points[k].1 as int, self.origin_y as int),
        )
    }

    /// Point `k` of the pattern lands on `(x, y)`.
    pub open spec fn hits(
        self,
        k: int,
        cell_x: int,
        cell_y: int,
        rotation: (i32, i32),
        x: int,
        y: int,
    ) -> bool {
        self.target(k, cell_x, cell_y, rotation) == (x, y)
    }

    /// One of the first `n` points of the pattern lands on `(x, y)`.
    pub open spec fn covers_within(
        self,
        n: int,
        cell_x: int,
        cell_y: int,
        rotation: (i32, i32),
        x: int,
        y: int,
    ) -> bool {
        exists|k: int| 0 <= k < n && #[trigger] self.hits(k, cell_x, cell_y, rotation, x, y)
    }

    /// Some point of the pattern lands on `(x, y)`.
    pub open spec fn covers(
        self,
        cell_x: int,
        cell_y: int,
        rotation: (i32, i32),
        x: int,
        y: int,
    ) -> bool {
        self.covers_within(self.points.len() as int, cell_x, cell_y, rotation, x, y)
    }
}

/// Number of patterns that can be selected for stamping.
pub const PATTERN_COUNT: usize = 3;

/// Number of reflections that can be selected.
pub const ROTATION_COUNT: usize = 4;

pub open spec fn crosshair_points() -> Seq<(i32, i32)> {
    seq![
        (-20i32, 0i32),
        (-21i32, 0i32),
        (-22i32, 0i32),
        (-23i32, 0i32),
        (0i32, -20i32),
        (0i32, -21i32),
        (0i32, -22i32),
        (0i32, -23i32),
        (20i32, 0i32),
        (21i32, 0i32),
        (22i32, 0i32),
        (23i32, 0i32),
        (0i32, 20i32),
        (0i32, 21i32),
        (0i32, 22i32),
        (0i32, 23i32),
    ]
}

pub open spec fn glider_points() -> Seq<(i32, i32)> {
    seq![(1i32, 0i32), (2i32, 1i32), (0i32, 2i32), (1i32, 2i32), (2i32, 2i32)]
}

pub open spec fn glider_mistake_points() -> Seq<(i32, i32)> {
    seq![(1i32, 0i32), (2i32, 0i32), (2i32, 1i32), (0i32, 2i32), (1i32, 2i32), (2i32, 2i32)]
}

pub open spec fn glider_gun_points() -> Seq<(i32, i32)> {
    seq![
        (0i32, 5i32),
        (0i32, 6i32),
        (1i32, 5i32),
        (1i32, 6i32),
        (10i32, 5i32),
        (10i32, 6i32),
        (10i32, 7i32),
        (11i32, 4i32),
        (11i32, 8i32),
        (12i32, 3i32),
        (12i32, 9i32),
        (13i32, 3i32),
        (13i32, 9i32),
        (14i32, 6i32),
        (15i32, 4i32),
        (15i32, 8i32),
        (16i32, 5i32),
        (16i32, 6i32),
        (16i32, 7i32),
        (17i32, 6i32),
        (20i32, 3i32),
        (20i32, 4i32),
        (20i32, 5i32),
        (21i32, 3i32),
        (21i32, 4i32),
        (21i32, 5i32),
        (22i32, 2i32),
        (22i32, 6i32),
        (24i32, 1i32),
        (24i32, 2i32),
        (24i32, 6i32),
        (24i32, 7i32),
        (34i32, 3i32),
        (34i32, 4i32),
        (35i32, 3i32),
        (35i32, 4i32),
    ]
}

/// The cursor mark.
pub open spec fn crosshair_shape() -> Shape {
    Shape { origin_x: 0, origin_y: 0, points: crosshair_points() }
}

pub open spec fn glider_shape() -> Shape {
    Shape { origin_x: 1, origin_y: 1, points: glider_points() }
}

pub open spec fn glider_mistake_shape() -> Shape {
    Shape { origin_x: 1, origin_y: 1, points: glider_mistake_points() }
}

pub open spec fn glider_gun_shape() -> Shape {
    Shape { origin_x: 18, origin_y: 5, points: glider_gun_points() }
}

/// The cursor mark: four arms around the pointer. It is only ever drawn.
pub fn crosshair() -> (p: Pattern)
    ensures
        p@ == crosshair_shape(),
{
    let points: Vec<(i32, i32)> = vec![
        (-20, 0),
        (-21, 0),
        (-22, 0),
        (-23, 0),
        (0, -20),
        (0, -21),
        (0, -22),
        (0, -23),
        (20, 0),
        (21, 0),
        (22, 0),
        (23, 0),
        (0, 20),
        (0, 21),
        (0, 22),
        (0, 23),
    ];
    assert(points@ =~= crosshair_points());
    Pattern { origin_x: 0, origin_y: 0, points }
}

pub fn glider() -> (p: Pattern)
    ensures
        p@ == glider_shape(),
{
    let points: Vec<(i32, i32)> = vec![(1, 0), (2, 1), (0, 2), (1, 2), (2, 2)];
    assert(points@ =~= glider_points());
    Pattern { origin_x: 1, origin_y: 1, points }
}

pub fn glider_mistake() -> (p: Pattern)
    ensures
        p@ == glider_mistake_shape(),
{
    let points: Vec<(i32, i32)> = vec![(1, 0), (2, 0), (2, 1), (0, 2), (1, 2), (2, 2)];
    assert(points@ =~= glider_mistake_points());
    Pattern { origin_x: 1, origin_y: 1, points }
}

pub fn glider_gun() -> (p: Pattern)
    ensures
        p@ == glider_gun_shape(),
{
    let points: Vec<(i32, i32)> = vec![
        (0, 5),
        (0, 6),
        (1, 5),
        (1, 6),
        (10, 5),
        (10, 6),
        (10, 7),
        (11, 4),
        (11, 8),
        (12, 3),
        (12, 9),
        (13, 3),
        (13, 9),
        (14, 6),
        (15, 4),
        (15, 8),
        (16, 5),
        (16, 6),
        (16, 7),
        (17, 6),
        (20, 3),
        (20, 4),
        (20, 5),
        (21, 3),
        (21, 4),
        (21, 5),
        (22, 2),
        (22, 6),
        (24, 1),
        (24, 2),
        (24, 6),
        (24, 7),
        (34, 3),
        (34, 4),
        (35, 3),
        (35, 4),
    ];
    assert(points@ =~= glider_gun_points());
    Pattern { origin_x: 18, origin_y: 5, points }
}

/// The stampable pattern that `index` selects.
pub open spec fn catalog(index: int) -> Shape {
    if index == 0 {
        glider_shape()
    } else if index == 1 {
        glider_mistake_shape()
    } else {
        glider_gun_shape()
    }
}

/// The stampable pattern with the given index: glider, its flawed variant,
/// glider gun.
pub fn pattern(index: usize) -> (p: Pattern)
    requires
        index < PATTERN_COUNT,
    ensures
        p@ == catalog(index as int),
{
    if index == 0 {
        glider()
    } else if index == 1 {
        glider_mistake()
    } else {
        glider_gun()
    }
}

/// The pair of signs with the given index.
pub open spec fn rotation_signs(index: int) -> (i32, i32) {
    if index == 0 {
        (1i32, 1i32)
    } else if index == 1 {
        (1i32, -1i32)
    } else if index == 2 {
        (-1i32, -1i32)
    } else {
        (-1i32, 1i32)
    }
}

/// The reflection with the given index, as the signs by which horizontal and
/// vertical offsets are multiplied.
pub fn rotation(index: usize) -> (r: (i32, i32))
    requires
        index < ROTATION_COUNT,
    ensures
        r == rotation_signs(index as int),
{
    if index == 0 {
        (1, 1)
    } else if index == 1 {
        (1, -1)
    } else if index == 2 {
        (-1, -1)
    } else {
        (-1, 1)
    }
}

/// Computes where a coordinate of a pattern lands; see [`placed`]. The result
/// is exact for every input, whatever the sign.
pub fn place(cell: u32, sign: i32, point: i32, origin: i32) -> (t: i128)
    ensures
        t == placed(cell as int, sign as int, point as int, origin as int),
        -0x1_0000_0000_0000_0000 <= t <= 0x1_0000_0000_0000_0000,
{
    let offset: i128 = point as i128 - origin as i128;
    assert(-0x8000_0000_0000_0000 <= sign * offset <= 0x8000_0000_0000_0000) by (nonlinear_arith)
        requires
            -0x8000_0000 <= sign <= 0x8000_0000,
            -0x1_0000_0000 <= offset <= 0x1_0000_0000,
    ;
    sign as i128 * offset + cell as i128
}

impl StateView {
    /// The cell at `(x, y)` of the written generation after `pattern` has
    /// been stamped at `(cell_x, cell_y)` with `rotation` and `value`.
    pub open spec fn stamped_at(
        self,
        pattern: Shape,
        cell_x: int,
        cell_y: int,
        rotation: (i32, i32),
        value: u32,
        x: int,
        y: int,
    ) -> u32 {
        if pattern.covers(cell_x, cell_y, rotation, x, y) {
            value
        } else {
            self.write_at(x, y)
        }
    }

    /// The state after `pattern` has been stamped at `(cell_x, cell_y)` with
    /// `rotation` and `value`.
    pub open spec fn stamped(
        self,
        pattern: Shape,
        cell_x: int,
        cell_y: int,
        rotation: (i32, i32),
        value: u32,
    ) -> StateView {
        self.with_write(
            |x: int, y: int| self.stamped_at(pattern, cell_x, cell_y, rotation, value, x, y),
        )
    }

    /// The written generation holds `value` wherever one of the first `n`
    /// points of the placed pattern lands, and what `before` held elsewhere.
    spec fn stamped_within(
        self,
        before: StateView,
        pattern: Shape,
        n: int,
        cell_x: int,
        cell_y: int,
        rotation: (i32, i32),
        value: u32,
    ) -> bool {
        forall|x: int, y: int|
            before.in_grid(x, y) ==> #[trigger] self.write_at(x, y) == (if pattern.covers_within(
                n,
                cell_x,
                cell_y,
                rotation,
                x,
                y,
            ) {
                value
            } else {
                before.write_at(x, y)
            })
    }
}

/// Stamping point `k` extends the stamped part of a pattern by that point.
proof fn lemma_stamp_one(
    before: StateView,
    mid: StateView,
    after: StateView,
    pattern: Shape,
    k: int,
    cell_x: int,
    cell_y: int,
    rotation: (i32, i32),
    value: u32,
)
    requires
        0 <= k < pattern.points.len(),
        mid.width == before.width,
        mid.height == before.height,
        mid.write.len() == before.width * before.height,
        mid.stamped_within(before, pattern, k, cell_x, cell_y, rotation, value),
        ({
            let t = pattern.target(k, cell_x, cell_y, rotation);
            if mid.in_grid(t.0, t.1) {
                after == (StateView { write: mid.write.update(mid.index(t.0, t.1), value), ..mid })
            } else {
                after == mid
            }
        }),
    ensures
        after.stamped_within(before, pattern, k + 1, cell_x, cell_y, rotation, value),
{
    let w = before.width as int;
    let h = before.height as int;
    let t = pattern.target(k, cell_x, cell_y, rotation);
    assert forall|x: int, y: int| before.in_grid(x, y) implies #[trigger] after.write_at(x, y) == (
    if pattern.covers_within(k + 1, cell_x, cell_y, rotation, x, y) {
        value
    } else {
        before.write_at(x, y)
    }) by {
        lemma_index_in_range(w, h, x, y);
        assert(mid.write_at(x, y) == mid.write[y * w + x]);
        if t == (x, y) {
            assert(pattern.hits(k, cell_x, cell_y, rotation, x, y));
        } else {
            assert(!pattern.hits(k, cell_x, cell_y, rotation, x, y));
            if mid.in_grid(t.0, t.1) {
                lemma_index_in_range(w, h, t.0, t.1);
                if t.1 * w + t.0 == y * w + x {
                    lemma_index_injective(w, t.0, t.1, x, y);
                }
            }
            assert(after.write_at(x, y) == mid.write_at(x, y));
            assert(pattern.covers_within(k + 1, cell_x, cell_y, rotation, x, y)
                == pattern.covers_within(k, cell_x, cell_y, rotation, x, y));
        }
    }
}

/// Stamps `pattern` into the generation that is written to: placed at
/// `(cell_x, cell_y)` with `rotation`, every point that lands inside the grid
/// sets its cell to `value`. Points that land outside are dropped, and no
/// other cell changes.
pub fn write_pattern(
    state: &mut GameState,
    cell_x: u32,
    cell_y: u32,
    pattern: &Pattern,
    rotation: (i32, i32),
    value: u32,
)
    requires
        old(state).wf(),
    ensures
        final(state).wf(),
        final(state)@ == old(state)@.stamped(
            pattern@,
            cell_x as int,
            cell_y as int,
            rotation,
            value,
        ),
        forall|x: int, y: int|
            old(state)@.in_grid(x, y) ==> #[trigger] final(state)@.write_at(x, y) == old(
                state,
            )@.stamped_at(pattern@, cell_x as int, cell_y as int, rotation, value, x, y),
{
    let ghost before = state@;
    let (rx, ry) = rotation;
    let count: usize = pattern.points.len();
    let mut k: usize = 0;
    while k < count
        invariant
            state.wf(),
            before.wf(),
            count == pattern.points@.len(),
            k <= count,
            rotation == (rx, ry),
            state@ == (StateView { write: state@.write, ..before }),
            state@.stamped_within(
                before,
                pattern@,
                k as int,
                cell_x as int,
                cell_y as int,
                rotation,
                value,
            ),
        decreases count - k,
    {
        let (x, y) = pattern.points[k];
        let point_cell_x: i128 = place(cell_x, rx, x, pattern.origin_x);
        let point_cell_y: i128 = place(cell_y, ry, y, pattern.origin_y);
        let ghost mid = state@;
        if 0 <= point_cell_x && point_cell_x <= u32::MAX as i128 && 0 <= point_cell_y
            && point_cell_y <= u32::MAX as i128 {
            write_cell_checked(state, point_cell_x as u32, point_cell_y as u32, value);
        }
        proof {
            lemma_stamp_one(
                before,
                mid,
                state@,
                pattern@,
                k as int,
                cell_x as int,
                cell_y as int,
                rotation,
                value,
            );
        }
        k = k + 1;
    }
    proof {
        lemma_is_with_write(
            before,
            state@,
            |x: int, y: int|
                before.stamped_at(pattern@, cell_x as int, cell_y as int, rotation, value, x, y),
        );
    }
}


/// Stamping overwrites: a second stamp of the same pattern at the same place
/// with the same value changes nothing.
pub proof fn lemma_stamp_twice(
    s: StateView,
    pattern: Shape,
    cell_x: int,
    cell_y: int,
    rotation: (i32, i32),
    value: u32,
)
    requires
        s.wf(),
    ensures
        s.stamped(pattern, cell_x, cell_y, rotation, value).stamped(
            pattern,
            cell_x,
            cell_y,
            rotation,
            value,
        ) == s.stamped(pattern, cell_x, cell_y, rotation, value),
{
    let once = s.stamped(pattern, cell_x, cell_y, rotation, value);
    let twice = once.stamped(pattern, cell_x, cell_y, rotation, value);
    let w = s.width as int;
    assert forall|i: int| 0 <= i < once.write.len() implies twice.write[i] == once.write[i] by {
        let x = i % w;
        let y = i / w;
        crate::grid::lemma_cell_of_index(w, s.height as int, i);
        lemma_with_write_at(
            s,
            |cx: int, cy: int| s.stamped_at(pattern, cell_x, cell_y, rotation, value, cx, cy),
            x,
            y,
        );
    }
    assert(twice.write =~= once.write);
}

/// A stamp brings in no birth frame but its value: where no cell was born
/// after `by` and the value is not after `by` either, no cell is born after
/// `by` when the stamp is done.
pub proof fn lemma_stamp_keeps_births(
    s: StateView,
    pattern: Shape,
    cell_x: int,
    cell_y: int,
    rotation: (i32, i32),
    value: u32,
    by: u32,
)
    requires
        s.wf(),
        s.births_by(by),
        value <= by,
    ensures
        s.stamped(pattern, cell_x, cell_y, rotation, value).births_by(by),
{
    let cell = |x: int, y: int| s.stamped_at(pattern, cell_x, cell_y, rotation, value, x, y);
    assert forall|x: int, y: int| s.in_grid(x, y) implies #[trigger] cell(x, y) <= by by {
        lemma_index_in_range(s.width as int, s.height as int, x, y);
        assert(s.write_at(x, y) == s.write[y * s.width + x]);
    }
    lemma_with_write_by(s, cell, by);
}

} // verus!
