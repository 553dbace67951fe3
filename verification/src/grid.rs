//! The double-buffered grid and the transient interaction state.
//!
//! A cell holds `0` when it is dead and otherwise the number of the frame in
//! which it became alive. Cells outside the grid are permanently dead: reads
//! there give `0` and writes there do nothing.

use vstd::arithmetic::div_mod::{lemma_fundamental_div_mod, lemma_mod_pos_bound};
use vstd::prelude::*;
use crate::pattern::{PATTERN_COUNT, ROTATION_COUNT};

verus! {

/// Mathematical model of a [`GameState`].
pub struct StateView {
    pub pause: bool,
    /// Last known pointer position, in pixels.
    pub mouse_position: (u32, u32),
    /// The sticky stamping flag of the secondary button.
    pub mouse_was_pressed: bool,
    /// The frame counter: the frame of the last tick.
    pub frame: u32,
    pub width: u32,
    pub height: u32,
    pub cell_size: u32,
    /// The generation that is evolved from, row by row.
    pub read: Seq<u32>,
    /// The generation that is computed and stamped into, row by row.
    pub write: Seq<u32>,
    pub selected_pattern: usize,
    pub selected_rotation: usize,
}

/// The value that a row-major buffer of a `width` by `height` grid holds at
/// `(x, y)`; `0` outside the grid.
pub open spec fn cell_of(cells: Seq<u32>, width: int, height: int, x: int, y: int) -> u32 {
    if 0 <= x < width && 0 <= y < height {
        cells[y * width + x]
    } else {
        0
    }
}

impl StateView {
    /// `(x, y)` is a cell of the grid.
    pub open spec fn in_grid(self, x: int, y: int) -> bool {
        0 <= x < self.width && 0 <= y < self.height
    }

    /// Where both buffers hold the cell at `(x, y)`.
    pub open spec fn index(self, x: int, y: int) -> int {
        y * self.width + x
    }

    /// The cell at `(x, y)` of the generation that is evolved from.
    pub open spec fn read_at(self, x: int, y: int) -> u32 {
        cell_of(self.read, self.width as int, self.height as int, x, y)
    }

    /// The cell at `(x, y)` of the generation that is written to.
    pub open spec fn write_at(self, x: int, y: int) -> u32 {
        cell_of(self.write, self.width as int, self.height as int, x, y)
    }

    /// Cells have a size, both buffers hold one value for each cell of the
    /// grid, and the selections are entries of the catalog and of the
    /// reflections.
    pub open spec fn wf(self) -> bool {
        &&& self.cell_size > 0
        &&& self.read.len() == self.width * self.height
        &&& self.write.len() == self.width * self.height
        &&& self.selected_pattern < PATTERN_COUNT
        &&& self.selected_rotation < ROTATION_COUNT
    }

    /// No cell of the generation that is written to was born after `frame`.
    pub open spec fn written_by(self, frame: u32) -> bool {
        forall|i: int| 0 <= i < self.write.len() ==> #[trigger] self.write[i] <= frame
    }

    /// No cell of either generation was born after `frame`: in frame `frame`
    /// every live cell has an age.
    pub open spec fn births_by(self, frame: u32) -> bool {
        &&& forall|i: int| 0 <= i < self.read.len() ==> #[trigger] self.read[i] <= frame
        &&& self.written_by(frame)
    }

    /// The cell under the pointer.
    pub open spec fn cursor_cell(self) -> (int, int) {
        (
            self.mouse_position.0 as int / self.cell_size as int,
            self.mouse_position.1 as int / self.cell_size as int,
        )
    }

    /// The column of the cell that buffer index `i` stands for.
    pub open spec fn column_of(self, i: int) -> int {
        i % (self.width as int)
    }

    /// The row of the cell that buffer index `i` stands for.
    pub open spec fn row_of(self, i: int) -> int {
        i / (self.width as int)
    }

    /// The state in which the written generation holds `cell(x, y)` at every
    /// `(x, y)` of the grid.
    pub open spec fn with_write(self, cell: spec_fn(int, int) -> u32) -> StateView {
        StateView {
            write: Seq::new(
                self.write.len(),
                |i: int| cell(self.column_of(i), self.row_of(i)),
            ),
            ..self
        }
    }

    /// The state after every cell of the written generation has been killed.
    pub open spec fn cleared(self) -> StateView {
        self.with_write(|x: int, y: int| 0u32)
    }

    /// The state after the two generations have changed roles.
    pub open spec fn swapped(self) -> StateView {
        StateView { read: self.write, write: self.read, ..self }
    }

    /// No cell is alive in the generation that is evolved from.
    pub open spec fn read_is_empty(self) -> bool {
        forall|i: int| 0 <= i < self.read.len() ==> #[trigger] self.read[i] == 0
    }

    /// No cell is alive in the generation that is written to.
    pub open spec fn write_is_empty(self) -> bool {
        forall|i: int| 0 <= i < self.write.len() ==> #[trigger] self.write[i] == 0
    }
}

/// Every index of a buffer stands for exactly one cell of the grid: the one
/// in column `i % width` of row `i / width`.
pub proof fn lemma_cell_of_index(width: int, height: int, i: int)
    requires
        0 <= width,
        0 <= height,
        0 <= i < width * height,
    ensures
        0 <= i % width < width,
        0 <= i / width < height,
        (i / width) * width + i % width == i,
{
    assert(width > 0) by (nonlinear_arith)
        requires
            0 <= width,
            0 <= i < width * height,
    ;
    lemma_fundamental_div_mod(i, width);
    lemma_mod_pos_bound(i, width);
    let q = i / width;
    let r = i % width;
    assert(width * q == q * width) by (nonlinear_arith);
    assert(0 <= q < height) by (nonlinear_arith)
        requires
            q * width + r == i,
            0 <= r < width,
            0 <= i < width * height,
    {
        if q < 0 {
            assert(q * width <= -width);
        }
        if q >= height {
            assert(q * width >= height * width);
        }
    }
}

/// Reading a cell of the grid from `with_write(cell)` gives `cell` of its
/// coordinates.
pub proof fn lemma_with_write_at(s: StateView, cell: spec_fn(int, int) -> u32, x: int, y: int)
    requires
        s.write.len() == s.width * s.height,
        s.in_grid(x, y),
    ensures
        s.with_write(cell).write_at(x, y) == cell(x, y),
{
    let w = s.width as int;
    lemma_index_in_range(w, s.height as int, x, y);
    let i = y * w + x;
    lemma_cell_of_index(w, s.height as int, i);
    lemma_index_injective(w, i % w, i / w, x, y);
}

/// A state whose written generation holds `cell(x, y)` at every `(x, y)` of
/// the grid, and which is otherwise `s`, is `s.with_write(cell)`.
pub proof fn lemma_is_with_write(s: StateView, t: StateView, cell: spec_fn(int, int) -> u32)
    requires
        s.write.len() == s.width * s.height,
        t == (StateView { write: t.write, ..s }),
        t.write.len() == s.write.len(),
        forall|x: int, y: int| s.in_grid(x, y) ==> #[trigger] t.write_at(x, y) == cell(x, y),
    ensures
        t == s.with_write(cell),
{
    let w = s.width as int;
    let h = s.height as int;
    assert forall|i: int| 0 <= i < t.write.len() implies t.write[i] == s.with_write(cell).write[i] by {
        lemma_cell_of_index(w, h, i);
        assert(t.write_at(i % w, i / w) == t.write[i]);
    }
    assert(t.write =~= s.with_write(cell).write);
}

/// The index `y * width + x` of a cell inside the grid lies inside the
/// buffer.
pub proof fn lemma_index_in_range(width: int, height: int, x: int, y: int)
    requires
        0 <= x < width,
        0 <= y < height,
    ensures
        0 <= y * width + x < width * height,
{
    assert(y * width + x < width * height) by (nonlinear_arith)
        requires
            0 <= x < width,
            0 <= y < height,
    {
        assert((y + 1) * width <= height * width);
    }
    assert(0 <= y * width) by (nonlinear_arith)
        requires
            0 <= y,
            0 <= width,
    ;
}

/// Distinct cells of the grid have distinct indices.
pub proof fn lemma_index_injective(width: int, x1: int, y1: int, x2: int, y2: int)
    requires
        0 <= x1 < width,
        0 <= x2 < width,
        y1 * width + x1 == y2 * width + x2,
    ensures
        x1 == x2,
        y1 == y2,
{
    assert(y1 == y2) by (nonlinear_arith)
        requires
            0 <= x1 < width,
            0 <= x2 < width,
            y1 * width + x1 == y2 * width + x2,
    {
        if y1 < y2 {
            assert((y1 + 1) * width <= y2 * width);
        } else if y2 < y1 {
            assert((y2 + 1) * width <= y1 * width);
        }
    }
}

/// The state of a simulation: the two generations, the size of the grid and
/// what the input has set. Its parts are read through methods and changed
/// through the functions of this crate only.
pub struct GameState {
    pub(crate) pause: bool,
    pub(crate) mouse_position: (u32, u32),
    pub(crate) mouse_was_pressed: bool,
    pub(crate) frame: u32,
    pub(crate) width: u32,
    pub(crate) height: u32,
    pub(crate) cell_size: u32,
    pub(crate) gen0: Vec<u32>,
    pub(crate) gen1: Vec<u32>,
    pub(crate) selected_pattern_number: usize,
    pub(crate) selected_rotation_number: usize,
}

impl View for GameState {
    type V = StateView;

    open(crate) spec fn view(&self) -> StateView {
        StateView {
            pause: self.pause,
            mouse_position: self.mouse_position,
            mouse_was_pressed: self.mouse_was_pressed,
            frame: self.frame,
            width: self.width,
            height: self.height,
            cell_size: self.cell_size,
            read: self.gen0@,
            write: self.gen1@,
            selected_pattern: self.selected_pattern_number,
            selected_rotation: self.selected_rotation_number,
        }
    }
}

impl GameState {
    /// The invariant that `init` establishes and every operation keeps.
    pub open spec fn wf(&self) -> bool {
        self@.wf()
    }

    /// The offset of a cell inside the grid fits in `usize` and lies inside
    /// both buffers.
    proof fn lemma_offset_fits(&self, x: u32, y: u32)
        requires
            self.wf(),
            x < self.width,
            y < self.height,
        ensures
            0 <= y * self.width <= y * self.width + x < self.width * self.height,
            self.width * self.height == self.gen0@.len(),
            self.width * self.height == self.gen1@.len(),
            self.width * self.height <= usize::MAX,
    {
        lemma_index_in_range(self.width as int, self.height as int, x as int, y as int);
        assert(0 <= y * self.width) by (nonlinear_arith)
            requires
                0 <= y,
                0 <= self.width,
        ;
        assert(self.gen0@.len() == self.gen0.len());
    }
}

/// Number of cells of the grid for a window of `window_size` pixels and
/// square cells of `cell_size` pixels.
pub open spec fn cell_count(window_size: (u32, u32), cell_size: u32) -> int {
    (window_size.0 / cell_size) * (window_size.1 / cell_size)
}

/// The state in which a simulation starts: every cell dead, running, the
/// pointer in the middle of the window, the last pattern of the catalog
/// selected without reflection, the frame counter at 1.
pub open spec fn initial_state(window_size: (u32, u32), cell_size: u32) -> StateView {
    StateView {
        pause: false,
        mouse_position: (window_size.0 / 2, window_size.1 / 2),
        mouse_was_pressed: false,
        frame: 1,
        width: window_size.0 / cell_size,
        height: window_size.1 / cell_size,
        cell_size,
        read: Seq::new(cell_count(window_size, cell_size) as nat, |i: int| 0u32),
        write: Seq::new(cell_count(window_size, cell_size) as nat, |i: int| 0u32),
        selected_pattern: 2,
        selected_rotation: 0,
    }
}

/// Creates the grid for a window of `window_size` pixels cut into square cells
/// of `cell_size` pixels. Pixels that do not fill a whole cell are left over
/// as an unused border. A cell has a size, and the cells fit into memory.
pub fn init(window_size: (u32, u32), cell_size: u32) -> (state: GameState)
    requires
        cell_size > 0,
        cell_count(window_size, cell_size) <= usize::MAX,
    ensures
        state.wf(),
        state@ == initial_state(window_size, cell_size),
        state@.read_is_empty(),
        state@.write_is_empty(),
        state@.births_by(0),
{
    let (window_width, window_height) = window_size;
    let width: u32 = window_width / cell_size;
    let height: u32 = window_height / cell_size;
    assert(0 <= width * height) by (nonlinear_arith)
        requires
            0 <= width,
            0 <= height,
    ;
    let num_cells: usize = width as usize * height as usize;
    let gen0: Vec<u32> = vec![0u32; num_cells];
    let gen1: Vec<u32> = vec![0u32; num_cells];
    let state = GameState {
        mouse_position: (window_width / 2, window_height / 2),
        mouse_was_pressed: false,
        pause: false,
        frame: 1,
        width,
        height,
        cell_size,
        gen0,
        gen1,
        selected_pattern_number: 2,
        selected_rotation_number: 0,
    };
    assert(state@.read =~= Seq::new(num_cells as nat, |i: int| 0u32));
    assert(state@.write =~= Seq::new(num_cells as nat, |i: int| 0u32));
    state
}

/// Creates the grid like [`init`], and refuses a configuration with which no
/// simulation can run: cells without a size, or more cells than fit into
/// memory.
pub fn try_init(window_size: (u32, u32), cell_size: u32) -> (state: Option<GameState>)
    ensures
        state is Some <==> cell_size > 0 && cell_count(window_size, cell_size) <= usize::MAX,
        state matches Some(s) ==> s.wf() && s@ == initial_state(window_size, cell_size)
            && s@.births_by(0),
{
    if cell_size == 0 {
        return None;
    }
    let width: u32 = window_size.0 / cell_size;
    let height: u32 = window_size.1 / cell_size;
    match (width as usize).checked_mul(height as usize) {
        Some(_) => Some(init(window_size, cell_size)),
        None => None,
    }
}

/// The cell at `(x, y)` of the generation that is evolved from; `0` for any
/// coordinate outside the grid, however large.
pub fn read_cell(state: &GameState, x: u32, y: u32) -> (value: u32)
    requires
        state.wf(),
    ensures
        value == state@.read_at(x as int, y as int),
        x >= state@.width || y >= state@.height ==> value == 0,
{
    if x >= state.width || y >= state.height {
        0
    } else {
        proof {
            state.lemma_offset_fits(x, y);
        }
        let offset: usize = y as usize * state.width as usize + x as usize;
        state.gen0[offset]
    }
}

/// Stores `value` at `(x, y)` of the generation that is written to. The cell
/// lies inside the grid.
pub fn write_cell_unchecked(state: &mut GameState, x: u32, y: u32, value: u32)
    requires
        old(state).wf(),
        x < old(state)@.width,
        y < old(state)@.height,
    ensures
        final(state).wf(),
        final(state)@ == (StateView {
            write: old(state)@.write.update(old(state)@.index(x as int, y as int), value),
            ..old(state)@
        }),
{
    proof {
        state.lemma_offset_fits(x, y);
    }
    let offset: usize = y as usize * state.width as usize + x as usize;
    state.gen1[offset] = value;
}

/// Stores `value` at `(x, y)` of the generation that is written to, and does
/// nothing when the cell lies outside the grid.
pub fn write_cell_checked(state: &mut GameState, x: u32, y: u32, value: u32)
    requires
        old(state).wf(),
    ensures
        final(state).wf(),
        old(state)@.in_grid(x as int, y as int) ==> final(state)@ == (StateView {
            write: old(state)@.write.update(old(state)@.index(x as int, y as int), value),
            ..old(state)@
        }),
        !old(state)@.in_grid(x as int, y as int) ==> final(state)@ == old(state)@,
{
    if x >= state.width || y >= state.height {
        return ;
    }
    write_cell_unchecked(state, x, y, value);
}

/// Kills every cell of the generation that is written to. Nothing else
/// changes.
pub fn clear_generation(state: &mut GameState)
    requires
        old(state).wf(),
    ensures
        final(state).wf(),
        final(state)@ == old(state)@.cleared(),
        final(state)@.write_is_empty(),
{
    let ghost before = state@;
    let total: usize = state.gen1.len();
    let mut i: usize = 0;
    while i < total
        invariant
            state.wf(),
            total == state@.write.len(),
            i <= total,
            state@ == (StateView { write: state@.write, ..before }),
            forall|k: int| 0 <= k < i ==> state@.write[k] == 0,
        decreases total - i,
    {
        state.gen1[i] = 0;
        i = i + 1;
    }
    assert(state@.write =~= before.cleared().write);
}

/// Exchanges the roles of the two generations: what was written becomes what
/// is evolved from. No cell is copied.
pub fn swap_generations(state: &mut GameState)
    requires
        old(state).wf(),
    ensures
        final(state).wf(),
        final(state)@ == old(state)@.swapped(),
{
    std::mem::swap(&mut state.gen0, &mut state.gen1);
}

/// Clearing leaves no live cell in the written generation, and clearing again
/// changes nothing.
pub proof fn lemma_clear_twice(s: StateView)
    requires
        s.wf(),
    ensures
        s.cleared().wf(),
        s.cleared().write_is_empty(),
        s.cleared().cleared() == s.cleared(),
{
    assert(s.cleared().cleared().write =~= s.cleared().write);
}

/// Cells that were born by one frame were born by every later frame.
pub proof fn lemma_births_by_later(s: StateView, earlier: u32, later: u32)
    requires
        s.births_by(earlier),
        earlier <= later,
    ensures
        s.births_by(later),
{
}

/// Clearing and changing roles bring in no birth frame.
pub proof fn lemma_births_kept(s: StateView, frame: u32)
    requires
        s.births_by(frame),
    ensures
        s.cleared().births_by(frame),
        s.swapped().births_by(frame),
{
}

/// No value greater than every value of `cell` on the grid is in the written
/// generation of `with_write(cell)`.
pub proof fn lemma_with_write_by(s: StateView, cell: spec_fn(int, int) -> u32, frame: u32)
    requires
        s.write.len() == s.width * s.height,
        forall|x: int, y: int| s.in_grid(x, y) ==> #[trigger] cell(x, y) <= frame,
    ensures
        s.with_write(cell).written_by(frame),
        s.with_write(cell).read == s.read,
{
    let t = s.with_write(cell);
    assert forall|i: int| 0 <= i < t.write.len() implies #[trigger] t.write[i] <= frame by {
        lemma_cell_of_index(s.width as int, s.height as int, i);
        assert(s.in_grid(i % (s.width as int), i / (s.width as int)));
    }
}

impl GameState {
    /// Number of cells in a row.
    pub fn width(&self) -> (w: u32)
        ensures
            w == self@.width,
    {
        self.width
    }

    /// Number of rows.
    pub fn height(&self) -> (h: u32)
        ensures
            h == self@.height,
    {
        self.height
    }

    /// Edge of a cell, in pixels.
    pub fn cell_size(&self) -> (c: u32)
        ensures
            c == self@.cell_size,
    {
        self.cell_size
    }

    /// The frame counter: the frame of the last tick, `1` before the first.
    pub fn frame(&self) -> (f: u32)
        ensures
            f == self@.frame,
    {
        self.frame
    }

    pub fn is_paused(&self) -> (p: bool)
        ensures
            p == self@.pause,
    {
        self.pause
    }

    /// Last known pointer position, in pixels.
    pub fn mouse_position(&self) -> (p: (u32, u32))
        ensures
            p == self@.mouse_position,
    {
        self.mouse_position
    }

    /// Index of the selected pattern in the catalog.
    pub fn selected_pattern(&self) -> (n: usize)
        ensures
            n == self@.selected_pattern,
    {
        self.selected_pattern_number
    }

    /// Index of the selected reflection.
    pub fn selected_rotation(&self) -> (n: usize)
        ensures
            n == self@.selected_rotation,
    {
        self.selected_rotation_number
    }

    /// Tells whether no cell of either generation was born after `frame`.
    pub fn births_by(&self, frame: u32) -> (by: bool)
        ensures
            by == self@.births_by(frame),
    {
        let read_count: usize = self.gen0.len();
        let mut i: usize = 0;
        while i < read_count
            invariant
                read_count == self.gen0@.len(),
                i <= read_count,
                forall|k: int| 0 <= k < i ==> #[trigger] self.gen0@[k] <= frame,
            decreases read_count - i,
        {
            if self.gen0[i] > frame {
                assert(self@.read[i as int] > frame);
                return false;
            }
            i = i + 1;
        }
        let write_count: usize = self.gen1.len();
        let mut j: usize = 0;
        while j < write_count
            invariant
                write_count == self.gen1@.len(),
                j <= write_count,
                forall|k: int| 0 <= k < self.gen0@.len() ==> #[trigger] self.gen0@[k] <= frame,
                forall|k: int| 0 <= k < j ==> #[trigger] self.gen1@[k] <= frame,
            decreases write_count - j,
        {
            if self.gen1[j] > frame {
                assert(self@.write[j as int] > frame);
                return false;
            }
            j = j + 1;
        }
        true
    }

    /// The cell at `(x, y)` of the generation that is written to; `0` outside
    /// the grid.
    pub fn written_cell(&self, x: u32, y: u32) -> (value: u32)
        requires
            self.wf(),
        ensures
            value == self@.write_at(x as int, y as int),
    {
        if x >= self.width || y >= self.height {
            0
        } else {
            proof {
                self.lemma_offset_fits(x, y);
            }
            let offset: usize = y as usize * self.width as usize + x as usize;
            self.gen1[offset]
        }
    }
}

} // verus!
