//! One tick: handle the input, stamp if asked to, evolve unless paused, and
//! draw the result.

use vstd::prelude::*;
use crate::canvas::{lemma_repaints_twice, Color, ImageBuffer};
use crate::evolve::{lemma_step_keeps_births, step_generation};
use crate::grid::{lemma_births_kept, swap_generations, GameState, StateView};
use crate::input::{
    after_events, handle_events, lemma_events_keep_births, lemma_events_keep_grid,
    lemma_events_keep_wf, InputEvent, Requests,
};
use crate::pattern::{
    catalog, crosshair, crosshair_shape, lemma_stamp_keeps_births, pattern, rotation,
    rotation_signs, write_pattern,
};
use crate::raster::{draw_generation, draw_pattern};

verus! {

/// Colour of the cursor mark.
pub open spec fn crosshair_color() -> Color {
    Color { r: 0x38, g: 0x38, b: 0x38 }
}

/// Colour in which the selected pattern is shown at the cursor.
pub open spec fn selection_color() -> Color {
    Color { r: 0xf7, g: 0xca, b: 0x88 }
}

impl StateView {
    /// The state after the selected pattern has been stamped at the cursor
    /// cell with the selected reflection and the current frame as value.
    pub open spec fn stamp_selected(self) -> StateView {
        self.stamped(
            catalog(self.selected_pattern as int),
            self.cursor_cell().0,
            self.cursor_cell().1,
            rotation_signs(self.selected_rotation as int),
            self.frame,
        )
    }

    /// The state after the simulation has moved on by one generation: the
    /// generations change roles and a step follows. A paused state stays as
    /// it is.
    pub open spec fn advanced(self) -> StateView {
        if self.pause {
            self
        } else {
            self.swapped().stepped(self.frame)
        }
    }

    /// What a tick paints in frame `frame`: the selected pattern at the
    /// cursor, over the cursor mark, over the generation.
    pub open spec fn frame_paint(self, frame: u32) -> spec_fn(int, int) -> Option<Color> {
        |x: int, y: int|
            if catalog(self.selected_pattern as int).marks_within(
                catalog(self.selected_pattern as int).points.len() as int,
                self.cursor_cell().0,
                self.cursor_cell().1,
                self.cell_size as int,
                rotation_signs(self.selected_rotation as int),
                x,
                y,
            ) {
                Some(selection_color())
            } else if crosshair_shape().marks_within(
                crosshair_shape().points.len() as int,
                self.cursor_cell().0,
                self.cursor_cell().1,
                self.cell_size as int,
                rotation_signs(0),
                x,
                y,
            ) {
                Some(crosshair_color())
            } else {
                self.generation_paint(frame)(x, y)
            }
    }
}

/// The state and the requests after the events of a tick in frame `frame`.
pub open spec fn tick_inputs(s: StateView, frame: u32, events: Seq<InputEvent>) -> (
    StateView,
    Requests,
) {
    after_events(StateView { frame, ..s }, Requests { exit: false, stamp: false }, events)
}

/// The tick in frame `frame` with these events ends the program.
pub open spec fn tick_exits(s: StateView, frame: u32, events: Seq<InputEvent>) -> bool {
    tick_inputs(s, frame, events).1.exit
}

/// The state after the tick in frame `frame` with these events. A tick that
/// ends the program handles its events and does nothing more. Any other tick
/// stamps the selected pattern if the primary button went down in it or the
/// sticky flag is set, and then moves the simulation on.
pub open spec fn tick_state(s: StateView, frame: u32, events: Seq<InputEvent>) -> StateView {
    let (handled, requests) = tick_inputs(s, frame, events);
    if requests.exit {
        handled
    } else if requests.stamp || handled.mouse_was_pressed {
        handled.stamp_selected().advanced()
    } else {
        handled.advanced()
    }
}

/// Runs one tick in frame `frame`: sets the frame counter, handles `events`,
/// stamps, evolves and draws into `buffer`. Gives `true` when the events ask
/// for the program to end; the buffer is then left as it was. No cell was
/// born after `frame`, which holds from tick to tick as long as frames do not
/// run backwards, and holds again when the tick is done.
pub fn update(frame: u32, buffer: &mut ImageBuffer, state: &mut GameState, events: &[InputEvent])
    -> (should_exit: bool)
    requires
        old(buffer).wf(),
        old(state).wf(),
        old(state)@.births_by(frame),
    ensures
        final(buffer).wf(),
        final(state).wf(),
        final(state)@.births_by(frame),
        should_exit == tick_exits(old(state)@, frame, events@),
        final(state)@ == tick_state(old(state)@, frame, events@),
        should_exit ==> final(buffer)@ == old(buffer)@,
        !should_exit ==> final(buffer)@.repaints(old(buffer)@, final(state)@.frame_paint(frame)),
{
    let ghost canvas = buffer@;
    state.frame = frame;
    let mut requests = Requests { exit: false, stamp: false };
    handle_events(state, &mut requests, events);
    proof {
        let start = StateView { frame, ..old(state)@ };
        let nothing = Requests { exit: false, stamp: false };
        lemma_events_keep_grid(start, nothing, events@);
        lemma_events_keep_births(start, nothing, events@, frame);
    }
    if requests.exit {
        return true;
    }
    let (mouse_x, mouse_y) = state.mouse_position;
    let mouse_cell_x: u32 = mouse_x / state.cell_size;
    let mouse_cell_y: u32 = mouse_y / state.cell_size;
    let selected_pattern = pattern(state.selected_pattern_number);
    let selected_rotation = rotation(state.selected_rotation_number);
    if requests.stamp || state.mouse_was_pressed {
        proof {
            lemma_stamp_keeps_births(
                state@,
                selected_pattern@,
                mouse_cell_x as int,
                mouse_cell_y as int,
                selected_rotation,
                frame,
                frame,
            );
        }
        write_pattern(state, mouse_cell_x, mouse_cell_y, &selected_pattern, selected_rotation, frame);
    }
    if !state.pause {
        proof {
            lemma_births_kept(state@, frame);
            lemma_step_keeps_births(state@.swapped(), frame, frame);
        }
        swap_generations(state);
        step_generation(state, frame);
    }
    draw_generation(buffer, frame, state);
    let ghost drawn = buffer@;
    draw_pattern(
        buffer,
        mouse_cell_x,
        mouse_cell_y,
        state.cell_size,
        &crosshair(),
        rotation(0),
        Color::rgb(0x38, 0x38, 0x38),
    );
    let ghost marked = buffer@;
    draw_pattern(
        buffer,
        mouse_cell_x,
        mouse_cell_y,
        state.cell_size,
        &selected_pattern,
        selected_rotation,
        Color::rgb(0xf7, 0xca, 0x88),
    );
    proof {
        let s = state@;
        let cell = s.cursor_cell();
        let cs = s.cell_size as int;
        let generation = s.generation_paint(frame);
        let cursor = crosshair_shape().overlay(
            crosshair_shape().points.len() as int,
            cell.0,
            cell.1,
            cs,
            rotation_signs(0),
            crosshair_color(),
        );
        let selection = catalog(s.selected_pattern as int).overlay(
            catalog(s.selected_pattern as int).points.len() as int,
            cell.0,
            cell.1,
            cs,
            rotation_signs(s.selected_rotation as int),
            selection_color(),
        );
        let under = |x: int, y: int|
            match cursor(x, y) {
                Some(color) => Some(color),
                None => generation(x, y),
            };
        lemma_repaints_twice(canvas, drawn, marked, generation, cursor, under);
        lemma_repaints_twice(canvas, marked, buffer@, under, selection, s.frame_paint(frame));
    }
    false
}

/// The state after `count` ticks without events, in the frames from `frame`
/// on.
pub open spec fn idle_ticks(s: StateView, frame: u32, count: nat) -> StateView
    decreases count,
{
    if count == 0 {
        s
    } else {
        tick_state(
            idle_ticks(s, frame, (count - 1) as nat),
            (frame + count - 1) as u32,
            Seq::<InputEvent>::empty(),
        )
    }
}

/// A tick whose events leave the simulation paused and ask for no stamp
/// changes no cell beyond what the events themselves did.
pub proof fn lemma_paused_tick(s: StateView, frame: u32, events: Seq<InputEvent>)
    requires
        !tick_exits(s, frame, events),
        tick_inputs(s, frame, events).0.pause,
        !tick_inputs(s, frame, events).1.stamp,
        !tick_inputs(s, frame, events).0.mouse_was_pressed,
    ensures
        tick_state(s, frame, events) == tick_inputs(s, frame, events).0,
{
}

/// While the simulation is paused and the sticky flag is not set, ticks
/// without events change nothing but the frame counter: every cell of both
/// generations keeps its value, however many ticks pass.
pub proof fn lemma_paused_ticks_keep_cells(s: StateView, frame: u32, count: nat)
    requires
        s.pause,
        !s.mouse_was_pressed,
        frame + count <= u32::MAX,
    ensures
        idle_ticks(s, frame, count) == (StateView { frame: idle_ticks(s, frame, count).frame, ..s }),
        idle_ticks(s, frame, count).read == s.read,
        idle_ticks(s, frame, count).write == s.write,
        count > 0 ==> idle_ticks(s, frame, count).frame == frame + count - 1,
    decreases count,
{
    if count > 0 {
        lemma_paused_ticks_keep_cells(s, frame, (count - 1) as nat);
        let before = idle_ticks(s, frame, (count - 1) as nat);
        let now = (frame + count - 1) as u32;
        assert(tick_inputs(before, now, Seq::<InputEvent>::empty()) == (
            StateView { frame: now, ..before },
            Requests { exit: false, stamp: false },
        ));
    }
}

/// In a running tick the step evolves from what was written before it,
/// stamp included: a cell stamped in a tick takes part in the neighbour
/// counts of the same tick.
pub proof fn lemma_step_reads_the_stamp(s: StateView, frame: u32, events: Seq<InputEvent>)
    requires
        !tick_exits(s, frame, events),
        !tick_inputs(s, frame, events).0.pause,
    ensures
        ({
            let (handled, requests) = tick_inputs(s, frame, events);
            tick_state(s, frame, events).read == (if requests.stamp || handled.mouse_was_pressed {
                handled.stamp_selected().write
            } else {
                handled.write
            })
        }),
{
}

/// A tick brings in no birth frame but its own: where no cell was born after
/// the frame of a tick, none is when the tick is done. With frames that do
/// not run backwards, every live cell has an age in every tick.
pub proof fn lemma_tick_keeps_births(s: StateView, frame: u32, events: Seq<InputEvent>)
    requires
        s.wf(),
        s.births_by(frame),
    ensures
        tick_state(s, frame, events).wf(),
        tick_state(s, frame, events).births_by(frame),
{
    let start = StateView { frame, ..s };
    let nothing = Requests { exit: false, stamp: false };
    let (handled, requests) = tick_inputs(s, frame, events);
    lemma_events_keep_grid(start, nothing, events);
    lemma_events_keep_wf(start, nothing, events);
    lemma_events_keep_births(start, nothing, events, frame);
    let stamped = if requests.stamp || handled.mouse_was_pressed {
        handled.stamp_selected()
    } else {
        handled
    };
    lemma_stamp_keeps_births(
        handled,
        catalog(handled.selected_pattern as int),
        handled.cursor_cell().0,
        handled.cursor_cell().1,
        rotation_signs(handled.selected_rotation as int),
        frame,
        frame,
    );
    lemma_births_kept(stamped, frame);
    lemma_step_keeps_births(stamped.swapped(), frame, frame);
}

/// No tick changes the size of the grid or of its cells.
pub proof fn lemma_tick_keeps_size(s: StateView, frame: u32, events: Seq<InputEvent>)
    ensures
        tick_state(s, frame, events).width == s.width,
        tick_state(s, frame, events).height == s.height,
        tick_state(s, frame, events).cell_size == s.cell_size,
        tick_state(s, frame, events).frame == frame,
{
    lemma_events_keep_grid(
        StateView { frame, ..s },
        Requests { exit: false, stamp: false },
        events,
    );
}

} // verus!
