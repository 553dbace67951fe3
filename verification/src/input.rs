//! Input events and what each of them does to the state.

use vstd::prelude::*;
use crate::grid::{clear_generation, GameState, StateView};
use crate::pattern::ROTATION_COUNT;

verus! {

/// The keys that mean something, and one variant for all the others.
#[derive(Clone, Copy, Debug, PartialEq, Eq)]
pub enum Key {
    Escape,
    Num1,
    Num2,
    Num3,
    Backspace,
    P,
    R,
    Other,
}

/// The two buttons that mean something, and one variant for all the others.
#[derive(Clone, Copy, Debug, PartialEq, Eq)]
pub enum MouseButton {
    Left,
    Right,
    Other,
}

/// An input event, as captured before the tick that consumes it. Positions
/// are in pixels.
#[derive(Clone, Copy, Debug, PartialEq, Eq)]
pub enum InputEvent {
    Quit,
    KeyDown { key: Key },
    MouseMotion { x: i32, y: i32 },
    MouseButtonDown { x: i32, y: i32, button: MouseButton },
    MouseButtonUp { x: i32, y: i32, button: MouseButton },
    Other,
}

/// What the events of one tick have asked for and the state does not keep.
#[derive(Clone, Copy, Debug)]
pub struct Requests {
    /// The program is to end.
    pub exit: bool,
    /// The selected pattern is to be stamped in this tick.
    pub stamp: bool,
}

/// A signed pixel coordinate as the unsigned number with the same bits: a
/// negative coordinate becomes a large one, far outside every window.
pub open spec fn pointer_coordinate(v: i32) -> u32 {
    if v >= 0 {
        v as u32
    } else {
        (v + 0x1_0000_0000) as u32
    }
}

/// The state and the requests after one event. A button that goes down or
/// up records the pointer's position. Going down, the primary button asks for
/// a stamp in this tick and the secondary button sets the sticky flag; going
/// up, the secondary button flips the sticky flag. Neither button takes away
/// what the other has set.
pub open spec fn after_event(s: StateView, r: Requests, event: InputEvent) -> (
    StateView,
    Requests,
) {
    match event {
        InputEvent::Quit => (s, Requests { exit: true, ..r }),
        InputEvent::KeyDown { key } => match key {
            Key::Escape => (s, Requests { exit: true, ..r }),
            Key::Num1 => (StateView { selected_pattern: 0, ..s }, r),
            Key::Num2 => (StateView { selected_pattern: 1, ..s }, r),
            Key::Num3 => (StateView { selected_pattern: 2, ..s }, r),
            Key::Backspace => (s.cleared(), r),
            Key::P => (StateView { pause: !s.pause, ..s }, r),
            Key::R => (
                StateView {
                    selected_rotation: ((s.selected_rotation + 1) % 4) as usize,
                    ..s
                },
                r,
            ),
            Key::Other => (s, r),
        },
        InputEvent::MouseMotion { x, y } => (
            StateView { mouse_position: (pointer_coordinate(x), pointer_coordinate(y)), ..s },
            r,
        ),
        InputEvent::MouseButtonDown { x, y, button } => (
            StateView {
                mouse_position: (pointer_coordinate(x), pointer_coordinate(y)),
                mouse_was_pressed: s.mouse_was_pressed || button is Right,
                ..s
            },
            Requests { stamp: r.stamp || button is Left, ..r },
        ),
        InputEvent::MouseButtonUp { x, y, button } => (
            StateView {
                mouse_position: (pointer_coordinate(x), pointer_coordinate(y)),
                mouse_was_pressed: s.mouse_was_pressed != (button is Right),
                ..s
            },
            r,
        ),
        InputEvent::Other => (s, r),
    }
}

/// The state and the requests after a sequence of events, first to last.
pub open spec fn after_events(s: StateView, r: Requests, events: Seq<InputEvent>) -> (
    StateView,
    Requests,
)
    decreases events.len(),
{
    if events.len() == 0 {
        (s, r)
    } else {
        let before = after_events(s, r, events.drop_last());
        after_event(before.0, before.1, events.last())
    }
}

/// No event changes the frame counter, the size of the grid or of its
/// cells, or the generation that is evolved from.
pub proof fn lemma_events_keep_grid(s: StateView, r: Requests, events: Seq<InputEvent>)
    ensures
        after_events(s, r, events).0.frame == s.frame,
        after_events(s, r, events).0.width == s.width,
        after_events(s, r, events).0.height == s.height,
        after_events(s, r, events).0.cell_size == s.cell_size,
        after_events(s, r, events).0.read == s.read,
    decreases events.len(),
{
    if events.len() > 0 {
        lemma_events_keep_grid(s, r, events.drop_last());
    }
}

/// Every event keeps the state well formed.
pub proof fn lemma_events_keep_wf(s: StateView, r: Requests, events: Seq<InputEvent>)
    requires
        s.wf(),
    ensures
        after_events(s, r, events).0.wf(),
    decreases events.len(),
{
    if events.len() > 0 {
        lemma_events_keep_wf(s, r, events.drop_last());
    }
}

/// No event brings in a birth frame.
pub proof fn lemma_events_keep_births(
    s: StateView,
    r: Requests,
    events: Seq<InputEvent>,
    frame: u32,
)
    requires
        s.births_by(frame),
    ensures
        after_events(s, r, events).0.births_by(frame),
    decreases events.len(),
{
    if events.len() > 0 {
        lemma_events_keep_births(s, r, events.drop_last(), frame);
    }
}

/// Reinterprets a signed pixel coordinate as an unsigned one.
pub fn pointer_to_unsigned(v: i32) -> (u: u32)
    ensures
        u == pointer_coordinate(v),
{
    assert(v >= 0 ==> v as u32 == v) by (bit_vector);
    assert(v < 0 ==> v as u32 == v + 0x1_0000_0000) by (bit_vector);
    v as u32
}

/// Applies one event to the state and the requests of the running tick.
pub fn handle_event(state: &mut GameState, requests: &mut Requests, event: &InputEvent)
    requires
        old(state).wf(),
    ensures
        final(state).wf(),
        (final(state)@, *final(requests)) == after_event(old(state)@, *old(requests), *event),
{
    match event {
        InputEvent::Quit => {
            requests.exit = true;
        },
        InputEvent::KeyDown { key } => match key {
            Key::Escape => {
                requests.exit = true;
            },
            Key::Num1 => {
                state.selected_pattern_number = 0;
            },
            Key::Num2 => {
                state.selected_pattern_number = 1;
            },
            Key::Num3 => {
                state.selected_pattern_number = 2;
            },
            Key::Backspace => {
                clear_generation(state);
            },
            Key::P => {
                state.pause = !state.pause;
            },
            Key::R => {
                state.selected_rotation_number = (state.selected_rotation_number + 1)
                    % ROTATION_COUNT;
            },
            Key::Other => {},
        },
        InputEvent::MouseMotion { x, y } => {
            state.mouse_position = (pointer_to_unsigned(*x), pointer_to_unsigned(*y));
        },
        InputEvent::MouseButtonDown { x, y, button } => {
            state.mouse_position = (pointer_to_unsigned(*x), pointer_to_unsigned(*y));
            requests.stamp = requests.stamp || matches!(button, MouseButton::Left);
            state.mouse_was_pressed = state.mouse_was_pressed
                || matches!(button, MouseButton::Right);
        },
        InputEvent::MouseButtonUp { x, y, button } => {
            state.mouse_position = (pointer_to_unsigned(*x), pointer_to_unsigned(*y));
            state.mouse_was_pressed = state.mouse_was_pressed ^ matches!(button, MouseButton::Right);
        },
        InputEvent::Other => {},
    }
}

/// Applies the events of a tick in their order.
pub fn handle_events(state: &mut GameState, requests: &mut Requests, events: &[InputEvent])
    requires
        old(state).wf(),
    ensures
        final(state).wf(),
        (final(state)@, *final(requests)) == after_events(old(state)@, *old(requests), events@),
{
    let ghost start = state@;
    let ghost asked = *requests;
    let count: usize = events.len();
    let mut i: usize = 0;
    while i < count
        invariant
            state.wf(),
            count == events@.len(),
            i <= count,
            (state@, *requests) == after_events(start, asked, events@.take(i as int)),
        decreases count - i,
    {
        proof {
            assert(events@.take(i + 1).drop_last() =~= events@.take(i as int));
            assert(events@.take(i + 1).last() == events@[i as int]);
        }
        handle_event(state, requests, &events[i]);
        i = i + 1;
    }
    proof {
        assert(events@.take(count as int) =~= events@);
    }
}

} // verus!
