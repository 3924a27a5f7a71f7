//! The three stages in a row: what holds of a key's way from the parser
//! through the checker to the display.

use crate::checker::{
    control_for, cursor_stays_in_text, position_after, replay, stop_ends_the_run,
    stop_event_halts, well_placed, Control,
};
use crate::parser::{events_of_all, interrupt_is_last_event, interrupted, Key, Parsed};
use crate::renderer::{
    all_drawable, drawable, ends_with, head_stays_on_screen, rendered, stop_restores_terminal,
    window_after, window_ok, Window,
};
use crate::source::indexable;
use crate::terminal::restore_sequence;
use vstd::prelude::*;

verus! {

/// The display follows the cursor: while the window's head is the cursor's
/// row, it is so again after any event, whether or not the event gives an
/// instruction.
pub proof fn head_follows_cursor(
    text: Seq<Seq<char>>,
    at: (usize, usize),
    w: Window,
    event: Parsed,
)
    requires
        indexable(text),
        well_placed(text, at),
        w.head == at.0,
    ensures
        match control_for(text, at, event) {
            Some(control) => window_after(w, control).head == position_after(text, at, event).0,
            None => position_after(text, at, event).0 == w.head,
        },
{
}

/// Every instruction that the checker gives can be carried out by a display
/// that shows the cursor's row, as long as the columns of the text can be
/// counted on by one.
pub proof fn session_is_drawable(
    text: Seq<Seq<char>>,
    at: (usize, usize),
    w: Window,
    event: Parsed,
)
    requires
        indexable(text),
        well_placed(text, at),
        window_ok(w),
        w.head == at.0,
        forall|row: int| 0 <= row < text.len() ==> (#[trigger] text[row]).len() < usize::MAX,
    ensures
        match control_for(text, at, event) {
            Some(control) => drawable(text, w, control),
            None => true,
        },
{
    match control_for(text, at, event) {
        Some(Control::Previous(None, (row, column))) => {
            assert(text[at.0 - 1].len() < usize::MAX);
        },
        _ => {},
    }
}

/// The display can carry out the checker's whole answer to any run of
/// events, if both start in step and the columns of the text can be counted
/// on by one: in a session no instruction is ever refused.
pub proof fn replay_is_drawable(
    text: Seq<Seq<char>>,
    at: (usize, usize),
    w: Window,
    events: Seq<Parsed>,
)
    requires
        indexable(text),
        well_placed(text, at),
        window_ok(w),
        w.head == at.0,
        forall|row: int| 0 <= row < text.len() ==> (#[trigger] text[row]).len() < usize::MAX,
    ensures
        all_drawable(text, w, replay(text, at, events).controls),
    decreases events.len(),
{
    if events.len() > 0 {
        let control = control_for(text, at, events[0]);
        session_is_drawable(text, at, w, events[0]);
        if control != Some(Control::Stop) {
            let then = position_after(text, at, events[0]);
            cursor_stays_in_text(text, at, events[0]);
            head_follows_cursor(text, at, w, events[0]);
            let rest = replay(text, then, events.drop_first()).controls;
            match control {
                Some(c) => {
                    head_stays_on_screen(w, c);
                    replay_is_drawable(text, then, window_after(w, c), events.drop_first());
                    assert((seq![c] + rest)[0] == c);
                    assert((seq![c] + rest).drop_first() =~= rest);
                },
                None => {
                    replay_is_drawable(text, then, w, events.drop_first());
                },
            }
        }
    }
}

/// The interrupt ends the session in every stage, whenever it comes: the
/// parser's events end in `Stop`, the checker halts with `Stop` as its last
/// instruction, and the display stops after the sequence that restores the
/// terminal.
pub proof fn interrupt_restores_terminal(
    text: Seq<Seq<char>>,
    at: (usize, usize),
    w: Window,
    keys: Seq<Key>,
)
    requires
        interrupted(keys),
    ensures
        ({
            let events = events_of_all(keys);
            let trace = replay(text, at, events);
            let screen = rendered(text, w, trace.controls);
            &&& events.last() == Parsed::Stop
            &&& trace.halted
            &&& trace.controls.last() == Control::Stop
            &&& screen.stopped
            &&& ends_with(screen.output, restore_sequence())
        }),
{
    let events = events_of_all(keys);
    interrupt_is_last_event(keys);
    stop_event_halts(text, at, events);
    stop_ends_the_run(text, at, events);
    stop_restores_terminal(text, w, replay(text, at, events).controls);
}

} // verus!
