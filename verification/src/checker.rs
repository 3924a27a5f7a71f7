//! The checking stage: a cursor over the reference text, moved by edit events,
//! and the render instruction that each move gives.

use crate::parser::Parsed;
use crate::source::{char_at, indexable, Source};
use std::sync::Arc;
use vstd::prelude::*;

verus! {

/// A render instruction: what the display has to show after an edit event.
#[derive(Debug, Clone, Copy, PartialEq, Eq)]
pub enum Control {
    /// A step back to the given position. It carries the character that
    /// stands there, or nothing where the step went over a line break.
    Previous(Option<char>, (usize, usize)),
    /// A step forward to the given position. It carries the expected
    /// character, `Ok` where the typed one was equal and `Err` where it was
    /// not, or nothing where the step went over a line break.
    Next(Option<Result<char, char>>, (usize, usize)),
    Stop,
}

/// A position that a cursor can have in `text`: on a character, just behind
/// the last character of a line, or at the origin of a text without lines.
pub open spec fn well_placed(text: Seq<Seq<char>>, at: (usize, usize)) -> bool {
    ||| at.0 < text.len() && at.1 <= text[at.0 as int].len()
    ||| text.len() == 0 && at.0 == 0 && at.1 == 0
}

/// The position one step forward of `at`: the next column while the line has
/// a character at `at`, else the start of the next line, else none.
pub open spec fn advanced(text: Seq<Seq<char>>, at: (usize, usize)) -> Option<(usize, usize)> {
    if char_at(text, at.0 as int, at.1 as int) is Some {
        Some((at.0, (at.1 + 1) as usize))
    } else if at.0 + 1 < text.len() {
        Some(((at.0 + 1) as usize, 0usize))
    } else {
        None
    }
}

/// The position one step back of `at`: the column before, else the end of
/// the line before, else none.
pub open spec fn rewound(text: Seq<Seq<char>>, at: (usize, usize)) -> Option<(usize, usize)> {
    if at.1 > 0 {
        Some((at.0, (at.1 - 1) as usize))
    } else if at.0 > 0 {
        Some(((at.0 - 1) as usize, text[at.0 - 1].len() as usize))
    } else {
        None
    }
}

/// The character that a step back from `at` uncovers: none where the step
/// goes over a line break or cannot be made.
pub open spec fn uncovered(text: Seq<Seq<char>>, at: (usize, usize)) -> Option<char> {
    if at.1 > 0 {
        char_at(text, at.0 as int, at.1 - 1)
    } else {
        None
    }
}

/// A rewindable position in a shared text.
pub struct Cursor<S: Source> {
    source: Arc<S>,
    cursor: (usize, usize),
}

impl<S: Source> Cursor<S> {
    /// The text that the cursor walks.
    pub closed spec fn text(&self) -> Seq<Seq<char>> {
        self.source.text()
    }

    /// Row and column of the next character to compare.
    pub closed spec fn at(&self) -> (usize, usize) {
        self.cursor
    }

    /// The cursor stands at a position of its text.
    pub open spec fn wf(&self) -> bool {
        well_placed(self.text(), self.at())
    }

    /// A cursor at the origin of `source`.
    pub fn new(source: Arc<S>) -> (cursor: Cursor<S>)
        ensures
            cursor.text() == source.text(),
            cursor.at() == (0usize, 0usize),
            cursor.wf(),
    {
        Cursor { cursor: (0, 0), source }
    }

    pub fn position(&self) -> (at: (usize, usize))
        ensures
            at == self.at(),
    {
        self.cursor
    }

    /// Steps forward. Returns the character that stood at the old position,
    /// if any, and the new position; `(None, None)` at the end of the text,
    /// where the cursor stays.
    pub fn next(&mut self) -> (step: (Option<char>, Option<(usize, usize)>))
        requires
            old(self).wf(),
        ensures
            final(self).text() == old(self).text(),
            step.0 == char_at(old(self).text(), old(self).at().0 as int, old(self).at().1 as int),
            step.1 == advanced(old(self).text(), old(self).at()),
            final(self).at() == match step.1 {
                Some(at) => at,
                None => old(self).at(),
            },
            final(self).wf(),
    {
        let (row, column) = self.cursor;
        proof {
            self.source.lemma_text_fits();
        }
        let symbol = self.source.get_char(row, column);
        if let Some(symbol) = symbol {
            self.cursor = (row, column + 1);
            return (Some(*symbol), Some(self.cursor));
        }
        // No characters left in the current line.

        if self.source.get_line(row + 1).is_some() {
            self.cursor = (row + 1, 0);
            return (None, Some(self.cursor));
        }
        // End of the text.

        (None, None)
    }

    /// Steps back. Returns the character at the new position, if the step
    /// stayed in its line, and the new position; `(None, None)` at the
    /// origin, where the cursor stays.
    pub fn prev(&mut self) -> (step: (Option<char>, Option<(usize, usize)>))
        requires
            old(self).wf(),
        ensures
            final(self).text() == old(self).text(),
            step.0 == uncovered(old(self).text(), old(self).at()),
            step.1 == rewound(old(self).text(), old(self).at()),
            final(self).at() == match step.1 {
                Some(at) => at,
                None => old(self).at(),
            },
            old(self).at() == (0usize, 0usize) ==> step == (None::<char>, None::<(usize, usize)>)
                && final(self).at() == old(self).at(),
            final(self).wf(),
    {
        let (row, column) = self.cursor;
        // There are still preceding characters.
        if column > 0 {
            let symbol = *self.source.get_char(row, column - 1).expect("Checker cursor desync");
            self.cursor = (row, column - 1);
            return (Some(symbol), Some(self.cursor));
        }
        // There are still preceding lines.

        if row > 0 {
            let line = self.source.get_line(row - 1).expect("Overflow on the lines previous");
            let length = line.len();
            // The spot at the end of the line before is that of its line
            // break, which is no character.
            self.cursor = (row - 1, length);
            return (None, Some(self.cursor));
        }
        // The origin of the text.

        (None, None)
    }
}


/// The instruction that an event gives at position `at`.
///
/// A typed symbol is compared with the character at `at` and the cursor moves
/// on, whether or not they are equal. At the end of a line only the line feed
/// is taken; any other symbol is refused and gives no instruction. A symbol
/// typed at the end of the text ends the session.
pub open spec fn control_for(text: Seq<Seq<char>>, at: (usize, usize), event: Parsed) -> Option<
    Control,
> {
    match event {
        Parsed::Stop => Some(Control::Stop),
        Parsed::Backspace => match rewound(text, at) {
            Some(to) => Some(Control::Previous(uncovered(text, at), to)),
            None => None,
        },
        Parsed::Symbol(typed) => match advanced(text, at) {
            Some(to) => match char_at(text, at.0 as int, at.1 as int) {
                Some(expected) => if expected == typed {
                    Some(Control::Next(Some(Ok(expected)), to))
                } else {
                    Some(Control::Next(Some(Err(expected)), to))
                },
                None => if typed == '\n' {
                    Some(Control::Next(None, to))
                } else {
                    None
                },
            },
            None => Some(Control::Stop),
        },
    }
}

/// Where the cursor stands after an event at position `at`.
pub open spec fn position_after(text: Seq<Seq<char>>, at: (usize, usize), event: Parsed) -> (
    usize,
    usize,
) {
    match event {
        Parsed::Stop => at,
        Parsed::Backspace => match rewound(text, at) {
            Some(to) => to,
            None => at,
        },
        Parsed::Symbol(typed) => match advanced(text, at) {
            Some(to) => if char_at(text, at.0 as int, at.1 as int) is Some || typed == '\n' {
                to
            } else {
                at
            },
            None => at,
        },
    }
}

/// Whether an event at position `at` tells the input stage that the text is
/// done: a symbol typed at the end of the text does.
pub open spec fn signals_done(text: Seq<Seq<char>>, at: (usize, usize), event: Parsed) -> bool {
    event is Symbol && advanced(text, at) is None
}

/// What the checker hands on after one event.
#[derive(Debug, Clone, Copy, PartialEq, Eq)]
pub struct Reaction {
    /// The instruction for the display, if the event gives one.
    pub control: Option<Control>,
    /// Whether the input stage is to be told that the text is done.
    pub done: bool,
}

/// What the checker hands on over a run of events.
#[derive(Debug, PartialEq, Eq)]
pub struct Outcome {
    /// The instructions for the display, in order.
    pub controls: Vec<Control>,
    /// How often the input stage was told that the text is done.
    pub completions: usize,
}

/// A run of events as the checker answers it.
pub struct Trace {
    pub controls: Seq<Control>,
    pub completions: nat,
    pub at: (usize, usize),
    pub halted: bool,
}

/// The answer to `events`, taken in order from position `at`. The first
/// event that gives `Stop` ends the run: nothing after it is looked at.
pub open spec fn replay(text: Seq<Seq<char>>, at: (usize, usize), events: Seq<Parsed>) -> Trace
    decreases events.len(),
{
    if events.len() == 0 {
        Trace { controls: Seq::empty(), completions: 0, at, halted: false }
    } else {
        let control = control_for(text, at, events[0]);
        if control == Some(Control::Stop) {
            Trace {
                controls: seq![Control::Stop],
                completions: if signals_done(text, at, events[0]) {
                    1
                } else {
                    0
                },
                at,
                halted: true,
            }
        } else {
            let rest = replay(text, position_after(text, at, events[0]), events.drop_first());
            Trace {
                controls: match control {
                    Some(c) => seq![c] + rest.controls,
                    None => rest.controls,
                },
                completions: rest.completions,
                at: rest.at,
                halted: rest.halted,
            }
        }
    }
}

/// The checking stage: a cursor, and whether the session has ended.
pub struct Checker<S: Source> {
    cursor: Cursor<S>,
    halted: bool,
}

impl<S: Source> Checker<S> {
    pub closed spec fn text(&self) -> Seq<Seq<char>> {
        self.cursor.text()
    }

    pub closed spec fn at(&self) -> (usize, usize) {
        self.cursor.at()
    }

    /// Whether the checker has sent `Stop`. From then on it takes no event.
    pub closed spec fn halted(&self) -> bool {
        self.halted
    }

    pub open spec fn wf(&self) -> bool {
        well_placed(self.text(), self.at())
    }

    /// A checker at the origin of `source`.
    pub fn new(source: Arc<S>) -> (checker: Checker<S>)
        ensures
            checker.text() == source.text(),
            checker.at() == (0usize, 0usize),
            !checker.halted(),
            checker.wf(),
    {
        let cursor = Cursor::new(source);
        Checker { cursor, halted: false }
    }

    pub fn position(&self) -> (at: (usize, usize))
        ensures
            at == self.at(),
    {
        self.cursor.position()
    }

    pub fn is_halted(&self) -> (halted: bool)
        ensures
            halted == self.halted(),
    {
        self.halted
    }

    /// Takes one event: moves the cursor and says what to hand on. A halted
    /// checker does nothing.
    pub fn step(&mut self, event: Parsed) -> (reaction: Reaction)
        requires
            old(self).wf(),
        ensures
            final(self).text() == old(self).text(),
            final(self).wf(),
            old(self).halted() ==> {
                &&& reaction == (Reaction { control: None, done: false })
                &&& final(self).at() == old(self).at()
                &&& final(self).halted()
            },
            !old(self).halted() ==> {
                &&& reaction.control == control_for(old(self).text(), old(self).at(), event)
                &&& reaction.done == signals_done(old(self).text(), old(self).at(), event)
                &&& final(self).at() == position_after(old(self).text(), old(self).at(), event)
                &&& final(self).halted() == (reaction.control == Some(Control::Stop))
            },
            event == Parsed::Backspace && old(self).at() == (0usize, 0usize)
                ==> reaction.control is None && final(self).at() == old(self).at(),
    {
        if self.halted {
            return Reaction { control: None, done: false };
        }
        proof {
            self.cursor.source.lemma_text_fits();
        }
        match event {
            Parsed::Stop => {
                self.halted = true;
                Reaction { control: Some(Control::Stop), done: false }
            },
            Parsed::Backspace => match self.cursor.prev() {
                (Some(source_symbol), Some((row, column))) => Reaction {
                    control: Some(Control::Previous(Some(source_symbol), (row, column))),
                    done: false,
                },
                (None, Some((row, column))) => Reaction {
                    control: Some(Control::Previous(None, (row, column))),
                    done: false,
                },
                // The origin of the text: a backspace does nothing.
                _ => Reaction { control: None, done: false },
            },
            Parsed::Symbol(symbol) => match self.cursor.next() {
                (Some(source_symbol), Some((row, column))) => {
                    if source_symbol == symbol {
                        Reaction {
                            control: Some(Control::Next(Some(Ok(source_symbol)), (row, column))),
                            done: false,
                        }
                    } else {
                        Reaction {
                            control: Some(Control::Next(Some(Err(source_symbol)), (row, column))),
                            done: false,
                        }
                    }
                },
                (None, Some((row, column))) => {
                    if symbol == '\n' {
                        Reaction { control: Some(Control::Next(None, (row, column))), done: false }
                    } else {
                        // The end of a line takes the line feed only: step
                        // back to where the cursor stood.
                        self.cursor.prev();
                        Reaction { control: None, done: false }
                    }
                },
                (None, None) => {
                    self.halted = true;
                    Reaction { control: Some(Control::Stop), done: true }
                },
                _ => Reaction { control: None, done: false },
            },
        }
    }

    /// Takes a run of events in order, up to the first that ends the session.
    pub fn run(&mut self, events: &Vec<Parsed>) -> (outcome: Outcome)
        requires
            old(self).wf(),
        ensures
            final(self).text() == old(self).text(),
            final(self).wf(),
            old(self).halted() ==> {
                &&& outcome.controls@ == Seq::<Control>::empty()
                &&& outcome.completions == 0
                &&& final(self).at() == old(self).at()
                &&& final(self).halted()
            },
            !old(self).halted() ==> {
                let trace = replay(old(self).text(), old(self).at(), events@);
                &&& outcome.controls@ == trace.controls
                &&& outcome.completions == trace.completions
                &&& final(self).at() == trace.at
                &&& final(self).halted() == trace.halted
            },
    {
        let mut controls: Vec<Control> = Vec::new();
        let mut completions: usize = 0;
        if self.halted {
            return Outcome { controls, completions };
        }
        let ghost whole = replay(self.text(), self.at(), events@);
        let mut i: usize = 0;
        assert(events@.skip(0) =~= events@);
        assert(controls@ + whole.controls =~= whole.controls);
        while i < events.len() && !self.halted
            invariant
                i <= events.len(),
                self.wf(),
                self.text() == old(self).text(),
                whole == replay(old(self).text(), old(self).at(), events@),
                completions <= 1,
                !self.halted() ==> {
                    let rest = replay(self.text(), self.at(), events@.skip(i as int));
                    &&& whole.controls == controls@ + rest.controls
                    &&& whole.completions == rest.completions
                    &&& whole.at == rest.at
                    &&& whole.halted == rest.halted
                    &&& completions == 0
                },
                self.halted() ==> {
                    &&& whole.controls == controls@
                    &&& whole.completions == completions
                    &&& whole.at == self.at()
                    &&& whole.halted
                },
            decreases events.len() - i,
        {
            let ghost rest = events@.skip(i as int);
            let ghost before = controls@;
            let ghost at = self.at();
            let reaction = self.step(events[i]);
            proof {
                assert(rest[0] == events@[i as int]);
                assert(rest.drop_first() =~= events@.skip(i + 1));
                let tail = replay(self.text(), self.at(), events@.skip(i + 1));
                match reaction.control {
                    Some(c) => {
                        if c == Control::Stop {
                            assert(before + seq![c] =~= before.push(c));
                        } else {
                            assert(before + (seq![c] + tail.controls) =~= before.push(c)
                                + tail.controls);
                        }
                    },
                    None => {},
                }
            }
            if let Some(control) = reaction.control {
                controls.push(control);
            }
            if reaction.done {
                completions += 1;
            }
            i += 1;
        }
        proof {
            if !self.halted() {
                assert(events@.skip(i as int).len() == 0);
                assert(controls@ + Seq::<Control>::empty() =~= controls@);
            }
        }
        Outcome { controls, completions }
    }
}


/// The character that has to be typed at `at`: the one that stands there,
/// or the line feed at the end of a line.
pub open spec fn expected_at(text: Seq<Seq<char>>, at: (usize, usize)) -> char {
    match char_at(text, at.0 as int, at.1 as int) {
        Some(c) => c,
        None => '\n',
    }
}

/// A run of events can be answered in two parts: the answer to the whole
/// run is the answer to its first part, followed, unless that ended the
/// session, by the answer to the rest from where the first part left the
/// cursor. So the state after any number of events is the one that a replay
/// of them from the start gives.
pub proof fn replay_in_parts(
    text: Seq<Seq<char>>,
    at: (usize, usize),
    first: Seq<Parsed>,
    second: Seq<Parsed>,
)
    ensures
        ({
            let whole = replay(text, at, first + second);
            let head = replay(text, at, first);
            let tail = replay(text, head.at, second);
            if head.halted {
                &&& whole.controls == head.controls
                &&& whole.completions == head.completions
                &&& whole.at == head.at
                &&& whole.halted
            } else {
                &&& whole.controls == head.controls + tail.controls
                &&& whole.completions == tail.completions
                &&& head.completions == 0
                &&& whole.at == tail.at
                &&& whole.halted == tail.halted
            }
        }),
    decreases first.len(),
{
    let all = first + second;
    if first.len() == 0 {
        assert(all =~= second);
        assert(Seq::<Control>::empty() + replay(text, at, second).controls =~= replay(
            text,
            at,
            second,
        ).controls);
    } else {
        assert(all[0] == first[0]);
        assert(all.drop_first() =~= first.drop_first() + second);
        let control = control_for(text, at, first[0]);
        if control != Some(Control::Stop) {
            let then = position_after(text, at, first[0]);
            replay_in_parts(text, then, first.drop_first(), second);
            let head = replay(text, then, first.drop_first());
            if !head.halted {
                let tail = replay(text, head.at, second);
                match control {
                    Some(c) => {
                        assert(seq![c] + (head.controls + tail.controls) =~= (seq![c]
                            + head.controls) + tail.controls);
                    },
                    None => {},
                }
            }
        }
    }
}

/// `Stop` is sent at most once, as the last instruction of a run, and the
/// input stage is told at most once that the text is done, and only by a
/// run that ends with `Stop`.
pub proof fn stop_ends_the_run(text: Seq<Seq<char>>, at: (usize, usize), events: Seq<Parsed>)
    ensures
        ({
            let trace = replay(text, at, events);
            &&& forall|i: int|
                0 <= i < trace.controls.len() && trace.controls[i] == Control::Stop ==> i
                    == trace.controls.len() - 1
            &&& trace.halted == (trace.controls.len() > 0 && trace.controls.last()
                == Control::Stop)
            &&& trace.completions <= 1
            &&& trace.completions == 1 ==> trace.halted
        }),
    decreases events.len(),
{
    if events.len() > 0 {
        let control = control_for(text, at, events[0]);
        if control != Some(Control::Stop) {
            stop_ends_the_run(text, position_after(text, at, events[0]), events.drop_first());
        }
    }
}

/// Whatever the event, the cursor stays at a position of the text.
pub proof fn cursor_stays_in_text(text: Seq<Seq<char>>, at: (usize, usize), event: Parsed)
    requires
        indexable(text),
        well_placed(text, at),
    ensures
        well_placed(text, position_after(text, at, event)),
{
}

/// A backspace followed by the character that has to be typed at the place
/// it went back to brings the cursor to where it was, and that character is
/// taken as right. The origin is left out: a backspace does nothing there.
pub proof fn retyping_undoes_backspace(text: Seq<Seq<char>>, at: (usize, usize))
    requires
        indexable(text),
        well_placed(text, at),
        at != (0usize, 0usize),
    ensures
        ({
            let back = position_after(text, at, Parsed::Backspace);
            let typed = Parsed::Symbol(expected_at(text, back));
            &&& well_placed(text, back)
            &&& back != at
            &&& position_after(text, back, typed) == at
            &&& control_for(text, back, typed) == Some(
                Control::Next(
                    match char_at(text, back.0 as int, back.1 as int) {
                        Some(c) => Some(Ok(c)),
                        None => None,
                    },
                    at,
                ),
            )
        }),
{
}

/// A backspace at the origin gives no instruction and leaves the cursor
/// where it is.
pub proof fn backspace_at_origin(text: Seq<Seq<char>>)
    ensures
        control_for(text, (0usize, 0usize), Parsed::Backspace) is None,
        position_after(text, (0usize, 0usize), Parsed::Backspace) == (0usize, 0usize),
{
}

/// A symbol typed at the end of the text ends the session: it gives `Stop`,
/// tells the input stage once that the text is done, and nothing that
/// follows it is answered.
pub proof fn typing_past_the_end_stops(
    text: Seq<Seq<char>>,
    at: (usize, usize),
    typed: char,
    later: Seq<Parsed>,
)
    requires
        advanced(text, at) is None,
    ensures
        ({
            let trace = replay(text, at, seq![Parsed::Symbol(typed)] + later);
            &&& trace.controls == seq![Control::Stop]
            &&& trace.completions == 1
            &&& trace.halted
            &&& trace.at == at
        }),
{
    let events = seq![Parsed::Symbol(typed)] + later;
    assert(events[0] == Parsed::Symbol(typed));
}

/// A run of events that ends in `Stop` halts the checker, wherever the
/// cursor stands and whatever comes before.
pub proof fn stop_event_halts(text: Seq<Seq<char>>, at: (usize, usize), events: Seq<Parsed>)
    requires
        events.len() > 0,
        events.last() == Parsed::Stop,
    ensures
        replay(text, at, events).halted,
    decreases events.len(),
{
    if control_for(text, at, events[0]) != Some(Control::Stop) {
        let rest = events.drop_first();
        assert(rest.len() > 0);
        assert(rest.last() == events.last());
        stop_event_halts(text, position_after(text, at, events[0]), rest);
    }
}

} // verus!
