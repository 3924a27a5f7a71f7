//! The display stage: a window of screen rows over the reference text, and
//! the terminal output that each render instruction gives.

use crate::checker::Control;
use crate::source::{line_at, Source};
use crate::terminal::{
    ansi_goto, can_goto, clear_sequence, clear_text, failure_sequence, failure_text, goto_at,
    goto_defined, hide_sequence, hide_text, left_sequence, left_text, plain_sequence, plain_text,
    restore_sequence, restore_text, scroll_down_sequence, scroll_down_text, scroll_up_sequence,
    scroll_up_text, show_sequence, show_text, success_sequence, success_text,
    underline_sequence, underline_text,
};
use std::sync::Arc;
use vstd::prelude::*;
use vstd::string::StringExecFns;

verus! {

/// The rows of the text that the screen shows: `tail` is the row at the top
/// of the screen, `head` the row that the cursor is in, `size` the number of
/// screen rows in use.
#[derive(Debug, Clone, Copy, PartialEq, Eq)]
pub struct Window {
    pub head: usize,
    pub tail: usize,
    pub size: u16,
}

/// The head is on the screen: not above the tail, and fewer than `size` rows
/// below it. A screen without rows keeps head and tail together.
pub open spec fn window_ok(w: Window) -> bool {
    w.tail <= w.head && (w.head - w.tail < w.size || w.head == w.tail)
}

/// A step back over a line break has to bring an earlier line onto the
/// screen: the head is in the top row, and there is a row above it.
pub open spec fn scrolls_back(w: Window) -> bool {
    w.head > 0 && w.tail > 0 && w.head == w.tail
}

/// A step forward over a line break has to bring a later line onto the
/// screen: the head is in the last row.
pub open spec fn at_bottom(w: Window) -> bool {
    w.head + 1 - w.tail >= w.size
}

/// The screen row of a row of the text.
pub open spec fn screen_row(w: Window, row: usize) -> usize {
    if row >= w.tail {
        (row - w.tail) as usize
    } else {
        row
    }
}

/// The window after an instruction. Only a step over a line break moves it:
/// the whole window where the head is at its edge, else the head alone.
pub open spec fn window_after(w: Window, control: Control) -> Window {
    match control {
        Control::Previous(None, _) => if scrolls_back(w) {
            Window { head: (w.head - 1) as usize, tail: (w.tail - 1) as usize, size: w.size }
        } else if w.head > 0 {
            Window { head: (w.head - 1) as usize, tail: w.tail, size: w.size }
        } else {
            w
        },
        Control::Next(None, _) => if at_bottom(w) {
            Window { head: (w.head + 1) as usize, tail: (w.tail + 1) as usize, size: w.size }
        } else {
            Window { head: (w.head + 1) as usize, tail: w.tail, size: w.size }
        },
        _ => w,
    }
}

/// The absolute difference of two indices.
pub fn absolute_difference(a: usize, b: usize) -> (d: u32)
    requires
        a - b <= u32::MAX,
        b - a <= u32::MAX,
    ensures
        d == if a >= b {
            a - b
        } else {
            b - a
        },
{
    if a >= b {
        (a - b) as u32
    } else {
        (b - a) as u32
    }
}

/// The window of the display, with the text that it shows.
pub struct Cursor<S: Source> {
    head: usize,
    tail: usize,
    window_size: u16,
    source: Arc<S>,
}

impl<S: Source> Cursor<S> {
    pub closed spec fn window(&self) -> Window {
        Window { head: self.head, tail: self.tail, size: self.window_size }
    }

    pub closed spec fn text(&self) -> Seq<Seq<char>> {
        self.source.text()
    }

    pub open spec fn wf(&self) -> bool {
        window_ok(self.window())
    }

    /// A window at the top of `source` for a terminal of `terminal_rows`
    /// rows. The last row of the terminal stays free.
    pub fn new(source: Arc<S>, terminal_rows: u16) -> (cursor: Cursor<S>)
        requires
            terminal_rows >= 1,
        ensures
            cursor.text() == source.text(),
            cursor.window() == (Window { head: 0, tail: 0, size: (terminal_rows - 1) as u16 }),
            cursor.wf(),
    {
        Cursor { head: 0, tail: 0, source, window_size: terminal_rows - 1 }
    }

    pub fn head(&self) -> (head: usize)
        ensures
            head == self.window().head,
    {
        self.head
    }

    pub fn tail(&self) -> (tail: usize)
        ensures
            tail == self.window().tail,
    {
        self.tail
    }

    pub fn window_size(&self) -> (size: u16)
        ensures
            size == self.window().size,
    {
        self.window_size
    }

    pub fn can_scroll_up(&self) -> (can: bool)
        requires
            self.wf(),
        ensures
            can == scrolls_back(self.window()),
    {
        self.head > 0 && self.tail > 0 && absolute_difference(self.head, self.tail) == 0
    }

    pub fn is_at_the_bottom_of_the_screen(&self) -> (is: bool)
        requires
            self.wf(),
            self.window().head < usize::MAX,
        ensures
            is == at_bottom(self.window()),
    {
        absolute_difference(self.head + 1, self.tail) as u16 >= self.window_size
    }

    /// Moves the head one row up within the window. At row 0 it stays.
    pub fn move_head_up(&mut self)
        ensures
            final(self).text() == old(self).text(),
            final(self).window() == (Window {
                head: if old(self).window().head > 0 {
                    (old(self).window().head - 1) as usize
                } else {
                    0
                },
                ..old(self).window()
            }),
            old(self).wf() && !scrolls_back(old(self).window()) ==> final(self).wf(),
    {
        if self.head.checked_sub(1).is_some() {
            self.head -= 1;
        };
    }

    /// Moves the whole window one row up, unless head or tail is at row 0.
    pub fn scroll_up(&mut self)
        ensures
            final(self).text() == old(self).text(),
            final(self).window() == if old(self).window().head > 0 && old(self).window().tail
                > 0 {
                Window {
                    head: (old(self).window().head - 1) as usize,
                    tail: (old(self).window().tail - 1) as usize,
                    size: old(self).window().size,
                }
            } else {
                old(self).window()
            },
            old(self).wf() ==> final(self).wf(),
    {
        match (self.head.checked_sub(1), self.tail.checked_sub(1)) {
            (Some(adjusted_head), Some(adjusted_tail)) => {
                self.head = adjusted_head;
                self.tail = adjusted_tail;
            },
            _ => (),
        }
    }

    /// Moves the head one row down within the window.
    pub fn move_head_down(&mut self)
        requires
            old(self).window().head < usize::MAX,
        ensures
            final(self).text() == old(self).text(),
            final(self).window() == (Window {
                head: (old(self).window().head + 1) as usize,
                ..old(self).window()
            }),
            old(self).wf() && !at_bottom(old(self).window()) ==> final(self).wf(),
    {
        self.head += 1;
    }

    /// Moves the whole window one row down.
    pub fn scroll_down(&mut self)
        requires
            old(self).window().head < usize::MAX,
            old(self).window().tail < usize::MAX,
        ensures
            final(self).text() == old(self).text(),
            final(self).window() == (Window {
                head: (old(self).window().head + 1) as usize,
                tail: (old(self).window().tail + 1) as usize,
                size: old(self).window().size,
            }),
            old(self).wf() ==> final(self).wf(),
    {
        self.head += 1;
        self.tail += 1;
    }

    /// Line `n` of the text as a string, if the text has that line.
    pub fn get_line(&self, n: usize) -> (line: Option<String>)
        ensures
            match line {
                Some(l) => line_at(self.text(), n as int) == Some(l@),
                None => line_at(self.text(), n as int) is None,
            },
    {
        match self.source.get_line(n) {
            Some(line) => {
                let mut acc = String::new();
                let mut i: usize = 0;
                while i < line.len()
                    invariant
                        i <= line.len(),
                        acc@ == line@.take(i as int),
                    decreases line.len() - i,
                {
                    acc.push(line[i]);
                    i += 1;
                    assert(acc@ =~= line@.take(i as int));
                }
                assert(acc@ =~= line@);
                Some(acc)
            },
            None => None,
        }
    }

    /// The line that the head is in.
    pub fn get_bottom_line(&self) -> (line: Option<String>)
        ensures
            match line {
                Some(l) => line_at(self.text(), self.window().head as int) == Some(l@),
                None => line_at(self.text(), self.window().head as int) is None,
            },
    {
        self.get_line(self.head)
    }

    /// The line in the top row of the screen.
    pub fn get_top_line(&self) -> (line: Option<String>)
        ensures
            match line {
                Some(l) => line_at(self.text(), self.window().tail as int) == Some(l@),
                None => line_at(self.text(), self.window().tail as int) is None,
            },
    {
        self.get_line(self.tail)
    }

    /// The screen row of a row of the text: the tail is the top of the
    /// screen. A row above the tail is handed back as it is.
    pub fn adjust_row(&self, row: usize) -> (adjusted: usize)
        ensures
            adjusted == screen_row(self.window(), row),
    {
        match row.checked_sub(self.tail) {
            Some(adjusted) => adjusted,
            None => row,
        }
    }
}


/// What goes to the terminal for a character typed right or wrong: the
/// colour, the expected character, and the terminal's own colour again.
pub open spec fn verdict(outcome: Result<char, char>) -> Seq<char> {
    match outcome {
        Ok(c) => success_sequence() + seq![c] + plain_sequence(),
        Err(c) => failure_sequence() + seq![c] + plain_sequence(),
    }
}

/// What goes to the terminal for an instruction, with the window as it was
/// before.
///
/// A step back within a line redraws the character it uncovers and leaves
/// the cursor before it. A step over a line break moves the cursor to its
/// new place; where the window has to follow, the screen scrolls by one row
/// and the line that comes in is drawn: the new top line after a step back,
/// the new bottom line after a step forward. If the text has no line for the
/// new bottom row, nothing is drawn.
pub open spec fn drawn(text: Seq<Seq<char>>, w: Window, control: Control) -> Seq<char> {
    let after = window_after(w, control);
    match control {
        Control::Stop => restore_sequence(),
        Control::Previous(Some(symbol), _) => left_sequence(1) + seq![symbol] + left_sequence(1),
        Control::Previous(None, (row, column)) => if scrolls_back(w) {
            scroll_down_sequence(1) + goto_at(0, 0) + text[after.tail as int] + goto_at(
                0,
                column as int,
            )
        } else {
            goto_at(screen_row(after, row) as int, column as int)
        },
        Control::Next(None, (row, column)) => if at_bottom(w) {
            match line_at(text, after.head as int) {
                Some(line) => scroll_up_sequence(1) + seq!['\r'] + line + goto_at(
                    screen_row(after, row) as int,
                    column as int,
                ),
                None => Seq::empty(),
            }
        } else {
            goto_at(screen_row(after, row) as int, column as int)
        },
        Control::Next(Some(outcome), _) => verdict(outcome),
    }
}

/// The instructions that the display can carry out with the window as it
/// is: the rows counted must not overflow, the place that a step over a
/// line break goes to must be one that the cursor can be sent to, and the
/// line that a step back scrolls in must be there.
pub open spec fn drawable(text: Seq<Seq<char>>, w: Window, control: Control) -> bool {
    let after = window_after(w, control);
    match control {
        Control::Previous(None, (row, column)) => if scrolls_back(w) {
            goto_defined(0, column) && w.tail - 1 < text.len()
        } else {
            goto_defined(screen_row(after, row), column)
        },
        Control::Next(None, (row, column)) => w.head < usize::MAX && (at_bottom(w) && line_at(
            text,
            after.head as int,
        ) is None || goto_defined(screen_row(after, row), column)),
        _ => true,
    }
}

/// The first `count` rows of the screen at the start: each line of the text
/// that there is, followed by carriage return and line feed.
pub open spec fn first_lines(text: Seq<Seq<char>>, count: nat) -> Seq<char>
    decreases count,
{
    if count == 0 {
        Seq::empty()
    } else {
        let row = (count - 1) as nat;
        first_lines(text, row) + match line_at(text, row as int) {
            Some(line) => line + seq!['\r', '\n'],
            None => Seq::empty(),
        }
    }
}

/// What goes to the terminal at the start: the screen is cleared, the first
/// lines of the text are written from the top while the cursor is hidden,
/// and the cursor is shown at the origin as a blinking underline.
pub open spec fn initial_screen(text: Seq<Seq<char>>, size: u16) -> Seq<char> {
    clear_sequence() + goto_at(0, 0) + hide_sequence() + first_lines(text, size as nat) + goto_at(
        0,
        0,
    ) + show_sequence() + underline_sequence()
}

/// What a run of instructions gives: the text for the terminal, the window
/// at the end, and whether `Stop` was among them.
pub struct Rendering {
    pub output: Seq<char>,
    pub window: Window,
    pub stopped: bool,
}

/// The display's answer to `controls`, taken in order with the window `w`
/// at the start. `Stop` ends the run: nothing after it is looked at.
pub open spec fn rendered(text: Seq<Seq<char>>, w: Window, controls: Seq<Control>) -> Rendering
    decreases controls.len(),
{
    if controls.len() == 0 {
        Rendering { output: Seq::empty(), window: w, stopped: false }
    } else if controls[0] == Control::Stop {
        Rendering { output: drawn(text, w, Control::Stop), window: w, stopped: true }
    } else {
        let rest = rendered(text, window_after(w, controls[0]), controls.drop_first());
        Rendering {
            output: drawn(text, w, controls[0]) + rest.output,
            window: rest.window,
            stopped: rest.stopped,
        }
    }
}

/// Whether the display can carry out each of `controls` in its turn, up to
/// the first `Stop`.
pub open spec fn all_drawable(text: Seq<Seq<char>>, w: Window, controls: Seq<Control>) -> bool
    decreases controls.len(),
{
    if controls.len() == 0 {
        true
    } else {
        &&& drawable(text, w, controls[0])
        &&& controls[0] == Control::Stop || all_drawable(
            text,
            window_after(w, controls[0]),
            controls.drop_first(),
        )
    }
}

/// The display stage: a window, and whether the session has ended. It hands
/// back the text to write; the caller writes it and flushes.
pub struct Renderer<S: Source> {
    cursor: Cursor<S>,
    stopped: bool,
}

impl<S: Source> Renderer<S> {
    pub closed spec fn text(&self) -> Seq<Seq<char>> {
        self.cursor.text()
    }

    pub closed spec fn window(&self) -> Window {
        self.cursor.window()
    }

    /// Whether `Stop` has come. From then on nothing is drawn.
    pub closed spec fn stopped(&self) -> bool {
        self.stopped
    }

    pub open spec fn wf(&self) -> bool {
        window_ok(self.window())
    }

    /// A display at the top of `source` for a terminal of `terminal_rows`
    /// rows.
    pub fn new(source: Arc<S>, terminal_rows: u16) -> (renderer: Renderer<S>)
        requires
            terminal_rows >= 1,
        ensures
            renderer.text() == source.text(),
            renderer.window() == (Window { head: 0, tail: 0, size: (terminal_rows - 1) as u16 }),
            !renderer.stopped(),
            renderer.wf(),
    {
        let cursor = Cursor::new(source, terminal_rows);
        Renderer { cursor, stopped: false }
    }

    pub fn head(&self) -> (head: usize)
        ensures
            head == self.window().head,
    {
        self.cursor.head()
    }

    pub fn tail(&self) -> (tail: usize)
        ensures
            tail == self.window().tail,
    {
        self.cursor.tail()
    }

    pub fn window_size(&self) -> (size: u16)
        ensures
            size == self.window().size,
    {
        self.cursor.window_size()
    }

    pub fn is_stopped(&self) -> (stopped: bool)
        ensures
            stopped == self.stopped(),
    {
        self.stopped
    }

    /// The text that draws the screen at the start.
    pub fn draw_initial(&self) -> (screen: String)
        ensures
            screen@ == initial_screen(self.text(), self.window().size),
    {
        let mut screen = clear_text();
        screen.append(ansi_goto(0, 0).as_str());
        screen.append(hide_text().as_str());
        let ghost start = screen@;
        let size = self.cursor.window_size();
        let mut row: u16 = 0;
        assert(start + first_lines(self.text(), 0) =~= start);
        while row < size
            invariant
                row <= size,
                size == self.window().size,
                self.cursor.text() == self.text(),
                screen@ == start + first_lines(self.text(), row as nat),
            decreases size - row,
        {
            let ghost before = first_lines(self.text(), row as nat);
            match self.cursor.get_line(row as usize) {
                Some(line) => {
                    screen.append(line.as_str());
                    screen.push('\r');
                    screen.push('\n');
                    assert(screen@ =~= start + (before + (line@ + seq!['\r', '\n'])));
                },
                None => {
                    assert(screen@ =~= start + (before + Seq::<char>::empty()));
                },
            }
            row += 1;
        }
        screen.append(ansi_goto(0, 0).as_str());
        screen.append(show_text().as_str());
        screen.append(underline_text().as_str());
        assert(screen@ =~= initial_screen(self.text(), self.window().size));
        screen
    }

    /// Whether `handle` can carry out `control` with the window as it is.
    pub fn can_handle(&self, control: Control) -> (can: bool)
        requires
            self.wf(),
        ensures
            can == drawable(self.text(), self.window(), control),
    {
        match control {
            Control::Previous(None, (row, column)) => {
                if self.cursor.can_scroll_up() {
                    can_goto(0, column) && self.cursor.get_line(self.cursor.tail() - 1).is_some()
                } else {
                    can_goto(self.cursor.adjust_row(row), column)
                }
            },
            Control::Next(None, (row, column)) => {
                if self.cursor.head() == usize::MAX {
                    return false;
                }
                let scrolls = self.cursor.is_at_the_bottom_of_the_screen();
                if scrolls && self.cursor.get_line(self.cursor.head() + 1).is_none() {
                    return true;
                }
                let tail = if scrolls {
                    self.cursor.tail() + 1
                } else {
                    self.cursor.tail()
                };
                let adjusted = if row >= tail {
                    row - tail
                } else {
                    row
                };
                can_goto(adjusted, column)
            },
            _ => true,
        }
    }

    /// Carries out one instruction: moves the window and hands back the text
    /// to write. `Stop` ends the session; after it nothing is drawn.
    pub fn handle(&mut self, control: Control) -> (output: String)
        requires
            old(self).wf(),
            !old(self).stopped() ==> drawable(old(self).text(), old(self).window(), control),
        ensures
            final(self).text() == old(self).text(),
            final(self).wf(),
            old(self).stopped() ==> {
                &&& output@ == Seq::<char>::empty()
                &&& final(self).window() == old(self).window()
                &&& final(self).stopped()
            },
            !old(self).stopped() ==> {
                &&& output@ == drawn(old(self).text(), old(self).window(), control)
                &&& final(self).window() == window_after(old(self).window(), control)
                &&& final(self).stopped() == (control == Control::Stop)
            },
    {
        let mut output = String::new();
        if self.stopped {
            return output;
        }
        match control {
            Control::Stop => {
                // Put everything back to normal.
                output.append(restore_text().as_str());
                self.stopped = true;
            },
            // A backspace within the line.
            Control::Previous(Some(symbol), _) => {
                output.append(left_text(1).as_str());
                output.push(symbol);
                output.append(left_text(1).as_str());
            },
            // At the start of the line: the cursor has to go up.
            Control::Previous(None, (row, column)) => {
                if self.cursor.can_scroll_up() {
                    self.cursor.scroll_up();
                    let line = self.cursor.get_top_line().expect("Render cursor is not aligned");
                    // The window goes up, so the terminal scrolls down to
                    // make room for the line.
                    output.append(scroll_down_text(1).as_str());
                    output.append(ansi_goto(0, 0).as_str());
                    output.append(line.as_str());
                    output.append(ansi_goto(0, column).as_str());
                } else {
                    self.cursor.move_head_up();
                    output.append(ansi_goto(self.cursor.adjust_row(row), column).as_str());
                }
            },
            // At the end of the line.
            Control::Next(None, (row, column)) => {
                if self.cursor.is_at_the_bottom_of_the_screen() {
                    self.cursor.scroll_down();
                    if let Some(line) = self.cursor.get_bottom_line() {
                        output.append(scroll_up_text(1).as_str());
                        output.push('\r');
                        output.append(line.as_str());
                        output.append(ansi_goto(self.cursor.adjust_row(row), column).as_str());
                    }
                } else {
                    self.cursor.move_head_down();
                    output.append(ansi_goto(self.cursor.adjust_row(row), column).as_str());
                }
            },
            Control::Next(Some(result), _) => match result {
                Ok(s) => {
                    output.append(success_text().as_str());
                    output.push(s);
                    output.append(plain_text().as_str());
                },
                Err(s) => {
                    output.append(failure_text().as_str());
                    output.push(s);
                    output.append(plain_text().as_str());
                },
            },
        }
        assert(output@ =~= drawn(old(self).text(), old(self).window(), control));
        output
    }

    /// A whole session of the display: draws the screen, then carries out
    /// the instructions in order, up to the first `Stop`. Hands back all the
    /// text to write. A display that has stopped draws nothing.
    pub fn run(&mut self, controls: &Vec<Control>) -> (output: String)
        requires
            old(self).wf(),
            !old(self).stopped() ==> all_drawable(old(self).text(), old(self).window(), controls@),
        ensures
            final(self).text() == old(self).text(),
            final(self).wf(),
            old(self).stopped() ==> {
                &&& output@ == Seq::<char>::empty()
                &&& final(self).window() == old(self).window()
                &&& final(self).stopped()
            },
            !old(self).stopped() ==> {
                let whole = rendered(old(self).text(), old(self).window(), controls@);
                &&& output@ == initial_screen(old(self).text(), old(self).window().size)
                    + whole.output
                &&& final(self).window() == whole.window
                &&& final(self).stopped() == whole.stopped
            },
    {
        if self.stopped {
            return String::new();
        }
        let mut output = self.draw_initial();
        let ghost screen = output@;
        let ghost whole = rendered(self.text(), self.window(), controls@);
        let mut i: usize = 0;
        assert(controls@.skip(0) =~= controls@);
        assert(screen + (Seq::<char>::empty() + whole.output) =~= screen + whole.output);
        let ghost mut done = Seq::<char>::empty();
        while i < controls.len() && !self.stopped
            invariant
                i <= controls.len(),
                self.wf(),
                self.text() == old(self).text(),
                whole == rendered(old(self).text(), old(self).window(), controls@),
                output@ == screen + done,
                !self.stopped() ==> {
                    let rest = rendered(self.text(), self.window(), controls@.skip(i as int));
                    &&& all_drawable(self.text(), self.window(), controls@.skip(i as int))
                    &&& whole.output == done + rest.output
                    &&& whole.window == rest.window
                    &&& whole.stopped == rest.stopped
                },
                self.stopped() ==> {
                    &&& whole.output == done
                    &&& whole.window == self.window()
                    &&& whole.stopped
                },
            decreases controls.len() - i,
        {
            let ghost rest = controls@.skip(i as int);
            let ghost w = self.window();
            proof {
                assert(rest[0] == controls@[i as int]);
                assert(rest.drop_first() =~= controls@.skip(i + 1));
            }
            let text = self.handle(controls[i]);
            output.append(text.as_str());
            proof {
                let tail = rendered(self.text(), self.window(), controls@.skip(i + 1));
                if rest[0] != Control::Stop {
                    assert(done + (text@ + tail.output) =~= (done + text@) + tail.output);
                }
                assert(screen + done + text@ =~= screen + (done + text@));
                done = done + text@;
            }
            i += 1;
        }
        proof {
            if !self.stopped() {
                assert(controls@.skip(i as int).len() == 0);
                assert(done + Seq::<char>::empty() =~= done);
            }
        }
        output
    }
}


/// Whatever the instruction, the head stays on the screen: it is never
/// above the tail, and on a screen with at least one row it is fewer than
/// `size` rows below it. On such a screen the window scrolls forward exactly
/// when it shows its full height.
pub proof fn head_stays_on_screen(w: Window, control: Control)
    requires
        window_ok(w),
        control matches Control::Next(None, _) ==> w.head < usize::MAX,
    ensures
        window_ok(window_after(w, control)),
        window_after(w, control).size == w.size,
        w.size >= 1 ==> 0 <= window_after(w, control).head - window_after(w, control).tail
            < w.size,
        w.size >= 1 ==> (at_bottom(w) <==> w.head - w.tail == w.size - 1),
        !(control matches Control::Previous(None, _)) && !(control matches Control::Next(None, _))
            ==> window_after(w, control) == w,
{
}

/// Whether `text` ends with `end`.
pub open spec fn ends_with(text: Seq<char>, end: Seq<char>) -> bool {
    text.len() >= end.len() && text.subrange(text.len() - end.len(), text.len() as int) == end
}

/// A run of instructions that ends in `Stop` stops the display, and the
/// last thing that goes to the terminal is the sequence that restores it.
pub proof fn stop_restores_terminal(text: Seq<Seq<char>>, w: Window, controls: Seq<Control>)
    requires
        controls.len() > 0,
        controls.last() == Control::Stop,
    ensures
        rendered(text, w, controls).stopped,
        ends_with(rendered(text, w, controls).output, restore_sequence()),
    decreases controls.len(),
{
    let end = restore_sequence();
    if controls[0] == Control::Stop {
        assert(end.subrange(0, end.len() as int) =~= end);
    } else {
        let rest = controls.drop_first();
        assert(rest.len() > 0);
        assert(rest.last() == controls.last());
        let then = window_after(w, controls[0]);
        stop_restores_terminal(text, then, rest);
        let first = drawn(text, w, controls[0]);
        let tail = rendered(text, then, rest).output;
        let whole = first + tail;
        assert(whole.subrange(whole.len() - end.len(), whole.len() as int) =~= tail.subrange(
            tail.len() - end.len(),
            tail.len() as int,
        ));
    }
}

} // verus!
