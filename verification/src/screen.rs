//! The display's output as a list of strokes, and in which row of the screen
//! each line of the text is drawn.

use crate::checker::Control;
use crate::renderer::{
    at_bottom, drawn, first_lines, initial_screen, screen_row, scrolls_back, window_after,
    window_ok, Window,
};
use crate::source::line_at;
use crate::terminal::{
    clear_sequence, failure_sequence, goto_at, hide_sequence, left_sequence, plain_sequence,
    restore_sequence, scroll_down_sequence, scroll_up_sequence, show_sequence, success_sequence,
    underline_sequence,
};
use vstd::prelude::*;

verus! {

/// The colours that a character is drawn in.
pub enum Tint {
    Success,
    Failure,
    Plain,
}

/// One thing that the display asks of the terminal.
pub enum Stroke {
    Clear,
    Hide,
    Show,
    Underline,
    Restore,
    /// Moves the cursor to a zero-based row and column.
    Goto(usize, usize),
    Left(u16),
    ScrollUp(u16),
    ScrollDown(u16),
    /// Moves the cursor to the start of its row.
    Return,
    /// Moves the cursor to the start of the next row.
    NewLine,
    /// Writes a whole line of the text.
    Line(Seq<char>),
    /// Writes one character.
    Symbol(char),
    Colour(Tint),
}

/// The text that asks the terminal for a stroke.
pub open spec fn encoded(stroke: Stroke) -> Seq<char> {
    match stroke {
        Stroke::Clear => clear_sequence(),
        Stroke::Hide => hide_sequence(),
        Stroke::Show => show_sequence(),
        Stroke::Underline => underline_sequence(),
        Stroke::Restore => restore_sequence(),
        Stroke::Goto(row, column) => goto_at(row as int, column as int),
        Stroke::Left(cells) => left_sequence(cells),
        Stroke::ScrollUp(rows) => scroll_up_sequence(rows),
        Stroke::ScrollDown(rows) => scroll_down_sequence(rows),
        Stroke::Return => seq!['\r'],
        Stroke::NewLine => seq!['\r', '\n'],
        Stroke::Line(content) => content,
        Stroke::Symbol(c) => seq![c],
        Stroke::Colour(Tint::Success) => success_sequence(),
        Stroke::Colour(Tint::Failure) => failure_sequence(),
        Stroke::Colour(Tint::Plain) => plain_sequence(),
    }
}

/// The text that asks the terminal for a run of strokes.
pub open spec fn encoded_all(strokes: Seq<Stroke>) -> Seq<char>
    decreases strokes.len(),
{
    if strokes.len() == 0 {
        Seq::empty()
    } else {
        encoded_all(strokes.drop_last()) + encoded(strokes.last())
    }
}

/// The strokes that the display makes for an instruction, with the window as
/// it was before.
pub open spec fn strokes_for(text: Seq<Seq<char>>, w: Window, control: Control) -> Seq<Stroke> {
    let after = window_after(w, control);
    match control {
        Control::Stop => seq![Stroke::Restore],
        Control::Previous(Some(symbol), _) => seq![
            Stroke::Left(1),
            Stroke::Symbol(symbol),
            Stroke::Left(1),
        ],
        Control::Previous(None, (row, column)) => if scrolls_back(w) {
            seq![
                Stroke::ScrollDown(1),
                Stroke::Goto(0, 0),
                Stroke::Line(text[after.tail as int]),
                Stroke::Goto(0, column),
            ]
        } else {
            seq![Stroke::Goto(screen_row(after, row), column)]
        },
        Control::Next(None, (row, column)) => if at_bottom(w) {
            match line_at(text, after.head as int) {
                Some(line) => seq![
                    Stroke::ScrollUp(1),
                    Stroke::Return,
                    Stroke::Line(line),
                    Stroke::Goto(screen_row(after, row), column),
                ],
                None => Seq::empty(),
            }
        } else {
            seq![Stroke::Goto(screen_row(after, row), column)]
        },
        Control::Next(Some(Ok(symbol)), _) => seq![
            Stroke::Colour(Tint::Success),
            Stroke::Symbol(symbol),
            Stroke::Colour(Tint::Plain),
        ],
        Control::Next(Some(Err(symbol)), _) => seq![
            Stroke::Colour(Tint::Failure),
            Stroke::Symbol(symbol),
            Stroke::Colour(Tint::Plain),
        ],
    }
}

/// The strokes that write the first `count` rows of the screen: each line of
/// the text that there is, and the step to the next row.
pub open spec fn first_strokes(text: Seq<Seq<char>>, count: nat) -> Seq<Stroke>
    decreases count,
{
    if count == 0 {
        Seq::empty()
    } else {
        let row = (count - 1) as nat;
        first_strokes(text, row) + match line_at(text, row as int) {
            Some(line) => seq![Stroke::Line(line), Stroke::NewLine],
            None => Seq::empty(),
        }
    }
}

/// The strokes that draw the screen at the start.
pub open spec fn initial_strokes(text: Seq<Seq<char>>, size: u16) -> Seq<Stroke> {
    seq![Stroke::Clear, Stroke::Goto(0, 0), Stroke::Hide] + first_strokes(text, size as nat)
        + seq![Stroke::Goto(0, 0), Stroke::Show, Stroke::Underline]
}

/// The row that the terminal's cursor is in after a stroke. Only a jump and
/// a new line change it: scrolling moves what the screen shows, not the
/// cursor, and what is written stays in its row as long as the row has room
/// for it.
pub open spec fn row_after(row: int, stroke: Stroke) -> int {
    match stroke {
        Stroke::Goto(to, _) => to as int,
        Stroke::NewLine => row + 1,
        _ => row,
    }
}

/// The row that the terminal's cursor is in after a run of strokes.
pub open spec fn row_after_all(row: int, strokes: Seq<Stroke>) -> int
    decreases strokes.len(),
{
    if strokes.len() == 0 {
        row
    } else {
        row_after(row_after_all(row, strokes.drop_last()), strokes.last())
    }
}

/// The lines that a run of strokes writes, each with the row that the
/// cursor is in when it is written.
pub open spec fn lines_drawn(row: int, strokes: Seq<Stroke>) -> Seq<(int, Seq<char>)>
    decreases strokes.len(),
{
    if strokes.len() == 0 {
        Seq::empty()
    } else {
        let before = strokes.drop_last();
        match strokes.last() {
            Stroke::Line(content) => lines_drawn(row, before).push(
                (row_after_all(row, before), content),
            ),
            _ => lines_drawn(row, before),
        }
    }
}

/// A run of strokes with one more at its end.
proof fn lemma_push(row: int, strokes: Seq<Stroke>, stroke: Stroke)
    ensures
        encoded_all(strokes.push(stroke)) == encoded_all(strokes) + encoded(stroke),
        row_after_all(row, strokes.push(stroke)) == row_after(row_after_all(row, strokes), stroke),
        lines_drawn(row, strokes.push(stroke)) == match stroke {
            Stroke::Line(content) => lines_drawn(row, strokes).push(
                (row_after_all(row, strokes), content),
            ),
            _ => lines_drawn(row, strokes),
        },
{
    assert(strokes.push(stroke).drop_last() =~= strokes);
}

/// A run of one stroke that writes no line.
proof fn lemma_one(row: int, a: Stroke)
    requires
        !(a is Line),
    ensures
        encoded_all(seq![a]) == encoded(a),
        row_after_all(row, seq![a]) == row_after(row, a),
        lines_drawn(row, seq![a]) == Seq::<(int, Seq<char>)>::empty(),
{
    let none = Seq::<Stroke>::empty();
    assert(seq![a] =~= none.push(a));
    lemma_push(row, none, a);
    assert(encoded_all(none) + encoded(a) =~= encoded(a));
}

/// A run of three strokes that write no line.
proof fn lemma_three(row: int, a: Stroke, b: Stroke, c: Stroke)
    requires
        !(a is Line),
        !(b is Line),
        !(c is Line),
    ensures
        encoded_all(seq![a, b, c]) == encoded(a) + encoded(b) + encoded(c),
        row_after_all(row, seq![a, b, c]) == row_after(row_after(row_after(row, a), b), c),
        lines_drawn(row, seq![a, b, c]) == Seq::<(int, Seq<char>)>::empty(),
{
    let none = Seq::<Stroke>::empty();
    let one = none.push(a);
    let two = one.push(b);
    assert(seq![a, b, c] =~= two.push(c));
    lemma_push(row, none, a);
    lemma_push(row, one, b);
    lemma_push(row, two, c);
    assert(encoded_all(none) + encoded(a) + encoded(b) + encoded(c) =~= encoded(a) + encoded(b)
        + encoded(c));
}

/// A run of four strokes of which the third writes a line.
proof fn lemma_four(row: int, a: Stroke, b: Stroke, line: Seq<char>, d: Stroke)
    requires
        !(a is Line),
        !(b is Line),
        !(d is Line),
    ensures
        encoded_all(seq![a, b, Stroke::Line(line), d]) == encoded(a) + encoded(b) + line
            + encoded(d),
        row_after_all(row, seq![a, b, Stroke::Line(line), d]) == row_after(
            row_after(row_after(row, a), b),
            d,
        ),
        lines_drawn(row, seq![a, b, Stroke::Line(line), d]) == seq![
            (row_after(row_after(row, a), b), line),
        ],
{
    let none = Seq::<Stroke>::empty();
    let one = none.push(a);
    let two = one.push(b);
    let three = two.push(Stroke::Line(line));
    assert(seq![a, b, Stroke::Line(line), d] =~= three.push(d));
    lemma_push(row, none, a);
    lemma_push(row, one, b);
    lemma_push(row, two, Stroke::Line(line));
    lemma_push(row, three, d);
    assert(encoded_all(none) + encoded(a) + encoded(b) + line + encoded(d) =~= encoded(a)
        + encoded(b) + line + encoded(d));
    assert(Seq::<(int, Seq<char>)>::empty().push((row_after(row_after(row, a), b), line))
        =~= seq![(row_after(row_after(row, a), b), line)]);
}

/// The strokes for a character: none of them leaves the row or draws a
/// line.
proof fn lemma_symbol_strokes(
    text: Seq<Seq<char>>,
    w: Window,
    symbol: char,
    to: usize,
    column: usize,
    row: int,
)
    ensures
        forall|control: Control|
            control == Control::Previous(Some(symbol), (to, column)) || control == Control::Next(
                Some(Ok(symbol)),
                (to, column),
            ) || control == Control::Next(Some(Err(symbol)), (to, column)) ==> {
                &&& drawn(text, w, control) == encoded_all(#[trigger] strokes_for(text, w, control))
                &&& row_after_all(row, strokes_for(text, w, control)) == row
                &&& lines_drawn(row, strokes_for(text, w, control)) == Seq::<
                    (int, Seq<char>),
                >::empty()
            },
{
    lemma_three(row, Stroke::Left(1), Stroke::Symbol(symbol), Stroke::Left(1));
    lemma_three(
        row,
        Stroke::Colour(Tint::Success),
        Stroke::Symbol(symbol),
        Stroke::Colour(Tint::Plain),
    );
    lemma_three(
        row,
        Stroke::Colour(Tint::Failure),
        Stroke::Symbol(symbol),
        Stroke::Colour(Tint::Plain),
    );
}

/// The strokes of an instruction: what they write, where they leave the
/// cursor, and which line they draw in which row.
proof fn lemma_strokes(text: Seq<Seq<char>>, w: Window, control: Control, row: int)
    ensures
        ({
            let after = window_after(w, control);
            let strokes = strokes_for(text, w, control);
            let scrolls = (control matches Control::Next(None, _) && at_bottom(w) && line_at(
                text,
                after.head as int,
            ) is Some) || (control matches Control::Previous(None, _) && scrolls_back(w));
            &&& drawn(text, w, control) == encoded_all(strokes)
            &&& row_after_all(row, strokes) == match control {
                Control::Previous(None, (to, _)) => if scrolls_back(w) {
                    0
                } else {
                    screen_row(after, to) as int
                },
                Control::Next(None, (to, _)) => if at_bottom(w) && !scrolls {
                    row
                } else {
                    screen_row(after, to) as int
                },
                _ => row,
            }
            &&& lines_drawn(row, strokes) == if scrolls {
                seq![
                    (
                        if control matches Control::Next(None, _) {
                            row
                        } else {
                            0
                        },
                        match control {
                            Control::Next(None, _) => text[after.head as int],
                            _ => text[after.tail as int],
                        },
                    ),
                ]
            } else {
                Seq::empty()
            }
        }),
{
    let after = window_after(w, control);
    match control {
        Control::Stop => {
            lemma_one(row, Stroke::Restore);
        },
        Control::Previous(Some(symbol), at) => {
            lemma_symbol_strokes(text, w, symbol, at.0, at.1, row);
            assert(control == Control::Previous(Some(symbol), (at.0, at.1)));
        },
        Control::Previous(None, (to, column)) => {
            if scrolls_back(w) {
                lemma_four(
                    row,
                    Stroke::ScrollDown(1),
                    Stroke::Goto(0, 0),
                    text[after.tail as int],
                    Stroke::Goto(0, column),
                );
            } else {
                lemma_one(row, Stroke::Goto(screen_row(after, to), column));
            }
        },
        Control::Next(None, (to, column)) => {
            if at_bottom(w) {
                match line_at(text, after.head as int) {
                    Some(line) => {
                        lemma_four(
                            row,
                            Stroke::ScrollUp(1),
                            Stroke::Return,
                            line,
                            Stroke::Goto(screen_row(after, to), column),
                        );
                    },
                    None => {},
                }
            } else {
                lemma_one(row, Stroke::Goto(screen_row(after, to), column));
            }
        },
        Control::Next(Some(Ok(symbol)), at) => {
            lemma_symbol_strokes(text, w, symbol, at.0, at.1, row);
            assert(control == Control::Next(Some(Ok(symbol)), (at.0, at.1)));
        },
        Control::Next(Some(Err(symbol)), at) => {
            lemma_symbol_strokes(text, w, symbol, at.0, at.1, row);
            assert(control == Control::Next(Some(Err(symbol)), (at.0, at.1)));
        },
    }
}

/// What the display writes for an instruction is the text of its strokes.
pub proof fn drawn_is_encoded(text: Seq<Seq<char>>, w: Window, control: Control)
    ensures
        drawn(text, w, control) == encoded_all(strokes_for(text, w, control)),
{
    lemma_strokes(text, w, control, 0);
}

/// Where the terminal's cursor is in row `head - tail` and a step over a
/// line break arrives in the row that becomes the head, the cursor is in row
/// `head - tail` again afterwards, and the one line that is drawn where the
/// window scrolls is the head's line, drawn in that row. No other
/// instruction moves the cursor out of its row or draws a line.
pub proof fn head_line_is_drawn_in_place(text: Seq<Seq<char>>, w: Window, control: Control)
    requires
        window_ok(w),
        w.size >= 1,
        control matches Control::Next(None, at) ==> at.0 == w.head + 1 && at.0 < text.len(),
        control matches Control::Previous(None, at) ==> at.0 + 1 == w.head && w.head <= text.len(),
    ensures
        ({
            let after = window_after(w, control);
            let strokes = strokes_for(text, w, control);
            let scrolls = (control matches Control::Next(None, _) && at_bottom(w)) || (
            control matches Control::Previous(None, _) && scrolls_back(w));
            &&& row_after_all(w.head - w.tail, strokes) == after.head - after.tail
            &&& lines_drawn(w.head - w.tail, strokes) == if scrolls {
                seq![(after.head - after.tail, text[after.head as int])]
            } else {
                Seq::empty()
            }
        }),
{
    lemma_strokes(text, w, control, w.head - w.tail);
}

/// The number of lines among the first `count` rows of the screen.
pub open spec fn lines_shown(text: Seq<Seq<char>>, count: nat) -> nat {
    if count <= text.len() {
        count
    } else {
        text.len()
    }
}

/// The strokes for the first rows write what `first_lines` says, and they
/// draw line `r` of the text in row `r`, for each row that has a line.
proof fn lemma_first_strokes(text: Seq<Seq<char>>, count: nat, before: Seq<Stroke>)
    requires
        row_after_all(0, before) == 0,
    ensures
        encoded_all(before + first_strokes(text, count)) == encoded_all(before) + first_lines(
            text,
            count,
        ),
        row_after_all(0, before + first_strokes(text, count)) == lines_shown(text, count),
        lines_drawn(0, before + first_strokes(text, count)) == lines_drawn(0, before) + Seq::new(
            lines_shown(text, count),
            |r: int| (r, text[r]),
        ),
    decreases count,
{
    let shown = Seq::new(lines_shown(text, count), |r: int| (r, text[r]));
    if count == 0 {
        assert(before + first_strokes(text, count) =~= before);
        assert(encoded_all(before) + first_lines(text, count) =~= encoded_all(before));
        assert(lines_drawn(0, before) + shown =~= lines_drawn(0, before));
    } else {
        let row = (count - 1) as nat;
        let earlier = before + first_strokes(text, row);
        let shown_earlier = Seq::new(lines_shown(text, row), |r: int| (r, text[r]));
        lemma_first_strokes(text, row, before);
        if row < text.len() {
            let line = text[row as int];
            let with_line = earlier.push(Stroke::Line(line));
            lemma_push(0, earlier, Stroke::Line(line));
            lemma_push(0, with_line, Stroke::NewLine);
            assert(before + first_strokes(text, count) =~= with_line.push(Stroke::NewLine));
            assert(encoded_all(before) + first_lines(text, count) =~= encoded_all(before)
                + first_lines(text, row) + line + seq!['\r', '\n']);
            assert(lines_drawn(0, before) + shown =~= (lines_drawn(0, before)
                + shown_earlier).push((row as int, line)));
        } else {
            assert(before + first_strokes(text, count) =~= earlier);
            assert(encoded_all(before) + first_lines(text, count) =~= encoded_all(before)
                + first_lines(text, row));
            assert(shown =~= shown_earlier);
        }
    }
}

/// At the start the display writes the text of its first strokes. They draw
/// line `r` of the text in row `r` of the screen, for each row of the
/// window that has a line, and leave the cursor in row 0, where head and
/// tail are.
pub proof fn first_screen_is_in_place(text: Seq<Seq<char>>, size: u16)
    ensures
        initial_screen(text, size) == encoded_all(initial_strokes(text, size)),
        row_after_all(0, initial_strokes(text, size)) == 0,
        lines_drawn(0, initial_strokes(text, size)) == Seq::new(
            lines_shown(text, size as nat),
            |r: int| (r, text[r]),
        ),
{
    let none = Seq::<Stroke>::empty();
    let one = none.push(Stroke::Clear);
    let two = one.push(Stroke::Goto(0, 0));
    let start = two.push(Stroke::Hide);
    lemma_push(0, none, Stroke::Clear);
    lemma_push(0, one, Stroke::Goto(0, 0));
    lemma_push(0, two, Stroke::Hide);
    assert(start =~= seq![Stroke::Clear, Stroke::Goto(0, 0), Stroke::Hide]);
    lemma_first_strokes(text, size as nat, start);
    let lines = start + first_strokes(text, size as nat);
    let back = lines.push(Stroke::Goto(0, 0));
    let shown = back.push(Stroke::Show);
    lemma_push(0, lines, Stroke::Goto(0, 0));
    lemma_push(0, back, Stroke::Show);
    lemma_push(0, shown, Stroke::Underline);
    assert(initial_strokes(text, size) =~= shown.push(Stroke::Underline));
    assert(initial_screen(text, size) =~= encoded_all(shown.push(Stroke::Underline)));
    assert(lines_drawn(0, start) + Seq::new(
        lines_shown(text, size as nat),
        |r: int| (r, text[r]),
    ) =~= Seq::new(lines_shown(text, size as nat), |r: int| (r, text[r])));
}

} // verus!
