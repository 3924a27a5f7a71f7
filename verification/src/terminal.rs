//! The escape sequences that drive the terminal. Each one is produced by the
//! `termion` crate; this module states what text comes back.

use vstd::prelude::*;

verus! {

/// The control sequence introducer: escape and an opening bracket.
pub open spec fn introducer() -> Seq<char> {
    seq!['\u{1b}', '[']
}

/// A number in decimal notation, without sign or leading zeros.
pub open spec fn decimal(n: nat) -> Seq<char>
    decreases n,
{
    let digits = seq!['0', '1', '2', '3', '4', '5', '6', '7', '8', '9'];
    if n < 10 {
        seq![digits[n as int]]
    } else {
        decimal(n / 10).push(digits[(n % 10) as int])
    }
}

/// Moves the cursor to a column and row, both counted from one: the row
/// comes first.
pub open spec fn goto_sequence(column: u16, row: u16) -> Seq<char> {
    introducer() + decimal(row as nat) + seq![';'] + decimal(column as nat) + seq!['H']
}

/// Moves the cursor left by a number of cells.
pub open spec fn left_sequence(cells: u16) -> Seq<char> {
    introducer() + decimal(cells as nat) + seq!['D']
}

/// Scrolls the screen up by a number of rows.
pub open spec fn scroll_up_sequence(rows: u16) -> Seq<char> {
    introducer() + decimal(rows as nat) + seq!['S']
}

/// Scrolls the screen down by a number of rows.
pub open spec fn scroll_down_sequence(rows: u16) -> Seq<char> {
    introducer() + decimal(rows as nat) + seq!['T']
}

/// Clears the whole screen.
pub open spec fn clear_sequence() -> Seq<char> {
    introducer() + seq!['2', 'J']
}

/// Hides the cursor.
pub open spec fn hide_sequence() -> Seq<char> {
    introducer() + seq!['?', '2', '5', 'l']
}

/// Shows the cursor.
pub open spec fn show_sequence() -> Seq<char> {
    introducer() + seq!['?', '2', '5', 'h']
}

/// Puts the cursor back where it was saved.
pub open spec fn restore_sequence() -> Seq<char> {
    introducer() + seq!['u']
}

/// Makes the cursor a blinking underline.
pub open spec fn underline_sequence() -> Seq<char> {
    introducer() + seq!['3', ' ', 'q']
}

/// Sets the colour of what was typed right.
pub open spec fn success_sequence() -> Seq<char> {
    introducer() + seq!['3', '8', ';', '5', ';', '2', 'm']
}

/// Sets the colour of what was typed wrong.
pub open spec fn failure_sequence() -> Seq<char> {
    introducer() + seq!['3', '8', ';', '5', ';', '1', 'm']
}

/// Sets the colour back to the terminal's own.
pub open spec fn plain_sequence() -> Seq<char> {
    introducer() + seq!['3', '9', 'm']
}

/// `String::push` of std: the character is added at the end.
pub assume_specification[ String::push ](text: &mut String, ch: char)
    ensures
        final(text)@ == old(text)@.push(ch),
;

/// Formats `termion::cursor::Goto`. Trusted: termion writes the introducer,
/// the row, a semicolon, the column and `H`, the numbers as std formats
/// them, in decimal. termion refuses the position (0, 0) in a debug build,
/// so that one is left out.
#[verifier::external_body]
pub(crate) fn goto_text(column: u16, row: u16) -> (text: String)
    requires
        column != 0 || row != 0,
    ensures
        text@ == goto_sequence(column, row),
{
    format!("{}", termion::cursor::Goto(column, row))
}

/// Formats `termion::cursor::Left`. Trusted: termion writes the
/// introducer, the number of cells in decimal and `D`.
#[verifier::external_body]
pub(crate) fn left_text(cells: u16) -> (text: String)
    ensures
        text@ == left_sequence(cells),
{
    format!("{}", termion::cursor::Left(cells))
}

/// Formats `termion::scroll::Up`. Trusted: termion writes the introducer,
/// the number of rows in decimal and `S`.
#[verifier::external_body]
pub(crate) fn scroll_up_text(rows: u16) -> (text: String)
    ensures
        text@ == scroll_up_sequence(rows),
{
    format!("{}", termion::scroll::Up(rows))
}

/// Formats `termion::scroll::Down`. Trusted: termion writes the introducer,
/// the number of rows in decimal and `T`.
#[verifier::external_body]
pub(crate) fn scroll_down_text(rows: u16) -> (text: String)
    ensures
        text@ == scroll_down_sequence(rows),
{
    format!("{}", termion::scroll::Down(rows))
}

/// Formats `termion::clear::All`. Trusted: termion writes the control
/// sequence introducer and `2J`.
#[verifier::external_body]
pub(crate) fn clear_text() -> (text: String)
    ensures
        text@ == clear_sequence(),
{
    format!("{}", termion::clear::All)
}

/// Formats `termion::cursor::Hide`. Trusted: termion writes the introducer
/// and `?25l`.
#[verifier::external_body]
pub(crate) fn hide_text() -> (text: String)
    ensures
        text@ == hide_sequence(),
{
    format!("{}", termion::cursor::Hide)
}

/// Formats `termion::cursor::Show`. Trusted: termion writes the introducer
/// and `?25h`.
#[verifier::external_body]
pub(crate) fn show_text() -> (text: String)
    ensures
        text@ == show_sequence(),
{
    format!("{}", termion::cursor::Show)
}

/// Formats `termion::cursor::Restore`. Trusted: termion writes the
/// introducer and `u`.
#[verifier::external_body]
pub(crate) fn restore_text() -> (text: String)
    ensures
        text@ == restore_sequence(),
{
    format!("{}", termion::cursor::Restore)
}

/// Formats `termion::cursor::BlinkingUnderline`. Trusted: termion writes the
/// introducer and `3 q`.
#[verifier::external_body]
pub(crate) fn underline_text() -> (text: String)
    ensures
        text@ == underline_sequence(),
{
    format!("{}", termion::cursor::BlinkingUnderline)
}

/// Formats `termion::color::Fg` of `termion::color::Green`. Trusted: termion
/// writes the introducer and `38;5;2m`.
#[verifier::external_body]
pub(crate) fn success_text() -> (text: String)
    ensures
        text@ == success_sequence(),
{
    format!("{}", termion::color::Fg(termion::color::Green))
}

/// Formats `termion::color::Fg` of `termion::color::Red`. Trusted: termion
/// writes the introducer and `38;5;1m`.
#[verifier::external_body]
pub(crate) fn failure_text() -> (text: String)
    ensures
        text@ == failure_sequence(),
{
    format!("{}", termion::color::Fg(termion::color::Red))
}

/// Formats `termion::color::Fg` of `termion::color::Reset`. Trusted: termion
/// writes the introducer and `39m`.
#[verifier::external_body]
pub(crate) fn plain_text() -> (text: String)
    ensures
        text@ == plain_sequence(),
{
    format!("{}", termion::color::Fg(termion::color::Reset))
}

/// The text that moves the cursor to a zero-based row and column of the
/// screen. The terminal counts from one, in 16 bits: a larger number loses
/// its upper bits.
pub open spec fn goto_at(row: int, column: int) -> Seq<char> {
    goto_sequence((column + 1) as u16, (row + 1) as u16)
}

/// The zero-based rows and columns that the cursor can be sent to: the step
/// to the terminal's count must not overflow, nor give the position (0, 0).
pub open spec fn goto_defined(row: usize, column: usize) -> bool {
    &&& row < usize::MAX
    &&& column < usize::MAX
    &&& ((column + 1) as u16 != 0 || (row + 1) as u16 != 0)
}

/// Whether the cursor can be sent to a zero-based row and column.
pub fn can_goto(row: usize, column: usize) -> (can: bool)
    ensures
        can == goto_defined(row, column),
{
    if row == usize::MAX || column == usize::MAX {
        return false;
    }
    let x = #[verifier::truncate]
    ((column + 1) as u16);
    let y = #[verifier::truncate]
    ((row + 1) as u16);
    x != 0 || y != 0
}

/// Moves the cursor to a zero-based row and column.
pub fn ansi_goto(row: usize, column: usize) -> (text: String)
    requires
        goto_defined(row, column),
    ensures
        text@ == goto_at(row as int, column as int),
{
    let x = #[verifier::truncate]
    ((column + 1) as u16);
    let y = #[verifier::truncate]
    ((row + 1) as u16);
    goto_text(x, y)
}

} // verus!
