//! A typing-practice engine: a reference text, a cursor that walks it as keys
//! arrive, and a scrolling window that turns each outcome into terminal output.
//!
//! Three stages work in a row. The [`parser`] turns keys into edit events, the
//! [`checker`] compares each event with the text under its cursor and gives a
//! render instruction, and the [`renderer`] answers each instruction with the
//! text to write to the terminal. [`source`] holds the reference text,
//! [`terminal`] the escape sequences, [`screen`] the display's output as
//! strokes on the rows of the screen, and [`pipeline`] what holds of the
//! stages together. Reading keys and writing to the terminal are left to the
//! caller.

pub mod checker;
pub mod parser;
pub mod pipeline;
pub mod renderer;
pub mod screen;
pub mod source;
pub mod terminal;
