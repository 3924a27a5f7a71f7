use std::sync::Arc;
use typing_tutor::checker::{Checker, Control, Cursor, Outcome, Reaction};
use typing_tutor::parser::Parsed;
use typing_tutor::source::SimpleSource;

fn text(s: &str) -> Arc<SimpleSource> {
    Arc::new(SimpleSource::new(s))
}

fn symbols(s: &str) -> Vec<Parsed> {
    s.chars().map(Parsed::Symbol).collect()
}

#[test]
fn cursor_starts_at_the_origin() {
    let cursor = Cursor::new(text("ab\ncd"));
    assert_eq!(cursor.position(), (0, 0));
}

#[test]
fn cursor_walks_forward_over_lines() {
    let mut cursor = Cursor::new(text("ab\nc"));
    assert_eq!(cursor.next(), (Some('a'), Some((0, 1))));
    assert_eq!(cursor.next(), (Some('b'), Some((0, 2))));
    assert_eq!(cursor.next(), (None, Some((1, 0))));
    assert_eq!(cursor.next(), (Some('c'), Some((1, 1))));
    assert_eq!(cursor.next(), (None, None));
    assert_eq!(cursor.position(), (1, 1));
    assert_eq!(cursor.next(), (None, None));
    assert_eq!(cursor.position(), (1, 1));
}

#[test]
fn cursor_walks_back_over_lines() {
    let mut cursor = Cursor::new(text("ab\nc"));
    for _ in 0..4 {
        cursor.next();
    }
    assert_eq!(cursor.position(), (1, 1));
    assert_eq!(cursor.prev(), (Some('c'), Some((1, 0))));
    assert_eq!(cursor.prev(), (None, Some((0, 2))));
    assert_eq!(cursor.prev(), (Some('b'), Some((0, 1))));
    assert_eq!(cursor.prev(), (Some('a'), Some((0, 0))));
    assert_eq!(cursor.prev(), (None, None));
    assert_eq!(cursor.position(), (0, 0));
}

#[test]
fn cursor_in_empty_text_does_not_move() {
    let mut cursor = Cursor::new(text(""));
    assert_eq!(cursor.next(), (None, None));
    assert_eq!(cursor.prev(), (None, None));
    assert_eq!(cursor.position(), (0, 0));
}

#[test]
fn cursor_crosses_empty_lines() {
    let mut cursor = Cursor::new(text("\n\nx"));
    assert_eq!(cursor.next(), (None, Some((1, 0))));
    assert_eq!(cursor.next(), (None, Some((2, 0))));
    assert_eq!(cursor.next(), (Some('x'), Some((2, 1))));
    assert_eq!(cursor.prev(), (Some('x'), Some((2, 0))));
    assert_eq!(cursor.prev(), (None, Some((1, 0))));
    assert_eq!(cursor.prev(), (None, Some((0, 0))));
    assert_eq!(cursor.prev(), (None, None));
}

#[test]
fn mismatch_advances_and_line_end_takes_the_line_feed() {
    let mut checker = Checker::new(text("ab\ncd"));
    assert_eq!(
        checker.step(Parsed::Symbol('a')),
        Reaction { control: Some(Control::Next(Some(Ok('a')), (0, 1))), done: false }
    );
    assert_eq!(
        checker.step(Parsed::Symbol('b')),
        Reaction { control: Some(Control::Next(Some(Ok('b')), (0, 2))), done: false }
    );
    assert_eq!(
        checker.step(Parsed::Symbol('\n')),
        Reaction { control: Some(Control::Next(None, (1, 0))), done: false }
    );
    assert_eq!(
        checker.step(Parsed::Symbol('x')),
        Reaction { control: Some(Control::Next(Some(Err('c')), (1, 1))), done: false }
    );
    assert_eq!(checker.position(), (1, 1));
    // The mismatch has used up the place of 'c': now 'd' is expected.
    assert_eq!(
        checker.step(Parsed::Symbol('c')),
        Reaction { control: Some(Control::Next(Some(Err('d')), (1, 2))), done: false }
    );
    assert_eq!(checker.position(), (1, 2));
}

#[test]
fn line_end_refuses_other_symbols() {
    let mut checker = Checker::new(text("a\nb"));
    checker.step(Parsed::Symbol('a'));
    assert_eq!(checker.position(), (0, 1));
    assert_eq!(checker.step(Parsed::Symbol('b')), Reaction { control: None, done: false });
    assert_eq!(checker.position(), (0, 1));
    assert_eq!(checker.step(Parsed::Symbol(' ')), Reaction { control: None, done: false });
    assert_eq!(checker.position(), (0, 1));
    assert_eq!(
        checker.step(Parsed::Symbol('\n')),
        Reaction { control: Some(Control::Next(None, (1, 0))), done: false }
    );
    assert_eq!(
        checker.step(Parsed::Symbol('b')),
        Reaction { control: Some(Control::Next(Some(Ok('b')), (1, 1))), done: false }
    );
}

#[test]
fn backspace_at_the_origin_does_nothing() {
    let mut checker = Checker::new(text("ab\ncd"));
    assert_eq!(checker.step(Parsed::Backspace), Reaction { control: None, done: false });
    assert_eq!(checker.position(), (0, 0));
    assert!(!checker.is_halted());
    let mut empty = Checker::new(text(""));
    assert_eq!(empty.step(Parsed::Backspace), Reaction { control: None, done: false });
    assert_eq!(empty.position(), (0, 0));
}

#[test]
fn backspace_shows_the_character_it_uncovers() {
    let mut checker = Checker::new(text("ab\ncd"));
    checker.run(&symbols("ab\nc"));
    assert_eq!(checker.position(), (1, 1));
    assert_eq!(
        checker.step(Parsed::Backspace),
        Reaction { control: Some(Control::Previous(Some('c'), (1, 0))), done: false }
    );
    assert_eq!(
        checker.step(Parsed::Backspace),
        Reaction { control: Some(Control::Previous(None, (0, 2))), done: false }
    );
    assert_eq!(
        checker.step(Parsed::Backspace),
        Reaction { control: Some(Control::Previous(Some('b'), (0, 1))), done: false }
    );
}

#[test]
fn typing_past_the_end_stops_once() {
    let mut checker = Checker::new(text("a"));
    checker.step(Parsed::Symbol('a'));
    assert_eq!(
        checker.step(Parsed::Symbol('b')),
        Reaction { control: Some(Control::Stop), done: true }
    );
    assert!(checker.is_halted());
    assert_eq!(checker.position(), (0, 1));
    assert_eq!(checker.step(Parsed::Symbol('c')), Reaction { control: None, done: false });
    assert_eq!(checker.step(Parsed::Stop), Reaction { control: None, done: false });
    assert_eq!(checker.step(Parsed::Backspace), Reaction { control: None, done: false });
    assert_eq!(checker.position(), (0, 1));
}

#[test]
fn line_feed_at_the_end_of_the_text_stops() {
    let mut checker = Checker::new(text("a\n"));
    checker.step(Parsed::Symbol('a'));
    assert_eq!(
        checker.step(Parsed::Symbol('\n')),
        Reaction { control: Some(Control::Stop), done: true }
    );
}

#[test]
fn empty_text_stops_at_the_first_symbol() {
    let mut checker = Checker::new(text(""));
    assert_eq!(
        checker.step(Parsed::Symbol('a')),
        Reaction { control: Some(Control::Stop), done: true }
    );
    assert_eq!(checker.position(), (0, 0));
}

#[test]
fn stop_event_halts_without_completion() {
    let mut checker = Checker::new(text("ab"));
    assert_eq!(checker.step(Parsed::Stop), Reaction { control: Some(Control::Stop), done: false });
    assert!(checker.is_halted());
    assert_eq!(checker.step(Parsed::Symbol('a')), Reaction { control: None, done: false });
    assert_eq!(checker.position(), (0, 0));
}

#[test]
fn run_answers_each_event_in_order() {
    let mut checker = Checker::new(text("ab\ncd"));
    let mut events = symbols("ab\nxc");
    events.push(Parsed::Backspace);
    let outcome = checker.run(&events);
    assert_eq!(
        outcome,
        Outcome {
            controls: vec![
                Control::Next(Some(Ok('a')), (0, 1)),
                Control::Next(Some(Ok('b')), (0, 2)),
                Control::Next(None, (1, 0)),
                Control::Next(Some(Err('c')), (1, 1)),
                Control::Next(Some(Err('d')), (1, 2)),
                Control::Previous(Some('d'), (1, 1)),
            ],
            completions: 0,
        }
    );
    assert_eq!(checker.position(), (1, 1));
    assert!(!checker.is_halted());
}

#[test]
fn run_ends_at_the_end_of_the_text() {
    let mut checker = Checker::new(text("ab"));
    let outcome = checker.run(&symbols("abcde"));
    assert_eq!(
        outcome,
        Outcome {
            controls: vec![
                Control::Next(Some(Ok('a')), (0, 1)),
                Control::Next(Some(Ok('b')), (0, 2)),
                Control::Stop,
            ],
            completions: 1,
        }
    );
    assert!(checker.is_halted());
    let again = checker.run(&symbols("ab"));
    assert_eq!(again, Outcome { controls: vec![], completions: 0 });
}

#[test]
fn run_ends_at_a_stop_event() {
    let mut checker = Checker::new(text("abc"));
    let events = vec![Parsed::Symbol('a'), Parsed::Stop, Parsed::Symbol('b')];
    let outcome = checker.run(&events);
    assert_eq!(
        outcome,
        Outcome { controls: vec![Control::Next(Some(Ok('a')), (0, 1)), Control::Stop], completions: 0 }
    );
    assert_eq!(checker.position(), (0, 1));
}

#[test]
fn replay_gives_the_same_cursor() {
    let source = text("Hey dawg, this\nis a test string\nfor you to practice!");
    let mut events = symbols("Hey dxwg");
    events.push(Parsed::Backspace);
    events.push(Parsed::Backspace);
    events.push(Parsed::Backspace);
    events.extend(symbols("awg, this\nis"));
    events.push(Parsed::Backspace);
    let mut first = Checker::new(source.clone());
    let mut second = Checker::new(source.clone());
    let one = first.run(&events);
    let two = second.run(&events);
    assert_eq!(one, two);
    assert_eq!(first.position(), second.position());
    assert_eq!(first.position(), (1, 1));
    // Event by event, and in two parts, the run gives what it gives at once.
    let mut stepped = Checker::new(source.clone());
    let mut controls = Vec::new();
    for event in &events {
        if let Some(control) = stepped.step(*event).control {
            controls.push(control);
        }
    }
    assert_eq!(controls, one.controls);
    assert_eq!(stepped.position(), first.position());
    let mut parts = Checker::new(source);
    let mut joined = parts.run(&events[..7].to_vec()).controls;
    joined.extend(parts.run(&events[7..].to_vec()).controls);
    assert_eq!(joined, one.controls);
    assert_eq!(parts.position(), first.position());
}

#[test]
fn retyping_after_backspace_restores_the_cursor() {
    let source = text("ab\n\ncd");
    let typed = "ab\n\ncd";
    for count in 1..=typed.chars().count() {
        let mut checker = Checker::new(source.clone());
        let prefix: String = typed.chars().take(count).collect();
        checker.run(&symbols(&prefix));
        let before = checker.position();
        let last = typed.chars().nth(count - 1).unwrap();
        let back = checker.step(Parsed::Backspace);
        assert!(back.control.is_some());
        assert_ne!(checker.position(), before);
        let forth = checker.step(Parsed::Symbol(last));
        assert_eq!(checker.position(), before);
        let expected = if last == '\n' { None } else { Some(Ok(last)) };
        assert_eq!(forth.control, Some(Control::Next(expected, before)));
    }
}
