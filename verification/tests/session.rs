use std::sync::Arc;
use typing_tutor::checker::{Checker, Control};
use typing_tutor::parser::{Key, Parser};
use typing_tutor::renderer::Renderer;
use typing_tutor::source::SimpleSource;

fn play(text: &str, terminal_rows: u16, keys: &[Key]) -> (String, usize, (usize, usize)) {
    let source = Arc::new(SimpleSource::new(text));
    let mut parser = Parser::new();
    let mut checker = Checker::new(source.clone());
    let mut renderer = Renderer::new(source, terminal_rows);
    let mut screen = renderer.draw_initial();
    let mut completions = 0;
    let mut stop = false;
    for key in keys {
        if !parser.poll(stop) {
            break;
        }
        for event in parser.parse(*key) {
            let reaction = checker.step(event);
            if reaction.done {
                completions += 1;
                stop = true;
            }
            if let Some(control) = reaction.control {
                assert!(renderer.can_handle(control));
                screen.push_str(&renderer.handle(control));
                assert_eq!(renderer.head(), checker.position().0);
            }
        }
    }
    assert_eq!(renderer.is_stopped(), checker.is_halted());
    (screen, completions, checker.position())
}

fn keys(s: &str) -> Vec<Key> {
    s.chars().map(Key::Char).collect()
}

#[test]
fn whole_text_typed_right() {
    let (screen, completions, at) = play("ab\ncd", 3, &keys("ab\ncd!"));
    assert_eq!(
        screen,
        "\x1b[2J\x1b[1;1H\x1b[?25lab\r\ncd\r\n\x1b[1;1H\x1b[?25h\x1b[3 q\
         \x1b[38;5;2ma\x1b[39m\x1b[38;5;2mb\x1b[39m\x1b[2;1H\
         \x1b[38;5;2mc\x1b[39m\x1b[38;5;2md\x1b[39m\x1b[u"
    );
    assert_eq!(completions, 1);
    assert_eq!(at, (1, 2));
}

#[test]
fn keys_after_the_end_are_not_read() {
    let (first, completions, _) = play("a", 3, &keys("ab"));
    let (second, again, _) = play("a", 3, &keys("abcdef"));
    assert_eq!(first, second);
    assert_eq!((completions, again), (1, 1));
    assert!(first.ends_with("\x1b[u"));
    assert_eq!(first.matches("\x1b[u").count(), 1);
}

#[test]
fn interrupt_restores_the_terminal() {
    let mut typed = keys("He");
    typed.push(Key::Ctrl('c'));
    typed.extend(keys("y dawg"));
    let (screen, completions, at) = play("Hey dawg", 3, &typed);
    assert!(screen.ends_with("\x1b[38;5;2mH\x1b[39m\x1b[38;5;2me\x1b[39m\x1b[u"));
    assert_eq!(completions, 0);
    assert_eq!(at, (0, 2));
}

#[test]
fn mistake_corrected_with_backspace() {
    let mut typed = keys("ax");
    typed.push(Key::Backspace);
    typed.push(Key::Char('b'));
    let (screen, _, at) = play("ab", 3, &typed);
    assert!(screen.ends_with(
        "\x1b[38;5;2ma\x1b[39m\x1b[38;5;1mb\x1b[39m\x1b[1Db\x1b[1D\x1b[38;5;2mb\x1b[39m"
    ));
    assert_eq!(at, (0, 2));
}

#[test]
fn small_screen_scrolls_both_ways() {
    let mut typed = keys("a\nb\n");
    typed.push(Key::Backspace);
    typed.push(Key::Backspace);
    typed.push(Key::Backspace);
    let (screen, _, at) = play("a\nb\nc", 2, &typed);
    assert_eq!(
        screen,
        "\x1b[2J\x1b[1;1H\x1b[?25la\r\n\x1b[1;1H\x1b[?25h\x1b[3 q\
         \x1b[38;5;2ma\x1b[39m\x1b[1S\rb\x1b[1;1H\
         \x1b[38;5;2mb\x1b[39m\x1b[1S\rc\x1b[1;1H\
         \x1b[1T\x1b[1;1Hb\x1b[1;2H\
         \x1b[1Db\x1b[1D\
         \x1b[1T\x1b[1;1Ha\x1b[1;2H"
    );
    assert_eq!(at, (0, 1));
}

#[test]
fn tabulator_types_four_blanks() {
    let (screen, _, at) = play("    x", 3, &[Key::Char('\t'), Key::Char('x')]);
    assert!(screen.ends_with(
        "\x1b[38;5;2m \x1b[39m\x1b[38;5;2m \x1b[39m\x1b[38;5;2m \x1b[39m\x1b[38;5;2m \x1b[39m\
         \x1b[38;5;2mx\x1b[39m"
    ));
    assert_eq!(at, (0, 5));
}

#[test]
fn stages_run_one_after_the_other() {
    let source = Arc::new(SimpleSource::new("a\nb\nc"));
    let mut typed = keys("a\nb\n");
    typed.push(Key::Backspace);
    typed.push(Key::Backspace);
    typed.push(Key::Backspace);
    typed.push(Key::Ctrl('c'));
    typed.extend(keys("never read"));
    let events = Parser::new().run(&typed);
    let outcome = Checker::new(source.clone()).run(&events);
    assert_eq!(outcome.completions, 0);
    assert_eq!(outcome.controls.last(), Some(&Control::Stop));
    let mut renderer = Renderer::new(source, 2);
    let screen = renderer.run(&outcome.controls);
    assert_eq!(
        screen,
        "\x1b[2J\x1b[1;1H\x1b[?25la\r\n\x1b[1;1H\x1b[?25h\x1b[3 q\
         \x1b[38;5;2ma\x1b[39m\x1b[1S\rb\x1b[1;1H\
         \x1b[38;5;2mb\x1b[39m\x1b[1S\rc\x1b[1;1H\
         \x1b[1T\x1b[1;1Hb\x1b[1;2H\
         \x1b[1Db\x1b[1D\
         \x1b[1T\x1b[1;1Ha\x1b[1;2H\
         \x1b[u"
    );
    assert!(renderer.is_stopped());
    assert_eq!((renderer.head(), renderer.tail()), (0, 0));
    assert_eq!(renderer.run(&outcome.controls), "");
}

#[test]
fn run_of_the_display_is_its_steps() {
    let source = Arc::new(SimpleSource::new("ab\ncd\nef"));
    let controls = vec![
        Control::Next(Some(Ok('a')), (0, 1)),
        Control::Next(Some(Err('b')), (0, 2)),
        Control::Next(None, (1, 0)),
        Control::Next(None, (2, 0)),
        Control::Previous(None, (1, 2)),
        Control::Previous(Some('d'), (1, 1)),
    ];
    let mut stepped = Renderer::new(source.clone(), 3);
    let mut expected = stepped.draw_initial();
    for control in &controls {
        expected.push_str(&stepped.handle(*control));
    }
    let mut whole = Renderer::new(source, 3);
    assert_eq!(whole.run(&controls), expected);
    assert_eq!((whole.head(), whole.tail()), (stepped.head(), stepped.tail()));
    assert_eq!((whole.head(), whole.tail()), (1, 1));
    assert!(!whole.is_stopped());
}
