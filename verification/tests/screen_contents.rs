use std::sync::Arc;
use typing_tutor::checker::Checker;
use typing_tutor::parser::{Key, Parser};
use typing_tutor::renderer::Renderer;
use typing_tutor::source::SimpleSource;

/// A terminal as far as the display uses one: rows of characters and a cursor.
struct Terminal {
    rows: Vec<Vec<char>>,
    cursor: (usize, usize),
}

impl Terminal {
    fn new(height: usize) -> Terminal {
        Terminal { rows: vec![Vec::new(); height], cursor: (0, 0) }
    }

    fn put(&mut self, c: char) {
        let (row, column) = self.cursor;
        let line = &mut self.rows[row];
        while line.len() <= column {
            line.push(' ');
        }
        line[column] = c;
        self.cursor.1 += 1;
    }

    fn command(&mut self, arguments: &str, last: char) {
        let number = |s: &str| s.parse::<usize>().unwrap();
        match last {
            'J' => {
                for line in self.rows.iter_mut() {
                    line.clear();
                }
            }
            'H' => {
                let (row, column) = arguments.split_once(';').unwrap();
                self.cursor = (number(row) - 1, number(column) - 1);
            }
            'D' => self.cursor.1 -= number(arguments),
            'S' => {
                for _ in 0..number(arguments) {
                    self.rows.remove(0);
                    self.rows.push(Vec::new());
                }
            }
            'T' => {
                for _ in 0..number(arguments) {
                    self.rows.pop();
                    self.rows.insert(0, Vec::new());
                }
            }
            // Colours, cursor shape and visibility leave the screen as it is.
            'm' | 'q' | 'l' | 'h' | 'u' => {}
            other => panic!("unexpected command {:?}", other),
        }
    }

    fn write(&mut self, text: &str) {
        let mut chars = text.chars();
        while let Some(c) = chars.next() {
            match c {
                '\x1b' => {
                    assert_eq!(chars.next(), Some('['));
                    let mut arguments = String::new();
                    loop {
                        let next = chars.next().unwrap();
                        if next.is_ascii_alphabetic() {
                            self.command(&arguments, next);
                            break;
                        }
                        arguments.push(next);
                    }
                }
                '\r' => self.cursor.1 = 0,
                '\n' => {
                    assert!(self.cursor.0 + 1 < self.rows.len());
                    self.cursor.0 += 1;
                }
                c => self.put(c),
            }
        }
    }

    fn line(&self, row: usize) -> String {
        self.rows[row].iter().collect()
    }
}

fn watch(text: &str, terminal_rows: u16, keys: &[Key]) {
    let lines: Vec<&str> = text.lines().collect();
    let source = Arc::new(SimpleSource::new(text));
    let mut parser = Parser::new();
    let mut checker = Checker::new(source.clone());
    let mut renderer = Renderer::new(source, terminal_rows);
    let mut terminal = Terminal::new(terminal_rows as usize);
    terminal.write(&renderer.draw_initial());
    let size = renderer.window_size() as usize;
    for key in keys {
        for event in parser.parse(*key) {
            if let Some(control) = checker.step(event).control {
                assert!(renderer.can_handle(control));
                terminal.write(&renderer.handle(control));
            }
            if checker.is_halted() {
                return;
            }
            let (head, tail) = (renderer.head(), renderer.tail());
            let (row, column) = checker.position();
            assert_eq!(head, row);
            assert!(tail <= head && head - tail < size);
            assert_eq!(terminal.cursor, (head - tail, column));
            assert_eq!(terminal.line(head - tail), lines[head]);
            for shown in 0..size {
                if tail + shown < lines.len() {
                    assert_eq!(terminal.line(shown), lines[tail + shown], "row {}", shown);
                }
            }
        }
    }
}

fn keys(s: &str) -> Vec<Key> {
    s.chars().map(Key::Char).collect()
}

#[test]
fn screen_shows_the_window_of_the_text() {
    let text = "one\ntwo\nthree\nfour\nfive\nsix";
    for terminal_rows in 2..9 {
        let mut typed = keys("one\ntwo\nthree\nfo");
        typed.extend(std::iter::repeat(Key::Backspace).take(12));
        typed.extend(keys("wo\nthxee\nfour\nfive\nsix"));
        typed.extend(std::iter::repeat(Key::Backspace).take(40));
        typed.extend(keys("one\ntwo\n"));
        watch(text, terminal_rows, &typed);
    }
}

#[test]
fn screen_follows_a_walk_through_the_text() {
    let text = "ab\n\ncdef\ng\n\n\nhij\nkl";
    let all: Vec<char> = text.chars().collect();
    let mut state: u32 = 12345;
    let mut typed = Vec::new();
    let mut at = 0usize;
    for _ in 0..600 {
        state = state.wrapping_mul(1103515245).wrapping_add(12345);
        let choice = (state >> 16) % 8;
        if choice < 3 && at > 0 {
            typed.push(Key::Backspace);
            at -= 1;
        } else if choice == 3 {
            typed.push(Key::Other);
        } else if at < all.len() {
            // Now and then a wrong key: it is taken wherever a character is
            // expected, and refused at the end of a line.
            if choice == 4 && all[at] != '\n' {
                typed.push(Key::Char('#'));
            } else {
                typed.push(Key::Char(all[at]));
            }
            at += 1;
        }
    }
    for terminal_rows in 2..7 {
        watch(text, terminal_rows, &typed);
    }
}
