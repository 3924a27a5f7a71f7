use typing_tutor::source::{SimpleSource, Source};

fn line(source: &SimpleSource, row: usize) -> Option<String> {
    source.get_line(row).map(|l| l.iter().collect())
}

#[test]
fn text_is_split_at_line_feeds() {
    let source = SimpleSource::new("ab\ncd");
    assert_eq!(line(&source, 0), Some(String::from("ab")));
    assert_eq!(line(&source, 1), Some(String::from("cd")));
    assert_eq!(line(&source, 2), None);
}

#[test]
fn empty_text_has_no_lines() {
    let source = SimpleSource::new("");
    assert_eq!(line(&source, 0), None);
    assert_eq!(source.get_char(0, 0), None);
}

#[test]
fn final_line_feed_adds_no_line() {
    let source = SimpleSource::new("ab\n");
    assert_eq!(line(&source, 0), Some(String::from("ab")));
    assert_eq!(line(&source, 1), None);
}

#[test]
fn empty_lines_are_kept() {
    let source = SimpleSource::new("a\n\nb\n\n");
    assert_eq!(line(&source, 0), Some(String::from("a")));
    assert_eq!(line(&source, 1), Some(String::new()));
    assert_eq!(line(&source, 2), Some(String::from("b")));
    assert_eq!(line(&source, 3), Some(String::new()));
    assert_eq!(line(&source, 4), None);
}

#[test]
fn lone_line_feed_is_one_empty_line() {
    let source = SimpleSource::new("\n");
    assert_eq!(line(&source, 0), Some(String::new()));
    assert_eq!(line(&source, 1), None);
}

#[test]
fn carriage_return_before_line_feed_is_dropped() {
    let source = SimpleSource::new("ab\r\ncd\r\n");
    assert_eq!(line(&source, 0), Some(String::from("ab")));
    assert_eq!(line(&source, 1), Some(String::from("cd")));
    assert_eq!(line(&source, 2), None);
}

#[test]
fn other_carriage_returns_stay() {
    let source = SimpleSource::new("a\rb\r\r\nc\r");
    assert_eq!(line(&source, 0), Some(String::from("a\rb\r")));
    assert_eq!(line(&source, 1), Some(String::from("c\r")));
    assert_eq!(line(&source, 2), None);
}

#[test]
fn lines_are_those_of_std() {
    let texts = [
        "",
        "\n",
        "\r\n",
        "\r",
        "a",
        "a\n",
        "a\r\n",
        "a\r",
        "\n\n",
        "x\n\ny",
        "Hey dawg, this\nis a test string\nfor you to practice!",
        "tab\there\r\n\r\nend\n",
        "gr\u{fc}\u{df}e\n\u{4e16}\u{754c}",
    ];
    for text in texts {
        let source = SimpleSource::new(text);
        let expected: Vec<String> = text.lines().map(String::from).collect();
        for (row, want) in expected.iter().enumerate() {
            assert_eq!(line(&source, row).as_ref(), Some(want), "row {} of {:?}", row, text);
        }
        assert_eq!(line(&source, expected.len()), None, "end of {:?}", text);
    }
}

#[test]
fn characters_are_read_by_row_and_column() {
    let source = SimpleSource::new("ab\ncde");
    assert_eq!(source.get_char(0, 0), Some(&'a'));
    assert_eq!(source.get_char(0, 1), Some(&'b'));
    assert_eq!(source.get_char(0, 2), None);
    assert_eq!(source.get_char(1, 2), Some(&'e'));
    assert_eq!(source.get_char(1, 3), None);
    assert_eq!(source.get_char(2, 0), None);
}

#[test]
fn characters_are_code_points() {
    let source = SimpleSource::new("\u{e9}\u{4e16}z");
    assert_eq!(source.get_char(0, 0), Some(&'\u{e9}'));
    assert_eq!(source.get_char(0, 1), Some(&'\u{4e16}'));
    assert_eq!(source.get_char(0, 2), Some(&'z'));
    assert_eq!(source.get_line(0).map(|l| l.len()), Some(3));
}
