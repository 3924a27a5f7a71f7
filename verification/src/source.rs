//! The reference text: a line-indexed, read-only buffer of characters.

use vstd::prelude::*;

verus! {

/// Index of the first line feed of `s`, or `s.len()` where it holds none.
pub open spec fn line_end(s: Seq<char>) -> int
    decreases s.len(),
{
    if s.len() == 0 || s[0] == '\n' {
        0
    } else {
        1 + line_end(s.drop_first())
    }
}

/// A line without the carriage return that stood before its line feed.
pub open spec fn strip_return(line: Seq<char>) -> Seq<char> {
    if line.len() > 0 && line.last() == '\r' {
        line.drop_last()
    } else {
        line
    }
}

/// The lines of a text. A line ends at a line feed, or at a carriage return
/// directly followed by one; the terminator belongs to no line. The last line
/// needs no terminator, so a text that ends in one has no empty line after it.
/// A last line without a line feed keeps a carriage return at its end.
pub open spec fn split_lines(s: Seq<char>) -> Seq<Seq<char>>
    decreases s.len(),
{
    let end = line_end(s);
    if s.len() == 0 {
        Seq::empty()
    } else if end < 0 || end >= s.len() {
        // No line feed is left: the rest is the last line.
        seq![s]
    } else {
        seq![strip_return(s.take(end))] + split_lines(s.skip(end + 1))
    }
}

/// The character at `(row, column)` of `text`, where there is one.
pub open spec fn char_at(text: Seq<Seq<char>>, row: int, column: int) -> Option<char> {
    if 0 <= row < text.len() && 0 <= column < text[row].len() {
        Some(text[row][column])
    } else {
        None
    }
}

/// Line `row` of `text`, where there is one.
pub open spec fn line_at(text: Seq<Seq<char>>, row: int) -> Option<Seq<char>> {
    if 0 <= row < text.len() {
        Some(text[row])
    } else {
        None
    }
}

/// Rows and columns of `text` fit the integers that index them.
pub open spec fn indexable(text: Seq<Seq<char>>) -> bool {
    &&& text.len() <= usize::MAX
    &&& forall|row: int| 0 <= row < text.len() ==> (#[trigger] text[row]).len() <= usize::MAX
}

/// A text that can be read by row and column.
pub trait Source: Send + Sync {
    /// The lines that this source holds.
    spec fn text(&self) -> Seq<Seq<char>>;

    /// Rows and columns of the text fit the integers that index them.
    proof fn lemma_text_fits(&self)
        ensures
            indexable(self.text()),
    ;

    fn get_char(&self, row: usize, column: usize) -> (symbol: Option<&char>)
        ensures
            match symbol {
                Some(c) => char_at(self.text(), row as int, column as int) == Some(*c),
                None => char_at(self.text(), row as int, column as int) is None,
            },
    ;

    fn get_line(&self, row: usize) -> (line: Option<&Vec<char>>)
        ensures
            match line {
                Some(l) => line_at(self.text(), row as int) == Some(l@),
                None => line_at(self.text(), row as int) is None,
            },
    ;
}

/// A source that keeps the whole text in memory, one vector for each line.
pub struct SimpleSource {
    source: Vec<Vec<char>>,
}

/// The lines that a vector of lines stands for.
pub open spec fn lines_view(lines: Seq<Vec<char>>) -> Seq<Seq<char>> {
    Seq::new(lines.len(), |i: int| lines[i]@)
}

/// `line_end` finds the first line feed: it is `k` where no earlier character
/// is one and the text ends or has one at `k`.
proof fn lemma_line_end(s: Seq<char>, k: int)
    requires
        0 <= k <= s.len(),
        forall|i: int| 0 <= i < k ==> s[i] != '\n',
        k == s.len() || s[k] == '\n',
    ensures
        line_end(s) == k,
    decreases s.len(),
{
    if k > 0 {
        let rest = s.drop_first();
        assert forall|i: int| 0 <= i < k - 1 implies rest[i] != '\n' by {
            assert(rest[i] == s[i + 1]);
        }
        lemma_line_end(rest, k - 1);
    }
}

/// The characters of `s` as a vector.
fn characters(s: &str) -> (chars: Vec<char>)
    ensures
        chars@ == s@,
{
    broadcast use vstd::string::axiom_spec_iter;

    let mut chars: Vec<char> = Vec::new();
    for c in it: s.chars()
        invariant
            chars@ == it.seq().take(it.index() as int),
            it.seq() == s@,
    {
        chars.push(c);
        assert(it.seq().take(it.index() + 1) =~= it.seq().take(it.index() as int).push(c));
    }
    assert(chars@ =~= s@);
    chars
}

/// A copy of `chars[from..to]`.
fn copy_range(chars: &Vec<char>, from: usize, to: usize) -> (part: Vec<char>)
    requires
        from <= to <= chars.len(),
    ensures
        part@ == chars@.subrange(from as int, to as int),
{
    let mut part: Vec<char> = Vec::new();
    let mut i: usize = from;
    while i < to
        invariant
            from <= i <= to <= chars.len(),
            part@ == chars@.subrange(from as int, i as int),
        decreases to - i,
    {
        part.push(chars[i]);
        i += 1;
        assert(part@ =~= chars@.subrange(from as int, i as int));
    }
    assert(part@ =~= chars@.subrange(from as int, to as int));
    part
}

impl SimpleSource {
    /// Splits `source` into its lines.
    pub fn new(source: &str) -> (made: SimpleSource)
        ensures
            made.text() == split_lines(source@),
    {
        let chars = characters(source);
        let n = chars.len();
        let mut lines: Vec<Vec<char>> = Vec::new();
        let mut start: usize = 0;
        assert(chars@.skip(0) =~= chars@);
        assert(lines_view(lines@) + split_lines(chars@) =~= split_lines(chars@));
        while start < n
            invariant
                n == chars.len(),
                start <= n,
                split_lines(chars@) == lines_view(lines@) + split_lines(chars@.skip(start as int)),
            decreases n - start,
        {
            let ghost rest = chars@.skip(start as int);
            let ghost before = lines_view(lines@);
            let mut end: usize = start;
            while end < n && chars[end] != '\n'
                invariant
                    n == chars.len(),
                    start <= end <= n,
                    forall|i: int| start <= i < end ==> chars@[i] != '\n',
                decreases n - end,
            {
                end += 1;
            }
            proof {
                lemma_line_end(rest, end - start);
            }
            if end == n {
                let line = copy_range(&chars, start, n);
                lines.push(line);
                proof {
                    assert(line@ =~= rest);
                    assert(chars@.skip(n as int).len() == 0);
                    assert(lines_view(lines@) =~= before + seq![rest]);
                    assert(split_lines(chars@.skip(n as int)) =~= Seq::<Seq<char>>::empty());
                }
                start = n;
            } else {
                let stop = if end > start && chars[end - 1] == '\r' {
                    end - 1
                } else {
                    end
                };
                let line = copy_range(&chars, start, stop);
                lines.push(line);
                proof {
                    let whole = rest.take(end - start);
                    assert(whole =~= chars@.subrange(start as int, end as int));
                    assert(line@ =~= strip_return(whole));
                    assert(rest.skip(end - start + 1) =~= chars@.skip(end + 1));
                    assert(lines_view(lines@) =~= before + seq![strip_return(whole)]);
                }
                start = end + 1;
            }
        }
        proof {
            assert(chars@.skip(start as int).len() == 0);
            assert(lines_view(lines@) + split_lines(chars@.skip(start as int)) =~= lines_view(
                lines@,
            ));
        }
        SimpleSource { source: lines }
    }
}

impl Source for SimpleSource {
    closed spec fn text(&self) -> Seq<Seq<char>> {
        lines_view(self.source@)
    }

    proof fn lemma_text_fits(&self) {
        assert(self.source.len() <= usize::MAX);
        assert(self.text().len() == self.source@.len());
        assert forall|row: int| 0 <= row < self.text().len() implies (#[trigger] self.text()[row]).len()
            <= usize::MAX by {
            assert(self.text()[row] == self.source@[row]@);
            assert(self.source@[row].len() <= usize::MAX);
        }
    }

    fn get_char(&self, row: usize, column: usize) -> (symbol: Option<&char>) {
        if row < self.source.len() {
            let line = &self.source[row];
            if column < line.len() {
                Some(&line[column])
            } else {
                None
            }
        } else {
            None
        }
    }

    fn get_line(&self, row: usize) -> (line: Option<&Vec<char>>) {
        if row < self.source.len() {
            Some(&self.source[row])
        } else {
            None
        }
    }
}

} // verus!
