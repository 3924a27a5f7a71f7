//! The input stage: keys become edit events.

use vstd::prelude::*;

verus! {

/// A key press, as far as the parser tells keys apart.
#[derive(Debug, Clone, Copy, PartialEq, Eq)]
pub enum Key {
    Backspace,
    /// A character key; the tabulator and the line feed are characters too.
    Char(char),
    /// A character key pressed together with the control key.
    Ctrl(char),
    /// Any key that the parser ignores.
    Other,
}

/// An edit event: what a key asks the checker to do.
#[derive(Debug, Clone, Copy, PartialEq, Eq)]
pub enum Parsed {
    Stop,
    Backspace,
    Symbol(char),
}

/// The key combination that ends the session.
pub open spec fn is_interrupt(key: Key) -> bool {
    key == Key::Ctrl('c')
}

/// The events that one key stands for: a tabulator is four blanks, the
/// interrupt is `Stop`, and a key that means nothing gives no event.
pub open spec fn events_of(key: Key) -> Seq<Parsed> {
    match key {
        Key::Ctrl(c) => if c == 'c' {
            seq![Parsed::Stop]
        } else {
            Seq::empty()
        },
        Key::Char(c) => if c == '\t' {
            seq![
                Parsed::Symbol(' '),
                Parsed::Symbol(' '),
                Parsed::Symbol(' '),
                Parsed::Symbol(' '),
            ]
        } else {
            seq![Parsed::Symbol(c)]
        },
        Key::Backspace => seq![Parsed::Backspace],
        Key::Other => Seq::empty(),
    }
}

/// The events of a run of keys: those of each key in turn, up to and with the
/// `Stop` of the first interrupt. No key after it is looked at.
pub open spec fn events_of_all(keys: Seq<Key>) -> Seq<Parsed>
    decreases keys.len(),
{
    if keys.len() == 0 {
        Seq::empty()
    } else if is_interrupt(keys[0]) {
        seq![Parsed::Stop]
    } else {
        events_of(keys[0]) + events_of_all(keys.drop_first())
    }
}

/// Whether a run of keys holds the interrupt.
pub open spec fn interrupted(keys: Seq<Key>) -> bool {
    exists|i: int| 0 <= i < keys.len() && is_interrupt(#[trigger] keys[i])
}

/// The parser's state: it reads keys until it is stopped, by the interrupt
/// or from outside.
pub struct Parser {
    running: bool,
}

impl Parser {
    /// Whether the parser still takes keys.
    pub closed spec fn running(&self) -> bool {
        self.running
    }

    pub fn new() -> (parser: Parser)
        ensures
            parser.running(),
    {
        Parser { running: true }
    }

    pub fn is_running(&self) -> (running: bool)
        ensures
            running == self.running(),
    {
        self.running
    }

    /// The check that comes before each read: once a stop has been signalled
    /// from outside, the parser takes no further key. Returns whether the
    /// next key is to be read.
    pub fn poll(&mut self, stop_signalled: bool) -> (read: bool)
        ensures
            final(self).running() == (old(self).running() && !stop_signalled),
            read == final(self).running(),
    {
        if stop_signalled {
            self.running = false;
        }
        self.running
    }

    /// The events of one key. A stopped parser gives none; the interrupt
    /// stops it.
    pub fn parse(&mut self, key: Key) -> (events: Vec<Parsed>)
        ensures
            events@ == if old(self).running() {
                events_of(key)
            } else {
                Seq::empty()
            },
            final(self).running() == (old(self).running() && !is_interrupt(key)),
    {
        let mut events: Vec<Parsed> = Vec::new();
        if !self.running {
            return events;
        }
        match key {
            Key::Ctrl(c) => {
                if c == 'c' {
                    events.push(Parsed::Stop);
                    self.running = false;
                }
            },
            Key::Char(c) => {
                if c == '\t' {
                    let mut sent: usize = 0;
                    while sent < 4
                        invariant
                            sent <= 4,
                            events@ == Seq::new(sent as nat, |i: int| Parsed::Symbol(' ')),
                        decreases 4 - sent,
                    {
                        events.push(Parsed::Symbol(' '));
                        sent += 1;
                        assert(events@ =~= Seq::new(sent as nat, |i: int| Parsed::Symbol(' ')));
                    }
                    assert(events@ =~= events_of(key));
                } else {
                    events.push(Parsed::Symbol(c));
                }
            },
            Key::Backspace => {
                events.push(Parsed::Backspace);
            },
            Key::Other => {},
        }
        assert(events@ =~= events_of(key));
        events
    }

    /// Parses a run of keys with no stop from outside.
    pub fn run(&mut self, keys: &Vec<Key>) -> (events: Vec<Parsed>)
        ensures
            events@ == if old(self).running() {
                events_of_all(keys@)
            } else {
                Seq::empty()
            },
            final(self).running() == (old(self).running() && !interrupted(keys@)),
    {
        let mut events: Vec<Parsed> = Vec::new();
        let mut i: usize = 0;
        if !self.running {
            return events;
        }
        assert(keys@.skip(0) =~= keys@);
        while i < keys.len() && self.running
            invariant
                i <= keys.len(),
                self.running() ==> events_of_all(keys@) == events@ + events_of_all(
                    keys@.skip(i as int),
                ),
                !self.running() ==> events_of_all(keys@) == events@,
                self.running() == !interrupted(keys@.take(i as int)),
            decreases keys.len() - i,
        {
            let ghost rest = keys@.skip(i as int);
            let ghost before = events@;
            let mut more = self.parse(keys[i]);
            events.append(&mut more);
            proof {
                assert(rest[0] == keys@[i as int]);
                assert(rest.drop_first() =~= keys@.skip(i + 1));
                assert(keys@.take(i + 1) =~= keys@.take(i as int).push(keys@[i as int]));
                if is_interrupt(keys@[i as int]) {
                    assert(events@ =~= before + seq![Parsed::Stop]);
                    assert(keys@.take(i + 1)[i as int] == keys@[i as int]);
                } else {
                    assert(events@ + events_of_all(keys@.skip(i + 1)) =~= before + (events_of(
                        rest[0],
                    ) + events_of_all(rest.drop_first())));
                    assert forall|k: int| 0 <= k < i + 1 implies !is_interrupt(
                        #[trigger] keys@.take(i + 1)[k],
                    ) by {
                        if k < i {
                            assert(keys@.take(i as int)[k] == keys@[k]);
                        }
                    }
                }
            }
            i += 1;
        }
        proof {
            if self.running() {
                assert(keys@.take(i as int) =~= keys@);
                assert(keys@.skip(i as int).len() == 0);
                assert(events@ + events_of_all(keys@.skip(i as int)) =~= events@);
            } else {
                let k = choose|k: int| 0 <= k < i && is_interrupt(#[trigger] keys@.take(i as int)[k]);
                assert(is_interrupt(keys@[k]));
            }
        }
        events
    }
}

/// Keys that follow the interrupt are never read: whatever comes after it, the
/// events are those of the keys before it and one `Stop`.
pub proof fn interrupt_ends_input(before: Seq<Key>, after: Seq<Key>)
    requires
        !interrupted(before),
    ensures
        events_of_all(before + seq![Key::Ctrl('c')] + after) == events_of_all(before) + seq![
            Parsed::Stop,
        ],
    decreases before.len(),
{
    let keys = before + seq![Key::Ctrl('c')] + after;
    if before.len() == 0 {
        assert(keys[0] == Key::Ctrl('c'));
        assert(events_of_all(before) + seq![Parsed::Stop] =~= seq![Parsed::Stop]);
    } else {
        assert(keys[0] == before[0]);
        assert(!is_interrupt(before[0]));
        let shorter = before.drop_first();
        assert forall|i: int| 0 <= i < shorter.len() implies !is_interrupt(
            #[trigger] shorter[i],
        ) by {
            assert(shorter[i] == before[i + 1]);
        }
        interrupt_ends_input(shorter, after);
        assert(keys.drop_first() =~= shorter + seq![Key::Ctrl('c')] + after);
        assert(events_of_all(keys) =~= events_of_all(before) + seq![Parsed::Stop]);
    }
}

/// A run of keys that holds the interrupt ends in `Stop`.
pub proof fn interrupt_is_last_event(keys: Seq<Key>)
    requires
        interrupted(keys),
    ensures
        events_of_all(keys).len() > 0,
        events_of_all(keys).last() == Parsed::Stop,
    decreases keys.len(),
{
    let at = choose|i: int| 0 <= i < keys.len() && is_interrupt(#[trigger] keys[i]);
    if !is_interrupt(keys[0]) {
        let rest = keys.drop_first();
        assert(is_interrupt(rest[at - 1]));
        interrupt_is_last_event(rest);
    }
}

} // verus!
