//! One task and the line that stores it.
use vstd::prelude::*;
use crate::text::{decimal, push_char, push_decimal, trim, trimmed};

verus! {

/// The prefix of a line that stores a finished task.
pub open spec fn done_mark() -> Seq<char> {
    seq!['[', '*', ']', ' ']
}

/// The prefix of a line that stores an open task.
pub open spec fn open_mark() -> Seq<char> {
    seq!['[', ' ', ']', ' ']
}

/// The stored line of a task.
pub open spec fn encode(text: Seq<char>, done: bool) -> Seq<char> {
    (if done {
        done_mark()
    } else {
        open_mark()
    }) + text
}

/// Whether a stored line says that its task is finished.
pub open spec fn decode_done(line: Seq<char>) -> bool {
    line.len() >= 4 && line.take(4) == done_mark()
}

/// The text of the task that a stored line holds: what follows a known
/// prefix, or the whole line where it has none.
pub open spec fn decode_text(line: Seq<char>) -> Seq<char> {
    if line.len() >= 4 && (line.take(4) == done_mark() || line.take(4) == open_mark()) {
        line.skip(4)
    } else {
        line
    }
}

/// The escape character that starts a terminal control sequence.
pub open spec fn esc() -> char {
    '\u{1b}'
}

/// A text between the terminal's strike-through and reset sequences.
pub open spec fn struck(s: Seq<char>) -> Seq<char> {
    seq![esc(), '[', '9', 'm'] + s + seq![esc(), '[', '0', 'm']
}

/// How a task's text may show in a listing: open tasks as they are,
/// finished ones struck through where the terminal takes styles.
pub open spec fn shown_as(text: Seq<char>, done: bool, shown: Seq<char>) -> bool {
    if !done {
        shown == text
    } else {
        !text.contains(esc()) ==> (shown == text || shown == struck(text))
    }
}

/// The listing line of a task: its number, a space, the text as shown.
pub open spec fn listed(number: nat, shown: Seq<char>) -> Seq<char> {
    decimal(number) + seq![' '] + shown + seq!['\n']
}

/// Relies on colored's `strikethrough` and its `Display`: the text framed by
/// the strike-through and reset sequences, or left plain where colouring is
/// off (which the environment and the terminal decide).
#[verifier::external_body]
fn strike(s: &String) -> (r: String)
    ensures
        !s@.contains(esc()) ==> (r@ == s@ || r@ == struck(s@)),
{
    colored::Colorize::strikethrough(s.as_str()).to_string()
}

/// One task: its text and whether it is finished.
pub struct Entry {
    pub todo_entry: String,
    pub done: bool,
}

/// The listing line for a task whose text shows as `shown`.
pub fn listed_line(number: usize, shown: &str) -> (r: String)
    ensures
        r@ == listed(number as nat, shown@),
{
    let mut s = String::new();
    push_decimal(&mut s, number);
    push_char(&mut s, ' ');
    s.append(shown);
    push_char(&mut s, '\n');
    assert(s@ =~= listed(number as nat, shown@));
    s
}

impl Entry {
    /// A task with the given text, trimmed of surrounding whitespace.
    pub fn new(todo_entry: String, done: bool) -> (r: Self)
        ensures
            r.todo_entry@ == trim(todo_entry@),
            r.done == done,
    {
        Entry { todo_entry: trimmed(todo_entry.as_str()), done }
    }

    /// The stored line of the entry, without a line feed.
    pub fn file_line(&self) -> (r: String)
        ensures
            r@ == encode(self.todo_entry@, self.done),
    {
        let mut s = if self.done {
            String::from_str("[*] ")
        } else {
            String::from_str("[ ] ")
        };
        proof {
            reveal_strlit("[*] ");
            reveal_strlit("[ ] ");
        }
        s.append(self.todo_entry.as_str());
        assert(s@ =~= encode(self.todo_entry@, self.done));
        s
    }

    /// The listing line of the entry, numbered `number`.
    pub fn list_line(&self, number: usize) -> (r: String)
        ensures
            exists|shown: Seq<char>|
                shown_as(self.todo_entry@, self.done, shown) && r@ == listed(
                    number as nat,
                    shown,
                ),
    {
        if self.done {
            let shown = strike(&self.todo_entry);
            let r = listed_line(number, shown.as_str());
            assert(shown_as(self.todo_entry@, self.done, shown@));
            r
        } else {
            let r = listed_line(number, self.todo_entry.as_str());
            assert(shown_as(self.todo_entry@, self.done, self.todo_entry@));
            r
        }
    }

    /// The task that a stored line holds; a line without a known prefix is
    /// an open task whose text is the whole line.
    pub fn read_line(line: &String) -> (r: Self)
        ensures
            r.todo_entry@ == decode_text(line@),
            r.done == decode_done(line@),
    {
        let n = line.unicode_len();
        let mut done = false;
        let mut marked = false;
        if n >= 4 {
            let c0 = line.get_char(0);
            let c1 = line.get_char(1);
            let c2 = line.get_char(2);
            let c3 = line.get_char(3);
            if c0 == '[' && c2 == ']' && c3 == ' ' {
                if c1 == '*' {
                    done = true;
                    marked = true;
                } else if c1 == ' ' {
                    marked = true;
                }
            }
            assert(line@.take(4) == done_mark() <==> (c0 == '[' && c1 == '*' && c2 == ']' && c3
                == ' ')) by {
                if c0 == '[' && c1 == '*' && c2 == ']' && c3 == ' ' {
                    assert(line@.take(4) =~= done_mark());
                }
            }
            assert(line@.take(4) == open_mark() <==> (c0 == '[' && c1 == ' ' && c2 == ']' && c3
                == ' ')) by {
                if c0 == '[' && c1 == ' ' && c2 == ']' && c3 == ' ' {
                    assert(line@.take(4) =~= open_mark());
                }
            }
        }
        let todo_entry = if marked {
            String::from_str(line.as_str().substring_char(4, n))
        } else {
            line.clone()
        };
        proof {
            if marked {
                assert(line@.subrange(4, n as int) =~= line@.skip(4));
            }
        }
        Entry { todo_entry, done }
    }

    /// The text alone, as scripts read it.
    pub fn raw_line(&self) -> (r: String)
        ensures
            r@ == self.todo_entry@,
    {
        self.todo_entry.clone()
    }
}

/// A stored line reads back as the task it was written from.
pub proof fn lemma_decode_encode(text: Seq<char>, done: bool)
    ensures
        decode_text(encode(text, done)) == text,
        decode_done(encode(text, done)) == done,
{
    let l = encode(text, done);
    assert(l.take(4) =~= (if done {
        done_mark()
    } else {
        open_mark()
    }));
    assert(l.skip(4) =~= text);
    assert(done_mark() != open_mark()) by {
        assert(done_mark()[1] != open_mark()[1]);
    }
}

/// A line too short to hold a prefix reads as an open task whose text is
/// the whole line.
pub proof fn law_short_line(line: Seq<char>)
    requires
        line.len() < 4,
    ensures
        !decode_done(line),
        decode_text(line) == line,
{
}

} // verus!
