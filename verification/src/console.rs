//! The console: lines are collected until their brackets are closed, and then become an input or a
//! command.
use crate::brackets::{bracket_count, depth_bound, line_depth, short_line_fits, total_depth};
use crate::model::Text;
use crate::repl::MAX_FILE_SIZE;
use crate::text::{
    byte_len, byte_len_adds_up, byte_len_bound, chars_of, count_bytes, trim_text, trimmed,
};
use vstd::prelude::*;

verus! {

/// The lines that wait for more, joined, and how many brackets they leave open.
pub struct Console {
    buffer: String,
    depth: i32,
}

pub struct ConsoleV {
    pub buffer: Text,
    pub depth: int,
}

impl DeepView for Console {
    type V = ConsoleV;

    closed spec fn deep_view(&self) -> ConsoleV {
        ConsoleV { buffer: self.buffer@, depth: self.depth as int }
    }
}

/// What comes from the terminal.
pub enum Event {
    Line(String),
    Interrupted,
    Eof,
    Failed(String),
}

pub enum EventV {
    Line(Text),
    Interrupted,
    Eof,
    Failed(Text),
}

impl DeepView for Event {
    type V = EventV;

    open spec fn deep_view(&self) -> EventV {
        match *self {
            Event::Line(s) => EventV::Line(s@),
            Event::Interrupted => EventV::Interrupted,
            Event::Eof => EventV::Eof,
            Event::Failed(s) => EventV::Failed(s@),
        }
    }
}

/// What is to be done: read on, print a complaint and read on, answer a command, evaluate an input,
/// or print a message and stop. A command and an input go into the history.
#[derive(Debug, PartialEq)]
pub enum Action {
    Read,
    Complain(String),
    Command { line: String, entry: String },
    Evaluate(String),
    Quit(String),
}

pub enum ActionV {
    Read,
    Complain(Text),
    Command { line: Text, entry: Text },
    Evaluate(Text),
    Quit(Text),
}

impl DeepView for Action {
    type V = ActionV;

    open spec fn deep_view(&self) -> ActionV {
        match *self {
            Action::Read => ActionV::Read,
            Action::Complain(s) => ActionV::Complain(s@),
            Action::Command { line, entry } => ActionV::Command { line: line@, entry: entry@ },
            Action::Evaluate(s) => ActionV::Evaluate(s@),
            Action::Quit(s) => ActionV::Quit(s@),
        }
    }
}

/// A console on which nothing waits.
pub open spec fn empty_console() -> ConsoleV {
    ConsoleV { buffer: Seq::empty(), depth: 0 }
}

/// Whether the open brackets fit the lines that wait, and these are not too long.
pub open spec fn console_ok(c: ConsoleV) -> bool {
    &&& 0 <= c.depth <= byte_len(c.buffer)
    &&& byte_len(c.buffer) <= MAX_FILE_SIZE + 1
}

/// The prompt.
pub open spec fn prompt_text(c: ConsoleV) -> Text {
    if c.depth > 0 {
        "...> "@
    } else {
        "tinct> "@
    }
}

/// The lines that wait with one more.
pub open spec fn with_line(buffer: Text, line: Text) -> Text {
    if buffer.len() == 0 {
        line
    } else {
        buffer + "\n"@ + line
    }
}

/// What becomes of complete lines: nothing where they are blank, a command where they start with a
/// colon, and else an input.
pub open spec fn complete_action(buffer: Text) -> ActionV {
    if trimmed(buffer).len() == 0 {
        ActionV::Read
    } else if trimmed(buffer)[0] == ':' {
        ActionV::Command { line: trimmed(buffer), entry: buffer }
    } else {
        ActionV::Evaluate(buffer)
    }
}

/// What a line leads to.
pub open spec fn line_step(c: ConsoleV, line: Text) -> (ConsoleV, ActionV) {
    if byte_len(c.buffer) + byte_len(line) > MAX_FILE_SIZE {
        (
            empty_console(),
            ActionV::Complain("error: input exceeds the 10 MB limit (10485760 bytes)"@),
        )
    } else {
        let depth = c.depth + line_depth(line);
        let buffer = with_line(c.buffer, line);
        if depth > 0 {
            (ConsoleV { buffer, depth }, ActionV::Read)
        } else {
            (empty_console(), complete_action(buffer))
        }
    }
}

/// What an event leads to.
pub open spec fn console_step(c: ConsoleV, e: EventV) -> (ConsoleV, ActionV) {
    match e {
        EventV::Line(line) => line_step(c, line),
        EventV::Interrupted => if c.buffer.len() > 0 {
            (empty_console(), ActionV::Complain("^C (input cancelled)"@))
        } else {
            (c, ActionV::Complain("(use Ctrl-D to exit)"@))
        },
        EventV::Eof => (c, ActionV::Quit("Goodbye."@)),
        EventV::Failed(message) => (c, ActionV::Quit("readline error: "@ + message)),
    }
}

/// An event keeps the console in order.
pub proof fn step_keeps_order(c: ConsoleV, e: EventV)
    requires
        console_ok(c),
    ensures
        console_ok(console_step(c, e).0),
{
    match e {
        EventV::Line(line) => {
            line_bytes(c.buffer, line);
            depth_bound(line, line.len() as int);
            byte_len_bound(line);
        },
        _ => {},
    }
}

proof fn line_bytes(buffer: Text, line: Text)
    ensures
        byte_len(buffer) + byte_len(line) <= byte_len(with_line(buffer, line)) <= byte_len(buffer)
            + byte_len(line) + 1,
{
    if buffer.len() > 0 {
        byte_len_adds_up(buffer + "\n"@, line);
        byte_len_adds_up(buffer, "\n"@);
        reveal_strlit("\n");
        assert("\n"@ =~= seq!['\n']);
        assert("\n"@.drop_first() =~= Seq::empty());
        assert(byte_len("\n"@.drop_first()) == 0);
        assert(byte_len("\n"@) == 1);
    }
}

/// Nothing waits after a complaint about a line that is too long, an interrupt, a command or an
/// input.
pub proof fn done_lines_are_gone(c: ConsoleV, e: EventV)
    requires
        console_ok(c),
        !(e is Eof || e is Failed),
        !(console_step(c, e).1 is Read),
    ensures
        console_step(c, e).0 == empty_console(),
{
    match e {
        EventV::Interrupted => {
            if c.buffer.len() == 0 {
                assert(byte_len(c.buffer) == 0);
                assert(c.buffer =~= Seq::empty());
            }
        },
        _ => {},
    }
}

/// Lines, joined.
pub open spec fn joined(lines: Seq<Text>) -> Text
    decreases lines.len(),
{
    if lines.len() == 0 {
        Seq::empty()
    } else {
        with_line(joined(lines.drop_last()), lines.last())
    }
}

/// The console after lines.
pub open spec fn after_lines(lines: Seq<Text>) -> ConsoleV
    decreases lines.len(),
{
    if lines.len() == 0 {
        empty_console()
    } else {
        line_step(after_lines(lines.drop_last()), lines.last()).0
    }
}

/// Whether the brackets stay open after each of the lines.
pub open spec fn stay_open(lines: Seq<Text>) -> bool {
    forall|k: int| 0 < k <= lines.len() ==> total_depth(#[trigger] lines.take(k)) > 0
}

proof fn joined_bytes(lines: Seq<Text>)
    requires
        lines.len() > 0,
    ensures
        byte_len(joined(lines.drop_last())) + byte_len(lines.last()) <= byte_len(joined(lines)),
{
    line_bytes(joined(lines.drop_last()), lines.last());
}

/// Lines that leave brackets open wait together.
pub proof fn open_lines_wait(lines: Seq<Text>)
    requires
        stay_open(lines),
        byte_len(joined(lines)) <= MAX_FILE_SIZE,
    ensures
        after_lines(lines) == (ConsoleV { buffer: joined(lines), depth: total_depth(lines) }),
    decreases lines.len(),
{
    if lines.len() > 0 {
        let front = lines.drop_last();
        assert forall|k: int| 0 < k <= front.len() implies total_depth(#[trigger] front.take(k))
            > 0 by {
            assert(front.take(k) =~= lines.take(k));
        }
        joined_bytes(lines);
        open_lines_wait(front);
        assert(lines.take(lines.len() as int) =~= lines);
    }
}

/// The line that closes the brackets of those before it makes them all one input: lines are
/// evaluated together, as soon as they are balanced.
pub proof fn balanced_lines_are_one_input(lines: Seq<Text>)
    requires
        lines.len() > 0,
        stay_open(lines.drop_last()),
        byte_len(joined(lines)) <= MAX_FILE_SIZE,
    ensures
        ({
            let (after, action) = line_step(after_lines(lines.drop_last()), lines.last());
            if total_depth(lines) <= 0 {
                after == empty_console() && action == complete_action(joined(lines))
            } else {
                after.buffer == joined(lines) && action is Read
            }
        }),
{
    joined_bytes(lines);
    open_lines_wait(lines.drop_last());
}

impl Console {
    /// A console on which nothing waits.
    pub fn new() -> (r: Console)
        ensures
            r.deep_view() == empty_console(),
            console_ok(r.deep_view()),
    {
        let r: Console = Console { buffer: String::new(), depth: 0 };
        assert(r.deep_view().buffer =~= Seq::empty());
        r
    }

    /// The prompt.
    pub fn prompt(&self) -> (r: &'static str)
        ensures
            r@ == prompt_text(self.deep_view()),
    {
        if self.depth > 0 {
            "...> "
        } else {
            "tinct> "
        }
    }

    fn clear(&mut self)
        ensures
            final(self).deep_view() == empty_console(),
    {
        self.buffer = String::new();
        self.depth = 0;
        assert(self.deep_view().buffer =~= Seq::empty());
    }

    fn take_line(&mut self, line: String) -> (r: Action)
        requires
            console_ok(old(self).deep_view()),
        ensures
            (final(self).deep_view(), r.deep_view()) == line_step(old(self).deep_view(), line@),
    {
        let ghost before = self.deep_view();
        let waiting: usize = count_bytes(self.buffer.as_str());
        let added: usize = count_bytes(line.as_str());
        if added as u64 > MAX_FILE_SIZE || waiting as u64 > MAX_FILE_SIZE - added as u64 {
            self.clear();
            return Action::Complain("error: input exceeds the 10 MB limit (10485760 bytes)".to_owned());
        }
        proof {
            byte_len_bound(line@);
            short_line_fits(line@);
            depth_bound(line@, line@.len() as int);
        }
        let depth: i32 = self.depth + bracket_count(line.as_str());
        let mut buffer: String = self.buffer.clone();
        if self.buffer.as_str().is_empty() {
            buffer = line;
        } else {
            buffer.append("\n");
            buffer.append(line.as_str());
        }
        assert(buffer@ == with_line(before.buffer, line@));
        if depth > 0 {
            self.buffer = buffer;
            self.depth = depth;
            return Action::Read;
        }
        self.clear();
        let text: String = trim_text(buffer.as_str());
        let chars: Vec<char> = chars_of(text.as_str());
        if chars.len() == 0 {
            Action::Read
        } else if chars[0] == ':' {
            Action::Command { line: text, entry: buffer }
        } else {
            Action::Evaluate(buffer)
        }
    }

    /// Handles an event.
    pub fn handle(&mut self, event: Event) -> (r: Action)
        requires
            console_ok(old(self).deep_view()),
        ensures
            (final(self).deep_view(), r.deep_view()) == console_step(
                old(self).deep_view(),
                event.deep_view(),
            ),
            console_ok(final(self).deep_view()),
    {
        proof {
            step_keeps_order(self.deep_view(), event.deep_view());
        }
        match event {
            Event::Line(line) => self.take_line(line),
            Event::Interrupted => {
                if self.buffer.as_str().is_empty() {
                    Action::Complain("(use Ctrl-D to exit)".to_owned())
                } else {
                    self.clear();
                    Action::Complain("^C (input cancelled)".to_owned())
                }
            },
            Event::Eof => Action::Quit("Goodbye.".to_owned()),
            Event::Failed(message) => {
                let mut text: String = "readline error: ".to_owned();
                text.append(message.as_str());
                Action::Quit(text)
            },
        }
    }
}

/// What becomes of lines whose brackets are closed depends on how they start: those that start with
/// a colon are a command and are remembered as they were typed, others are evaluated as they were
/// typed, and blank ones are passed over.
pub proof fn complete_lines_are_told_apart(line: Text)
    requires
        line_depth(line) <= 0,
        byte_len(line) <= MAX_FILE_SIZE,
    ensures
        console_step(empty_console(), EventV::Line(line)).0 == empty_console(),
        match console_step(empty_console(), EventV::Line(line)).1 {
            ActionV::Command { line: command, entry } => entry == line && command == trimmed(line)
                && command.len() > 0 && command[0] == ':',
            ActionV::Evaluate(input) => input == line && trimmed(line).len() > 0 && trimmed(
                line,
            )[0] != ':',
            ActionV::Read => trimmed(line).len() == 0,
            _ => false,
        },
{
    assert(byte_len(Seq::<char>::empty()) == 0);
}

/// An interrupt throws away what waits and never ends the session; only the end of the input and a
/// failure to read end it.
pub proof fn only_the_end_ends(c: ConsoleV, e: EventV)
    ensures
        console_step(c, e).1 is Quit <==> e is Eof || e is Failed,
        e is Interrupted ==> console_step(c, e).0.buffer.len() == 0 && console_step(c, e).1
            is Complain,
{
}

} // verus!
