//! The command line of the dashboard: a bounded buffer of typed characters
//! and the commands that a finished line stands for.

use vstd::prelude::*;
use crate::geometry::Rectangle;
use crate::text::{collect_range, range_is, push_all};

verus! {

/// The number of characters that the command line holds at most.
pub const MAX_CHAR: usize = 20;

/// What the user can ask of the dashboard.
#[derive(Clone, Debug, PartialEq, Eq)]
pub enum Command {
    Exit,
    AddAsset(String),
    RemoveAsset(String),
    ChangeInterval(String),
}

/// The model of a command: its subject as a sequence of characters.
pub enum CommandView {
    Exit,
    AddAsset(Seq<char>),
    RemoveAsset(Seq<char>),
    ChangeInterval(Seq<char>),
}

impl View for Command {
    type V = CommandView;

    open spec fn view(&self) -> CommandView {
        match self {
            Command::Exit => CommandView::Exit,
            Command::AddAsset(subject) => CommandView::AddAsset(subject@),
            Command::RemoveAsset(subject) => CommandView::RemoveAsset(subject@),
            Command::ChangeInterval(subject) => CommandView::ChangeInterval(subject@),
        }
    }
}

/// A key press, as far as the command line tells keys apart.
#[derive(Clone, Copy, Debug, PartialEq, Eq, Structural)]
pub enum Key {
    Char(char),
    Backspace,
    Enter,
    Other,
}

/// The position of the first space of `text`, or its length where it holds
/// no space.
pub open spec fn first_space(text: Seq<char>) -> int
    decreases text.len(),
{
    if text.len() == 0 {
        0
    } else if text[0] == ' ' {
        0
    } else {
        1 + first_space(text.drop_first())
    }
}

/// The words of `text`: the runs of characters between its spaces. A text
/// with `n` spaces has `n + 1` words, some of which may be empty.
pub open spec fn words(text: Seq<char>) -> Seq<Seq<char>>
    decreases text.len(),
    via words_decreases
{
    let at = first_space(text);
    if at >= text.len() {
        seq![text]
    } else {
        seq![text.subrange(0, at)] + words(text.subrange(at + 1, text.len() as int))
    }
}

#[via_fn]
proof fn words_decreases(text: Seq<char>) {
    lemma_first_space_bounds(text);
}

/// The command that a line of the given words stands for: `EXIT` alone, or
/// one of `ADD`, `REMOVE` and `INTERVAL` followed by one word, its subject.
pub open spec fn command_of(line: Seq<Seq<char>>) -> Option<CommandView> {
    if line.len() == 1 && line[0] == "EXIT"@ {
        Some(CommandView::Exit)
    } else if line.len() == 2 && line[0] == "ADD"@ {
        Some(CommandView::AddAsset(line[1]))
    } else if line.len() == 2 && line[0] == "REMOVE"@ {
        Some(CommandView::RemoveAsset(line[1]))
    } else if line.len() == 2 && line[0] == "INTERVAL"@ {
        Some(CommandView::ChangeInterval(line[1]))
    } else {
        None
    }
}

/// The command that the text of a line stands for, if it stands for one.
pub open spec fn parse_command(text: Seq<char>) -> Option<CommandView> {
    command_of(words(text))
}

/// The first space lies within the text or at its end, and nothing before it
/// is a space.
pub proof fn lemma_first_space_bounds(text: Seq<char>)
    ensures
        0 <= first_space(text) <= text.len(),
        first_space(text) < text.len() ==> text[first_space(text)] == ' ',
        forall|k: int| 0 <= k < first_space(text) ==> text[k] != ' ',
    decreases text.len(),
{
    if text.len() > 0 && text[0] != ' ' {
        let rest = text.drop_first();
        lemma_first_space_bounds(rest);
        assert forall|k: int| 0 <= k < first_space(text) implies text[k] != ' ' by {
            if k > 0 {
                assert(text[k] == rest[k - 1]);
            }
        }
    }
}

/// A position that no space precedes, and that holds a space or is the end of
/// the text, is the position of the first space.
pub proof fn lemma_first_space_is(text: Seq<char>, at: int)
    requires
        0 <= at <= text.len(),
        forall|k: int| 0 <= k < at ==> text[k] != ' ',
        at < text.len() ==> text[at] == ' ',
    ensures
        first_space(text) == at,
{
    lemma_first_space_bounds(text);
    let found = first_space(text);
    if found < at {
        assert(text[found] == ' ');
    } else if found > at {
        assert(text[at] != ' ');
    }
}

/// A text has at least one word, and exactly one where it holds no space.
pub proof fn lemma_words_len(text: Seq<char>)
    ensures
        words(text).len() >= 1,
        first_space(text) < text.len() ==> words(text).len() >= 2,
        first_space(text) >= text.len() ==> words(text) == seq![text],
    decreases text.len(),
{
    lemma_first_space_bounds(text);
    let at = first_space(text);
    if at < text.len() {
        lemma_words_len(text.subrange(at + 1, text.len() as int));
    }
}

/// The state of the command line: the characters typed so far.
#[derive(Debug)]
pub struct InternalTerminalState {
    terminal_buffer: Vec<char>,
}

impl View for InternalTerminalState {
    type V = Seq<char>;

    closed spec fn view(&self) -> Seq<char> {
        self.terminal_buffer@
    }
}

impl InternalTerminalState {
    #[verifier::type_invariant]
    spec fn within_limit(self) -> bool {
        self.terminal_buffer@.len() <= MAX_CHAR
    }

    /// An empty command line.
    pub fn new() -> (state: Self)
        ensures
            state@ == Seq::<char>::empty(),
    {
        Self { terminal_buffer: Vec::new() }
    }

    /// The characters typed so far; there are never more than `MAX_CHAR`.
    pub fn get_text(&self) -> (text: String)
        ensures
            text@ == self@,
            text@.len() <= MAX_CHAR,
    {
        proof {
            use_type_invariant(self);
        }
        assert(self.terminal_buffer@.subrange(0, self.terminal_buffer@.len() as int)
            =~= self.terminal_buffer@);
        collect_range(&self.terminal_buffer, 0, self.terminal_buffer.len())
    }

    /// Takes back the last character, if there is one.
    pub fn remove_char(&mut self)
        ensures
            final(self)@ == if old(self)@.len() > 0 {
                old(self)@.drop_last()
            } else {
                old(self)@
            },
    {
        proof {
            use_type_invariant(&*self);
        }
        let mut buffer: Vec<char> = Vec::new();
        core::mem::swap(&mut self.terminal_buffer, &mut buffer);
        buffer.pop();
        core::mem::swap(&mut self.terminal_buffer, &mut buffer);
    }

    /// Appends `new_char`, unless the line already holds `MAX_CHAR` characters.
    pub fn add_new_char(&mut self, new_char: char)
        ensures
            final(self)@ == if old(self)@.len() < MAX_CHAR {
                old(self)@.push(new_char)
            } else {
                old(self)@
            },
    {
        if self.terminal_buffer.len() < MAX_CHAR {
            let mut buffer: Vec<char> = Vec::new();
            core::mem::swap(&mut self.terminal_buffer, &mut buffer);
            buffer.push(new_char);
            core::mem::swap(&mut self.terminal_buffer, &mut buffer);
        }
    }

    /// Ends the line: returns the command that it stands for, if it stands
    /// for one, and leaves the line empty either way.
    pub fn enter_command(&mut self) -> (command: Option<Command>)
        ensures
            final(self)@ == Seq::<char>::empty(),
            match command {
                Some(c) => parse_command(old(self)@) == Some(c@),
                None => parse_command(old(self)@) is None,
            },
    {
        let mut buffer: Vec<char> = Vec::new();
        core::mem::swap(&mut self.terminal_buffer, &mut buffer);
        parse_line(&buffer)
    }

    /// Applies one key press to the command line. A character is appended, a
    /// backspace takes the last character back, enter ends the line and may
    /// give a command; any other key changes nothing.
    pub fn handle_key(&mut self, key: Key) -> (command: Option<Command>)
        ensures
            match key {
                Key::Char(c) => command is None && final(self)@ == if old(self)@.len() < MAX_CHAR {
                    old(self)@.push(c)
                } else {
                    old(self)@
                },
                Key::Backspace => command is None && final(self)@ == if old(self)@.len() > 0 {
                    old(self)@.drop_last()
                } else {
                    old(self)@
                },
                Key::Enter => final(self)@ == Seq::<char>::empty() && match command {
                    Some(c) => parse_command(old(self)@) == Some(c@),
                    None => parse_command(old(self)@) is None,
                },
                Key::Other => command is None && final(self)@ == old(self)@,
            },
    {
        match key {
            Key::Char(c) => {
                self.add_new_char(c);
                None
            },
            Key::Backspace => {
                self.remove_char();
                None
            },
            Key::Enter => self.enter_command(),
            Key::Other => None,
        }
    }
}

impl Default for InternalTerminalState {
    /// An empty command line.
    fn default() -> (state: Self)
        ensures
            state@ == Seq::<char>::empty(),
    {
        Self::new()
    }
}

/// The position of the first space of `chars` at or after `from`, or the
/// length of `chars` where there is none.
fn find_space(chars: &Vec<char>, from: usize) -> (at: usize)
    requires
        from <= chars.len(),
    ensures
        from <= at <= chars.len(),
        at - from == first_space(chars@.subrange(from as int, chars.len() as int)),
{
    let mut at: usize = from;
    while at < chars.len() && chars[at] != ' '
        invariant
            from <= at <= chars.len(),
            forall|k: int| from <= k < at ==> chars@[k] != ' ',
        decreases chars.len() - at,
    {
        at = at + 1;
    }
    proof {
        lemma_first_space_is(chars@.subrange(from as int, chars.len() as int), at - from);
    }
    at
}

/// The command that the line `chars` stands for, if it stands for one.
pub fn parse_line(chars: &Vec<char>) -> (command: Option<Command>)
    ensures
        match command {
            Some(c) => parse_command(chars@) == Some(c@),
            None => parse_command(chars@) is None,
        },
{
    let len: usize = chars.len();
    let ghost text = chars@;
    assert(text.subrange(0, len as int) =~= text);
    let at: usize = find_space(chars, 0);
    proof {
        lemma_words_len(text);
    }
    if at == len {
        if range_is(chars, 0, len, "EXIT") {
            Some(Command::Exit)
        } else {
            None
        }
    } else {
        let ghost rest = text.subrange(at + 1, len as int);
        let next: usize = find_space(chars, at + 1);
        proof {
            lemma_words_len(rest);
            assert(words(text) == seq![text.subrange(0, at as int)] + words(rest));
        }
        if next != len {
            None
        } else {
            assert(words(text) =~= seq![text.subrange(0, at as int), rest]);
            if range_is(chars, 0, at, "ADD") {
                Some(Command::AddAsset(collect_range(chars, at + 1, len)))
            } else if range_is(chars, 0, at, "REMOVE") {
                Some(Command::RemoveAsset(collect_range(chars, at + 1, len)))
            } else if range_is(chars, 0, at, "INTERVAL") {
                Some(Command::ChangeInterval(collect_range(chars, at + 1, len)))
            } else {
                None
            }
        }
    }
}

/// The view of the command line: a prompt, then what was typed.
pub struct InternalTerminalWidget {}

impl InternalTerminalWidget {
    /// The prompt that precedes the typed text.
    pub open spec fn prompt() -> Seq<char> {
        "> "@
    }

    /// The line that is shown for `state`: the prompt, then the typed text.
    pub fn line(&self, state: &InternalTerminalState) -> (text: String)
        ensures
            text@ == Self::prompt() + state@,
    {
        let mut text: String = "> ".to_owned();
        push_all(&mut text, &state.terminal_buffer);
        text
    }

    /// The part of `area` in which the line is written: `area` without two
    /// columns on the left and two rows above and below.
    pub fn text_area(&self, area: Rectangle) -> (inner: Rectangle)
        requires
            area@.width >= 2,
            area@.height >= 4,
        ensures
            inner@.x == area@.x + 2,
            inner@.y == area@.y + 2,
            inner@.width == area@.width - 2,
            inner@.height == area@.height - 4,
    {
        area.inset(2, 2, 0, 2)
    }
}

} // verus!
