//! The line editor behind the prompt: a buffer of characters with a
//! cursor, and what each key does to it.
//!
//! Reading the keys and drawing the line are the caller's part. It hands
//! each key to [`LineEditor::key`] and does what the reaction says.

use vstd::prelude::*;
use vstd::string::StringExecFns;
use crate::chars::{chars_of, text_of};
use crate::state::ShellState;

verus! {

/// Why the prompt could not go on.
#[derive(Debug, Clone, Copy, PartialEq, Eq)]
pub enum PromptError {
    /// Something that the editor cannot do yet.
    Unimplemented(&'static str),
    /// The line could not be drawn.
    Write,
}

impl PromptError {
    /// The message shown to the user.
    pub fn to_string(&self) -> (text: String)
        ensures
            text@ == match *self {
                PromptError::Unimplemented(what) => "unimplemented: "@ + what@,
                PromptError::Write => "failed to write data"@,
            },
    {
        match self {
            PromptError::Unimplemented(what) => {
                let mut text = String::from_str("unimplemented: ");
                text.append(what);
                text
            },
            PromptError::Write => String::from_str("failed to write data"),
        }
    }
}

/// What the caller has to do after a key.
#[derive(Debug, Clone, Copy, PartialEq, Eq, Structural)]
pub enum InsertResult {
    /// Draw the line again.
    Render,
    /// The line is finished.
    Done,
    /// Nothing.
    Idle,
}

/// The characters of a line and the cursor in it.
#[derive(Debug, Clone)]
pub struct LineBuffer {
    buf: Vec<char>,
    /// How many characters stand left of the cursor; nothing where the
    /// cursor is at the end.
    pos: Option<usize>,
}

impl LineBuffer {
    /// The characters of the line.
    pub closed spec fn text(&self) -> Seq<char> {
        self.buf@
    }

    /// How many characters stand left of the cursor.
    pub closed spec fn cursor(&self) -> int {
        match self.pos {
            Some(p) => p as int,
            None => self.buf@.len() as int,
        }
    }

    /// The cursor is in the line or at its end, and the end is marked as
    /// such.
    pub closed spec fn wf(&self) -> bool {
        match self.pos {
            Some(p) => p < self.buf@.len(),
            None => true,
        }
    }

    /// What holds of any line.
    pub proof fn lemma_cursor_in_line(&self)
        requires
            self.wf(),
        ensures
            0 <= self.cursor() <= self.text().len(),
    {
    }

    /// An empty line.
    pub fn new() -> (line: LineBuffer)
        ensures
            line.wf(),
            line.text() == Seq::<char>::empty(),
            line.cursor() == 0,
    {
        LineBuffer { buf: Vec::new(), pos: None }
    }

    /// Whether the cursor is at the end of the line.
    pub fn at_end(&self) -> (b: bool)
        requires
            self.wf(),
        ensures
            b == (self.cursor() == self.text().len()),
    {
        self.pos.is_none()
    }

    /// Whether the line is empty.
    pub fn is_empty(&self) -> (b: bool)
        ensures
            b == (self.text().len() == 0),
    {
        self.buf.len() == 0
    }

    /// Puts `c` at the cursor and the cursor after it.
    pub fn push(&mut self, c: char) -> (r: InsertResult)
        requires
            old(self).wf(),
        ensures
            final(self).wf(),
            final(self).text() == old(self).text().insert(old(self).cursor(), c),
            final(self).cursor() == old(self).cursor() + 1,
            r == InsertResult::Render,
    {
        match self.pos {
            Some(ofst) => {
                assert(ofst < self.buf.len());
                self.buf.insert(ofst, c);
                self.pos = Some(ofst + 1);
            },
            None => {
                self.buf.push(c);
                assert(self.buf@ =~= old(self).buf@.insert(old(self).buf@.len() as int, c));
            },
        }
        InsertResult::Render
    }

    /// Removes the character left of the cursor. At the start of a line
    /// that is not empty there is none, and nothing is to be drawn.
    pub fn pop(&mut self) -> (r: InsertResult)
        requires
            old(self).wf(),
        ensures
            final(self).wf(),
            old(self).cursor() > 0 ==> final(self).text() == old(self).text().remove(
                old(self).cursor() - 1,
            ) && final(self).cursor() == old(self).cursor() - 1,
            old(self).cursor() == 0 ==> final(self).text() == old(self).text() && final(self).cursor() == 0,
            r == if old(self).cursor() == 0 && old(self).text().len() > 0 {
                InsertResult::Idle
            } else {
                InsertResult::Render
            },
    {
        match self.pos {
            Some(ofst) => {
                if ofst == 0 {
                    InsertResult::Idle
                } else {
                    let _ = self.buf.remove(ofst - 1);
                    self.pos = Some(ofst - 1);
                    InsertResult::Render
                }
            },
            None => {
                let last = self.buf.pop();
                proof {
                    if last is Some {
                        assert(self.buf@ =~= old(self).buf@.remove(old(self).buf@.len() - 1));
                    }
                }
                InsertResult::Render
            },
        }
    }

    /// Ends the line with a newline. The cursor has to be at the end.
    pub fn enter(&mut self) -> (r: InsertResult)
        requires
            old(self).wf(),
            old(self).cursor() == old(self).text().len(),
        ensures
            final(self).wf(),
            final(self).text() == old(self).text().push('\n'),
            final(self).cursor() == final(self).text().len(),
            r == InsertResult::Done,
    {
        self.pos = None;
        self.buf.push('\n');
        InsertResult::Done
    }

    /// Moves the cursor one character to the left, if there is one.
    pub fn left(&mut self) -> (r: InsertResult)
        requires
            old(self).wf(),
        ensures
            final(self).wf(),
            final(self).text() == old(self).text(),
            final(self).cursor() == if old(self).cursor() > 0 {
                old(self).cursor() - 1
            } else {
                0
            },
            r == if old(self).cursor() > 0 {
                InsertResult::Render
            } else {
                InsertResult::Idle
            },
    {
        match self.pos {
            Some(ofst) => {
                if ofst == 0 {
                    InsertResult::Idle
                } else {
                    self.pos = Some(ofst - 1);
                    InsertResult::Render
                }
            },
            None => {
                if self.buf.len() == 0 {
                    InsertResult::Idle
                } else {
                    self.pos = Some(self.buf.len() - 1);
                    InsertResult::Render
                }
            },
        }
    }

    /// Moves the cursor one character to the right, if there is one.
    pub fn right(&mut self) -> (r: InsertResult)
        requires
            old(self).wf(),
        ensures
            final(self).wf(),
            final(self).text() == old(self).text(),
            final(self).cursor() == if old(self).cursor() < old(self).text().len() {
                old(self).cursor() + 1
            } else {
                old(self).cursor()
            },
            r == if old(self).cursor() < old(self).text().len() {
                InsertResult::Render
            } else {
                InsertResult::Idle
            },
    {
        match self.pos {
            Some(ofst) => {
                assert(ofst < self.buf.len());
                if ofst + 1 >= self.buf.len() {
                    self.pos = None;
                } else {
                    self.pos = Some(ofst + 1);
                }
                InsertResult::Render
            },
            None => InsertResult::Idle,
        }
    }

    /// Replaces the line by `buf`. The cursor keeps its place where the
    /// new line reaches beyond it, and else goes to the end.
    pub fn set(&mut self, buf: &str) -> (r: InsertResult)
        requires
            old(self).wf(),
        ensures
            final(self).wf(),
            final(self).text() == buf@,
            final(self).cursor() == if old(self).cursor() < old(self).text().len() && old(self).cursor() < buf@.len() {
                old(self).cursor()
            } else {
                buf@.len() as int
            },
            r == InsertResult::Render,
    {
        self.buf = chars_of(buf);
        if let Some(ofst) = self.pos {
            if ofst >= self.buf.len() {
                self.pos = None;
            }
        }
        InsertResult::Render
    }

    /// The line as a text.
    pub fn to_string(&self) -> (text: String)
        ensures
            text@ == self.text(),
    {
        let text = text_of(&self.buf, 0, self.buf.len());
        assert(self.buf@.subrange(0, self.buf@.len() as int) =~= self.buf@);
        text
    }
}

/// A key, or another event of the terminal.
#[derive(Debug, Clone, Copy, PartialEq, Eq)]
pub enum Key {
    Backspace,
    Enter,
    /// A character typed with no modifier.
    Char(char),
    /// A character typed with shift.
    Shift(char),
    /// A character typed with control.
    Control(char),
    Left,
    Right,
    Up,
    Down,
    Esc,
    /// Text pasted into the terminal.
    Paste,
    /// The terminal changed its size.
    Resize,
    /// Any other key or event.
    Other,
}

/// What the caller has to do after a key.
#[derive(Debug, Clone, Copy, PartialEq, Eq)]
pub enum Reaction {
    /// Draw the line again.
    Render,
    /// Clear the screen and draw the line again.
    Clear,
    /// Nothing.
    Idle,
    /// The line is finished.
    Line,
    /// The end of the input.
    Eof,
    /// The line was given up.
    Exit,
    /// The prompt cannot go on.
    Fail(PromptError),
}

/// The reaction that goes with what a change of the line asks for.
pub open spec fn reaction_of(r: InsertResult) -> Reaction {
    match r {
        InsertResult::Render => Reaction::Render,
        InsertResult::Done => Reaction::Line,
        InsertResult::Idle => Reaction::Idle,
    }
}

/// `c` as an upper-case letter, where it is one of `a` to `z`.
pub open spec fn ascii_upper(c: char) -> char {
    if 'a' <= c <= 'z' {
        ((c as u8) - 32) as char
    } else {
        c
    }
}

/// `c` as an upper-case letter, where it is one of `a` to `z`.
pub fn to_ascii_upper(c: char) -> (upper: char)
    ensures
        upper == ascii_upper(c),
{
    if 'a' <= c && c <= 'z' {
        let code: u8 = c as u8;
        (code - 32) as char
    } else {
        c
    }
}

/// The line that is being edited, and how far back in the history the
/// user has gone.
#[derive(Debug, Clone)]
pub struct LineEditor {
    buff: LineBuffer,
    hist: usize,
}

impl LineEditor {
    /// The line.
    pub closed spec fn line(&self) -> LineBuffer {
        self.buff
    }

    /// How far back in the history the user has gone: 0 is the line being
    /// typed.
    pub closed spec fn back(&self) -> int {
        self.hist as int
    }

    /// An editor with an empty line.
    pub fn new() -> (editor: LineEditor)
        ensures
            editor.line().wf(),
            editor.line().text() == Seq::<char>::empty(),
            editor.back() == 0,
    {
        LineEditor { buff: LineBuffer::new(), hist: 0 }
    }

    /// The line as a text.
    pub fn text(&self) -> (text: String)
        ensures
            text@ == self.line().text(),
    {
        self.buff.to_string()
    }

    /// How many characters stand left of the cursor.
    pub fn cursor(&self) -> (cursor: usize)
        requires
            self.line().wf(),
        ensures
            cursor == self.line().cursor(),
    {
        match self.buff.pos {
            Some(p) => p,
            None => self.buff.buf.len(),
        }
    }

    /// Takes one key.
    ///
    /// A character goes into the line, with shift as an upper-case letter.
    /// Backspace removes the character left of the cursor; the arrows
    /// left and right move the cursor. Enter finishes the line, which then
    /// ends with a newline; in the middle of the line it is refused.
    /// Control-c gives the line up, escape ends the input, and so does
    /// control-d on an empty line. Control-l clears the screen. The arrow
    /// up shows the line before in the history, if there is one; the arrow
    /// down the line after, and past the newest an empty line. Pasted text
    /// is refused.
    pub fn key(&mut self, key: Key, state: &ShellState) -> (reaction: Reaction)
        requires
            old(self).line().wf(),
        ensures
            final(self).line().wf(),
            reacted(old(self), key, state, final(self), reaction),
    {
        match key {
            Key::Backspace => into_reaction(self.buff.pop()),
            Key::Enter => {
                if !self.buff.at_end() {
                    Reaction::Fail(PromptError::Unimplemented("handle new line in middle of word"))
                } else {
                    into_reaction(self.buff.enter())
                }
            },
            Key::Char(ch) => into_reaction(self.buff.push(ch)),
            Key::Shift(ch) => into_reaction(self.buff.push(to_ascii_upper(ch))),
            Key::Control('c') => Reaction::Exit,
            Key::Control('d') => {
                if self.buff.is_empty() {
                    Reaction::Eof
                } else {
                    Reaction::Idle
                }
            },
            Key::Control('l') => Reaction::Clear,
            Key::Control(_) => Reaction::Idle,
            Key::Left => into_reaction(self.buff.left()),
            Key::Right => into_reaction(self.buff.right()),
            Key::Up => {
                proof {
                    state.lemma_history_fits();
                }
                if self.hist == usize::MAX {
                    return Reaction::Idle;
                }
                match state.get_history(self.hist + 1) {
                    Some(line) => {
                        self.hist = self.hist + 1;
                        let _ = self.buff.set(line);
                        Reaction::Render
                    },
                    None => Reaction::Idle,
                }
            },
            Key::Down => {
                if self.hist > 0 {
                    self.hist = self.hist - 1;
                }
                match state.get_history(self.hist) {
                    Some(line) => into_reaction(self.buff.set(line)),
                    None => {
                        if !self.buff.is_empty() {
                            let r = self.buff.set("");
                            proof {
                                reveal_strlit("");
                                assert(""@ =~= Seq::<char>::empty());
                            }
                            into_reaction(r)
                        } else {
                            Reaction::Idle
                        }
                    },
                }
            },
            Key::Esc => Reaction::Eof,
            Key::Paste => Reaction::Fail(PromptError::Unimplemented("paste")),
            Key::Resize => Reaction::Render,
            Key::Other => Reaction::Idle,
        }
    }
}

/// The reaction that goes with what a change of the line asks for.
pub fn into_reaction(r: InsertResult) -> (reaction: Reaction)
    ensures
        reaction == reaction_of(r),
{
    match r {
        InsertResult::Render => Reaction::Render,
        InsertResult::Done => Reaction::Line,
        InsertResult::Idle => Reaction::Idle,
    }
}

/// The cursor of a line after its text was replaced by one of `len`
/// characters.
pub open spec fn cursor_after_set(line: LineBuffer, len: int) -> int {
    if line.cursor() < line.text().len() && line.cursor() < len {
        line.cursor()
    } else {
        len
    }
}

/// Whether `key` takes the editor from `before` to `after` with the
/// reaction `reaction`.
pub open spec fn reacted(
    before: &LineEditor,
    key: Key,
    state: &ShellState,
    after: &LineEditor,
    reaction: Reaction,
) -> bool {
    let line = before.line();
    let text = line.text();
    let cursor = line.cursor();
    let same = after.line().text() == text && after.line().cursor() == cursor && after.back()
        == before.back();
    let history = state.history();
    match key {
        Key::Backspace => {
            &&& after.back() == before.back()
            &&& if cursor > 0 {
                &&& after.line().text() == text.remove(cursor - 1)
                &&& after.line().cursor() == cursor - 1
                &&& reaction == Reaction::Render
            } else {
                &&& same
                &&& reaction == if text.len() > 0 {
                    Reaction::Idle
                } else {
                    Reaction::Render
                }
            }
        },
        Key::Enter => if cursor == text.len() {
            &&& after.line().text() == text.push('\n')
            &&& after.line().cursor() == text.len() + 1
            &&& after.back() == before.back()
            &&& reaction == Reaction::Line
        } else {
            &&& same
            &&& reaction matches Reaction::Fail(PromptError::Unimplemented(_))
        },
        Key::Char(c) => {
            &&& after.line().text() == text.insert(cursor, c)
            &&& after.line().cursor() == cursor + 1
            &&& after.back() == before.back()
            &&& reaction == Reaction::Render
        },
        Key::Shift(c) => {
            &&& after.line().text() == text.insert(cursor, ascii_upper(c))
            &&& after.line().cursor() == cursor + 1
            &&& after.back() == before.back()
            &&& reaction == Reaction::Render
        },
        Key::Control(c) => {
            &&& same
            &&& reaction == if c == 'c' {
                Reaction::Exit
            } else if c == 'd' {
                if text.len() == 0 {
                    Reaction::Eof
                } else {
                    Reaction::Idle
                }
            } else if c == 'l' {
                Reaction::Clear
            } else {
                Reaction::Idle
            }
        },
        Key::Left => {
            &&& after.line().text() == text
            &&& after.back() == before.back()
            &&& if cursor > 0 {
                after.line().cursor() == cursor - 1 && reaction == Reaction::Render
            } else {
                after.line().cursor() == 0 && reaction == Reaction::Idle
            }
        },
        Key::Right => {
            &&& after.line().text() == text
            &&& after.back() == before.back()
            &&& if cursor < text.len() {
                after.line().cursor() == cursor + 1 && reaction == Reaction::Render
            } else {
                after.line().cursor() == cursor && reaction == Reaction::Idle
            }
        },
        Key::Up => if before.back() < history.len() {
            let shown = history[history.len() - (before.back() + 1)];
            &&& after.back() == before.back() + 1
            &&& after.line().text() == shown
            &&& after.line().cursor() == cursor_after_set(line, shown.len() as int)
            &&& reaction == Reaction::Render
        } else {
            same && reaction == Reaction::Idle
        },
        Key::Down => {
            let back = if before.back() > 0 {
                before.back() - 1
            } else {
                0
            };
            &&& after.back() == back
            &&& if 1 <= back <= history.len() {
                let shown = history[history.len() - back];
                &&& after.line().text() == shown
                &&& after.line().cursor() == cursor_after_set(line, shown.len() as int)
                &&& reaction == Reaction::Render
            } else if text.len() > 0 {
                &&& after.line().text() == Seq::<char>::empty()
                &&& after.line().cursor() == 0
                &&& reaction == Reaction::Render
            } else {
                &&& after.line().text() == text
                &&& after.line().cursor() == cursor
                &&& reaction == Reaction::Idle
            }
        },
        Key::Esc => same && reaction == Reaction::Eof,
        Key::Paste => same && reaction matches Reaction::Fail(PromptError::Unimplemented(_)),
        Key::Resize => same && reaction == Reaction::Render,
        Key::Other => same && reaction == Reaction::Idle,
    }
}

} // verus!
