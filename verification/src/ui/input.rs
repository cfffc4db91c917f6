//! The line editor in which the expression is written.
//!
//! It edits character by character and knows nothing of grapheme clusters.
use vstd::prelude::*;

use super::{Key, KeyPress};
use crate::parser::chars::{char_is_control, char_is_space, is_control, is_space};
use crate::parser::{ParseError, Spanned};
use crate::text::string_from_chars;

verus! {

/// How many errors are shown below the line; one more line says how many
/// were left out.
pub const MAX_ERRORS_SHOWN: usize = 3;

/// Whether a word starts at `j`: at the start of the text, or after
/// whitespace.
pub open spec fn word_start(text: Seq<char>, j: int) -> bool {
    j == 0 || (0 < j <= text.len() && is_space(text[j - 1]))
}

/// Whether a word ends at `j`: at the end of the text, or after whitespace.
pub open spec fn word_end(text: Seq<char>, j: int) -> bool {
    j == text.len() || (0 < j <= text.len() && is_space(text[j - 1]))
}

/// Where a jump to the left from `cursor` lands: at the nearest word start
/// that lies before the cursor, or at the start of the text.
pub open spec fn jump_left_target(text: Seq<char>, cursor: int, j: int) -> bool {
    let from = if cursor > 0 {
        cursor - 1
    } else {
        0
    };
    &&& 0 <= j <= from
    &&& word_start(text, j)
    &&& forall|i: int| j < i <= from ==> !word_start(text, i)
}

/// Where a jump to the right from `cursor` lands: at the nearest word end
/// that lies after the cursor, or at the end of the text.
pub open spec fn jump_right_target(text: Seq<char>, cursor: int, j: int) -> bool {
    let from = if cursor < text.len() {
        cursor + 1
    } else {
        text.len() as int
    };
    &&& from <= j <= text.len()
    &&& word_end(text, j)
    &&& forall|i: int| from <= i < j ==> !word_end(text, i)
}

/// A single editable line with a cursor. The cursor stands before the
/// character of its index; at the length of the text it appends.
#[derive(Debug)]
pub struct LineInput {
    cursor: usize,
    buf: Vec<char>,
}

impl LineInput {
    /// The text of the line.
    pub closed spec fn text(&self) -> Seq<char> {
        self.buf@
    }

    /// The index the cursor stands at.
    pub closed spec fn cursor(&self) -> nat {
        self.cursor as nat
    }

    /// The cursor stands inside the text or right after it.
    pub closed spec fn wf(&self) -> bool {
        self.cursor <= self.buf.len()
    }

    /// A line that holds `s`, with the cursor at its end.
    pub fn from_str(s: &str) -> (line: LineInput)
        ensures
            line.wf(),
            line.text() == s@,
            line.cursor() == s@.len(),
    {
        let mut buf: Vec<char> = Vec::new();
        for c in it: s.chars()
            invariant
                buf@ == it.history(),
        {
            buf.push(c);
        }
        LineInput { cursor: buf.len(), buf }
    }

    /// Inserts a character at the cursor and moves the cursor after it.
    pub fn add(&mut self, c: char)
        requires
            old(self).wf(),
        ensures
            final(self).wf(),
            final(self).text() == old(self).text().insert(old(self).cursor() as int, c),
            final(self).cursor() == old(self).cursor() + 1,
    {
        self.buf.insert(self.cursor, c);
        assert(self.buf.len() == old(self).buf.len() + 1);
        self.cursor += 1;
    }

    /// Removes the character before the cursor; at the start of the line
    /// nothing happens.
    pub fn remove(&mut self)
        requires
            old(self).wf(),
        ensures
            final(self).wf(),
            old(self).cursor() == 0 ==> final(self).text() == old(self).text()
                && final(self).cursor() == 0,
            old(self).cursor() > 0 ==> final(self).text() == old(self).text().remove(
                old(self).cursor() - 1,
            ) && final(self).cursor() == old(self).cursor() - 1,
    {
        if self.buf.is_empty() || self.cursor == 0 {
            return ;
        }
        self.buf.remove(self.cursor - 1);
        self.cursor -= 1;
    }

    /// Moves the cursor `count` to the left, or to the start.
    pub fn shift_left(&mut self, count: usize)
        requires
            old(self).wf(),
        ensures
            final(self).wf(),
            final(self).text() == old(self).text(),
            final(self).cursor() == if old(self).cursor() >= count {
                old(self).cursor() - count
            } else {
                0
            },
    {
        self.cursor = self.cursor.saturating_sub(count);
    }

    /// Moves the cursor left to the start of the word before it, or to the
    /// start of the line.
    pub fn jump_left(&mut self)
        requires
            old(self).wf(),
        ensures
            final(self).wf(),
            final(self).text() == old(self).text(),
            jump_left_target(
                old(self).text(),
                old(self).cursor() as int,
                final(self).cursor() as int,
            ),
    {
        // one step first, so as not to stay on the whitespace it stands after
        let from: usize = self.cursor.saturating_sub(1);
        let mut i: usize = from;
        while i > 0 && !char_is_space(self.buf[i - 1])
            invariant
                i <= from <= self.buf.len(),
                forall|j: int| i < j <= from ==> !word_start(self.buf@, j),
            decreases i,
        {
            i -= 1;
        }
        self.cursor = i;
    }

    /// Moves the cursor right to the end of the word after it, or to the
    /// end of the line.
    pub fn jump_right(&mut self)
        requires
            old(self).wf(),
        ensures
            final(self).wf(),
            final(self).text() == old(self).text(),
            jump_right_target(
                old(self).text(),
                old(self).cursor() as int,
                final(self).cursor() as int,
            ),
    {
        let from: usize = if self.cursor < self.buf.len() {
            self.cursor + 1
        } else {
            self.buf.len()
        };
        let mut i: usize = from;
        while i < self.buf.len() && !char_is_space(self.buf[i - 1])
            invariant
                from <= i <= self.buf.len(),
                from > 0 || self.buf.len() == 0,
                forall|j: int| from <= j < i ==> !word_end(self.buf@, j),
            decreases self.buf.len() - i,
        {
            i += 1;
        }
        self.cursor = i;
    }

    /// Moves the cursor `count` to the right, or to the end.
    pub fn shift_right(&mut self, count: usize)
        requires
            old(self).wf(),
        ensures
            final(self).wf(),
            final(self).text() == old(self).text(),
            final(self).cursor() == if old(self).cursor() + count <= old(self).text().len() {
                old(self).cursor() + count
            } else {
                old(self).text().len() as int
            },
    {
        let target = self.cursor.saturating_add(count);
        self.cursor = if target < self.buf.len() {
            target
        } else {
            self.buf.len()
        };
    }

    /// Whether the cursor stands at the end, where typing appends.
    pub fn at_end(&self) -> (b: bool)
        ensures
            b == (self.cursor() == self.text().len()),
    {
        self.cursor == self.buf.len()
    }

    /// Whether the cursor stands at the start.
    pub fn at_start(&self) -> (b: bool)
        ensures
            b == (self.cursor() == 0),
    {
        self.cursor == 0
    }

    /// The index the cursor stands at.
    pub fn cursor_index(&self) -> (i: usize)
        ensures
            i == self.cursor(),
    {
        self.cursor
    }

    /// The characters of the line.
    pub fn chars(&self) -> (chars: &Vec<char>)
        ensures
            chars@ == self.text(),
    {
        &self.buf
    }

    /// The text of the line as a string.
    pub fn get_buffer(&self) -> (s: String)
        ensures
            s@ == self.text(),
    {
        string_from_chars(&self.buf)
    }
}

impl Default for LineInput {
    /// The empty line.
    fn default() -> (line: LineInput)
        ensures
            line.wf(),
            line.text() == Seq::<char>::empty(),
            line.cursor() == 0,
    {
        LineInput { cursor: 0, buf: Vec::new() }
    }
}

/// The editor as the console shows it: the line, and below it the errors of
/// the last compilation.
#[derive(Debug)]
pub struct BeatInput {
    input: LineInput,
    errors: Vec<Spanned<ParseError>>,
}

/// What a key press does to the line: the text and cursor after it.
pub open spec fn key_effect(
    text: Seq<char>,
    cursor: int,
    event: KeyPress,
    after_text: Seq<char>,
    after_cursor: int,
) -> bool {
    match event.code {
        Key::Backspace => if cursor > 0 {
            after_text == text.remove(cursor - 1) && after_cursor == cursor - 1
        } else {
            after_text == text && after_cursor == cursor
        },
        Key::Char(c) => if is_control(c) {
            after_text == text && after_cursor == cursor
        } else {
            after_text == text.insert(cursor, c) && after_cursor == cursor + 1
        },
        Key::Left => after_text == text && if event.ctrl {
            jump_left_target(text, cursor, after_cursor)
        } else {
            after_cursor == if cursor > 0 {
                cursor - 1
            } else {
                0
            }
        },
        Key::Right => after_text == text && if event.ctrl {
            jump_right_target(text, cursor, after_cursor)
        } else {
            after_cursor == if cursor < text.len() {
                cursor + 1
            } else {
                cursor
            }
        },
        _ => after_text == text && after_cursor == cursor,
    }
}

impl BeatInput {
    /// The line that is edited.
    pub closed spec fn line(&self) -> LineInput {
        self.input
    }

    /// The errors shown below the line.
    pub closed spec fn shown_errors(&self) -> Seq<Spanned<ParseError>> {
        self.errors@
    }

    /// The line is well-formed.
    pub open spec fn wf(&self) -> bool {
        self.line().wf()
    }

    /// An empty editor.
    pub fn new() -> (input: BeatInput)
        ensures
            input.wf(),
            input.line().text() == Seq::<char>::empty(),
            input.line().cursor() == 0,
            input.shown_errors() == Seq::<Spanned<ParseError>>::empty(),
    {
        BeatInput { input: LineInput::default(), errors: Vec::new() }
    }

    /// An editor that holds `s`, with the cursor at its end and no error.
    pub fn from_str(s: &str) -> (input: BeatInput)
        ensures
            input.wf(),
            input.line().text() == s@,
            input.line().cursor() == s@.len(),
            input.shown_errors() == Seq::<Spanned<ParseError>>::empty(),
    {
        BeatInput { input: LineInput::from_str(s), errors: Vec::new() }
    }

    /// Edits the line: Backspace removes, a character that is no control
    /// character is inserted, Left and Right move by one character, or by
    /// one word with Control. Other keys do nothing.
    pub fn handle_key_event(&mut self, event: KeyPress)
        requires
            old(self).wf(),
        ensures
            final(self).wf(),
            final(self).shown_errors() == old(self).shown_errors(),
            key_effect(
                old(self).line().text(),
                old(self).line().cursor() as int,
                event,
                final(self).line().text(),
                final(self).line().cursor() as int,
            ),
    {
        match event.code {
            Key::Backspace => {
                self.input.remove();
            },
            Key::Char(c) => {
                if !char_is_control(c) {
                    self.input.add(c);
                }
            },
            Key::Left => {
                if event.ctrl {
                    self.input.jump_left();
                } else {
                    self.input.shift_left(1);
                }
            },
            Key::Right => {
                if event.ctrl {
                    self.input.jump_right();
                } else {
                    self.input.shift_right(1);
                }
            },
            _ => {},
        }
    }

    /// Shows these errors below the line.
    pub fn set_errors(&mut self, errors: Vec<Spanned<ParseError>>)
        ensures
            final(self).line() == old(self).line(),
            final(self).shown_errors() == errors@,
    {
        self.errors = errors;
    }

    /// Shows no error.
    pub fn clear_errors(&mut self)
        ensures
            final(self).line() == old(self).line(),
            final(self).shown_errors() == Seq::<Spanned<ParseError>>::empty(),
    {
        self.errors.clear();
    }

    /// The errors shown below the line.
    pub fn errors(&self) -> (errors: &Vec<Spanned<ParseError>>)
        ensures
            errors@ == self.shown_errors(),
    {
        &self.errors
    }

    /// The line that is edited.
    pub fn input(&self) -> (line: &LineInput)
        ensures
            *line == self.line(),
    {
        &self.input
    }

    /// The text of the line as a string.
    pub fn get_buffer(&self) -> (s: String)
        ensures
            s@ == self.line().text(),
    {
        self.input.get_buffer()
    }

    /// How many rows the editor takes: two of border, one for the line, one
    /// for each error shown, and one more where errors were left out.
    pub fn height_hint(&self) -> (rows: u16)
        ensures
            rows == rows_for(self.shown_errors().len()),
    {
        let shown: usize = if self.errors.len() <= MAX_ERRORS_SHOWN + 1 {
            self.errors.len()
        } else {
            MAX_ERRORS_SHOWN + 1
        };
        (3 + shown) as u16
    }
}

impl Default for BeatInput {
    /// An empty editor.
    fn default() -> (input: BeatInput)
        ensures
            input.wf(),
            input.line().text() == Seq::<char>::empty(),
            input.line().cursor() == 0,
            input.shown_errors() == Seq::<Spanned<ParseError>>::empty(),
    {
        BeatInput::new()
    }
}

/// The editor of a console that plays a file: it shows the file's text and
/// takes no key.
#[derive(Debug)]
pub struct FileInput {
    source: String,
    errors: Vec<Spanned<ParseError>>,
}

impl FileInput {
    /// The text last read from the file.
    pub closed spec fn text(&self) -> Seq<char> {
        self.source@
    }

    /// The errors shown below the text.
    pub closed spec fn shown_errors(&self) -> Seq<Spanned<ParseError>> {
        self.errors@
    }

    /// An editor that shows `source`, with no error.
    pub fn from_str(source: &str) -> (input: FileInput)
        ensures
            input.text() == source@,
            input.shown_errors() == Seq::<Spanned<ParseError>>::empty(),
    {
        FileInput { source: source.to_owned(), errors: Vec::new() }
    }

    /// Takes in what the file holds now.
    pub fn handle_file_event(&mut self, contents: String)
        ensures
            final(self).text() == contents@,
            final(self).shown_errors() == old(self).shown_errors(),
    {
        self.source = contents;
    }

    pub fn get_buffer(&self) -> (s: String)
        ensures
            s@ == self.text(),
    {
        self.source.clone()
    }

    pub fn set_errors(&mut self, errors: Vec<Spanned<ParseError>>)
        ensures
            final(self).text() == old(self).text(),
            final(self).shown_errors() == errors@,
    {
        self.errors = errors;
    }

    pub fn clear_errors(&mut self)
        ensures
            final(self).text() == old(self).text(),
            final(self).shown_errors() == Seq::<Spanned<ParseError>>::empty(),
    {
        self.errors.clear();
    }

    pub fn errors(&self) -> (errors: &Vec<Spanned<ParseError>>)
        ensures
            errors@ == self.shown_errors(),
    {
        &self.errors
    }
}

/// How many rows an editor takes that shows `errors` errors.
pub open spec fn rows_for(errors: nat) -> int {
    3 + if errors <= MAX_ERRORS_SHOWN + 1 {
        errors as int
    } else {
        MAX_ERRORS_SHOWN + 1
    }
}

/// The editor of the console: a line to type in, or the text of a file that
/// is watched. The console holds exactly one.
#[derive(Debug)]
pub enum Editor {
    Line(BeatInput),
    File(FileInput),
}

impl Editor {
    /// The source that the editor holds.
    pub open spec fn text(&self) -> Seq<char> {
        match self {
            Editor::Line(input) => input.line().text(),
            Editor::File(input) => input.text(),
        }
    }

    /// The errors shown below the source.
    pub open spec fn shown_errors(&self) -> Seq<Spanned<ParseError>> {
        match self {
            Editor::Line(input) => input.shown_errors(),
            Editor::File(input) => input.shown_errors(),
        }
    }

    /// A line is well-formed; the text of a file always is.
    pub open spec fn wf(&self) -> bool {
        match self {
            Editor::Line(input) => input.wf(),
            Editor::File(_) => true,
        }
    }

    /// `after` is this editor but for the errors it shows.
    pub open spec fn same_source(&self, after: Editor) -> bool {
        match (*self, after) {
            (Editor::Line(a), Editor::Line(b)) => a.line() == b.line(),
            (Editor::File(a), Editor::File(b)) => a.text() == b.text(),
            _ => false,
        }
    }

    /// What a key does to the editor: it edits a line, and leaves the text
    /// of a file alone.
    pub open spec fn key_effect(&self, event: KeyPress, after: Editor) -> bool {
        match (*self, after) {
            (Editor::Line(a), Editor::Line(b)) => {
                &&& b.shown_errors() == a.shown_errors()
                &&& key_effect(
                    a.line().text(),
                    a.line().cursor() as int,
                    event,
                    b.line().text(),
                    b.line().cursor() as int,
                )
            },
            (Editor::File(a), Editor::File(b)) => a == b,
            _ => false,
        }
    }

    /// What a change of the watched file does: the editor of a file takes
    /// in the new text, a line stays as it is.
    pub open spec fn file_effect(&self, contents: Seq<char>, after: Editor) -> bool {
        match (*self, after) {
            (Editor::Line(a), Editor::Line(b)) => a == b,
            (Editor::File(a), Editor::File(b)) => b.text() == contents && b.shown_errors()
                == a.shown_errors(),
            _ => false,
        }
    }

    /// What putting `source` into the editor does: a line holds it with the
    /// cursor at its end, the editor of a file shows it; the errors go.
    pub open spec fn overwritten(&self, source: Seq<char>, after: Editor) -> bool {
        &&& after.text() == source
        &&& after.shown_errors().len() == 0
        &&& match (*self, after) {
            (Editor::Line(_), Editor::Line(b)) => b.line().cursor() == source.len(),
            (Editor::File(_), Editor::File(_)) => true,
            _ => false,
        }
    }

    pub fn handle_key_event(&mut self, event: KeyPress)
        requires
            old(self).wf(),
        ensures
            final(self).wf(),
            old(self).key_effect(event, *final(self)),
    {
        match self {
            Editor::Line(input) => {
                input.handle_key_event(event);
            },
            Editor::File(_) => {},
        }
    }

    /// Takes in what the watched file holds now, and says whether the
    /// editor took it.
    pub fn handle_file_event(&mut self, contents: String) -> (taken: bool)
        requires
            old(self).wf(),
        ensures
            final(self).wf(),
            old(self).file_effect(contents@, *final(self)),
            taken == (*old(self) is File),
    {
        match self {
            Editor::Line(_) => false,
            Editor::File(input) => {
                input.handle_file_event(contents);
                true
            },
        }
    }

    /// Puts `source` into the editor.
    pub fn overwrite(&mut self, source: &str)
        ensures
            final(self).wf(),
            old(self).overwritten(source@, *final(self)),
    {
        match self {
            Editor::Line(input) => {
                *input = BeatInput::from_str(source);
            },
            Editor::File(input) => {
                *input = FileInput::from_str(source);
            },
        }
    }

    /// The source that the editor holds.
    pub fn current_source(&self) -> (s: String)
        ensures
            s@ == self.text(),
    {
        match self {
            Editor::Line(input) => input.get_buffer(),
            Editor::File(input) => input.get_buffer(),
        }
    }

    pub fn set_errors(&mut self, errors: Vec<Spanned<ParseError>>)
        requires
            old(self).wf(),
        ensures
            final(self).wf(),
            old(self).same_source(*final(self)),
            final(self).shown_errors() == errors@,
    {
        match self {
            Editor::Line(input) => {
                input.set_errors(errors);
            },
            Editor::File(input) => {
                input.set_errors(errors);
            },
        }
    }

    pub fn clear_errors(&mut self)
        requires
            old(self).wf(),
        ensures
            final(self).wf(),
            old(self).same_source(*final(self)),
            final(self).shown_errors().len() == 0,
    {
        match self {
            Editor::Line(input) => {
                input.clear_errors();
            },
            Editor::File(input) => {
                input.clear_errors();
            },
        }
    }

    /// The errors shown below the source.
    pub fn errors(&self) -> (errors: &Vec<Spanned<ParseError>>)
        ensures
            errors@ == self.shown_errors(),
    {
        match self {
            Editor::Line(input) => input.errors(),
            Editor::File(input) => input.errors(),
        }
    }

    /// How many rows the editor takes: two of border, one for the source,
    /// one for each error shown, and one more where errors were left out.
    pub fn height_hint(&self) -> (rows: u16)
        ensures
            rows == rows_for(self.shown_errors().len()),
    {
        let n = self.errors().len();
        let shown: usize = if n <= MAX_ERRORS_SHOWN + 1 {
            n
        } else {
            MAX_ERRORS_SHOWN + 1
        };
        (3 + shown) as u16
    }
}

} // verus!
