//! The session controller: the open buffers, the display log, and what the
//! dictionary says about the text at the cursor.

use vstd::prelude::*;
use vstd::string::*;
use vstd::utf8::*;
use crate::bridge::{append_output, rendered};
use crate::completions_and_hints::{
    is_mapping, items_view, option_text, starts_with, CategoryData, CompletionItem,
    SapfDictionary,
};
use crate::lexer::{
    get_current_word_for_completion, get_word_at_cursor, scan_token_start, token_start, word_end,
};
use crate::lines::{current_logical_line, logical_line};
use crate::utf8_text::{
    bytes_of, lemma_ascii_byte_boundaries, lemma_bytes_of_concat, substring, text_ends_with,
    text_starts_with,
};
use crate::whitespace::{is_blank, trim_text};

verus! {

/// One text buffer with its cursor, a byte offset into the content.
#[derive(Debug, Clone)]
pub struct Buffer {
    pub content: String,
    pub cursor_pos: usize,
    pub name: String,
    pub is_modified: bool,
    pub file_path: Option<String>,
}

/// What is kept of a session from one run to the next.
#[derive(Debug)]
pub struct AppState {
    pub buffers: Vec<Buffer>,
    pub current_buffer_idx: usize,
    pub next_buffer_id: usize,
}

/// The session.
pub struct SapfAsPlainText {
    pub buffers: Vec<Buffer>,
    pub current_buffer_idx: usize,
    pub next_buffer_id: usize,
    pub from_sapf: String,
    pub sapf_grammar: SapfDictionary,
    pub completions: Vec<CompletionItem>,
    pub hover_info: Option<String>,
    pub show_completions: bool,
    pub should_focus_text_edit: bool,
    pub last_completion_cursor: Option<usize>,
    pub should_focus_completions: bool,
    pub show_buffer_bar: bool,
}

/// The decimal digit of a number below ten.
pub open spec fn digit_char(d: nat) -> char {
    if d == 0 {
        '0'
    } else if d == 1 {
        '1'
    } else if d == 2 {
        '2'
    } else if d == 3 {
        '3'
    } else if d == 4 {
        '4'
    } else if d == 5 {
        '5'
    } else if d == 6 {
        '6'
    } else if d == 7 {
        '7'
    } else if d == 8 {
        '8'
    } else {
        '9'
    }
}

/// A number written in decimal, without leading zeros.
pub open spec fn decimal(n: nat) -> Seq<char>
    decreases n,
{
    if n < 10 {
        seq![digit_char(n)]
    } else {
        decimal(n / 10).push(digit_char(n % 10))
    }
}

/// The name of a fresh buffer: the word `Untitled`, a space and the number.
pub open spec fn untitled(id: nat) -> Seq<char> {
    "Untitled "@ + decimal(id)
}

/// The completion query at a cursor: the run of word bytes and dots that
/// ends there, or the empty text where there is none.
pub open spec fn query_at(content: Seq<char>, cursor: int) -> Seq<char> {
    let bytes = bytes_of(content);
    if 0 <= cursor <= bytes.len() {
        decode_utf8(bytes.subrange(token_start(bytes, cursor, true), cursor))
    } else {
        Seq::empty()
    }
}

/// The word at a cursor, if the cursor touches one.
pub open spec fn word_at(content: Seq<char>, cursor: int) -> Option<Seq<char>> {
    let bytes = bytes_of(content);
    if 0 <= cursor <= bytes.len() && token_start(bytes, cursor, false) < word_end(bytes, cursor) {
        Some(decode_utf8(bytes.subrange(token_start(bytes, cursor, false), word_end(bytes, cursor))))
    } else {
        None
    }
}

/// The bytes of a text after a completion is applied at a cursor: the
/// candidate stands in place of the query that ends at the cursor.
pub open spec fn completed_bytes(content: Seq<char>, cursor: int, candidate: Seq<char>) -> Seq<u8> {
    let bytes = bytes_of(content);
    bytes.subrange(0, token_start(bytes, cursor, true)) + bytes_of(candidate) + bytes.subrange(
        cursor,
        bytes.len() as int,
    )
}

/// The cursor after a completion is applied: right behind the candidate.
pub open spec fn completed_cursor(content: Seq<char>, cursor: int, candidate: Seq<char>) -> int {
    token_start(bytes_of(content), cursor, true) + bytes_of(candidate).len()
}

/// `suffix` ends `text`.
pub open spec fn ends_with(text: Seq<char>, suffix: Seq<char>) -> bool {
    suffix.is_suffix_of(text)
}

/// The file name that is offered when a buffer is exported: the buffer's
/// name, with `.sapf` behind it unless it ends so already.
pub open spec fn export_name(name: Seq<char>) -> Seq<char> {
    if ends_with(name, ".sapf"@) {
        name
    } else {
        name + ".sapf"@
    }
}

/// The name of a buffer once it is written to a file: a buffer that was
/// never named takes the file's name, if the file has one.
pub open spec fn name_after_export(name: Seq<char>, file_name: Option<Seq<char>>) -> Seq<char> {
    match file_name {
        Some(f) => if starts_with(name, "Untitled "@) {
            f
        } else {
            name
        },
        None => name,
    }
}

/// The file name that is offered when a buffer of the given name is
/// exported.
pub fn export_file_name(name: &str) -> (r: String)
    ensures
        r@ == export_name(name@),
{
    let mut file_name = name.to_owned();
    if !text_ends_with(name, ".sapf") {
        file_name.append(".sapf");
    }
    file_name
}

/// The command that plays a line and records it to a file named after a
/// buffer and a moment: the line, then the file name in double quotes, then
/// the word `record`.
pub open spec fn record_text(code: Seq<char>, buffer_name: Seq<char>, stamp: Seq<char>) -> Seq<
    char,
> {
    code + " \""@ + buffer_name + "-"@ + stamp + "\" record"@
}

/// The command that plays a line and records it to a file named after the
/// buffer and the moment.
pub fn record_command(code: &str, buffer_name: &str, date: &str) -> (r: String)
    ensures
        r@ == record_text(code@, buffer_name@, date@),
{
    let mut command = code.to_owned();
    command.append(" \"");
    command.append(buffer_name);
    command.append("-");
    command.append(date);
    command.append("\" record");
    command
}

/// `chrono::Local::now`, written out by `DateTime::format`: the moment of
/// the call by this machine's clock, in its time zone. The text depends on
/// that moment, so nothing is claimed of it. Only the one format is let in
/// that the recordings are named by: `chrono` knows each of its items, and
/// writing the text out fails on a format that it does not know. Not ruled
/// out, because no argument decides it: `chrono` panics where the system
/// clock stands before the year 1970.
#[verifier::external_body]
fn local_time_text(format: &str) -> (stamp: String)
    requires
        format@ == "%Y-%m-%d_%H-%M-%S"@,
{
    chrono::Local::now().format(format).to_string()
}

/// One decimal digit as text.
pub fn digit_text(d: usize) -> (r: &'static str)
    requires
        d < 10,
    ensures
        r@ == seq![digit_char(d as nat)],
{
    proof {
        reveal_strlit("0");
        reveal_strlit("1");
        reveal_strlit("2");
        reveal_strlit("3");
        reveal_strlit("4");
        reveal_strlit("5");
        reveal_strlit("6");
        reveal_strlit("7");
        reveal_strlit("8");
        reveal_strlit("9");
    }
    let r = if d == 0 {
        "0"
    } else if d == 1 {
        "1"
    } else if d == 2 {
        "2"
    } else if d == 3 {
        "3"
    } else if d == 4 {
        "4"
    } else if d == 5 {
        "5"
    } else if d == 6 {
        "6"
    } else if d == 7 {
        "7"
    } else if d == 8 {
        "8"
    } else {
        "9"
    };
    assert(r@ =~= seq![digit_char(d as nat)]);
    r
}

/// A number written in decimal.
pub fn decimal_text(n: usize) -> (r: String)
    ensures
        r@ == decimal(n as nat),
    decreases n,
{
    if n < 10 {
        digit_text(n).to_owned()
    } else {
        let mut text = decimal_text(n / 10);
        text.append(digit_text(n % 10));
        assert(text@ =~= decimal((n / 10) as nat).push(digit_char((n % 10) as nat)));
        text
    }
}

/// The name of a fresh buffer with the given number.
pub fn untitled_name(id: usize) -> (name: String)
    ensures
        name@ == untitled(id as nat),
{
    let mut name = "Untitled ".to_owned();
    name.append(decimal_text(id).as_str());
    name
}

/// The text with the candidate in place of the query that ends at the
/// cursor, and the cursor right behind the candidate.
pub fn completed_text(content: &str, cursor_pos: usize, completion: &str) -> (r: (String, usize))
    requires
        cursor_pos <= bytes_of(content@).len(),
        is_char_boundary(bytes_of(content@), cursor_pos as int),
    ensures
        bytes_of(r.0@) == completed_bytes(content@, cursor_pos as int, completion@),
        r.1 == completed_cursor(content@, cursor_pos as int, completion@),
{
    let bytes = content.as_bytes();
    let word_start = scan_token_start(bytes, cursor_pos, true);
    proof {
        let b = bytes_of(content@);
        encode_utf8_valid_utf8(content@);
        is_char_boundary_start_end_of_seq(b);
        crate::lexer::lemma_token_start(b, cursor_pos as int, true);
        if word_start < cursor_pos {
            assert(crate::lexer::accepts(b[word_start as int], true));
            lemma_ascii_byte_boundaries(b, word_start as int);
        }
    }
    let head = substring(content, 0, word_start);
    let tail = substring(content, cursor_pos, bytes.len());
    let mut new_input = String::new();
    new_input.append(head.as_str());
    new_input.append(completion);
    new_input.append(tail.as_str());
    proof {
        assert(new_input@ =~= (head@ + completion@) + tail@);
        lemma_bytes_of_concat(head@ + completion@, tail@);
        lemma_bytes_of_concat(head@, completion@);
    }
    // The new text is in memory, so the offset behind the candidate is in range.
    let new_len: usize = new_input.as_str().as_bytes().len();
    assert(word_start + bytes_of(completion@).len() <= new_len);
    let new_cursor_pos = word_start + completion.as_bytes().len();
    (new_input, new_cursor_pos)
}

impl Buffer {
    /// An empty, unmodified buffer of the given name, not bound to a file.
    pub fn new(name: String) -> (b: Self)
        ensures
            b.content@ == Seq::<char>::empty(),
            b.cursor_pos == 0,
            b.name == name,
            !b.is_modified,
            b.file_path is None,
    {
        Buffer { content: String::new(), cursor_pos: 0, name, is_modified: false, file_path: None }
    }
}

impl SapfAsPlainText {
    /// There is a current buffer, and the dictionary is well formed.
    pub open spec fn wf(&self) -> bool {
        &&& self.current_buffer_idx < self.buffers@.len()
        &&& self.sapf_grammar.wf()
    }

    /// Nothing of the session is set but its buffers: the log is empty, no
    /// completion or hover is shown, and no focus is asked for.
    pub open spec fn is_fresh(&self) -> bool {
        &&& self.from_sapf@ == Seq::<char>::empty()
        &&& self.completions@.len() == 0
        &&& self.hover_info is None
        &&& !self.show_completions
        &&& !self.should_focus_text_edit
        &&& self.last_completion_cursor is None
        &&& !self.should_focus_completions
        &&& !self.show_buffer_bar
    }

    /// The two sessions differ at most in their buffers, in which buffer is
    /// current, in the number of the next buffer and in whether the text
    /// field is to take the focus.
    pub open spec fn same_but_buffers(&self, other: &Self) -> bool {
        &&& self.from_sapf == other.from_sapf
        &&& self.sapf_grammar == other.sapf_grammar
        &&& self.completions == other.completions
        &&& self.hover_info == other.hover_info
        &&& self.show_completions == other.show_completions
        &&& self.last_completion_cursor == other.last_completion_cursor
        &&& self.should_focus_completions == other.should_focus_completions
        &&& self.show_buffer_bar == other.show_buffer_bar
    }

    /// The session that a run starts with: the saved one where there is one,
    /// else a session with one empty buffer.
    pub fn new(saved: Option<AppState>, table: Vec<(String, CategoryData)>) -> (app: Self)
        requires
            is_mapping(table@),
        ensures
            app.is_fresh(),
            app.sapf_grammar.wf(),
            app.sapf_grammar.table() == table@,
            match saved {
                Some(state) => {
                    &&& app.buffers@ == state.buffers@
                    &&& app.next_buffer_id == state.next_buffer_id
                    &&& app.current_buffer_idx == if state.buffers@.len() == 0 {
                        0
                    } else if state.current_buffer_idx < state.buffers@.len() {
                        state.current_buffer_idx as int
                    } else {
                        state.buffers@.len() - 1
                    }
                },
                None => {
                    &&& app.buffers@.len() == 1
                    &&& app.buffers@[0].name@ == untitled(1)
                    &&& app.buffers@[0].content@ == Seq::<char>::empty()
                    &&& app.buffers@[0].cursor_pos == 0
                    &&& !app.buffers@[0].is_modified
                    &&& app.buffers@[0].file_path is None
                    &&& app.current_buffer_idx == 0
                    &&& app.next_buffer_id == 2
                },
            },
    {
        match saved {
            Some(state) => Self::from_saved_state(state, table),
            None => Self::with_default_state(table),
        }
    }

    /// A session with one empty buffer, `Untitled 1`.
    pub fn with_default_state(table: Vec<(String, CategoryData)>) -> (app: Self)
        requires
            is_mapping(table@),
        ensures
            app.wf(),
            app.is_fresh(),
            app.sapf_grammar.table() == table@,
            app.buffers@.len() == 1,
            app.buffers@[0].name@ == untitled(1),
            app.buffers@[0].content@ == Seq::<char>::empty(),
            app.buffers@[0].cursor_pos == 0,
            !app.buffers@[0].is_modified,
            app.buffers@[0].file_path is None,
            app.current_buffer_idx == 0,
            app.next_buffer_id == 2,
    {
        let mut buffers: Vec<Buffer> = Vec::new();
        buffers.push(Buffer::new(untitled_name(1)));
        SapfAsPlainText {
            buffers,
            current_buffer_idx: 0,
            next_buffer_id: 2,
            from_sapf: String::new(),
            sapf_grammar: SapfDictionary::new(table),
            completions: Vec::new(),
            hover_info: None,
            show_completions: false,
            should_focus_text_edit: false,
            last_completion_cursor: None,
            should_focus_completions: false,
            show_buffer_bar: false,
        }
    }

    /// The session that was saved: its buffers and counters, with the
    /// current buffer brought back into range.
    pub fn from_saved_state(state: AppState, table: Vec<(String, CategoryData)>) -> (app: Self)
        requires
            is_mapping(table@),
        ensures
            app.is_fresh(),
            app.sapf_grammar.wf(),
            app.sapf_grammar.table() == table@,
            app.buffers@ == state.buffers@,
            app.next_buffer_id == state.next_buffer_id,
            app.current_buffer_idx == if state.buffers@.len() == 0 {
                0
            } else if state.current_buffer_idx < state.buffers@.len() {
                state.current_buffer_idx as int
            } else {
                state.buffers@.len() - 1
            },
            state.buffers@.len() > 0 ==> app.wf(),
    {
        let buffer_count = state.buffers.len();
        let last: usize = if buffer_count == 0 {
            0
        } else {
            buffer_count - 1
        };
        let current: usize = if state.current_buffer_idx < last {
            state.current_buffer_idx
        } else {
            last
        };
        SapfAsPlainText {
            buffers: state.buffers,
            current_buffer_idx: current,
            next_buffer_id: state.next_buffer_id,
            from_sapf: String::new(),
            sapf_grammar: SapfDictionary::new(table),
            completions: Vec::new(),
            hover_info: None,
            show_completions: false,
            should_focus_text_edit: false,
            last_completion_cursor: None,
            should_focus_completions: false,
            show_buffer_bar: false,
        }
    }

    /// Whether there is a current buffer.
    pub fn has_current_buffer(&self) -> (r: bool)
        ensures
            r == (self.current_buffer_idx < self.buffers@.len()),
    {
        self.current_buffer_idx < self.buffers.len()
    }

    /// The current buffer.
    pub fn get_current_buffer(&self) -> (b: &Buffer)
        requires
            self.current_buffer_idx < self.buffers@.len(),
        ensures
            *b == self.buffers@[self.current_buffer_idx as int],
    {
        &self.buffers[self.current_buffer_idx]
    }

    /// The current buffer, to be changed in place: whatever the caller
    /// leaves in it stands in its place afterwards, and nothing else of the
    /// session changes.
    pub fn get_current_buffer_mut(&mut self) -> (b: &mut Buffer)
        requires
            old(self).current_buffer_idx < old(self).buffers@.len(),
        ensures
            *b == old(self).buffers@[old(self).current_buffer_idx as int],
            final(self).buffers@ == old(self).buffers@.update(
                old(self).current_buffer_idx as int,
                *final(b),
            ),
            final(self).current_buffer_idx == old(self).current_buffer_idx,
            final(self).next_buffer_id == old(self).next_buffer_id,
            final(self).should_focus_text_edit == old(self).should_focus_text_edit,
            final(self).same_but_buffers(old(self)),
    {
        &mut self.buffers[self.current_buffer_idx]
    }

    /// What is kept of the session from one run to the next: the buffers,
    /// which of them is current, and the number of the next buffer.
    pub fn snapshot(&self) -> (state: AppState)
        ensures
            state.buffers@ == self.buffers@,
            state.current_buffer_idx == self.current_buffer_idx,
            state.next_buffer_id == self.next_buffer_id,
    {
        let mut buffers: Vec<Buffer> = Vec::new();
        let mut i: usize = 0;
        while i < self.buffers.len()
            invariant
                i <= self.buffers@.len(),
                buffers@ == self.buffers@.take(i as int),
            decreases self.buffers@.len() - i,
        {
            let b = &self.buffers[i];
            let file_path = match &b.file_path {
                Some(p) => Some(p.clone()),
                None => None,
            };
            buffers.push(
                Buffer {
                    content: b.content.clone(),
                    cursor_pos: b.cursor_pos,
                    name: b.name.clone(),
                    is_modified: b.is_modified,
                    file_path,
                },
            );
            i += 1;
            assert(buffers@ =~= self.buffers@.take(i as int));
        }
        assert(self.buffers@.take(i as int) =~= self.buffers@);
        AppState {
            buffers,
            current_buffer_idx: self.current_buffer_idx,
            next_buffer_id: self.next_buffer_id,
        }
    }

    /// Opens a fresh buffer at the end, named after the next number, and
    /// makes it current.
    pub fn create_new_buffer(&mut self)
        requires
            old(self).next_buffer_id < usize::MAX,
        ensures
            final(self).buffers@.len() == old(self).buffers@.len() + 1,
            final(self).buffers@.take(old(self).buffers@.len() as int) == old(self).buffers@,
            final(self).buffers@.last().name@ == untitled(old(self).next_buffer_id as nat),
            final(self).buffers@.last().content@ == Seq::<char>::empty(),
            final(self).buffers@.last().cursor_pos == 0,
            !final(self).buffers@.last().is_modified,
            final(self).buffers@.last().file_path is None,
            final(self).current_buffer_idx == old(self).buffers@.len(),
            final(self).next_buffer_id == old(self).next_buffer_id + 1,
            final(self).should_focus_text_edit,
            final(self).same_but_buffers(old(self)),
    {
        let buffer_name = untitled_name(self.next_buffer_id);
        self.buffers.push(Buffer::new(buffer_name));
        self.current_buffer_idx = self.buffers.len() - 1;
        self.next_buffer_id += 1;
        self.should_focus_text_edit = true;
        assert(self.buffers@.take(old(self).buffers@.len() as int) =~= old(self).buffers@);
    }

    /// Opens a buffer for a file that was read: it stands at the end, with
    /// the cursor at the start, unmodified, and is current.
    pub fn open_buffer(&mut self, content: String, name: String, path: String)
        ensures
            final(self).buffers@ == old(self).buffers@.push(
                (Buffer {
                    content,
                    cursor_pos: 0,
                    name,
                    is_modified: false,
                    file_path: Some(path),
                }),
            ),
            final(self).current_buffer_idx == old(self).buffers@.len(),
            final(self).next_buffer_id == old(self).next_buffer_id,
            final(self).should_focus_text_edit,
            final(self).same_but_buffers(old(self)),
    {
        let buffer = Buffer { content, cursor_pos: 0, name, is_modified: false, file_path: Some(path) };
        self.buffers.push(buffer);
        self.current_buffer_idx = self.buffers.len() - 1;
        self.should_focus_text_edit = true;
    }

    /// Records that the current buffer was written to the file at `path`:
    /// the buffer is bound to the file and no longer modified, and a buffer
    /// that was never named takes the file's name, if the file has one.
    pub fn mark_exported(&mut self, path: String, file_name: Option<String>)
        requires
            old(self).current_buffer_idx < old(self).buffers@.len(),
        ensures
            final(self).buffers@.len() == old(self).buffers@.len(),
            forall|i: int|
                0 <= i < old(self).buffers@.len() && i != old(self).current_buffer_idx
                    ==> final(self).buffers@[i] == old(self).buffers@[i],
            final(self).buffers@[old(self).current_buffer_idx as int].file_path == Some(path),
            !final(self).buffers@[old(self).current_buffer_idx as int].is_modified,
            final(self).buffers@[old(self).current_buffer_idx as int].name@ == name_after_export(
                old(self).buffers@[old(self).current_buffer_idx as int].name@,
                option_text(file_name),
            ),
            final(self).buffers@[old(self).current_buffer_idx as int].content == old(
                self,
            ).buffers@[old(self).current_buffer_idx as int].content,
            final(self).buffers@[old(self).current_buffer_idx as int].cursor_pos == old(
                self,
            ).buffers@[old(self).current_buffer_idx as int].cursor_pos,
            final(self).current_buffer_idx == old(self).current_buffer_idx,
            final(self).next_buffer_id == old(self).next_buffer_id,
            final(self).should_focus_text_edit == old(self).should_focus_text_edit,
            final(self).same_but_buffers(old(self)),
    {
        let idx = self.current_buffer_idx;
        self.buffers[idx].file_path = Some(path);
        self.buffers[idx].is_modified = false;
        let unnamed = text_starts_with(self.buffers[idx].name.as_str(), "Untitled ");
        if unnamed {
            if let Some(filename) = file_name {
                self.buffers[idx].name = filename;
            }
        }
    }

    /// Takes over the cursor of the text field for the current buffer, and
    /// marks the buffer as modified.
    pub fn set_cursor(&mut self, cursor_pos: usize)
        requires
            old(self).current_buffer_idx < old(self).buffers@.len(),
        ensures
            final(self).buffers@.len() == old(self).buffers@.len(),
            forall|i: int|
                0 <= i < old(self).buffers@.len() && i != old(self).current_buffer_idx
                    ==> final(self).buffers@[i] == old(self).buffers@[i],
            final(self).buffers@[old(self).current_buffer_idx as int].cursor_pos == cursor_pos,
            final(self).buffers@[old(self).current_buffer_idx as int].is_modified,
            final(self).buffers@[old(self).current_buffer_idx as int].content == old(
                self,
            ).buffers@[old(self).current_buffer_idx as int].content,
            final(self).buffers@[old(self).current_buffer_idx as int].name == old(
                self,
            ).buffers@[old(self).current_buffer_idx as int].name,
            final(self).buffers@[old(self).current_buffer_idx as int].file_path == old(
                self,
            ).buffers@[old(self).current_buffer_idx as int].file_path,
            final(self).current_buffer_idx == old(self).current_buffer_idx,
            final(self).next_buffer_id == old(self).next_buffer_id,
            final(self).should_focus_text_edit == old(self).should_focus_text_edit,
            final(self).same_but_buffers(old(self)),
    {
        let idx = self.current_buffer_idx;
        self.buffers[idx].cursor_pos = cursor_pos;
        self.buffers[idx].is_modified = true;
    }

    /// Closes the current buffer unless it is the only one; the buffer that
    /// followed it becomes current, or the last one where none followed.
    /// Returns whether a buffer was closed.
    pub fn close_current_buffer(&mut self) -> (closed: bool)
        requires
            old(self).current_buffer_idx < old(self).buffers@.len(),
        ensures
            closed == (old(self).buffers@.len() > 1),
            closed ==> {
                &&& final(self).buffers@ == old(self).buffers@.remove(
                    old(self).current_buffer_idx as int,
                )
                &&& final(self).current_buffer_idx == if old(self).current_buffer_idx
                    < old(self).buffers@.len() - 1 {
                    old(self).current_buffer_idx as int
                } else {
                    old(self).buffers@.len() - 2
                }
                &&& final(self).should_focus_text_edit
            },
            !closed ==> {
                &&& final(self).buffers@ == old(self).buffers@
                &&& final(self).current_buffer_idx == old(self).current_buffer_idx
                &&& final(self).should_focus_text_edit == old(self).should_focus_text_edit
            },
            final(self).current_buffer_idx < final(self).buffers@.len(),
            final(self).next_buffer_id == old(self).next_buffer_id,
            final(self).same_but_buffers(old(self)),
    {
        if self.buffers.len() > 1 {
            self.buffers.remove(self.current_buffer_idx);
            if self.current_buffer_idx >= self.buffers.len() {
                self.current_buffer_idx = self.buffers.len() - 1;
            }
            self.should_focus_text_edit = true;
            true
        } else {
            false
        }
    }

    /// Makes the buffer at `idx` current, if there is one. Returns whether
    /// there is.
    pub fn switch_to_buffer(&mut self, idx: usize) -> (switched: bool)
        ensures
            switched == (idx < old(self).buffers@.len()),
            final(self).current_buffer_idx == if switched {
                idx
            } else {
                old(self).current_buffer_idx
            },
            final(self).should_focus_text_edit == (switched || old(self).should_focus_text_edit),
            final(self).buffers@ == old(self).buffers@,
            final(self).next_buffer_id == old(self).next_buffer_id,
            final(self).same_but_buffers(old(self)),
    {
        if idx < self.buffers.len() {
            self.current_buffer_idx = idx;
            self.should_focus_text_edit = true;
            true
        } else {
            false
        }
    }

    /// Makes the buffer after the current one current, the first after the
    /// last; with a single buffer nothing changes. Returns whether anything
    /// changed.
    pub fn next_buffer(&mut self) -> (moved: bool)
        requires
            old(self).current_buffer_idx < old(self).buffers@.len(),
        ensures
            moved == (old(self).buffers@.len() > 1),
            final(self).current_buffer_idx == if moved {
                (old(self).current_buffer_idx + 1) % (old(self).buffers@.len() as int)
            } else {
                old(self).current_buffer_idx as int
            },
            final(self).should_focus_text_edit == (moved || old(self).should_focus_text_edit),
            final(self).buffers@ == old(self).buffers@,
            final(self).next_buffer_id == old(self).next_buffer_id,
            final(self).same_but_buffers(old(self)),
    {
        if self.buffers.len() > 1 {
            self.current_buffer_idx = (self.current_buffer_idx + 1) % self.buffers.len();
            self.should_focus_text_edit = true;
            true
        } else {
            false
        }
    }

    /// Makes the buffer before the current one current, the last before the
    /// first; with a single buffer nothing changes. Returns whether anything
    /// changed.
    pub fn prev_buffer(&mut self) -> (moved: bool)
        requires
            old(self).current_buffer_idx < old(self).buffers@.len(),
        ensures
            moved == (old(self).buffers@.len() > 1),
            final(self).current_buffer_idx == if !moved {
                old(self).current_buffer_idx as int
            } else if old(self).current_buffer_idx == 0 {
                old(self).buffers@.len() - 1
            } else {
                old(self).current_buffer_idx - 1
            },
            final(self).should_focus_text_edit == (moved || old(self).should_focus_text_edit),
            final(self).buffers@ == old(self).buffers@,
            final(self).next_buffer_id == old(self).next_buffer_id,
            final(self).same_but_buffers(old(self)),
    {
        if self.buffers.len() > 1 {
            self.current_buffer_idx = if self.current_buffer_idx == 0 {
                self.buffers.len() - 1
            } else {
                self.current_buffer_idx - 1
            };
            self.should_focus_text_edit = true;
            true
        } else {
            false
        }
    }

    /// Appends to the display log the lines drained from the output queue:
    /// each line that is not blank, in order, followed by a line feed.
    pub fn update_output(&mut self, lines: &Vec<String>)
        ensures
            final(self).from_sapf@ == old(self).from_sapf@ + rendered(lines@),
            final(self).buffers == old(self).buffers,
            final(self).current_buffer_idx == old(self).current_buffer_idx,
            final(self).next_buffer_id == old(self).next_buffer_id,
            final(self).sapf_grammar == old(self).sapf_grammar,
            final(self).completions == old(self).completions,
            final(self).hover_info == old(self).hover_info,
            final(self).show_completions == old(self).show_completions,
            final(self).should_focus_text_edit == old(self).should_focus_text_edit,
            final(self).last_completion_cursor == old(self).last_completion_cursor,
            final(self).should_focus_completions == old(self).should_focus_completions,
            final(self).show_buffer_bar == old(self).show_buffer_bar,
    {
        append_output(&mut self.from_sapf, lines);
    }

    /// The logical line of the current buffer at its cursor.
    pub fn get_current_line(&self) -> (line: String)
        requires
            self.current_buffer_idx < self.buffers@.len(),
        ensures
            line@ == logical_line(
                self.buffers@[self.current_buffer_idx as int].content@,
                self.buffers@[self.current_buffer_idx as int].cursor_pos as int,
            ),
    {
        let buffer = self.get_current_buffer();
        current_logical_line(buffer.content.as_str(), buffer.cursor_pos)
    }

    /// The line to hand to the interpreter: the logical line of the current
    /// buffer, unless it is blank.
    pub fn line_to_run(&self) -> (line: Option<String>)
        requires
            self.current_buffer_idx < self.buffers@.len(),
        ensures
            option_text(line) == if is_blank(
                logical_line(
                    self.buffers@[self.current_buffer_idx as int].content@,
                    self.buffers@[self.current_buffer_idx as int].cursor_pos as int,
                ),
            ) {
                None
            } else {
                Some(
                    logical_line(
                        self.buffers@[self.current_buffer_idx as int].content@,
                        self.buffers@[self.current_buffer_idx as int].cursor_pos as int,
                    ),
                )
            },
    {
        let code = self.get_current_line();
        if trim_text(code.as_str()).is_empty() {
            None
        } else {
            Some(code)
        }
    }

    /// The command that plays the logical line of the current buffer and
    /// records it to a file named after the buffer and the present moment.
    pub fn record_current_line(&self) -> (command: String)
        requires
            self.current_buffer_idx < self.buffers@.len(),
        ensures
            exists|stamp: Seq<char>|
                command@ == #[trigger] record_text(
                    logical_line(
                        self.buffers@[self.current_buffer_idx as int].content@,
                        self.buffers@[self.current_buffer_idx as int].cursor_pos as int,
                    ),
                    self.buffers@[self.current_buffer_idx as int].name@,
                    stamp,
                ),
    {
        let code = self.get_current_line();
        let date = local_time_text("%Y-%m-%d_%H-%M-%S");
        let command = record_command(
            code.as_str(),
            self.get_current_buffer().name.as_str(),
            date.as_str(),
        );
        assert(command@ == record_text(
            code@,
            self.buffers@[self.current_buffer_idx as int].name@,
            date@,
        ));
        command
    }

    /// Lists the completions for the query at the cursor of the current
    /// buffer, and shows them if there are any. Without a query every
    /// category and every symbol is listed.
    pub fn trigger_completions(&mut self)
        requires
            old(self).current_buffer_idx < old(self).buffers@.len(),
        ensures
            items_view(final(self).completions@) == old(self).sapf_grammar.completions_of(
                query_at(
                    old(self).buffers@[old(self).current_buffer_idx as int].content@,
                    old(self).buffers@[old(self).current_buffer_idx as int].cursor_pos as int,
                ),
            ),
            final(self).show_completions == (final(self).completions@.len() > 0),
            final(self).buffers == old(self).buffers,
            final(self).current_buffer_idx == old(self).current_buffer_idx,
            final(self).next_buffer_id == old(self).next_buffer_id,
            final(self).from_sapf == old(self).from_sapf,
            final(self).sapf_grammar == old(self).sapf_grammar,
            final(self).hover_info == old(self).hover_info,
            final(self).should_focus_text_edit == old(self).should_focus_text_edit,
            final(self).last_completion_cursor == old(self).last_completion_cursor,
            final(self).should_focus_completions == old(self).should_focus_completions,
            final(self).show_buffer_bar == old(self).show_buffer_bar,
    {
        let buffer = &self.buffers[self.current_buffer_idx];
        let ghost content = buffer.content@;
        let ghost cursor = buffer.cursor_pos as int;
        let found = match get_current_word_for_completion(
            buffer.content.as_str(),
            buffer.cursor_pos,
        ) {
            Some(current_word) => {
                proof {
                    encode_utf8_decode_utf8(current_word@);
                }
                self.sapf_grammar.get_completions(current_word.as_str())
            },
            None => {
                proof {
                    reveal_strlit("");
                    assert(""@ =~= Seq::<char>::empty());
                    let bytes = bytes_of(content);
                    if 0 <= cursor <= bytes.len() {
                        assert(bytes.subrange(cursor, cursor) =~= Seq::<u8>::empty());
                        assert(bytes_of(Seq::<char>::empty()) =~= Seq::<u8>::empty());
                        encode_utf8_decode_utf8(Seq::<char>::empty());
                    }
                }
                self.sapf_grammar.get_completions("")
            },
        };
        self.show_completions = found.len() > 0;
        self.completions = found;
    }

    /// Puts the candidate in place of the query that ends at the cursor of
    /// the current buffer, and the cursor right behind it.
    pub fn apply_completion(&mut self, completion: &str)
        requires
            old(self).current_buffer_idx < old(self).buffers@.len(),
            old(self).buffers@[old(self).current_buffer_idx as int].cursor_pos <= bytes_of(
                old(self).buffers@[old(self).current_buffer_idx as int].content@,
            ).len(),
            is_char_boundary(
                bytes_of(old(self).buffers@[old(self).current_buffer_idx as int].content@),
                old(self).buffers@[old(self).current_buffer_idx as int].cursor_pos as int,
            ),
        ensures
            final(self).buffers@.len() == old(self).buffers@.len(),
            forall|i: int|
                0 <= i < old(self).buffers@.len() && i != old(self).current_buffer_idx
                    ==> final(self).buffers@[i] == old(self).buffers@[i],
            bytes_of(final(self).buffers@[old(self).current_buffer_idx as int].content@)
                == completed_bytes(
                old(self).buffers@[old(self).current_buffer_idx as int].content@,
                old(self).buffers@[old(self).current_buffer_idx as int].cursor_pos as int,
                completion@,
            ),
            final(self).buffers@[old(self).current_buffer_idx as int].cursor_pos
                == completed_cursor(
                old(self).buffers@[old(self).current_buffer_idx as int].content@,
                old(self).buffers@[old(self).current_buffer_idx as int].cursor_pos as int,
                completion@,
            ),
            final(self).buffers@[old(self).current_buffer_idx as int].name == old(
                self,
            ).buffers@[old(self).current_buffer_idx as int].name,
            final(self).buffers@[old(self).current_buffer_idx as int].is_modified == old(
                self,
            ).buffers@[old(self).current_buffer_idx as int].is_modified,
            final(self).buffers@[old(self).current_buffer_idx as int].file_path == old(
                self,
            ).buffers@[old(self).current_buffer_idx as int].file_path,
            final(self).current_buffer_idx == old(self).current_buffer_idx,
            final(self).next_buffer_id == old(self).next_buffer_id,
            final(self).should_focus_text_edit == old(self).should_focus_text_edit,
            final(self).same_but_buffers(old(self)),
    {
        let idx = self.current_buffer_idx;
        let (new_input, new_cursor_pos) = completed_text(
            self.buffers[idx].content.as_str(),
            self.buffers[idx].cursor_pos,
            completion,
        );
        self.buffers[idx].content = new_input;
        self.buffers[idx].cursor_pos = new_cursor_pos;
    }

    /// Looks up the word at the cursor of the current buffer and keeps what
    /// the dictionary says of it; nothing where the cursor touches no word.
    pub fn update_completions_and_hints(&mut self)
        requires
            old(self).current_buffer_idx < old(self).buffers@.len(),
        ensures
            option_text(final(self).hover_info) == match word_at(
                old(self).buffers@[old(self).current_buffer_idx as int].content@,
                old(self).buffers@[old(self).current_buffer_idx as int].cursor_pos as int,
            ) {
                Some(word) => old(self).sapf_grammar.hover_of(word),
                None => None,
            },
            final(self).buffers == old(self).buffers,
            final(self).current_buffer_idx == old(self).current_buffer_idx,
            final(self).next_buffer_id == old(self).next_buffer_id,
            final(self).from_sapf == old(self).from_sapf,
            final(self).sapf_grammar == old(self).sapf_grammar,
            final(self).completions == old(self).completions,
            final(self).show_completions == old(self).show_completions,
            final(self).should_focus_text_edit == old(self).should_focus_text_edit,
            final(self).last_completion_cursor == old(self).last_completion_cursor,
            final(self).should_focus_completions == old(self).should_focus_completions,
            final(self).show_buffer_bar == old(self).show_buffer_bar,
    {
        let buffer = &self.buffers[self.current_buffer_idx];
        let hover = match get_word_at_cursor(buffer.content.as_str(), buffer.cursor_pos) {
            Some((word, _, _)) => {
                proof {
                    encode_utf8_decode_utf8(word@);
                }
                self.sapf_grammar.get_hover_info(word.as_str())
            },
            None => None,
        };
        self.hover_info = hover;
    }
}

} // verus!
