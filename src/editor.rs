use crate::document::{
    hit, in_scope, joined_lines, nearest_hit, split_lines, stops_of, Document,
};
use crate::position::{Position, SearchDirection};
use crate::row::RowError;
use crate::row::{
    column_in, stop_at_column, with_char, without_cluster, MAX_ROW_CHARS,
};
use crate::terminal::{Size, Terminal};
use vstd::prelude::*;

verus! {

/// How many times Ctrl-Q must be pressed to leave with unsaved changes.
pub const QUIT_TIMES: u8 = 3;

/// A key press, as the editor reads it.
#[derive(PartialEq, Eq, Structural, Clone, Copy, Debug)]
pub enum Key {
    Char(char),
    Ctrl(char),
    Enter,
    Delete,
    Backspace,
    Up,
    Down,
    Left,
    Right,
    PageUp,
    PageDown,
    Home,
    End,
    Esc,
    Other,
}

/// What the caller must do after a key press.
#[derive(PartialEq, Eq, Structural, Clone, Copy, Debug)]
pub enum Action {
    Nothing,
    /// Write the document's text to its file, then report with `save_finished`.
    Save,
    Quit,
}

/// The message under the status bar.
#[derive(PartialEq, Eq, Structural, Clone, Copy, Debug)]
pub enum Status {
    Empty,
    Help,
    OpenFailed,
    SaveAborted,
    Saved,
    SaveFailed,
    /// Unsaved changes; this many more presses of Ctrl-Q quit.
    UnsavedWarning(u8),
    /// A prompt is open; it shows its label and what was typed.
    Prompting,
}

/// A message and the time, in milliseconds, when it was set.
#[derive(PartialEq, Eq, Structural, Clone, Copy, Debug)]
pub struct StatusMessage {
    pub text: Status,
    pub time: u64,
}

impl StatusMessage {
    pub fn from(message: Status, time: u64) -> (r: StatusMessage)
        ensures
            r.text == message,
            r.time == time,
    {
        StatusMessage { text: message, time }
    }
}

/// What an open prompt asks for.
#[derive(PartialEq, Eq, Structural, Clone, Copy, Debug)]
pub enum PromptKind {
    /// A file name to save to.
    SaveAs,
    /// A search query; `anchor` is where the cursor stood when the search began.
    Search { anchor: Position },
}

pub struct Prompt {
    pub kind: PromptKind,
    pub input: Vec<char>,
}

/// A control character, as `char::is_control` has it: general category Cc.
pub open spec fn is_control_spec(c: char) -> bool {
    c <= '\u{1f}' || ('\u{7f}' <= c && c <= '\u{9f}')
}

pub fn is_control(c: char) -> (r: bool)
    ensures
        r == is_control_spec(c),
{
    c <= '\u{1f}' || ('\u{7f}' <= c && c <= '\u{9f}')
}

/// Display column of stop `x` of line `y`; 0 past the last line.
pub open spec fn column_at(ls: Seq<Seq<char>>, y: int, x: int) -> nat {
    if 0 <= y < ls.len() {
        column_in(ls[y], x)
    } else {
        0
    }
}

/// The cursor stands on a stop of a line, or at the start of the line past the
/// last, and `x` is the column of that stop.
pub open spec fn valid_position(ls: Seq<Seq<char>>, p: Position) -> bool {
    &&& p.y <= ls.len()
    &&& p.x_word_index <= stops_of(ls, p.y as int)
    &&& p.x == column_at(ls, p.y as int, p.x_word_index as int)
}

/// The stop of line `y` nearest to display column `col`.
pub open spec fn stop_near(ls: Seq<Seq<char>>, y: int, col: nat) -> int {
    if 0 <= y < ls.len() {
        stop_at_column(ls[y], col)
    } else {
        0
    }
}

/// Row and stop that a motion key takes the cursor to; `h` is the height of the
/// text area. Up and Down keep the display column, Left and Right cross line
/// ends, and nothing moves past the document's bounds.
pub open spec fn motion(ls: Seq<Seq<char>>, p: Position, key: Key, h: int) -> (int, int) {
    let y = p.y as int;
    let x = p.x_word_index as int;
    let n = ls.len() as int;
    match key {
        Key::Up => if y > 0 {
            (y - 1, stop_near(ls, y - 1, p.x as nat))
        } else {
            (y, x)
        },
        Key::Down => if y + 1 < n {
            (y + 1, stop_near(ls, y + 1, p.x as nat))
        } else {
            (y, x)
        },
        Key::Left => if x > 0 {
            (y, x - 1)
        } else if y > 0 {
            (y - 1, stops_of(ls, y - 1))
        } else {
            (y, x)
        },
        Key::Right => if y < n && x < stops_of(ls, y) {
            (y, x + 1)
        } else if y + 1 < n {
            (y + 1, 0)
        } else {
            (y, x)
        },
        Key::Home => (y, 0),
        Key::End => (y, stops_of(ls, y)),
        Key::PageUp => {
            let y2 = if y > h {
                y - h
            } else {
                0
            };
            (y2, stop_near(ls, y2, p.x as nat))
        },
        Key::PageDown => {
            let y2 = if y + h < n {
                y + h
            } else {
                n
            };
            (y2, stop_near(ls, y2, p.x as nat))
        },
        _ => (y, x),
    }
}

pub open spec fn sat_add(a: int, b: int) -> int {
    if a + b > usize::MAX {
        usize::MAX as int
    } else {
        a + b
    }
}

pub open spec fn sat_sub(a: int, b: int) -> int {
    if a < b {
        0
    } else {
        a - b
    }
}

/// The new offset along one axis, so that `c` lies in `[o, o + span)`.
pub open spec fn scroll_axis(c: int, o: int, span: int) -> int {
    if c < o {
        c
    } else if c >= sat_add(o, span) {
        sat_add(sat_sub(c, span), 1)
    } else {
        o
    }
}

/// The direction a key sends a search in: back for Left and Up, else forward.
pub open spec fn step_direction(key: Key) -> SearchDirection {
    match key {
        Key::Left | Key::Up => SearchDirection::Backward,
        _ => SearchDirection::Forward,
    }
}

/// Where a search step leaves the cursor `p`: at the nearest match in the key's
/// direction (the cursor's own stop passed over), or where it was when there is
/// none. Every key of the search runs this step with the query as it now stands.
pub open spec fn search_lands(
    ls: Seq<Seq<char>>,
    query: Seq<char>,
    key: Key,
    p: Position,
    q: Position,
) -> bool {
    (nearest_hit(
        ls,
        query,
        step_direction(key),
        p.y as int,
        p.x_word_index as int,
        q.y as int,
        q.x_word_index as int,
    ) && valid_position(ls, q)) || (q == p && forall|y: int, x: int|
        #![trigger hit(ls, query, y, x)]
        hit(ls, query, y, x) ==> !in_scope(
            step_direction(key),
            p.y as int,
            p.x_word_index as int,
            y,
            x,
        ))
}

/// The prompt's text after a key that does not close it.
pub open spec fn edited_input(input: Seq<char>, key: Key) -> Seq<char> {
    match key {
        Key::Backspace => if input.len() > 0 {
            input.drop_last()
        } else {
            input
        },
        Key::Char(c) => if is_control_spec(c) {
            input
        } else {
            input.push(c)
        },
        _ => input,
    }
}

/// What a key does while a prompt is open. Enter accepts and Esc cancels; a
/// save prompt accepted with a name names the document and asks for the write,
/// one left empty aborts the save; a search cancelled or left empty puts the
/// cursor back where the search began. Any other key edits the prompt's text
/// and, in a search, takes a search step with it.
pub open spec fn prompt_outcome(e0: Editor, e1: Editor, key: Key, r: Action) -> bool {
    match e0.prompt {
        Some(p) => {
            &&& e1.document.lines() == e0.document.lines()
            &&& e1.document.dirty() == e0.document.dirty()
            &&& (e1.document.name() == e0.document.name() || (p.kind == PromptKind::SaveAs && key
                == Key::Enter && p.input@.len() > 0))
            &&& e1.quit_times == e0.quit_times
            &&& e1.should_quit == e0.should_quit
            &&& r != Action::Quit
            &&& if key == Key::Enter || key == Key::Esc {
                &&& e1.prompt is None
                &&& match p.kind {
                    PromptKind::SaveAs => if key == Key::Enter && p.input@.len() > 0 {
                        r == Action::Save && e1.document.name() == Some(p.input)
                    } else {
                        r == Action::Nothing && e1.status_message.text == Status::SaveAborted
                    },
                    PromptKind::Search { anchor } => {
                        &&& r == Action::Nothing
                        &&& e1.highlighted_word is None
                        &&& if key == Key::Enter && p.input@.len() > 0 {
                            e1.cursor_position == e0.cursor_position
                        } else {
                            e1.cursor_position == anchor
                        }
                    },
                }
            } else {
                &&& r == Action::Nothing
                &&& e1.status_message.text == Status::Prompting
                &&& e1.prompt matches Some(p1) && p1.kind == p.kind && p1.input@ == edited_input(
                    p.input@,
                    key,
                ) && match p.kind {
                    PromptKind::SaveAs => e1.cursor_position == e0.cursor_position,
                    PromptKind::Search { .. } => search_lands(
                        e0.document.lines(),
                        p1.input@,
                        key,
                        e0.cursor_position,
                        e1.cursor_position,
                    ),
                }
            }
        },
        None => true,
    }
}

/// The lines after a line break is typed at `(y, x)`.
pub open spec fn newline_outcome(ls: Seq<Seq<char>>, y: int, x: int) -> Seq<Seq<char>> {
    if y == ls.len() {
        ls.push(Seq::empty())
    } else {
        split_lines(ls, y, x)
    }
}

/// The lines after a delete at `(y, x)`: the cluster there goes, or at a row's
/// end the next row joins it, unless the joined row would be too long.
pub open spec fn delete_outcome(ls: Seq<Seq<char>>, y: int, x: int) -> Seq<Seq<char>> {
    if y >= ls.len() {
        ls
    } else if x < stops_of(ls, y) {
        ls.update(y, without_cluster(ls[y], x))
    } else if y + 1 < ls.len() && ls[y].len() + ls[y + 1].len() <= MAX_ROW_CHARS {
        joined_lines(ls, y)
    } else {
        ls
    }
}

/// The lines after an editing key at cursor `p`; `h` is the text area's height.
pub open spec fn edit_outcome(ls: Seq<Seq<char>>, p: Position, key: Key, h: int) -> Seq<
    Seq<char>,
> {
    let y = p.y as int;
    let x = p.x_word_index as int;
    match key {
        Key::Char(c) => if c == '\n' {
            newline_outcome(ls, y, x)
        } else if y == ls.len() {
            ls.push(seq![c])
        } else if ls[y].len() == MAX_ROW_CHARS {
            ls
        } else {
            ls.update(y, with_char(ls[y], x, c))
        },
        Key::Enter => newline_outcome(ls, y, x),
        Key::Delete => delete_outcome(ls, y, x),
        Key::Backspace => if x > 0 || y > 0 {
            let (y2, x2) = motion(ls, p, Key::Left, h);
            delete_outcome(ls, y2, x2)
        } else {
            ls
        },
        _ => ls,
    }
}

/// The position `p` brought onto the lines `ls`: the row clamped to the row past
/// the last, the stop to the row's end, the column that of the stop.
pub open spec fn settled(ls: Seq<Seq<char>>, p: Position) -> Position {
    let y = if p.y > ls.len() {
        ls.len() as int
    } else {
        p.y as int
    };
    let x = if p.x_word_index > stops_of(ls, y) {
        stops_of(ls, y)
    } else {
        p.x_word_index as int
    };
    Position { x: column_at(ls, y, x) as usize, x_word_index: x as usize, y: y as usize }
}

/// Where the cursor `p` goes after an editing key that changed the lines `ls0`
/// into `ls1`. A typed character moves it one stop on, a line break to the
/// start of the next row; Delete leaves it; Backspace first moves it left, so
/// at a row's start it lands on the previous row's end before the join. Stops
/// and columns are taken on the new lines.
pub open spec fn edit_cursor(
    ls0: Seq<Seq<char>>,
    ls1: Seq<Seq<char>>,
    p: Position,
    key: Key,
    h: int,
) -> Position {
    let next_row = Position { x: 0, x_word_index: 0, y: (p.y + 1) as usize };
    match key {
        Key::Char(c) => if c == '\n' {
            next_row
        } else if p.y < ls0.len() && ls0[p.y as int].len() == MAX_ROW_CHARS {
            p
        } else {
            settled(ls1, Position { x: 0, x_word_index: (p.x_word_index + 1) as usize, y: p.y })
        },
        Key::Enter => next_row,
        Key::Delete => settled(ls1, p),
        Key::Backspace => if p.x_word_index > 0 || p.y > 0 {
            let (y, x) = motion(ls0, p, Key::Left, h);
            settled(ls1, Position { x: 0, x_word_index: x as usize, y: y as usize })
        } else {
            p
        },
        _ => p,
    }
}

/// Number of stops of row `y`; 0 past the last row.
fn stops_at(doc: &Document, y: usize) -> (r: usize)
    requires
        doc.wf(),
    ensures
        r == stops_of(doc.lines(), y as int),
        r <= MAX_ROW_CHARS,
{
    match doc.row(y) {
        Some(row) => {
            proof {
                row.lemma_wf();
            }
            row.grapheme_count()
        },
        None => 0,
    }
}

/// The position at stop `x` of row `y`, with its display column.
fn place(doc: &Document, y: usize, x: usize) -> (r: Position)
    requires
        doc.wf(),
        y <= doc.lines().len(),
        x <= stops_of(doc.lines(), y as int),
    ensures
        valid_position(doc.lines(), r),
        r.y == y,
        r.x_word_index == x,
{
    let col = match doc.row(y) {
        Some(row) => row.word_index_to_column(x),
        None => 0,
    };
    Position { x: col, x_word_index: x, y }
}

/// The stop of row `y` nearest to column `col`.
fn stop_near_exec(doc: &Document, y: usize, col: usize) -> (r: usize)
    requires
        doc.wf(),
    ensures
        r == stop_near(doc.lines(), y as int, col as nat),
        r <= stops_of(doc.lines(), y as int),
{
    match doc.row(y) {
        Some(row) => row.column_to_word_index(col),
        None => 0,
    }
}

/// Brings a position back onto the document after an edit: the row and the
/// stop are clamped and the column is computed again.
pub fn settle(doc: &Document, p: &Position) -> (r: Position)
    requires
        doc.wf(),
    ensures
        valid_position(doc.lines(), r),
        r == settled(doc.lines(), *p),
        valid_position(doc.lines(), *p) ==> r == *p,
{
    let len = doc.len();
    let y = if p.y > len {
        len
    } else {
        p.y
    };
    let n = stops_at(doc, y);
    let x = if p.x_word_index > n {
        n
    } else {
        p.x_word_index
    };
    place(doc, y, x)
}

/// Where a motion key takes the cursor.
pub fn moved(doc: &Document, at: &Position, key: Key, height: usize) -> (r: Position)
    requires
        doc.wf(),
        valid_position(doc.lines(), *at),
    ensures
        valid_position(doc.lines(), r),
        (r.y as int, r.x_word_index as int) == motion(doc.lines(), *at, key, height as int),
{
    let ghost ls = doc.lines();
    let n = doc.len();
    let y = at.y;
    let x = at.x_word_index;
    match key {
        Key::Up => {
            if y > 0 {
                let k = stop_near_exec(doc, y - 1, at.x);
                place(doc, y - 1, k)
            } else {
                *at
            }
        },
        Key::Down => {
            if y < n && y + 1 < n {
                let k = stop_near_exec(doc, y + 1, at.x);
                place(doc, y + 1, k)
            } else {
                *at
            }
        },
        Key::Left => {
            if x > 0 {
                place(doc, y, x - 1)
            } else if y > 0 {
                let k = stops_at(doc, y - 1);
                place(doc, y - 1, k)
            } else {
                *at
            }
        },
        Key::Right => {
            if y < n && x < stops_at(doc, y) {
                place(doc, y, x + 1)
            } else if y < n && y + 1 < n {
                place(doc, y + 1, 0)
            } else {
                *at
            }
        },
        Key::Home => place(doc, y, 0),
        Key::End => {
            let k = stops_at(doc, y);
            place(doc, y, k)
        },
        Key::PageUp => {
            let y2 = if y > height {
                y - height
            } else {
                0
            };
            let k = stop_near_exec(doc, y2, at.x);
            place(doc, y2, k)
        },
        Key::PageDown => {
            let y2 = if y < n && height < n - y {
                y + height
            } else {
                n
            };
            let k = stop_near_exec(doc, y2, at.x);
            place(doc, y2, k)
        },
        _ => *at,
    }
}

/// The view offset that keeps `cursor` on a screen of `size`.
pub fn scroll_offset(cursor: &Position, offset: &Position, size: &Size) -> (r: Position)
    ensures
        r.y == scroll_axis(cursor.y as int, offset.y as int, size.height as int),
        r.x == scroll_axis(cursor.x as int, offset.x as int, size.width as int),
        r.x_word_index == offset.x_word_index,
{
    let width = size.width as usize;
    let height = size.height as usize;
    let mut r = *offset;
    if cursor.y < r.y {
        r.y = cursor.y;
    } else if cursor.y >= r.y.saturating_add(height) {
        r.y = cursor.y.saturating_sub(height).saturating_add(1);
    }
    if cursor.x < r.x {
        r.x = cursor.x;
    } else if cursor.x >= r.x.saturating_add(width) {
        r.x = cursor.x.saturating_sub(width).saturating_add(1);
    }
    r
}

/// The editing session: the document, the cursor and the view onto it, the
/// message line and any open prompt.
pub struct Editor {
    pub should_quit: bool,
    pub terminal: Terminal,
    pub cursor_position: Position,
    pub offset: Position,
    pub document: Document,
    pub status_message: StatusMessage,
    pub quit_times: u8,
    pub highlighted_word: Option<Vec<char>>,
    pub prompt: Option<Prompt>,
}

impl Editor {
    pub open spec fn wf(&self) -> bool {
        &&& self.document.wf()
        &&& valid_position(self.document.lines(), self.cursor_position)
        &&& self.quit_times <= QUIT_TIMES
        &&& self.prompt matches Some(p) ==> (p.kind matches PromptKind::Search { anchor }
            ==> valid_position(self.document.lines(), anchor))
    }

    /// A session on `document`. `open_failed` says that a file was named and
    /// could not be read; the message line says so, else it shows the help.
    pub fn new(terminal: Terminal, document: Document, open_failed: bool, now: u64) -> (r: Editor)
        requires
            document.wf(),
        ensures
            r.wf(),
            r.document == document,
            r.cursor_position == Position::default_spec(),
            r.offset == Position::default_spec(),
            r.status_message.text == (if open_failed {
                Status::OpenFailed
            } else {
                Status::Help
            }),
            r.quit_times == QUIT_TIMES,
            !r.should_quit,
            r.prompt is None,
            r.highlighted_word is None,
    {
        let text = if open_failed {
            Status::OpenFailed
        } else {
            Status::Help
        };
        let cursor = place(&document, 0, 0);
        Editor {
            should_quit: false,
            terminal,
            cursor_position: cursor,
            offset: Position { x: 0, x_word_index: 0, y: 0 },
            document,
            status_message: StatusMessage::from(text, now),
            quit_times: QUIT_TIMES,
            highlighted_word: None,
            prompt: None,
        }
    }

    /// Moves the view so that the cursor is on screen.
    pub fn scroll(&mut self)
        ensures
            final(self).offset == scroll_offset_spec(
                old(self).cursor_position,
                old(self).offset,
                old(self).terminal.size_spec(),
            ),
            final(self).cursor_position == old(self).cursor_position,
            final(self).document == old(self).document,
            final(self).quit_times == old(self).quit_times,
            final(self).prompt == old(self).prompt,
            final(self).should_quit == old(self).should_quit,
            final(self).status_message == old(self).status_message,
            final(self).terminal.size_spec() == old(self).terminal.size_spec(),
    {
        let size = *self.terminal.size();
        self.offset = scroll_offset(&self.cursor_position, &self.offset, &size);
    }

    /// Applies a motion key to the cursor.
    pub fn move_cursor(&mut self, key: Key)
        requires
            old(self).wf(),
        ensures
            final(self).wf(),
            (final(self).cursor_position.y as int, final(self).cursor_position.x_word_index as int)
                == motion(
                old(self).document.lines(),
                old(self).cursor_position,
                key,
                old(self).terminal.size_spec().height as int,
            ),
            final(self).document == old(self).document,
            final(self).quit_times == old(self).quit_times,
            final(self).prompt == old(self).prompt,
            final(self).should_quit == old(self).should_quit,
            final(self).status_message == old(self).status_message,
            final(self).terminal.size_spec() == old(self).terminal.size_spec(),
    {
        let height = self.terminal.size().height as usize;
        self.cursor_position = moved(&self.document, &self.cursor_position, key, height);
    }

    /// Ctrl-S: with a file name, asks the caller to write the file; without
    /// one, opens the prompt for a name.
    pub fn save(&mut self, now: u64) -> (r: Action)
        requires
            old(self).wf(),
        ensures
            final(self).wf(),
            final(self).document == old(self).document,
            final(self).cursor_position == old(self).cursor_position,
            final(self).offset == old(self).offset,
            final(self).quit_times == old(self).quit_times,
            final(self).should_quit == old(self).should_quit,
            final(self).highlighted_word == old(self).highlighted_word,
            final(self).terminal.size_spec() == old(self).terminal.size_spec(),
            old(self).document.name() is Some ==> r == Action::Save && final(self).prompt is None
                && final(self).status_message == old(self).status_message,
            old(self).document.name() is None ==> r == Action::Nothing && (final(self).prompt matches Some(p) && p.kind == PromptKind::SaveAs && p.input@.len() == 0),
    {
        if self.document.file_name().is_some() {
            self.prompt = None;
            Action::Save
        } else {
            self.prompt = Some(Prompt { kind: PromptKind::SaveAs, input: Vec::new() });
            self.status_message = StatusMessage::from(Status::Prompting, now);
            Action::Nothing
        }
    }

    /// Reports how writing the file went.
    pub fn save_finished(&mut self, ok: bool, now: u64)
        requires
            old(self).wf(),
        ensures
            final(self).wf(),
            final(self).document.lines() == old(self).document.lines(),
            ok ==> !final(self).document.dirty(),
            !ok ==> final(self).document.dirty() == old(self).document.dirty(),
            final(self).status_message.text == (if ok {
                Status::Saved
            } else {
                Status::SaveFailed
            }),
    {
        if ok {
            self.document.mark_saved();
            self.status_message = StatusMessage::from(Status::Saved, now);
        } else {
            self.status_message = StatusMessage::from(Status::SaveFailed, now);
        }
    }

    /// The cursor after the document changed under it, kept on the document.
    fn resettle(&mut self)
        requires
            old(self).document.wf(),
            old(self).quit_times <= QUIT_TIMES,
            old(self).prompt is None,
        ensures
            final(self).wf(),
            final(self).document == old(self).document,
            final(self).quit_times == old(self).quit_times,
            final(self).prompt == old(self).prompt,
            final(self).should_quit == old(self).should_quit,
            final(self).status_message == old(self).status_message,
            final(self).highlighted_word == old(self).highlighted_word,
            final(self).terminal.size_spec() == old(self).terminal.size_spec(),
            valid_position(old(self).document.lines(), old(self).cursor_position)
                ==> final(self).cursor_position == old(self).cursor_position,
            final(self).cursor_position == settled(
                old(self).document.lines(),
                old(self).cursor_position,
            ),
    {
        self.cursor_position = settle(&self.document, &self.cursor_position);
    }

    /// One step of a search: Left and Up search backward, any other key forward,
    /// from the cursor.
    fn search_step(&mut self, key: Key, query: &Vec<char>)
        requires
            old(self).wf(),
        ensures
            final(self).wf(),
            final(self).document == old(self).document,
            final(self).quit_times == old(self).quit_times,
            final(self).prompt == old(self).prompt,
            final(self).should_quit == old(self).should_quit,
            search_lands(
                old(self).document.lines(),
                query@,
                key,
                old(self).cursor_position,
                final(self).cursor_position,
            ),
    {
        let direction = match key {
            Key::Left | Key::Up => SearchDirection::Backward,
            _ => SearchDirection::Forward,
        };
        match self.document.find(query, &self.cursor_position, direction) {
            Some(p) => {
                proof {
                    crate::row::lemma_offset_bounds(
                        crate::row::grapheme_clusters(self.document.lines()[p.y as int]),
                        0,
                        0,
                    );
                }
                self.cursor_position = p;
                self.scroll();
            },
            None => {},
        }
    }

    /// A key while a prompt is open.
    fn prompt_keypress(&mut self, key: Key, now: u64) -> (r: Action)
        requires
            old(self).wf(),
            old(self).prompt is Some,
        ensures
            final(self).wf(),
            prompt_outcome(*old(self), *final(self), key, r),
    {
        let ghost e0 = *self;
        let mut prompt = match self.prompt.take() {
            Some(p) => p,
            None => {
                return Action::Nothing;
            },
        };
        let ghost p0 = prompt;
        let kind = prompt.kind;
        match key {
            Key::Enter | Key::Esc => {
                if key == Key::Esc {
                    prompt.input = Vec::new();
                }
                let accepted = prompt.input.len() > 0;
                assert(accepted == (key == Key::Enter && p0.input@.len() > 0));
                self.status_message = StatusMessage::from(Status::Empty, now);
                match kind {
                    PromptKind::SaveAs => {
                        if accepted {
                            self.document.set_file_name(prompt.input);
                            Action::Save
                        } else {
                            self.status_message = StatusMessage::from(Status::SaveAborted, now);
                            Action::Nothing
                        }
                    },
                    PromptKind::Search { anchor } => {
                        if !accepted {
                            self.cursor_position = anchor;
                            self.resettle();
                            self.scroll();
                        }
                        self.highlighted_word = None;
                        Action::Nothing
                    },
                }
            },
            _ => {
                match key {
                    Key::Backspace => {
                        prompt.input.pop();
                    },
                    Key::Char(c) => {
                        if !is_control(c) {
                            prompt.input.push(c);
                        }
                    },
                    _ => {},
                }
                assert(prompt.input@ =~= edited_input(p0.input@, key));
                match kind {
                    PromptKind::Search { .. } => {
                        self.search_step(key, &prompt.input);
                        self.highlighted_word = Some(prompt.input.clone());
                    },
                    PromptKind::SaveAs => {},
                }
                self.status_message = StatusMessage::from(Status::Prompting, now);
                self.prompt = Some(prompt);
                Action::Nothing
            },
        }
    }

    /// Enter: cuts the row at the cursor and puts the cursor at the start of
    /// the new row.
    fn break_line(&mut self)
        requires
            old(self).wf(),
            old(self).prompt is None,
        ensures
            final(self).wf(),
            final(self).document.lines() == newline_outcome(
                old(self).document.lines(),
                old(self).cursor_position.y as int,
                old(self).cursor_position.x_word_index as int,
            ),
            final(self).document.dirty(),
            final(self).document.name() == old(self).document.name(),
            final(self).cursor_position == (Position {
                x: 0,
                x_word_index: 0,
                y: (old(self).cursor_position.y + 1) as usize,
            }),
            final(self).quit_times == old(self).quit_times,
            final(self).should_quit == old(self).should_quit,
            final(self).prompt is None,
            final(self).terminal.size_spec() == old(self).terminal.size_spec(),
    {
        let at = self.cursor_position;
        let r = self.document.insert_newline(&at);
        proof {
            lemma_row_error_cases(r);
        }
        let len = self.document.len();
        assert(at.y + 1 <= len);
        self.cursor_position = Position { x: 0, x_word_index: 0, y: at.y + 1 };
    }

    /// Handles one key press and says what the caller must do next.
    pub fn process_keypress(&mut self, key: Key, now: u64) -> (r: Action)
        requires
            old(self).wf(),
        ensures
            final(self).wf(),
            old(self).prompt is None && key == Key::Ctrl('q') && old(self).quit_times > 0 && old(self).document.dirty() ==> r == Action::Nothing && final(self).should_quit == old(self).should_quit
                && final(self).quit_times == old(self).quit_times - 1
                && final(self).status_message.text == Status::UnsavedWarning(old(self).quit_times)
                && final(self).document == old(self).document,
            old(self).prompt is None && key == Key::Ctrl('q') && !(old(self).quit_times > 0 && old(self).document.dirty()) ==> r == Action::Quit && final(self).should_quit,
            r == Action::Quit ==> final(self).should_quit,
            old(self).prompt is None && (key is Char || key == Key::Enter || key == Key::Delete)
                ==> final(self).document.dirty(),
            old(self).prompt is None && (key is Char || key == Key::Enter || key == Key::Delete
                || key == Key::Backspace) ==> final(self).document.lines() == edit_outcome(
                old(self).document.lines(),
                old(self).cursor_position,
                key,
                old(self).terminal.size_spec().height as int,
            ),
            old(self).prompt is None && (key is Up || key is Down || key is Left || key is Right
                || key is Home || key is End || key is PageUp || key is PageDown) ==> (final(self).cursor_position.y as int, final(self).cursor_position.x_word_index as int) == motion(
                old(self).document.lines(),
                old(self).cursor_position,
                key,
                old(self).terminal.size_spec().height as int,
            ) && final(self).document == old(self).document,
            prompt_outcome(*old(self), *final(self), key, r),
            old(self).prompt is None && key == Key::Ctrl('f') ==> (final(self).prompt matches Some(
                p,
            ) && p.kind == (PromptKind::Search { anchor: old(self).cursor_position })
                && p.input@.len() == 0),
            old(self).prompt is None && (key == Key::Ctrl('f') || key == Key::Ctrl('s'))
                ==> final(self).cursor_position == old(self).cursor_position && final(self).document
                == old(self).document,
            old(self).prompt is None && key == Key::Ctrl('q') ==> final(self).document == old(
                self,
            ).document && final(self).cursor_position == old(self).cursor_position,
            old(self).prompt is None && key != Key::Ctrl('q') ==> final(self).quit_times
                == QUIT_TIMES,
            old(self).prompt is None && (key is Char || key == Key::Enter || key == Key::Delete
                || key == Key::Backspace) ==> final(self).cursor_position == edit_cursor(
                old(self).document.lines(),
                final(self).document.lines(),
                old(self).cursor_position,
                key,
                old(self).terminal.size_spec().height as int,
            ),
    {
        if self.prompt.is_some() {
            return self.prompt_keypress(key, now);
        }
        let mut action = Action::Nothing;
        match key {
            Key::Ctrl(c) => {
                if c == 'q' {
                    if self.quit_times > 0 && self.document.is_dirty() {
                        self.status_message = StatusMessage::from(
                            Status::UnsavedWarning(self.quit_times),
                            now,
                        );
                        self.quit_times = self.quit_times - 1;
                        return Action::Nothing;
                    }
                    self.should_quit = true;
                    action = Action::Quit;
                } else if c == 's' {
                    action = self.save(now);
                } else if c == 'f' {
                    self.prompt = Some(
                        Prompt {
                            kind: PromptKind::Search { anchor: self.cursor_position },
                            input: Vec::new(),
                        },
                    );
                    self.status_message = StatusMessage::from(Status::Prompting, now);
                }
            },
            Key::Char(c) => {
                if c == '\n' {
                    self.break_line();
                } else {
                    let at = self.cursor_position;
                    let n = stops_at(&self.document, at.y);
                    let r = self.document.insert(&at, c);
                    proof {
                        lemma_row_error_cases(r);
                    }
                    if r.is_ok() {
                        let next = Position { x: 0, x_word_index: at.x_word_index + 1, y: at.y };
                        self.cursor_position = settle(&self.document, &next);
                    } else {
                        self.resettle();
                    }
                }
            },
            Key::Enter => {
                self.break_line();
            },
            Key::Delete => {
                let at = self.cursor_position;
                let r = self.document.delete(&at);
                proof {
                    lemma_row_error_cases(r);
                }
                self.resettle();
            },
            Key::Backspace => {
                if self.cursor_position.x_word_index > 0 || self.cursor_position.y > 0 {
                    self.move_cursor(Key::Left);
                    let at = self.cursor_position;
                    let r = self.document.delete(&at);
                    proof {
                        lemma_row_error_cases(r);
                    }
                    self.resettle();
                }
            },
            Key::Up | Key::Down | Key::Left | Key::Right | Key::PageUp | Key::PageDown
            | Key::Home | Key::End => {
                self.move_cursor(key);
            },
            _ => {},
        }
        self.scroll();
        if self.quit_times < QUIT_TIMES {
            self.quit_times = QUIT_TIMES;
            self.status_message = StatusMessage::from(Status::Empty, now);
        }
        action
    }
}

proof fn lemma_row_error_cases(r: Result<(), RowError>)
    ensures
        r is Ok || r == Err::<(), RowError>(RowError::OutOfRange) || r == Err::<(), RowError>(
            RowError::Full,
        ),
{
    match r {
        Ok(_) => {},
        Err(RowError::OutOfRange) => {},
        Err(RowError::Full) => {},
    }
}

/// The offset that `scroll_offset` computes.
pub open spec fn scroll_offset_spec(cursor: Position, offset: Position, size: Size) -> Position {
    Position {
        x: scroll_axis(cursor.x as int, offset.x as int, size.width as int) as usize,
        x_word_index: offset.x_word_index,
        y: scroll_axis(cursor.y as int, offset.y as int, size.height as int) as usize,
    }
}

} // verus!
