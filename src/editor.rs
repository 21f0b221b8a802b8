use std::collections::VecDeque;

use vstd::prelude::*;

use crate::document::{cut_rows, find_column, offset_of, rows_fit, shift_all, Document};
use crate::geometry::{Pos, Region, Size};
use crate::instructions::{ops_of, Instruction, Op, Value};
use crate::markers::{generate, row_of, shifted, strip_markers, Markers};
use crate::text::{chars_of, newlines, string_of};
use crate::timer::Timer;
use crate::width::{char_width, cw, str_width_of, text_width};

verus! {

/// What the host should do after a step.
#[derive(Debug, Clone, Copy, PartialEq, Eq, Structural)]
pub enum RenderAction {
    /// Something changed: draw it.
    Render,
    /// Nothing was left to do.
    Skip,
    /// Draw, and take no more steps this tick.
    NextFrame,
}

/// Outside work that a step asks of the host.
#[derive(Debug)]
pub enum Effect {
    Nothing,
    /// A character was typed into the document.
    Play(char),
    /// Load the sound at this path; report a failure with `Editor::fail`.
    LoadAudio(String),
    /// Write the document to this path; see `Editor::may_write`.
    WriteBuffer(String),
}

/// `x` moved by `d`, kept within `0..=usize::MAX`.
pub open spec fn moved(x: usize, d: i32) -> usize {
    if x + d < 0 {
        0
    } else if x + d > usize::MAX {
        usize::MAX
    } else {
        (x + d) as usize
    }
}

/// `a + b - 1`, kept within `0..=usize::MAX`.
pub open spec fn last_of(a: usize, b: usize) -> usize {
    if a + b == 0 {
        0
    } else if a + b - 1 > usize::MAX {
        usize::MAX
    } else {
        (a + b - 1) as usize
    }
}

/// The message shown when a jump names a marker that does not exist.
pub open spec fn missing_marker_message(name: Seq<char>) -> Seq<char> {
    seq!['m', 'a', 'r', 'k', 'e', 'r', ' ', '"'] + name + seq![
        '"',
        ' ',
        'd',
        'o',
        'e',
        's',
        ' ',
        'n',
        'o',
        't',
        ' ',
        'e',
        'x',
        'i',
        's',
        't',
    ]
}

/// The message shown when the document would overwrite an existing file.
pub open spec fn file_exists_message(path: Seq<char>) -> Seq<char> {
    seq!['c', 'a', 'n', '\'', 't', ' ', 'w', 'r', 'i', 't', 'e', ' ', 't', 'o', ' ', '"'] + path + seq![
        '"',
        ',',
        ' ',
        'f',
        'i',
        'l',
        'e',
        ' ',
        'a',
        'l',
        'r',
        'e',
        'a',
        'd',
        'y',
        ' ',
        'e',
        'x',
        'i',
        's',
        't',
        's',
    ]
}

/// How far the view is scrolled: what is added to a document position to
/// get its place on screen.
#[derive(Debug, Clone, Copy, PartialEq, Eq, Structural)]
pub struct Offset {
    pub x: i128,
    pub y: i128,
}

/// What the editor shows besides the document.
#[derive(Debug)]
pub struct DocState {
    pub screen_cursor_x: i128,
    pub screen_cursor_y: i128,
    pub offset_x: i128,
    pub offset_y: i128,
    pub cursor_x: usize,
    pub cursor_y: usize,
    pub height: u16,
    pub title: String,
    pub error: String,
    pub popup: String,
    pub command_buffer: Vec<char>,
    pub show_cursor: bool,
    pub show_line_numbers: bool,
    /// Values bound for the render layer; a later binding of a name hides
    /// the earlier ones.
    pub ctx: Vec<(String, Value)>,
}

impl DocState {
    pub fn new() -> (r: DocState)
        ensures
            r.show_cursor,
            !r.show_line_numbers,
            r.title@ == Seq::<char>::empty(),
            r.error@ == Seq::<char>::empty(),
            r.popup@ == Seq::<char>::empty(),
            r.command_buffer@ == Seq::<char>::empty(),
            r.ctx@ == Seq::<(String, Value)>::empty(),
    {
        DocState {
            screen_cursor_x: 0,
            screen_cursor_y: 0,
            offset_x: 0,
            offset_y: 0,
            cursor_x: 0,
            cursor_y: 0,
            height: 0,
            title: String::new(),
            error: String::new(),
            popup: String::new(),
            command_buffer: Vec::new(),
            show_cursor: true,
            show_line_numbers: false,
            ctx: Vec::new(),
        }
    }
}

/// The scripted editor: a document, a cursor, an optional selection, the
/// instructions still to run, and the characters still to type.
#[derive(Debug)]
pub struct Editor {
    pub doc: Document,
    pub cursor: Pos,
    pub selected_range: Option<Region>,
    pub instructions: VecDeque<Instruction>,
    pub type_buffer: VecDeque<char>,
    pub type_command_buffer: VecDeque<char>,
    pub line_pause: u64,
    pub extension: String,
    pub theme: String,
    pub frame_timer: Timer,
    pub command_clear_timeout: u64,
    pub offset: Offset,
    pub state: DocState,
}

fn push_chars(q: &mut VecDeque<char>, s: &Vec<char>)
    ensures
        final(q)@ == old(q)@ + s@,
{
    let mut i: usize = 0;
    while i < s.len()
        invariant
            i <= s@.len(),
            q@ == old(q)@ + s@.subrange(0, i as int),
        decreases s@.len() - i,
    {
        q.push_back(s[i]);
        i = i + 1;
        assert(q@ =~= old(q)@ + s@.subrange(0, i as int));
    }
    assert(s@.subrange(0, i as int) =~= s@);
}

fn joined(a: &str, b: &str, c: &str) -> (r: String)
    ensures
        r@ == a@ + b@ + c@,
{
    let mut v = chars_of(a);
    let mut bv = chars_of(b);
    let mut cv = chars_of(c);
    v.append(&mut bv);
    v.append(&mut cv);
    string_of(&v)
}

impl Editor {
    /// The instructions still to run.
    pub open spec fn queue(&self) -> Seq<Op> {
        ops_of(self.instructions@)
    }

    pub fn new(instructions: Vec<Instruction>, frame_time: u64) -> (r: Editor)
        ensures
            r.doc.chars() == Seq::<char>::empty(),
            r.doc.marks() == Seq::<(Seq<char>, usize)>::empty(),
            r.doc.rows_valid(),
            r.cursor == (Pos { x: 0, y: 0 }),
            r.selected_range is None,
            r.queue() == ops_of(instructions@),
            r.type_buffer@ == Seq::<char>::empty(),
            r.type_command_buffer@ == Seq::<char>::empty(),
            r.frame_timer.frame_time == frame_time,
            r.frame_timer.jitter_ms == 20,
            r.frame_timer.wait == 0,
            r.line_pause == 0,
            r.extension@ == "txt"@,
            r.theme@ == "togglebit"@,
            r.command_clear_timeout == 1_000_000,
            r.state.show_cursor,
            r.offset == (Offset { x: 0, y: 0 }),
            r.state.error@ == Seq::<char>::empty(),
    {
        let mut queue: VecDeque<Instruction> = VecDeque::new();
        let mut instructions = instructions;
        let ghost all = instructions@;
        while instructions.len() > 0
            invariant
                all == queue@ + instructions@,
            decreases instructions@.len(),
        {
            let ghost before = instructions@;
            let ins = instructions.remove(0);
            queue.push_back(ins);
            assert(queue@ + instructions@ =~= all);
        }
        proof {
            reveal_strlit("");
            reveal_strlit("txt");
            reveal_strlit("togglebit");
        }
        let doc = Document::new("");
        let extension = string_of(&vec!['t', 'x', 't']);
        let theme = string_of(&vec!['t', 'o', 'g', 'g', 'l', 'e', 'b', 'i', 't']);
        assert(extension@ =~= "txt"@);
        assert(theme@ =~= "togglebit"@);
        assert(queue@ =~= all);
        Editor {
            doc,
            cursor: Pos::new(0, 0),
            selected_range: None,
            instructions: queue,
            type_buffer: VecDeque::new(),
            type_command_buffer: VecDeque::new(),
            line_pause: 0,
            extension,
            theme,
            frame_timer: Timer::new(frame_time),
            command_clear_timeout: 1_000_000,
            offset: Offset { x: 0, y: 0 },
            state: DocState::new(),
        }
    }
}


/// The cursor after a match at column `c` of a needle `needle` wide: at
/// the match's start, or at its last column.
pub open spec fn found_at(c: usize, width: usize, end_of_word: bool) -> usize {
    if end_of_word {
        last_of(c, width)
    } else {
        c
    }
}

/// The queue after text was loaded: the registration of its markers first,
/// where it has any.
pub open spec fn after_load(rest: Seq<Op>, row: usize, markers: Seq<(Seq<char>, usize)>) -> Seq<Op> {
    if markers.len() > 0 {
        seq![Op::AddMarkers { row, markers }] + rest
    } else {
        rest
    }
}

/// `t` with `s` inserted at index `i`.
pub open spec fn inserted(t: Seq<char>, i: int, s: Seq<char>) -> Seq<char> {
    t.subrange(0, i) + s + t.subrange(i, t.len() as int)
}

/// Running `op` takes the editor from `pre`, whose queue after `op` holds
/// `rest`, to `post`, with result `r`.
pub open spec fn executes(pre: Editor, rest: Seq<Op>, post: Editor, op: Op, r: (RenderAction, Effect)) -> bool {
    let t = pre.doc.chars();
    let c = pre.cursor;
    &&& post.type_command_buffer@ == pre.type_command_buffer@ || op is LoadCommandBuffer
    &&& post.type_buffer@ == pre.type_buffer@ || op is LoadTypeBuffer
    &&& (op is Delete || op is Insert || op is AddMarkers || op is Clear) || (post.doc.chars() == t
        && post.doc.marks() == pre.doc.marks())
    &&& (op is Jump || op is JumpToMarker || op is Select || op is Delete || op is FindInCurrentLine
        || op is Insert || op is Clear) || post.cursor == c
    &&& (op is LoadTypeBuffer || op is Insert || op is ClearCommandWait || op is JumpToMarker)
        || post.queue() == rest
    &&& pre.doc.rows_valid() && !(op is AddMarkers) ==> post.doc.rows_valid()
    &&& (op is JumpToMarker) || post.state.error@ == pre.state.error@
    &&& (op is Select || op is Delete) || post.selected_range == pre.selected_range
    &&& (op is Wait || op is Speed || op is SetJitter) || post.frame_timer == pre.frame_timer
    &&& (op is LinePause) || post.line_pause == pre.line_pause
    &&& (op is Clear) || post.offset == pre.offset
    &&& (op is CommandClearTimeout) || post.command_clear_timeout == pre.command_clear_timeout
    &&& !(op is Wait) ==> r.0 == RenderAction::Render
    &&& !(op is LoadAudio || op is WriteBuffer) ==> r.1 is Nothing
    &&& match op {
        Op::Jump { col, row } => post.cursor == (Pos { x: moved(c.x, col), y: moved(c.y, row) }),
        Op::JumpToMarker(name) => match row_of(pre.doc.marks(), name) {
            Some(row) => post.cursor == (Pos { x: 0, y: row }) && post.queue() == rest,
            None => post.cursor == c && post.state.error@ == missing_marker_message(name) && post.queue().len()
                == 0,
        },
        Op::Select(size) => if size.width == 0 && size.height == 0 {
            post.cursor == c && post.selected_range == Some(Region { from: c, size })
        } else {
            &&& post.selected_range == Some(Region { from: c, size })
            &&& post.cursor == (Pos { x: last_of(c.x, size.width), y: last_of(c.y, size.height) })
        },
        Op::Delete => match pre.selected_range {
            Some(reg) => {
                &&& post.doc.chars() == cut_rows(
                    t,
                    reg.from.x as nat,
                    reg.from.y as nat,
                    crate::document::rows_within(reg) as nat,
                    reg.size.width as nat,
                )
                &&& post.cursor == reg.from
                &&& post.selected_range is None
                &&& post.doc.marks() == pre.doc.marks()
            },
            None => {
                &&& post.doc.chars() == cut_rows(
                    t,
                    c.x as nat,
                    c.y as nat,
                    crate::document::rows_within(Region { from: c, size: Size { width: 1, height: 1 } }) as nat,
                    1,
                )
                &&& post.cursor == c
                &&& post.selected_range is None
                &&& post.doc.marks() == pre.doc.marks()
            },
        },
        Op::Wait(d) => post.frame_timer.wait == d && r.0 == RenderAction::NextFrame,
        Op::Speed(d) => post.frame_timer.frame_time == d,
        Op::LinePause(d) => post.line_pause == d,
        Op::SetJitter(ms) => post.frame_timer.jitter_ms == ms,
        Op::FindInCurrentLine { needle, end_of_word, count } => if needle.len() == 0 {
            post.cursor == c
        } else {
            match find_column(t, c.x as nat, c.y as nat, needle, count as nat) {
                None => post.cursor == c,
                Some(col) => post.cursor == (Pos {
                    x: found_at(col, str_width_of(needle), end_of_word),
                    y: c.y,
                }),
            }
        },
        Op::LoadTypeBuffer(content) => {
            &&& post.type_buffer@ == pre.type_buffer@ + strip_markers(content, 0, 0).0
            &&& post.queue() == after_load(rest, c.y, strip_markers(content, 0, 0).1)
        },
        Op::Insert(content) => {
            &&& post.cursor == (Pos { x: 0, y: c.y })
            &&& post.doc.chars() == inserted(t, offset_of(t, 0, c.y as nat), strip_markers(content, 0, 0).0)
            &&& post.doc.marks() == shift_all(
                pre.doc.marks(),
                c.y,
                newlines(strip_markers(content, 0, 0).0) as usize,
            )
            &&& post.queue() == after_load(rest, c.y, strip_markers(content, 0, 0).1)
        },
        Op::AddMarkers { row, markers } => {
            &&& post.doc.chars() == t
            &&& post.doc.marks().len() == pre.doc.marks().len() + markers.len()
            &&& post.doc.marks().subrange(0, pre.doc.marks().len() as int) == pre.doc.marks()
            &&& forall|i: int|
                0 <= i < markers.len() ==> #[trigger] post.doc.marks()[pre.doc.marks().len() + i] == (
                    markers[i].0,
                    shifted(markers[i].1, 0, row),
                )
            &&& pre.doc.rows_valid() && rows_fit(markers, row, newlines(t)) ==> post.doc.rows_valid()
        },
        Op::Clear => {
            &&& post.doc.chars() == Seq::<char>::empty()
            &&& post.doc.marks() == Seq::<(Seq<char>, usize)>::empty()
            &&& post.cursor == (Pos { x: 0, y: 0 })
            &&& post.offset == (Offset { x: 0, y: 0 })
        },
        Op::LoadCommandBuffer(content) => {
            &&& post.type_command_buffer@ == pre.type_command_buffer@ + content
            &&& !post.state.show_cursor
        },
        Op::ClearCommandBuffer => post.state.command_buffer@ == Seq::<char>::empty() && post.state.show_cursor,
        Op::ClearCommandWait => post.queue() == seq![Op::Wait(pre.command_clear_timeout)] + rest,
        Op::CommandClearTimeout(d) => post.command_clear_timeout == d,
        Op::SetTitle(title) => post.state.title@ == title,
        Op::SetExtension(e) => post.extension@ == e,
        Op::SetTheme(theme) => post.theme@ == theme,
        Op::ShowLineNumbers(b) => post.state.show_line_numbers == b,
        Op::Popup(msg) => post.state.popup@ == msg,
        Op::ClosePopup => post.state.popup@ == Seq::<char>::empty(),
        Op::LoadAudio(path) => r.1 matches Effect::LoadAudio(p) && p@ == path,
        Op::WriteBuffer(path) => r.1 matches Effect::WriteBuffer(p) && p@ == path,
        Op::SetVariable(name, v) => post.state.ctx@.len() == pre.state.ctx@.len() + 1 && post.state.ctx@.last().0@
            == name && post.state.ctx@.last().1@ == v,
    }
}


impl Editor {
    /// Drops every instruction still to run and shows `msg`.
    pub fn fail(&mut self, msg: String)
        ensures
            final(self).state.error@ == msg@,
            final(self).queue().len() == 0,
            final(self).doc == old(self).doc,
            final(self).cursor == old(self).cursor,
            final(self).selected_range == old(self).selected_range,
            final(self).type_buffer@ == old(self).type_buffer@,
            final(self).type_command_buffer@ == old(self).type_command_buffer@,
            final(self).frame_timer == old(self).frame_timer,
            final(self).line_pause == old(self).line_pause,
            final(self).offset == old(self).offset,
            final(self).command_clear_timeout == old(self).command_clear_timeout,
    {
        self.instructions.clear();
        self.state.error = msg;
    }

    /// Registers the markers of text just loaded at the cursor's row, ahead
    /// of everything else in the queue.
    fn schedule_markers(&mut self, markers: Markers)
        ensures
            final(self).queue() == after_load(old(self).queue(), old(self).cursor.y, markers@),
            final(self).doc == old(self).doc,
            final(self).cursor == old(self).cursor,
            final(self).selected_range == old(self).selected_range,
            final(self).type_buffer@ == old(self).type_buffer@,
            final(self).type_command_buffer@ == old(self).type_command_buffer@,
            final(self).state.error@ == old(self).state.error@,
            final(self).frame_timer == old(self).frame_timer,
            final(self).line_pause == old(self).line_pause,
            final(self).offset == old(self).offset,
            final(self).command_clear_timeout == old(self).command_clear_timeout,
    {
        if markers.len() > 0 {
            let ghost m = markers@;
            let row = self.cursor.y;
            self.instructions.push_front(Instruction::AddMarkers { row, markers });
            assert(self.queue() =~= seq![Op::AddMarkers { row, markers: m }] + old(self).queue());
        }
    }

    /// Runs one instruction.
    #[verifier::rlimit(60)]
    pub fn run(&mut self, ins: Instruction) -> (r: (RenderAction, Effect))
        ensures
            executes(*old(self), old(self).queue(), *final(self), ins@, r),
    {
        match ins {
            Instruction::LoadCommandBuffer(content) => {
                self.state.show_cursor = false;
                let chars = chars_of(content.as_str());
                push_chars(&mut self.type_command_buffer, &chars);
            },
            Instruction::LoadTypeBuffer(content) => {
                let (text, markers) = generate(&chars_of(content.as_str()));
                push_chars(&mut self.type_buffer, &text);
                self.schedule_markers(markers);
            },
            Instruction::Insert(content) => {
                let (text, markers) = generate(&chars_of(content.as_str()));
                self.cursor.x = 0;
                let s = string_of(&text);
                self.doc.insert_str(self.cursor, s.as_str());
                self.schedule_markers(markers);
            },
            Instruction::AddMarkers { row, markers } => {
                self.doc.add_markers(row, markers);
            },
            Instruction::Jump { col, row } => {
                self.cursor = Pos::new(move_by(self.cursor.x, col), move_by(self.cursor.y, row));
            },
            Instruction::JumpToMarker(name) => {
                let found = match self.doc.lookup_marker(name.as_str()) {
                    Some(m) => Some(m.row),
                    None => None,
                };
                match found {
                    Some(row) => {
                        self.cursor = Pos::new(0, row);
                    },
                    None => {
                        let msg = joined("marker \"", name.as_str(), "\" does not exist");
                        proof {
                            reveal_strlit("marker \"");
                            reveal_strlit("\" does not exist");
                            assert(msg@ =~= missing_marker_message(name@));
                        }
                        self.fail(msg);
                    },
                }
            },
            Instruction::Select(size) => {
                if size.is_zero() {
                    // an empty selection: a later delete removes nothing
                    self.selected_range = Some(Region::new(self.cursor, size));
                } else {
                    let from = self.cursor;
                    self.cursor = Pos::new(
                        last_index(from.x, size.width),
                        last_index(from.y, size.height),
                    );
                    self.selected_range = Some(Region::new(from, size));
                }
            },
            Instruction::Delete => {
                match self.selected_range {
                    Some(range) => {
                        self.cursor = range.from;
                        self.doc.delete(range);
                    },
                    None => {
                        self.doc.delete(Region::new(self.cursor, Size::new(1, 1)));
                    },
                }
                self.selected_range = None;
            },
            Instruction::Wait(d) => {
                self.frame_timer.wait(d);
                return (RenderAction::NextFrame, Effect::Nothing);
            },
            Instruction::Speed(d) => {
                self.frame_timer.frame_time = d;
            },
            Instruction::FindInCurrentLine { needle, end_of_word, count } => {
                if needle.as_str().unicode_len() > 0 {
                    match self.doc.find(self.cursor, needle.as_str(), count) {
                        None => {},
                        Some(x) => {
                            self.cursor.x = if end_of_word {
                                last_index(x, text_width(needle.as_str()))
                            } else {
                                x
                            };
                        },
                    }
                }
            },
            Instruction::LinePause(d) => {
                self.line_pause = d;
            },
            Instruction::SetTitle(title) => {
                self.state.title = title;
            },
            Instruction::SetJitter(ms) => {
                self.frame_timer.jitter_ms = ms;
            },
            Instruction::ShowLineNumbers(show) => {
                self.state.show_line_numbers = show;
            },
            Instruction::Clear => {
                self.doc.clear();
                self.offset = Offset { x: 0, y: 0 };
                self.cursor = Pos::new(0, 0);
            },
            Instruction::SetExtension(ext) => {
                self.extension = ext;
            },
            Instruction::SetTheme(theme) => {
                self.theme = theme;
            },
            Instruction::LoadAudio(path) => {
                return (RenderAction::Render, Effect::LoadAudio(path));
            },
            Instruction::Popup(message) => {
                self.state.popup = message;
            },
            Instruction::ClosePopup => {
                self.state.popup = String::new();
            },
            Instruction::WriteBuffer(path) => {
                return (RenderAction::Render, Effect::WriteBuffer(path));
            },
            Instruction::ClearCommandBuffer => {
                self.state.command_buffer = Vec::new();
                self.state.show_cursor = true;
            },
            Instruction::CommandClearTimeout(d) => {
                self.command_clear_timeout = d;
            },
            Instruction::ClearCommandWait => {
                let d = self.command_clear_timeout;
                self.instructions.push_front(Instruction::Wait(d));
                assert(self.queue() =~= seq![Op::Wait(d)] + old(self).queue());
            },
            Instruction::SetVariable(name, value) => {
                self.state.ctx.push((name, value));
            },
        }
        (RenderAction::Render, Effect::Nothing)
    }
}

/// `x` moved by `d`, kept within `0..=usize::MAX`.
fn move_by(x: usize, d: i32) -> (r: usize)
    ensures
        r == moved(x, d),
{
    if d >= 0 {
        x.saturating_add(d as usize)
    } else {
        let back = (-(d as i64)) as usize;
        x.saturating_sub(back)
    }
}

/// `a + b - 1`, kept within `0..=usize::MAX`.
fn last_index(a: usize, b: usize) -> (r: usize)
    ensures
        r == last_of(a, b),
{
    if b == 0 {
        a.saturating_sub(1)
    } else if a <= usize::MAX - (b - 1) {
        a + (b - 1)
    } else {
        usize::MAX
    }
}


/// `a + b`, kept within `0..=usize::MAX`.
pub open spec fn sat_plus(a: usize, b: nat) -> usize {
    if a + b > usize::MAX {
        usize::MAX
    } else {
        (a + b) as usize
    }
}

impl Editor {
    /// One logical step: the next character of the command line, else the
    /// next character to type into the document, else the next instruction.
    pub fn apply(&mut self) -> (r: (RenderAction, Effect))
        ensures
            old(self).type_command_buffer@.len() > 0 ==> {
                &&& r.0 == RenderAction::Render
                &&& r.1 is Nothing
                &&& final(self).type_command_buffer@ == old(self).type_command_buffer@.drop_first()
                &&& final(self).state.command_buffer@ == old(self).state.command_buffer@.push(old(self).type_command_buffer@[0])
                &&& final(self).doc == old(self).doc
                &&& final(self).cursor == old(self).cursor
                &&& final(self).queue() == old(self).queue()
                &&& final(self).type_buffer@ == old(self).type_buffer@
            },
            old(self).type_command_buffer@.len() == 0 && old(self).type_buffer@.len() > 0 ==> {
                let ch = old(self).type_buffer@[0];
                let t = old(self).doc.chars();
                let c = old(self).cursor;
                &&& r.1 matches Effect::Play(x) && x == ch
                &&& final(self).type_buffer@ == old(self).type_buffer@.drop_first()
                &&& final(self).type_command_buffer@ == old(self).type_command_buffer@
                &&& final(self).doc.chars() == inserted(t, offset_of(t, c.x as nat, c.y as nat), seq![ch])
                &&& final(self).doc.marks() == crate::document::shift_all(
                    old(self).doc.marks(),
                    c.y,
                    if ch == '\n' {
                        1usize
                    } else {
                        0usize
                    },
                )
                &&& final(self).queue() == old(self).queue()
                &&& old(self).doc.rows_valid() ==> final(self).doc.rows_valid()
                &&& ch == '\n' ==> final(self).cursor == (Pos { x: 0, y: sat_plus(c.y, 1) })
                &&& ch == '\n' && old(self).line_pause > 0 ==> r.0 == RenderAction::NextFrame
                    && final(self).frame_timer.wait == old(self).line_pause
                &&& ch == '\n' && old(self).line_pause == 0 ==> r.0 == RenderAction::Render
                &&& ch != '\n' ==> final(self).cursor == (Pos { x: sat_plus(c.x, cw(ch)), y: c.y })
                    && r.0 == RenderAction::Render
            },
            old(self).type_command_buffer@.len() == 0 && old(self).type_buffer@.len() == 0
                && old(self).queue().len() == 0 ==> {
                &&& r.0 == RenderAction::Skip
                &&& r.1 is Nothing
                &&& final(self).doc == old(self).doc
                &&& final(self).cursor == old(self).cursor
            },
            old(self).type_command_buffer@.len() == 0 && old(self).type_buffer@.len() == 0
                && old(self).queue().len() > 0 ==> executes(
                *old(self),
                old(self).queue().drop_first(),
                *final(self),
                old(self).queue()[0],
                r,
            ),
    {
        if let Some(ch) = self.type_command_buffer.pop_front() {
            self.state.command_buffer.push(ch);
            return (RenderAction::Render, Effect::Nothing);
        }
        if let Some(ch) = self.type_buffer.pop_front() {
            let unit = string_of(&vec![ch]);
            proof {
                assert(unit@ =~= seq![ch]);
                assert(crate::text::newlines(seq![ch]) == crate::text::newlines(Seq::<char>::empty()) + if ch == '\n' {
                    1nat
                } else {
                    0nat
                }) by {
                    assert(seq![ch].drop_last() =~= Seq::<char>::empty());
                }
            }
            self.doc.insert_str(self.cursor, unit.as_str());
            if ch == '\n' {
                self.cursor = Pos::new(0, self.cursor.y.saturating_add(1));
                if self.line_pause > 0 {
                    self.frame_timer.wait(self.line_pause);
                    return (RenderAction::NextFrame, Effect::Play(ch));
                }
            } else {
                self.cursor.x = self.cursor.x.saturating_add(char_width(ch));
            }
            return (RenderAction::Render, Effect::Play(ch));
        }
        let ghost before = *self;
        match self.instructions.pop_front() {
            None => (RenderAction::Skip, Effect::Nothing),
            Some(ins) => {
                proof {
                    assert(self.queue() =~= old(self).queue().drop_first());
                }
                self.run(ins)
            },
        }
    }
}


impl Editor {
    /// Decides whether the document may be written to `path`, given whether
    /// a file exists there. An existing file is never overwritten: the
    /// editor shows the conflict and drops the instructions still to run.
    pub fn may_write(&mut self, path: &str, exists: bool) -> (r: bool)
        ensures
            r == !exists,
            exists ==> final(self).state.error@ == file_exists_message(path@) && final(self).queue().len() == 0,
            !exists ==> *final(self) == *old(self),
            final(self).doc == old(self).doc,
            final(self).cursor == old(self).cursor,
    {
        if exists {
            let msg = joined("can't write to \"", path, "\", file already exists");
            proof {
                reveal_strlit("can't write to \"");
                reveal_strlit("\", file already exists");
                assert(msg@ =~= file_exists_message(path@));
            }
            self.fail(msg);
            false
        } else {
            true
        }
    }
}

/// A selection of zero size changes neither the document nor the cursor:
/// it makes an empty selection.
pub proof fn lemma_zero_select_is_no_op(pre: Editor, rest: Seq<Op>, post: Editor, r: (RenderAction, Effect), size: Size)
    requires
        size.width == 0 && size.height == 0,
        executes(pre, rest, post, Op::Select(size), r),
    ensures
        post.doc.chars() == pre.doc.chars(),
        post.doc.marks() == pre.doc.marks(),
        post.cursor == pre.cursor,
        post.selected_range == Some(Region { from: pre.cursor, size }),
        post.queue() == rest,
        r.0 == RenderAction::Render,
{
}

/// A selection of zero size followed by a delete keeps the document as it
/// was, the character under the cursor included, and leaves the cursor
/// where it stood.
pub proof fn lemma_zero_select_then_delete_keeps_text(
    pre: Editor,
    rest: Seq<Op>,
    mid: Editor,
    rest2: Seq<Op>,
    post: Editor,
    r1: (RenderAction, Effect),
    r2: (RenderAction, Effect),
    size: Size,
)
    requires
        size.width == 0 && size.height == 0,
        executes(pre, rest, mid, Op::Select(size), r1),
        executes(mid, rest2, post, Op::Delete, r2),
    ensures
        post.doc.chars() == pre.doc.chars(),
        post.cursor == pre.cursor,
        post.selected_range is None,
{
}

/// Rows kept free below the view's last line of text.
pub const PADDING: i128 = 7;

/// The offset that brings `cur` into `0..=limit` on screen with the least
/// scrolling: `off` itself where it already does.
pub open spec fn scrolled(off: i128, cur: usize, limit: i128) -> i128 {
    if cur + off > limit {
        (limit - cur) as i128
    } else if cur + off < 0 {
        (-cur) as i128
    } else {
        off
    }
}

/// The new offset along one axis.
fn scroll(off: i128, cur: usize, limit: i128) -> (r: i128)
    requires
        -0x1_0000 <= limit <= 0x1_0000,
    ensures
        r == scrolled(off, cur, limit),
{
    let c = cur as i128;
    if off > limit - c {
        limit - c
    } else if off < -c {
        -c
    } else {
        off
    }
}

impl Editor {
    /// Scrolls the view so that the cursor stays on a screen of `width`
    /// columns and `height` rows, and records where everything stands.
    pub fn update_cursor(&mut self, width: u16, height: u16)
        ensures
            final(self).offset == (Offset {
                x: scrolled(old(self).offset.x, old(self).cursor.x, (width - 1) as i128),
                y: scrolled(old(self).offset.y, old(self).cursor.y, (height - 1 - PADDING) as i128),
            }),
            final(self).state.screen_cursor_x == old(self).cursor.x + final(self).offset.x,
            final(self).state.screen_cursor_y == old(self).cursor.y + final(self).offset.y,
            width >= 1 ==> 0 <= final(self).state.screen_cursor_x <= width - 1,
            height >= 1 + PADDING ==> 0 <= final(self).state.screen_cursor_y <= height - 1 - PADDING,
            final(self).state.cursor_x == old(self).cursor.x,
            final(self).state.cursor_y == old(self).cursor.y,
            final(self).state.offset_x == final(self).offset.x,
            final(self).state.offset_y == final(self).offset.y,
            final(self).state.height == height,
            final(self).cursor == old(self).cursor,
            final(self).doc == old(self).doc,
            final(self).queue() == old(self).queue(),
    {
        let h = height as i128 - 1 - PADDING;
        let w = width as i128 - 1;
        self.offset.y = scroll(self.offset.y, self.cursor.y, h);
        self.offset.x = scroll(self.offset.x, self.cursor.x, w);
        self.state.screen_cursor_x = self.cursor.x as i128 + self.offset.x;
        self.state.screen_cursor_y = self.cursor.y as i128 + self.offset.y;
        self.state.cursor_x = self.cursor.x;
        self.state.cursor_y = self.cursor.y;
        self.state.offset_x = self.offset.x;
        self.state.offset_y = self.offset.y;
        self.state.height = height;
    }
}

} // verus!
