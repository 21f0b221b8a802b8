use vstd::prelude::*;

use crate::instructions::ValueView;

verus! {

/// A string argument: written out, or the name of a bound variable.
#[derive(Debug, Clone)]
pub enum Source {
    Str(String),
    Ident(String),
}

/// Where a `Goto` moves the cursor.
#[derive(Debug, Clone)]
pub enum Dest {
    Relative { row: i32, col: i32 },
    Marker(String),
}

/// A value bound for the render layer.
#[derive(Debug, Clone)]
pub enum Variable {
    Bool(bool),
    Str(String),
    Int(i64),
}

/// A directive of a script, as written.
#[derive(Debug, Clone)]
pub enum Instruction {
    Load(String, String),
    Find { needle: String, count: usize },
    FindEnd { needle: String, count: usize },
    Goto(Dest),
    Select { width: usize, height: usize },
    Delete,
    Type { source: Source, trim_trailing_newline: bool, prefix_newline: bool },
    Command(Source),
    Insert(Source),
    Replace { src: String, replacement: Source },
    Wait(u64),
    Speed(u64),
    LinePause(u64),
    SetTitle(String),
    SetExtension(String),
    ShowLineNumbers(bool),
    Jitter(u64),
    SetTheme(String),
    LoadAudio(String),
    Clear,
    Popup(Source),
    ClosePopup,
    WriteBuffer(String),
    CommandClearTimeout(u64),
    Assign(String, Variable),
}


/// What a source argument holds.
pub enum SourceView {
    Str(Seq<char>),
    Ident(Seq<char>),
}

impl View for Source {
    type V = SourceView;

    open spec fn view(&self) -> SourceView {
        match self {
            Source::Str(s) => SourceView::Str(s@),
            Source::Ident(s) => SourceView::Ident(s@),
        }
    }
}

impl View for Variable {
    type V = ValueView;

    open spec fn view(&self) -> ValueView {
        match self {
            Variable::Bool(b) => ValueView::Bool(*b),
            Variable::Str(s) => ValueView::Str(s@),
            Variable::Int(i) => ValueView::Int(*i),
        }
    }
}

/// What a directive holds, with its strings as character sequences.
pub enum Directive {
    Load(Seq<char>, Seq<char>),
    Find { needle: Seq<char>, count: usize },
    FindEnd { needle: Seq<char>, count: usize },
    GotoRelative { row: i32, col: i32 },
    GotoMarker(Seq<char>),
    Select { width: usize, height: usize },
    Delete,
    Type { source: SourceView, trim_trailing_newline: bool, prefix_newline: bool },
    Command(SourceView),
    Insert(SourceView),
    Replace { src: Seq<char>, replacement: SourceView },
    Wait(u64),
    Speed(u64),
    LinePause(u64),
    SetTitle(Seq<char>),
    SetExtension(Seq<char>),
    ShowLineNumbers(bool),
    Jitter(u64),
    SetTheme(Seq<char>),
    LoadAudio(Seq<char>),
    Clear,
    Popup(SourceView),
    ClosePopup,
    WriteBuffer(Seq<char>),
    CommandClearTimeout(u64),
    Assign(Seq<char>, ValueView),
}

impl View for Instruction {
    type V = Directive;

    open spec fn view(&self) -> Directive {
        match self {
            Instruction::Load(p, k) => Directive::Load(p@, k@),
            Instruction::Find { needle, count } => Directive::Find { needle: needle@, count: *count },
            Instruction::FindEnd { needle, count } => Directive::FindEnd { needle: needle@, count: *count },
            Instruction::Goto(Dest::Relative { row, col }) => Directive::GotoRelative { row: *row, col: *col },
            Instruction::Goto(Dest::Marker(m)) => Directive::GotoMarker(m@),
            Instruction::Select { width, height } => Directive::Select { width: *width, height: *height },
            Instruction::Delete => Directive::Delete,
            Instruction::Type { source, trim_trailing_newline, prefix_newline } => Directive::Type {
                source: source@,
                trim_trailing_newline: *trim_trailing_newline,
                prefix_newline: *prefix_newline,
            },
            Instruction::Command(s) => Directive::Command(s@),
            Instruction::Insert(s) => Directive::Insert(s@),
            Instruction::Replace { src, replacement } => Directive::Replace {
                src: src@,
                replacement: replacement@,
            },
            Instruction::Wait(n) => Directive::Wait(*n),
            Instruction::Speed(n) => Directive::Speed(*n),
            Instruction::LinePause(n) => Directive::LinePause(*n),
            Instruction::SetTitle(s) => Directive::SetTitle(s@),
            Instruction::SetExtension(s) => Directive::SetExtension(s@),
            Instruction::ShowLineNumbers(b) => Directive::ShowLineNumbers(*b),
            Instruction::Jitter(n) => Directive::Jitter(*n),
            Instruction::SetTheme(s) => Directive::SetTheme(s@),
            Instruction::LoadAudio(s) => Directive::LoadAudio(s@),
            Instruction::Clear => Directive::Clear,
            Instruction::Popup(s) => Directive::Popup(s@),
            Instruction::ClosePopup => Directive::ClosePopup,
            Instruction::WriteBuffer(s) => Directive::WriteBuffer(s@),
            Instruction::CommandClearTimeout(n) => Directive::CommandClearTimeout(*n),
            Instruction::Assign(n, v) => Directive::Assign(n@, v@),
        }
    }
}

} // verus!
