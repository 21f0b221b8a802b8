use vstd::prelude::*;

use crate::geometry::Size;
use crate::markers::Markers;

verus! {

/// A value of the render layer's variable table.
#[derive(Debug, Clone)]
pub enum Value {
    Bool(bool),
    Str(String),
    Int(i64),
}

/// What a value of the variable table holds.
pub enum ValueView {
    Bool(bool),
    Str(Seq<char>),
    Int(i64),
}

impl View for Value {
    type V = ValueView;

    open spec fn view(&self) -> ValueView {
        match self {
            Value::Bool(b) => ValueView::Bool(*b),
            Value::Str(s) => ValueView::Str(s@),
            Value::Int(i) => ValueView::Int(*i),
        }
    }
}

/// A resolved instruction of the editor. Durations are in microseconds.
#[derive(Debug)]
pub enum Instruction {
    Jump { col: i32, row: i32 },
    JumpToMarker(String),
    Select(Size),
    LoadTypeBuffer(String),
    LoadCommandBuffer(String),
    ClearCommandBuffer,
    ClearCommandWait,
    CommandClearTimeout(u64),
    Insert(String),
    Delete,
    Wait(u64),
    Speed(u64),
    LinePause(u64),
    FindInCurrentLine { needle: String, end_of_word: bool, count: usize },
    SetTitle(String),
    SetExtension(String),
    SetJitter(u64),
    SetTheme(String),
    ShowLineNumbers(bool),
    AddMarkers { row: usize, markers: Markers },
    LoadAudio(String),
    Popup(String),
    ClosePopup,
    Clear,
    WriteBuffer(String),
    SetVariable(String, Value),
}

/// What an instruction holds, with its strings as character sequences.
pub enum Op {
    Jump { col: i32, row: i32 },
    JumpToMarker(Seq<char>),
    Select(Size),
    LoadTypeBuffer(Seq<char>),
    LoadCommandBuffer(Seq<char>),
    ClearCommandBuffer,
    ClearCommandWait,
    CommandClearTimeout(u64),
    Insert(Seq<char>),
    Delete,
    Wait(u64),
    Speed(u64),
    LinePause(u64),
    FindInCurrentLine { needle: Seq<char>, end_of_word: bool, count: usize },
    SetTitle(Seq<char>),
    SetExtension(Seq<char>),
    SetJitter(u64),
    SetTheme(Seq<char>),
    ShowLineNumbers(bool),
    AddMarkers { row: usize, markers: Seq<(Seq<char>, usize)> },
    LoadAudio(Seq<char>),
    Popup(Seq<char>),
    ClosePopup,
    Clear,
    WriteBuffer(Seq<char>),
    SetVariable(Seq<char>, ValueView),
}

impl View for Instruction {
    type V = Op;

    open spec fn view(&self) -> Op {
        match self {
            Instruction::Jump { col, row } => Op::Jump { col: *col, row: *row },
            Instruction::JumpToMarker(s) => Op::JumpToMarker(s@),
            Instruction::Select(size) => Op::Select(*size),
            Instruction::LoadTypeBuffer(s) => Op::LoadTypeBuffer(s@),
            Instruction::LoadCommandBuffer(s) => Op::LoadCommandBuffer(s@),
            Instruction::ClearCommandBuffer => Op::ClearCommandBuffer,
            Instruction::ClearCommandWait => Op::ClearCommandWait,
            Instruction::CommandClearTimeout(d) => Op::CommandClearTimeout(*d),
            Instruction::Insert(s) => Op::Insert(s@),
            Instruction::Delete => Op::Delete,
            Instruction::Wait(d) => Op::Wait(*d),
            Instruction::Speed(d) => Op::Speed(*d),
            Instruction::LinePause(d) => Op::LinePause(*d),
            Instruction::FindInCurrentLine { needle, end_of_word, count } => Op::FindInCurrentLine {
                needle: needle@,
                end_of_word: *end_of_word,
                count: *count,
            },
            Instruction::SetTitle(s) => Op::SetTitle(s@),
            Instruction::SetExtension(s) => Op::SetExtension(s@),
            Instruction::SetJitter(j) => Op::SetJitter(*j),
            Instruction::SetTheme(s) => Op::SetTheme(s@),
            Instruction::ShowLineNumbers(b) => Op::ShowLineNumbers(*b),
            Instruction::AddMarkers { row, markers } => Op::AddMarkers { row: *row, markers: markers@ },
            Instruction::LoadAudio(s) => Op::LoadAudio(s@),
            Instruction::Popup(s) => Op::Popup(s@),
            Instruction::ClosePopup => Op::ClosePopup,
            Instruction::Clear => Op::Clear,
            Instruction::WriteBuffer(s) => Op::WriteBuffer(s@),
            Instruction::SetVariable(n, v) => Op::SetVariable(n@, v@),
        }
    }
}

/// The views of a sequence of instructions.
pub open spec fn ops_of(v: Seq<Instruction>) -> Seq<Op> {
    v.map_values(|i: Instruction| i@)
}

} // verus!
