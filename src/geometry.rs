use vstd::prelude::*;

verus! {

/// A position in the document: a display column and a row, both from zero.
#[derive(Debug, Clone, Copy, PartialEq, Eq, Structural)]
pub struct Pos {
    pub x: usize,
    pub y: usize,
}

impl Pos {
    pub fn new(x: usize, y: usize) -> (r: Pos)
        ensures
            r == (Pos { x, y }),
    {
        Pos { x, y }
    }
}

/// A width and a height in display columns and rows.
#[derive(Debug, Clone, Copy, PartialEq, Eq, Structural)]
pub struct Size {
    pub width: usize,
    pub height: usize,
}

impl Size {
    pub fn new(width: usize, height: usize) -> (r: Size)
        ensures
            r == (Size { width, height }),
    {
        Size { width, height }
    }

    pub fn is_zero(&self) -> (r: bool)
        ensures
            r == (self.width == 0 && self.height == 0),
    {
        self.width == 0 && self.height == 0
    }
}

/// A rectangle: its top left corner and its size.
#[derive(Debug, Clone, Copy, PartialEq, Eq, Structural)]
pub struct Region {
    pub from: Pos,
    pub size: Size,
}

impl Region {
    pub fn new(from: Pos, size: Size) -> (r: Region)
        ensures
            r == (Region { from, size }),
    {
        Region { from, size }
    }
}

} // verus!
