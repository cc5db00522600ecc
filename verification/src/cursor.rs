use vstd::prelude::*;

verus! {

/// The highlighted row of the table and the first row on screen.
#[derive(Clone, Copy, Debug, PartialEq, Eq, Structural)]
pub struct SelectionCursor {
    /// Index of the first row on screen.
    pub offset: usize,
    /// Index of the highlighted row, if there is one.
    pub selected: Option<usize>,
}

impl SelectionCursor {
    /// A cursor on nothing, at the top.
    pub fn new() -> (r: Self)
        ensures
            r == (SelectionCursor { offset: 0, selected: None }),
    {
        SelectionCursor { offset: 0, selected: None }
    }

    /// The cursor after `select(index)`.
    pub open spec fn spec_select(self, index: Option<usize>) -> SelectionCursor {
        SelectionCursor {
            offset: if index is None {
                0
            } else {
                self.offset
            },
            selected: index,
        }
    }

    /// Index of the highlighted row.
    pub fn selected(&self) -> (r: Option<usize>)
        ensures
            r == self.selected,
    {
        self.selected
    }

    /// Index of the first row on screen.
    pub fn offset(&self) -> (r: usize)
        ensures
            r == self.offset,
    {
        self.offset
    }

    /// Highlights a row, or none; with none the view goes back to the top.
    pub fn select(&mut self, index: Option<usize>)
        ensures
            *final(self) == old(self).spec_select(index),
    {
        self.selected = index;
        if index.is_none() {
            self.offset = 0;
        }
    }
}

/// The rectangle of the screen that the table occupies, border included.
#[derive(Clone, Copy, Debug, PartialEq, Eq, Structural)]
pub struct TableArea {
    pub x: u16,
    pub y: u16,
    pub width: u16,
    pub height: u16,
}

} // verus!
