use vstd::prelude::*;

verus! {

/// Which pane has the keyboard.
#[derive(Copy, Clone, Debug, PartialEq, Eq, Hash, Structural)]
pub enum Mode {
    Gdb,
    Code,
}

/// The window a selection belongs to.
#[derive(Copy, Clone, Debug, PartialEq, Eq, Hash, Structural)]
pub enum SelectionRangeType {
    SrcWindow,
    GdbtTTYWindeow,
}

/// A selected stretch of one line.
#[derive(Copy, Clone, Debug, PartialEq, Eq, Structural)]
pub struct SelectionRange {
    pub line_number: usize,
    pub start_column: usize,
    pub end_column: usize,
}

/// A mouse selection between two screen positions `(column, row)`.
#[derive(Copy, Clone, Debug, PartialEq, Eq)]
pub struct MouseSelect {
    pub start: (u16, u16),
    pub end: (u16, u16),
}

pub open spec fn pos_less(a: (u16, u16), b: (u16, u16)) -> bool {
    a.0 < b.0 || (a.0 == b.0 && a.1 < b.1)
}

impl MouseSelect {
    /// The same selection with its ends in order: `start` before `end`.
    pub fn legalization(&self) -> (r: MouseSelect)
        ensures
            pos_less(self.start, self.end) ==> r == *self,
            !pos_less(self.start, self.end) ==> r.start == self.end && r.end == self.start,
    {
        let less = self.start.0 < self.end.0 || (self.start.0 == self.end.0 && self.start.1
            < self.end.1);
        if less {
            MouseSelect { start: self.start, end: self.end }
        } else {
            MouseSelect { start: self.end, end: self.start }
        }
    }
}

/// The selection being made and the selected ranges of each window.
pub struct MouseSelectComponent {
    pub select_range_now: Option<MouseSelect>,
    pub select_ranges: Vec<(SelectionRangeType, Vec<SelectionRange>)>,
}

impl MouseSelectComponent {
    pub fn new() -> (r: Self)
        ensures
            r.select_range_now is None,
            r.select_ranges@.len() == 0,
    {
        MouseSelectComponent { select_range_now: None, select_ranges: Vec::new() }
    }
}

/// Whether the start page is still shown.
pub struct StartPage {
    pub is_start: bool,
    pub is_horizontal: bool,
}

impl StartPage {
    pub fn new() -> (r: Self)
        ensures
            r.is_start,
            !r.is_horizontal,
    {
        StartPage { is_start: true, is_horizontal: false }
    }

    pub fn is_start(&self) -> (r: bool)
        ensures
            r == self.is_start,
    {
        self.is_start
    }

    pub fn set_is_start(&mut self, val: bool)
        ensures
            final(self).is_start == val,
            final(self).is_horizontal == old(self).is_horizontal,
    {
        self.is_start = val;
    }
}

} // verus!
