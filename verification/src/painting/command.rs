//! Paint commands.

use crate::painting::color::Color;
use crate::painting::primitive::{RRect, Rect};
use vstd::prelude::*;

verus! {

/// One command of a display list.
#[derive(Debug, Clone, Copy, PartialEq, Eq, Structural)]
pub enum DisplayCommand {
    FillRect(Rect, Color),
    FillRRect(RRect, Color),
    StrokeRect(Rect, Color),
}

impl DisplayCommand {
    /// The colour that the command paints with.
    pub open spec fn spec_color(self) -> Color {
        match self {
            DisplayCommand::FillRect(_, c) => c,
            DisplayCommand::FillRRect(_, c) => c,
            DisplayCommand::StrokeRect(_, c) => c,
        }
    }

    /// The rectangle that bounds what the command paints.
    pub open spec fn spec_bounds(self) -> Rect {
        match self {
            DisplayCommand::FillRect(r, _) => r,
            DisplayCommand::FillRRect(r, _) => r.rect,
            DisplayCommand::StrokeRect(r, _) => r,
        }
    }

    /// The colour that the command paints with.
    pub fn color(&self) -> (c: Color)
        ensures
            c == self.spec_color(),
    {
        match self {
            DisplayCommand::FillRect(_, c) => *c,
            DisplayCommand::FillRRect(_, c) => *c,
            DisplayCommand::StrokeRect(_, c) => *c,
        }
    }

    /// The rectangle that bounds what the command paints.
    pub fn bounds(&self) -> (r: Rect)
        ensures
            r == self.spec_bounds(),
    {
        match self {
            DisplayCommand::FillRect(r, _) => *r,
            DisplayCommand::FillRRect(r, _) => r.rect,
            DisplayCommand::StrokeRect(r, _) => *r,
        }
    }
}

} // verus!
