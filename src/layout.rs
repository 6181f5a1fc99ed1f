//! Where on the screen the panel's lines go: a block as tall as the lines and as
//! wide as the longest, centred both ways in the available area.
use crate::snapshot::widest;
use ratatui::layout::{Constraint, Direction, Flex, Layout, Rect};
use vstd::prelude::*;

verus! {

/// A rectangle of terminal cells.
#[derive(Clone, Copy, Debug, PartialEq, Eq, Structural)]
pub struct Area {
    pub x: u16,
    pub y: u16,
    pub width: u16,
    pub height: u16,
}

/// The direction in which an area is split.
#[derive(Clone, Copy, Debug, PartialEq, Eq, Structural)]
pub enum Axis {
    Rows,
    Columns,
}

/// The middle band that ratatui's layout solver gives for the constraints
/// `[Fill(1), Length(len), Fill(1)]` with centred flex along `axis`.
pub uninterp spec fn middle_band(area: Area, axis: Axis, len: u16) -> Area;

/// Relies on ratatui's `Layout::split`: the part it gives for the middle of three
/// constraints, which depends on the area, the direction and the length alone.
#[verifier::external_body]
fn split_middle(area: Area, axis: Axis, len: u16) -> (r: Area)
    ensures
        r == middle_band(area, axis, len),
{
    let direction = match axis {
        Axis::Rows => Direction::Vertical,
        Axis::Columns => Direction::Horizontal,
    };
    let parts = Layout::default().direction(direction).constraints(
        [Constraint::Fill(1), Constraint::Length(len), Constraint::Fill(1)],
    ).flex(Flex::Center).split(Rect::new(area.x, area.y, area.width, area.height));
    Area { x: parts[1].x, y: parts[1].y, width: parts[1].width, height: parts[1].height }
}

/// The area of the lines' block: a band as tall as the lines, centred in `area`,
/// then within it a band as wide as the longest line, centred again. Counts
/// beyond `u16` wrap, as a cast to `u16` does.
pub fn panel_area(area: Area, lines: &Vec<String>) -> (r: Area)
    ensures
        r == middle_band(
            middle_band(area, Axis::Rows, lines@.len() as u16),
            Axis::Columns,
            widest(lines@.map_values(|l: String| l@)) as u16,
        ),
{
    let height = lines.len() as u16;
    let width = crate::snapshot::panel_width(lines) as u16;
    let rows = split_middle(area, Axis::Rows, height);
    split_middle(rows, Axis::Columns, width)
}

} // verus!
