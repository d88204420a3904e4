//! Where a centred dialog goes on the screen, as `ratatui` lays it out.
use vstd::prelude::*;

verus! {

/// An area of the screen: column, row, width, height.
pub type Area = (u16, u16, u16, u16);

/// The middle one of the three rows that `ratatui::layout::Layout::vertical`
/// with `[Percentage(edge), Percentage(middle), Percentage(edge)]` splits
/// `area` into.
pub uninterp spec fn rows_middle(area: Area, edge: u16, middle: u16) -> Area;

/// The middle one of the three columns that
/// `ratatui::layout::Layout::horizontal` with `[Percentage(edge),
/// Percentage(middle), Percentage(edge)]` splits `area` into.
pub uninterp spec fn columns_middle(area: Area, edge: u16, middle: u16) -> Area;

/// `ratatui::layout::Layout::split` of a vertical layout of three
/// percentages, edge, middle, edge: the middle row. The layout solver's
/// result depends on the area and the constraints alone.
#[verifier::external_body]
fn split_rows_middle(area: Area, edge: u16, middle: u16) -> (r: Area)
    ensures
        r == rows_middle(area, edge, middle),
{
    let cs = [
        ratatui::layout::Constraint::Percentage(edge),
        ratatui::layout::Constraint::Percentage(middle),
        ratatui::layout::Constraint::Percentage(edge),
    ];
    let r = ratatui::layout::Layout::vertical(cs).split(ratatui::layout::Rect::new(area.0, area.1, area.2, area.3))[1];
    (r.x, r.y, r.width, r.height)
}

/// `ratatui::layout::Layout::split` of a horizontal layout of three
/// percentages, edge, middle, edge: the middle column. The layout solver's
/// result depends on the area and the constraints alone.
#[verifier::external_body]
fn split_columns_middle(area: Area, edge: u16, middle: u16) -> (r: Area)
    ensures
        r == columns_middle(area, edge, middle),
{
    let cs = [
        ratatui::layout::Constraint::Percentage(edge),
        ratatui::layout::Constraint::Percentage(middle),
        ratatui::layout::Constraint::Percentage(edge),
    ];
    let r = ratatui::layout::Layout::horizontal(cs).split(ratatui::layout::Rect::new(area.0, area.1, area.2, area.3))[1];
    (r.x, r.y, r.width, r.height)
}

/// The area of a dialog centred in `area`, taking `percent_x` of its width
/// and `percent_y` of its height: the middle row of the split with
/// `(100 - percent_y) / 2` above and below, then the middle column of that
/// row with `(100 - percent_x) / 2` on either side.
pub open spec fn centered_area(percent_x: u16, percent_y: u16, area: Area) -> Area {
    let row = rows_middle(area, ((100 - percent_y) / 2) as u16, percent_y);
    columns_middle(row, ((100 - percent_x) / 2) as u16, percent_x)
}

/// A dialog's area, centred in `area` (percentages of 0 to 100).
pub fn centered(percent_x: u16, percent_y: u16, area: Area) -> (r: Area)
    requires
        percent_x <= 100,
        percent_y <= 100,
    ensures
        r == centered_area(percent_x, percent_y, area),
{
    let pv = (100 - percent_y) / 2;
    let ph = (100 - percent_x) / 2;
    let row = split_rows_middle(area, pv, percent_y);
    split_columns_middle(row, ph, percent_x)
}

} // verus!
