//! Where things stand on the screen.

use crate::palette::{InputMode, PaletteState, PaletteView};
use crate::shell::ShellPanelView;
use ratatui::layout::{Constraint, Direction, Layout, Rect};
use vstd::prelude::*;

verus! {

/// A rectangle of screen cells.
#[derive(Debug, Clone, Copy, PartialEq, Eq, Structural)]
pub struct Area {
    pub x: u16,
    pub y: u16,
    pub width: u16,
    pub height: u16,
}

/// Which way an area is split.
#[derive(Debug, Clone, Copy, PartialEq, Eq, Structural)]
pub enum Axis {
    /// Into rows, one above the other.
    Vertical,
    /// Into columns, side by side.
    Horizontal,
}

/// How much a part of an area asks for.
#[derive(Debug, Clone, Copy, PartialEq, Eq, Structural)]
pub enum Part {
    /// So many cells.
    Length(u16),
    /// At least so many cells, and what is left over.
    Min(u16),
    /// So many hundredths.
    Percentage(u16),
}

/// An area's extent along an axis.
pub struct Extent {
    pub start: int,
    pub size: int,
}

impl Area {
    /// The column after the last one.
    pub open spec fn right(self) -> int {
        self.x + self.width
    }

    /// The row after the last one.
    pub open spec fn bottom(self) -> int {
        self.y + self.height
    }

    /// Whether the area ends within the range of coordinates.
    pub open spec fn on_grid(self) -> bool {
        self.right() <= u16::MAX && self.bottom() <= u16::MAX
    }

    /// Whether the area lies in `other`.
    pub open spec fn within(self, other: Area) -> bool {
        other.x <= self.x && other.y <= self.y && self.right() <= other.right() && self.bottom()
            <= other.bottom()
    }

    /// The extent along an axis.
    pub open spec fn along(self, axis: Axis) -> Extent {
        match axis {
            Axis::Vertical => Extent { start: self.y as int, size: self.height as int },
            Axis::Horizontal => Extent { start: self.x as int, size: self.width as int },
        }
    }

    /// The extent across an axis.
    pub open spec fn across(self, axis: Axis) -> Extent {
        match axis {
            Axis::Vertical => self.along(Axis::Horizontal),
            Axis::Horizontal => self.along(Axis::Vertical),
        }
    }

    /// The area without a margin on each side; nothing, in the corner of the
    /// screen, where there is no room for the margin.
    pub open spec fn inner(self, margin: u16) -> Area {
        if self.width < 2 * margin || self.height < 2 * margin {
            Area { x: 0, y: 0, width: 0, height: 0 }
        } else {
            Area {
                x: (self.x + margin) as u16,
                y: (self.y + margin) as u16,
                width: (self.width - 2 * margin) as u16,
                height: (self.height - 2 * margin) as u16,
            }
        }
    }
}

/// Where `hundredths` of a size end, rounded to the nearest cell.
pub open spec fn share(size: int, hundredths: int) -> int {
    (size * hundredths + 50) / 100
}

/// The three extents that a length, another length and the rest have in one.
pub open spec fn after_lengths(whole: Extent, a: int, b: int) -> (Extent, Extent, Extent) {
    (
        Extent { start: whole.start, size: a },
        Extent { start: whole.start + a, size: b },
        Extent { start: whole.start + a + b, size: whole.size - a - b },
    )
}

/// The three extents that a length, the rest and another length have in one.
pub open spec fn around_rest(whole: Extent, a: int, b: int) -> (Extent, Extent, Extent) {
    (
        Extent { start: whole.start, size: a },
        Extent { start: whole.start + a, size: whole.size - a - b },
        Extent { start: whole.start + whole.size - b, size: b },
    )
}

/// The three extents that so many hundredths each have in one.
pub open spec fn shares(whole: Extent, a: int, b: int, c: int) -> (Extent, Extent, Extent) {
    (
        Extent { start: whole.start, size: share(whole.size, a) },
        Extent {
            start: whole.start + share(whole.size, a),
            size: share(whole.size, a + b) - share(whole.size, a),
        },
        Extent {
            start: whole.start + share(whole.size, a + b),
            size: share(whole.size, a + b + c) - share(whole.size, a + b),
        },
    )
}

/// The extents of three areas along an axis.
pub open spec fn extents(areas: (Area, Area, Area), axis: Axis) -> (Extent, Extent, Extent) {
    (areas.0.along(axis), areas.1.along(axis), areas.2.along(axis))
}

/// The extents of three parts in one, where there is room for all of them: two
/// lengths and a minimum, which gets the rest, or percentages of no more than a
/// hundred.
pub open spec fn shared_out(whole: Extent, parts: (Part, Part, Part)) -> Option<
    (Extent, Extent, Extent),
> {
    match parts {
        (Part::Length(a), Part::Length(b), Part::Min(c)) => if a + b + c <= whole.size {
            Some(after_lengths(whole, a as int, b as int))
        } else {
            None
        },
        (Part::Length(a), Part::Min(c), Part::Length(b)) => if a + b + c <= whole.size {
            Some(around_rest(whole, a as int, b as int))
        } else {
            None
        },
        (Part::Percentage(a), Part::Percentage(b), Part::Percentage(c)) => if a + b + c <= 100 {
            Some(shares(whole, a as int, b as int, c as int))
        } else {
            None
        },
        _ => None,
    }
}

/// `ratatui::layout::Layout::split`, with a direction, a margin and three
/// constraints. The areas it returns do not leave the area without the margin,
/// and are as wide as it across the direction. Two lengths and a minimum get
/// the lengths they ask for, and the minimum the rest, where there is room for
/// all three; percentages of no more than a hundred get theirs, each edge
/// rounded to the nearest cell. Unsaid is how the areas share a room that is
/// too small for what they ask, which a constraint solver decides, and what
/// they get of other combinations.
#[verifier::external_body]
fn split(area: Area, axis: Axis, margin: u16, parts: (Part, Part, Part)) -> (r: (Area, Area, Area))
    requires
        area.on_grid(),
        margin <= 32767,
    ensures
        r.0.within(area.inner(margin)),
        r.1.within(area.inner(margin)),
        r.2.within(area.inner(margin)),
        r.0.across(axis) == area.inner(margin).across(axis),
        r.1.across(axis) == area.inner(margin).across(axis),
        r.2.across(axis) == area.inner(margin).across(axis),
        shared_out(area.inner(margin).along(axis), parts) is Some ==> extents(r, axis)
            == shared_out(area.inner(margin).along(axis), parts)->0,
{
    let direction = match axis {
        Axis::Vertical => Direction::Vertical,
        Axis::Horizontal => Direction::Horizontal,
    };
    let constraint = |part| match part {
        Part::Length(n) => Constraint::Length(n),
        Part::Min(n) => Constraint::Min(n),
        Part::Percentage(n) => Constraint::Percentage(n),
    };
    let rects = Layout::new(direction, [parts.0, parts.1, parts.2].map(constraint))
        .margin(margin)
        .split(Rect::new(area.x, area.y, area.width, area.height));
    let area = |r: Rect| Area { x: r.x, y: r.y, width: r.width, height: r.height };
    (area(rects[0]), area(rects[1]), area(rects[2]))
}

/// The area of `height` rows and `width_pct` hundredths of the columns in the
/// middle of another.
pub open spec fn centered(area: Area, width_pct: u16, height: u16) -> Area {
    let rows = if height < area.height {
        height
    } else {
        area.height
    };
    let side = (100 - width_pct) / 2;
    let left = share(area.width as int, side);
    let right = share(area.width as int, side + width_pct);
    Area {
        x: (area.x + left) as u16,
        y: (area.y + (area.height - rows) / 2) as u16,
        width: (right - left) as u16,
        height: rows,
    }
}

/// The area of `height` rows and `width_pct` hundredths of the columns in the
/// middle of another.
pub fn centered_rect(area: Area, width_pct: u16, height: u16) -> (r: Area)
    requires
        area.on_grid(),
        width_pct <= 100,
    ensures
        r == centered(area, width_pct, height),
        r.within(area),
{
    let rows: u16 = if height < area.height {
        height
    } else {
        area.height
    };
    let top: u16 = (area.height - rows) / 2;
    let parts = (Part::Length(top), Part::Length(rows), Part::Min(0));
    let (_above, middle, _below) = split(area, Axis::Vertical, 0, parts);
    assert(area.inner(0) == area);
    assert(middle.along(Axis::Vertical).start == area.y + top);
    let side: u16 = (100 - width_pct) / 2;
    let parts = (Part::Percentage(side), Part::Percentage(width_pct), Part::Percentage(side));
    let (_before, r, _after) = split(middle, Axis::Horizontal, 0, parts);
    assert(middle.inner(0) == middle);
    assert(middle.across(Axis::Vertical).start == area.x);
    assert(middle.across(Axis::Vertical).size == area.width);
    assert(r.across(Axis::Horizontal).size == middle.height);
    assert(r.along(Axis::Horizontal).start == middle.x + share(area.width as int, side as int));
    r
}

/// `n`, but no less than `low` and no more than `high`.
pub open spec fn between(n: int, low: int, high: int) -> int {
    if n < low {
        low
    } else if n > high {
        high
    } else {
        n
    }
}

/// The height of the overlay over the list of rows: three fifths of the screen,
/// but at least twelve rows, with a row left free above and below.
pub open spec fn palette_height(height: u16) -> int {
    between(share(height as int, 60), 12, height - 2)
}

/// The height of the overlay over the shell panel: that of what it shows, but
/// at least seven rows and at most eighteen, or about half of the screen.
pub open spec fn shell_height(height: u16, panel: ShellPanelView) -> int {
    let most = between(share(height as int, 52), 7, 18);
    let free = height - 2;
    between(
        panel_rows(panel),
        7,
        if most < free {
            most
        } else {
            free
        },
    )
}

/// How many rows the shell panel asks for: its heading, its lines, counted in
/// sixteen bits, and four for the frame around them.
pub open spec fn panel_rows(panel: ShellPanelView) -> int {
    let heading: int = if panel.command is Some {
        2
    } else {
        1
    };
    heading + panel.lines.len() % 0x1_0000 + 4
}

/// Whether the screen has room for the overlay.
pub open spec fn has_room(area: Area, state: PaletteView) -> bool {
    &&& area.on_grid()
    &&& match state.input_mode {
        InputMode::Palette => area.height >= 14,
        InputMode::Shell => area.height >= 9 && panel_rows(state.shell) <= u16::MAX,
    }
}

/// The overlay: four fifths of the screen's columns for the list of rows, a
/// little less for the shell panel.
pub open spec fn overlay(area: Area, state: PaletteView) -> Area {
    match state.input_mode {
        InputMode::Palette => centered(area, 80, palette_height(area.height) as u16),
        InputMode::Shell => centered(area, 78, shell_height(area.height, state.shell) as u16),
    }
}

/// The height of the overlay over the list of rows.
pub fn palette_overlay_height(area: Area) -> (r: u16)
    requires
        area.height >= 14,
    ensures
        r == palette_height(area.height),
{
    let most: u16 = area.height - 2;
    let want: u32 = (area.height as u32 * 60 + 50) / 100;
    if want < 12 {
        12
    } else if want > most as u32 {
        most
    } else {
        want as u16
    }
}

/// The height of the overlay over the shell panel.
pub fn shell_overlay_height(area: Area, state: &PaletteState) -> (r: u16)
    requires
        area.height >= 9,
        panel_rows(state@.shell) <= u16::MAX,
    ensures
        r == shell_height(area.height, state@.shell),
{
    let heading: u16 = if state.shell.command.is_some() {
        2
    } else {
        1
    };
    assert(state@.shell.lines.len() == state.shell.lines@.len());
    let lines: u16 = (state.shell.lines.len() % 0x1_0000) as u16;
    let desired: u16 = heading + lines + 4;
    let half: u32 = (area.height as u32 * 52 + 50) / 100;
    let most: u16 = if half < 7 {
        7
    } else if half > 18 {
        18
    } else {
        half as u16
    };
    let free: u16 = area.height - 2;
    let high: u16 = if most < free {
        most
    } else {
        free
    };
    if desired < 7 {
        7
    } else if desired > high {
        high
    } else {
        desired
    }
}

/// The overlay: the part of the screen that the palette takes.
pub fn overlay_rect(area: Area, state: &PaletteState) -> (r: Area)
    requires
        has_room(area, state@),
    ensures
        r == overlay(area, state@),
        r.within(area),
{
    match state.input_mode {
        InputMode::Palette => centered_rect(area, 80, palette_overlay_height(area)),
        InputMode::Shell => centered_rect(area, 78, shell_overlay_height(area, state)),
    }
}

/// The overlay's prompt, body and footer: its first row, what is left, and its
/// last row, inside the frame.
pub open spec fn chunks(overlay: Area) -> (Area, Area, Area) {
    if overlay.width < 2 {
        let nothing = Area { x: 0, y: 0, width: 0, height: 0 };
        (nothing, nothing, nothing)
    } else {
        let x = (overlay.x + 1) as u16;
        let width = (overlay.width - 2) as u16;
        (
            Area { x, y: (overlay.y + 1) as u16, width, height: 1 },
            Area { x, y: (overlay.y + 2) as u16, width, height: (overlay.height - 4) as u16 },
            Area { x, y: (overlay.y + overlay.height - 2) as u16, width, height: 1 },
        )
    }
}

/// The overlay's prompt, body and footer.
pub fn overlay_chunks(overlay: Area) -> (r: (Area, Area, Area))
    requires
        overlay.on_grid(),
        overlay.height >= 5,
    ensures
        r == chunks(overlay),
{
    let parts = (Part::Length(1), Part::Min(1), Part::Length(1));
    let r = split(overlay, Axis::Vertical, 1, parts);
    assert(r.0.along(Axis::Vertical) == extents(r, Axis::Vertical).0);
    assert(r.1.along(Axis::Vertical) == extents(r, Axis::Vertical).1);
    assert(r.2.along(Axis::Vertical) == extents(r, Axis::Vertical).2);
    assert(overlay.width >= 2 ==> shared_out(overlay.inner(1).along(Axis::Vertical), parts) is Some);
    r
}

proof fn lemma_shares(size: int, a: int, b: int)
    requires
        0 <= size,
        0 <= a <= b <= 100,
    ensures
        0 <= share(size, a) <= share(size, b) <= size,
{
    assert(0 <= size * a <= size * b <= size * 100) by (nonlinear_arith)
        requires
            0 <= size,
            0 <= a <= b <= 100,
    ;
}

/// The overlay keeps to the screen, has at least seven rows, and holds its
/// prompt, its body and its footer, where it is wide enough for a frame.
pub proof fn law_overlay_holds_its_chunks(area: Area, state: PaletteView)
    requires
        has_room(area, state),
    ensures
        overlay(area, state).within(area),
        overlay(area, state).height >= 7,
        overlay(area, state).width >= 2 ==> {
            let whole = overlay(area, state);
            chunks(whole).0.within(whole) && chunks(whole).1.within(whole) && chunks(
                whole,
            ).2.within(whole)
        },
{
    lemma_shares(area.width as int, 10, 90);
    lemma_shares(area.width as int, 11, 89);
}

/// No more than a ninth of the widest screen lies left of the overlay.
pub proof fn lemma_overlay_starts_left(area: Area, state: PaletteView)
    requires
        has_room(area, state),
    ensures
        overlay(area, state).x - area.x <= u16::MAX / 9,
{
    lemma_shares(area.width as int, 10, 90);
    lemma_shares(area.width as int, 11, 89);
    assert(share(area.width as int, 10) <= 6554);
    assert(share(area.width as int, 11) <= 7209);
}

/// An area in the middle of another has the height that it asks for, as far as
/// there is room, and so many hundredths of the width, to within a cell. What
/// is left over above and below differs by one row at most, and what is left
/// over on the left is its share, to within half a cell.
pub proof fn law_centered_areas_are_in_the_middle(area: Area, width_pct: u16, height: u16)
    requires
        area.on_grid(),
        width_pct <= 100,
    ensures
        ({
            let r = centered(area, width_pct, height);
            let above = r.y - area.y;
            let under = area.bottom() - r.bottom();
            &&& r.within(area)
            &&& height <= area.height ==> r.height == height
            &&& height > area.height ==> r.height == area.height
            &&& above <= under <= above + 1
            &&& -100 <= 100 * r.width - width_pct * area.width <= 100
            &&& -50 <= 100 * (r.x - area.x) - ((100 - width_pct) / 2) * area.width <= 50
        }),
{
    let side = (100 - width_pct) / 2;
    let w = area.width as int;
    lemma_shares(w, side, side + width_pct);
    let left = share(w, side);
    let right = share(w, side + width_pct);
    assert(w * (side + width_pct) == w * side + w * width_pct) by (nonlinear_arith);
    assert(w * side == side * w && w * width_pct == width_pct * w) by (nonlinear_arith);
    assert(100 * left <= w * side + 50 < 100 * left + 100);
    assert(100 * right <= w * (side + width_pct) + 50 < 100 * right + 100);
}

/// The overlay over the rows has three fifths of the screen's rows, to the
/// nearest, but no fewer than twelve, and leaves a row free above and below.
pub proof fn law_palette_takes_three_fifths(height: u16)
    requires
        height >= 14,
    ensures
        12 <= palette_height(height) <= height - 2,
        12 < palette_height(height) < height - 2 ==> -50 <= 100 * palette_height(height) - 60
            * height <= 50,
        palette_height(height) == 12 ==> 60 * height < 1250,
        palette_height(height) == height - 2 ==> 60 * height + 50 >= 100 * (height - 2)
            || palette_height(height) == 12,
{
}

/// The overlay over the shell panel has room for its heading, its lines and the
/// frame around them, but no fewer than seven rows and no more than eighteen,
/// nor many more than half of the screen's.
pub proof fn law_shell_takes_what_it_needs(height: u16, panel: ShellPanelView)
    requires
        height >= 9,
    ensures
        7 <= shell_height(height, panel) <= 18,
        shell_height(height, panel) <= height - 2,
        7 < shell_height(height, panel) ==> 100 * shell_height(height, panel) <= 52 * height + 50,
        ({
            let need = panel.lines.len() + 4 + if panel.command is Some {
                2int
            } else {
                1
            };
            &&& panel.lines.len() < 0x1_0000 && need <= 7 ==> shell_height(height, panel) == 7
            &&& panel.lines.len() < 0x1_0000 && 7 < need <= 18 && 100 * need <= 52 * height + 50
                && need <= height - 2 ==> shell_height(height, panel) == need
            &&& panel.lines.len() < 0x1_0000 && need > 18 && height >= 35 ==> shell_height(
                height,
                panel,
            ) == 18
        }),
{
    if panel.lines.len() < 0x1_0000 {
        vstd::arithmetic::div_mod::lemma_small_mod(panel.lines.len(), 0x1_0000);
    }
}

/// The overlay has four fifths of the screen's columns over the rows, and
/// seventy-eight hundredths over the shell panel, and the height that goes with
/// what it shows.
pub proof fn law_overlay_has_its_share(area: Area, state: PaletteView)
    ensures
        state.input_mode == InputMode::Palette ==> overlay(area, state) == centered(
            area,
            80,
            palette_height(area.height) as u16,
        ),
        state.input_mode == InputMode::Shell ==> overlay(area, state) == centered(
            area,
            78,
            shell_height(area.height, state.shell) as u16,
        ),
{
}

/// Inside the frame the prompt has the first row, the footer the last, and the
/// body all rows between them; all three are as wide as the frame leaves.
pub proof fn law_parts_fill_the_frame(overlay: Area)
    requires
        overlay.on_grid(),
        overlay.width >= 2,
        overlay.height >= 5,
    ensures
        ({
            let (prompt, body, footer) = chunks(overlay);
            &&& prompt.y == overlay.y + 1 && prompt.height == 1
            &&& body.y == prompt.bottom() && body.bottom() == footer.y
            &&& footer.height == 1 && footer.bottom() == overlay.bottom() - 1
            &&& prompt.x == overlay.x + 1 && prompt.right() == overlay.right() - 1
            &&& body.x == prompt.x && body.width == prompt.width
            &&& footer.x == prompt.x && footer.width == prompt.width
        }),
{
}

/// A frame too narrow for anything inside it leaves the parts empty.
pub proof fn law_narrow_frames_hold_nothing(overlay: Area)
    requires
        overlay.width < 2,
    ensures
        chunks(overlay).0.width == 0 && chunks(overlay).0.height == 0,
        chunks(overlay).1.width == 0 && chunks(overlay).1.height == 0,
        chunks(overlay).2.width == 0 && chunks(overlay).2.height == 0,
{
}

} // verus!
