//! Where things are on the screen.

use vstd::prelude::*;

verus! {

/// An area of the screen, in cells.
#[derive(Clone, Copy, Debug, PartialEq, Eq, Structural)]
pub struct Rect {
    pub x: u16,
    pub y: u16,
    pub width: u16,
    pub height: u16,
}

impl Rect {
    /// Whether an area lies on a screen: no edge of it is past the last cell
    /// that can be named.
    pub open spec fn fits(self) -> bool {
        self.x + self.width <= u16::MAX && self.y + self.height <= u16::MAX
    }

    /// Whether an area lies in another one.
    pub open spec fn within(self, outer: Rect) -> bool {
        &&& outer.x <= self.x
        &&& outer.y <= self.y
        &&& self.x + self.width <= outer.x + outer.width
        &&& self.y + self.height <= outer.y + outer.height
    }

    /// Whether there is no cell in an area.
    #[verifier::allow_in_spec]
    pub fn is_empty(self) -> bool
        returns
            self.width == 0 || self.height == 0,
    {
        self.width == 0 || self.height == 0
    }
}

/// The smaller of two numbers.
#[verifier::allow_in_spec]
pub fn min16(a: u16, b: u16) -> u16
    returns
        (if a <= b {
            a
        } else {
            b
        }),
{
    if a <= b {
        a
    } else {
        b
    }
}

/// The larger of two numbers.
#[verifier::allow_in_spec]
pub fn max16(a: u16, b: u16) -> u16
    returns
        (if a >= b {
            a
        } else {
            b
        }),
{
    if a >= b {
        a
    } else {
        b
    }
}

/// A number less another one, but not below zero.
#[verifier::allow_in_spec]
pub fn less16(a: u16, b: u16) -> u16
    returns
        (if a >= b {
            (a - b) as u16
        } else {
            0
        }),
{
    if a >= b {
        a - b
    } else {
        0
    }
}

/// The parts of the screen.
#[derive(Clone, Copy, Debug, PartialEq, Eq, Structural)]
pub struct ScreenLayout {
    pub status: Rect,
    pub files: Rect,
    pub diff: Rect,
    pub branches: Rect,
    pub commits: Rect,
    pub stash: Rect,
    pub footer: Rect,
}

/// The width of the left rail: three tenths of the screen, at most 44.
pub open spec fn rail_width(width: u16) -> int {
    let w = width / 10 * 3 + width % 10 * 3 / 10;
    if w <= 44 {
        w
    } else {
        44
    }
}

/// A panel of the rail at `y` that wants to be `want` high, as far as there is
/// room above `end`.
pub open spec fn rail_panel(area: Rect, y: int, want: int, end: int) -> Rect {
    Rect {
        x: area.x,
        y: y as u16,
        width: rail_width(area.width) as u16,
        height: (if y + want <= end {
            want
        } else {
            end - y
        }) as u16,
    }
}

/// The parts of an area of which the last `footer_h` rows are the footer: on
/// the left the rail of panels, the files with what the others leave; on the
/// right the diff.
pub open spec fn layout_of(area: Rect, footer_h: u16) -> ScreenLayout {
    let footer = min16(footer_h, area.height);
    let body = area.height - footer;
    let rail = rail_width(area.width);
    let end = area.y + body;
    let files_h = if body - 16 >= 3 {
        body - 16
    } else {
        3
    };
    let status = rail_panel(area, area.y as int, 3, end);
    let files = rail_panel(area, status.y + status.height, files_h, end);
    let branches = rail_panel(area, files.y + files.height, 5, end);
    let commits = rail_panel(area, branches.y + branches.height, 4, end);
    let stash = rail_panel(area, commits.y + commits.height, 4, end);
    ScreenLayout {
        status,
        files,
        branches,
        commits,
        stash,
        diff: Rect {
            x: (area.x + rail) as u16,
            y: area.y,
            width: (area.width - rail) as u16,
            height: body as u16,
        },
        footer: Rect { x: area.x, y: end as u16, width: area.width, height: footer },
    }
}

fn stack(area: Rect, rail_w: u16, y: u16, want: u16, end: u16) -> (rect: Rect)
    requires
        rail_w == rail_width(area.width),
        y <= end,
    ensures
        rect == rail_panel(area, y as int, want as int, end as int),
        y <= rect.y + rect.height <= end,
{
    let h = if want <= end - y {
        want
    } else {
        end - y
    };
    Rect { x: area.x, y, width: rail_w, height: h }
}

/// The parts of an area of which the last `footer_h` rows are the footer.
pub fn compute_layout(area: Rect, footer_h: u16) -> (layout: ScreenLayout)
    requires
        area.fits(),
    ensures
        layout == layout_of(area, footer_h),
{
    let footer = min16(footer_h, area.height);
    let body = area.height - footer;
    let rail = area.width / 10 * 3 + area.width % 10 * 3 / 10;
    let rail = if rail <= 44 {
        rail
    } else {
        44
    };
    let end = area.y + body;
    let files_h: u16 = if body >= 19 {
        body - 16
    } else {
        3
    };
    let status = stack(area, rail, area.y, 3, end);
    let files = stack(area, rail, status.y + status.height, files_h, end);
    let branches = stack(area, rail, files.y + files.height, 5, end);
    let commits = stack(area, rail, branches.y + branches.height, 4, end);
    let stash = stack(area, rail, commits.y + commits.height, 4, end);
    ScreenLayout {
        status,
        files,
        branches,
        commits,
        stash,
        diff: Rect { x: area.x + rail, y: area.y, width: area.width - rail, height: body },
        footer: Rect { x: area.x, y: end, width: area.width, height: footer },
    }
}

/// A box of that size in the middle of an area, with a margin of one cell.
pub open spec fn centered(area: Rect, width: u16, height: u16) -> Rect {
    let w = max16(min16(width, less16(area.width, 2)), 1);
    let h = max16(min16(height, less16(area.height, 2)), 1);
    Rect {
        x: (area.x + less16(area.width, w) / 2) as u16,
        y: (area.y + less16(area.height, h) / 2) as u16,
        width: w,
        height: h,
    }
}

/// A box of that size in the middle of an area, with a margin of one cell.
pub fn centered_rect(area: Rect, width: u16, height: u16) -> (rect: Rect)
    requires
        area.fits(),
    ensures
        rect == centered(area, width, height),
{
    let w = max16(min16(width, less16(area.width, 2)), 1);
    let h = max16(min16(height, less16(area.height, 2)), 1);
    Rect {
        x: area.x + less16(area.width, w) / 2,
        y: area.y + less16(area.height, h) / 2,
        width: w,
        height: h,
    }
}

/// The offset of a window of `visible` rows that shows the selected row,
/// changed no more than it takes.
pub open spec fn followed(selected: nat, visible: nat, current: nat) -> nat {
    if visible == 0 {
        current
    } else if selected < current {
        selected
    } else if selected >= current + visible {
        (selected + 1 - visible) as nat
    } else {
        current
    }
}

/// The offset of a window of `visible` rows that shows the selected row.
pub fn follow_selection(selected: usize, visible: usize, current: usize) -> (off: usize)
    ensures
        off == followed(selected as nat, visible as nat, current as nat),
{
    if visible == 0 {
        current
    } else if selected < current {
        selected
    } else if selected - current >= visible {
        selected - (visible - 1)
    } else {
        current
    }
}

/// The selected row is in the window, and a window that shows it stays.
pub proof fn law_selection_shows(selected: nat, visible: nat, current: nat)
    requires
        visible > 0,
    ensures
        followed(selected, visible, current) <= selected < followed(selected, visible, current)
            + visible,
        current <= selected < current + visible ==> followed(selected, visible, current)
            == current,
{
}

/// The parts of the screen cover it without overlap: rail and diff stand side
/// by side above the footer, and in the rail each panel begins where the one
/// above it ends.
pub proof fn law_layout_tiles(area: Rect, footer_h: u16)
    requires
        area.fits(),
    ensures
        ({
            let l = layout_of(area, footer_h);
            &&& l.status.x == area.x && l.status.y == area.y
            &&& l.files.y == l.status.y + l.status.height
            &&& l.branches.y == l.files.y + l.files.height
            &&& l.commits.y == l.branches.y + l.branches.height
            &&& l.stash.y == l.commits.y + l.commits.height
            &&& l.stash.y + l.stash.height <= l.footer.y
            &&& l.diff.x == area.x + l.status.width
            &&& l.status.width + l.diff.width == area.width
            &&& l.diff.y == area.y && l.diff.y + l.diff.height == l.footer.y
            &&& l.footer.y + l.footer.height == area.y + area.height
            &&& l.footer.width == area.width
        }),
        ({
            let l = layout_of(area, footer_h);
            &&& l.status.within(area) && l.files.within(area) && l.branches.within(area)
            &&& l.commits.within(area) && l.stash.within(area) && l.diff.within(area)
            &&& l.footer.within(area)
        }),
{
}

/// On a screen that is high enough the rail is filled to the footer.
pub proof fn law_rail_is_filled(area: Rect, footer_h: u16)
    requires
        area.fits(),
        area.height >= footer_h + 19,
    ensures
        layout_of(area, footer_h).stash.y + layout_of(area, footer_h).stash.height == layout_of(
            area,
            footer_h,
        ).footer.y,
{
}

/// A box in the middle of an area lies in it, if there is any cell in it.
pub proof fn law_box_is_inside(area: Rect, width: u16, height: u16)
    requires
        area.fits(),
        !area.is_empty(),
    ensures
        centered(area, width, height).within(area),
        !centered(area, width, height).is_empty(),
{
}

/// The rail is three tenths of the screen wide, rounded down, and never wider
/// than 44 columns; the rest is for the diff.
pub proof fn law_rail_width(area: Rect, footer_h: u16)
    requires
        area.fits(),
    ensures
        ({
            let l = layout_of(area, footer_h);
            let rail = l.files.width;
            &&& rail <= 44
            &&& 10 * rail <= 3 * area.width
            &&& rail < 44 ==> 3 * area.width < 10 * (rail + 1)
            &&& l.status.width == rail && l.branches.width == rail && l.commits.width == rail
                && l.stash.width == rail
        }),
{
}

/// On a screen that is high enough the status is three rows high, the branches
/// five, the commits and the stash four each, and the files have the rest.
pub proof fn law_rail_heights(area: Rect, footer_h: u16)
    requires
        area.fits(),
        area.height >= footer_h + 19,
    ensures
        ({
            let l = layout_of(area, footer_h);
            &&& l.status.height == 3
            &&& l.branches.height == 5
            &&& l.commits.height == 4
            &&& l.stash.height == 4
            &&& l.files.height == area.height - footer_h - 16
            &&& l.footer.height == footer_h
        }),
{
}

/// A box has the size that is asked for wherever there is room for it and a
/// margin, and stands in the middle: what is left of the area is the same on
/// both sides, but for one cell.
pub proof fn law_box_is_centered(area: Rect, width: u16, height: u16)
    requires
        area.fits(),
        width > 0,
        height > 0,
        width + 2 <= area.width,
        height + 2 <= area.height,
    ensures
        ({
            let b = centered(area, width, height);
            let left = b.x - area.x;
            let right = area.x + area.width - (b.x + b.width);
            let above = b.y - area.y;
            let below = area.y + area.height - (b.y + b.height);
            &&& b.width == width
            &&& b.height == height
            &&& left <= right <= left + 1
            &&& above <= below <= above + 1
        }),
{
}

} // verus!
