//! The character-creation screen's configuration tower: its vertical budget, derived from how
//! many race rows the grid needs rather than authored.
//!
//! A vanilla install has four rows a side and must come out of this arithmetic with exactly the
//! numbers the screen was authored with. A longer grid shrinks the race icons, pushes everything
//! below the grid down by what the extra rows cost, and raises the tower by exactly what would
//! otherwise hang off the bottom of the canvas — never more, and never above the canvas top.
//! All values are in the glue engine's virtual canvas units.
use vstd::prelude::*;

verus! {

/// The glue engine's virtual canvas height.
pub const CANVAS_H: u64 = 768;

/// The race-icon edge this screen was authored with.
pub const VANILLA_ICON: u64 = 48;

/// The race-icon edge a longer grid uses — the vanilla client shrinks the icon rather than let the
/// rows push the tower up past its own banner art.
pub const TALL_ICON: u64 = 45;

/// The gap between rows.
pub const GAP: u64 = 5;

/// How many race rows a side the screen was authored for.
pub const VANILLA_ROWS: u64 = 4;

/// Where the last thing in the tower, the Randomize button, sits, and its height.
pub const RANDOMIZE_TOP: u64 = 645;

/// The Randomize button's height.
pub const RANDOMIZE_H: u64 = 30;

/// The tower's authored top.
pub const VANILLA_TOWER_TOP: u64 = 74;

/// The banner texture's drawn height on a vanilla install, and on a longer grid.
pub const VANILLA_BANNER_H: u64 = 259;

/// The banner texture's drawn height on a longer grid.
pub const TALL_BANNER_H: u64 = 500;

/// The height of `rows` icon rows of edge `icon`.
pub open spec fn span(rows: int, icon: int) -> int {
    rows * icon + (rows - 1) * GAP
}

/// The rows the grid needs: the taller of the two faction columns, and at least one.
pub open spec fn grid_rows(alliance: int, horde: int) -> int {
    let taller = if alliance > horde {
        alliance
    } else {
        horde
    };
    if taller > 1 {
        taller
    } else {
        1
    }
}

/// The tower's vertical budget.
pub struct TowerRows {
    /// Race-icon edge.
    pub icon: u64,
    /// How far everything below the grid moves.
    pub shift: u64,
    /// The tower's own top.
    pub tower_top: u64,
    /// How tall the banner texture is drawn.
    pub banner_h: u64,
}

/// The icon edge for a grid of `rows` rows.
pub open spec fn icon_for(rows: int) -> int {
    if rows > VANILLA_ROWS {
        TALL_ICON as int
    } else {
        VANILLA_ICON as int
    }
}

/// How far the stack under the grid moves: what the grid costs beyond the authored four rows,
/// never negative — a shorter grid keeps the client's anchored positions.
pub open spec fn shift_for(rows: int) -> int {
    let extra = span(rows, icon_for(rows)) - span(VANILLA_ROWS as int, VANILLA_ICON as int);
    if extra > 0 {
        extra
    } else {
        0
    }
}

/// The tower's top: raised by exactly what would hang off the bottom of the canvas, from the
/// authored top, and never above the canvas top.
pub open spec fn top_for(rows: int) -> int {
    let room = CANVAS_H - (RANDOMIZE_TOP + shift_for(rows) + RANDOMIZE_H);
    if room >= VANILLA_TOWER_TOP {
        VANILLA_TOWER_TOP as int
    } else if room > 0 {
        room
    } else {
        0
    }
}

impl TowerRows {
    /// The budget for a grid of `rows` rows.
    pub fn for_rows(rows: u32) -> (t: Self)
        ensures
            t.icon == icon_for(rows as int),
            t.shift == shift_for(rows as int),
            t.tower_top == top_for(rows as int),
            t.banner_h == (if rows > VANILLA_ROWS {
                TALL_BANNER_H
            } else {
                VANILLA_BANNER_H
            }),
    {
        let r = rows as u64;
        let tall = r > VANILLA_ROWS;
        let icon = if tall {
            TALL_ICON
        } else {
            VANILLA_ICON
        };
        // span(4, 48) = 4·48 + 3·5.
        let vanilla_span: u64 = 207;
        let grid: u64 = if r == 0 {
            0
        } else {
            r * icon + (r - 1) * GAP
        };
        let shift = if r > 0 && grid > vanilla_span {
            grid - vanilla_span
        } else {
            0
        };
        let bottom = RANDOMIZE_TOP + shift + RANDOMIZE_H;
        let tower_top = if bottom + VANILLA_TOWER_TOP <= CANVAS_H {
            VANILLA_TOWER_TOP
        } else if bottom < CANVAS_H {
            CANVAS_H - bottom
        } else {
            0
        };
        TowerRows { icon, shift, tower_top, banner_h: if tall { TALL_BANNER_H } else { VANILLA_BANNER_H } }
    }

    /// The budget for the grid the catalog describes: the taller of the two faction columns,
    /// counting only the races it offers, and at least one row.
    pub fn of(alliance_offered: u32, horde_offered: u32) -> (t: Self)
        ensures
            t.icon == icon_for(grid_rows(alliance_offered as int, horde_offered as int)),
            t.shift == shift_for(grid_rows(alliance_offered as int, horde_offered as int)),
            t.tower_top == top_for(grid_rows(alliance_offered as int, horde_offered as int)),
            t.banner_h == (if grid_rows(alliance_offered as int, horde_offered as int)
                > VANILLA_ROWS {
                TALL_BANNER_H
            } else {
                VANILLA_BANNER_H
            }),
    {
        let taller = if alliance_offered > horde_offered {
            alliance_offered
        } else {
            horde_offered
        };
        let rows = if taller > 1 {
            taller
        } else {
            1
        };
        Self::for_rows(rows)
    }

    /// An authored top from the four-row era, moved by whatever the grid actually costs.
    pub fn below_grid(&self, authored: u64) -> (top: u64)
        requires
            authored + self.shift <= u64::MAX,
        ensures
            top == authored + self.shift,
    {
        authored + self.shift
    }
}

/// **A vanilla grid is untouched.** Four rows or fewer come out with the authored numbers: no
/// shift, the authored icon and tower top.
pub proof fn law_vanilla_is_untouched(rows: int)
    requires
        0 <= rows <= VANILLA_ROWS,
    ensures
        shift_for(rows) == 0,
        icon_for(rows) == VANILLA_ICON,
        top_for(rows) == VANILLA_TOWER_TOP,
{
    assert(icon_for(rows) == VANILLA_ICON);
    assert(rows * 48 <= 192) by (nonlinear_arith)
        requires
            rows <= 4,
    ;
}

/// **Randomize stays on the canvas.** Whenever the grid leaves room for it at all, the tower is
/// raised far enough that the Randomize button ends inside the canvas.
pub proof fn law_randomize_stays_on_canvas(rows: int)
    requires
        rows >= 0,
        RANDOMIZE_TOP + shift_for(rows) + RANDOMIZE_H <= CANVAS_H,
    ensures
        top_for(rows) + RANDOMIZE_TOP + shift_for(rows) + RANDOMIZE_H <= CANVAS_H,
{
}

/// **The budget is sized by the taller column.** The grid's rows are the larger of the two faction
/// counts (and at least one): never fewer than either column, always one of them or the single
/// row, and the same whichever faction is counted first.
pub proof fn law_rows_follow_the_taller_column(alliance: int, horde: int)
    ensures
        grid_rows(alliance, horde) >= alliance,
        grid_rows(alliance, horde) >= horde,
        grid_rows(alliance, horde) >= 1,
        grid_rows(alliance, horde) == alliance || grid_rows(alliance, horde) == horde || grid_rows(
            alliance,
            horde,
        ) == 1,
        grid_rows(alliance, horde) == grid_rows(horde, alliance),
{
}

} // verus!
