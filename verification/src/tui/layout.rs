//! Where previews stand in their panels.

use vstd::prelude::*;

verus! {

/// Size of an area in terminal cells.
#[derive(Debug, Clone, Copy, PartialEq, Eq, Structural)]
pub struct Area {
    /// Columns.
    pub width: u16,
    /// Rows.
    pub height: u16,
}

/// Columns and pixel rows of a preview shown pixel by pixel; a cell holds two
/// pixel rows.
pub fn exact_cells(width: u32, height: u32, area: Area) -> (cells: (u32, u32))
    ensures
        cells.0 == if width <= area.width {
            width
        } else {
            area.width as u32
        },
        cells.1 == if height <= 2 * area.height {
            height as int
        } else {
            2 * area.height
        },
{
    let columns: u32 = area.width as u32;
    let rows: u32 = 2 * area.height as u32;
    (
        if width <= columns {
            width
        } else {
            columns
        },
        if height <= rows {
            height
        } else {
            rows
        },
    )
}

/// A size kept between one and a bound.
pub open spec fn bounded(value: u32, most: int) -> int {
    if value < 1 {
        1
    } else if value > most {
        most
    } else {
        value as int
    }
}

/// Columns and pixel rows of a preview that is scaled to its area. `width` and
/// `height` are its scaled sides; an empty preview or area shows nothing.
pub fn fitted_cells(empty: bool, width: u32, height: u32, area: Area) -> (cells: (u32, u32))
    ensures
        cells == if empty || area.width == 0 || area.height == 0 {
            (0u32, 0u32)
        } else {
            (
                bounded(width, area.width as int) as u32,
                bounded(height, 2 * area.height) as u32,
            )
        },
{
    if empty || area.width == 0 || area.height == 0 {
        return (0, 0);
    }
    let columns: u32 = area.width as u32;
    let rows: u32 = 2 * area.height as u32;
    (
        if width < 1 {
            1
        } else if width > columns {
            columns
        } else {
            width
        },
        if height < 1 {
            1
        } else if height > rows {
            rows
        } else {
            height
        },
    )
}

/// Distance from the left and upper edge that centers a preview.
pub fn centered(area: Area, columns: u32, pixel_rows: u32) -> (offset: (u16, u16))
    requires
        columns <= area.width,
        pixel_rows <= 2 * area.height,
    ensures
        offset.0 == (area.width - columns) / 2,
        offset.1 == (area.height - (pixel_rows + 1) / 2) / 2,
        offset.0 + columns <= area.width,
        offset.1 + (pixel_rows + 1) / 2 <= area.height,
{
    let rows: u32 = pixel_rows / 2 + pixel_rows % 2;
    ((area.width - columns as u16) / 2, (area.height - rows as u16) / 2)
}

/// Left edge and width of one of several panels next to each other. `left` and
/// `right` are the edges of the area.
pub fn strip_panel(left: u16, right: u16, panels: u16, index: u16) -> (panel: (u16, u16))
    requires
        left <= right,
        1 <= panels,
        index < panels,
        left + index * (if (right - left) / (panels as int) >= 1 {
            (right - left) / (panels as int)
        } else {
            1
        }) <= u16::MAX,
    ensures
        ({
            let each = if (right - left) / (panels as int) >= 1 {
                (right - left) / (panels as int)
            } else {
                1
            };
            &&& panel.0 == left + index * each
            &&& panel.1 == if index == 0 {
                each
            } else if right <= panel.0 {
                0
            } else if right - panel.0 < each {
                right - panel.0
            } else {
                each
            }
        }),
{
    let width: u16 = right - left;
    let share: u16 = width / panels;
    let each: u16 = if share >= 1 {
        share
    } else {
        1
    };
    proof {
        assert(index * each >= 0) by (nonlinear_arith)
            requires
                index >= 0,
                each >= 0,
        ;
    }
    let start: u16 = left + index * each;
    let rest: u16 = if right >= start {
        right - start
    } else {
        0
    };
    (
        start,
        if index == 0 {
            each
        } else if rest < each {
            rest
        } else {
            each
        },
    )
}

/// Size of a preview that fills a panel, in pixels.
pub fn panel_resolution(area: Area, font_width: u16, font_height: u16) -> (size: (u32, u32))
    ensures
        size.0 == (if area.width == 0 {
            1
        } else {
            area.width as int
        }) * (if font_width == 0 {
            1
        } else {
            font_width as int
        }),
        size.1 == (if area.height == 0 {
            1
        } else {
            area.height as int
        }) * (if font_height == 0 {
            1
        } else {
            font_height as int
        }),
{
    let columns: u32 = if area.width == 0 {
        1
    } else {
        area.width as u32
    };
    let rows: u32 = if area.height == 0 {
        1
    } else {
        area.height as u32
    };
    let wide: u32 = if font_width == 0 {
        1
    } else {
        font_width as u32
    };
    let high: u32 = if font_height == 0 {
        1
    } else {
        font_height as u32
    };
    assert(columns * wide <= 65535 * 65535 && rows * high <= 65535 * 65535) by (nonlinear_arith)
        requires
            columns <= 65535,
            wide <= 65535,
            rows <= 65535,
            high <= 65535,
    ;
    (columns * wide, rows * high)
}

/// A bounded number lies between one and the bound, and is the number itself wherever that
/// lies between them.
pub proof fn law_bounded_numbers(value: u32, most: int)
    requires
        most >= 1,
    ensures
        1 <= bounded(value, most) <= most,
        1 <= value <= most ==> bounded(value, most) == value,
        value > most ==> bounded(value, most) == most,
{
}

} // verus!
