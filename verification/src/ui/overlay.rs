//! Placement of the small centred message box shown over the view during
//! transient phases (scanning).
use vstd::prelude::*;

verus! {

/// A rectangle of terminal cells: column, row, width, height.
#[derive(Debug, Clone, Copy, PartialEq, Eq, Structural)]
pub struct Area {
    pub x: u16,
    pub y: u16,
    pub width: u16,
    pub height: u16,
}

pub open spec fn sat_sub(a: int, b: int) -> int {
    if a >= b {
        a - b
    } else {
        0
    }
}

pub open spec fn min(a: int, b: int) -> int {
    if a <= b {
        a
    } else {
        b
    }
}

/// The message box for a message of `msg_len` bytes on `area`: as wide as
/// the message plus a border and padding of 4, but never wider than the
/// area; 3 rows high at most; centred. `None` when the area is empty.
pub open spec fn popup_spec(area: Area, msg_len: int) -> Option<Area> {
    if area.width == 0 || area.height == 0 {
        None
    } else {
        let len16 = msg_len % 0x10000;
        let width = min(min(len16, sat_sub(area.width as int, 4)) + 4, area.width as int);
        let height = min(3, area.height as int);
        Some(Area {
            x: (area.x + sat_sub(area.width as int, width) / 2) as u16,
            y: (area.y + sat_sub(area.height as int, height) / 2) as u16,
            width: width as u16,
            height: height as u16,
        })
    }
}

/// Where the message box goes; the length is the message's byte length,
/// taken modulo 2^16 as the terminal's cell counts are 16-bit.
pub fn popup_area(area: Area, msg_len: usize) -> (r: Option<Area>)
    requires
        area.x + area.width <= u16::MAX,
        area.y + area.height <= u16::MAX,
    ensures
        r == popup_spec(area, msg_len as int),
{
    if area.width == 0 || area.height == 0 {
        return None;
    }
    let len16: u16 = (msg_len % 0x10000) as u16;
    let avail: u16 = if area.width >= 4 { area.width - 4 } else { 0 };
    let inner: u16 = if len16 <= avail { len16 } else { avail };
    let width: u16 = if (inner as u32) + 4 <= area.width as u32 { inner + 4 } else { area.width };
    let height: u16 = if 3 <= area.height { 3 } else { area.height };
    let x: u16 = area.x + (area.width - width) / 2;
    let y: u16 = area.y + (area.height - height) / 2;
    Some(Area { x, y, width, height })
}

} // verus!
