//! Tower-defense scheduler: strategy records, map geometry, camera control
//! and the per-wave dispatch of demolish / build / upgrade actions.
//!
//! The scheduler never touches a device: each operation appends the input
//! steps it decided on to a list that the caller performs in order.

use vstd::prelude::*;

verus! {

/// One physical input step, performed by the caller in list order.
#[derive(Clone, Debug, PartialEq, Eq, Structural)]
pub enum InputAction {
    /// Human-like cursor motion to a screen point, taking about `duration_ms`.
    MoveTo { x: u16, y: u16, duration_ms: u32 },
    /// A mouse click; `hold_ms == 0` lets the driver pick a short hold.
    Click { left: bool, right: bool, hold_ms: u64 },
    /// Two clicks separated by about `interval_ms`.
    DoubleClick { left: bool, right: bool, interval_ms: u64 },
    /// A short key tap.
    KeyClick { key: char },
    /// A key held down for `ms` milliseconds.
    KeyHold { key: char, ms: u64 },
    /// Raw key-down of a HID usage code.
    KeyDown { code: u8 },
    /// Release of every pressed key.
    KeyUpAll,
    /// Mouse wheel motion.
    Scroll { delta: i32 },
    /// A pause.
    Sleep { ms: u64 },
}

/// Movement speed of the camera while a scroll key is held, in pixels per second.
pub const MOVE_SPEED: u64 = 300;
/// Key-hold durations used for fine scrolling are multiples of this, in ms.
pub const SCROLL_RES_MS: u64 = 100;
/// Camera moves smaller than this many pixels are not performed.
pub const MOVE_THRESHOLD: i64 = 90;
/// Scroll distances of at most this many pixels are not worth a key hold.
pub const MIN_SCROLL: i64 = 10;
/// Holding a scroll key this long always reaches the map edge.
pub const EDGE_HOLD_MS: u64 = 2500;

/// Screen regions and size used by the scheduler.
#[derive(Clone, Debug)]
pub struct TDConfig {
    pub hud_check_rect: [i32; 4],
    pub hud_wave_loop_rect: [i32; 4],
    /// `[x1, y1, x2, y2]`: where on screen map targets may be clicked.
    pub safe_zone: [i32; 4],
    pub screen_width: i32,
    pub screen_height: i32,
}

impl TDConfig {
    pub open spec fn wf(&self) -> bool {
        &&& self.safe_zone[0] <= self.safe_zone[2]
        &&& self.safe_zone[1] <= self.safe_zone[3]
        &&& self.screen_height >= 0
    }

    /// Screen row at the middle of the safe zone.
    pub open spec fn safe_center(&self) -> int {
        (self.safe_zone[1] + self.safe_zone[3]) / 2
    }
}

impl Default for TDConfig {
    fn default() -> (r: Self)
        ensures
            r.hud_check_rect == [262i32, 16, 389, 97],
            r.hud_wave_loop_rect == [350i32, 288, 582, 362],
            r.safe_zone == [200i32, 200, 1720, 880],
            r.screen_width == 1920,
            r.screen_height == 1080,
            r.wf(),
    {
        TDConfig {
            hud_check_rect: [262, 16, 389, 97],
            hud_wave_loop_rect: [350, 288, 582, 362],
            safe_zone: [200, 200, 1720, 880],
            screen_width: 1920,
            screen_height: 1080,
        }
    }
}

/// A scripted step run before combat.
#[derive(Clone, Debug)]
pub enum PrepAction {
    KeyDown { key: char },
    KeyUpAll,
    Wait { ms: u64 },
    Log { msg: String },
}

/// A scripted step for entering a level.
#[derive(Clone, Debug)]
pub enum InitAction {
    Move { x: u16, y: u16 },
    Click { left: bool, right: bool, hold_ms: u64 },
    Key { key: char },
    Wait { ms: u64 },
    Log { msg: String },
}

/// Static geometry of one level, in whole pixels.
#[derive(Clone, Debug)]
pub struct MapMeta {
    pub grid_pixel_size: u32,
    pub offset_x: i32,
    pub offset_y: i32,
    /// Total scrollable map height.
    pub bottom: i32,
    pub prep_actions: Vec<PrepAction>,
}

/// Where a trap sits in the loadout menu.
#[derive(Clone, Debug)]
pub struct TrapConfigItem {
    pub name: String,
    /// `"Floor"`, `"Wall"` or `"Ceiling"`.
    pub b_type: String,
    /// `[column, row]` in the menu grid.
    pub grid_index: [i32; 2],
}

#[derive(Clone, Debug)]
pub struct BuildingExport {
    pub uid: usize,
    pub name: String,
    pub grid_x: usize,
    pub grid_y: usize,
    pub width: usize,
    pub height: usize,
    pub wave_num: i32,
    pub is_late: bool,
}

#[derive(Clone, Debug)]
pub struct UpgradeEvent {
    pub building_name: String,
    pub wave_num: i32,
    pub is_late: bool,
}

#[derive(Clone, Debug)]
pub struct DemolishEvent {
    pub uid: usize,
    pub name: String,
    pub grid_x: usize,
    pub grid_y: usize,
    pub width: usize,
    pub height: usize,
    pub wave_num: i32,
    pub is_late: bool,
}

#[derive(Clone, Debug)]
pub struct MapTerrainExport {
    pub map_name: String,
    pub meta: MapMeta,
}

#[derive(Clone, Debug)]
pub struct MapBuildingsExport {
    pub map_name: String,
    pub buildings: Vec<BuildingExport>,
    pub upgrades: Vec<UpgradeEvent>,
    pub demolishes: Vec<DemolishEvent>,
}

#[derive(Clone, Copy, Debug, PartialEq, Eq, Structural)]
pub struct WaveStatus {
    pub current_wave: i32,
}

pub open spec fn clamp(v: int, lo: int, hi: int) -> int {
    if v < lo {
        lo
    } else if v > hi {
        hi
    } else {
        v
    }
}

/// What a float-to-`u16` cast gives: saturation at both ends.
pub open spec fn sat_u16(v: int) -> u16 {
    if v < 0 {
        0
    } else if v > 65535 {
        65535
    } else {
        v as u16
    }
}

/// Pixel coordinate of the centre of a footprint `span` cells wide starting at
/// cell `g`, on a grid of `size`-pixel cells whose origin is at `offset`.
pub open spec fn cell_center(offset: int, g: int, span: int, size: int) -> int {
    offset + (2 * g + span) * size / 2
}

pub open spec fn fits_i64(v: int) -> bool {
    i64::MIN <= v <= i64::MAX
}

/// Absolute map pixel at the centre of a footprint, if it fits in `i64`.
pub open spec fn map_pixel(meta: MapMeta, gx: int, gy: int, w: int, h: int) -> Option<(int, int)> {
    let x = cell_center(meta.offset_x as int, gx, w, meta.grid_pixel_size as int);
    let y = cell_center(meta.offset_y as int, gy, h, meta.grid_pixel_size as int);
    if fits_i64(x) && fits_i64(y) {
        Some((x, y))
    } else {
        None
    }
}

pub fn cell_center_exec(offset: i32, g: usize, span: usize, size: u32) -> (r: Option<i64>)
    ensures
        r is Some <==> fits_i64(cell_center(offset as int, g as int, span as int, size as int)),
        r matches Some(v) ==> v == cell_center(offset as int, g as int, span as int, size as int),
{
    let cells: u128 = 2 * (g as u128) + span as u128;
    assert(cells * (size as u128) <= 3 * 0x1_0000_0000_0000_0000 * 0x1_0000_0000) by (nonlinear_arith)
        requires
            cells <= 3 * 0x1_0000_0000_0000_0000,
            size < 0x1_0000_0000,
    ;
    let half: u128 = cells * (size as u128) / 2;
    let v: i128 = offset as i128 + half as i128;
    if v > i64::MAX as i128 {
        None
    } else {
        Some(v as i64)
    }
}

/// The saturated screen point for a clamped coordinate pair.
pub fn to_screen_u16(v: i128) -> (r: u16)
    ensures
        r == sat_u16(v as int),
{
    if v < 0 {
        0
    } else if v > 65535 {
        65535
    } else {
        v as u16
    }
}

fn clamp_i128(v: i128, lo: i32, hi: i32) -> (r: i128)
    requires
        lo <= hi,
    ensures
        r == clamp(v as int, lo as int, hi as int),
{
    if v < lo as i128 {
        lo as i128
    } else if v > hi as i128 {
        hi as i128
    } else {
        v
    }
}

} // verus!
