//! Vertical camera control by estimation, re-grounded at the map edges.

use vstd::prelude::*;
use crate::td::{InputAction, MapMeta, TDConfig, clamp, fits_i64, EDGE_HOLD_MS, MIN_SCROLL, MOVE_SPEED, MOVE_THRESHOLD, SCROLL_RES_MS};

verus! {

/// Estimated vertical scroll position of the viewport over the map.
#[derive(Clone, Copy, Debug)]
pub struct CameraController {
    /// Estimated map row shown at the top of the screen.
    pub offset_y: i64,
    /// Largest scroll offset: map height minus screen height, at least 0.
    pub max_scroll: i64,
    /// Screen row at the centre of the safe zone.
    pub safe_center: i64,
}

/// Key-hold time for a fine scroll of `pixels`, rounded to the nearest
/// multiple of `res` and at least one `res`.
pub open spec fn scroll_hold_ms(pixels: int, res: int) -> int {
    let raw = pixels * 1000 / (MOVE_SPEED as int);
    let units = (raw + res / 2) / res;
    (if units < 1 {
        1
    } else {
        units
    }) * res
}

/// Distance the camera travels during a fine scroll of `pixels`.
pub open spec fn scroll_distance(pixels: int, res: int) -> int {
    if pixels < MIN_SCROLL {
        0
    } else {
        scroll_hold_ms(pixels, res) * (MOVE_SPEED as int) / 1000
    }
}

pub open spec fn edge_key(top: bool) -> char {
    if top {
        'w'
    } else {
        's'
    }
}

/// Steps of one edge alignment.
pub open spec fn align_steps(top: bool) -> Seq<InputAction> {
    seq![
        InputAction::KeyHold { key: edge_key(top), ms: EDGE_HOLD_MS },
        InputAction::Sleep { ms: 500 },
    ]
}

/// Steps of one fine scroll.
pub open spec fn scroll_steps(dir: char, pixels: int, res: int) -> Seq<InputAction> {
    if pixels < MIN_SCROLL {
        seq![]
    } else {
        seq![InputAction::KeyHold { key: dir, ms: scroll_hold_ms(pixels, res) as u64 }]
    }
}

/// Bound on how far the offset estimate may stray, in pixels.
pub const OFFSET_BOUND: i64 = 0x100_0000_0000;

impl CameraController {
    pub open spec fn wf(&self) -> bool {
        &&& 0 <= self.max_scroll <= u32::MAX
        &&& i32::MIN <= self.safe_center <= i32::MAX
        &&& -OFFSET_BOUND <= self.offset_y <= OFFSET_BOUND
    }

    /// How far the ideal offset for `target` is from the estimate.
    pub open spec fn scroll_delta(&self, target: int) -> int {
        self.ideal_offset(target) - self.offset_y
    }

    /// Steps of a fine scroll from the current estimate towards `target`,
    /// without re-grounding at an edge.
    pub open spec fn scroll_moves(&self, target: int) -> Seq<InputAction> {
        let d = self.scroll_delta(target);
        if d > 0 {
            scroll_steps('s', d, SCROLL_RES_MS as int)
        } else {
            scroll_steps('w', -d, SCROLL_RES_MS as int)
        }
    }

    /// Whether that fine scroll holds a key at all.
    pub open spec fn scroll_moved(&self, target: int) -> bool {
        let d = self.scroll_delta(target);
        d >= MIN_SCROLL || -d >= MIN_SCROLL
    }

    /// Offset estimate after that fine scroll.
    pub open spec fn offset_after_scroll(&self, target: int) -> int {
        let d = self.scroll_delta(target);
        if d > 0 {
            self.offset_y + scroll_distance(d, SCROLL_RES_MS as int)
        } else {
            self.offset_y - scroll_distance(-d, SCROLL_RES_MS as int)
        }
    }

    /// Offset that puts `target` at the safe-zone centre, kept on the map.
    pub open spec fn ideal_offset(&self, target: int) -> int {
        clamp(target - self.safe_center, 0, self.max_scroll as int)
    }

    /// Whether a move towards `target` is worth making.
    pub open spec fn needs_move(&self, target: int) -> bool {
        let delta = self.ideal_offset(target) - self.offset_y;
        !(-MOVE_THRESHOLD < delta < MOVE_THRESHOLD)
    }

    /// Whether the move towards `target` starts from the top edge.
    pub open spec fn from_top(&self, target: int) -> bool {
        2 * self.ideal_offset(target) <= self.max_scroll
    }

    /// Offset estimate after a move towards `target`.
    pub open spec fn offset_after(&self, target: int) -> int {
        let ideal = self.ideal_offset(target);
        if !self.needs_move(target) {
            self.offset_y as int
        } else if self.from_top(target) {
            if ideal > MIN_SCROLL {
                scroll_distance(ideal, SCROLL_RES_MS as int)
            } else {
                0
            }
        } else {
            let up = self.max_scroll - ideal;
            self.max_scroll - if up > MIN_SCROLL {
                scroll_distance(up, SCROLL_RES_MS as int)
            } else {
                0
            }
        }
    }

    /// Steps performed by a move towards `target`.
    pub open spec fn move_steps(&self, target: int) -> Seq<InputAction> {
        let ideal = self.ideal_offset(target);
        if !self.needs_move(target) {
            seq![]
        } else if self.from_top(target) {
            align_steps(true) + (if ideal > MIN_SCROLL {
                scroll_steps('s', ideal, SCROLL_RES_MS as int)
            } else {
                seq![]
            }) + seq![InputAction::Sleep { ms: 200 }]
        } else {
            let up = self.max_scroll - ideal;
            align_steps(false) + (if up > MIN_SCROLL {
                scroll_steps('w', up, SCROLL_RES_MS as int)
            } else {
                seq![]
            }) + seq![InputAction::Sleep { ms: 200 }]
        }
    }

    /// A camera for the given screen layout and map, estimated at the top.
    pub fn new(config: &TDConfig, meta: &MapMeta) -> (r: Self)
        ensures
            r.wf(),
            r.offset_y == 0,
            r.max_scroll == clamp(meta.bottom - config.screen_height, 0, u32::MAX as int),
            r.safe_center == (config.safe_zone[1] + config.safe_zone[3]) / 2,
    {
        let m: i64 = meta.bottom as i64 - config.screen_height as i64;
        let max_scroll: i64 = if m < 0 {
            0
        } else if m > u32::MAX as i64 {
            u32::MAX as i64
        } else {
            m
        };
        let sum: i64 = config.safe_zone[1] as i64 + config.safe_zone[3] as i64;
        let safe_center: i64 = if sum >= 0 {
            (sum as u64 / 2) as i64
        } else {
            -((((-sum) as u64 + 1) / 2) as i64)
        };
        CameraController { offset_y: 0, max_scroll, safe_center }
    }

    /// Holds the scroll key long enough to hit the top (or bottom) map edge,
    /// then trusts the edge as the new estimate.
    pub fn align_camera_to_edge(&mut self, top: bool, out: &mut Vec<InputAction>)
        ensures
            old(self).wf() ==> final(self).wf(),
            final(self).offset_y == (if top {
                0
            } else {
                old(self).max_scroll as int
            }),
            final(self).max_scroll == old(self).max_scroll,
            final(self).safe_center == old(self).safe_center,
            final(out)@ == old(out)@ + align_steps(top),
    {
        let key = if top {
            'w'
        } else {
            's'
        };
        out.push(InputAction::KeyHold { key, ms: EDGE_HOLD_MS });
        self.offset_y = if top {
            0
        } else {
            self.max_scroll
        };
        out.push(InputAction::Sleep { ms: 500 });
    }

    /// Holds `direction` long enough to travel about `pixels`; returns the
    /// distance the estimate moves by. Distances under the minimum are skipped.
    pub fn scroll_camera_by_pixels(
        &self,
        direction: char,
        pixels: i64,
        time_resolution_ms: u64,
        out: &mut Vec<InputAction>,
    ) -> (moved: u64)
        requires
            0 < time_resolution_ms,
            pixels >= MIN_SCROLL ==> scroll_hold_ms(pixels as int, time_resolution_ms as int) <= u64::MAX,
        ensures
            moved == scroll_distance(pixels as int, time_resolution_ms as int),
            final(out)@ == old(out)@ + scroll_steps(direction, pixels as int, time_resolution_ms as int),
    {
        if pixels < MIN_SCROLL {
            return 0;
        }
        let res: u128 = time_resolution_ms as u128;
        let raw: u128 = (pixels as u128) * 1000 / (MOVE_SPEED as u128);
        let half: u128 = res / 2;
        let units: u128 = (raw + half) / res;
        let kept: u128 = if units < 1 {
            1
        } else {
            units
        };
        assert(units * res <= raw + half) by (nonlinear_arith)
            requires
                units as int == (raw as int + half as int) / (res as int),
                res > 0,
        ;
        assert(kept * res <= raw + half + res) by (nonlinear_arith)
            requires
                units * res <= raw + half,
                kept == (if units < 1 { 1 } else { units }),
                res > 0,
        ;
        let final_ms: u64 = (kept * res) as u64;
        out.push(InputAction::KeyHold { key: direction, ms: final_ms });
        ((final_ms as u128) * (MOVE_SPEED as u128) / 1000) as u64
    }

    /// Brings map row `target_map_y` to the safe-zone centre when it is far
    /// from it: aligns to the nearer edge, then scrolls the rest.
    /// Returns whether the camera moved.
    pub fn smart_move_camera(&mut self, target_map_y: i64, out: &mut Vec<InputAction>) -> (moved: bool)
        requires
            old(self).wf(),
        ensures
            final(self).wf(),
            moved == old(self).needs_move(target_map_y as int),
            final(self).offset_y == old(self).offset_after(target_map_y as int),
            final(self).max_scroll == old(self).max_scroll,
            final(self).safe_center == old(self).safe_center,
            final(out)@ == old(out)@ + old(self).move_steps(target_map_y as int),
    {
        let diff: i128 = target_map_y as i128 - self.safe_center as i128;
        let ideal: i64 = if diff < 0 {
            0
        } else if diff > self.max_scroll as i128 {
            self.max_scroll
        } else {
            diff as i64
        };
        let delta: i128 = ideal as i128 - self.offset_y as i128;
        if -(MOVE_THRESHOLD as i128) < delta && delta < MOVE_THRESHOLD as i128 {
            return false;
        }
        let ghost out0 = out@;
        if 2 * ideal <= self.max_scroll {
            self.align_camera_to_edge(true, out);
            if ideal > MIN_SCROLL {
                proof {
                    lemma_scroll_distance_close(ideal as int);
                }
                let moved = self.scroll_camera_by_pixels('s', ideal, SCROLL_RES_MS, out);
                self.offset_y = self.offset_y + moved as i64;
            }
        } else {
            self.align_camera_to_edge(false, out);
            let dist_up: i64 = self.max_scroll - ideal;
            if dist_up > MIN_SCROLL {
                proof {
                    lemma_scroll_distance_close(dist_up as int);
                }
                let moved = self.scroll_camera_by_pixels('w', dist_up, SCROLL_RES_MS, out);
                self.offset_y = self.offset_y - moved as i64;
            }
        }
        out.push(InputAction::Sleep { ms: 200 });
        proof {
            assert(out@ =~= out0 + old(self).move_steps(target_map_y as int));
        }
        true
    }
}

/// A fine scroll lands within a few pixels of the requested distance.
pub proof fn lemma_scroll_distance_close(pixels: int)
    requires
        MIN_SCROLL <= pixels,
    ensures
        pixels - 20 <= scroll_distance(pixels, SCROLL_RES_MS as int) <= pixels + 20,
        scroll_hold_ms(pixels, SCROLL_RES_MS as int) <= 4 * pixels + 200,
{
    let raw = pixels * 1000 / 300;
    let units = (raw + 50) / 100;
    assert(raw * 300 <= pixels * 1000 < raw * 300 + 300);
    assert(units * 100 <= raw + 50 < units * 100 + 100);
    let hold = scroll_hold_ms(pixels, SCROLL_RES_MS as int);
    assert(hold == (if units < 1 { 1 } else { units }) * 100);
    let d = hold * 300 / 1000;
    assert(d * 1000 <= hold * 300 < d * 1000 + 1000);
}

impl CameraController {
    /// Scrolls from the current estimate towards the offset that centres
    /// `target`, without aligning to an edge first; returns whether a key
    /// was held.
    pub fn scroll_towards(&mut self, target_map_y: i64, out: &mut Vec<InputAction>) -> (moved: bool)
        requires
            old(self).wf(),
        ensures
            final(self).wf(),
            moved == old(self).scroll_moved(target_map_y as int),
            final(self).offset_y == old(self).offset_after_scroll(target_map_y as int),
            final(self).max_scroll == old(self).max_scroll,
            final(self).safe_center == old(self).safe_center,
            final(out)@ == old(out)@ + old(self).scroll_moves(target_map_y as int),
    {
        let diff: i128 = target_map_y as i128 - self.safe_center as i128;
        let ideal: i64 = if diff < 0 {
            0
        } else if diff > self.max_scroll as i128 {
            self.max_scroll
        } else {
            diff as i64
        };
        let d: i64 = ideal - self.offset_y;
        if d > 0 {
            if d >= MIN_SCROLL {
                proof {
                    lemma_scroll_distance_close(d as int);
                }
            }
            let moved = self.scroll_camera_by_pixels('s', d, SCROLL_RES_MS, out);
            self.offset_y = self.offset_y + moved as i64;
            d >= MIN_SCROLL
        } else {
            let up: i64 = -d;
            if up >= MIN_SCROLL {
                proof {
                    lemma_scroll_distance_close(up as int);
                }
            }
            let moved = self.scroll_camera_by_pixels('w', up, SCROLL_RES_MS, out);
            self.offset_y = self.offset_y - moved as i64;
            up >= MIN_SCROLL
        }
    }
}

/// Moving the camera towards a row, then asking again for the same row with
/// nothing else in between, does not move it a second time.
pub proof fn lemma_smart_move_idempotent(cam: CameraController, target: int)
    requires
        cam.wf(),
    ensures
        fits_i64(cam.offset_after(target)),
        !(CameraController { offset_y: cam.offset_after(target) as i64, ..cam }).needs_move(target),
{
    let ideal = cam.ideal_offset(target);
    if cam.needs_move(target) {
        if cam.from_top(target) {
            if ideal > MIN_SCROLL {
                lemma_scroll_distance_close(ideal);
            }
        } else {
            let up = cam.max_scroll - ideal;
            if up > MIN_SCROLL {
                lemma_scroll_distance_close(up);
            }
        }
    }
}

} // verus!
