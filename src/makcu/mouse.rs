//! Mouse commands.

use vstd::prelude::*;
use crate::makcu::error::{MakcuError, MakcuResult};
use crate::text::{dec, dec_int, owned, push_decimal, push_signed, push_str};

verus! {

#[derive(Debug, Clone, Copy, PartialEq, Eq, Structural)]
pub enum MouseButtons {
    Left,
    Right,
    Middle,
    Side1,
    Side2,
}

#[derive(Debug, Clone, Copy, PartialEq, Eq, Structural)]
pub enum MouseAxis {
    X,
    Y,
    Wheel,
    Pan,
    Tilt,
}

#[derive(Debug, Clone, Copy, PartialEq, Eq, Structural)]
pub enum LockState {
    Unlocked,
    Locked,
}

#[derive(Debug, Clone, Copy, PartialEq, Eq, Structural)]
pub enum LockDirection {
    Both,
    Positive,
    Negative,
}

/// Longest delay the device accepts for timed commands, in ms.
pub const MAX_DELAY_MS: u16 = 5000;
/// Most segments the device accepts for a move.
pub const MAX_SEGMENTS: u16 = 512;

impl MouseButtons {
    pub open spec fn spec_code(self) -> u8 {
        match self {
            MouseButtons::Left => 1,
            MouseButtons::Right => 2,
            MouseButtons::Middle => 3,
            MouseButtons::Side1 => 4,
            MouseButtons::Side2 => 5,
        }
    }

    /// Button number used by the protocol.
    pub fn code(self) -> (r: u8)
        ensures
            r == self.spec_code(),
    {
        match self {
            MouseButtons::Left => 1,
            MouseButtons::Right => 2,
            MouseButtons::Middle => 3,
            MouseButtons::Side1 => 4,
            MouseButtons::Side2 => 5,
        }
    }

    pub open spec fn spec_name(self) -> Seq<char> {
        match self {
            MouseButtons::Left => "left"@,
            MouseButtons::Right => "right"@,
            MouseButtons::Middle => "middle"@,
            MouseButtons::Side1 => "side1"@,
            MouseButtons::Side2 => "side2"@,
        }
    }

    /// Short name used by the lock and catch commands.
    pub open spec fn spec_short(self) -> Seq<char> {
        match self {
            MouseButtons::Left => "ml"@,
            MouseButtons::Middle => "mm"@,
            MouseButtons::Right => "mr"@,
            MouseButtons::Side1 => "ms1"@,
            MouseButtons::Side2 => "ms2"@,
        }
    }
}

impl LockState {
    pub open spec fn spec_code(self) -> u8 {
        match self {
            LockState::Unlocked => 0,
            LockState::Locked => 1,
        }
    }

    pub fn code(self) -> (r: u8)
        ensures
            r == self.spec_code(),
    {
        match self {
            LockState::Unlocked => 0,
            LockState::Locked => 1,
        }
    }
}

pub open spec fn cmd1(name: Seq<char>, a: Seq<char>) -> Seq<char> {
    "."@ + name + "("@ + a + ")\r\n"@
}

pub open spec fn cmd2(name: Seq<char>, a: Seq<char>, b: Seq<char>) -> Seq<char> {
    "."@ + name + "("@ + a + ","@ + b + ")\r\n"@
}

pub open spec fn cmd3(name: Seq<char>, a: Seq<char>, b: Seq<char>, c: Seq<char>) -> Seq<char> {
    "."@ + name + "("@ + a + ","@ + b + ","@ + c + ")\r\n"@
}

/// Text of an optional pair of Bezier control points.
pub open spec fn control_text(points: Option<[(i16, i16); 2]>) -> Seq<char> {
    match points {
        Some(p) => ","@ + dec_int(p[0].0 as int) + ","@ + dec_int(p[0].1 as int) + ","@ + dec_int(
            p[1].0 as int,
        ) + ","@ + dec_int(p[1].1 as int),
        None => seq![],
    }
}

pub open spec fn bit(b: bool) -> Seq<char> {
    if b {
        "1"@
    } else {
        "0"@
    }
}

pub struct MouseControl;

fn delay_error() -> (r: MakcuError)
    ensures
        r matches MakcuError::InvalidParameter(m) && m@ == "延迟不能超过5000ms"@,
{
    MakcuError::InvalidParameter(owned("延迟不能超过5000ms"))
}

fn segments_error() -> (r: MakcuError)
    ensures
        r matches MakcuError::InvalidParameter(m) && m@ == "分段数不能超过512"@,
{
    MakcuError::InvalidParameter(owned("分段数不能超过512"))
}

fn push_bit(s: &mut String, b: bool)
    ensures
        final(s)@ == old(s)@ + bit(b),
{
    if b {
        push_str(s, "1");
    } else {
        push_str(s, "0");
    }
}

fn push_control_points(s: &mut String, points: Option<[(i16, i16); 2]>)
    ensures
        final(s)@ == old(s)@ + control_text(points),
{
    if let Some(p) = points {
        let ghost s0 = s@;
        push_str(s, ",");
        push_signed(s, p[0].0 as i64);
        push_str(s, ",");
        push_signed(s, p[0].1 as i64);
        push_str(s, ",");
        push_signed(s, p[1].0 as i64);
        push_str(s, ",");
        push_signed(s, p[1].1 as i64);
        assert(s@ =~= s0 + control_text(points));
    }
}

impl MouseControl {
    pub fn build_get_button_command(button: MouseButtons) -> (r: String)
        ensures
            r@ == "."@ + button.spec_name() + "()\r\n"@,
    {
        let mut s = owned(".");
        push_str(&mut s, Self::button_name(button));
        push_str(&mut s, "()\r\n");
        s
    }

    pub fn build_set_button_command(button: MouseButtons, state: u8) -> (r: String)
        ensures
            r@ == cmd1(button.spec_name(), dec(state as nat)),
    {
        let mut s = owned(".");
        push_str(&mut s, Self::button_name(button));
        push_str(&mut s, "(");
        push_decimal(&mut s, state as u64);
        push_str(&mut s, ")\r\n");
        assert(s@ =~= cmd1(button.spec_name(), dec(state as nat)));
        s
    }

    pub fn build_click_command(button: MouseButtons, count: u8) -> (r: String)
        ensures
            r@ == cmd2("click"@, dec(button.spec_code() as nat), dec(count as nat)),
    {
        let mut s = owned(".click(");
        push_decimal(&mut s, button.code() as u64);
        push_str(&mut s, ",");
        push_decimal(&mut s, count as u64);
        push_str(&mut s, ")\r\n");
        assert(s@ =~= cmd2("click"@, dec(button.spec_code() as nat), dec(count as nat))) by {
            reveal_strlit(".click(");
            reveal_strlit(".");
            reveal_strlit("click");
            reveal_strlit("(");
        }
        s
    }

    pub fn build_click_with_delay_command(button: MouseButtons, count: u8, delay_ms: u16) -> (r:
        MakcuResult<String>)
        ensures
            delay_ms > MAX_DELAY_MS <==> r is Err,
            r matches Err(e) ==> e matches MakcuError::InvalidParameter(m) && m@
                == "延迟不能超过5000ms"@,
            r matches Ok(c) ==> c@ == cmd3(
                "click"@,
                dec(button.spec_code() as nat),
                dec(count as nat),
                dec(delay_ms as nat),
            ),
    {
        if delay_ms > MAX_DELAY_MS {
            return Err(delay_error());
        }
        let mut s = owned(".click(");
        push_decimal(&mut s, button.code() as u64);
        push_str(&mut s, ",");
        push_decimal(&mut s, count as u64);
        push_str(&mut s, ",");
        push_decimal(&mut s, delay_ms as u64);
        push_str(&mut s, ")\r\n");
        assert(s@ =~= cmd3(
            "click"@,
            dec(button.spec_code() as nat),
            dec(count as nat),
            dec(delay_ms as nat),
        )) by {
            reveal_strlit(".click(");
            reveal_strlit(".");
            reveal_strlit("click");
            reveal_strlit("(");
        }
        Ok(s)
    }

    pub fn build_turbo_command(button: MouseButtons, delay_ms: u16) -> (r: MakcuResult<String>)
        ensures
            delay_ms > MAX_DELAY_MS <==> r is Err,
            r matches Err(e) ==> e matches MakcuError::InvalidParameter(m) && m@
                == "延迟不能超过5000ms"@,
            r matches Ok(c) ==> c@ == cmd2(
                "turbo"@,
                dec(button.spec_code() as nat),
                dec(delay_ms as nat),
            ),
    {
        if delay_ms > MAX_DELAY_MS {
            return Err(delay_error());
        }
        let mut s = owned(".turbo(");
        push_decimal(&mut s, button.code() as u64);
        push_str(&mut s, ",");
        push_decimal(&mut s, delay_ms as u64);
        push_str(&mut s, ")\r\n");
        assert(s@ =~= cmd2("turbo"@, dec(button.spec_code() as nat), dec(delay_ms as nat))) by {
            reveal_strlit(".turbo(");
            reveal_strlit(".");
            reveal_strlit("turbo");
            reveal_strlit("(");
        }
        Ok(s)
    }

    pub fn build_disable_turbo_command(button: MouseButtons) -> (r: String)
        ensures
            r@ == cmd2("turbo"@, dec(button.spec_code() as nat), "0"@),
    {
        let mut s = owned(".turbo(");
        push_decimal(&mut s, button.code() as u64);
        push_str(&mut s, ",0)\r\n");
        assert(s@ =~= cmd2("turbo"@, dec(button.spec_code() as nat), "0"@)) by {
            reveal_strlit(".turbo(");
            reveal_strlit(".");
            reveal_strlit("turbo");
            reveal_strlit("(");
            reveal_strlit(",0)\r\n");
            reveal_strlit(",");
            reveal_strlit("0");
            reveal_strlit(")\r\n");
        }
        s
    }

    pub fn build_disable_all_turbo_command() -> (r: String)
        ensures
            r@ == ".turbo(0)\r\n"@,
    {
        owned(".turbo(0)\r\n")
    }

    /// Relative move by `(dx, dy)` in `segments` steps (1 when absent), along
    /// an optional Bezier curve.
    pub fn build_move_command(
        dx: i16,
        dy: i16,
        segments: Option<u16>,
        control_points: Option<[(i16, i16); 2]>,
    ) -> (r: MakcuResult<String>)
        ensures
            ({
                let seg = match segments {
                    Some(n) => n,
                    None => 1,
                };
                &&& seg > MAX_SEGMENTS <==> r is Err
                &&& r matches Err(e) ==> e matches MakcuError::InvalidParameter(m) && m@
                    == "分段数不能超过512"@
                &&& r matches Ok(c) ==> c@ == ".move("@ + dec_int(dx as int) + ","@ + dec_int(
                    dy as int,
                ) + ","@ + dec(seg as nat) + control_text(control_points) + ")\r\n"@
            }),
    {
        let segments = match segments {
            Some(n) => n,
            None => 1,
        };
        if segments > MAX_SEGMENTS {
            return Err(segments_error());
        }
        let mut cmd = owned(".move(");
        push_signed(&mut cmd, dx as i64);
        push_str(&mut cmd, ",");
        push_signed(&mut cmd, dy as i64);
        push_str(&mut cmd, ",");
        push_decimal(&mut cmd, segments as u64);
        push_control_points(&mut cmd, control_points);
        push_str(&mut cmd, ")\r\n");
        Ok(cmd)
    }

    /// Absolute move to `(x, y)`; otherwise as `build_move_command`.
    pub fn build_moveto_command(
        x: u16,
        y: u16,
        segments: Option<u16>,
        control_points: Option<[(i16, i16); 2]>,
    ) -> (r: MakcuResult<String>)
        ensures
            ({
                let seg = match segments {
                    Some(n) => n,
                    None => 1,
                };
                &&& seg > MAX_SEGMENTS <==> r is Err
                &&& r matches Err(e) ==> e matches MakcuError::InvalidParameter(m) && m@
                    == "分段数不能超过512"@
                &&& r matches Ok(c) ==> c@ == ".moveto("@ + dec(x as nat) + ","@ + dec(y as nat)
                    + ","@ + dec(seg as nat) + control_text(control_points) + ")\r\n"@
            }),
    {
        let segments = match segments {
            Some(n) => n,
            None => 1,
        };
        if segments > MAX_SEGMENTS {
            return Err(segments_error());
        }
        let mut cmd = owned(".moveto(");
        push_decimal(&mut cmd, x as u64);
        push_str(&mut cmd, ",");
        push_decimal(&mut cmd, y as u64);
        push_str(&mut cmd, ",");
        push_decimal(&mut cmd, segments as u64);
        push_control_points(&mut cmd, control_points);
        push_str(&mut cmd, ")\r\n");
        Ok(cmd)
    }

    /// One wheel notch in the direction of `delta` (none for 0).
    pub fn build_wheel_command(delta: i8) -> (r: String)
        ensures
            r@ == ".wheel("@ + dec_int(
                if delta > 0 {
                    1
                } else if delta < 0 {
                    -1
                } else {
                    0
                },
            ) + ")\r\n"@,
    {
        let clamped: i64 = if delta > 0 {
            1
        } else if delta < 0 {
            -1
        } else {
            0
        };
        let mut s = owned(".wheel(");
        push_signed(&mut s, clamped);
        push_str(&mut s, ")\r\n");
        s
    }

    pub fn build_pan_command(steps: i16) -> (r: String)
        ensures
            r@ == ".pan("@ + dec_int(steps as int) + ")\r\n"@,
    {
        let mut s = owned(".pan(");
        push_signed(&mut s, steps as i64);
        push_str(&mut s, ")\r\n");
        s
    }

    pub fn build_tilt_command(steps: i16) -> (r: String)
        ensures
            r@ == ".tilt("@ + dec_int(steps as int) + ")\r\n"@,
    {
        let mut s = owned(".tilt(");
        push_signed(&mut s, steps as i64);
        push_str(&mut s, ")\r\n");
        s
    }

    pub fn build_getpos_command() -> (r: String)
        ensures
            r@ == ".getpos()\r\n"@,
    {
        owned(".getpos()\r\n")
    }

    pub fn build_silent_command(x: u16, y: u16) -> (r: String)
        ensures
            r@ == ".silent("@ + dec(x as nat) + ","@ + dec(y as nat) + ")\r\n"@,
    {
        let mut s = owned(".silent(");
        push_decimal(&mut s, x as u64);
        push_str(&mut s, ",");
        push_decimal(&mut s, y as u64);
        push_str(&mut s, ")\r\n");
        s
    }

    /// Locks or unlocks one direction of an axis; the pan and tilt axes
    /// cannot be locked and give an empty command.
    pub fn build_lock_axis_command(axis: MouseAxis, direction: LockDirection, state: LockState) -> (r:
        String)
        ensures
            ({
                let suffix = match direction {
                    LockDirection::Both => ""@,
                    LockDirection::Positive => "+"@,
                    LockDirection::Negative => "-"@,
                };
                let name = match axis {
                    MouseAxis::X => "mx"@,
                    MouseAxis::Y => "my"@,
                    _ => "mw"@,
                };
                if axis is Pan || axis is Tilt {
                    r@.len() == 0
                } else {
                    r@ == ".lock_"@ + name + suffix + "("@ + dec(state.spec_code() as nat)
                        + ")\r\n"@
                }
            }),
    {
        let axis_name = match axis {
            MouseAxis::X => "mx",
            MouseAxis::Y => "my",
            MouseAxis::Wheel => "mw",
            MouseAxis::Pan | MouseAxis::Tilt => {
                return String::new();
            },
        };
        let direction_suffix = match direction {
            LockDirection::Both => "",
            LockDirection::Positive => "+",
            LockDirection::Negative => "-",
        };
        let mut s = owned(".lock_");
        push_str(&mut s, axis_name);
        push_str(&mut s, direction_suffix);
        push_str(&mut s, "(");
        push_decimal(&mut s, state.code() as u64);
        push_str(&mut s, ")\r\n");
        s
    }

    pub fn build_lock_button_command(button: MouseButtons, state: LockState) -> (r: String)
        ensures
            r@ == ".lock_"@ + button.spec_short() + "("@ + dec(state.spec_code() as nat) + ")\r\n"@,
    {
        let mut s = owned(".lock_");
        push_str(&mut s, Self::button_short_name(button));
        push_str(&mut s, "(");
        push_decimal(&mut s, state.code() as u64);
        push_str(&mut s, ")\r\n");
        s
    }

    pub fn build_catch_command(button: MouseButtons, mode: u8) -> (r: String)
        ensures
            r@ == ".catch_"@ + button.spec_short() + "("@ + dec(mode as nat) + ")\r\n"@,
    {
        let mut s = owned(".catch_");
        push_str(&mut s, Self::button_short_name(button));
        push_str(&mut s, "(");
        push_decimal(&mut s, mode as u64);
        push_str(&mut s, ")\r\n");
        s
    }

    pub fn build_remap_button_command(src: MouseButtons, dst: MouseButtons) -> (r: String)
        ensures
            r@ == ".remap_button("@ + dec(src.spec_code() as nat) + ","@ + dec(
                dst.spec_code() as nat,
            ) + ")\r\n"@,
    {
        let mut s = owned(".remap_button(");
        push_decimal(&mut s, src.code() as u64);
        push_str(&mut s, ",");
        push_decimal(&mut s, dst.code() as u64);
        push_str(&mut s, ")\r\n");
        s
    }

    pub fn build_reset_button_remap_command() -> (r: String)
        ensures
            r@ == ".remap_button(0)\r\n"@,
    {
        owned(".remap_button(0)\r\n")
    }

    pub fn build_remap_axis_command(invert_x: bool, invert_y: bool, swap_xy: bool) -> (r: String)
        ensures
            r@ == ".remap_axis("@ + bit(invert_x) + ","@ + bit(invert_y) + ","@ + bit(swap_xy)
                + ")\r\n"@,
    {
        let mut s = owned(".remap_axis(");
        push_bit(&mut s, invert_x);
        push_str(&mut s, ",");
        push_bit(&mut s, invert_y);
        push_str(&mut s, ",");
        push_bit(&mut s, swap_xy);
        push_str(&mut s, ")\r\n");
        s
    }

    pub fn build_reset_axis_remap_command() -> (r: String)
        ensures
            r@ == ".remap_axis(0)\r\n"@,
    {
        owned(".remap_axis(0)\r\n")
    }

    pub fn button_name(button: MouseButtons) -> (r: &'static str)
        ensures
            r@ == button.spec_name(),
    {
        match button {
            MouseButtons::Left => "left",
            MouseButtons::Right => "right",
            MouseButtons::Middle => "middle",
            MouseButtons::Side1 => "side1",
            MouseButtons::Side2 => "side2",
        }
    }

    fn button_short_name(button: MouseButtons) -> (r: &'static str)
        ensures
            r@ == button.spec_short(),
    {
        match button {
            MouseButtons::Left => "ml",
            MouseButtons::Middle => "mm",
            MouseButtons::Right => "mr",
            MouseButtons::Side1 => "ms1",
            MouseButtons::Side2 => "ms2",
        }
    }
}

} // verus!
