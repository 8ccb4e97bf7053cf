//! Binary frames understood by the HID bridge: a head byte, an event type,
//! a six-byte payload, a little-endian delay and a tail byte.

use vstd::prelude::*;
use byteorder::{LittleEndian, WriteBytesExt};

verus! {

pub const FRAME_HEAD: u8 = 0xAA;
pub const FRAME_TAIL: u8 = 0x55;
/// Largest relative motion one frame carries on each axis.
pub const MAX_STEP: i32 = 127;

#[derive(Debug, Clone, Copy, PartialEq, Eq, Structural)]
pub enum EventType {
    Keyboard,
    MouseRel,
    MouseAbs,
    System,
}

#[derive(Debug, Clone, Copy, PartialEq, Eq, Structural)]
pub enum SystemCmd {
    SetId,
    Heartbeat,
}

impl EventType {
    pub open spec fn spec_code(self) -> u8 {
        match self {
            EventType::Keyboard => 0x01,
            EventType::MouseRel => 0x02,
            EventType::MouseAbs => 0x03,
            EventType::System => 0x04,
        }
    }

    pub fn code(self) -> (r: u8)
        ensures
            r == self.spec_code(),
    {
        match self {
            EventType::Keyboard => 0x01,
            EventType::MouseRel => 0x02,
            EventType::MouseAbs => 0x03,
            EventType::System => 0x04,
        }
    }
}

impl SystemCmd {
    pub open spec fn spec_code(self) -> u8 {
        match self {
            SystemCmd::SetId => 0x10,
            SystemCmd::Heartbeat => 0xFF,
        }
    }

    pub fn code(self) -> (r: u8)
        ensures
            r == self.spec_code(),
    {
        match self {
            SystemCmd::SetId => 0x10,
            SystemCmd::Heartbeat => 0xFF,
        }
    }
}

/// Relies on byteorder's `WriteBytesExt::write_u16::<LittleEndian>`, which
/// appends the two bytes of `n.to_le_bytes()`; writing to a `Vec` cannot fail.
#[verifier::external_body]
fn push_u16_le(frame: &mut Vec<u8>, n: u16)
    ensures
        final(frame)@ == old(frame)@ + seq![(n % 256) as u8, (n / 256) as u8],
{
    let _ = frame.write_u16::<LittleEndian>(n);
}

pub open spec fn frame_bytes(event: EventType, b: [u8; 6], delay_ms: u16) -> Seq<u8> {
    seq![FRAME_HEAD, event.spec_code()] + b@ + seq![
        (delay_ms % 256) as u8,
        (delay_ms / 256) as u8,
        FRAME_TAIL,
    ]
}

/// The eleven bytes of one frame.
pub fn encode_frame(event: EventType, b: [u8; 6], delay_ms: u16) -> (r: Vec<u8>)
    ensures
        r@ == frame_bytes(event, b, delay_ms),
{
    let mut frame: Vec<u8> = Vec::new();
    frame.push(FRAME_HEAD);
    frame.push(event.code());
    let mut i: usize = 0;
    while i < 6
        invariant
            i <= 6,
            frame@ == seq![FRAME_HEAD, event.spec_code()] + b@.subrange(0, i as int),
        decreases 6 - i,
    {
        frame.push(b[i]);
        i = i + 1;
    }
    assert(b@.subrange(0, 6) =~= b@);
    push_u16_le(&mut frame, delay_ms);
    frame.push(FRAME_TAIL);
    assert(frame@ =~= frame_bytes(event, b, delay_ms));
    frame
}

/// Payload of the keep-alive signal.
pub fn heartbeat_payload() -> (r: [u8; 6])
    ensures
        r@ == seq![SystemCmd::Heartbeat.spec_code(), 0u8, 0, 0, 0, 0],
{
    [SystemCmd::Heartbeat.code(), 0, 0, 0, 0, 0]
}

/// Payload that switches the bridge to identity `index`.
pub fn switch_identity_payload(index: u8) -> (r: [u8; 6])
    ensures
        r@ == seq![SystemCmd::SetId.spec_code(), index, 0, 0, 0, 0],
{
    [SystemCmd::SetId.code(), index, 0, 0, 0, 0]
}

pub open spec fn clamp_abs(t: u16) -> u16 {
    if t < 10 {
        10
    } else if t > 32757 {
        32757
    } else {
        t
    }
}

/// Payload of an absolute move to the scaled point `(tx, ty)` on the
/// `0..=32767` grid, kept 10 units away from the edges.
pub fn mouse_abs_payload(tx: u16, ty: u16) -> (r: [u8; 6])
    ensures
        r@ == seq![
            0u8,
            0,
            (clamp_abs(tx) % 256) as u8,
            (clamp_abs(tx) / 256) as u8,
            (clamp_abs(ty) % 256) as u8,
            (clamp_abs(ty) / 256) as u8,
        ],
{
    let tx = if tx < 10 {
        10
    } else if tx > 32757 {
        32757
    } else {
        tx
    };
    let ty = if ty < 10 {
        10
    } else if ty > 32757 {
        32757
    } else {
        ty
    };
    [0, 0, (tx % 256) as u8, (tx / 256) as u8, (ty % 256) as u8, (ty / 256) as u8]
}

/// Button mask of a press: bit 0 left, bit 1 right.
pub fn mouse_down_payload(left: bool, right: bool) -> (r: [u8; 6])
    ensures
        r@ == seq![
            ((if left {
                1int
            } else {
                0
            }) + (if right {
                2int
            } else {
                0
            })) as u8,
            0u8,
            0,
            0,
            0,
            0,
        ],
{
    let mut mask: u8 = 0;
    if left {
        mask = mask + 1;
    }
    if right {
        mask = mask + 2;
    }
    [mask, 0, 0, 0, 0, 0]
}

pub fn mouse_up_payload() -> (r: [u8; 6])
    ensures
        r@ == seq![0u8, 0, 0, 0, 0, 0],
{
    [0, 0, 0, 0, 0, 0]
}

pub fn key_down_payload(keycode: u8, modifier: u8) -> (r: [u8; 6])
    ensures
        r@ == seq![keycode, 0x00u8, modifier, 0, 0, 0],
{
    [keycode, 0x00, modifier, 0, 0, 0]
}

pub fn key_up_payload() -> (r: [u8; 6])
    ensures
        r@ == seq![0u8, 0x80u8, 0, 0, 0, 0],
{
    [0, 0x80, 0, 0, 0, 0]
}

/// One step from `rem` towards 0, at most `MAX_STEP` long.
pub open spec fn step_of(rem: int) -> int {
    if rem > MAX_STEP {
        MAX_STEP as int
    } else if rem < -MAX_STEP {
        -MAX_STEP
    } else {
        rem
    }
}

/// The steps that move by `(dx, dy)`, each axis moving by at most
/// `MAX_STEP` per step, until both are covered.
pub open spec fn move_steps(dx: int, dy: int) -> Seq<(int, int)>
    decreases (if dx < 0 {
        -dx
    } else {
        dx
    }) + (if dy < 0 {
        -dy
    } else {
        dy
    }),
{
    if dx == 0 && dy == 0 {
        seq![]
    } else {
        seq![(step_of(dx), step_of(dy))] + move_steps(dx - step_of(dx), dy - step_of(dy))
    }
}

/// Low and high byte of a small signed value in two's complement.
pub open spec fn le16(v: int) -> (u8, u8) {
    let u = if v < 0 {
        v + 65536
    } else {
        v
    };
    ((u % 256) as u8, (u / 256) as u8)
}

pub open spec fn step_payload(s: (int, int)) -> Seq<u8> {
    seq![0u8, 0, le16(s.0).0, le16(s.0).1, le16(s.1).0, le16(s.1).1]
}

fn le16_exec(v: i32) -> (r: (u8, u8))
    requires
        -MAX_STEP <= v <= MAX_STEP,
    ensures
        r == le16(v as int),
{
    let u: i32 = if v < 0 {
        v + 65536
    } else {
        v
    };
    ((u % 256) as u8, (u / 256) as u8)
}

/// Payloads of a relative mouse motion by `(dx, dy)` with wheel motion
/// `wheel`: a wheel-only payload first when `wheel != 0`, then one payload
/// per step of `move_steps(dx, dy)`.
pub fn relative_move_payloads(dx: i32, dy: i32, wheel: i8) -> (r: Vec<[u8; 6]>)
    ensures
        ({
            let first = if wheel != 0 {
                1int
            } else {
                0
            };
            let steps = move_steps(dx as int, dy as int);
            &&& r@.len() == first + steps.len()
            &&& wheel != 0 ==> r@[0]@ == seq![0u8, wheel as u8, 0, 0, 0, 0]
            &&& forall|k: int| 0 <= k < steps.len() ==> (#[trigger] r@[first + k])@ == step_payload(steps[k])
        }),
{
    let mut out: Vec<[u8; 6]> = Vec::new();
    if wheel != 0 {
        out.push([0, wheel as u8, 0, 0, 0, 0]);
    }
    let ghost first: int = if wheel != 0 {
        1
    } else {
        0
    };
    let ghost all = move_steps(dx as int, dy as int);
    let mut cur_dx: i32 = dx;
    let mut cur_dy: i32 = dy;
    let ghost done: int = 0;
    while cur_dx != 0 || cur_dy != 0
        invariant
            0 <= done <= all.len(),
            out@.len() == first + done,
            all.subrange(done, all.len() as int) == move_steps(cur_dx as int, cur_dy as int),
            wheel != 0 ==> out@[0]@ == seq![0u8, wheel as u8, 0, 0, 0, 0],
            forall|k: int| 0 <= k < done ==> (#[trigger] out@[first + k])@ == step_payload(all[k]),
            all == move_steps(dx as int, dy as int),
            first == (if wheel != 0 {
                1int
            } else {
                0
            }),
        decreases (if cur_dx < 0 {
            -(cur_dx as int)
        } else {
            cur_dx as int
        }) + (if cur_dy < 0 {
            -(cur_dy as int)
        } else {
            cur_dy as int
        }),
    {
        let step_x: i32 = if cur_dx > MAX_STEP {
            MAX_STEP
        } else if cur_dx < -MAX_STEP {
            -MAX_STEP
        } else {
            cur_dx
        };
        let step_y: i32 = if cur_dy > MAX_STEP {
            MAX_STEP
        } else if cur_dy < -MAX_STEP {
            -MAX_STEP
        } else {
            cur_dy
        };
        let bx = le16_exec(step_x);
        let by = le16_exec(step_y);
        proof {
            let rest = all.subrange(done, all.len() as int);
            assert(rest == move_steps(cur_dx as int, cur_dy as int));
            assert(rest.len() > 0);
            assert(done < all.len());
            assert(rest[0] == (step_x as int, step_y as int));
            assert(all[done] == rest[0]);
            assert(all.subrange(done + 1, all.len() as int) =~= rest.drop_first());
        }
        out.push([0, 0, bx.0, bx.1, by.0, by.1]);
        cur_dx = cur_dx - step_x;
        cur_dy = cur_dy - step_y;
        proof {
            done = done + 1;
        }
    }
    proof {
        assert(move_steps(0, 0).len() == 0);
    }
    out
}

/// HID usage code of a key character: letters of either case, digits and
/// space; 0 for anything else.
pub open spec fn hid_code(c: char) -> u8 {
    if 'a' <= c <= 'z' {
        (c as u32 - 'a' as u32 + 0x04) as u8
    } else if 'A' <= c <= 'Z' {
        (c as u32 - 'A' as u32 + 0x04) as u8
    } else if '1' <= c <= '9' {
        (c as u32 - '1' as u32 + 0x1E) as u8
    } else if c == '0' {
        0x27
    } else if c == ' ' {
        0x2C
    } else {
        0
    }
}

/// HID usage code of a key character (see `hid_code`).
pub fn char_to_keycode(ch: char) -> (r: u8)
    ensures
        r == hid_code(ch),
{
    if 'a' <= ch && ch <= 'z' {
        (ch as u32 - 'a' as u32 + 0x04) as u8
    } else if 'A' <= ch && ch <= 'Z' {
        (ch as u32 - 'A' as u32 + 0x04) as u8
    } else if '1' <= ch && ch <= '9' {
        (ch as u32 - '1' as u32 + 0x1E) as u8
    } else if ch == '0' {
        0x27
    } else if ch == ' ' {
        0x2C
    } else {
        0
    }
}

/// HID usage code of a key named in a preparation script.
pub fn get_hid_code(c: char) -> (r: u8)
    ensures
        r == hid_code(c),
{
    char_to_keycode(c)
}

} // verus!
