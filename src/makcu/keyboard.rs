//! Keyboard commands.

use vstd::prelude::*;
use crate::makcu::error::{MakcuError, MakcuResult};
use crate::text::{char_string, dec, owned, push_decimal, push_str};

verus! {

#[derive(Debug, Clone, Copy, PartialEq, Eq, Structural)]
pub enum Key {
    Letter(char),
    Number(char),
    Function(u8),
    System(SystemKey),
    Modifier(ModifierKey),
}

#[derive(Debug, Clone, Copy, PartialEq, Eq, Structural)]
pub enum SystemKey {
    Enter,
    Escape,
    Backspace,
    Tab,
    Space,
    PrintScreen,
    ScrollLock,
    Pause,
    Insert,
    Home,
    PageUp,
    Delete,
    End,
    PageDown,
    Right,
    Left,
    Down,
    Up,
    NumLock,
}

#[derive(Debug, Clone, Copy, PartialEq, Eq, Structural)]
pub enum ModifierKey {
    LeftCtrl,
    RightCtrl,
    LeftShift,
    RightShift,
    LeftAlt,
    RightAlt,
    LeftGui,
    RightGui,
}

/// Longest text the device types in one command, in bytes.
pub const MAX_STRING_BYTES: usize = 256;

pub open spec fn system_key_text(k: SystemKey) -> Seq<char> {
    match k {
        SystemKey::Enter => "enter"@,
        SystemKey::Escape => "escape"@,
        SystemKey::Backspace => "backspace"@,
        SystemKey::Tab => "tab"@,
        SystemKey::Space => "space"@,
        SystemKey::PrintScreen => "printscreen"@,
        SystemKey::ScrollLock => "scrolllock"@,
        SystemKey::Pause => "pause"@,
        SystemKey::Insert => "insert"@,
        SystemKey::Home => "home"@,
        SystemKey::PageUp => "pageup"@,
        SystemKey::Delete => "delete"@,
        SystemKey::End => "end"@,
        SystemKey::PageDown => "pagedown"@,
        SystemKey::Right => "right"@,
        SystemKey::Left => "left"@,
        SystemKey::Down => "down"@,
        SystemKey::Up => "up"@,
        SystemKey::NumLock => "numlock"@,
    }
}

/// Left and right modifiers share one name.
pub open spec fn modifier_key_text(k: ModifierKey) -> Seq<char> {
    match k {
        ModifierKey::LeftCtrl | ModifierKey::RightCtrl => "ctrl"@,
        ModifierKey::LeftShift | ModifierKey::RightShift => "shift"@,
        ModifierKey::LeftAlt | ModifierKey::RightAlt => "alt"@,
        ModifierKey::LeftGui | ModifierKey::RightGui => "win"@,
    }
}

/// How a key is named in commands.
pub open spec fn key_text(k: Key) -> Seq<char> {
    match k {
        Key::Letter(c) => seq![c],
        Key::Number(c) => seq![c],
        Key::Function(n) => "f"@ + dec(n as nat),
        Key::System(s) => system_key_text(s),
        Key::Modifier(m) => modifier_key_text(m),
    }
}

/// `".name(key)\r\n"`
pub open spec fn key_cmd(name: Seq<char>, k: Key) -> Seq<char> {
    "."@ + name + "("@ + key_text(k) + ")\r\n"@
}

/// Names of `keys`, separated by commas.
pub open spec fn key_list(keys: Seq<Key>) -> Seq<char>
    decreases keys.len(),
{
    if keys.len() == 0 {
        seq![]
    } else if keys.len() == 1 {
        key_text(keys[0])
    } else {
        key_list(keys.drop_last()) + ","@ + key_text(keys.last())
    }
}

#[derive(Debug, Clone, Copy, PartialEq, Eq, Structural)]
pub struct KeyboardControl;

impl KeyboardControl {
    pub fn build_down_command(key: Key) -> (r: String)
        ensures
            r@ == key_cmd("down"@, key),
    {
        let mut s = owned(".down(");
        push_str(&mut s, Self::key_to_string(key).as_str());
        push_str(&mut s, ")\r\n");
        assert(s@ =~= key_cmd("down"@, key)) by {
            reveal_strlit(".down(");
            reveal_strlit(".");
            reveal_strlit("down");
            reveal_strlit("(");
        }
        s
    }

    pub fn build_up_command(key: Key) -> (r: String)
        ensures
            r@ == key_cmd("up"@, key),
    {
        let mut s = owned(".up(");
        push_str(&mut s, Self::key_to_string(key).as_str());
        push_str(&mut s, ")\r\n");
        assert(s@ =~= key_cmd("up"@, key)) by {
            reveal_strlit(".up(");
            reveal_strlit(".");
            reveal_strlit("up");
            reveal_strlit("(");
        }
        s
    }

    /// Press of `key`, with an optional hold time and random extra time.
    pub fn build_press_command(key: Key, hold_ms: Option<u16>, rand_ms: Option<u8>) -> (r: MakcuResult<String>)
        ensures
            r matches Ok(c) && c@ == ".press("@ + key_text(key) + (match hold_ms {
                Some(h) => ","@ + dec(h as nat),
                None => seq![],
            }) + (match rand_ms {
                Some(x) => ","@ + dec(x as nat),
                None => seq![],
            }) + ")\r\n"@,
    {
        let mut cmd = owned(".press(");
        push_str(&mut cmd, Self::key_to_string(key).as_str());
        let ghost after_key = cmd@;
        if let Some(hold) = hold_ms {
            push_str(&mut cmd, ",");
            push_decimal(&mut cmd, hold as u64);
        }
        let ghost after_hold = cmd@;
        if let Some(rand) = rand_ms {
            push_str(&mut cmd, ",");
            push_decimal(&mut cmd, rand as u64);
        }
        let ghost after_rand = cmd@;
        push_str(&mut cmd, ")\r\n");
        proof {
            assert(after_hold =~= after_key + (match hold_ms {
                Some(h) => ","@ + dec(h as nat),
                None => seq![],
            }));
            assert(after_rand =~= after_hold + (match rand_ms {
                Some(x) => ","@ + dec(x as nat),
                None => seq![],
            }));
        }
        Ok(cmd)
    }

    /// Types `text`, which may be at most 256 bytes long.
    pub fn build_string_command(text: &str) -> (r: MakcuResult<String>)
        ensures
            text.len() > MAX_STRING_BYTES <==> r is Err,
            r matches Err(e) ==> e matches MakcuError::InvalidParameter(m) && m@
                == "字符串长度不能超过256个字符"@,
            r matches Ok(c) ==> c@ == ".string("@ + text@ + ")\r\n"@,
    {
        if text.len() > MAX_STRING_BYTES {
            return Err(MakcuError::InvalidParameter(owned("字符串长度不能超过256个字符")));
        }
        let mut s = owned(".string(");
        push_str(&mut s, text);
        push_str(&mut s, ")\r\n");
        Ok(s)
    }

    pub fn build_init_command() -> (r: String)
        ensures
            r@ == ".init()\r\n"@,
    {
        owned(".init()\r\n")
    }

    pub fn build_isdown_command(key: Key) -> (r: String)
        ensures
            r@ == key_cmd("isdown"@, key),
    {
        let mut s = owned(".isdown(");
        push_str(&mut s, Self::key_to_string(key).as_str());
        push_str(&mut s, ")\r\n");
        assert(s@ =~= key_cmd("isdown"@, key)) by {
            reveal_strlit(".isdown(");
            reveal_strlit(".");
            reveal_strlit("isdown");
            reveal_strlit("(");
        }
        s
    }

    /// Disables the listed keys; with no keys, the command without arguments.
    pub fn build_disable_command(keys: Vec<Key>) -> (r: String)
        ensures
            r@ == ".disable("@ + key_list(keys@) + ")\r\n"@,
    {
        let mut s = owned(".disable(");
        let ghost s0 = s@;
        let mut i: usize = 0;
        while i < keys.len()
            invariant
                i <= keys@.len(),
                s@ == s0 + key_list(keys@.subrange(0, i as int)),
            decreases keys@.len() - i,
        {
            if i > 0 {
                push_str(&mut s, ",");
            }
            push_str(&mut s, Self::key_to_string(keys[i]).as_str());
            proof {
                let sub = keys@.subrange(0, i + 1);
                assert(sub.drop_last() =~= keys@.subrange(0, i as int));
                if i == 0 {
                    assert(s@ =~= s0 + key_list(sub));
                } else {
                    assert(s@ =~= s0 + key_list(sub));
                }
            }
            i = i + 1;
        }
        assert(keys@.subrange(0, keys@.len() as int) =~= keys@);
        push_str(&mut s, ")\r\n");
        s
    }

    /// Enables `key` again.
    pub fn build_enable_command(key: Key) -> (r: String)
        ensures
            r@ == ".disable("@ + key_text(key) + ",0)\r\n"@,
    {
        let mut s = owned(".disable(");
        push_str(&mut s, Self::key_to_string(key).as_str());
        push_str(&mut s, ",0)\r\n");
        s
    }

    pub fn build_mask_command(key: Key, mode: u8) -> (r: String)
        ensures
            r@ == ".mask("@ + key_text(key) + ","@ + dec(mode as nat) + ")\r\n"@,
    {
        let mut s = owned(".mask(");
        push_str(&mut s, Self::key_to_string(key).as_str());
        push_str(&mut s, ",");
        push_decimal(&mut s, mode as u64);
        push_str(&mut s, ")\r\n");
        s
    }

    pub fn build_remap_command(source: Key, target: Key) -> (r: String)
        ensures
            r@ == ".remap("@ + key_text(source) + ","@ + key_text(target) + ")\r\n"@,
    {
        let mut s = owned(".remap(");
        push_str(&mut s, Self::key_to_string(source).as_str());
        push_str(&mut s, ",");
        push_str(&mut s, Self::key_to_string(target).as_str());
        push_str(&mut s, ")\r\n");
        s
    }

    pub fn build_clear_remap_command(key: Key) -> (r: String)
        ensures
            r@ == ".remap("@ + key_text(key) + ",0)\r\n"@,
    {
        let mut s = owned(".remap(");
        push_str(&mut s, Self::key_to_string(key).as_str());
        push_str(&mut s, ",0)\r\n");
        s
    }

    pub fn build_reset_remap_command() -> (r: String)
        ensures
            r@ == ".remap(0)\r\n"@,
    {
        owned(".remap(0)\r\n")
    }

    pub fn key_to_string(key: Key) -> (r: String)
        ensures
            r@ == key_text(key),
    {
        match key {
            Key::Letter(c) => char_string(c),
            Key::Number(c) => char_string(c),
            Key::Function(n) => {
                let mut s = owned("f");
                push_decimal(&mut s, n as u64);
                s
            },
            Key::System(s) => Self::system_key_to_string(s),
            Key::Modifier(m) => Self::modifier_key_to_string(m),
        }
    }

    pub fn system_key_to_string(key: SystemKey) -> (r: String)
        ensures
            r@ == system_key_text(key),
    {
        match key {
            SystemKey::Enter => owned("enter"),
            SystemKey::Escape => owned("escape"),
            SystemKey::Backspace => owned("backspace"),
            SystemKey::Tab => owned("tab"),
            SystemKey::Space => owned("space"),
            SystemKey::PrintScreen => owned("printscreen"),
            SystemKey::ScrollLock => owned("scrolllock"),
            SystemKey::Pause => owned("pause"),
            SystemKey::Insert => owned("insert"),
            SystemKey::Home => owned("home"),
            SystemKey::PageUp => owned("pageup"),
            SystemKey::Delete => owned("delete"),
            SystemKey::End => owned("end"),
            SystemKey::PageDown => owned("pagedown"),
            SystemKey::Right => owned("right"),
            SystemKey::Left => owned("left"),
            SystemKey::Down => owned("down"),
            SystemKey::Up => owned("up"),
            SystemKey::NumLock => owned("numlock"),
        }
    }

    pub fn modifier_key_to_string(key: ModifierKey) -> (r: String)
        ensures
            r@ == modifier_key_text(key),
    {
        match key {
            ModifierKey::LeftCtrl | ModifierKey::RightCtrl => owned("ctrl"),
            ModifierKey::LeftShift | ModifierKey::RightShift => owned("shift"),
            ModifierKey::LeftAlt | ModifierKey::RightAlt => owned("alt"),
            ModifierKey::LeftGui | ModifierKey::RightGui => owned("win"),
        }
    }
}

} // verus!
