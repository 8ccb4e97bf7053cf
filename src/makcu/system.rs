//! Device settings, information queries and input streams.

use vstd::prelude::*;
use crate::makcu::mouse::bit;
use crate::text::{char_string, chars_of, dec, owned, push_decimal, push_str, slice_is};
use vstd::string::*;

verus! {

/// `".name()\r\n"` without an argument, `".name(arg)\r\n"` with one.
pub open spec fn query_or_set(name: Seq<char>, arg: Option<Seq<char>>) -> Seq<char> {
    "."@ + name + "("@ + match arg {
        Some(a) => a,
        None => seq![],
    } + ")\r\n"@
}

pub open spec fn opt_dec(v: Option<u64>) -> Option<Seq<char>> {
    match v {
        Some(n) => Some(dec(n as nat)),
        None => None,
    }
}

pub open spec fn opt_bit(v: Option<bool>) -> Option<Seq<char>> {
    match v {
        Some(b) => Some(bit(b)),
        None => None,
    }
}

fn finish(s: &mut String)
    ensures
        final(s)@ == old(s)@ + ")\r\n"@,
{
    push_str(s, ")\r\n");
}

fn numeric(name: &str, v: Option<u64>) -> (r: String)
    ensures
        r@ == query_or_set(name@, opt_dec(v)),
{
    let mut s = owned(".");
    push_str(&mut s, name);
    push_str(&mut s, "(");
    if let Some(n) = v {
        push_decimal(&mut s, n);
    }
    finish(&mut s);
    proof {
        assert(s@ =~= query_or_set(name@, opt_dec(v)));
    }
    s
}

fn flag(name: &str, v: Option<bool>) -> (r: String)
    ensures
        r@ == query_or_set(name@, opt_bit(v)),
{
    let mut s = owned(".");
    push_str(&mut s, name);
    push_str(&mut s, "(");
    if let Some(b) = v {
        if b {
            push_str(&mut s, "1");
        } else {
            push_str(&mut s, "0");
        }
    }
    finish(&mut s);
    proof {
        assert(s@ =~= query_or_set(name@, opt_bit(v)));
    }
    s
}

/// `".name(mode,period)\r\n"`
pub open spec fn stream_cmd(name: Seq<char>, mode: u8, period: u16) -> Seq<char> {
    "."@ + name + "("@ + dec(mode as nat) + ","@ + dec(period as nat) + ")\r\n"@
}

fn stream(name: &str, mode: u8, period: u16) -> (r: String)
    ensures
        r@ == stream_cmd(name@, mode, period),
{
    let mut s = owned(".");
    push_str(&mut s, name);
    push_str(&mut s, "(");
    push_decimal(&mut s, mode as u64);
    push_str(&mut s, ",");
    push_decimal(&mut s, period as u64);
    finish(&mut s);
    s
}

/// The prompt that ends a response, with a CR LF or a bare LF line end.
pub const PROMPT_CRLF: &'static str = ">>>\r\n";
pub const PROMPT_LF: &'static str = ">>>\n";

pub open spec fn ends_with(s: Seq<char>, suf: Seq<char>) -> bool {
    s.len() >= suf.len() && s.subrange(s.len() - suf.len(), s.len() as int) == suf
}

/// `s` with every trailing repetition of the non-empty `suf` removed.
pub open spec fn strip_all_suffix(s: Seq<char>, suf: Seq<char>) -> Seq<char>
    decreases s.len(),
{
    if suf.len() > 0 && ends_with(s, suf) {
        strip_all_suffix(s.subrange(0, s.len() - suf.len()), suf)
    } else {
        s
    }
}

/// The response held by `buffer` once its closing prompt has arrived.
pub open spec fn response_of(buffer: Seq<char>) -> Option<Seq<char>> {
    if ends_with(buffer, PROMPT_CRLF@) || ends_with(buffer, PROMPT_LF@) {
        Some(strip_all_suffix(strip_all_suffix(buffer, PROMPT_CRLF@), PROMPT_LF@))
    } else {
        None
    }
}

fn ends_with_at(v: &Vec<char>, end: usize, suf: &str) -> (r: bool)
    requires
        end <= v@.len(),
    ensures
        r == ends_with(v@.subrange(0, end as int), suf@),
{
    let n = suf.unicode_len();
    if n > end {
        return false;
    }
    let r = slice_is(v, end - n, end, suf);
    proof {
        let t = v@.subrange(0, end as int);
        assert(t.subrange(t.len() - n, t.len() as int) =~= v@.subrange(end - n, end as int));
    }
    r
}

/// End of `v[..end]` once every trailing `suf` is removed.
fn strip_end(v: &Vec<char>, end: usize, suf: &str) -> (r: usize)
    requires
        end <= v@.len(),
    ensures
        r <= end,
        v@.subrange(0, r as int) == strip_all_suffix(v@.subrange(0, end as int), suf@),
{
    let n = suf.unicode_len();
    let mut e = end;
    while n > 0 && ends_with_at(v, e, suf)
        invariant
            e <= end <= v@.len(),
            n == suf@.len(),
            strip_all_suffix(v@.subrange(0, e as int), suf@) == strip_all_suffix(v@.subrange(0, end as int), suf@),
        decreases e,
    {
        proof {
            let t = v@.subrange(0, e as int);
            assert(t.subrange(0, t.len() - n) =~= v@.subrange(0, e - n));
        }
        e = e - n;
    }
    e
}

pub struct SystemControl;

impl SystemControl {
    /// Reads the serial text, or sets it.
    pub fn build_serial_command(text: Option<&str>) -> (r: String)
        ensures
            r@ == query_or_set("serial"@, match text {
                Some(t) => Some(t@),
                None => None,
            }),
    {
        let mut s = owned(".serial(");
        if let Some(t) = text {
            push_str(&mut s, t);
        }
        finish(&mut s);
        proof {
            reveal_strlit(".serial(");
            reveal_strlit(".");
            reveal_strlit("serial");
            reveal_strlit("(");
            assert(s@ =~= query_or_set("serial"@, match text {
                Some(t) => Some(t@),
                None => None,
            }));
        }
        s
    }

    pub fn build_log_command(level: Option<u8>) -> (r: String)
        ensures
            r@ == query_or_set("log"@, opt_dec(match level {
                Some(l) => Some(l as u64),
                None => None,
            })),
    {
        numeric("log", match level {
            Some(l) => Some(l as u64),
            None => None,
        })
    }

    pub fn build_echo_command(enable: Option<bool>) -> (r: String)
        ensures
            r@ == query_or_set("echo"@, opt_bit(enable)),
    {
        flag("echo", enable)
    }

    pub fn build_baud_command(rate: Option<u32>) -> (r: String)
        ensures
            r@ == query_or_set("baud"@, opt_dec(match rate {
                Some(b) => Some(b as u64),
                None => None,
            })),
    {
        numeric("baud", match rate {
            Some(b) => Some(b as u64),
            None => None,
        })
    }

    pub fn build_bypass_command(mode: Option<u8>) -> (r: String)
        ensures
            r@ == query_or_set("bypass"@, opt_dec(match mode {
                Some(m) => Some(m as u64),
                None => None,
            })),
    {
        numeric("bypass", match mode {
            Some(m) => Some(m as u64),
            None => None,
        })
    }

    pub fn build_hs_command(enable: Option<bool>) -> (r: String)
        ensures
            r@ == query_or_set("hs"@, opt_bit(enable)),
    {
        flag("hs", enable)
    }

    pub fn build_release_command(timer_ms: Option<u16>) -> (r: String)
        ensures
            r@ == query_or_set("release"@, opt_dec(match timer_ms {
                Some(t) => Some(t as u64),
                None => None,
            })),
    {
        numeric("release", match timer_ms {
            Some(t) => Some(t as u64),
            None => None,
        })
    }

    /// A command without arguments, such as `help`, `info` or `version`.
    pub fn build_plain_command(name: &str) -> (r: String)
        ensures
            r@ == query_or_set(name@, None),
    {
        numeric(name, None)
    }

    pub fn build_stream_keyboard_command(mode: u8, period: u16) -> (r: String)
        ensures
            r@ == stream_cmd("keyboard"@, mode, period),
    {
        stream("keyboard", mode, period)
    }

    pub fn build_stream_buttons_command(mode: u8, period_ms: u16) -> (r: String)
        ensures
            r@ == stream_cmd("buttons"@, mode, period_ms),
    {
        stream("buttons", mode, period_ms)
    }

    pub fn build_stream_axis_command(mode: u8, period_ms: u16) -> (r: String)
        ensures
            r@ == stream_cmd("axis"@, mode, period_ms),
    {
        stream("axis", mode, period_ms)
    }

    /// The response in `buffer` once the closing prompt has arrived, with
    /// the prompts at its end removed; `None` while it is incomplete.
    pub fn complete_response(buffer: &str) -> (r: Option<String>)
        ensures
            r matches Some(t) ==> response_of(buffer@) == Some(t@),
            r is None ==> response_of(buffer@) is None,
    {
        let v = chars_of(buffer);
        let n = v.len();
        proof {
            assert(v@.subrange(0, n as int) =~= buffer@);
        }
        if !(ends_with_at(&v, n, PROMPT_CRLF) || ends_with_at(&v, n, PROMPT_LF)) {
            return None;
        }
        let e1 = strip_end(&v, n, PROMPT_CRLF);
        let e2 = strip_end(&v, e1, PROMPT_LF);
        proof {
            assert(v@.subrange(0, e1 as int).subrange(0, e1 as int) =~= v@.subrange(0, e1 as int));
        }
        let mut out = String::new();
        let mut i: usize = 0;
        while i < e2
            invariant
                i <= e2 <= v@.len(),
                out@ == v@.subrange(0, i as int),
            decreases e2 - i,
        {
            let one = char_string(v[i]);
            out.append(one.as_str());
            proof {
                assert(v@.subrange(0, i + 1) =~= v@.subrange(0, i as int).push(v@[i as int]));
            }
            i = i + 1;
        }
        Some(out)
    }

    pub fn build_stream_mouse_command(mode: u8, period_ms: u16) -> (r: String)
        ensures
            r@ == stream_cmd("mouse"@, mode, period_ms),
    {
        stream("mouse", mode, period_ms)
    }
}

} // verus!
