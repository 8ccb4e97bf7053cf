//! Wave counter: reading it from recognised text, and accepting only
//! plausible transitions.

use vstd::prelude::*;
use crate::td::{InputAction, WaveStatus};

verus! {

/// Pattern of the HUD readout: the marker, then the wave number.
pub const HUD_WAVE_PATTERN: &'static str = "波次\\s*(\\d+)";
/// Pattern of the detail overlay: the wave number, OCR noise, then the marker.
pub const TAB_WAVE_PATTERN: &'static str = "(\\d+)[/\\dSI日]+.*波次";
/// HID usage code of the key that opens the detail overlay.
pub const KEY_TAB: u8 = 0x2B;
/// Minimum time between two accepted wave transitions, in ms.
pub const WAVE_COOLDOWN_MS: u64 = 60000;

/// Text of the first capture group of the leftmost match of `pattern` in
/// `text`; `None` when the pattern does not compile or does not match.
pub uninterp spec fn regex_group_one(pattern: Seq<char>, text: Seq<char>) -> Option<Seq<char>>;

/// Relies on `regex::Regex::new`, `Regex::captures` and `Captures::get(1)`:
/// the first group of the leftmost match, a function of pattern and text.
#[verifier::external_body]
fn first_capture(pattern: &str, text: &str) -> (r: Option<String>)
    ensures
        r matches Some(g) ==> regex_group_one(pattern@, text@) == Some(g@),
        r is None ==> regex_group_one(pattern@, text@) is None,
{
    let re = match regex::Regex::new(pattern) {
        Ok(re) => re,
        Err(_) => return None,
    };
    match re.captures(text) {
        Some(caps) => match caps.get(1) {
            Some(m) => Some(m.as_str().to_string()),
            None => None,
        },
        None => None,
    }
}

pub open spec fn is_ascii_digit(c: char) -> bool {
    '0' <= c <= '9'
}

pub open spec fn digit_value(c: char) -> int {
    c as int - '0' as int
}

/// Value of a string of ASCII digits, most significant first.
pub open spec fn digits_value(s: Seq<char>) -> int
    decreases s.len(),
{
    if s.len() == 0 {
        0
    } else {
        digits_value(s.drop_last()) * 10 + digit_value(s.last())
    }
}

pub open spec fn all_digits(s: Seq<char>) -> bool {
    forall|i: int| 0 <= i < s.len() ==> is_ascii_digit(#[trigger] s[i])
}

/// What follows an optional leading sign.
pub open spec fn unsigned_part(s: Seq<char>) -> Seq<char> {
    if s.len() > 0 && (s[0] == '-' || s[0] == '+') {
        s.drop_first()
    } else {
        s
    }
}

/// What `i32::from_str` accepts: an optional sign, then at least one ASCII
/// digit, with a value in range.
pub open spec fn decimal_i32(s: Seq<char>) -> Option<i32> {
    let body = unsigned_part(s);
    let v = if s.len() > 0 && s[0] == '-' {
        -digits_value(body)
    } else {
        digits_value(body)
    };
    if body.len() > 0 && all_digits(body) && i32::MIN <= v <= i32::MAX {
        Some(v as i32)
    } else {
        None
    }
}

pub open spec fn opt_view(o: Option<String>) -> Option<Seq<char>> {
    match o {
        Some(g) => Some(g@),
        None => None,
    }
}

pub open spec fn wave_pattern(use_tab: bool) -> Seq<char> {
    if use_tab {
        TAB_WAVE_PATTERN@
    } else {
        HUD_WAVE_PATTERN@
    }
}

/// The wave read from a captured group, if it is a valid number.
pub open spec fn wave_of_capture(cap: Option<Seq<char>>) -> Option<i32> {
    match cap {
        Some(g) => decimal_i32(g),
        None => None,
    }
}

/// The wave read from recognised text in the given display mode.
pub open spec fn wave_of_text(text: Seq<char>, use_tab: bool) -> Option<i32> {
    if text.len() == 0 {
        None
    } else {
        wave_of_capture(regex_group_one(wave_pattern(use_tab), text))
    }
}

proof fn lemma_digits_value_bound(s: Seq<char>)
    requires
        forall|i: int| 0 <= i < s.len() ==> is_ascii_digit(#[trigger] s[i]),
    ensures
        0 <= digits_value(s),
    decreases s.len(),
{
    if s.len() > 0 {
        lemma_digits_value_bound(s.drop_last());
    }
}

proof fn lemma_digits_value_grows(s: Seq<char>, n: int)
    requires
        forall|i: int| 0 <= i < s.len() ==> is_ascii_digit(#[trigger] s[i]),
        0 <= n <= s.len(),
    ensures
        digits_value(s.subrange(0, n)) <= digits_value(s),
    decreases s.len() - n,
{
    if n < s.len() {
        lemma_digits_value_grows(s, n + 1);
        let t = s.subrange(0, n + 1);
        assert(t.drop_last() =~= s.subrange(0, n));
        assert(t.last() == s[n]);
        assert(is_ascii_digit(s[n]));
        assert forall|i: int| 0 <= i < n implies is_ascii_digit(#[trigger] s.subrange(0, n)[i]) by {
            assert(s.subrange(0, n)[i] == s[i]);
        }
        lemma_digits_value_bound(s.subrange(0, n));
    } else {
        assert(s.subrange(0, n) =~= s);
    }
}

/// Parses a number the way `i32::from_str` does.
pub fn parse_decimal_i32(s: &str) -> (r: Option<i32>)
    ensures
        r == decimal_i32(s@),
{
    let n = s.unicode_len();
    let mut i: usize = 0;
    let mut neg = false;
    if n > 0 {
        let c0 = s.get_char(0);
        if c0 == '-' || c0 == '+' {
            neg = c0 == '-';
            i = 1;
        }
    }
    let ghost body = unsigned_part(s@);
    let start = i;
    if start >= n {
        return None;
    }
    let mut acc: i64 = 0;
    while i < n
        invariant
            start <= i <= n,
            n == s@.len(),
            body == unsigned_part(s@),
            neg == (s@.len() > 0 && s@[0] == '-'),
            start == s@.len() - body.len(),
            body =~= s@.subrange(start as int, n as int),
            forall|k: int| 0 <= k < i - start ==> is_ascii_digit(#[trigger] body[k]),
            acc == digits_value(body.subrange(0, i - start)),
            0 <= acc <= 0x8000_0000,
        decreases n - i,
    {
        let c = s.get_char(i);
        if !('0' <= c && c <= '9') {
            assert(body[i - start] == c);
            assert(!is_ascii_digit(body[i - start]));
            return None;
        }
        let d: i64 = (c as u32 - '0' as u32) as i64;
        let ghost prev = body.subrange(0, i - start);
        proof {
            assert(body.subrange(0, i + 1 - start).drop_last() =~= prev);
            assert(body.subrange(0, i + 1 - start).last() == c);
            assert(body[i - start] == c);
        }
        acc = acc * 10 + d;
        i = i + 1;
        if acc > 0x8000_0000 {
            proof {
                if all_digits(body) {
                    lemma_digits_value_grows(body, i - start);
                    assert(digits_value(body) > 0x8000_0000);
                } else {
                    let k = choose|k: int| 0 <= k < body.len() && !is_ascii_digit(#[trigger] body[k]);
                }
            }
            return None;
        }
    }
    proof {
        assert(body.subrange(0, n - start) =~= body);
    }
    if neg {
        Some((-acc) as i32)
    } else if acc > i32::MAX as i64 {
        None
    } else {
        Some(acc as i32)
    }
}

/// The wave number held by a captured group.
pub fn wave_from_capture(cap: Option<String>) -> (r: Option<WaveStatus>)
    ensures
        r matches Some(w) ==> wave_of_capture(opt_view(cap)) == Some(w.current_wave),
        r is None ==> wave_of_capture(opt_view(cap)) is None,
{
    match cap {
        Some(g) => match parse_decimal_i32(g.as_str()) {
            Some(v) => Some(WaveStatus { current_wave: v }),
            None => None,
        },
        None => None,
    }
}

/// Reads the wave counter from recognised text; the detail overlay
/// (`use_tab`) and the HUD readout use different patterns. Empty text
/// yields `None`.
pub fn recognize_wave_status(text: &str, use_tab: bool) -> (r: Option<WaveStatus>)
    ensures
        r matches Some(w) ==> wave_of_text(text@, use_tab) == Some(w.current_wave),
        r is None ==> wave_of_text(text@, use_tab) is None,
{
    if text.is_empty() {
        return None;
    }
    let pattern = if use_tab {
        TAB_WAVE_PATTERN
    } else {
        HUD_WAVE_PATTERN
    };
    let cap = first_capture(pattern, text);
    proof {
        assert(opt_view(cap) == regex_group_one(wave_pattern(use_tab), text@));
    }
    wave_from_capture(cap)
}

/// Input steps around reading the wave counter. The detail overlay is shown
/// while its key is held; releasing it also hides the default overlay, so the
/// key is tapped once more afterwards. Returns the steps before the read and
/// the steps after it.
pub fn wave_read_steps(use_tab: bool) -> (r: (Vec<InputAction>, Vec<InputAction>))
    ensures
        use_tab ==> r.0@ == seq![InputAction::KeyDown { code: KEY_TAB }, InputAction::Sleep { ms: 500 }],
        use_tab ==> r.1@ == seq![
            InputAction::KeyUpAll,
            InputAction::Sleep { ms: 500 },
            InputAction::KeyDown { code: KEY_TAB },
            InputAction::Sleep { ms: 100 },
            InputAction::KeyUpAll,
        ],
        !use_tab ==> r.0@.len() == 0 && r.1@.len() == 0,
{
    let mut before: Vec<InputAction> = Vec::new();
    let mut after: Vec<InputAction> = Vec::new();
    if use_tab {
        before.push(InputAction::KeyDown { code: KEY_TAB });
        before.push(InputAction::Sleep { ms: 500 });
        after.push(InputAction::KeyUpAll);
        after.push(InputAction::Sleep { ms: 500 });
        after.push(InputAction::KeyDown { code: KEY_TAB });
        after.push(InputAction::Sleep { ms: 100 });
        after.push(InputAction::KeyUpAll);
    }
    (before, after)
}

/// Last confirmed wave and when it was confirmed.
#[derive(Clone, Copy, Debug, PartialEq, Eq, Structural)]
pub struct WaveMonitor {
    /// 0 until the first wave is confirmed.
    pub last_confirmed_wave: i32,
    /// Clock reading, in ms, of the last confirmed transition.
    pub last_wave_change_ms: u64,
}

/// Whether a detected wave is a legitimate next wave: exactly one more than
/// the last confirmed one, and either the first confirmation or at least a
/// minute after the previous one.
pub open spec fn accepts_transition(last: int, last_ms: int, detected: int, now_ms: int) -> bool {
    let elapsed = if now_ms >= last_ms {
        now_ms - last_ms
    } else {
        0
    };
    detected == last + 1 && (elapsed >= WAVE_COOLDOWN_MS || last == 0)
}

impl WaveMonitor {
    /// A monitor with no confirmed wave, started at clock reading `now_ms`.
    pub fn new(now_ms: u64) -> (r: Self)
        ensures
            r.last_confirmed_wave == 0,
            r.last_wave_change_ms == now_ms,
    {
        WaveMonitor { last_confirmed_wave: 0, last_wave_change_ms: now_ms }
    }

    /// Accepts `detected` as the new wave when it passes the transition rule,
    /// recording it with the clock reading `now_ms`; otherwise leaves the
    /// monitor unchanged.
    pub fn validate_transition(&mut self, detected: i32, now_ms: u64) -> (accepted: bool)
        ensures
            accepted == accepts_transition(
                old(self).last_confirmed_wave as int,
                old(self).last_wave_change_ms as int,
                detected as int,
                now_ms as int,
            ),
            accepted ==> *final(self) == (WaveMonitor { last_confirmed_wave: detected, last_wave_change_ms: now_ms }),
            !accepted ==> *final(self) == *old(self),
    {
        let elapsed: u64 = now_ms.saturating_sub(self.last_wave_change_ms);
        let is_next_wave = detected as i64 == self.last_confirmed_wave as i64 + 1;
        let is_long_enough = elapsed >= WAVE_COOLDOWN_MS || self.last_confirmed_wave == 0;
        if is_next_wave && is_long_enough {
            self.last_confirmed_wave = detected;
            self.last_wave_change_ms = now_ms;
            true
        } else {
            false
        }
    }
}

} // verus!
