//! LED commands and responses.

use vstd::prelude::*;
use crate::makcu::error::{MakcuError, MakcuResult};
use crate::text::{chars_of, dec, owned, push_decimal, push_str, slice_is, trim_bounds, trimmed};

verus! {

#[derive(Debug, Clone, Copy, PartialEq, Eq, Structural)]
pub enum LedTarget {
    Device,
    Host,
}

#[derive(Debug, Clone, Copy, PartialEq, Eq, Structural)]
pub enum LedMode {
    Off,
    On,
    SlowBlink,
    FastBlink,
}

#[derive(Debug, Clone, Copy, PartialEq, Eq, Structural)]
pub struct LedState {
    pub target: LedTarget,
    pub mode: LedMode,
}

impl LedTarget {
    pub open spec fn spec_code(self) -> u8 {
        match self {
            LedTarget::Device => 1,
            LedTarget::Host => 2,
        }
    }

    pub fn code(self) -> (r: u8)
        ensures
            r == self.spec_code(),
    {
        match self {
            LedTarget::Device => 1,
            LedTarget::Host => 2,
        }
    }
}

impl LedMode {
    pub open spec fn spec_code(self) -> u8 {
        match self {
            LedMode::Off => 0,
            LedMode::On => 1,
            LedMode::SlowBlink => 2,
            LedMode::FastBlink => 3,
        }
    }

    pub fn code(self) -> (r: u8)
        ensures
            r == self.spec_code(),
    {
        match self {
            LedMode::Off => 0,
            LedMode::On => 1,
            LedMode::SlowBlink => 2,
            LedMode::FastBlink => 3,
        }
    }
}

/// `s` with every leading repetition of `"km."` removed.
pub open spec fn strip_km(s: Seq<char>) -> Seq<char>
    decreases s.len(),
{
    if s.len() >= 3 && s.subrange(0, 3) == "km."@ {
        strip_km(s.subrange(3, s.len() as int))
    } else {
        s
    }
}

pub open spec fn count_commas(s: Seq<char>) -> nat
    decreases s.len(),
{
    if s.len() == 0 {
        0
    } else {
        count_commas(s.drop_last()) + if s.last() == ',' {
            1nat
        } else {
            0nat
        }
    }
}

pub open spec fn target_named(s: Seq<char>) -> Option<LedTarget> {
    if s == "device"@ || s == "1"@ {
        Some(LedTarget::Device)
    } else if s == "host"@ || s == "2"@ {
        Some(LedTarget::Host)
    } else {
        None
    }
}

pub open spec fn mode_named(s: Seq<char>) -> Option<LedMode> {
    if s == "off"@ || s == "0"@ {
        Some(LedMode::Off)
    } else if s == "on"@ || s == "1"@ {
        Some(LedMode::On)
    } else if s == "slow_blink"@ || s == "2"@ {
        Some(LedMode::SlowBlink)
    } else if s == "fast_blink"@ || s == "3"@ {
        Some(LedMode::FastBlink)
    } else {
        None
    }
}

/// The state in a response `led(<target>,<mode>)`: surrounding whitespace
/// and any leading `km.` are ignored, each field may be padded with
/// whitespace, and there must be exactly one comma.
pub open spec fn led_response(s: Seq<char>) -> Option<LedState> {
    let r = strip_km(trimmed(s));
    if r.len() >= 5 && r.subrange(0, 4) == "led("@ && r.last() == ')' {
        let content = r.subrange(4, r.len() - 1);
        if count_commas(content) == 1 {
            let c = choose|c: int| 0 <= c < content.len() && content[c] == ',';
            match (
                target_named(trimmed(content.subrange(0, c))),
                mode_named(trimmed(content.subrange(c + 1, content.len() as int))),
            ) {
                (Some(target), Some(mode)) => Some(LedState { target, mode }),
                _ => None,
            }
        } else {
            None
        }
    } else {
        None
    }
}

pub struct LedControl;

fn sub_vec(v: &Vec<char>, lo: usize, hi: usize) -> (r: Vec<char>)
    requires
        lo <= hi <= v@.len(),
    ensures
        r@ == v@.subrange(lo as int, hi as int),
{
    let mut r: Vec<char> = Vec::new();
    let mut i = lo;
    while i < hi
        invariant
            lo <= i <= hi <= v@.len(),
            r@ == v@.subrange(lo as int, i as int),
        decreases hi - i,
    {
        r.push(v[i]);
        i = i + 1;
    }
    r
}

fn trimmed_vec(v: &Vec<char>) -> (r: Vec<char>)
    ensures
        r@ == trimmed(v@),
{
    let (a, b) = trim_bounds(v);
    sub_vec(v, a, b)
}

proof fn lemma_count_commas_split(s: Seq<char>, i: int)
    requires
        0 <= i <= s.len(),
    ensures
        count_commas(s) == count_commas(s.subrange(0, i)) + count_commas(s.subrange(i, s.len() as int)),
    decreases s.len() - i,
{
    if i < s.len() {
        lemma_count_commas_split(s, i + 1);
        let a = s.subrange(0, i + 1);
        assert(a.drop_last() =~= s.subrange(0, i));
        let b = s.subrange(i, s.len() as int);
        let b2 = s.subrange(i + 1, s.len() as int);
        lemma_count_commas_front(b);
        assert(b.drop_first() =~= b2);
        assert(b[0] == s[i]);
        assert(a.last() == s[i]);
    } else {
        assert(s.subrange(0, i) =~= s);
        assert(s.subrange(i, s.len() as int).len() == 0);
    }
}

proof fn lemma_count_commas_front(s: Seq<char>)
    requires
        s.len() > 0,
    ensures
        count_commas(s) == count_commas(s.drop_first()) + if s[0] == ',' {
            1nat
        } else {
            0nat
        },
    decreases s.len(),
{
    if s.len() > 1 {
        lemma_count_commas_front(s.drop_last());
        assert(s.drop_last().drop_first() =~= s.drop_first().drop_last());
        assert(s.drop_first().last() == s.last());
        assert(s.drop_last()[0] == s[0]);
        assert(count_commas(s) == count_commas(s.drop_last()) + if s.last() == ',' {
            1nat
        } else {
            0nat
        });
        assert(count_commas(s.drop_first()) == count_commas(s.drop_first().drop_last()) + if s.last()
            == ',' {
            1nat
        } else {
            0nat
        });
    } else {
        assert(s.drop_first().len() == 0);
        assert(s.drop_last().len() == 0);
        assert(count_commas(s.drop_last()) == 0);
        assert(count_commas(s.drop_first()) == 0);
        assert(s.last() == s[0]);
    }
}

proof fn lemma_no_commas(s: Seq<char>)
    requires
        forall|k: int| 0 <= k < s.len() ==> s[k] != ',',
    ensures
        count_commas(s) == 0,
    decreases s.len(),
{
    if s.len() > 0 {
        lemma_no_commas(s.drop_last());
    }
}

proof fn lemma_comma_present(s: Seq<char>, c: int)
    requires
        0 <= c < s.len(),
        s[c] == ',',
    ensures
        count_commas(s) >= 1,
{
    lemma_count_commas_split(s, c);
    let b = s.subrange(c, s.len() as int);
    lemma_count_commas_front(b);
}

fn target_of(v: &Vec<char>) -> (r: Option<LedTarget>)
    ensures
        r == target_named(v@),
{
    if slice_is(v, 0, v.len(), "device") || slice_is(v, 0, v.len(), "1") {
        proof {
            assert(v@.subrange(0, v@.len() as int) =~= v@);
        }
        Some(LedTarget::Device)
    } else if slice_is(v, 0, v.len(), "host") || slice_is(v, 0, v.len(), "2") {
        proof {
            assert(v@.subrange(0, v@.len() as int) =~= v@);
        }
        Some(LedTarget::Host)
    } else {
        proof {
            assert(v@.subrange(0, v@.len() as int) =~= v@);
        }
        None
    }
}

fn mode_of(v: &Vec<char>) -> (r: Option<LedMode>)
    ensures
        r == mode_named(v@),
{
    proof {
        assert(v@.subrange(0, v@.len() as int) =~= v@);
    }
    if slice_is(v, 0, v.len(), "off") || slice_is(v, 0, v.len(), "0") {
        Some(LedMode::Off)
    } else if slice_is(v, 0, v.len(), "on") || slice_is(v, 0, v.len(), "1") {
        Some(LedMode::On)
    } else if slice_is(v, 0, v.len(), "slow_blink") || slice_is(v, 0, v.len(), "2") {
        Some(LedMode::SlowBlink)
    } else if slice_is(v, 0, v.len(), "fast_blink") || slice_is(v, 0, v.len(), "3") {
        Some(LedMode::FastBlink)
    } else {
        None
    }
}

/// Start of `t` after every leading `km.`.
fn skip_km(t: &Vec<char>) -> (lo: usize)
    ensures
        lo <= t@.len(),
        strip_km(t@) == t@.subrange(lo as int, t@.len() as int),
{
    let ghost tt = t@;
    let mut lo: usize = 0;
    assert(t@.subrange(0, t@.len() as int) =~= tt);
    while t.len() - lo >= 3 && slice_is(t, lo, lo + 3, "km.")
        invariant
            lo <= t@.len(),
            t@ == tt,
            strip_km(t@.subrange(lo as int, t@.len() as int)) == strip_km(tt),
        decreases t@.len() - lo,
    {
        proof {
            let rest = t@.subrange(lo as int, t@.len() as int);
            assert(rest.subrange(0, 3) =~= t@.subrange(lo as int, lo + 3));
            assert(rest.subrange(3, rest.len() as int) =~= t@.subrange(lo + 3, t@.len() as int));
        }
        lo = lo + 3;
    }
    proof {
        let r = t@.subrange(lo as int, t@.len() as int);
        if r.len() >= 3 {
            assert(r.subrange(0, 3) =~= t@.subrange(lo as int, lo + 3));
        }
    }
    lo
}

/// Position of the only comma in `v`, if it has exactly one.
fn single_comma(v: &Vec<char>) -> (r: Option<usize>)
    ensures
        r is Some <==> count_commas(v@) == 1,
        r matches Some(c) ==> c < v@.len() && v@[c as int] == ',' && c == (choose|k: int|
            0 <= k < v@.len() && v@[k] == ','),
{
    let m = v.len();
    let mut c: usize = 0;
    while c < m && v[c] != ','
        invariant
            c <= m == v@.len(),
            forall|k: int| 0 <= k < c ==> v@[k] != ',',
        decreases m - c,
    {
        c = c + 1;
    }
    if c == m {
        proof {
            lemma_no_commas(v@);
        }
        return None;
    }
    let mut d: usize = c + 1;
    while d < m && v[d] != ','
        invariant
            c < d <= m == v@.len(),
            forall|k: int| c < k < d ==> v@[k] != ',',
        decreases m - d,
    {
        d = d + 1;
    }
    proof {
        lemma_count_commas_split(v@, c as int);
        let front = v@.subrange(0, c as int);
        lemma_no_commas(front);
        let back = v@.subrange(c as int, m as int);
        lemma_count_commas_front(back);
        let tail = v@.subrange(c + 1, m as int);
        assert(back.drop_first() =~= tail);
        if d < m {
            lemma_comma_present(tail, d - c - 1);
        } else {
            lemma_no_commas(tail);
        }
    }
    if d < m {
        return None;
    }
    let ghost cc = choose|k: int| 0 <= k < v@.len() && v@[k] == ',';
    proof {
        assert(cc == c);
    }
    Some(c)
}

impl LedControl {
    pub fn build_query_command(target: LedTarget) -> (r: String)
        ensures
            r@ == ".led("@ + dec(target.spec_code() as nat) + ")\r\n"@,
    {
        let mut s = owned(".led(");
        push_decimal(&mut s, target.code() as u64);
        push_str(&mut s, ")\r\n");
        s
    }

    pub fn build_set_command(target: LedTarget, mode: LedMode) -> (r: String)
        ensures
            r@ == ".led("@ + dec(target.spec_code() as nat) + ","@ + dec(mode.spec_code() as nat)
                + ")\r\n"@,
    {
        let mut s = owned(".led(");
        push_decimal(&mut s, target.code() as u64);
        push_str(&mut s, ",");
        push_decimal(&mut s, mode.code() as u64);
        push_str(&mut s, ")\r\n");
        s
    }

    /// Blinks the LED `times` times (at least once) with `delay_ms` (at most
    /// 5000) between blinks.
    pub fn build_blink_command(target: LedTarget, times: u8, delay_ms: u16) -> (r: MakcuResult<String>)
        ensures
            r is Err <==> times == 0 || delay_ms > 5000,
            times == 0 ==> (r matches Err(MakcuError::InvalidParameter(m)) && m@
                == "闪烁次数必须大于0"@),
            times != 0 && delay_ms > 5000 ==> (r matches Err(MakcuError::InvalidParameter(m))
                && m@ == "延迟不能超过5000ms"@),
            r matches Ok(c) ==> c@ == ".led("@ + dec(target.spec_code() as nat) + ","@ + dec(
                times as nat,
            ) + ","@ + dec(delay_ms as nat) + ")\r\n"@,
    {
        if times == 0 {
            return Err(MakcuError::InvalidParameter(owned("闪烁次数必须大于0")));
        }
        if delay_ms > 5000 {
            return Err(MakcuError::InvalidParameter(owned("延迟不能超过5000ms")));
        }
        let mut s = owned(".led(");
        push_decimal(&mut s, target.code() as u64);
        push_str(&mut s, ",");
        push_decimal(&mut s, times as u64);
        push_str(&mut s, ",");
        push_decimal(&mut s, delay_ms as u64);
        push_str(&mut s, ")\r\n");
        Ok(s)
    }

    /// Reads an LED state from a device response.
    pub fn parse_response(response: &str) -> (r: Option<LedState>)
        ensures
            r == led_response(response@),
    {
        let all = chars_of(response);
        let t = trimmed_vec(&all);
        let lo = skip_km(&t);
        let n = t.len();
        let ghost r = t@.subrange(lo as int, n as int);
        if n - lo < 5 || !slice_is(&t, lo, lo + 4, "led(") || t[n - 1] != ')' {
            proof {
                if n - lo >= 5 {
                    assert(r.subrange(0, 4) =~= t@.subrange(lo as int, lo + 4));
                }
            }
            return None;
        }
        proof {
            assert(r.subrange(0, 4) =~= t@.subrange(lo as int, lo + 4));
        }
        let content = sub_vec(&t, lo + 4, n - 1);
        assert(content@ =~= r.subrange(4, r.len() - 1));
        let m = content.len();
        let c = match single_comma(&content) {
            Some(c) => c,
            None => {
                return None;
            },
        };
        let a = sub_vec(&content, 0, c);
        let b = sub_vec(&content, c + 1, m);
        let target = target_of(&trimmed_vec(&a));
        let mode = mode_of(&trimmed_vec(&b));
        match (target, mode) {
            (Some(target), Some(mode)) => Some(LedState { target, mode }),
            _ => None,
        }
    }
}

} // verus!
