//! Scene recognition and navigation between game screens.
//!
//! Scenes are recognised from text and colour anchors; the caller samples the
//! screen and hands the readings over. Navigation is a state machine: it asks
//! for readings, clicks and pauses, and is told what happened.

use vstd::prelude::*;
use crate::text::{contains_seq, owned, same_text, text_contains};

verus! {

#[derive(Debug, Clone, PartialEq, Eq)]
pub enum NavResult {
    /// Already at, or arrived at, the target screen.
    Success,
    /// Control passed to the anchorless scene with this id.
    Handover(String),
    /// No starting scene, no path, or a step was not confirmed in time.
    Failed,
}

/// How the anchors of a scene combine.
#[derive(Debug, Clone, Copy, PartialEq, Eq, Structural)]
pub enum MatchLogic {
    /// Every anchor must match.
    And,
    /// At least one anchor must match.
    Or,
}

#[derive(Debug, Clone)]
pub struct TextAnchor {
    /// `[x1, y1, x2, y2]` screen rectangle to read.
    pub rect: [i32; 4],
    /// Text expected somewhere in what is read there.
    pub val: String,
}

#[derive(Debug, Clone)]
pub struct ColorAnchor {
    /// Screen point to sample.
    pub pos: [i32; 2],
    /// Expected colour as hex, with or without a leading `#`.
    pub val: String,
    /// Allowed difference per channel, on average.
    pub tol: u8,
}

#[derive(Debug, Clone)]
pub struct Anchors {
    pub text: Option<Vec<TextAnchor>>,
    pub color: Option<Vec<ColorAnchor>>,
}

#[derive(Debug)]
pub struct Transition {
    pub target: String,
    pub coords: [i32; 2],
    pub post_delay: u64,
}

#[derive(Debug)]
pub struct Scene {
    pub id: String,
    /// `"or"` (any case) for `MatchLogic::Or`; anything else is `And`.
    pub logic: String,
    /// `None` marks a virtual scene: reaching it hands control over.
    pub anchors: Option<Anchors>,
    pub transitions: Option<Vec<Transition>>,
}

/// Post-click delay of a transition that gives none, in ms.
pub fn default_delay() -> (r: u64)
    ensures
        r == 500,
{
    500
}

impl Transition {
    /// A copy of this transition.
    pub fn duplicate(&self) -> (r: Self)
        ensures
            r == *self,
    {
        Transition { target: self.target.clone(), coords: self.coords, post_delay: self.post_delay }
    }
}

// ---------------------------------------------------------------------------
// Anchor checks and scores

pub open spec fn count_true(s: Seq<bool>) -> nat
    decreases s.len(),
{
    if s.len() == 0 {
        0
    } else {
        count_true(s.drop_last()) + if s.last() {
            1nat
        } else {
            0nat
        }
    }
}

/// Whether a scene whose anchor checks came out as `checks` is matched.
pub open spec fn logic_passes(logic: MatchLogic, checks: Seq<bool>) -> bool {
    match logic {
        MatchLogic::And => checks.len() > 0 && forall|i: int| 0 <= i < checks.len() ==> #[trigger] checks[i],
        MatchLogic::Or => exists|i: int| 0 <= i < checks.len() && #[trigger] checks[i],
    }
}

/// Score of a scene: the number of matching anchors when the scene is
/// matched, else 0.
pub open spec fn score_of(logic: MatchLogic, checks: Seq<bool>) -> nat {
    if logic_passes(logic, checks) {
        count_true(checks)
    } else {
        0
    }
}

/// The number of `true` entries is at most the length; it equals the length
/// exactly when every entry is `true`, and is positive exactly when some is.
pub proof fn lemma_count_true(s: Seq<bool>)
    ensures
        count_true(s) <= s.len(),
        count_true(s) == s.len() <==> forall|i: int| 0 <= i < s.len() ==> #[trigger] s[i],
        count_true(s) > 0 <==> exists|i: int| 0 <= i < s.len() && #[trigger] s[i],
    decreases s.len(),
{
    if s.len() > 0 {
        let t = s.drop_last();
        lemma_count_true(t);
        assert forall|i: int| 0 <= i < t.len() implies t[i] == s[i] by {}
        if forall|i: int| 0 <= i < s.len() ==> #[trigger] s[i] {
            assert(s[s.len() - 1]);
        }
        if exists|i: int| 0 <= i < s.len() && #[trigger] s[i] {
            let i = choose|i: int| 0 <= i < s.len() && #[trigger] s[i];
            if i < s.len() - 1 {
                assert(t[i]);
            }
        }
        if count_true(t) > 0 {
            let i = choose|i: int| 0 <= i < t.len() && #[trigger] t[i];
            assert(s[i]);
        }
    }
}

/// Scores a scene from its anchor checks. Under `And` the score is positive
/// exactly when there is at least one check and all pass; under `Or`, exactly
/// when some check passes.
pub fn score_checks(logic: MatchLogic, checks: &Vec<bool>) -> (r: usize)
    ensures
        r == score_of(logic, checks@),
        r > 0 <==> logic_passes(logic, checks@),
{
    let mut score: usize = 0;
    let mut i: usize = 0;
    while i < checks.len()
        invariant
            i <= checks@.len(),
            score == count_true(checks@.subrange(0, i as int)),
            score <= i,
        decreases checks@.len() - i,
    {
        proof {
            assert(checks@.subrange(0, i + 1).drop_last() =~= checks@.subrange(0, i as int));
        }
        if checks[i] {
            score = score + 1;
        }
        i = i + 1;
    }
    proof {
        assert(checks@.subrange(0, checks@.len() as int) =~= checks@);
        lemma_count_true(checks@);
    }
    let total = checks.len();
    let passed = match logic {
        MatchLogic::Or => score > 0,
        MatchLogic::And => score == total && total > 0,
    };
    if passed {
        score
    } else {
        0
    }
}

/// What `str::to_lowercase` gives for a string.
pub uninterp spec fn lower_of(s: Seq<char>) -> Seq<char>;

/// Relies on `str::to_lowercase`: the result depends on the characters alone.
#[verifier::external_body]
fn lowercase(s: &str) -> (r: String)
    ensures
        r@ == lower_of(s@),
{
    s.to_lowercase()
}

pub open spec fn logic_of_lowered(l: Seq<char>) -> MatchLogic {
    if l == "or"@ {
        MatchLogic::Or
    } else {
        MatchLogic::And
    }
}

impl MatchLogic {
    /// The logic named by an already lower-cased name.
    pub fn from_lowered(l: &str) -> (r: MatchLogic)
        ensures
            r == logic_of_lowered(l@),
    {
        if same_text(l, "or") {
            MatchLogic::Or
        } else {
            MatchLogic::And
        }
    }

    /// The logic named in a scene record, compared without regard to case.
    pub fn from_name(name: &str) -> (r: MatchLogic)
        ensures
            r == logic_of_lowered(lower_of(name@)),
    {
        let l = lowercase(name);
        Self::from_lowered(l.as_str())
    }
}

pub open spec fn is_hex_digit(c: char) -> bool {
    ('0' <= c <= '9') || ('a' <= c <= 'f') || ('A' <= c <= 'F')
}

pub open spec fn hex_val(c: char) -> int {
    if '0' <= c <= '9' {
        c as int - '0' as int
    } else if 'a' <= c <= 'f' {
        c as int - 'a' as int + 10
    } else {
        c as int - 'A' as int + 10
    }
}

/// Bytes of a hex string: pairs of hex digits, upper or lower case.
pub open spec fn hex_decode(s: Seq<char>) -> Option<Seq<u8>> {
    if s.len() % 2 == 0 && forall|i: int| 0 <= i < s.len() ==> is_hex_digit(#[trigger] s[i]) {
        Some(Seq::new((s.len() / 2) as nat, |i: int| (hex_val(s[2 * i]) * 16 + hex_val(s[2 * i + 1])) as u8))
    } else {
        None
    }
}

/// Relies on `hex::decode`: an error for an odd length or a non-hex
/// character, else one byte per pair of digits, high digit first.
#[verifier::external_body]
fn decode_hex(s: &str) -> (r: Option<Vec<u8>>)
    ensures
        r matches Some(v) ==> hex_decode(s@) == Some(v@),
        r is None ==> hex_decode(s@) is None,
{
    match hex::decode(s) {
        Ok(v) => Some(v),
        Err(_) => None,
    }
}

/// Number of leading `#` characters.
pub open spec fn hash_prefix(s: Seq<char>) -> nat
    decreases s.len(),
{
    if s.len() > 0 && s[0] == '#' {
        1 + hash_prefix(s.drop_first())
    } else {
        0
    }
}

/// The colour an anchor expects. A string that is not hex stands for black;
/// one with fewer than three bytes names no colour.
pub open spec fn expected_rgb(hex: Seq<char>) -> Option<(u8, u8, u8)> {
    match hex_decode(hex.subrange(hash_prefix(hex) as int, hex.len() as int)) {
        None => Some((0u8, 0u8, 0u8)),
        Some(b) => if b.len() >= 3 {
            Some((b[0], b[1], b[2]))
        } else {
            None
        },
    }
}

pub open spec fn abs_diff(a: u8, b: u8) -> int {
    if a >= b {
        a - b
    } else {
        b - a
    }
}

/// Whether a sampled colour is within `3 * tol` of the expected one, summed
/// over the three channels.
pub open spec fn color_matches(sample: [u8; 3], hex: Seq<char>, tol: u8) -> bool {
    match expected_rgb(hex) {
        Some((r, g, b)) => abs_diff(sample[0], r) + abs_diff(sample[1], g) + abs_diff(sample[2], b)
            <= 3 * tol,
        None => false,
    }
}

proof fn lemma_hash_prefix(s: Seq<char>, i: int)
    requires
        0 <= i <= s.len(),
        forall|k: int| 0 <= k < i ==> #[trigger] s[k] == '#',
        i == s.len() || s[i] != '#',
    ensures
        hash_prefix(s) == i,
    decreases i,
{
    if i > 0 {
        let t = s.drop_first();
        assert forall|k: int| 0 <= k < i - 1 implies #[trigger] t[k] == '#' by {
            assert(t[k] == s[k + 1]);
        }
        if i < s.len() {
            assert(t[i - 1] == s[i]);
        }
        lemma_hash_prefix(t, i - 1);
    }
}

fn abs_diff_exec(a: u8, b: u8) -> (r: u16)
    ensures
        r == abs_diff(a, b),
{
    if a >= b {
        (a - b) as u16
    } else {
        (b - a) as u16
    }
}

/// Checks a sampled colour against a colour anchor's value and tolerance.
pub fn check_color(sample: [u8; 3], expected_hex: &str, tolerance: u8) -> (r: bool)
    ensures
        r == color_matches(sample, expected_hex@, tolerance),
{
    let n = expected_hex.unicode_len();
    let mut i: usize = 0;
    while i < n && expected_hex.get_char(i) == '#'
        invariant
            i <= n == expected_hex@.len(),
            forall|k: int| 0 <= k < i ==> #[trigger] expected_hex@[k] == '#',
        decreases n - i,
    {
        i = i + 1;
    }
    proof {
        lemma_hash_prefix(expected_hex@, i as int);
    }
    let digits = expected_hex.substring_char(i, n);
    let (r, g, b) = match decode_hex(digits) {
        None => (0u8, 0u8, 0u8),
        Some(v) => {
            if v.len() < 3 {
                return false;
            }
            (v[0], v[1], v[2])
        },
    };
    let diff = abs_diff_exec(sample[0], r) + abs_diff_exec(sample[1], g) + abs_diff_exec(sample[2], b);
    diff <= 3 * (tolerance as u16)
}

/// Checks recognised text against a text anchor's expected value.
pub fn check_text(recognized: &str, expected: &str) -> (r: bool)
    ensures
        r == contains_seq(recognized@, expected@),
{
    text_contains(recognized, expected)
}

// ---------------------------------------------------------------------------
// The scene graph

/// The declared scenes, with unique ids, in declaration order.
#[derive(Debug)]
pub struct NavEngine {
    pub scenes: Vec<Scene>,
}

pub open spec fn transitions_of(s: Scene) -> Seq<Transition> {
    match s.transitions {
        Some(v) => v@,
        None => seq![],
    }
}

pub open spec fn ids_unique(sc: Seq<Scene>) -> bool {
    forall|a: int, b: int| 0 <= a < sc.len() && 0 <= b < sc.len() && a != b ==> #[trigger] sc[a].id@ != #[trigger] sc[b].id@
}

/// Step `(i, j)`: transition `j` of scene `i`.
pub open spec fn step_ok(sc: Seq<Scene>, st: (usize, usize)) -> bool {
    st.0 < sc.len() && st.1 < transitions_of(sc[st.0 as int]).len()
}

pub open spec fn step_target(sc: Seq<Scene>, st: (usize, usize)) -> Seq<char> {
    transitions_of(sc[st.0 as int])[st.1 as int].target@
}

/// Steps that chain: each one leaves the scene the previous one entered,
/// and the first leaves `start`.
#[verifier::opaque]
pub open spec fn is_walk(sc: Seq<Scene>, start: int, w: Seq<(usize, usize)>) -> bool {
    &&& forall|k: int| 0 <= k < w.len() ==> step_ok(sc, #[trigger] w[k])
    &&& w.len() > 0 ==> w[0].0 == start
    &&& forall|k: int| 0 <= k < w.len() - 1 ==> #[trigger] step_target(sc, w[k]) == sc[w[k + 1].0 as int].id@
}

/// A walk from `start` that ends in the declared scene `v`.
pub open spec fn walk_reaches(sc: Seq<Scene>, start: int, w: Seq<(usize, usize)>, v: int) -> bool {
    &&& 0 <= v < sc.len()
    &&& is_walk(sc, start, w)
    &&& if w.len() == 0 {
        v == start
    } else {
        step_target(sc, w.last()) == sc[v].id@
    }
}

/// A non-empty walk from `start` whose last step leads to the id `target`.
pub open spec fn is_route(sc: Seq<Scene>, start: int, target: Seq<char>, w: Seq<(usize, usize)>) -> bool {
    &&& is_walk(sc, start, w)
    &&& w.len() > 0
    &&& step_target(sc, w.last()) == target
}

/// The transitions taken along a walk.
pub open spec fn route_transitions(sc: Seq<Scene>, w: Seq<(usize, usize)>) -> Seq<Transition> {
    w.map_values(|st: (usize, usize)| transitions_of(sc[st.0 as int])[st.1 as int])
}

proof fn lemma_empty_walk(sc: Seq<Scene>, start: int)
    requires
        0 <= start < sc.len(),
    ensures
        walk_reaches(sc, start, seq![], start),
{
    reveal(is_walk);
}

proof fn lemma_prefix_reaches(sc: Seq<Scene>, start: int, w: Seq<(usize, usize)>)
    requires
        is_walk(sc, start, w),
        w.len() > 0,
        0 <= start < sc.len(),
    ensures
        walk_reaches(sc, start, w.drop_last(), w.last().0 as int),
        step_ok(sc, w.last()),
{
    reveal(is_walk);
    let p = w.drop_last();
    assert(step_ok(sc, w[w.len() - 1]));
    assert forall|k: int| 0 <= k < p.len() implies step_ok(sc, #[trigger] p[k]) by {
        assert(p[k] == w[k]);
    }
    assert forall|k: int| 0 <= k < p.len() - 1 implies #[trigger] step_target(sc, p[k]) == sc[p[k + 1].0 as int].id@ by {
        assert(p[k] == w[k]);
        assert(p[k + 1] == w[k + 1]);
        assert(step_target(sc, w[k]) == sc[w[k + 1].0 as int].id@);
    }
    if p.len() > 0 {
        assert(p.last() == w[w.len() - 2]);
        assert(step_target(sc, w[w.len() - 2]) == sc[w[w.len() - 1].0 as int].id@);
    }
}

proof fn lemma_extend(sc: Seq<Scene>, start: int, r: Seq<(usize, usize)>, u: usize, j: usize)
    requires
        walk_reaches(sc, start, r, u as int),
        step_ok(sc, (u, j)),
    ensures
        is_walk(sc, start, r.push((u, j))),
        r.push((u, j)).last() == (u, j),
        r.push((u, j)).len() == r.len() + 1,
{
    reveal(is_walk);
    let w = r.push((u, j));
    assert forall|k: int| 0 <= k < w.len() implies step_ok(sc, #[trigger] w[k]) by {
        if k < r.len() {
            assert(w[k] == r[k]);
        }
    }
    assert forall|k: int| 0 <= k < w.len() - 1 implies #[trigger] step_target(sc, w[k]) == sc[w[k + 1].0 as int].id@ by {
        assert(w[k] == r[k]);
        if k < r.len() - 1 {
            assert(w[k + 1] == r[k + 1]);
            assert(step_target(sc, r[k]) == sc[r[k + 1].0 as int].id@);
        } else {
            assert(r.last() == r[k]);
            assert(w[k + 1] == (u, j));
        }
    }
    if r.len() == 0 {
        assert(w[0] == (u, j));
    } else {
        assert(w[0] == r[0]);
    }
}

/// Edge `j` of `u` avoids `target`, and every declared scene it leads to is
/// discovered at most one level below `u`.
pub open spec fn edge_ok(
    sc: Seq<Scene>,
    target: Seq<char>,
    visited: Seq<bool>,
    level: Seq<usize>,
    u: int,
    j: int,
) -> bool {
    &&& step_target(sc, (u as usize, j as usize)) != target
    &&& forall|v: int| 0 <= v < sc.len() && #[trigger] sc[v].id@ == step_target(sc, (u as usize, j as usize))
        ==> visited[v] && level[v] <= level[u] + 1
}

/// Every edge of `u` below `upto` is `edge_ok`.
#[verifier::opaque]
pub open spec fn edges_done(
    sc: Seq<Scene>,
    target: Seq<char>,
    visited: Seq<bool>,
    level: Seq<usize>,
    u: int,
    upto: int,
) -> bool {
    forall|j: int| 0 <= j < upto && j < transitions_of(sc[u]).len() ==> #[trigger] edge_ok(sc, target, visited, level, u, j)
}

proof fn lemma_edges_done_use(
    sc: Seq<Scene>,
    target: Seq<char>,
    visited: Seq<bool>,
    level: Seq<usize>,
    u: int,
    upto: int,
    j: int,
    v: int,
)
    requires
        edges_done(sc, target, visited, level, u, upto),
        0 <= j < upto,
        j < transitions_of(sc[u]).len(),
    ensures
        step_target(sc, (u as usize, j as usize)) != target,
        0 <= v < sc.len() && sc[v].id@ == step_target(sc, (u as usize, j as usize)) ==> visited[v] && level[v]
            <= level[u] + 1,
{
    reveal(edges_done);
    assert(edge_ok(sc, target, visited, level, u, j));
}

/// Marking a new scene visited one level below `u` keeps what was shown.
proof fn lemma_edges_done_grow(
    sc: Seq<Scene>,
    target: Seq<char>,
    visited: Seq<bool>,
    level: Seq<usize>,
    u: int,
    upto: int,
    v: int,
    d: usize,
)
    requires
        edges_done(sc, target, visited, level, u, upto),
        0 <= v < visited.len(),
        visited.len() == level.len(),
        visited.len() == sc.len(),
        0 <= u < visited.len(),
        !visited[v],
        visited[u],
    ensures
        edges_done(sc, target, visited.update(v, true), level.update(v, d), u, upto),
{
    reveal(edges_done);
    let vis = visited.update(v, true);
    let lev = level.update(v, d);
    assert forall|j: int| 0 <= j < upto && j < transitions_of(sc[u]).len() implies #[trigger] edge_ok(sc, target, vis, lev, u, j) by {
        assert(edge_ok(sc, target, visited, level, u, j));
        assert forall|w: int| 0 <= w < sc.len() && #[trigger] sc[w].id@ == step_target(sc, (u as usize, j as usize))
            implies vis[w] && lev[w] <= lev[u] + 1 by {
            assert(visited[w]);
        }
    }
}

/// Extends what was shown for `u` by its edge `j`.
proof fn lemma_edges_done_step(
    sc: Seq<Scene>,
    target: Seq<char>,
    visited: Seq<bool>,
    level: Seq<usize>,
    u: int,
    j: int,
)
    requires
        edges_done(sc, target, visited, level, u, j),
        0 <= j < transitions_of(sc[u]).len(),
        step_target(sc, (u as usize, j as usize)) != target,
        forall|v: int| 0 <= v < sc.len() && #[trigger] sc[v].id@ == step_target(sc, (u as usize, j as usize))
            ==> visited[v] && level[v] <= level[u] + 1,
    ensures
        edges_done(sc, target, visited, level, u, j + 1),
{
    reveal(edges_done);
    assert(edge_ok(sc, target, visited, level, u, j));
    assert forall|k: int| 0 <= k < j + 1 && k < transitions_of(sc[u]).len() implies #[trigger] edge_ok(sc, target, visited, level, u, k) by {
        if k < j {
        }
    }
}

proof fn lemma_edges_done_empty(
    sc: Seq<Scene>,
    target: Seq<char>,
    visited: Seq<bool>,
    level: Seq<usize>,
    u: int,
)
    ensures
        edges_done(sc, target, visited, level, u, 0),
{
    reveal(edges_done);
}

proof fn lemma_edges_done_all(
    sc: Seq<Scene>,
    target: Seq<char>,
    visited: Seq<bool>,
    level: Seq<usize>,
    u: int,
    upto: int,
)
    requires
        edges_done(sc, target, visited, level, u, upto),
        upto >= transitions_of(sc[u]).len(),
    ensures
        edges_done(sc, target, visited, level, u, transitions_of(sc[u]).len() as int),
{
    reveal(edges_done);
}

proof fn lemma_closed(
    sc: Seq<Scene>,
    start: int,
    target: Seq<char>,
    visited: Seq<bool>,
    level: Seq<usize>,
    w: Seq<(usize, usize)>,
    v: int,
)
    requires
        0 <= start < sc.len(),
        visited.len() == sc.len(),
        visited[start],
        forall|u: int| 0 <= u < sc.len() && #[trigger] visited[u] ==> edges_done(sc, target, visited, level, u, transitions_of(sc[u]).len() as int),
        walk_reaches(sc, start, w, v),
    ensures
        visited[v],
    decreases w.len(),
{
    if w.len() > 0 {
        lemma_prefix_reaches(sc, start, w);
        let u = w.last().0 as int;
        lemma_closed(sc, start, target, visited, level, w.drop_last(), u);
        lemma_edges_done_use(sc, target, visited, level, u, transitions_of(sc[u]).len() as int, w.last().1 as int, v);
    } else {
        reveal(is_walk);
    }
}

/// Setting a `false` entry to `true` adds one to the count.
pub proof fn lemma_count_update(s: Seq<bool>, i: int)
    requires
        0 <= i < s.len(),
        !s[i],
    ensures
        count_true(s.update(i, true)) == count_true(s) + 1,
    decreases s.len(),
{
    let t = s.update(i, true);
    if i == s.len() - 1 {
        assert(t.drop_last() =~= s.drop_last());
    } else {
        lemma_count_update(s.drop_last(), i);
        assert(t.drop_last() =~= s.drop_last().update(i, true));
    }
}

/// Invariant of the breadth-first search while it works on layer `depth`.
pub open spec fn bfs_inv(
    sc: Seq<Scene>,
    start: int,
    target: Seq<char>,
    visited: Seq<bool>,
    level: Seq<usize>,
    routes: Seq<Vec<(usize, usize)>>,
    processed: Seq<bool>,
    depth: int,
) -> bool {
    &&& 0 <= start < sc.len()
    &&& visited.len() == sc.len()
    &&& level.len() == sc.len()
    &&& routes.len() == sc.len()
    &&& processed.len() == sc.len()
    &&& visited[start]
    &&& forall|v: int| 0 <= v < sc.len() && #[trigger] visited[v] ==> level[v] <= depth + 1 && walk_reaches(sc, start, routes[v]@, v)
        && routes[v]@.len() == level[v]
    &&& forall|v: int| 0 <= v < sc.len() && #[trigger] visited[v] && level[v] < depth ==> processed[v]
    &&& forall|x: int| 0 <= x < sc.len() && #[trigger] processed[x] ==> visited[x] && level[x] <= depth && edges_done(
        sc,
        target,
        visited,
        level,
        x,
        transitions_of(sc[x]).len() as int,
    )
    &&& forall|w: Seq<(usize, usize)>, v: int| #[trigger] walk_reaches(sc, start, w, v) && w.len() <= depth ==> visited[v]
        && level[v] <= w.len()
}

fn copy_route(r: &Vec<(usize, usize)>) -> (c: Vec<(usize, usize)>)
    ensures
        c@ == r@,
{
    let mut c: Vec<(usize, usize)> = Vec::new();
    let mut k: usize = 0;
    while k < r.len()
        invariant
            k <= r@.len(),
            c@ == r@.subrange(0, k as int),
        decreases r@.len() - k,
    {
        c.push(r[k]);
        k = k + 1;
    }
    assert(r@.subrange(0, r@.len() as int) =~= r@);
    c
}

impl NavEngine {
    pub open spec fn wf(&self) -> bool {
        ids_unique(self.scenes@)
    }

    /// An engine over `scenes`, or `None` when two scenes share an id.
    pub fn new(scenes: Vec<Scene>) -> (r: Option<NavEngine>)
        ensures
            r is Some <==> ids_unique(scenes@),
            r matches Some(e) ==> e.scenes@ == scenes@,
    {
        let n = scenes.len();
        let mut a: usize = 0;
        while a < n
            invariant
                a <= n == scenes@.len(),
                forall|x: int, y: int| 0 <= x < a && 0 <= y < n && x != y ==> #[trigger] scenes@[x].id@ != #[trigger] scenes@[y].id@,
            decreases n - a,
        {
            let mut b: usize = 0;
            while b < n
                invariant
                    a < n == scenes@.len(),
                    b <= n,
                    forall|x: int, y: int| 0 <= x < a && 0 <= y < n && x != y ==> #[trigger] scenes@[x].id@ != #[trigger] scenes@[y].id@,
                    forall|y: int| 0 <= y < b && y != a ==> scenes@[a as int].id@ != #[trigger] scenes@[y].id@,
                decreases n - b,
            {
                if a != b && same_text(scenes[a].id.as_str(), scenes[b].id.as_str()) {
                    return None;
                }
                b = b + 1;
            }
            a = a + 1;
        }
        Some(NavEngine { scenes })
    }

    /// Index of the scene declared with `id`.
    pub fn index_of(&self, id: &str) -> (r: Option<usize>)
        ensures
            r matches Some(v) ==> v < self.scenes@.len() && self.scenes@[v as int].id@ == id@,
            r is None ==> forall|v: int| 0 <= v < self.scenes@.len() ==> #[trigger] self.scenes@[v].id@ != id@,
    {
        let mut i: usize = 0;
        while i < self.scenes.len()
            invariant
                i <= self.scenes@.len(),
                forall|v: int| 0 <= v < i ==> #[trigger] self.scenes@[v].id@ != id@,
            decreases self.scenes@.len() - i,
        {
            if same_text(self.scenes[i].id.as_str(), id) {
                return Some(i);
            }
            i = i + 1;
        }
        None
    }

    /// Looks at every transition of scene `u` (on layer `depth`): returns the
    /// route when one leads to `target`, else marks the scenes they lead to.
    #[verifier::rlimit(50)]
    #[verifier::spinoff_prover]
    fn expand_node(
        &self,
        start: usize,
        target: &str,
        u: usize,
        depth: usize,
        visited: &mut Vec<bool>,
        level: &mut Vec<usize>,
        routes: &mut Vec<Vec<(usize, usize)>>,
        next: &mut Vec<usize>,
        remaining: &mut usize,
        Ghost(processed): Ghost<Seq<bool>>,
    ) -> (found: Option<Vec<(usize, usize)>>)
        requires
            self.wf(),
            bfs_inv(self.scenes@, start as int, target@, old(visited)@, old(level)@, old(routes)@, processed, depth as int),
            u < self.scenes@.len(),
            old(visited)@[u as int],
            old(level)@[u as int] == depth,
            !processed[u as int],
            *old(remaining) == self.scenes@.len() - count_true(old(visited)@),
            depth + *old(remaining) + old(next)@.len() < self.scenes@.len(),
            forall|p: int| 0 <= p < old(next)@.len() ==> #[trigger] old(next)@[p] < self.scenes@.len()
                && old(visited)@[old(next)@[p] as int] && old(level)@[old(next)@[p] as int] == depth + 1,
            forall|v: int| 0 <= v < self.scenes@.len() && #[trigger] old(visited)@[v] && old(level)@[v] == depth + 1
                ==> old(next)@.contains(v as usize),
        ensures
            found matches Some(p) ==> is_route(self.scenes@, start as int, target@, p@) && p@.len() == depth + 1,
            found is None ==> {
                &&& bfs_inv(
                    self.scenes@,
                    start as int,
                    target@,
                    final(visited)@,
                    final(level)@,
                    final(routes)@,
                    processed.update(u as int, true),
                    depth as int,
                )
                &&& *final(remaining) == self.scenes@.len() - count_true(final(visited)@)
                &&& *final(remaining) + final(next)@.len() == *old(remaining) + old(next)@.len()
                &&& forall|p: int| 0 <= p < final(next)@.len() ==> #[trigger] final(next)@[p] < self.scenes@.len()
                    && final(visited)@[final(next)@[p] as int] && final(level)@[final(next)@[p] as int] == depth + 1
                &&& forall|v: int| 0 <= v < self.scenes@.len() && #[trigger] final(visited)@[v] && final(level)@[v] == depth + 1
                    ==> final(next)@.contains(v as usize)
                &&& forall|v: int| 0 <= v < self.scenes@.len() && #[trigger] old(visited)@[v] ==> final(visited)@[v]
                    && final(level)@[v] == old(level)@[v]
                &&& forall|v: int| 0 <= v < self.scenes@.len() && #[trigger] final(visited)@[v] && final(level)@[v] <= depth
                    ==> old(visited)@[v]
            },
    {
        let ghost sc = self.scenes@;
        let nn = self.scenes.len();
        let ghost n = sc.len();
        let ghost tu = transitions_of(sc[u as int]);
        let ghost v0 = visited@;
        let ghost l0 = level@;
        proof {
            lemma_edges_done_empty(sc, target@, visited@, level@, u as int);
        }
        let empty: Vec<Transition> = Vec::new();
        let ts: &Vec<Transition> = match &self.scenes[u].transitions {
            None => &empty,
            Some(ts) => ts,
        };
        assert(ts@.len() == tu.len());
        let mut j: usize = 0;
        while j < ts.len()
            invariant
                sc == self.scenes@,
                ids_unique(sc),
                n == sc.len(),
                n <= usize::MAX,
                u < n,
                forall|k: int| 0 <= k < ts@.len() ==> ts@[k] == tu[k],
                ts@.len() == tu.len(),
                tu == transitions_of(sc[u as int]),
                j <= ts@.len(),
                bfs_inv(sc, start as int, target@, visited@, level@, routes@, processed, depth as int),
                visited@[u as int],
                level@[u as int] == depth,
                !processed[u as int],
                edges_done(sc, target@, visited@, level@, u as int, j as int),
                *remaining == n - count_true(visited@),
                *remaining + next@.len() == *old(remaining) + old(next)@.len(),
                depth + *old(remaining) + old(next)@.len() < n,
                forall|p: int| 0 <= p < next@.len() ==> #[trigger] next@[p] < n && visited@[next@[p] as int]
                    && level@[next@[p] as int] == depth + 1,
                forall|v: int| 0 <= v < n && #[trigger] visited@[v] && level@[v] == depth + 1 ==> next@.contains(v as usize),
                forall|v: int| 0 <= v < n && #[trigger] v0[v] ==> visited@[v] && level@[v] == l0[v],
                forall|v: int| 0 <= v < n && #[trigger] visited@[v] && level@[v] <= depth ==> v0[v],
            decreases ts@.len() - j,
        {
            let t = &ts[j];
            assert(t.target@ == step_target(sc, (u, j)));
            if same_text(t.target.as_str(), target) {
                let mut route = copy_route(&routes[u]);
                route.push((u, j));
                proof {
                    lemma_extend(sc, start as int, routes@[u as int]@, u, j);
                }
                return Some(route);
            }
            match self.index_of(t.target.as_str()) {
                None => {
                    proof {
                        lemma_edges_done_step(sc, target@, visited@, level@, u as int, j as int);
                    }
                },
                Some(v) => {
                    if !visited[v] {
                        let mut rv = copy_route(&routes[u]);
                        rv.push((u, j));
                        let ghost vis = visited@;
                        let ghost lev = level@;
                        let ghost nxt = next@;
                        proof {
                            lemma_count_update(visited@, v as int);
                            lemma_count_true(visited@.update(v as int, true));
                            lemma_extend(sc, start as int, routes@[u as int]@, u, j);
                            lemma_edges_done_grow(sc, target@, vis, lev, u as int, j as int, v as int, (depth + 1) as usize);
                            assert forall|x: int| 0 <= x < n && #[trigger] processed[x] implies edges_done(
                                sc,
                                target@,
                                vis.update(v as int, true),
                                lev.update(v as int, (depth + 1) as usize),
                                x,
                                transitions_of(sc[x]).len() as int,
                            ) by {
                                lemma_edges_done_grow(sc, target@, vis, lev, x, transitions_of(sc[x]).len() as int, v as int, (depth + 1) as usize);
                            }
                        }
                        visited.set(v, true);
                        level.set(v, depth + 1);
                        routes.set(v, rv);
                        next.push(v);
                        *remaining = *remaining - 1;
                        proof {
                            assert(walk_reaches(sc, start as int, routes@[v as int]@, v as int));
                            assert forall|w: Seq<(usize, usize)>, y: int| #[trigger] walk_reaches(sc, start as int, w, y) && w.len() <= depth
                                implies visited@[y] && level@[y] <= w.len() by {
                                assert(vis[y]);
                            }
                            assert forall|y: int| 0 <= y < n && #[trigger] visited@[y] && level@[y] == depth + 1 implies next@.contains(y as usize) by {
                                if y == v as int {
                                    assert(next@[next@.len() - 1] == v);
                                } else {
                                    assert(vis[y] && lev[y] == depth + 1);
                                    assert(nxt.contains(y as usize));
                                    let p = choose|p: int| 0 <= p < nxt.len() && nxt[p] == y as usize;
                                    assert(next@[p] == nxt[p]);
                                }
                            }
                            assert forall|w: int| 0 <= w < n && #[trigger] sc[w].id@ == step_target(sc, (u, j)) implies visited@[w]
                                && level@[w] <= level@[u as int] + 1 by {
                                if w != v as int {
                                    assert(sc[w].id@ != sc[v as int].id@);
                                }
                            }
                            lemma_edges_done_step(sc, target@, visited@, level@, u as int, j as int);
                        }
                    } else {
                        proof {
                            assert forall|w: int| 0 <= w < n && #[trigger] sc[w].id@ == step_target(sc, (u, j)) implies visited@[w]
                                && level@[w] <= level@[u as int] + 1 by {
                                if w != v as int {
                                    assert(sc[w].id@ != sc[v as int].id@);
                                }
                            }
                            lemma_edges_done_step(sc, target@, visited@, level@, u as int, j as int);
                        }
                    }
                },
            }
            j = j + 1;
        }
        proof {
            lemma_edges_done_all(sc, target@, visited@, level@, u as int, j as int);
        }
        None
    }

    /// Breadth-first search from scene `start` for a shortest route to the
    /// scene id `target`: the steps `(scene, transition)` in order. Ties go to
    /// the route found first in declaration order.
    #[verifier::rlimit(50)]
    #[verifier::spinoff_prover]
    pub fn find_route(&self, start: usize, target: &str) -> (r: Option<Vec<(usize, usize)>>)
        requires
            self.wf(),
            start < self.scenes@.len(),
        ensures
            r matches Some(p) ==> is_route(self.scenes@, start as int, target@, p@) && forall|q: Seq<(usize, usize)>|
                #[trigger] is_route(self.scenes@, start as int, target@, q) ==> p@.len() <= q.len(),
            r is None ==> forall|q: Seq<(usize, usize)>| !#[trigger] is_route(self.scenes@, start as int, target@, q),
    {
        let ghost sc = self.scenes@;
        let n = self.scenes.len();
        let mut visited: Vec<bool> = Vec::new();
        let mut level: Vec<usize> = Vec::new();
        let mut routes: Vec<Vec<(usize, usize)>> = Vec::new();
        let mut i: usize = 0;
        while i < n
            invariant
                i <= n == sc.len(),
                visited@ == Seq::new(i as nat, |k: int| false),
                level@ == Seq::new(i as nat, |k: int| 0usize),
                routes@.len() == i,
                forall|k: int| 0 <= k < i ==> (#[trigger] routes@[k])@.len() == 0,
            decreases n - i,
        {
            visited.push(false);
            level.push(0);
            routes.push(Vec::new());
            i = i + 1;
        }
        proof {
            lemma_count_update(visited@, start as int);
            lemma_count_true(visited@);
            lemma_empty_walk(sc, start as int);
            assert(routes@[start as int]@ =~= seq![]);
        }
        visited.set(start, true);
        let mut remaining: usize = n - 1;
        let mut frontier: Vec<usize> = Vec::new();
        frontier.push(start);
        let mut depth: usize = 0;
        let ghost mut processed: Seq<bool> = Seq::new(n as nat, |k: int| false);
        proof {
            assert forall|w: Seq<(usize, usize)>, v: int| #[trigger] walk_reaches(sc, start as int, w, v) && w.len() <= 0
                implies visited@[v] && level@[v] <= w.len() by {}
            assert forall|v: int| 0 <= v < n && #[trigger] visited@[v] && level@[v] == 0 implies frontier@.contains(v as usize) by {
                assert(v == start as int);
                assert(frontier@[0] == start);
            }
        }
        while frontier.len() > 0
            invariant
                n == sc.len(),
                sc == self.scenes@,
                self.wf(),
                bfs_inv(sc, start as int, target@, visited@, level@, routes@, processed, depth as int),
                forall|v: int| 0 <= v < n && #[trigger] visited@[v] ==> level@[v] <= depth,
                forall|x: int| 0 <= x < n && #[trigger] processed[x] ==> level@[x] < depth,
                forall|p: int| 0 <= p < frontier@.len() ==> #[trigger] frontier@[p] < n && visited@[frontier@[p] as int]
                    && level@[frontier@[p] as int] == depth,
                forall|v: int| 0 <= v < n && #[trigger] visited@[v] && level@[v] == depth ==> frontier@.contains(v as usize),
                remaining == n - count_true(visited@),
                frontier@.len() > 0 ==> depth + remaining < n,
            decreases 2 * remaining + if frontier@.len() > 0 {
                1int
            } else {
                0
            },
        {
            let mut next: Vec<usize> = Vec::new();
            let ghost rem0 = remaining;
            let ghost v_start = visited@;
            let mut fi: usize = 0;
            while fi < frontier.len()
                invariant
                    n == sc.len(),
                    sc == self.scenes@,
                    self.wf(),
                    fi <= frontier@.len(),
                    depth + rem0 < n,
                    remaining + next@.len() == rem0,
                    bfs_inv(sc, start as int, target@, visited@, level@, routes@, processed, depth as int),
                    forall|x: int| 0 <= x < n && #[trigger] processed[x] ==> (level@[x] < depth || exists|p: int|
                        0 <= p < fi && frontier@[p] == x as usize),
                    forall|p: int| 0 <= p < frontier@.len() ==> #[trigger] frontier@[p] < n && visited@[frontier@[p] as int]
                        && level@[frontier@[p] as int] == depth,
                    forall|p: int| 0 <= p < fi ==> processed[#[trigger] frontier@[p] as int],
                    forall|v: int| 0 <= v < n && #[trigger] visited@[v] && level@[v] <= depth ==> v_start[v],
                    forall|v: int| 0 <= v < n && #[trigger] v_start[v] ==> visited@[v] && level@[v] <= depth,
                    forall|v: int| 0 <= v < n && #[trigger] visited@[v] && level@[v] == depth ==> frontier@.contains(v as usize),
                    forall|p: int| 0 <= p < next@.len() ==> #[trigger] next@[p] < n && visited@[next@[p] as int]
                        && level@[next@[p] as int] == depth + 1,
                    forall|v: int| 0 <= v < n && #[trigger] visited@[v] && level@[v] == depth + 1 ==> next@.contains(v as usize),
                    remaining == n - count_true(visited@),
                decreases frontier@.len() - fi,
            {
                let u = frontier[fi];
                if processed_before(&frontier, fi, u) {
                    proof {
                        let p = choose|p: int| 0 <= p < fi && frontier@[p] == u;
                        assert(processed[frontier@[p] as int]);
                    }
                } else {
                    proof {
                        if processed[u as int] {
                            assert(level@[u as int] == depth);
                        }
                    }
                    let ghost vb = visited@;
                    let ghost lb = level@;
                    let found = self.expand_node(
                        start,
                        target,
                        u,
                        depth,
                        &mut visited,
                        &mut level,
                        &mut routes,
                        &mut next,
                        &mut remaining,
                        Ghost(processed),
                    );
                    if let Some(route) = found {
                        proof {
                            assert forall|q: Seq<(usize, usize)>| #[trigger] is_route(sc, start as int, target@, q) implies route@.len() <= q.len() by {
                                lemma_prefix_reaches(sc, start as int, q);
                                let x = q.last().0 as int;
                                if q.len() - 1 < depth {
                                    assert(walk_reaches(sc, start as int, q.drop_last(), x));
                                    assert(vb[x] && lb[x] <= q.len() - 1);
                                    assert(processed[x]);
                                    lemma_edges_done_use(sc, target@, vb, lb, x, transitions_of(sc[x]).len() as int, q.last().1 as int, 0);
                                }
                            }
                        }
                        return Some(route);
                    }
                    proof {
                        processed = processed.update(u as int, true);
                    }
                }
                fi = fi + 1;
            }
            proof {
                assert forall|v: int| 0 <= v < n && #[trigger] visited@[v] && level@[v] < depth + 1 implies processed[v] by {
                    if level@[v] == depth {
                        assert(v_start[v]);
                        assert(frontier@.contains(v as usize));
                        let p = choose|p: int| 0 <= p < frontier@.len() && frontier@[p] == v as usize;
                        assert(processed[frontier@[p] as int]);
                    }
                }
                assert forall|w: Seq<(usize, usize)>, v: int| #[trigger] walk_reaches(sc, start as int, w, v) && w.len() <= depth + 1
                    implies visited@[v] && level@[v] <= w.len() by {
                    if w.len() == depth + 1 {
                        lemma_prefix_reaches(sc, start as int, w);
                        let x = w.last().0 as int;
                        assert(walk_reaches(sc, start as int, w.drop_last(), x));
                        assert(processed[x]);
                        lemma_edges_done_use(sc, target@, visited@, level@, x, transitions_of(sc[x]).len() as int, w.last().1 as int, v);
                    }
                }
            }
            frontier = next;
            depth = depth + 1;
        }
        proof {
            assert forall|u: int| 0 <= u < n && #[trigger] visited@[u] implies edges_done(sc, target@, visited@, level@, u, transitions_of(sc[u]).len() as int) by {
                assert(processed[u]);
            }
            assert forall|q: Seq<(usize, usize)>| !#[trigger] is_route(sc, start as int, target@, q) by {
                if is_route(sc, start as int, target@, q) {
                    lemma_prefix_reaches(sc, start as int, q);
                    let x = q.last().0 as int;
                    lemma_closed(sc, start as int, target@, visited@, level@, q.drop_last(), x);
                    lemma_edges_done_use(sc, target@, visited@, level@, x, transitions_of(sc[x]).len() as int, q.last().1 as int, 0);
                }
            }
        }
        None
    }
}

/// Screen readings for one scene, in anchor order: the text recognised in
/// each text anchor's rectangle, and the colour sampled at each colour
/// anchor's point (`None` when sampling failed).
#[derive(Debug, Clone)]
pub struct SceneReadings {
    pub texts: Vec<String>,
    pub colors: Vec<Option<[u8; 3]>>,
}

pub open spec fn text_anchors(s: Scene) -> Seq<TextAnchor> {
    match s.anchors {
        Some(a) => match a.text {
            Some(v) => v@,
            None => seq![],
        },
        None => seq![],
    }
}

pub open spec fn color_anchors(s: Scene) -> Seq<ColorAnchor> {
    match s.anchors {
        Some(a) => match a.color {
            Some(v) => v@,
            None => seq![],
        },
        None => seq![],
    }
}

/// Outcome of each anchor check of scene `s`: text anchors first, then
/// colour anchors; a missing reading fails its check.
pub open spec fn anchor_checks(s: Scene, rd: SceneReadings) -> Seq<bool> {
    let ta = text_anchors(s);
    let ca = color_anchors(s);
    Seq::new(
        ta.len() + ca.len(),
        |k: int|
            if k < ta.len() {
                k < rd.texts@.len() && contains_seq(rd.texts@[k]@, ta[k].val@)
            } else {
                let c = k - ta.len();
                c < rd.colors@.len() && match rd.colors@[c] {
                    Some(px) => color_matches(px, ca[c].val@, ca[c].tol),
                    None => false,
                }
            },
    )
}

/// Score of scene `s` for the given readings: 0 for a virtual scene.
pub open spec fn scene_score(s: Scene, rd: SceneReadings) -> nat {
    if s.anchors is None {
        0
    } else {
        score_of(logic_of_lowered(lower_of(s.logic@)), anchor_checks(s, rd))
    }
}

/// A scene is matched, its score positive, exactly when it has anchors and
/// its checks pass under its logic: all of at least one check under `And`,
/// any one under `Or`. A scene with no checks is never matched.
pub proof fn lemma_scene_matched(s: Scene, rd: SceneReadings)
    ensures
        scene_score(s, rd) > 0 <==> s.anchors is Some && logic_passes(logic_of_lowered(lower_of(s.logic@)), anchor_checks(s, rd)),
        anchor_checks(s, rd).len() == 0 ==> scene_score(s, rd) == 0,
        logic_of_lowered(lower_of(s.logic@)) is And ==> (scene_score(s, rd) > 0 <==> s.anchors is Some && anchor_checks(s, rd).len() > 0
            && forall|i: int| 0 <= i < anchor_checks(s, rd).len() ==> #[trigger] anchor_checks(s, rd)[i]),
        logic_of_lowered(lower_of(s.logic@)) is Or ==> (scene_score(s, rd) > 0 <==> s.anchors is Some && exists|i: int|
            0 <= i < anchor_checks(s, rd).len() && #[trigger] anchor_checks(s, rd)[i]),
{
    lemma_count_true(anchor_checks(s, rd));
}

pub open spec fn scene_is_virtual(s: Scene) -> bool {
    s.anchors is None
}

/// Position of the first largest positive score, if any score is positive.
pub open spec fn best_index(scores: Seq<usize>) -> Option<int> {
    if exists|i: int| 0 <= i < scores.len() && scores[i] > 0 {
        Some(
            choose|i: int|
                0 <= i < scores.len() && scores[i] > 0 && (forall|k: int| 0 <= k < scores.len() ==> scores[k] <= scores[i])
                    && (forall|k: int| 0 <= k < i ==> scores[k] < scores[i]),
        )
    } else {
        None
    }
}

/// The scene that wins identification: the highest positive score, the
/// earliest one on ties; `None` when every score is 0.
pub fn identify_from_scores(scores: &Vec<usize>) -> (r: Option<usize>)
    ensures
        r is None <==> forall|i: int| 0 <= i < scores@.len() ==> scores@[i] == 0,
        r matches Some(b) ==> b < scores@.len() && scores@[b as int] > 0 && (forall|k: int| 0 <= k < scores@.len() ==> scores@[k] <= scores@[b as int])
            && (forall|k: int| 0 <= k < b ==> scores@[k] < scores@[b as int]),
{
    let mut best: Option<usize> = None;
    let mut max_score: usize = 0;
    let mut i: usize = 0;
    while i < scores.len()
        invariant
            i <= scores@.len(),
            best is None ==> max_score == 0 && forall|k: int| 0 <= k < i ==> scores@[k] == 0,
            best matches Some(b) ==> b < i && scores@[b as int] == max_score && max_score > 0 && (forall|k: int| 0 <= k < i ==> scores@[k] <= max_score)
                && (forall|k: int| 0 <= k < b ==> scores@[k] < max_score),
        decreases scores@.len() - i,
    {
        if scores[i] > max_score {
            max_score = scores[i];
            best = Some(i);
        }
        i = i + 1;
    }
    best
}

/// The current scene, from a probe of the expected scene `hint` first: a
/// positive `hint_score` settles it; otherwise the scores of a full scan
/// decide as in `identify_from_scores`.
pub fn identify_current_scene(hint: Option<usize>, hint_score: usize, scores: &Vec<usize>) -> (r: Option<usize>)
    ensures
        (hint is Some && hint_score > 0) ==> r == hint,
        !(hint is Some && hint_score > 0) ==> {
            &&& r is None <==> forall|i: int| 0 <= i < scores@.len() ==> scores@[i] == 0
            &&& r matches Some(b) ==> b < scores@.len() && scores@[b as int] > 0 && (forall|k: int|
                0 <= k < scores@.len() ==> scores@[k] <= scores@[b as int]) && (forall|k: int| 0 <= k < b ==> scores@[k] < scores@[b as int])
        },
{
    if let Some(h) = hint {
        if hint_score > 0 {
            return Some(h);
        }
    }
    identify_from_scores(scores)
}

impl NavEngine {
    /// The transitions of a shortest route from the scene with id `start` to
    /// the scene id `target`; empty when they are the same id.
    pub fn find_path(&self, start: &str, target: &str) -> (r: Option<Vec<Transition>>)
        requires
            self.wf(),
        ensures
            start@ == target@ ==> (r matches Some(p) && p@.len() == 0),
            start@ != target@ ==> match r {
                Some(p) => exists|i: int, q: Seq<(usize, usize)>|
                    0 <= i < self.scenes@.len() && #[trigger] self.scenes@[i].id@ == start@ && #[trigger] is_route(self.scenes@, i, target@, q)
                        && p@ == route_transitions(self.scenes@, q) && forall|q2: Seq<(usize, usize)>|
                        #[trigger] is_route(self.scenes@, i, target@, q2) ==> q.len() <= q2.len(),
                None => forall|i: int, q: Seq<(usize, usize)>|
                    0 <= i < self.scenes@.len() && #[trigger] self.scenes@[i].id@ == start@ ==> !#[trigger] is_route(self.scenes@, i, target@, q),
            },
    {
        if same_text(start, target) {
            return Some(Vec::new());
        }
        let i = match self.index_of(start) {
            Some(i) => i,
            None => {
                return None;
            },
        };
        proof {
            assert forall|k: int| 0 <= k < self.scenes@.len() && #[trigger] self.scenes@[k].id@ == start@ implies k == i as int by {
                if k != i as int {
                    assert(self.scenes@[k].id@ != self.scenes@[i as int].id@);
                }
            }
        }
        let route = match self.find_route(i, target) {
            Some(route) => route,
            None => {
                return None;
            },
        };
        let mut path: Vec<Transition> = Vec::new();
        let mut k: usize = 0;
        proof {
            reveal(is_walk);
        }
        while k < route.len()
            invariant
                k <= route@.len(),
                is_walk(self.scenes@, i as int, route@),
                path@ == route_transitions(self.scenes@, route@.subrange(0, k as int)),
            decreases route@.len() - k,
        {
            let (a, b) = route[k];
            proof {
                reveal(is_walk);
                assert(step_ok(self.scenes@, route@[k as int]));
            }
            let ts = match &self.scenes[a].transitions {
                Some(ts) => ts,
                None => {
                    proof {
                        assert(false);
                    }
                    return None;
                },
            };
            path.push(ts[b].duplicate());
            proof {
                assert(route@.subrange(0, k + 1) =~= route@.subrange(0, k as int).push(route@[k as int]));
                assert(path@ =~= route_transitions(self.scenes@, route@.subrange(0, k + 1)));
            }
            k = k + 1;
        }
        proof {
            assert(route@.subrange(0, route@.len() as int) =~= route@);
        }
        Some(path)
    }

    /// Scores scene `idx` from its readings (see `scene_score`).
    pub fn get_match_score(&self, idx: usize, readings: &SceneReadings) -> (r: usize)
        requires
            idx < self.scenes@.len(),
        ensures
            r == scene_score(self.scenes@[idx as int], *readings),
    {
        let scene = &self.scenes[idx];
        let anchors = match &scene.anchors {
            None => {
                return 0;
            },
            Some(a) => a,
        };
        let ghost sp = self.scenes@[idx as int];
        let empty_t: Vec<TextAnchor> = Vec::new();
        let empty_c: Vec<ColorAnchor> = Vec::new();
        let texts: &Vec<TextAnchor> = match &anchors.text {
            Some(v) => v,
            None => &empty_t,
        };
        let colors: &Vec<ColorAnchor> = match &anchors.color {
            Some(v) => v,
            None => &empty_c,
        };
        assert(texts@ == text_anchors(sp));
        assert(colors@ == color_anchors(sp));
        let ghost all = anchor_checks(sp, *readings);
        let mut checks: Vec<bool> = Vec::new();
        let mut k: usize = 0;
        while k < texts.len()
            invariant
                k <= texts@.len(),
                texts@ == text_anchors(sp),
                colors@ == color_anchors(sp),
                all == anchor_checks(sp, *readings),
                checks@ == all.subrange(0, k as int),
            decreases texts@.len() - k,
        {
            let ok = k < readings.texts.len() && check_text(readings.texts[k].as_str(), texts[k].val.as_str());
            checks.push(ok);
            assert(checks@ =~= all.subrange(0, k + 1));
            k = k + 1;
        }
        let mut c: usize = 0;
        while c < colors.len()
            invariant
                c <= colors@.len(),
                texts@ == text_anchors(sp),
                colors@ == color_anchors(sp),
                all == anchor_checks(sp, *readings),
                checks@ == all.subrange(0, texts@.len() + c),
            decreases colors@.len() - c,
        {
            let ok = if c < readings.colors.len() {
                match readings.colors[c] {
                    Some(px) => check_color(px, colors[c].val.as_str(), colors[c].tol),
                    None => false,
                }
            } else {
                false
            };
            checks.push(ok);
            assert(checks@ =~= all.subrange(0, texts@.len() + c + 1));
            c = c + 1;
        }
        assert(checks@ =~= all);
        let logic = MatchLogic::from_name(scene.logic.as_str());
        score_checks(logic, &checks)
    }

    /// Whether the scene with id `id` is declared and anchorless.
    pub fn is_virtual(&self, id: &str) -> (r: bool)
        ensures
            r <==> exists|i: int| 0 <= i < self.scenes@.len() && #[trigger] self.scenes@[i].id@ == id@ && scene_is_virtual(self.scenes@[i]),
    {
        let mut i: usize = 0;
        while i < self.scenes.len()
            invariant
                i <= self.scenes@.len(),
                forall|k: int| 0 <= k < i ==> !(#[trigger] self.scenes@[k].id@ == id@ && scene_is_virtual(self.scenes@[k])),
            decreases self.scenes@.len() - i,
        {
            if same_text(self.scenes[i].id.as_str(), id) && self.scenes[i].anchors.is_none() {
                return true;
            }
            i = i + 1;
        }
        false
    }
}

// ---------------------------------------------------------------------------
// Navigation as a state machine

/// Shortest time to wait for a transition's target to show, in ms.
pub const CONFIRM_MIN_MS: u64 = 2000;
/// Pause between two confirmation probes, in ms.
pub const POLL_MS: u64 = 200;
/// Pause after a confirmed step, in ms.
pub const SETTLE_MS: u64 = 300;

/// What the caller does next.
#[derive(Debug, PartialEq, Eq)]
pub enum NavAction {
    /// Read the anchors of this scene, score them with
    /// `NavEngine::get_match_score`, and report `NavEvent::Scored`.
    Probe { scene: usize },
    /// Move to this point and click, then report `NavEvent::Performed`.
    Click { x: i32, y: i32 },
    /// Pause, then report `NavEvent::Performed`.
    Sleep { ms: u64 },
    /// Navigation is over.
    Finish(NavResult),
}

/// What happened since the last action.
#[derive(Debug, Clone, Copy, PartialEq, Eq, Structural)]
pub enum NavEvent {
    Started,
    Scored(usize),
    Performed,
}

#[derive(Debug, Clone, Copy, PartialEq, Eq, Structural)]
pub enum NavPhase {
    /// Scoring every scene in turn to find the current one.
    Identifying,
    /// A click on the current step was requested.
    Clicking,
    /// Pausing after the click that enters a virtual scene.
    HandingOver,
    /// Waiting for a probe of the step's target.
    Confirming,
    /// Pausing between probes.
    Polling,
    /// Pausing after a confirmed step.
    Settling,
    Done,
}

/// One navigation towards `target`.
#[derive(Debug)]
pub struct Navigation {
    pub target: String,
    pub phase: NavPhase,
    /// Scores of the scenes probed so far while identifying.
    pub scores: Vec<usize>,
    pub path: Vec<Transition>,
    /// Index of the scene identified as the current one.
    pub start: usize,
    pub step: usize,
    /// Clock reading when confirmation of the current step began, in ms.
    pub wait_start_ms: u64,
    /// Whether any click was requested.
    pub clicked: bool,
}

/// Whether scene `b` wins identification: the highest positive score, the
/// earliest on ties.
pub open spec fn is_best(scores: Seq<usize>, b: int) -> bool {
    &&& 0 <= b < scores.len()
    &&& scores[b] > 0
    &&& forall|k: int| 0 <= k < scores.len() ==> scores[k] <= scores[b]
    &&& forall|k: int| 0 <= k < b ==> scores[k] < scores[b]
}

/// The score an event carries (0 for any other event).
pub open spec fn event_value(ev: NavEvent) -> usize {
    match ev {
        NavEvent::Scored(s) => s,
        _ => 0,
    }
}

/// `r` probes the declared scene with id `id`, or only pauses when no scene
/// has that id.
pub open spec fn probes(engine: &NavEngine, id: Seq<char>, r: NavAction) -> bool {
    &&& forall|k: int| 0 <= k < engine.scenes@.len() && #[trigger] engine.scenes@[k].id@ == id ==> r == (NavAction::Probe {
        scene: k as usize,
    })
    &&& (forall|k: int| 0 <= k < engine.scenes@.len() ==> #[trigger] engine.scenes@[k].id@ != id) ==> r == (NavAction::Sleep {
        ms: POLL_MS,
    })
}

pub open spec fn event_score(ev: NavEvent) -> nat {
    match ev {
        NavEvent::Scored(s) => s as nat,
        _ => 0,
    }
}

/// Time to wait for a step with post-click delay `post_delay` to confirm.
pub open spec fn confirm_timeout(post_delay: u64) -> u64 {
    if post_delay < CONFIRM_MIN_MS {
        CONFIRM_MIN_MS
    } else {
        post_delay
    }
}

impl Navigation {
    /// Phase-dependent shape of the state.
    pub open spec fn wf(&self, engine: &NavEngine) -> bool {
        &&& engine.wf()
        &&& self.phase is Identifying ==> self.scores@.len() < engine.scenes@.len() && !self.clicked
        &&& (self.phase is Clicking || self.phase is HandingOver || self.phase is Confirming || self.phase
            is Polling || self.phase is Settling) ==> self.step < self.path@.len() && self.clicked
        &&& self.phase is HandingOver ==> exists|i: int|
            0 <= i < engine.scenes@.len() && #[trigger] engine.scenes@[i].id@ == self.path@[self.step as int].target@
                && scene_is_virtual(engine.scenes@[i])
        &&& (self.phase is Clicking || self.phase is HandingOver || self.phase is Confirming || self.phase
            is Polling || self.phase is Settling) ==> self.follows_shortest_route(engine)
    }

    /// The path is the transitions of a shortest route to the target from
    /// the identified scene.
    pub open spec fn follows_shortest_route(&self, engine: &NavEngine) -> bool {
        let i = self.start as int;
        0 <= i < engine.scenes@.len() && exists|q: Seq<(usize, usize)>|
            #[trigger] is_route(engine.scenes@, i, self.target@, q) && self.path@ == route_transitions(engine.scenes@, q)
                && forall|q2: Seq<(usize, usize)>| #[trigger] is_route(engine.scenes@, i, self.target@, q2) ==> q.len() <= q2.len()
    }

    /// The next action, given what happened and the clock reading `now_ms`.
    pub fn step(&mut self, engine: &NavEngine, ev: NavEvent, now_ms: u64) -> (r: NavAction)
        requires
            old(self).wf(engine),
        ensures
            final(self).wf(engine),
            final(self).target == old(self).target,
            old(self).clicked ==> final(self).clicked,
            r is Click ==> final(self).clicked,
            r matches NavAction::Click { x, y } ==> final(self).phase is Clicking && x == final(self).path@[final(self).step as int].coords[0]
                && y == final(self).path@[final(self).step as int].coords[1],
            r matches NavAction::Probe { scene } ==> scene < engine.scenes@.len(),
            r matches NavAction::Finish(NavResult::Handover(id)) ==> old(self).phase is HandingOver && id@ == old(
                self,
            ).path@[old(self).step as int].target@ && exists|i: int|
                0 <= i < engine.scenes@.len() && #[trigger] engine.scenes@[i].id@ == id@ && scene_is_virtual(engine.scenes@[i]),
            old(self).phase is Identifying && old(self).scores@.len() + 1 == engine.scenes@.len() && (forall|i: int|
                0 <= i < old(self).scores@.len() ==> old(self).scores@[i] == 0) && event_score(ev) == 0 ==> r
                == NavAction::Finish(NavResult::Failed),
            old(self).phase is Identifying && old(self).scores@.len() + 1 < engine.scenes@.len() ==> r == (NavAction::Probe {
                scene: (old(self).scores@.len() + 1) as usize,
            }),
            old(self).phase is Confirming && event_score(ev) > 0 ==> r == (NavAction::Sleep { ms: SETTLE_MS }),
            old(self).phase is Confirming && event_score(ev) == 0 ==> r == (NavAction::Sleep { ms: POLL_MS }),
            old(self).phase is Polling && now_ms - old(self).wait_start_ms >= confirm_timeout(
                old(self).path@[old(self).step as int].post_delay,
            ) ==> r == NavAction::Finish(NavResult::Failed),
            old(self).phase is Clicking && (exists|i: int|
                0 <= i < engine.scenes@.len() && #[trigger] engine.scenes@[i].id@ == old(self).path@[old(self).step as int].target@
                    && scene_is_virtual(engine.scenes@[i])) ==> r == (NavAction::Sleep {
                ms: old(self).path@[old(self).step as int].post_delay,
            }),
            old(self).phase is Done ==> r == NavAction::Finish(NavResult::Failed),
            r == NavAction::Finish(NavResult::Success) ==> (old(self).phase is Identifying && exists|b: int|
                0 <= b < engine.scenes@.len() && #[trigger] engine.scenes@[b].id@ == old(self).target@ && final(self).scores@[b] > 0)
                || (old(self).phase is Settling && old(self).step + 1 == old(self).path@.len()),
            old(self).phase is Identifying && old(self).scores@.len() + 1 == engine.scenes@.len() ==> final(self).scores@
                == old(self).scores@.push(event_value(ev)),
            old(self).phase is Identifying && old(self).scores@.len() + 1 == engine.scenes@.len() ==> forall|b: int|
                #[trigger] is_best(final(self).scores@, b) ==> {
                    &&& engine.scenes@[b].id@ == old(self).target@ ==> r == NavAction::Finish(NavResult::Success)
                    &&& engine.scenes@[b].id@ != old(self).target@ && (forall|q: Seq<(usize, usize)>|
                        !#[trigger] is_route(engine.scenes@, b, old(self).target@, q)) ==> r == NavAction::Finish(NavResult::Failed)
                    &&& engine.scenes@[b].id@ != old(self).target@ && (exists|q: Seq<(usize, usize)>|
                        #[trigger] is_route(engine.scenes@, b, old(self).target@, q)) ==> final(self).start == b && final(self).step
                        == 0 && final(self).phase is Clicking && final(self).path@.len() > 0 && r == (NavAction::Click {
                        x: final(self).path@[0].coords[0],
                        y: final(self).path@[0].coords[1],
                    })
                },
            !(old(self).phase is Identifying) ==> final(self).path == old(self).path && final(self).start == old(self).start,
            old(self).phase is Clicking && !(exists|i: int|
                0 <= i < engine.scenes@.len() && #[trigger] engine.scenes@[i].id@ == old(self).path@[old(self).step as int].target@
                    && scene_is_virtual(engine.scenes@[i])) ==> final(self).wait_start_ms == now_ms && final(self).step
                == old(self).step && probes(engine, old(self).path@[old(self).step as int].target@, r),
            old(self).phase is Clicking && (exists|i: int|
                0 <= i < engine.scenes@.len() && #[trigger] engine.scenes@[i].id@ == old(self).path@[old(self).step as int].target@
                    && scene_is_virtual(engine.scenes@[i])) ==> final(self).phase is HandingOver,
            old(self).phase is HandingOver ==> r == NavAction::Finish(
                NavResult::Handover(old(self).path@[old(self).step as int].target),
            ),
            old(self).phase is Polling && now_ms - old(self).wait_start_ms < confirm_timeout(
                old(self).path@[old(self).step as int].post_delay,
            ) ==> final(self).step == old(self).step && final(self).wait_start_ms == old(self).wait_start_ms && probes(
                engine,
                old(self).path@[old(self).step as int].target@,
                r,
            ),
            old(self).phase is Confirming ==> final(self).step == old(self).step && final(self).wait_start_ms == old(self).wait_start_ms,
            old(self).phase is Settling && old(self).step + 1 < old(self).path@.len() ==> final(self).step == old(self).step + 1
                && final(self).phase is Clicking && r == (NavAction::Click {
                x: old(self).path@[old(self).step + 1].coords[0],
                y: old(self).path@[old(self).step + 1].coords[1],
            }),
            old(self).phase is Settling && old(self).step + 1 >= old(self).path@.len() ==> r == NavAction::Finish(
                NavResult::Success,
            ),
    {
        match self.phase {
            NavPhase::Identifying => {
                let s = match ev {
                    NavEvent::Scored(s) => s,
                    _ => 0,
                };
                self.scores.push(s);
                if self.scores.len() < engine.scenes.len() {
                    return NavAction::Probe { scene: self.scores.len() };
                }
                let best = match identify_from_scores(&self.scores) {
                    Some(b) => b,
                    None => {
                        self.phase = NavPhase::Done;
                        return NavAction::Finish(NavResult::Failed);
                    },
                };
                let start_id = engine.scenes[best].id.as_str();
                proof {
                    assert(is_best(self.scores@, best as int));
                    assert forall|b: int| #[trigger] is_best(self.scores@, b) implies b == best as int by {
                        if b < best as int {
                            assert(self.scores@[b] < self.scores@[best as int]);
                        } else if b > best as int {
                            assert(self.scores@[best as int] < self.scores@[b]);
                        }
                    }
                }
                if same_text(start_id, self.target.as_str()) {
                    self.phase = NavPhase::Done;
                    return NavAction::Finish(NavResult::Success);
                }
                proof {
                    assert(engine.scenes@[best as int].id@ == start_id@);
                }
                proof {
                    assert forall|b: int| #[trigger] is_best(self.scores@, b) implies b == best as int by {
                        if b < best as int {
                            assert(self.scores@[b] < self.scores@[best as int]);
                        } else if b > best as int {
                            assert(self.scores@[best as int] < self.scores@[b]);
                        }
                    }
                }
                match engine.find_path(start_id, self.target.as_str()) {
                    None => {
                        self.phase = NavPhase::Done;
                        NavAction::Finish(NavResult::Failed)
                    },
                    Some(path) => {
                        if path.len() == 0 {
                            proof {
                                let (i, q) = choose|i: int, q: Seq<(usize, usize)>|
                                    0 <= i < engine.scenes@.len() && #[trigger] engine.scenes@[i].id@ == start_id@ && #[trigger] is_route(
                                        engine.scenes@,
                                        i,
                                        self.target@,
                                        q,
                                    ) && path@ == route_transitions(engine.scenes@, q) && forall|q2: Seq<(usize, usize)>|
                                        #[trigger] is_route(engine.scenes@, i, self.target@, q2) ==> q.len() <= q2.len();
                                assert(route_transitions(engine.scenes@, q).len() == q.len());
                            }
                            self.phase = NavPhase::Done;
                            return NavAction::Finish(NavResult::Success);
                        }
                        let ghost sid = start_id@;
                        self.path = path;
                        self.start = best;
                        self.step = 0;
                        self.phase = NavPhase::Clicking;
                        self.clicked = true;
                        proof {
                            assert(sid != self.target@);
                            let (i, q) = choose|i: int, q: Seq<(usize, usize)>|
                                0 <= i < engine.scenes@.len() && #[trigger] engine.scenes@[i].id@ == sid && #[trigger] is_route(engine.scenes@, i, self.target@, q)
                                    && self.path@ == route_transitions(engine.scenes@, q) && forall|q2: Seq<(usize, usize)>|
                                    #[trigger] is_route(engine.scenes@, i, self.target@, q2) ==> q.len() <= q2.len();
                            if i != best as int {
                                assert(engine.scenes@[i].id@ != engine.scenes@[best as int].id@);
                            }
                            assert(is_route(engine.scenes@, i, self.target@, q));
                            assert(route_transitions(engine.scenes@, q).len() == q.len());
                            assert forall|b: int| #[trigger] is_best(self.scores@, b) implies b == best as int by {
                                if b < best as int {
                                    assert(self.scores@[b] < self.scores@[best as int]);
                                } else if b > best as int {
                                    assert(self.scores@[best as int] < self.scores@[b]);
                                }
                            }
                        }
                        NavAction::Click { x: self.path[0].coords[0], y: self.path[0].coords[1] }
                    },
                }
            },
            NavPhase::Clicking => {
                let t = &self.path[self.step];
                if engine.is_virtual(t.target.as_str()) {
                    let ms = t.post_delay;
                    self.phase = NavPhase::HandingOver;
                    NavAction::Sleep { ms }
                } else {
                    self.wait_start_ms = now_ms;
                    self.confirm_probe(engine)
                }
            },
            NavPhase::HandingOver => {
                let id = self.path[self.step].target.clone();
                self.phase = NavPhase::Done;
                NavAction::Finish(NavResult::Handover(id))
            },
            NavPhase::Confirming => {
                let s = match ev {
                    NavEvent::Scored(s) => s,
                    _ => 0,
                };
                if s > 0 {
                    self.phase = NavPhase::Settling;
                    NavAction::Sleep { ms: SETTLE_MS }
                } else {
                    self.phase = NavPhase::Polling;
                    NavAction::Sleep { ms: POLL_MS }
                }
            },
            NavPhase::Polling => {
                let d = self.path[self.step].post_delay;
                let timeout = if d < CONFIRM_MIN_MS {
                    CONFIRM_MIN_MS
                } else {
                    d
                };
                if now_ms.saturating_sub(self.wait_start_ms) >= timeout {
                    self.phase = NavPhase::Done;
                    NavAction::Finish(NavResult::Failed)
                } else {
                    self.confirm_probe(engine)
                }
            },
            NavPhase::Settling => {
                if self.step >= self.path.len() - 1 {
                    self.phase = NavPhase::Done;
                    NavAction::Finish(NavResult::Success)
                } else {
                    self.step = self.step + 1;
                    self.phase = NavPhase::Clicking;
                    self.clicked = true;
                    NavAction::Click { x: self.path[self.step].coords[0], y: self.path[self.step].coords[1] }
                }
            },
            NavPhase::Done => NavAction::Finish(NavResult::Failed),
        }
    }

    /// Probes the current step's target; an undeclared target can never be
    /// recognised, so only the pause between probes is left.
    fn confirm_probe(&mut self, engine: &NavEngine) -> (r: NavAction)
        requires
            old(self).wf(engine),
            old(self).step < old(self).path@.len(),
            old(self).phase is Clicking || old(self).phase is Polling,
            old(self).clicked,
        ensures
            final(self).wf(engine),
            final(self).target == old(self).target,
            final(self).path == old(self).path,
            final(self).step == old(self).step,
            final(self).wait_start_ms == old(self).wait_start_ms,
            final(self).clicked,
            final(self).phase is Confirming || final(self).phase is Polling,
            r matches NavAction::Probe { scene } ==> scene < engine.scenes@.len(),
            r is Probe || r == (NavAction::Sleep { ms: POLL_MS }),
            probes(engine, old(self).path@[old(self).step as int].target@, r),
            final(self).start == old(self).start,
    {
        let r = match engine.index_of(self.path[self.step].target.as_str()) {
            Some(k) => {
                proof {
                    assert forall|j: int| 0 <= j < engine.scenes@.len() && #[trigger] engine.scenes@[j].id@ == self.path@[self.step as int].target@
                        implies j == k as int by {
                        if j != k as int {
                            assert(engine.scenes@[j].id@ != engine.scenes@[k as int].id@);
                        }
                    }
                }
                self.phase = NavPhase::Confirming;
                NavAction::Probe { scene: k }
            },
            None => {
                self.phase = NavPhase::Polling;
                NavAction::Sleep { ms: POLL_MS }
            },
        };
        proof {
            let q = choose|q: Seq<(usize, usize)>|
                #[trigger] is_route(engine.scenes@, old(self).start as int, old(self).target@, q) && old(self).path@
                    == route_transitions(engine.scenes@, q) && forall|q2: Seq<(usize, usize)>|
                    #[trigger] is_route(engine.scenes@, old(self).start as int, old(self).target@, q2) ==> q.len() <= q2.len();
            assert(is_route(engine.scenes@, self.start as int, self.target@, q));
        }
        r
    }
}

impl NavEngine {
    /// Starts a navigation towards the scene id `target`: every declared
    /// scene is probed in turn, starting with the first.
    pub fn navigate(&self, target: &str) -> (r: (Navigation, NavAction))
        requires
            self.wf(),
        ensures
            r.0.wf(self),
            r.0.target@ == target@,
            !r.0.clicked,
            self.scenes@.len() == 0 ==> r.1 == NavAction::Finish(NavResult::Failed),
            self.scenes@.len() > 0 ==> r.1 == (NavAction::Probe { scene: 0 }),
            self.scenes@.len() > 0 ==> (r.0.phase is Identifying),
            r.0.scores@.len() == 0,
    {
        let phase = if self.scenes.len() == 0 {
            NavPhase::Done
        } else {
            NavPhase::Identifying
        };
        let nav = Navigation {
            target: owned(target),
            phase,
            scores: Vec::new(),
            path: Vec::new(),
            start: 0,
            step: 0,
            wait_start_ms: 0,
            clicked: false,
        };
        if self.scenes.len() == 0 {
            (nav, NavAction::Finish(NavResult::Failed))
        } else {
            (nav, NavAction::Probe { scene: 0 })
        }
    }
}

/// Whether `u` occurs among the first `fi` entries of `frontier`.
fn processed_before(frontier: &Vec<usize>, fi: usize, u: usize) -> (r: bool)
    requires
        fi <= frontier@.len(),
    ensures
        r <==> exists|p: int| 0 <= p < fi && frontier@[p] == u,
{
    let mut p: usize = 0;
    while p < fi
        invariant
            p <= fi <= frontier@.len(),
            forall|k: int| 0 <= k < p ==> frontier@[k] != u,
        decreases fi - p,
    {
        if frontier[p] == u {
            return true;
        }
        p = p + 1;
    }
    false
}

} // verus!
