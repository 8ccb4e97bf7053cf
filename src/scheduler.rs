//! The wave-synchronised task scheduler.

use vstd::prelude::*;
use crate::camera::{align_steps, scroll_steps, CameraController};
use crate::nav::{count_true, lemma_count_true, lemma_count_update};
use crate::frames::{get_hid_code, hid_code};
use crate::td::{
    BuildingExport, DemolishEvent, InputAction, MapBuildingsExport, MapMeta, PrepAction, TDConfig, TrapConfigItem, UpgradeEvent,
    clamp, map_pixel, sat_u16, to_screen_u16, MIN_SCROLL, SCROLL_RES_MS,
};
use crate::text::{owned, same_text};
use crate::wave::WaveMonitor;

verus! {

/// Completion key of an upgrade: building name, wave and phase.
#[derive(Debug)]
pub struct UpgradeKey {
    pub name: String,
    pub wave_num: i32,
    pub is_late: bool,
}

/// What a scheduled task does; the index points into the strategy list of
/// its kind.
#[derive(Debug, Clone, Copy, PartialEq, Eq, Structural)]
pub enum TaskAction {
    Demolish(usize),
    Place(usize),
    Upgrade(usize),
}

#[derive(Debug, Clone, Copy, PartialEq, Eq, Structural)]
pub struct ScheduledTask {
    pub action: TaskAction,
    pub map_x: i64,
    pub map_y: i64,
    /// 0 demolish, 1 build, 2 upgrade.
    pub priority: u8,
}

/// Scheduler state for one level run.
#[derive(Debug)]
pub struct TowerDefenseApp {
    pub config: TDConfig,
    pub map_meta: MapMeta,
    pub strategy_buildings: Vec<BuildingExport>,
    pub strategy_upgrades: Vec<UpgradeEvent>,
    pub strategy_demolishes: Vec<DemolishEvent>,
    pub placed_uids: Vec<usize>,
    pub completed_upgrade_keys: Vec<UpgradeKey>,
    pub completed_demolish_uids: Vec<usize>,
    pub monitor: WaveMonitor,
    pub trap_lookup: Vec<TrapConfigItem>,
    /// Trap names in loadout order; slot `i` is selected with key `4 + i`.
    pub active_loadout: Vec<String>,
    pub camera: CameraController,
}

/// Key that selects trap `name` from a loadout: slots 1 to 4 are keys 4 to
/// 7, a later slot is key 1, and a name not in the loadout is key 4.
pub open spec fn trap_key(loadout: Seq<String>, name: Seq<char>) -> char {
    let idx = if exists|i: int| 0 <= i < loadout.len() && #[trigger] loadout[i]@ == name {
        choose|i: int| 0 <= i < loadout.len() && #[trigger] loadout[i]@ == name && forall|k: int| 0 <= k < i ==> loadout[k]@ != name
    } else {
        0
    };
    if idx == 0 {
        '4'
    } else if idx == 1 {
        '5'
    } else if idx == 2 {
        '6'
    } else if idx == 3 {
        '7'
    } else {
        '1'
    }
}

pub open spec fn upgrade_done(keys: Seq<UpgradeKey>, name: Seq<char>, wave: i32, late: bool) -> bool {
    exists|k: int| 0 <= k < keys.len() && #[trigger] keys[k].name@ == name && keys[k].wave_num == wave && keys[k].is_late == late
}

/// A demolition matching `(wave, late)` that is not done yet and has a map position.
pub open spec fn demolish_pending(app: TowerDefenseApp, i: int, wave: i32, late: bool) -> bool {
    let d = app.strategy_demolishes@[i];
    &&& 0 <= i < app.strategy_demolishes@.len()
    &&& d.wave_num == wave && d.is_late == late
    &&& !app.completed_demolish_uids@.contains(d.uid)
    &&& map_pixel(app.map_meta, d.grid_x as int, d.grid_y as int, d.width as int, d.height as int) is Some
}

/// A building matching `(wave, late)` that is not placed yet and has a map position.
pub open spec fn build_pending(app: TowerDefenseApp, i: int, wave: i32, late: bool) -> bool {
    let b = app.strategy_buildings@[i];
    &&& 0 <= i < app.strategy_buildings@.len()
    &&& b.wave_num == wave && b.is_late == late
    &&& !app.placed_uids@.contains(b.uid)
    &&& map_pixel(app.map_meta, b.grid_x as int, b.grid_y as int, b.width as int, b.height as int) is Some
}

/// An upgrade matching `(wave, late)` whose key is not done yet.
pub open spec fn upgrade_pending(app: TowerDefenseApp, i: int, wave: i32, late: bool) -> bool {
    let u = app.strategy_upgrades@[i];
    &&& 0 <= i < app.strategy_upgrades@.len()
    &&& u.wave_num == wave && u.is_late == late
    &&& !upgrade_done(app.completed_upgrade_keys@, u.building_name@, u.wave_num, u.is_late)
}

/// `s1` is what one `execute_wave_phase(wave, late)` leaves from `s0`: every
/// pending task of that wave and phase is now recorded as done, nothing else
/// was added, and the plan itself is unchanged.
pub open spec fn phase_done(s0: TowerDefenseApp, s1: TowerDefenseApp, wave: i32, late: bool) -> bool {
    &&& s1.strategy_buildings == s0.strategy_buildings
    &&& s1.strategy_upgrades == s0.strategy_upgrades
    &&& s1.strategy_demolishes == s0.strategy_demolishes
    &&& s1.map_meta == s0.map_meta
    &&& s1.config == s0.config
    &&& forall|x: usize| #[trigger] s1.completed_demolish_uids@.contains(x) <==> s0.completed_demolish_uids@.contains(x)
        || exists|i: int| #[trigger] demolish_pending(s0, i, wave, late) && s0.strategy_demolishes@[i].uid == x
    &&& forall|x: usize| #[trigger] s1.placed_uids@.contains(x) <==> s0.placed_uids@.contains(x) || exists|i: int|
        #[trigger] build_pending(s0, i, wave, late) && s0.strategy_buildings@[i].uid == x
    &&& forall|name: Seq<char>, w: i32, l: bool| #[trigger] upgrade_done(s1.completed_upgrade_keys@, name, w, l) <==> upgrade_done(
        s0.completed_upgrade_keys@,
        name,
        w,
        l,
    ) || exists|i: int| #[trigger] upgrade_pending(s0, i, wave, late) && s0.strategy_upgrades@[i].building_name@ == name && w
        == wave && l == late
}

/// Completion sets only grow, and a wave phase that has run once finds
/// nothing left to do when it runs again.
pub proof fn lemma_completion_monotonic(s0: TowerDefenseApp, s1: TowerDefenseApp, wave: i32, late: bool)
    requires
        phase_done(s0, s1, wave, late),
    ensures
        forall|x: usize| s0.completed_demolish_uids@.contains(x) ==> #[trigger] s1.completed_demolish_uids@.contains(x),
        forall|x: usize| s0.placed_uids@.contains(x) ==> #[trigger] s1.placed_uids@.contains(x),
        forall|name: Seq<char>, w: i32, l: bool| upgrade_done(s0.completed_upgrade_keys@, name, w, l) ==> #[trigger] upgrade_done(
            s1.completed_upgrade_keys@,
            name,
            w,
            l,
        ),
        forall|i: int| !#[trigger] demolish_pending(s1, i, wave, late),
        forall|i: int| !#[trigger] build_pending(s1, i, wave, late),
        forall|i: int| !#[trigger] upgrade_pending(s1, i, wave, late),
{
    assert forall|i: int| !#[trigger] demolish_pending(s1, i, wave, late) by {
        if demolish_pending(s1, i, wave, late) {
            let x = s0.strategy_demolishes@[i].uid;
            if !s0.completed_demolish_uids@.contains(x) {
                assert(demolish_pending(s0, i, wave, late));
            }
            assert(s1.completed_demolish_uids@.contains(x));
        }
    }
    assert forall|i: int| !#[trigger] build_pending(s1, i, wave, late) by {
        if build_pending(s1, i, wave, late) {
            let x = s0.strategy_buildings@[i].uid;
            if !s0.placed_uids@.contains(x) {
                assert(build_pending(s0, i, wave, late));
            }
            assert(s1.placed_uids@.contains(x));
        }
    }
    assert forall|i: int| !#[trigger] upgrade_pending(s1, i, wave, late) by {
        if upgrade_pending(s1, i, wave, late) {
            let u = s0.strategy_upgrades@[i];
            if !upgrade_done(s0.completed_upgrade_keys@, u.building_name@, u.wave_num, u.is_late) {
                assert(upgrade_pending(s0, i, wave, late));
            }
            assert(upgrade_done(s1.completed_upgrade_keys@, u.building_name@, u.wave_num, u.is_late));
        }
    }
}

pub open spec fn safe_point(config: TDConfig, offset_y: int, map_x: int, map_y: int) -> (u16, u16) {
    (
        sat_u16(clamp(map_x, config.safe_zone[0] as int, config.safe_zone[2] as int)),
        sat_u16(clamp(map_y - offset_y, config.safe_zone[1] as int, config.safe_zone[3] as int)),
    )
}

/// Steps of a demolition at screen point `p`: select it, then confirm twice.
pub open spec fn demolish_steps(p: (u16, u16)) -> Seq<InputAction> {
    seq![
        InputAction::MoveTo { x: p.0, y: p.1, duration_ms: 400 },
        InputAction::Sleep { ms: 50 },
        InputAction::Click { left: true, right: false, hold_ms: 60 },
        InputAction::Sleep { ms: 150 },
        InputAction::KeyClick { key: 'e' },
        InputAction::Sleep { ms: 100 },
        InputAction::KeyClick { key: 'e' },
        InputAction::Sleep { ms: 200 },
    ]
}

/// Tool selection before a placement. After a camera move the tool key is
/// tapped, another key, then the tool key again, so the game redraws the
/// selection; otherwise one tap when the tool changes, none when it stays.
pub open spec fn select_steps(screen_moved: bool, last: Option<char>, key: char) -> Seq<InputAction> {
    if screen_moved {
        seq![
            InputAction::KeyClick { key },
            InputAction::Sleep { ms: 120 },
            InputAction::KeyClick { key: if key == '4' { '5' } else { '4' } },
            InputAction::Sleep { ms: 120 },
            InputAction::KeyClick { key },
            InputAction::Sleep { ms: 250 },
        ]
    } else if last != Some(key) {
        seq![InputAction::KeyClick { key }, InputAction::Sleep { ms: 250 }]
    } else {
        seq![InputAction::Sleep { ms: 50 }]
    }
}

/// Steps of a placement at screen point `p`.
pub open spec fn build_steps(p: (u16, u16), screen_moved: bool, last: Option<char>, key: char) -> Seq<InputAction> {
    seq![InputAction::MoveTo { x: p.0, y: p.1, duration_ms: 350 }, InputAction::Sleep { ms: 50 }]
        + select_steps(screen_moved, last, key) + seq![
        InputAction::DoubleClick { left: true, right: false, interval_ms: 150 },
        InputAction::Sleep { ms: 250 },
    ]
}

/// Steps of an upgrade: the tool key held until the upgrade triggers.
pub open spec fn upgrade_steps(key: char) -> Seq<InputAction> {
    seq![InputAction::KeyHold { key, ms: 1500 }, InputAction::Sleep { ms: 400 }]
}

/// Tool remembered after a placement (see `select_steps`).
pub open spec fn next_tool(screen_moved: bool, last: Option<char>, key: char) -> Option<char> {
    if screen_moved || last != Some(key) {
        Some(key)
    } else {
        last
    }
}

/// The steps of one task, and the camera, last tool and pending refresh
/// after it. A spatial task first moves the camera towards its row; a
/// pending refresh makes its placement treat the screen as moved.
pub open spec fn task_steps(app: TowerDefenseApp, t: ScheduledTask, cam: CameraController, last: Option<char>, refresh: bool) -> (
    Seq<InputAction>,
    CameraController,
    Option<char>,
    bool,
) {
    let y = t.map_y as int;
    let seen = row_in_view(app.config, cam, y);
    let moves = if seen {
        seq![]
    } else {
        cam.scroll_moves(y)
    };
    let cam2 = if seen {
        cam
    } else {
        CameraController { offset_y: cam.offset_after_scroll(y) as i64, ..cam }
    };
    let p = safe_point(app.config, cam2.offset_y as int, t.map_x as int, y);
    match t.action {
        TaskAction::Upgrade(i) => (
            upgrade_steps(trap_key(app.active_loadout@, app.strategy_upgrades@[i as int].building_name@)),
            cam,
            last,
            refresh,
        ),
        TaskAction::Demolish(_) => (moves + demolish_steps(p), cam2, last, false),
        TaskAction::Place(i) => {
            let moved = (!seen && cam.scroll_moved(y)) || refresh;
            let key = trap_key(app.active_loadout@, app.strategy_buildings@[i as int].name@);
            (moves + build_steps(p, moved, last, key), cam2, next_tool(moved, last, key), false)
        },
    }
}

/// Whether map row `y` lies in the safe-zone rows under the estimate `cam`.
pub open spec fn row_in_view(config: TDConfig, cam: CameraController, y: int) -> bool {
    cam.offset_y + config.safe_zone[1] <= y <= cam.offset_y + config.safe_zone[3]
}

/// The steps of the tasks `order` (indices into `tasks`), in that order,
/// and the camera after them.
#[verifier::opaque]
pub open spec fn batch_run(
    app: TowerDefenseApp,
    tasks: Seq<ScheduledTask>,
    order: Seq<usize>,
    cam: CameraController,
    last: Option<char>,
    refresh: bool,
) -> (Seq<InputAction>, CameraController)
    decreases order.len(),
{
    if order.len() == 0 {
        (seq![], cam)
    } else {
        let r = task_steps(app, tasks[order[0] as int], cam, last, refresh);
        let rest = batch_run(app, tasks, order.drop_first(), r.1, r.2, r.3);
        (r.0 + rest.0, rest.1)
    }
}

proof fn lemma_batch_run_unfold(
    app: TowerDefenseApp,
    tasks: Seq<ScheduledTask>,
    order: Seq<usize>,
    cam: CameraController,
    last: Option<char>,
    refresh: bool,
)
    ensures
        order.len() == 0 ==> batch_run(app, tasks, order, cam, last, refresh) == (Seq::<InputAction>::empty(), cam),
        order.len() > 0 ==> batch_run(app, tasks, order, cam, last, refresh) == ({
            let r = task_steps(app, tasks[order[0] as int], cam, last, refresh);
            let rest = batch_run(app, tasks, order.drop_first(), r.1, r.2, r.3);
            (r.0 + rest.0, rest.1)
        }),
{
    reveal_with_fuel(batch_run, 1);
}

proof fn lemma_batch_run_plan(
    a: TowerDefenseApp,
    b: TowerDefenseApp,
    tasks: Seq<ScheduledTask>,
    order: Seq<usize>,
    cam: CameraController,
    last: Option<char>,
    refresh: bool,
)
    requires
        same_plan(a, b),
    ensures
        batch_run(a, tasks, order, cam, last, refresh) == batch_run(b, tasks, order, cam, last, refresh),
    decreases order.len(),
{
    lemma_batch_run_unfold(a, tasks, order, cam, last, refresh);
    lemma_batch_run_unfold(b, tasks, order, cam, last, refresh);
    if order.len() > 0 {
        let r = task_steps(a, tasks[order[0] as int], cam, last, refresh);
        assert(r == task_steps(b, tasks[order[0] as int], cam, last, refresh));
        lemma_batch_run_plan(a, b, tasks, order.drop_first(), r.1, r.2, r.3);
    }
}

/// Whether a task goes with the upper half of a map `bottom` pixels high;
/// tasks without a position go with the upper half.
pub open spec fn in_upper_half(t: ScheduledTask, bottom: int) -> bool {
    t.action is Upgrade || 2 * t.map_y <= bottom
}

/// Indices below `n` of the tasks in the upper (or lower) half, in order.
pub open spec fn region_indices(tasks: Seq<ScheduledTask>, n: nat, bottom: int, upper: bool) -> Seq<usize>
    decreases n,
{
    if n == 0 {
        seq![]
    } else {
        region_indices(tasks, (n - 1) as nat, bottom, upper) + if in_upper_half(tasks[n - 1], bottom) == upper {
            seq![(n - 1) as usize]
        } else {
            seq![]
        }
    }
}

/// Where an entry with key `kx` enters `r`: after every entry whose key is
/// not larger.
pub open spec fn insert_pos(tasks: Seq<ScheduledTask>, r: Seq<usize>, kx: int, ascending: bool) -> int
    decreases r.len(),
{
    if r.len() == 0 {
        0
    } else if order_key(tasks[r[0] as int], ascending) > kx {
        0
    } else {
        1 + insert_pos(tasks, r.drop_first(), kx, ascending)
    }
}

/// `idxs` ordered by `order_key`, equal keys keeping their order.
pub open spec fn sorted_by_key(tasks: Seq<ScheduledTask>, idxs: Seq<usize>, ascending: bool) -> Seq<usize>
    decreases idxs.len(),
{
    if idxs.len() == 0 {
        seq![]
    } else {
        let r = sorted_by_key(tasks, idxs.drop_last(), ascending);
        r.insert(insert_pos(tasks, r, order_key(tasks[idxs.last() as int], ascending), ascending), idxs.last())
    }
}

proof fn lemma_insert_pos(tasks: Seq<ScheduledTask>, r: Seq<usize>, kx: int, ascending: bool, p: int)
    requires
        0 <= p <= r.len(),
        forall|m: int| 0 <= m < p ==> order_key(tasks[#[trigger] r[m] as int], ascending) <= kx,
        p < r.len() ==> order_key(tasks[r[p] as int], ascending) > kx,
    ensures
        insert_pos(tasks, r, kx, ascending) == p,
    decreases p,
{
    if p > 0 {
        let t = r.drop_first();
        assert(order_key(tasks[r[0] as int], ascending) <= kx);
        assert forall|m: int| 0 <= m < p - 1 implies order_key(tasks[#[trigger] t[m] as int], ascending) <= kx by {
            assert(t[m] == r[m + 1]);
        }
        if p - 1 < t.len() {
            assert(t[p - 1] == r[p]);
        }
        lemma_insert_pos(tasks, t, kx, ascending, p - 1);
    }
}

/// Whether every spatial task of `order` lies in the safe-zone rows under
/// the camera estimate `cam`.
pub open spec fn tasks_in_view(config: TDConfig, cam: CameraController, tasks: Seq<ScheduledTask>, order: Seq<usize>) -> bool {
    forall|m: int| 0 <= m < order.len() && !(tasks[#[trigger] order[m] as int].action is Upgrade) ==> row_in_view(
        config,
        cam,
        tasks[order[m] as int].map_y as int,
    )
}

/// Steps of one half of the map and the camera after them: aligned to the
/// half's edge first, with a refreshed tool selection, unless all its
/// spatial tasks are already in view.
pub open spec fn region_run(app: TowerDefenseApp, tasks: Seq<ScheduledTask>, order: Seq<usize>, cam: CameraController, top: bool) -> (
    Seq<InputAction>,
    CameraController,
) {
    if order.len() == 0 {
        (seq![], cam)
    } else if tasks_in_view(app.config, cam, tasks, order) {
        batch_run(app, tasks, order, cam, None, false)
    } else {
        let aligned = CameraController {
            offset_y: if top {
                0
            } else {
                cam.max_scroll
            },
            ..cam
        };
        let r = batch_run(app, tasks, order, aligned, None, true);
        (align_steps(top) + r.0, r.1)
    }
}

/// Steps of a dispatch of `tasks` and the camera after them: the upper half
/// top-down, then the lower half bottom-up.
pub open spec fn dispatch_run(app: TowerDefenseApp, tasks: Seq<ScheduledTask>, cam: CameraController) -> (
    Seq<InputAction>,
    CameraController,
) {
    let bottom = app.map_meta.bottom as int;
    let up = sorted_by_key(tasks, region_indices(tasks, tasks.len(), bottom, true), true);
    let lo = sorted_by_key(tasks, region_indices(tasks, tasks.len(), bottom, false), false);
    let a = region_run(app, tasks, up, cam, true);
    let b = region_run(app, tasks, lo, a.1, false);
    (a.0 + b.0, b.1)
}

proof fn lemma_dispatch_run_plan(a: TowerDefenseApp, b: TowerDefenseApp, tasks: Seq<ScheduledTask>, cam: CameraController)
    requires
        same_plan(a, b),
    ensures
        dispatch_run(a, tasks, cam) == dispatch_run(b, tasks, cam),
{
    let bottom = a.map_meta.bottom as int;
    let up = sorted_by_key(tasks, region_indices(tasks, tasks.len(), bottom, true), true);
    let lo = sorted_by_key(tasks, region_indices(tasks, tasks.len(), bottom, false), false);
    lemma_batch_run_plan(a, b, tasks, up, cam, None, false);
    lemma_batch_run_plan(a, b, tasks, up, CameraController { offset_y: 0, ..cam }, None, true);
    let c1 = region_run(a, tasks, up, cam, true).1;
    assert(region_run(a, tasks, up, cam, true) == region_run(b, tasks, up, cam, true));
    lemma_batch_run_plan(a, b, tasks, lo, c1, None, false);
    lemma_batch_run_plan(a, b, tasks, lo, CameraController { offset_y: c1.max_scroll, ..c1 }, None, true);
    assert(region_run(a, tasks, lo, c1, false) == region_run(b, tasks, lo, c1, false));
}

/// The scheduled task of demolition `i`, at its map pixel.
pub open spec fn demolish_task_of(app: TowerDefenseApp, i: int) -> ScheduledTask {
    let d = app.strategy_demolishes@[i];
    let p = match map_pixel(app.map_meta, d.grid_x as int, d.grid_y as int, d.width as int, d.height as int) {
        Some(p) => p,
        None => (0, 0),
    };
    ScheduledTask { action: TaskAction::Demolish(i as usize), map_x: p.0 as i64, map_y: p.1 as i64, priority: 0 }
}

/// The scheduled task of building `i`, at its map pixel.
pub open spec fn build_task_of(app: TowerDefenseApp, i: int) -> ScheduledTask {
    let b = app.strategy_buildings@[i];
    let p = match map_pixel(app.map_meta, b.grid_x as int, b.grid_y as int, b.width as int, b.height as int) {
        Some(p) => p,
        None => (0, 0),
    };
    ScheduledTask { action: TaskAction::Place(i as usize), map_x: p.0 as i64, map_y: p.1 as i64, priority: 1 }
}

/// The scheduled task of upgrade `i`; upgrades have no map position.
pub open spec fn upgrade_task_of(i: int) -> ScheduledTask {
    ScheduledTask { action: TaskAction::Upgrade(i as usize), map_x: 0, map_y: 0, priority: 2 }
}

/// Pending demolitions among the first `n`, in strategy order.
pub open spec fn demolish_list(app: TowerDefenseApp, wave: i32, late: bool, n: nat) -> Seq<ScheduledTask>
    decreases n,
{
    if n == 0 {
        seq![]
    } else {
        demolish_list(app, wave, late, (n - 1) as nat) + if demolish_pending(app, n - 1, wave, late) {
            seq![demolish_task_of(app, n - 1)]
        } else {
            seq![]
        }
    }
}

/// Pending placements among the first `n`, in strategy order.
pub open spec fn build_list(app: TowerDefenseApp, wave: i32, late: bool, n: nat) -> Seq<ScheduledTask>
    decreases n,
{
    if n == 0 {
        seq![]
    } else {
        build_list(app, wave, late, (n - 1) as nat) + if build_pending(app, n - 1, wave, late) {
            seq![build_task_of(app, n - 1)]
        } else {
            seq![]
        }
    }
}

/// Pending upgrades among the first `n`, in strategy order.
pub open spec fn upgrade_list(app: TowerDefenseApp, wave: i32, late: bool, n: nat) -> Seq<ScheduledTask>
    decreases n,
{
    if n == 0 {
        seq![]
    } else {
        upgrade_list(app, wave, late, (n - 1) as nat) + if upgrade_pending(app, n - 1, wave, late) {
            seq![upgrade_task_of(n - 1)]
        } else {
            seq![]
        }
    }
}

/// The input steps of a wave phase: every pending demolition of the
/// phase, dispatched over the map, then the pending placements and
/// upgrades.
pub open spec fn phase_steps(app: TowerDefenseApp, wave: i32, late: bool) -> Seq<InputAction> {
    let d = demolish_list(app, wave, late, app.strategy_demolishes@.len());
    let b = build_list(app, wave, late, app.strategy_buildings@.len()) + upgrade_list(
        app,
        wave,
        late,
        app.strategy_upgrades@.len(),
    );
    let first = dispatch_run(app, d, app.camera);
    first.0 + dispatch_run(app, b, first.1).0
}

/// A held scroll key (`'w'` or `'s'`).
pub open spec fn is_scroll_hold(a: InputAction) -> bool {
    match a {
        InputAction::KeyHold { key, .. } => key == 'w' || key == 's',
        _ => false,
    }
}

pub open spec fn no_scroll_hold(s: Seq<InputAction>) -> bool {
    forall|k: int| 0 <= k < s.len() ==> !is_scroll_hold(#[trigger] s[k])
}

/// Every held scroll key is followed at once by a cursor move to a task: a
/// fine scroll, never an edge alignment (which is followed by a pause).
pub open spec fn scrolls_lead_to_tasks(s: Seq<InputAction>) -> bool {
    forall|k: int| 0 <= k < s.len() && is_scroll_hold(#[trigger] s[k]) ==> k + 1 < s.len() && s[k + 1] is MoveTo
}

proof fn lemma_concat_shape(a: Seq<InputAction>, b: Seq<InputAction>)
    ensures
        scrolls_lead_to_tasks(a) && scrolls_lead_to_tasks(b) ==> scrolls_lead_to_tasks(a + b),
        no_scroll_hold(a) && no_scroll_hold(b) ==> no_scroll_hold(a + b),
{
    let c = a + b;
    if scrolls_lead_to_tasks(a) && scrolls_lead_to_tasks(b) {
        assert forall|k: int| 0 <= k < c.len() && is_scroll_hold(#[trigger] c[k]) implies k + 1 < c.len() && c[k + 1] is MoveTo by {
            if k < a.len() {
                assert(c[k] == a[k]);
                assert(c[k + 1] == a[k + 1]);
            } else {
                assert(c[k] == b[k - a.len()]);
                assert(c[k + 1] == b[k + 1 - a.len()]);
            }
        }
    }
    if no_scroll_hold(a) && no_scroll_hold(b) {
        assert forall|k: int| 0 <= k < c.len() implies !is_scroll_hold(#[trigger] c[k]) by {
            if k < a.len() {
                assert(c[k] == a[k]);
            } else {
                assert(c[k] == b[k - a.len()]);
            }
        }
    }
}

proof fn lemma_moves_then(mv: Seq<InputAction>, b: Seq<InputAction>)
    requires
        mv.len() <= 1,
        b.len() > 0,
        b[0] is MoveTo,
        no_scroll_hold(b),
    ensures
        scrolls_lead_to_tasks(mv + b),
        mv.len() == 0 ==> no_scroll_hold(mv + b),
{
    let c = mv + b;
    assert forall|k: int| 0 <= k < c.len() && is_scroll_hold(#[trigger] c[k]) implies k + 1 < c.len() && c[k + 1] is MoveTo by {
        if k >= mv.len() {
            assert(c[k] == b[k - mv.len()]);
        } else {
            assert(c[k + 1] == b[0]);
        }
    }
    if mv.len() == 0 {
        assert(c =~= b);
    }
}

proof fn lemma_build_shape(p: (u16, u16), moved: bool, last: Option<char>, key: char)
    requires
        key != 'w' && key != 's',
    ensures
        no_scroll_hold(build_steps(p, moved, last, key)),
        build_steps(p, moved, last, key)[0] is MoveTo,
{
    let b = build_steps(p, moved, last, key);
    let sel = select_steps(moved, last, key);
    assert forall|k: int| 0 <= k < b.len() implies !is_scroll_hold(#[trigger] b[k]) by {
        if 2 <= k < 2 + sel.len() {
            assert(b[k] == sel[k - 2]);
        }
    }
}

proof fn lemma_demolish_shape(p: (u16, u16))
    ensures
        no_scroll_hold(demolish_steps(p)),
        demolish_steps(p)[0] is MoveTo,
{
}

#[verifier::spinoff_prover]
#[verifier::rlimit(100)]
proof fn lemma_upgrade_task_shape(app: TowerDefenseApp, t: ScheduledTask, cam: CameraController, last: Option<char>, refresh: bool)
    requires
        t.action is Upgrade,
    ensures
        no_scroll_hold(task_steps(app, t, cam, last, refresh).0),
        task_steps(app, t, cam, last, refresh).1 == cam,
{
    let i = t.action->Upgrade_0;
    let key = trap_key(app.active_loadout@, app.strategy_upgrades@[i as int].building_name@);
    let u = upgrade_steps(key);
    assert(task_steps(app, t, cam, last, refresh).0 == u);
    assert(key != 'w' && key != 's');
    assert(!is_scroll_hold(u[0]) && !is_scroll_hold(u[1]));
}

#[verifier::spinoff_prover]
#[verifier::rlimit(100)]
proof fn lemma_spatial_task_shape(app: TowerDefenseApp, t: ScheduledTask, cam: CameraController, last: Option<char>, refresh: bool)
    requires
        !(t.action is Upgrade),
    ensures
        scrolls_lead_to_tasks(task_steps(app, t, cam, last, refresh).0),
        row_in_view(app.config, cam, t.map_y as int) ==> no_scroll_hold(task_steps(app, t, cam, last, refresh).0)
            && task_steps(app, t, cam, last, refresh).1 == cam,
{
    let y = t.map_y as int;
    let seen = row_in_view(app.config, cam, y);
    let mv = if seen { Seq::<InputAction>::empty() } else { cam.scroll_moves(y) };
    let cam2 = if seen { cam } else { CameraController { offset_y: cam.offset_after_scroll(y) as i64, ..cam } };
    let p = safe_point(app.config, cam2.offset_y as int, t.map_x as int, y);
    let r = task_steps(app, t, cam, last, refresh);
    assert(mv.len() <= 1);
    if let TaskAction::Place(i) = t.action {
        let moved = (!seen && cam.scroll_moved(y)) || refresh;
        let key = trap_key(app.active_loadout@, app.strategy_buildings@[i as int].name@);
        assert(r.0 == mv + build_steps(p, moved, last, key));
        lemma_build_shape(p, moved, last, key);
        lemma_moves_then(mv, build_steps(p, moved, last, key));
    } else {
        assert(r.0 == mv + demolish_steps(p));
        lemma_demolish_shape(p);
        lemma_moves_then(mv, demolish_steps(p));
    }
}

proof fn lemma_task_shape(app: TowerDefenseApp, t: ScheduledTask, cam: CameraController, last: Option<char>, refresh: bool)
    ensures
        scrolls_lead_to_tasks(task_steps(app, t, cam, last, refresh).0),
        (t.action is Upgrade || row_in_view(app.config, cam, t.map_y as int)) ==> no_scroll_hold(task_steps(app, t, cam, last, refresh).0)
            && task_steps(app, t, cam, last, refresh).1 == cam,
{
    if t.action is Upgrade {
        lemma_upgrade_task_shape(app, t, cam, last, refresh);
        let r = task_steps(app, t, cam, last, refresh).0;
        assert forall|k: int| 0 <= k < r.len() && is_scroll_hold(#[trigger] r[k]) implies k + 1 < r.len() && r[k + 1] is MoveTo by {}
    } else {
        lemma_spatial_task_shape(app, t, cam, last, refresh);
    }
}

proof fn lemma_batch_shape(
    app: TowerDefenseApp,
    tasks: Seq<ScheduledTask>,
    order: Seq<usize>,
    cam: CameraController,
    last: Option<char>,
    refresh: bool,
)
    ensures
        scrolls_lead_to_tasks(batch_run(app, tasks, order, cam, last, refresh).0),
        tasks_in_view(app.config, cam, tasks, order) ==> no_scroll_hold(batch_run(app, tasks, order, cam, last, refresh).0)
            && batch_run(app, tasks, order, cam, last, refresh).1 == cam,
    decreases order.len(),
{
    lemma_batch_run_unfold(app, tasks, order, cam, last, refresh);
    if order.len() > 0 {
        let t = tasks[order[0] as int];
        let r = task_steps(app, t, cam, last, refresh);
        let rest = order.drop_first();
        lemma_task_shape(app, t, cam, last, refresh);
        lemma_batch_shape(app, tasks, rest, r.1, r.2, r.3);
        lemma_concat_shape(r.0, batch_run(app, tasks, rest, r.1, r.2, r.3).0);
        if tasks_in_view(app.config, cam, tasks, order) {
            if !(t.action is Upgrade) {
                assert(row_in_view(app.config, cam, tasks[order[0] as int].map_y as int));
            }
            assert forall|m: int| 0 <= m < rest.len() && !(tasks[#[trigger] rest[m] as int].action is Upgrade) implies row_in_view(
                app.config,
                r.1,
                tasks[rest[m] as int].map_y as int,
            ) by {
                assert(rest[m] == order[m + 1]);
            }
        }
    } else {
        assert(Seq::<InputAction>::empty().len() == 0);
    }
}

/// A half of the map whose spatial tasks are all in the safe-zone rows is
/// done without moving the camera: no scroll key is held and the estimate
/// stays as it was.
pub proof fn lemma_region_in_view_keeps_camera(
    app: TowerDefenseApp,
    tasks: Seq<ScheduledTask>,
    order: Seq<usize>,
    cam: CameraController,
    top: bool,
)
    requires
        tasks_in_view(app.config, cam, tasks, order),
    ensures
        no_scroll_hold(region_run(app, tasks, order, cam, top).0),
        region_run(app, tasks, order, cam, top).1 == cam,
{
    lemma_batch_shape(app, tasks, order, cam, None, false);
}

/// A half of the map with a spatial task out of view starts with exactly one
/// edge alignment; every later scroll is a fine scroll that leads straight
/// to a task, never another alignment.
pub proof fn lemma_region_out_of_view_aligns_once(
    app: TowerDefenseApp,
    tasks: Seq<ScheduledTask>,
    order: Seq<usize>,
    cam: CameraController,
    top: bool,
)
    requires
        !tasks_in_view(app.config, cam, tasks, order),
    ensures
        ({
            let aligned = CameraController {
                offset_y: if top {
                    0
                } else {
                    cam.max_scroll
                },
                ..cam
            };
            let rest = batch_run(app, tasks, order, aligned, None, true).0;
            &&& region_run(app, tasks, order, cam, top).0 == align_steps(top) + rest
            &&& scrolls_lead_to_tasks(rest)
        }),
{
    let aligned = CameraController {
        offset_y: if top {
            0
        } else {
            cam.max_scroll
        },
        ..cam
    };
    lemma_batch_shape(app, tasks, order, aligned, None, true);
}

/// From `from` on: no placement when `no_place`, no demolition confirmation
/// when `no_demolish`.
pub open spec fn clean_from(s: Seq<InputAction>, from: int, no_place: bool, no_demolish: bool) -> bool {
    &&& no_place ==> no_placement_from(s, from)
    &&& no_demolish ==> no_demolition_from(s, from)
}

proof fn lemma_clean_extend(a: Seq<InputAction>, b: Seq<InputAction>, from: int, mid: int, no_place: bool, no_demolish: bool)
    requires
        clean_from(a, from, no_place, no_demolish),
        a.is_prefix_of(b),
        mid == a.len(),
        clean_from(b, mid, no_place, no_demolish),
        0 <= from <= mid,
    ensures
        clean_from(b, from, no_place, no_demolish),
{
    assert forall|k: int| from <= k < mid implies b[k] == a[k] by {
        assert(b.subrange(0, a.len() as int) == a);
        assert(b.subrange(0, a.len() as int)[k] == b[k]);
    }
}

/// No step from `from` on is a placement click.
pub open spec fn no_placement_from(s: Seq<InputAction>, from: int) -> bool {
    forall|k: int| from <= k < s.len() ==> !(#[trigger] s[k] is DoubleClick)
}

/// No step from `from` on is a demolition confirmation.
pub open spec fn no_demolition_from(s: Seq<InputAction>, from: int) -> bool {
    forall|k: int| from <= k < s.len() ==> #[trigger] s[k] != (InputAction::KeyClick { key: 'e' })
}

pub open spec fn only_holds_and_pauses(s: Seq<InputAction>) -> bool {
    forall|k: int| 0 <= k < s.len() ==> (#[trigger] s[k] is KeyHold || s[k] is Sleep)
}

proof fn lemma_concat_no_demolition(a: Seq<InputAction>, mv: Seq<InputAction>, b: Seq<InputAction>)
    requires
        only_holds_and_pauses(mv),
        forall|k: int| 0 <= k < b.len() ==> #[trigger] b[k] != (InputAction::KeyClick { key: 'e' }),
    ensures
        no_demolition_from(a + mv + b, a.len() as int),
{
    let s = a + mv + b;
    assert forall|k: int| a.len() <= k < s.len() implies #[trigger] s[k] != (InputAction::KeyClick { key: 'e' }) by {
        if k >= a.len() + mv.len() {
            assert(s[k] == b[k - a.len() - mv.len()]);
        } else {
            assert(s[k] == mv[k - a.len()]);
        }
    }
}

proof fn lemma_concat_no_placement(a: Seq<InputAction>, mv: Seq<InputAction>, b: Seq<InputAction>)
    requires
        only_holds_and_pauses(mv),
        forall|k: int| 0 <= k < b.len() ==> !(#[trigger] b[k] is DoubleClick),
    ensures
        no_placement_from(a + mv + b, a.len() as int),
{
    let s = a + mv + b;
    assert forall|k: int| a.len() <= k < s.len() implies !(#[trigger] s[k] is DoubleClick) by {
        if k >= a.len() + mv.len() {
            assert(s[k] == b[k - a.len() - mv.len()]);
        } else {
            assert(s[k] == mv[k - a.len()]);
        }
    }
}

proof fn lemma_scroll_moves_plain(cam: CameraController, target: int)
    ensures
        only_holds_and_pauses(cam.scroll_moves(target)),
{
}

proof fn lemma_move_steps_plain(cam: CameraController, target: int)
    ensures
        only_holds_and_pauses(cam.move_steps(target)),
{
    let ideal = cam.ideal_offset(target);
    let s = cam.move_steps(target);
    assert forall|k: int| 0 <= k < s.len() implies (#[trigger] s[k] is KeyHold || s[k] is Sleep) by {
        if cam.needs_move(target) {
            if cam.from_top(target) {
                let mid = if ideal > MIN_SCROLL {
                    scroll_steps('s', ideal, SCROLL_RES_MS as int)
                } else {
                    seq![]
                };
                assert(s == align_steps(true) + mid + seq![InputAction::Sleep { ms: 200 }]);
                if k >= 2 && k < 2 + mid.len() {
                    assert(s[k] == mid[k - 2]);
                }
            } else {
                let up = cam.max_scroll - ideal;
                let mid = if up > MIN_SCROLL {
                    scroll_steps('w', up, SCROLL_RES_MS as int)
                } else {
                    seq![]
                };
                assert(s == align_steps(false) + mid + seq![InputAction::Sleep { ms: 200 }]);
                if k >= 2 && k < 2 + mid.len() {
                    assert(s[k] == mid[k - 2]);
                }
            }
        }
    }
}

proof fn lemma_build_steps_no_demolition(p: (u16, u16), moved: bool, last: Option<char>, key: char)
    requires
        key != 'e',
    ensures
        forall|k: int| 0 <= k < build_steps(p, moved, last, key).len() ==> #[trigger] build_steps(p, moved, last, key)[k]
            != (InputAction::KeyClick { key: 'e' }),
{
    let sel = select_steps(moved, last, key);
    let s = build_steps(p, moved, last, key);
    assert forall|k: int| 0 <= k < s.len() implies #[trigger] s[k] != (InputAction::KeyClick { key: 'e' }) by {
        if 2 <= k < 2 + sel.len() {
            assert(s[k] == sel[k - 2]);
        }
    }
}

/// Everything but the completion records and the camera is unchanged.
pub open spec fn same_plan(a: TowerDefenseApp, b: TowerDefenseApp) -> bool {
    &&& a.config == b.config
    &&& a.map_meta == b.map_meta
    &&& a.strategy_buildings == b.strategy_buildings
    &&& a.strategy_upgrades == b.strategy_upgrades
    &&& a.strategy_demolishes == b.strategy_demolishes
    &&& a.monitor == b.monitor
    &&& a.trap_lookup == b.trap_lookup
    &&& a.active_loadout == b.active_loadout
    &&& a.camera.max_scroll == b.camera.max_scroll
    &&& a.camera.safe_center == b.camera.safe_center
}

pub open spec fn task_valid(app: TowerDefenseApp, t: ScheduledTask) -> bool {
    match t.action {
        TaskAction::Demolish(i) => i < app.strategy_demolishes@.len(),
        TaskAction::Place(i) => i < app.strategy_buildings@.len(),
        TaskAction::Upgrade(i) => i < app.strategy_upgrades@.len(),
    }
}

pub open spec fn task_demolishes(ds: Seq<DemolishEvent>, t: ScheduledTask, x: usize) -> bool {
    match t.action {
        TaskAction::Demolish(i) => ds[i as int].uid == x,
        _ => false,
    }
}

pub open spec fn task_places(bs: Seq<BuildingExport>, t: ScheduledTask, x: usize) -> bool {
    match t.action {
        TaskAction::Place(i) => bs[i as int].uid == x,
        _ => false,
    }
}

pub open spec fn task_upgrades(us: Seq<UpgradeEvent>, t: ScheduledTask, name: Seq<char>, w: i32, l: bool) -> bool {
    match t.action {
        TaskAction::Upgrade(i) => us[i as int].building_name@ == name && us[i as int].wave_num == w && us[i as int].is_late == l,
        _ => false,
    }
}

/// Some task among `order` (indices into `tasks`) demolishes uid `x`.
pub open spec fn batch_demolishes(ds: Seq<DemolishEvent>, tasks: Seq<ScheduledTask>, order: Seq<usize>, x: usize) -> bool {
    exists|m: int| 0 <= m < order.len() && #[trigger] task_demolishes(ds, tasks[order[m] as int], x)
}

/// Some task among `order` places uid `x`.
pub open spec fn batch_places(bs: Seq<BuildingExport>, tasks: Seq<ScheduledTask>, order: Seq<usize>, x: usize) -> bool {
    exists|m: int| 0 <= m < order.len() && #[trigger] task_places(bs, tasks[order[m] as int], x)
}

/// Some task among `order` performs the upgrade keyed `(name, w, l)`.
pub open spec fn batch_upgrades(us: Seq<UpgradeEvent>, tasks: Seq<ScheduledTask>, order: Seq<usize>, name: Seq<char>, w: i32, l: bool) -> bool {
    exists|m: int| 0 <= m < order.len() && #[trigger] task_upgrades(us, tasks[order[m] as int], name, w, l)
}

/// `b`'s completion records are `a`'s plus those of the tasks in `order`.
pub open spec fn records_batch(a: TowerDefenseApp, b: TowerDefenseApp, tasks: Seq<ScheduledTask>, order: Seq<usize>) -> bool {
    &&& forall|x: usize| #[trigger] b.completed_demolish_uids@.contains(x) <==> a.completed_demolish_uids@.contains(x)
        || batch_demolishes(a.strategy_demolishes@, tasks, order, x)
    &&& forall|x: usize| #[trigger] b.placed_uids@.contains(x) <==> a.placed_uids@.contains(x) || batch_places(a.strategy_buildings@, tasks, order, x)
    &&& forall|name: Seq<char>, w: i32, l: bool| #[trigger] upgrade_done(b.completed_upgrade_keys@, name, w, l) <==> upgrade_done(
        a.completed_upgrade_keys@,
        name,
        w,
        l,
    ) || batch_upgrades(a.strategy_upgrades@, tasks, order, name, w, l)
}

impl TowerDefenseApp {
    pub open spec fn wf(&self) -> bool {
        self.config.wf() && self.camera.wf()
    }

    fn screen_point(&self, map_x: i64, map_y: i64) -> (r: (u16, u16))
        requires
            self.config.wf(),
        ensures
            r == safe_point(self.config, self.camera.offset_y as int, map_x as int, map_y as int),
    {
        let z = self.config.safe_zone;
        let x = if (map_x as i128) < z[0] as i128 {
            z[0] as i128
        } else if (map_x as i128) > z[2] as i128 {
            z[2] as i128
        } else {
            map_x as i128
        };
        let dy: i128 = map_y as i128 - self.camera.offset_y as i128;
        let y = if dy < z[1] as i128 {
            z[1] as i128
        } else if dy > z[3] as i128 {
            z[3] as i128
        } else {
            dy
        };
        (to_screen_u16(x), to_screen_u16(y))
    }

    /// The key that selects trap `name` (see `trap_key`).
    pub fn get_trap_key(&self, name: &str) -> (r: char)
        ensures
            r == trap_key(self.active_loadout@, name@),
    {
        let mut i: usize = 0;
        while i < self.active_loadout.len()
            invariant
                i <= self.active_loadout@.len(),
                forall|k: int| 0 <= k < i ==> self.active_loadout@[k]@ != name@,
            decreases self.active_loadout@.len() - i,
        {
            if same_text(self.active_loadout[i].as_str(), name) {
                let ghost c = choose|c: int| 0 <= c < self.active_loadout@.len() && #[trigger] self.active_loadout@[c]@ == name@ && forall|k: int| 0 <= k < c ==> self.active_loadout@[k]@ != name@;
                proof {
                    assert(self.active_loadout@[i as int]@ == name@);
                    if c < i {
                        assert(self.active_loadout@[c]@ != name@);
                    }
                    if c > i {
                        assert(self.active_loadout@[i as int]@ != name@);
                    }
                }
                return if i == 0 {
                    '4'
                } else if i == 1 {
                    '5'
                } else if i == 2 {
                    '6'
                } else if i == 3 {
                    '7'
                } else {
                    '1'
                };
            }
            i = i + 1;
        }
        '4'
    }

    /// Map pixel at the centre of a footprint (see `map_pixel`).
    pub fn get_absolute_map_pixel(&self, gx: usize, gy: usize, w: usize, h: usize) -> (r: Option<(i64, i64)>)
        ensures
            r matches Some(p) ==> map_pixel(self.map_meta, gx as int, gy as int, w as int, h as int) == Some((p.0 as int, p.1 as int)),
            r is None ==> map_pixel(self.map_meta, gx as int, gy as int, w as int, h as int) is None,
    {
        let x = crate::td::cell_center_exec(self.map_meta.offset_x, gx, w, self.map_meta.grid_pixel_size);
        let y = crate::td::cell_center_exec(self.map_meta.offset_y, gy, h, self.map_meta.grid_pixel_size);
        match (x, y) {
            (Some(x), Some(y)) => Some((x, y)),
            _ => None,
        }
    }

    fn perform_demolish_action(&mut self, map_x: i64, map_y: i64, uid: usize, out: &mut Vec<InputAction>)
        requires
            old(self).config.wf(),
        ensures
            final(out)@ == old(out)@ + demolish_steps(safe_point(old(self).config, old(self).camera.offset_y as int, map_x as int, map_y as int)),
            final(self).completed_demolish_uids@ == old(self).completed_demolish_uids@.push(uid),
            final(self).placed_uids == old(self).placed_uids,
            final(self).completed_upgrade_keys == old(self).completed_upgrade_keys,
            final(self).camera == old(self).camera,
            same_plan(*old(self), *final(self)),
    {
        let p = self.screen_point(map_x, map_y);
        out.push(InputAction::MoveTo { x: p.0, y: p.1, duration_ms: 400 });
        out.push(InputAction::Sleep { ms: 50 });
        out.push(InputAction::Click { left: true, right: false, hold_ms: 60 });
        out.push(InputAction::Sleep { ms: 150 });
        out.push(InputAction::KeyClick { key: 'e' });
        out.push(InputAction::Sleep { ms: 100 });
        out.push(InputAction::KeyClick { key: 'e' });
        self.completed_demolish_uids.push(uid);
        out.push(InputAction::Sleep { ms: 200 });
    }

    fn perform_build_action(
        &mut self,
        last_key: &mut Option<char>,
        screen_moved: bool,
        map_x: i64,
        map_y: i64,
        name: &str,
        uid: usize,
        out: &mut Vec<InputAction>,
    )
        requires
            old(self).config.wf(),
        ensures
            final(out)@ == old(out)@ + build_steps(
                safe_point(old(self).config, old(self).camera.offset_y as int, map_x as int, map_y as int),
                screen_moved,
                *old(last_key),
                trap_key(old(self).active_loadout@, name@),
            ),
            *final(last_key) == (if screen_moved || *old(last_key) != Some(trap_key(old(self).active_loadout@, name@)) {
                Some(trap_key(old(self).active_loadout@, name@))
            } else {
                *old(last_key)
            }),
            final(self).placed_uids@ == old(self).placed_uids@.push(uid),
            final(self).completed_demolish_uids == old(self).completed_demolish_uids,
            final(self).completed_upgrade_keys == old(self).completed_upgrade_keys,
            final(self).camera == old(self).camera,
            same_plan(*old(self), *final(self)),
    {
        let p = self.screen_point(map_x, map_y);
        let key = self.get_trap_key(name);
        let ghost out0 = out@;
        out.push(InputAction::MoveTo { x: p.0, y: p.1, duration_ms: 350 });
        out.push(InputAction::Sleep { ms: 50 });
        if screen_moved {
            let swap_key = if key == '4' {
                '5'
            } else {
                '4'
            };
            out.push(InputAction::KeyClick { key });
            out.push(InputAction::Sleep { ms: 120 });
            out.push(InputAction::KeyClick { key: swap_key });
            out.push(InputAction::Sleep { ms: 120 });
            out.push(InputAction::KeyClick { key });
            out.push(InputAction::Sleep { ms: 250 });
            *last_key = Some(key);
        } else if *last_key != Some(key) {
            out.push(InputAction::KeyClick { key });
            *last_key = Some(key);
            out.push(InputAction::Sleep { ms: 250 });
        } else {
            out.push(InputAction::Sleep { ms: 50 });
        }
        out.push(InputAction::DoubleClick { left: true, right: false, interval_ms: 150 });
        self.placed_uids.push(uid);
        out.push(InputAction::Sleep { ms: 250 });
        assert(out@ =~= out0 + build_steps(p, screen_moved, *old(last_key), key));
    }

    fn execute_single_upgrade(&mut self, idx: usize, out: &mut Vec<InputAction>)
        requires
            idx < old(self).strategy_upgrades@.len(),
        ensures
            final(out)@ == old(out)@ + upgrade_steps(
                trap_key(old(self).active_loadout@, old(self).strategy_upgrades@[idx as int].building_name@),
            ),
            final(self).completed_upgrade_keys@.len() == old(self).completed_upgrade_keys@.len() + 1,
            final(self).completed_upgrade_keys@.drop_last() == old(self).completed_upgrade_keys@,
            final(self).completed_upgrade_keys@.last().name@ == old(self).strategy_upgrades@[idx as int].building_name@,
            final(self).completed_upgrade_keys@.last().wave_num == old(self).strategy_upgrades@[idx as int].wave_num,
            final(self).completed_upgrade_keys@.last().is_late == old(self).strategy_upgrades@[idx as int].is_late,
            final(self).placed_uids == old(self).placed_uids,
            final(self).completed_demolish_uids == old(self).completed_demolish_uids,
            final(self).camera == old(self).camera,
            same_plan(*old(self), *final(self)),
    {
        let u = &self.strategy_upgrades[idx];
        let key = self.get_trap_key(u.building_name.as_str());
        out.push(InputAction::KeyHold { key, ms: 1500 });
        let k = UpgradeKey { name: owned(u.building_name.as_str()), wave_num: u.wave_num, is_late: u.is_late };
        self.completed_upgrade_keys.push(k);
        out.push(InputAction::Sleep { ms: 400 });
        assert(self.completed_upgrade_keys@.drop_last() =~= old(self).completed_upgrade_keys@);
    }
}

impl TowerDefenseApp {
    /// Whether every task in `order` that has a map position lies in the
    /// rows of the safe zone under the current camera estimate.
    pub fn are_tasks_in_current_view(&self, tasks: &Vec<ScheduledTask>, order: &Vec<usize>) -> (r: bool)
        requires
            forall|m: int| 0 <= m < order@.len() ==> #[trigger] order@[m] < tasks@.len(),
        ensures
            r == tasks_in_view(self.config, self.camera, tasks@, order@),
    {
        let top: i128 = self.camera.offset_y as i128 + self.config.safe_zone[1] as i128;
        let bottom: i128 = self.camera.offset_y as i128 + self.config.safe_zone[3] as i128;
        let mut m: usize = 0;
        while m < order.len()
            invariant
                m <= order@.len(),
                top == self.camera.offset_y + self.config.safe_zone[1],
                bottom == self.camera.offset_y + self.config.safe_zone[3],
                forall|k: int| 0 <= k < order@.len() ==> #[trigger] order@[k] < tasks@.len(),
                forall|k: int| 0 <= k < m && !(tasks@[#[trigger] order@[k] as int].action is Upgrade) ==> top <= tasks@[order@[k] as int].map_y <= bottom,
            decreases order@.len() - m,
        {
            let t = &tasks[order[m]];
            let spatial = match t.action {
                TaskAction::Upgrade(_) => false,
                _ => true,
            };
            if spatial && ((t.map_y as i128) < top || (t.map_y as i128) > bottom) {
                return false;
            }
            m = m + 1;
        }
        true
    }

    /// Performs one task (see `task_steps`) with the last placed tool `last`
    /// and a pending refresh `refresh`, and records it as done.
    #[verifier::rlimit(100)]
    #[verifier::spinoff_prover]
    fn process_one(&mut self, t: ScheduledTask, last: &mut Option<char>, refresh: bool, out: &mut Vec<InputAction>)
        requires
            old(self).wf(),
            task_valid(*old(self), t),
        ensures
            final(self).wf(),
            same_plan(*old(self), *final(self)),
            ({
                let r = task_steps(*old(self), t, old(self).camera, *old(last), refresh);
                &&& final(out)@ == old(out)@ + r.0
                &&& final(self).camera == r.1
                &&& *final(last) == r.2
            }),
            final(self).completed_demolish_uids@ == match t.action {
                TaskAction::Demolish(i) => old(self).completed_demolish_uids@.push(old(self).strategy_demolishes@[i as int].uid),
                _ => old(self).completed_demolish_uids@,
            },
            final(self).placed_uids@ == match t.action {
                TaskAction::Place(i) => old(self).placed_uids@.push(old(self).strategy_buildings@[i as int].uid),
                _ => old(self).placed_uids@,
            },
            t.action is Upgrade ==> final(self).completed_upgrade_keys@.len() == old(self).completed_upgrade_keys@.len() + 1
                && final(self).completed_upgrade_keys@.drop_last() == old(self).completed_upgrade_keys@ && ({
                let u = old(self).strategy_upgrades@[t.action->Upgrade_0 as int];
                let k = final(self).completed_upgrade_keys@.last();
                k.name@ == u.building_name@ && k.wave_num == u.wave_num && k.is_late == u.is_late
            }),
            !(t.action is Upgrade) ==> final(self).completed_upgrade_keys == old(self).completed_upgrade_keys,
            t.action is Demolish ==> no_placement_from(final(out)@, old(out)@.len() as int),
            !(t.action is Demolish) ==> no_demolition_from(final(out)@, old(out)@.len() as int),
            final(out)@.len() > old(out)@.len(),
    {
        let ghost out0 = out@;
        let ghost cam0 = self.camera;
        match t.action {
            TaskAction::Upgrade(i) => {
                self.execute_single_upgrade(i, out);
                proof {
                    let u = upgrade_steps(trap_key(old(self).active_loadout@, old(self).strategy_upgrades@[i as int].building_name@));
                    assert forall|k: int| out0.len() <= k < out@.len() implies #[trigger] out@[k] != (InputAction::KeyClick { key: 'e' }) by {
                        assert(out@[k] == u[k - out0.len()]);
                    }
                }
            },
            TaskAction::Demolish(i) => {
                self.demolish_task(t, i, out);
            },
            TaskAction::Place(i) => {
                self.place_task(t, i, last, refresh, out);
            },
        }
    }

    /// Brings row `y` into view when it is not: a fine scroll from the
    /// current estimate, never an edge alignment. Returns whether a key was
    /// held.
    fn follow_row(&mut self, y: i64, out: &mut Vec<InputAction>) -> (moved: bool)
        requires
            old(self).wf(),
        ensures
            final(self).wf(),
            same_plan(*old(self), *final(self)),
            final(self).completed_demolish_uids == old(self).completed_demolish_uids,
            final(self).placed_uids == old(self).placed_uids,
            final(self).completed_upgrade_keys == old(self).completed_upgrade_keys,
            ({
                let seen = row_in_view(old(self).config, old(self).camera, y as int);
                &&& final(out)@ == old(out)@ + (if seen {
                    seq![]
                } else {
                    old(self).camera.scroll_moves(y as int)
                })
                &&& final(self).camera == (if seen {
                    old(self).camera
                } else {
                    CameraController { offset_y: old(self).camera.offset_after_scroll(y as int) as i64, ..old(self).camera }
                })
                &&& moved == (!seen && old(self).camera.scroll_moved(y as int))
            }),
    {
        let top: i128 = self.camera.offset_y as i128 + self.config.safe_zone[1] as i128;
        let bottom: i128 = self.camera.offset_y as i128 + self.config.safe_zone[3] as i128;
        if top <= y as i128 && y as i128 <= bottom {
            assert(out@ =~= old(out)@ + Seq::<InputAction>::empty());
            false
        } else {
            self.camera.scroll_towards(y, out)
        }
    }

    #[verifier::rlimit(100)]
    #[verifier::spinoff_prover]
    fn demolish_task(&mut self, t: ScheduledTask, i: usize, out: &mut Vec<InputAction>)
        requires
            old(self).wf(),
            t.action == TaskAction::Demolish(i),
            i < old(self).strategy_demolishes@.len(),
        ensures
            final(self).wf(),
            same_plan(*old(self), *final(self)),
            ({
                let cam0 = old(self).camera;
                let y = t.map_y as int;
                let seen = row_in_view(old(self).config, cam0, y);
                let cam2 = if seen {
                    cam0
                } else {
                    CameraController { offset_y: cam0.offset_after_scroll(y) as i64, ..cam0 }
                };
                &&& final(out)@ == old(out)@ + (if seen {
                    seq![]
                } else {
                    cam0.scroll_moves(y)
                }) + demolish_steps(safe_point(old(self).config, cam2.offset_y as int, t.map_x as int, y))
                &&& final(self).camera == cam2
            }),
            final(self).completed_demolish_uids@ == old(self).completed_demolish_uids@.push(old(self).strategy_demolishes@[i as int].uid),
            final(self).placed_uids == old(self).placed_uids,
            final(self).completed_upgrade_keys == old(self).completed_upgrade_keys,
            no_placement_from(final(out)@, old(out)@.len() as int),
            final(out)@.len() > old(out)@.len(),
    {
        let ghost out0 = out@;
        let ghost cam0 = self.camera;
        let ghost seen = row_in_view(self.config, cam0, t.map_y as int);
        proof {
            lemma_scroll_moves_plain(cam0, t.map_y as int);
        }
        self.follow_row(t.map_y, out);
        let ghost out_moved = out@;
        let uid = self.strategy_demolishes[i].uid;
        let ghost mid = *self;
        self.perform_demolish_action(t.map_x, t.map_y, uid, out);
        proof {
            let d = demolish_steps(safe_point(mid.config, mid.camera.offset_y as int, t.map_x as int, t.map_y as int));
            let mv = if seen { Seq::<InputAction>::empty() } else { cam0.scroll_moves(t.map_y as int) };
            assert(out_moved == out0 + mv);
            assert(out@ =~= out0 + mv + d);
            assert forall|k: int| 0 <= k < d.len() implies !(#[trigger] d[k] is DoubleClick) by {}
            lemma_concat_no_placement(out0, mv, d);
        }
    }

    #[verifier::rlimit(100)]
    #[verifier::spinoff_prover]
    fn place_task(&mut self, t: ScheduledTask, i: usize, last: &mut Option<char>, refresh: bool, out: &mut Vec<InputAction>)
        requires
            old(self).wf(),
            t.action == TaskAction::Place(i),
            i < old(self).strategy_buildings@.len(),
        ensures
            final(self).wf(),
            same_plan(*old(self), *final(self)),
            ({
                let cam0 = old(self).camera;
                let y = t.map_y as int;
                let seen = row_in_view(old(self).config, cam0, y);
                let cam2 = if seen {
                    cam0
                } else {
                    CameraController { offset_y: cam0.offset_after_scroll(y) as i64, ..cam0 }
                };
                let moved = (!seen && cam0.scroll_moved(y)) || refresh;
                let key = trap_key(old(self).active_loadout@, old(self).strategy_buildings@[i as int].name@);
                &&& final(out)@ == old(out)@ + (if seen {
                    seq![]
                } else {
                    cam0.scroll_moves(y)
                }) + build_steps(safe_point(old(self).config, cam2.offset_y as int, t.map_x as int, y), moved, *old(last), key)
                &&& final(self).camera == cam2
                &&& *final(last) == next_tool(moved, *old(last), key)
            }),
            final(self).placed_uids@ == old(self).placed_uids@.push(old(self).strategy_buildings@[i as int].uid),
            final(self).completed_demolish_uids == old(self).completed_demolish_uids,
            final(self).completed_upgrade_keys == old(self).completed_upgrade_keys,
            no_demolition_from(final(out)@, old(out)@.len() as int),
            final(out)@.len() > old(out)@.len(),
    {
        let ghost out0 = out@;
        let ghost cam0 = self.camera;
        let ghost seen = row_in_view(self.config, cam0, t.map_y as int);
        proof {
            lemma_scroll_moves_plain(cam0, t.map_y as int);
        }
        let moved = self.follow_row(t.map_y, out);
        let screen_moved = moved || refresh;
        let ghost out_moved = out@;
        let uid = self.strategy_buildings[i].uid;
        let ghost mid = *self;
        let name = owned(self.strategy_buildings[i].name.as_str());
        let ghost last0 = *last;
        self.perform_build_action(last, screen_moved, t.map_x, t.map_y, name.as_str(), uid, out);
        proof {
            let key = trap_key(mid.active_loadout@, name@);
            let p = safe_point(mid.config, mid.camera.offset_y as int, t.map_x as int, t.map_y as int);
            let mv = if seen { Seq::<InputAction>::empty() } else { cam0.scroll_moves(t.map_y as int) };
            let b = build_steps(p, screen_moved, last0, key);
            assert(out_moved == out0 + mv);
            lemma_build_steps_no_demolition(p, screen_moved, last0, key);
            assert(out@ =~= out0 + mv + b);
            lemma_concat_no_demolition(out0, mv, b);
            assert(key == trap_key(old(self).active_loadout@, old(self).strategy_buildings@[i as int].name@));
            assert(screen_moved == ((!seen && cam0.scroll_moved(t.map_y as int)) || refresh));
        }
    }

    /// Performs the tasks `order` (indices into `tasks`) in that order. A
    /// spatial task first brings its row into view; upgrades run wherever the
    /// camera is. With `force_initial_refresh` the first spatial task treats
    /// the screen as freshly moved.
    #[verifier::rlimit(100)]
    #[verifier::spinoff_prover]
    fn process_task_batch(
        &mut self,
        tasks: &Vec<ScheduledTask>,
        order: &Vec<usize>,
        force_initial_refresh: bool,
        out: &mut Vec<InputAction>,
    )
        requires
            old(self).wf(),
            forall|m: int| 0 <= m < order@.len() ==> #[trigger] order@[m] < tasks@.len() && task_valid(*old(self), tasks@[order@[m] as int]),
        ensures
            final(self).wf(),
            same_plan(*old(self), *final(self)),
            records_batch(*old(self), *final(self), tasks@, order@),
            old(out)@.is_prefix_of(final(out)@),
            (forall|m: int| 0 <= m < order@.len() ==> tasks@[#[trigger] order@[m] as int].action is Demolish) ==> no_placement_from(
                final(out)@,
                old(out)@.len() as int,
            ),
            (forall|m: int| 0 <= m < order@.len() ==> !(tasks@[#[trigger] order@[m] as int].action is Demolish)) ==> no_demolition_from(
                final(out)@,
                old(out)@.len() as int,
            ),
            final(out)@.len() >= old(out)@.len() + order@.len(),
            final(out)@ == old(out)@ + batch_run(*old(self), tasks@, order@, old(self).camera, None, force_initial_refresh).0,
            final(self).camera == batch_run(*old(self), tasks@, order@, old(self).camera, None, force_initial_refresh).1,
    {
        let ghost start = out@.len();
        let ghost app0 = *old(self);
        let ghost all_demolish = forall|m: int| 0 <= m < order@.len() ==> tasks@[#[trigger] order@[m] as int].action is Demolish;
        let ghost no_demolish = forall|m: int| 0 <= m < order@.len() ==> !(tasks@[#[trigger] order@[m] as int].action is Demolish);
        let ghost full = batch_run(app0, tasks@, order@, old(self).camera, None, force_initial_refresh);
        let mut last_build_key: Option<char> = None;
        let mut is_first_task = true;
        let mut m: usize = 0;
        assert(order@.subrange(0, order@.len() as int) =~= order@);
        proof {
            assert forall|x: usize| !batch_demolishes(app0.strategy_demolishes@, tasks@, order@.subrange(0, 0), x) by {}
            assert forall|x: usize| !batch_places(app0.strategy_buildings@, tasks@, order@.subrange(0, 0), x) by {}
            assert forall|name: Seq<char>, w: i32, l: bool| !batch_upgrades(app0.strategy_upgrades@, tasks@, order@.subrange(0, 0), name, w, l) by {}
        }
        while m < order.len()
            invariant
                m <= order@.len(),
                self.wf(),
                same_plan(app0, *self),
                app0 == *old(self),
                forall|k: int| 0 <= k < order@.len() ==> #[trigger] order@[k] < tasks@.len() && task_valid(app0, tasks@[order@[k] as int]),
                records_batch(app0, *self, tasks@, order@.subrange(0, m as int)),
                old(out)@.is_prefix_of(out@),
                start == old(out)@.len(),
                all_demolish == (forall|m: int| 0 <= m < order@.len() ==> tasks@[#[trigger] order@[m] as int].action is Demolish),
                no_demolish == (forall|m: int| 0 <= m < order@.len() ==> !(tasks@[#[trigger] order@[m] as int].action is Demolish)),
                all_demolish ==> no_placement_from(out@, start as int),
                no_demolish ==> no_demolition_from(out@, start as int),
                out@.len() >= start + m,
                full == batch_run(app0, tasks@, order@, old(self).camera, None, force_initial_refresh),
                old(out)@ + full.0 == out@ + batch_run(
                    app0,
                    tasks@,
                    order@.subrange(m as int, order@.len() as int),
                    self.camera,
                    last_build_key,
                    is_first_task && force_initial_refresh,
                ).0,
                full.1 == batch_run(
                    app0,
                    tasks@,
                    order@.subrange(m as int, order@.len() as int),
                    self.camera,
                    last_build_key,
                    is_first_task && force_initial_refresh,
                ).1,
            decreases order@.len() - m,
        {
            let t = tasks[order[m]];
            let ghost before = *self;
            let ghost out_before = out@;
            let ghost rest = order@.subrange(m as int, order@.len() as int);
            let ghost refresh = is_first_task && force_initial_refresh;
            let ghost last0 = last_build_key;
            proof {
                assert(rest[0] == order@[m as int]);
                assert(rest.drop_first() =~= order@.subrange(m + 1, order@.len() as int));
                lemma_batch_run_unfold(app0, tasks@, rest, self.camera, last_build_key, refresh);
                lemma_batch_extend(app0, tasks@, order@, m as int);
                assert(task_valid(*self, t));
            }
            let spatial = match t.action {
                TaskAction::Upgrade(_) => false,
                _ => true,
            };
            self.process_one(t, &mut last_build_key, is_first_task && force_initial_refresh, out);
            if spatial && is_first_task && force_initial_refresh {
                is_first_task = false;
            }
            proof {
                assert(task_steps(before, t, before.camera, last0, refresh) == task_steps(app0, t, before.camera, last0, refresh));
                assert((is_first_task && force_initial_refresh) == task_steps(app0, t, before.camera, last0, refresh).3);
                if all_demolish {
                    assert(t.action is Demolish);
                    assert forall|k: int| start <= k < out@.len() implies !(#[trigger] out@[k] is DoubleClick) by {
                        if k < out_before.len() {
                            assert(out@[k] == out_before[k]);
                        }
                    }
                }
                if no_demolish {
                    assert(!(t.action is Demolish));
                    assert forall|k: int| start <= k < out@.len() implies #[trigger] out@[k] != (InputAction::KeyClick { key: 'e' }) by {
                        if k < out_before.len() {
                            assert(out@[k] == out_before[k]);
                        }
                    }
                }
                assert(out_before.is_prefix_of(out@));
                lemma_record_step(app0, before, *self, t);
            }
            m = m + 1;
        }
        proof {
            lemma_batch_run_unfold(app0, tasks@, order@.subrange(m as int, order@.len() as int), self.camera, last_build_key,
                is_first_task && force_initial_refresh);
        }
    }

    /// Splits `tasks` at the map's vertical middle and performs the upper
    /// half top-down, then the lower half bottom-up. A half whose rows are
    /// all in view runs as is; otherwise the camera is first aligned to that
    /// half's edge and the first placement refreshes the tool selection.
    #[verifier::rlimit(50)]
    #[verifier::spinoff_prover]
    fn dispatch_tasks_by_region(&mut self, tasks: &Vec<ScheduledTask>, out: &mut Vec<InputAction>)
        requires
            old(self).wf(),
            forall|k: int| 0 <= k < tasks@.len() ==> task_valid(*old(self), #[trigger] tasks@[k]),
        ensures
            final(self).wf(),
            same_plan(*old(self), *final(self)),
            records_batch(*old(self), *final(self), tasks@, all_indices(tasks@.len())),
            old(out)@.is_prefix_of(final(out)@),
            (forall|k: int| 0 <= k < tasks@.len() ==> (#[trigger] tasks@[k]).action is Demolish) ==> no_placement_from(
                final(out)@,
                old(out)@.len() as int,
            ),
            (forall|k: int| 0 <= k < tasks@.len() ==> !((#[trigger] tasks@[k]).action is Demolish)) ==> no_demolition_from(
                final(out)@,
                old(out)@.len() as int,
            ),
            tasks@.len() > 0 ==> final(out)@.len() > old(out)@.len(),
            final(out)@ == old(out)@ + dispatch_run(*old(self), tasks@, old(self).camera).0,
            final(self).camera == dispatch_run(*old(self), tasks@, old(self).camera).1,
    {
        let ghost s0 = *self;
        let ghost start = out@.len();
        let ghost all_demolish = forall|k: int| 0 <= k < tasks@.len() ==> (#[trigger] tasks@[k]).action is Demolish;
        let ghost no_demolish = forall|k: int| 0 <= k < tasks@.len() ==> !((#[trigger] tasks@[k]).action is Demolish);
        let mut upper_raw: Vec<usize> = Vec::new();
        let mut lower_raw: Vec<usize> = Vec::new();
        let bottom = self.map_meta.bottom as i128;
        let mut k: usize = 0;
        while k < tasks.len()
            invariant
                k <= tasks@.len(),
                forall|m: int| 0 <= m < upper_raw@.len() ==> #[trigger] upper_raw@[m] < tasks@.len(),
                forall|m: int| 0 <= m < lower_raw@.len() ==> #[trigger] lower_raw@[m] < tasks@.len(),
                forall|j: usize| j < k <==> upper_raw@.contains(j) || lower_raw@.contains(j),
                forall|j: usize| upper_raw@.contains(j) ==> j < k,
                forall|j: usize| lower_raw@.contains(j) ==> j < k,
                bottom == s0.map_meta.bottom as int,
                upper_raw@ == region_indices(tasks@, k as nat, bottom as int, true),
                lower_raw@ == region_indices(tasks@, k as nat, bottom as int, false),
            decreases tasks@.len() - k,
        {
            let t = &tasks[k];
            let is_upper = match t.action {
                TaskAction::Upgrade(_) => true,
                _ => 2 * (t.map_y as i128) <= bottom,
            };
            let ghost u0 = upper_raw@;
            let ghost l0 = lower_raw@;
            proof {
                assert(is_upper == in_upper_half(tasks@[k as int], bottom as int));
            }
            if is_upper {
                upper_raw.push(k);
            } else {
                lower_raw.push(k);
            }
            proof {
                assert forall|j: usize| j < k + 1 <==> upper_raw@.contains(j) || lower_raw@.contains(j) by {
                    if upper_raw@.contains(j) && !u0.contains(j) {
                        let m = choose|m: int| 0 <= m < upper_raw@.len() && upper_raw@[m] == j;
                        if m < u0.len() {
                            assert(u0[m] == j);
                        }
                    }
                    if lower_raw@.contains(j) && !l0.contains(j) {
                        let m = choose|m: int| 0 <= m < lower_raw@.len() && lower_raw@[m] == j;
                        if m < l0.len() {
                            assert(l0[m] == j);
                        }
                    }
                    if u0.contains(j) {
                        let m = choose|m: int| 0 <= m < u0.len() && u0[m] == j;
                        assert(upper_raw@[m] == j);
                    }
                    if l0.contains(j) {
                        let m = choose|m: int| 0 <= m < l0.len() && l0[m] == j;
                        assert(lower_raw@[m] == j);
                    }
                    if j == k {
                        if is_upper {
                            assert(upper_raw@[upper_raw@.len() - 1] == j);
                        } else {
                            assert(lower_raw@[lower_raw@.len() - 1] == j);
                        }
                    }
                }
                assert forall|j: usize| upper_raw@.contains(j) implies j < k + 1 by {
                    let m = choose|m: int| 0 <= m < upper_raw@.len() && upper_raw@[m] == j;
                    if m < u0.len() {
                        assert(u0[m] == j);
                    }
                }
                assert forall|j: usize| lower_raw@.contains(j) implies j < k + 1 by {
                    let m = choose|m: int| 0 <= m < lower_raw@.len() && lower_raw@[m] == j;
                    if m < l0.len() {
                        assert(l0[m] == j);
                    }
                }
            }
            k = k + 1;
        }
        proof {
            if tasks@.len() > 0 {
                assert((0 as usize) < k);
                assert(upper_raw@.contains(0) || lower_raw@.contains(0));
            }
        }
        let upper = sort_indices(tasks, &upper_raw, true);
        let lower = sort_indices(tasks, &lower_raw, false);
        let ghost out0 = out@;
        proof {
            assert forall|m: int| 0 <= m < upper@.len() implies tasks@[#[trigger] upper@[m] as int] == tasks@[upper@[m] as int] by {}
        }
        proof {
            if all_demolish {
                assert forall|m: int| 0 <= m < upper@.len() implies tasks@[#[trigger] upper@[m] as int].action is Demolish by {
                    assert(tasks@[upper@[m] as int].action is Demolish);
                }
                assert forall|m: int| 0 <= m < lower@.len() implies tasks@[#[trigger] lower@[m] as int].action is Demolish by {
                    assert(tasks@[lower@[m] as int].action is Demolish);
                }
            }
            if no_demolish {
                assert forall|m: int| 0 <= m < upper@.len() implies !(tasks@[#[trigger] upper@[m] as int].action is Demolish) by {
                    assert(!(tasks@[upper@[m] as int].action is Demolish));
                }
                assert forall|m: int| 0 <= m < lower@.len() implies !(tasks@[#[trigger] lower@[m] as int].action is Demolish) by {
                    assert(!(tasks@[lower@[m] as int].action is Demolish));
                }
            }
        }
        let ghost s_pre = *self;
        let ghost o_pre = out@;
        if upper.len() > 0 {
            if !self.are_tasks_in_current_view(tasks, &upper) {
                let ghost o0 = out@;
                self.camera.align_camera_to_edge(true, out);
                proof {
                    assert forall|k: int| o0.len() <= k < out@.len() implies (#[trigger] out@[k] is KeyHold || out@[k] is Sleep) by {
                        assert(out@[k] == align_steps(true)[k - o0.len()]);
                    }
                    lemma_clean_extend(o0, out@, start as int, o0.len() as int, all_demolish, no_demolish);
                }
                let ghost o1 = out@;
                let ghost sa = *self;
                self.process_task_batch(tasks, &upper, true, out);
                proof {
                    lemma_clean_extend(o1, out@, start as int, o1.len() as int, all_demolish, no_demolish);
                    lemma_batch_run_plan(sa, s0, tasks@, upper@, sa.camera, None, true);
                    assert(out@ =~= o_pre + region_run(s0, tasks@, upper@, s_pre.camera, true).0);
                }
            } else {
                let ghost o1 = out@;
                self.process_task_batch(tasks, &upper, false, out);
                proof {
                    lemma_clean_extend(o1, out@, start as int, o1.len() as int, all_demolish, no_demolish);
                    lemma_batch_run_plan(s_pre, s0, tasks@, upper@, s_pre.camera, None, false);
                }
            }
        } else {
            proof {
                assert forall|x: usize| !batch_demolishes(s0.strategy_demolishes@, tasks@, upper@, x) by {}
                assert forall|x: usize| !batch_places(s0.strategy_buildings@, tasks@, upper@, x) by {}
                assert forall|name: Seq<char>, w: i32, l: bool| !batch_upgrades(s0.strategy_upgrades@, tasks@, upper@, name, w, l) by {}
            }
        }
        let ghost s1 = *self;
        let ghost out1 = out@;
        proof {
            assert(out1 == out0 + region_run(s0, tasks@, upper@, s0.camera, true).0);
            assert(s1.camera == region_run(s0, tasks@, upper@, s0.camera, true).1);
        }
        let ghost s_pre = *self;
        let ghost o_pre = out@;
        if lower.len() > 0 {
            if !self.are_tasks_in_current_view(tasks, &lower) {
                let ghost o0 = out@;
                self.camera.align_camera_to_edge(false, out);
                proof {
                    assert forall|k: int| o0.len() <= k < out@.len() implies (#[trigger] out@[k] is KeyHold || out@[k] is Sleep) by {
                        assert(out@[k] == align_steps(false)[k - o0.len()]);
                    }
                    lemma_clean_extend(o0, out@, start as int, o0.len() as int, all_demolish, no_demolish);
                }
                let ghost o1 = out@;
                let ghost sa = *self;
                self.process_task_batch(tasks, &lower, true, out);
                proof {
                    lemma_clean_extend(o1, out@, start as int, o1.len() as int, all_demolish, no_demolish);
                    lemma_batch_run_plan(sa, s0, tasks@, lower@, sa.camera, None, true);
                    assert(out@ =~= o_pre + region_run(s0, tasks@, lower@, s_pre.camera, false).0);
                }
            } else {
                let ghost o1 = out@;
                self.process_task_batch(tasks, &lower, false, out);
                proof {
                    lemma_clean_extend(o1, out@, start as int, o1.len() as int, all_demolish, no_demolish);
                    lemma_batch_run_plan(s_pre, s0, tasks@, lower@, s_pre.camera, None, false);
                }
            }
        } else {
            proof {
                assert forall|x: usize| !batch_demolishes(s1.strategy_demolishes@, tasks@, lower@, x) by {}
                assert forall|x: usize| !batch_places(s1.strategy_buildings@, tasks@, lower@, x) by {}
                assert forall|name: Seq<char>, w: i32, l: bool| !batch_upgrades(s1.strategy_upgrades@, tasks@, lower@, name, w, l) by {}
            }
        }
        proof {
            let all = all_indices(tasks@.len());
            assert forall|j: usize| all.contains(j) <==> upper@.contains(j) || lower@.contains(j) by {
                if j < tasks@.len() {
                    assert(all[j as int] == j);
                }
            }
            lemma_records_join(s0, s1, *self, tasks@, upper@, lower@, all);
            assert(out0.is_prefix_of(out1));
            assert(out@ == out1 + region_run(s0, tasks@, lower@, s1.camera, false).0);
            assert(self.camera == region_run(s0, tasks@, lower@, s1.camera, false).1);
            assert(out@ =~= out0 + dispatch_run(s0, tasks@, s0.camera).0);
        }
    }
}

proof fn lemma_batch_push(
    ds: Seq<DemolishEvent>,
    bs: Seq<BuildingExport>,
    us: Seq<UpgradeEvent>,
    tasks: Seq<ScheduledTask>,
    t: ScheduledTask,
)
    requires
        tasks.len() < usize::MAX,
    ensures
        forall|x: usize| #[trigger] batch_demolishes(ds, tasks.push(t), all_indices(tasks.len() + 1), x) <==> batch_demolishes(ds, tasks, all_indices(tasks.len()), x)
            || task_demolishes(ds, t, x),
        forall|x: usize| #[trigger] batch_places(bs, tasks.push(t), all_indices(tasks.len() + 1), x) <==> batch_places(bs, tasks, all_indices(tasks.len()), x)
            || task_places(bs, t, x),
        forall|name: Seq<char>, w: i32, l: bool| #[trigger] batch_upgrades(us, tasks.push(t), all_indices(tasks.len() + 1), name, w, l) <==> batch_upgrades(
            us,
            tasks,
            all_indices(tasks.len()),
            name,
            w,
            l,
        ) || task_upgrades(us, t, name, w, l),
{
    let t2 = tasks.push(t);
    let a = all_indices(tasks.len());
    let b = all_indices(tasks.len() + 1);
    assert forall|x: usize| #[trigger] batch_demolishes(ds, t2, b, x) <==> batch_demolishes(ds, tasks, a, x) || task_demolishes(ds, t, x) by {
        if batch_demolishes(ds, t2, b, x) {
            let k = choose|k: int| 0 <= k < b.len() && #[trigger] task_demolishes(ds, t2[b[k] as int], x);
            if k < tasks.len() {
                assert(a[k] == b[k] && t2[k] == tasks[k]);
            }
        }
        if batch_demolishes(ds, tasks, a, x) {
            let k = choose|k: int| 0 <= k < a.len() && #[trigger] task_demolishes(ds, tasks[a[k] as int], x);
            assert(a[k] == b[k] && t2[k] == tasks[k]);
        }
        if task_demolishes(ds, t, x) {
            assert(t2[b[tasks.len() as int] as int] == t);
        }
    }
    assert forall|x: usize| #[trigger] batch_places(bs, t2, b, x) <==> batch_places(bs, tasks, a, x) || task_places(bs, t, x) by {
        if batch_places(bs, t2, b, x) {
            let k = choose|k: int| 0 <= k < b.len() && #[trigger] task_places(bs, t2[b[k] as int], x);
            if k < tasks.len() {
                assert(a[k] == b[k] && t2[k] == tasks[k]);
            }
        }
        if batch_places(bs, tasks, a, x) {
            let k = choose|k: int| 0 <= k < a.len() && #[trigger] task_places(bs, tasks[a[k] as int], x);
            assert(a[k] == b[k] && t2[k] == tasks[k]);
        }
        if task_places(bs, t, x) {
            assert(t2[b[tasks.len() as int] as int] == t);
        }
    }
    assert forall|name: Seq<char>, w: i32, l: bool| #[trigger] batch_upgrades(us, t2, b, name, w, l) <==> batch_upgrades(us, tasks, a, name, w, l)
        || task_upgrades(us, t, name, w, l) by {
        if batch_upgrades(us, t2, b, name, w, l) {
            let k = choose|k: int| 0 <= k < b.len() && #[trigger] task_upgrades(us, t2[b[k] as int], name, w, l);
            if k < tasks.len() {
                assert(a[k] == b[k] && t2[k] == tasks[k]);
            }
        }
        if batch_upgrades(us, tasks, a, name, w, l) {
            let k = choose|k: int| 0 <= k < a.len() && #[trigger] task_upgrades(us, tasks[a[k] as int], name, w, l);
            assert(a[k] == b[k] && t2[k] == tasks[k]);
        }
        if task_upgrades(us, t, name, w, l) {
            assert(t2[b[tasks.len() as int] as int] == t);
        }
    }
}

impl TowerDefenseApp {
    /// The pending demolitions of `(wave, late)`, in strategy order.
    #[verifier::rlimit(50)]
    #[verifier::spinoff_prover]
    fn collect_demolish_tasks(&self, wave: i32, late: bool) -> (r: Vec<ScheduledTask>)
        ensures
            forall|k: int| 0 <= k < r@.len() ==> task_valid(*self, #[trigger] r@[k]) && r@[k].action is Demolish,
            r@ == demolish_list(*self, wave, late, self.strategy_demolishes@.len()),
            forall|x: usize| #[trigger] batch_demolishes(self.strategy_demolishes@, r@, all_indices(r@.len()), x) <==> exists|i: int|
                #[trigger] demolish_pending(*self, i, wave, late) && self.strategy_demolishes@[i].uid == x,
            forall|x: usize| !#[trigger] batch_places(self.strategy_buildings@, r@, all_indices(r@.len()), x),
            forall|name: Seq<char>, w: i32, l: bool| !#[trigger] batch_upgrades(self.strategy_upgrades@, r@, all_indices(r@.len()), name, w, l),
    {
        let mut r: Vec<ScheduledTask> = Vec::new();
        let mut i: usize = 0;
        let _ = self.strategy_demolishes.len();
        while i < self.strategy_demolishes.len()
            invariant
                i <= self.strategy_demolishes@.len(),
                self.strategy_demolishes@.len() <= usize::MAX,
                r@.len() <= i,
                r@ == demolish_list(*self, wave, late, i as nat),
                forall|k: int| 0 <= k < r@.len() ==> task_valid(*self, #[trigger] r@[k]) && r@[k].action is Demolish,
                forall|x: usize| #[trigger] batch_demolishes(self.strategy_demolishes@, r@, all_indices(r@.len()), x) <==> exists|j: int|
                    0 <= j < i && #[trigger] demolish_pending(*self, j, wave, late) && self.strategy_demolishes@[j].uid == x,
                forall|x: usize| !#[trigger] batch_places(self.strategy_buildings@, r@, all_indices(r@.len()), x),
                forall|name: Seq<char>, w: i32, l: bool| !#[trigger] batch_upgrades(self.strategy_upgrades@, r@, all_indices(r@.len()), name, w, l),
            decreases self.strategy_demolishes@.len() - i,
        {
            let d = &self.strategy_demolishes[i];
            let mut added = false;
            if d.wave_num == wave && d.is_late == late && !vec_contains(&self.completed_demolish_uids, d.uid) {
                if let Some((px, py)) = self.get_absolute_map_pixel(d.grid_x, d.grid_y, d.width, d.height) {
                    let t = ScheduledTask { action: TaskAction::Demolish(i), map_x: px, map_y: py, priority: 0 };
                    proof {
                        lemma_batch_push(self.strategy_demolishes@, self.strategy_buildings@, self.strategy_upgrades@, r@, t);
                    }
                    r.push(t);
                    added = true;
                }
            }
            proof {
                assert(added <==> demolish_pending(*self, i as int, wave, late));
                assert forall|x: usize| #[trigger] batch_demolishes(self.strategy_demolishes@, r@, all_indices(r@.len()), x) <==> exists|j: int|
                    0 <= j < i + 1 && #[trigger] demolish_pending(*self, j, wave, late) && self.strategy_demolishes@[j].uid == x by {
                    if exists|j: int| 0 <= j < i + 1 && #[trigger] demolish_pending(*self, j, wave, late) && self.strategy_demolishes@[j].uid == x {
                        let j = choose|j: int| 0 <= j < i + 1 && #[trigger] demolish_pending(*self, j, wave, late) && self.strategy_demolishes@[j].uid == x;
                        if j == i {
                            assert(added);
                        }
                    }
                }
                assert forall|k: int| 0 <= k < r@.len() implies task_valid(*self, #[trigger] r@[k]) && r@[k].action is Demolish by {}
            }
            i = i + 1;
        }
        proof {
            assert forall|x: usize| #[trigger] batch_demolishes(self.strategy_demolishes@, r@, all_indices(r@.len()), x) <==> exists|j: int|
                #[trigger] demolish_pending(*self, j, wave, late) && self.strategy_demolishes@[j].uid == x by {
                if exists|j: int| #[trigger] demolish_pending(*self, j, wave, late) && self.strategy_demolishes@[j].uid == x {
                    let j = choose|j: int| #[trigger] demolish_pending(*self, j, wave, late) && self.strategy_demolishes@[j].uid == x;
                    assert(0 <= j < i);
                }
            }
        }
        r
    }

    /// The pending placements, then the pending upgrades, of `(wave, late)`,
    /// each in strategy order.
    #[verifier::rlimit(80)]
    #[verifier::spinoff_prover]
    fn collect_build_upgrade_tasks(&self, wave: i32, late: bool) -> (r: Vec<ScheduledTask>)
        ensures
            forall|k: int| 0 <= k < r@.len() ==> task_valid(*self, #[trigger] r@[k]) && !(r@[k].action is Demolish),
            r@ == build_list(*self, wave, late, self.strategy_buildings@.len()) + upgrade_list(
                *self,
                wave,
                late,
                self.strategy_upgrades@.len(),
            ),
            forall|x: usize| !#[trigger] batch_demolishes(self.strategy_demolishes@, r@, all_indices(r@.len()), x),
            forall|x: usize| #[trigger] batch_places(self.strategy_buildings@, r@, all_indices(r@.len()), x) <==> exists|i: int|
                #[trigger] build_pending(*self, i, wave, late) && self.strategy_buildings@[i].uid == x,
            forall|name: Seq<char>, w: i32, l: bool| #[trigger] batch_upgrades(self.strategy_upgrades@, r@, all_indices(r@.len()), name, w, l) <==> exists|i: int|
                #[trigger] upgrade_pending(*self, i, wave, late) && self.strategy_upgrades@[i].building_name@ == name && w == wave && l == late,
    {
        let mut r: Vec<ScheduledTask> = Vec::new();
        let mut i: usize = 0;
        let _ = self.strategy_buildings.len();
        let _ = self.strategy_upgrades.len();
        while i < self.strategy_buildings.len()
            invariant
                i <= self.strategy_buildings@.len(),
                self.strategy_buildings@.len() <= usize::MAX,
                r@.len() <= i,
                r@ == build_list(*self, wave, late, i as nat),
                forall|k: int| 0 <= k < r@.len() ==> task_valid(*self, #[trigger] r@[k]) && r@[k].action is Place,
                forall|x: usize| !#[trigger] batch_demolishes(self.strategy_demolishes@, r@, all_indices(r@.len()), x),
                forall|x: usize| #[trigger] batch_places(self.strategy_buildings@, r@, all_indices(r@.len()), x) <==> exists|j: int|
                    0 <= j < i && #[trigger] build_pending(*self, j, wave, late) && self.strategy_buildings@[j].uid == x,
                forall|name: Seq<char>, w: i32, l: bool| !#[trigger] batch_upgrades(self.strategy_upgrades@, r@, all_indices(r@.len()), name, w, l),
            decreases self.strategy_buildings@.len() - i,
        {
            let b = &self.strategy_buildings[i];
            let mut added = false;
            if b.wave_num == wave && b.is_late == late && !vec_contains(&self.placed_uids, b.uid) {
                if let Some((px, py)) = self.get_absolute_map_pixel(b.grid_x, b.grid_y, b.width, b.height) {
                    let t = ScheduledTask { action: TaskAction::Place(i), map_x: px, map_y: py, priority: 1 };
                    proof {
                        lemma_batch_push(self.strategy_demolishes@, self.strategy_buildings@, self.strategy_upgrades@, r@, t);
                    }
                    r.push(t);
                    added = true;
                }
            }
            proof {
                assert(added <==> build_pending(*self, i as int, wave, late));
                assert forall|x: usize| #[trigger] batch_places(self.strategy_buildings@, r@, all_indices(r@.len()), x) <==> exists|j: int|
                    0 <= j < i + 1 && #[trigger] build_pending(*self, j, wave, late) && self.strategy_buildings@[j].uid == x by {
                    if exists|j: int| 0 <= j < i + 1 && #[trigger] build_pending(*self, j, wave, late) && self.strategy_buildings@[j].uid == x {
                        let j = choose|j: int| 0 <= j < i + 1 && #[trigger] build_pending(*self, j, wave, late) && self.strategy_buildings@[j].uid == x;
                        if j == i {
                            assert(added);
                        }
                    }
                }
                assert forall|k: int| 0 <= k < r@.len() implies task_valid(*self, #[trigger] r@[k]) && r@[k].action is Place by {}
            }
            i = i + 1;
        }
        let mut i: usize = 0;
        while i < self.strategy_upgrades.len()
            invariant
                i <= self.strategy_upgrades@.len(),
                self.strategy_upgrades@.len() <= usize::MAX,
                self.strategy_buildings@.len() <= usize::MAX,
                r@.len() <= self.strategy_buildings@.len() + i,
                r@ == build_list(*self, wave, late, self.strategy_buildings@.len()) + upgrade_list(*self, wave, late, i as nat),
                forall|k: int| 0 <= k < r@.len() ==> task_valid(*self, #[trigger] r@[k]) && !(r@[k].action is Demolish),
                forall|x: usize| !#[trigger] batch_demolishes(self.strategy_demolishes@, r@, all_indices(r@.len()), x),
                forall|x: usize| #[trigger] batch_places(self.strategy_buildings@, r@, all_indices(r@.len()), x) <==> exists|j: int|
                    #[trigger] build_pending(*self, j, wave, late) && self.strategy_buildings@[j].uid == x,
                forall|name: Seq<char>, w: i32, l: bool| #[trigger] batch_upgrades(self.strategy_upgrades@, r@, all_indices(r@.len()), name, w, l) <==> exists|j: int|
                    0 <= j < i && #[trigger] upgrade_pending(*self, j, wave, late) && self.strategy_upgrades@[j].building_name@ == name && w == wave && l == late,
            decreases self.strategy_upgrades@.len() - i,
        {
            let u = &self.strategy_upgrades[i];
            let mut added = false;
            if u.wave_num == wave && u.is_late == late && !upgrade_done_exec(&self.completed_upgrade_keys, u.building_name.as_str(), u.wave_num, u.is_late) {
                let t = ScheduledTask { action: TaskAction::Upgrade(i), map_x: 0, map_y: 0, priority: 2 };
                let ghost r0 = r@;
                r.push(t);
                let _ = r.len();
                proof {
                    lemma_batch_push(self.strategy_demolishes@, self.strategy_buildings@, self.strategy_upgrades@, r0, t);
                }
                added = true;
            }
            proof {
                assert(added <==> upgrade_pending(*self, i as int, wave, late));
                assert forall|name: Seq<char>, w: i32, l: bool| #[trigger] batch_upgrades(self.strategy_upgrades@, r@, all_indices(r@.len()), name, w, l) <==> exists|j: int|
                    0 <= j < i + 1 && #[trigger] upgrade_pending(*self, j, wave, late) && self.strategy_upgrades@[j].building_name@ == name && w == wave && l == late by {
                    if exists|j: int| 0 <= j < i + 1 && #[trigger] upgrade_pending(*self, j, wave, late) && self.strategy_upgrades@[j].building_name@ == name && w == wave && l == late {
                        let j = choose|j: int| 0 <= j < i + 1 && #[trigger] upgrade_pending(*self, j, wave, late) && self.strategy_upgrades@[j].building_name@ == name && w == wave && l == late;
                        if j == i {
                            assert(added);
                        }
                    }
                }
                assert forall|k: int| 0 <= k < r@.len() implies task_valid(*self, #[trigger] r@[k]) && !(r@[k].action is Demolish) by {}
            }
            i = i + 1;
        }
        proof {
            assert forall|name: Seq<char>, w: i32, l: bool| #[trigger] batch_upgrades(self.strategy_upgrades@, r@, all_indices(r@.len()), name, w, l) <==> exists|j: int|
                #[trigger] upgrade_pending(*self, j, wave, late) && self.strategy_upgrades@[j].building_name@ == name && w == wave && l == late by {
                if exists|j: int| #[trigger] upgrade_pending(*self, j, wave, late) && self.strategy_upgrades@[j].building_name@ == name && w == wave && l == late {
                    let j = choose|j: int| #[trigger] upgrade_pending(*self, j, wave, late) && self.strategy_upgrades@[j].building_name@ == name && w == wave && l == late;
                    assert(0 <= j < i);
                }
            }
        }
        r
    }

    /// Runs one wave phase: every pending demolition of `(wave, is_late)`
    /// first, over the whole map, then the pending placements and upgrades.
    /// Returns the input steps to perform; the tasks are recorded as done.
    #[verifier::rlimit(80)]
    #[verifier::spinoff_prover]
    pub fn execute_wave_phase(&mut self, wave: i32, is_late: bool) -> (out: Vec<InputAction>)
        requires
            old(self).wf(),
        ensures
            final(self).wf(),
            same_plan(*old(self), *final(self)),
            phase_done(*old(self), *final(self), wave, is_late),
            forall|a: int, b: int|
                0 <= a < out@.len() && 0 <= b < out@.len() && #[trigger] out@[a] == (InputAction::KeyClick { key: 'e' })
                    && #[trigger] out@[b] is DoubleClick ==> a < b,
            out@ == phase_steps(*old(self), wave, is_late),
            out@.len() > 0 <==> (exists|i: int| #[trigger] demolish_pending(*old(self), i, wave, is_late)) || (exists|i: int|
                #[trigger] build_pending(*old(self), i, wave, is_late)) || (exists|i: int| #[trigger] upgrade_pending(*old(self), i, wave, is_late)),
    {
        let ghost s0 = *self;
        let demolish_tasks = self.collect_demolish_tasks(wave, is_late);
        let build_upgrade_tasks = self.collect_build_upgrade_tasks(wave, is_late);
        let mut out: Vec<InputAction> = Vec::new();
        if demolish_tasks.len() > 0 {
            self.dispatch_tasks_by_region(&demolish_tasks, &mut out);
        }
        let ghost s1 = *self;
        let ghost o1 = out@;
        proof {
            assert(no_placement_from(o1, 0));
            if demolish_tasks@.len() == 0 {
                assert(region_indices(demolish_tasks@, 0, s0.map_meta.bottom as int, true) =~= Seq::<usize>::empty());
                assert(region_indices(demolish_tasks@, 0, s0.map_meta.bottom as int, false) =~= Seq::<usize>::empty());
            }
            assert(o1 =~= dispatch_run(s0, demolish_tasks@, s0.camera).0);
            assert(s1.camera == dispatch_run(s0, demolish_tasks@, s0.camera).1);
            lemma_dispatch_run_plan(s1, s0, build_upgrade_tasks@, s1.camera);
            if build_upgrade_tasks@.len() == 0 {
                assert(region_indices(build_upgrade_tasks@, 0, s0.map_meta.bottom as int, true) =~= Seq::<usize>::empty());
                assert(region_indices(build_upgrade_tasks@, 0, s0.map_meta.bottom as int, false) =~= Seq::<usize>::empty());
            }
        }
        if build_upgrade_tasks.len() > 0 {
            self.dispatch_tasks_by_region(&build_upgrade_tasks, &mut out);
        }
        proof {
            let d = demolish_tasks@;
            let b = build_upgrade_tasks@;
            if d.len() > 0 {
                let x = s0.strategy_demolishes@[match d[0].action { TaskAction::Demolish(i) => i as int, _ => 0 }].uid;
                assert(task_demolishes(s0.strategy_demolishes@, d[all_indices(d.len())[0] as int], x));
                assert(batch_demolishes(s0.strategy_demolishes@, d, all_indices(d.len()), x));
            }
            if b.len() > 0 {
                match b[0].action {
                    TaskAction::Place(i) => {
                        let x = s0.strategy_buildings@[i as int].uid;
                        assert(task_places(s0.strategy_buildings@, b[all_indices(b.len())[0] as int], x));
                        assert(batch_places(s0.strategy_buildings@, b, all_indices(b.len()), x));
                    },
                    TaskAction::Upgrade(i) => {
                        let u = s0.strategy_upgrades@[i as int];
                        assert(task_upgrades(s0.strategy_upgrades@, b[all_indices(b.len())[0] as int], u.building_name@, u.wave_num, u.is_late));
                        assert(batch_upgrades(s0.strategy_upgrades@, b, all_indices(b.len()), u.building_name@, u.wave_num, u.is_late));
                    },
                    TaskAction::Demolish(_) => {},
                }
            }
            if exists|i: int| #[trigger] demolish_pending(s0, i, wave, is_late) {
                let i = choose|i: int| #[trigger] demolish_pending(s0, i, wave, is_late);
                assert(batch_demolishes(s0.strategy_demolishes@, d, all_indices(d.len()), s0.strategy_demolishes@[i].uid));
            }
            if exists|i: int| #[trigger] build_pending(s0, i, wave, is_late) {
                let i = choose|i: int| #[trigger] build_pending(s0, i, wave, is_late);
                assert(batch_places(s0.strategy_buildings@, b, all_indices(b.len()), s0.strategy_buildings@[i].uid));
            }
            if exists|i: int| #[trigger] upgrade_pending(s0, i, wave, is_late) {
                let i = choose|i: int| #[trigger] upgrade_pending(s0, i, wave, is_late);
                let u = s0.strategy_upgrades@[i];
                assert(batch_upgrades(s0.strategy_upgrades@, b, all_indices(b.len()), u.building_name@, wave, is_late));
            }
            assert(no_demolition_from(out@, o1.len() as int));
            assert(o1.is_prefix_of(out@));
            assert(out@ =~= phase_steps(s0, wave, is_late));
            assert forall|a: int, b: int|
                0 <= a < out@.len() && 0 <= b < out@.len() && #[trigger] out@[a] == (InputAction::KeyClick { key: 'e' })
                    && #[trigger] out@[b] is DoubleClick implies a < b by {
                assert(out@.subrange(0, o1.len() as int) == o1);
                if b < o1.len() {
                    assert(out@[b] == out@.subrange(0, o1.len() as int)[b]);
                    assert(o1[b] is DoubleClick);
                }
            }
        }
        proof {
            let d = demolish_tasks@;
            let b = build_upgrade_tasks@;
            let ad = all_indices(d.len());
            let ab = all_indices(b.len());
            assert forall|x: usize| #[trigger] self.completed_demolish_uids@.contains(x) <==> s0.completed_demolish_uids@.contains(x)
                || exists|i: int| #[trigger] demolish_pending(s0, i, wave, is_late) && s0.strategy_demolishes@[i].uid == x by {
                if d.len() == 0 {
                    assert(!batch_demolishes(s0.strategy_demolishes@, d, ad, x));
                }
                if b.len() == 0 {
                    assert(s1.completed_demolish_uids == self.completed_demolish_uids);
                }
            }
            assert forall|x: usize| #[trigger] self.placed_uids@.contains(x) <==> s0.placed_uids@.contains(x) || exists|i: int|
                #[trigger] build_pending(s0, i, wave, is_late) && s0.strategy_buildings@[i].uid == x by {
                if b.len() == 0 {
                    assert(!batch_places(s0.strategy_buildings@, b, ab, x));
                    assert(s1.placed_uids == self.placed_uids);
                }
                if d.len() == 0 {
                    assert(s1.placed_uids == s0.placed_uids);
                }
            }
            assert forall|name: Seq<char>, w: i32, l: bool| #[trigger] upgrade_done(self.completed_upgrade_keys@, name, w, l) <==> upgrade_done(
                s0.completed_upgrade_keys@,
                name,
                w,
                l,
            ) || exists|i: int| #[trigger] upgrade_pending(s0, i, wave, is_late) && s0.strategy_upgrades@[i].building_name@ == name && w
                == wave && l == is_late by {
                if b.len() == 0 {
                    assert(!batch_upgrades(s0.strategy_upgrades@, b, ab, name, w, l));
                    assert(s1.completed_upgrade_keys == self.completed_upgrade_keys);
                }
                if d.len() == 0 {
                    assert(s1.completed_upgrade_keys == s0.completed_upgrade_keys);
                }
            }
        }
        out
    }
}

/// Menu tab of a trap category.
pub open spec fn tab_point(b_type: Seq<char>) -> (u16, u16) {
    if b_type == "Wall"@ {
        (172, 375)
    } else if b_type == "Ceiling"@ {
        (172, 462)
    } else {
        (172, 294)
    }
}

/// What an `as u16` cast keeps of an integer: its low sixteen bits.
pub open spec fn low16(v: int) -> u16 {
    (((v % 65536) + 65536) % 65536) as u16
}

/// Steps that pick one trap: its category tab, then its cell in the grid.
pub open spec fn pick_steps(item: TrapConfigItem) -> Seq<InputAction> {
    let tab = tab_point(item.b_type@);
    seq![
        InputAction::MoveTo { x: tab.0, y: tab.1, duration_ms: 400 },
        InputAction::Click { left: true, right: false, hold_ms: 0 },
        InputAction::Sleep { ms: 350 },
        InputAction::MoveTo {
            x: low16(520 + item.grid_index[0] * 170),
            y: low16(330 + item.grid_index[1] * 205),
            duration_ms: 400,
        },
        InputAction::Click { left: true, right: false, hold_ms: 0 },
        InputAction::Sleep { ms: 400 },
    ]
}

/// The last trap entry named `name`, as a keyed lookup built in order keeps it.
pub open spec fn lookup_trap(traps: Seq<TrapConfigItem>, name: Seq<char>) -> Option<TrapConfigItem>
    decreases traps.len(),
{
    if traps.len() == 0 {
        None
    } else if traps.last().name@ == name {
        Some(traps.last())
    } else {
        lookup_trap(traps.drop_last(), name)
    }
}

/// Steps that equip the first four loadout names that have a trap entry.
pub open spec fn loadout_steps(names: Seq<String>, traps: Seq<TrapConfigItem>) -> Seq<InputAction>
    decreases names.len(),
{
    if names.len() == 0 {
        seq![]
    } else {
        loadout_steps(names.drop_last(), traps) + match lookup_trap(traps, names.last()@) {
            Some(item) => pick_steps(item),
            None => seq![],
        }
    }
}

/// Steps of a scripted preparation: key presses by HID code (unknown keys
/// skipped), releases and pauses; log lines produce nothing.
pub open spec fn prep_steps(actions: Seq<PrepAction>) -> Seq<InputAction>
    decreases actions.len(),
{
    if actions.len() == 0 {
        seq![]
    } else {
        prep_steps(actions.drop_last()) + match actions.last() {
            PrepAction::KeyDown { key } => if hid_code(key) != 0 {
                seq![InputAction::KeyDown { code: hid_code(key) }]
            } else {
                seq![]
            },
            PrepAction::KeyUpAll => seq![InputAction::KeyUpAll],
            PrepAction::Wait { ms } => seq![InputAction::Sleep { ms }],
            PrepAction::Log { .. } => seq![],
        }
    }
}

/// One wheel burst while zooming out: ten notches with short pauses.
pub open spec fn zoom_burst() -> Seq<InputAction> {
    Seq::new(20, |k: int| if k % 2 == 0 { InputAction::Scroll { delta: -120i32 } } else { InputAction::Sleep { ms: 30 } })
        + seq![InputAction::Sleep { ms: 100 }]
}

/// Steps that zoom fully out and push the view to the top-left corner.
pub open spec fn setup_view_steps() -> Seq<InputAction> {
    let nudge = seq![
        InputAction::KeyHold { key: 'w', ms: 200 },
        InputAction::Sleep { ms: 50 },
        InputAction::KeyHold { key: 'a', ms: 200 },
        InputAction::Sleep { ms: 50 },
    ];
    seq![InputAction::KeyClick { key: 'o' }, InputAction::Sleep { ms: 2000 }] + zoom_burst() + zoom_burst() + zoom_burst()
        + zoom_burst() + nudge + nudge + seq![
        InputAction::KeyHold { key: 'w', ms: 200 },
        InputAction::KeyHold { key: 'a', ms: 200 },
    ]
}

/// Trap names of the strategy that have a trap entry, without repeats:
/// buildings first, then upgrades, in strategy order.
pub open spec fn in_strategy(name: Seq<char>, buildings: Seq<BuildingExport>, upgrades: Seq<UpgradeEvent>) -> bool {
    (exists|i: int| 0 <= i < buildings.len() && #[trigger] buildings[i].name@ == name) || (exists|i: int|
        0 <= i < upgrades.len() && #[trigger] upgrades[i].building_name@ == name)
}

pub open spec fn has_trap(traps: Seq<TrapConfigItem>, name: Seq<char>) -> bool {
    exists|i: int| 0 <= i < traps.len() && #[trigger] traps[i].name@ == name
}

fn names_contain(names: &Vec<String>, name: &str) -> (r: bool)
    ensures
        r <==> exists|i: int| 0 <= i < names@.len() && #[trigger] names@[i]@ == name@,
{
    let mut i: usize = 0;
    while i < names.len()
        invariant
            i <= names@.len(),
            forall|k: int| 0 <= k < i ==> #[trigger] names@[k]@ != name@,
        decreases names@.len() - i,
    {
        if same_text(names[i].as_str(), name) {
            return true;
        }
        i = i + 1;
    }
    false
}

fn trap_known(traps: &Vec<TrapConfigItem>, name: &str) -> (r: bool)
    ensures
        r == has_trap(traps@, name@),
{
    let mut i: usize = 0;
    while i < traps.len()
        invariant
            i <= traps@.len(),
            forall|k: int| 0 <= k < i ==> #[trigger] traps@[k].name@ != name@,
        decreases traps@.len() - i,
    {
        if same_text(traps[i].name.as_str(), name) {
            return true;
        }
        i = i + 1;
    }
    false
}

/// The loadout a strategy needs: each trap it builds or upgrades that has a
/// trap entry, once, buildings first, in strategy order.
/// Names that a strategy uses: its buildings', then its upgrades', in order.
pub open spec fn strategy_names(b: Seq<BuildingExport>, u: Seq<UpgradeEvent>) -> Seq<Seq<char>> {
    b.map_values(|x: BuildingExport| x.name@) + u.map_values(|x: UpgradeEvent| x.building_name@)
}

/// `names` that have a trap entry, each kept at its first occurrence.
pub open spec fn loadout_of(names: Seq<Seq<char>>, traps: Seq<TrapConfigItem>) -> Seq<Seq<char>>
    decreases names.len(),
{
    if names.len() == 0 {
        seq![]
    } else {
        let r = loadout_of(names.drop_last(), traps);
        let n = names.last();
        if has_trap(traps, n) && !r.contains(n) {
            r.push(n)
        } else {
            r
        }
    }
}

pub open spec fn string_views(v: Seq<String>) -> Seq<Seq<char>> {
    v.map_values(|x: String| x@)
}

/// Whether one of the first `n` strings of `v` is `nm`.
pub open spec fn names_have(v: Seq<String>, n: int, nm: Seq<char>) -> bool {
    exists|k: int| 0 <= k < n && #[trigger] v[k]@ == nm
}

pub fn derive_loadout(buildings: &Vec<BuildingExport>, upgrades: &Vec<UpgradeEvent>, traps: &Vec<TrapConfigItem>) -> (r: Vec<String>)
    ensures
        forall|a: int, b: int| 0 <= a < b < r@.len() ==> r@[a]@ != r@[b]@,
        forall|name: Seq<char>| #[trigger] names_have(r@, r@.len() as int, name) <==> in_strategy(name, buildings@, upgrades@)
            && has_trap(traps@, name),
        string_views(r@) == loadout_of(strategy_names(buildings@, upgrades@), traps@),
{
    let mut names: Vec<String> = Vec::new();
    let mut i: usize = 0;
    while i < buildings.len()
        invariant
            i <= buildings@.len(),
            forall|k: int| 0 <= k < names@.len() ==> #[trigger] names@[k]@ == buildings@[k as int].name@,
            names@.len() == i,
        decreases buildings@.len() - i,
    {
        names.push(owned(buildings[i].name.as_str()));
        i = i + 1;
    }
    let mut j: usize = 0;
    while j < upgrades.len()
        invariant
            j <= upgrades@.len(),
            names@.len() == buildings@.len() + j,
            forall|k: int| 0 <= k < buildings@.len() ==> #[trigger] names@[k]@ == buildings@[k].name@,
            forall|k: int| buildings@.len() <= k < names@.len() ==> #[trigger] names@[k]@ == upgrades@[k - buildings@.len()].building_name@,
        decreases upgrades@.len() - j,
    {
        names.push(owned(upgrades[j].building_name.as_str()));
        j = j + 1;
    }
    let mut r: Vec<String> = Vec::new();
    let mut m: usize = 0;
    while m < names.len()
        invariant
            m <= names@.len(),
            forall|a: int, b: int| 0 <= a < b < r@.len() ==> r@[a]@ != r@[b]@,
            forall|nm: Seq<char>| #[trigger] names_have(r@, r@.len() as int, nm) <==> names_have(names@, m as int, nm) && has_trap(traps@, nm),
            string_views(r@) == loadout_of(string_views(names@).take(m as int), traps@),
        decreases names@.len() - m,
    {
        let ghost r0 = r@;
        let name = names[m].as_str();
        let already = names_contain(&r, name);
        let known = trap_known(traps, name);
        if !already && known {
            r.push(owned(name));
        }
        proof {
            let sv = string_views(names@);
            let t = sv.take(m + 1);
            assert(t.drop_last() =~= sv.take(m as int));
            assert(t.last() == name@);
            assert(string_views(r0).contains(name@) == already) by {
                if already {
                    let k = choose|k: int| 0 <= k < r0.len() && #[trigger] r0[k]@ == name@;
                    assert(string_views(r0)[k] == name@);
                }
                if string_views(r0).contains(name@) {
                    let k = choose|k: int| 0 <= k < string_views(r0).len() && string_views(r0)[k] == name@;
                    assert(r0[k]@ == name@);
                }
            }
            assert(known == has_trap(traps@, name@));
            assert(string_views(r@) =~= loadout_of(t, traps@));
            assert forall|nm: Seq<char>| #[trigger] names_have(r@, r@.len() as int, nm) <==> names_have(names@, m + 1, nm) && has_trap(traps@, nm) by {
                if names_have(r@, r@.len() as int, nm) {
                    let k = choose|k: int| 0 <= k < r@.len() && #[trigger] r@[k]@ == nm;
                    if k < r0.len() {
                        assert(r0[k]@ == nm);
                        assert(names_have(r0, r0.len() as int, nm));
                        let k2 = choose|k2: int| 0 <= k2 < m && #[trigger] names@[k2]@ == nm;
                        assert(names@[k2]@ == nm);
                    } else {
                        assert(names@[m as int]@ == nm);
                    }
                }
                if names_have(names@, m + 1, nm) && has_trap(traps@, nm) {
                    let k = choose|k: int| 0 <= k < m + 1 && #[trigger] names@[k]@ == nm;
                    if k < m {
                        assert(names_have(names@, m as int, nm));
                        assert(names_have(r0, r0.len() as int, nm));
                        let k3 = choose|k3: int| 0 <= k3 < r0.len() && #[trigger] r0[k3]@ == nm;
                        assert(r@[k3]@ == nm);
                    } else if already {
                        let k3 = choose|k3: int| 0 <= k3 < r0.len() && #[trigger] r0[k3]@ == name@;
                        assert(r@[k3]@ == nm);
                    } else {
                        assert(r@[r@.len() - 1]@ == nm);
                    }
                }
            }
        }
        m = m + 1;
    }
    proof {
        assert(string_views(names@) =~= strategy_names(buildings@, upgrades@));
        assert(string_views(names@).take(names@.len() as int) =~= string_views(names@));
        assert forall|nm: Seq<char>| #[trigger] names_have(names@, names@.len() as int, nm) <==> in_strategy(nm, buildings@, upgrades@) by {
            if names_have(names@, names@.len() as int, nm) {
                let k = choose|k: int| 0 <= k < names@.len() && #[trigger] names@[k]@ == nm;
                if k < buildings@.len() {
                    assert(buildings@[k].name@ == nm);
                } else {
                    assert(upgrades@[k - buildings@.len()].building_name@ == nm);
                }
            }
            if exists|k: int| 0 <= k < buildings@.len() && #[trigger] buildings@[k].name@ == nm {
                let k = choose|k: int| 0 <= k < buildings@.len() && #[trigger] buildings@[k].name@ == nm;
                assert(names@[k]@ == nm);
            }
            if exists|k: int| 0 <= k < upgrades@.len() && #[trigger] upgrades@[k].building_name@ == nm {
                let k = choose|k: int| 0 <= k < upgrades@.len() && #[trigger] upgrades@[k].building_name@ == nm;
                assert(names@[k + buildings@.len()]@ == nm);
            }
        }
    }
    r
}

impl TowerDefenseApp {
    /// Scheduler for one level, with nothing done yet, the camera estimated
    /// at the top, and the loadout that the strategy needs.
    pub fn new(config: TDConfig, map_meta: MapMeta, strategy: MapBuildingsExport, trap_lookup: Vec<TrapConfigItem>, now_ms: u64) -> (r: Self)
        requires
            config.wf(),
        ensures
            r.wf(),
            r.config == config,
            r.map_meta == map_meta,
            r.strategy_buildings == strategy.buildings,
            r.strategy_upgrades == strategy.upgrades,
            r.strategy_demolishes == strategy.demolishes,
            r.trap_lookup == trap_lookup,
            r.placed_uids@.len() == 0,
            r.completed_demolish_uids@.len() == 0,
            r.completed_upgrade_keys@.len() == 0,
            r.monitor == (WaveMonitor { last_confirmed_wave: 0, last_wave_change_ms: now_ms }),
            r.camera.offset_y == 0,
            forall|a: int, b: int| 0 <= a < b < r.active_loadout@.len() ==> r.active_loadout@[a]@ != r.active_loadout@[b]@,
            forall|name: Seq<char>| #[trigger] names_have(r.active_loadout@, r.active_loadout@.len() as int, name) <==> in_strategy(
                name,
                strategy.buildings@,
                strategy.upgrades@,
            ) && has_trap(trap_lookup@, name),
            string_views(r.active_loadout@) == loadout_of(strategy_names(strategy.buildings@, strategy.upgrades@), trap_lookup@),
    {
        let active_loadout = derive_loadout(&strategy.buildings, &strategy.upgrades, &trap_lookup);
        let camera = CameraController::new(&config, &map_meta);
        TowerDefenseApp {
            config,
            map_meta,
            strategy_buildings: strategy.buildings,
            strategy_upgrades: strategy.upgrades,
            strategy_demolishes: strategy.demolishes,
            placed_uids: Vec::new(),
            completed_upgrade_keys: Vec::new(),
            completed_demolish_uids: Vec::new(),
            monitor: WaveMonitor::new(now_ms),
            trap_lookup,
            active_loadout,
            camera,
        }
    }

    /// Accepts a detected wave per the monitor's rule (see `WaveMonitor`).
    pub fn validate_wave_transition(&mut self, detected_wave: i32, now_ms: u64) -> (accepted: bool)
        ensures
            accepted == crate::wave::accepts_transition(
                old(self).monitor.last_confirmed_wave as int,
                old(self).monitor.last_wave_change_ms as int,
                detected_wave as int,
                now_ms as int,
            ),
            accepted ==> final(self).monitor == (WaveMonitor { last_confirmed_wave: detected_wave, last_wave_change_ms: now_ms }),
            !accepted ==> final(self).monitor == old(self).monitor,
            *final(self) == (TowerDefenseApp { monitor: final(self).monitor, ..*old(self) }),
    {
        self.monitor.validate_transition(detected_wave, now_ms)
    }

    /// Zooms fully out and pushes the view into the top-left corner; the
    /// camera estimate is then the top edge.
    pub fn setup_view(&mut self) -> (out: Vec<InputAction>)
        ensures
            out@ == setup_view_steps(),
            *final(self) == (TowerDefenseApp {
                camera: CameraController { offset_y: 0, ..old(self).camera },
                ..*old(self)
            }),
    {
        let mut out: Vec<InputAction> = Vec::new();
        out.push(InputAction::KeyClick { key: 'o' });
        out.push(InputAction::Sleep { ms: 2000 });
        let mut burst: usize = 0;
        while burst < 4
            invariant
                burst <= 4,
                out@ == seq![InputAction::KeyClick { key: 'o' }, InputAction::Sleep { ms: 2000 }] + repeat_burst(burst as nat),
            decreases 4 - burst,
        {
            let ghost before = out@;
            let mut k: usize = 0;
            while k < 10
                invariant
                    k <= 10,
                    out@ == before + zoom_burst().subrange(0, 2 * k as int),
                decreases 10 - k,
            {
                out.push(InputAction::Scroll { delta: -120 });
                out.push(InputAction::Sleep { ms: 30 });
                proof {
                    assert(out@ =~= before + zoom_burst().subrange(0, 2 * (k + 1) as int));
                }
                k = k + 1;
            }
            out.push(InputAction::Sleep { ms: 100 });
            proof {
                assert(out@ =~= before + zoom_burst());
                assert(repeat_burst((burst + 1) as nat) =~= repeat_burst(burst as nat) + zoom_burst());
            }
            burst = burst + 1;
        }
        let mut n: usize = 0;
        while n < 2
            invariant
                n <= 2,
                out@ == seq![InputAction::KeyClick { key: 'o' }, InputAction::Sleep { ms: 2000 }] + repeat_burst(4) + repeat_nudge(n as nat),
            decreases 2 - n,
        {
            out.push(InputAction::KeyHold { key: 'w', ms: 200 });
            out.push(InputAction::Sleep { ms: 50 });
            out.push(InputAction::KeyHold { key: 'a', ms: 200 });
            out.push(InputAction::Sleep { ms: 50 });
            proof {
                assert(repeat_nudge((n + 1) as nat) =~= repeat_nudge(n as nat) + nudge_steps());
            }
            n = n + 1;
        }
        out.push(InputAction::KeyHold { key: 'w', ms: 200 });
        out.push(InputAction::KeyHold { key: 'a', ms: 200 });
        self.camera.offset_y = 0;
        proof {
            assert(repeat_burst(4) =~= zoom_burst() + zoom_burst() + zoom_burst() + zoom_burst()) by {
                assert(repeat_burst(0) =~= Seq::<InputAction>::empty());
                assert(repeat_burst(1) =~= zoom_burst());
                assert(repeat_burst(2) =~= zoom_burst() + zoom_burst());
                assert(repeat_burst(3) =~= zoom_burst() + zoom_burst() + zoom_burst());
            }
            assert(repeat_nudge(2) =~= nudge_steps() + nudge_steps()) by {
                assert(repeat_nudge(0) =~= Seq::<InputAction>::empty());
                assert(repeat_nudge(1) =~= nudge_steps());
            }
            assert(out@ =~= setup_view_steps());
        }
        out
    }

    /// Equips the first four loadout traps through the loadout menu.
    pub fn select_loadout(&self) -> (out: Vec<InputAction>)
        ensures
            out@ == loadout_steps(self.active_loadout@.take(
                if self.active_loadout@.len() < 4 {
                    self.active_loadout@.len() as int
                } else {
                    4
                },
            ), self.trap_lookup@),
    {
        let mut out: Vec<InputAction> = Vec::new();
        let n: usize = if self.active_loadout.len() < 4 {
            self.active_loadout.len()
        } else {
            4
        };
        let mut i: usize = 0;
        while i < n
            invariant
                i <= n <= self.active_loadout@.len(),
                out@ == loadout_steps(self.active_loadout@.take(i as int), self.trap_lookup@),
            decreases n - i,
        {
            let name = self.active_loadout[i].as_str();
            let ghost before = out@;
            match find_trap(&self.trap_lookup, name) {
                Some(k) => {
                    let item = &self.trap_lookup[k];
                    push_pick_steps(item, &mut out);
                },
                None => {},
            }
            proof {
                let t = self.active_loadout@.take(i + 1);
                assert(t.drop_last() =~= self.active_loadout@.take(i as int));
                assert(t.last() == self.active_loadout@[i as int]);
            }
            i = i + 1;
        }
        out
    }

    /// The pre-combat routine: the level's scripted key steps, then the
    /// loadout menu opened, filled and closed.
    pub fn execute_prep_logic(&self) -> (out: Vec<InputAction>)
        ensures
            out@ == prep_routine_steps(self.map_meta.prep_actions@, self.active_loadout@, self.trap_lookup@),
    {
        let mut out: Vec<InputAction> = Vec::new();
        let actions = &self.map_meta.prep_actions;
        if actions.len() > 0 {
            let mut i: usize = 0;
            while i < actions.len()
                invariant
                    i <= actions@.len(),
                    out@ == prep_steps(actions@.take(i as int)),
                decreases actions@.len() - i,
            {
                match &actions[i] {
                    PrepAction::KeyDown { key } => {
                        let code = get_hid_code(*key);
                        if code != 0 {
                            out.push(InputAction::KeyDown { code });
                        }
                    },
                    PrepAction::KeyUpAll => {
                        out.push(InputAction::KeyUpAll);
                    },
                    PrepAction::Wait { ms } => {
                        out.push(InputAction::Sleep { ms: *ms });
                    },
                    PrepAction::Log { .. } => {},
                }
                proof {
                    let t = actions@.take(i + 1);
                    assert(t.drop_last() =~= actions@.take(i as int));
                    assert(t.last() == actions@[i as int]);
                }
                i = i + 1;
            }
            out.push(InputAction::KeyUpAll);
            assert(actions@.take(actions@.len() as int) =~= actions@);
        }
        out.push(InputAction::KeyClick { key: 'n' });
        out.push(InputAction::Sleep { ms: 500 });
        let mut picks = self.select_loadout();
        out.append(&mut picks);
        out.push(InputAction::KeyClick { key: 'n' });
        out.push(InputAction::Sleep { ms: 500 });
        out
    }
}

/// The pre-combat routine: the scripted key steps (and a final release),
/// then the loadout menu opened, filled with the first four traps, closed.
pub open spec fn prep_routine_steps(prep: Seq<PrepAction>, loadout: Seq<String>, traps: Seq<TrapConfigItem>) -> Seq<InputAction> {
    (if prep.len() > 0 {
        prep_steps(prep) + seq![InputAction::KeyUpAll]
    } else {
        seq![]
    }) + seq![InputAction::KeyClick { key: 'n' }, InputAction::Sleep { ms: 500 }] + loadout_steps(
        loadout.take(
            if loadout.len() < 4 {
                loadout.len() as int
            } else {
                4
            },
        ),
        traps,
    ) + seq![InputAction::KeyClick { key: 'n' }, InputAction::Sleep { ms: 500 }]
}

pub open spec fn nudge_steps() -> Seq<InputAction> {
    seq![
        InputAction::KeyHold { key: 'w', ms: 200 },
        InputAction::Sleep { ms: 50 },
        InputAction::KeyHold { key: 'a', ms: 200 },
        InputAction::Sleep { ms: 50 },
    ]
}

pub open spec fn repeat_burst(n: nat) -> Seq<InputAction>
    decreases n,
{
    if n == 0 {
        seq![]
    } else {
        repeat_burst((n - 1) as nat) + zoom_burst()
    }
}

pub open spec fn repeat_nudge(n: nat) -> Seq<InputAction>
    decreases n,
{
    if n == 0 {
        seq![]
    } else {
        repeat_nudge((n - 1) as nat) + nudge_steps()
    }
}

/// Index of the last trap entry named `name`.
fn find_trap(traps: &Vec<TrapConfigItem>, name: &str) -> (r: Option<usize>)
    ensures
        r matches Some(k) ==> k < traps@.len() && lookup_trap(traps@, name@) == Some(traps@[k as int]),
        r is None ==> lookup_trap(traps@, name@) is None,
{
    let mut i: usize = traps.len();
    assert(traps@.take(traps@.len() as int) =~= traps@);
    while i > 0
        invariant
            i <= traps@.len(),
            lookup_trap(traps@, name@) == lookup_trap(traps@.take(i as int), name@),
        decreases i,
    {
        let ghost t = traps@.take(i as int);
        proof {
            assert(t.drop_last() =~= traps@.take(i - 1));
            assert(t.last() == traps@[i - 1]);
        }
        if same_text(traps[i - 1].name.as_str(), name) {
            return Some(i - 1);
        }
        i = i - 1;
    }
    None
}

fn push_pick_steps(item: &TrapConfigItem, out: &mut Vec<InputAction>)
    ensures
        final(out)@ == old(out)@ + pick_steps(*item),
{
    let (tab_x, tab_y): (u16, u16) = if same_text(item.b_type.as_str(), "Wall") {
        (172, 375)
    } else if same_text(item.b_type.as_str(), "Ceiling") {
        (172, 462)
    } else {
        (172, 294)
    };
    out.push(InputAction::MoveTo { x: tab_x, y: tab_y, duration_ms: 400 });
    out.push(InputAction::Click { left: true, right: false, hold_ms: 0 });
    out.push(InputAction::Sleep { ms: 350 });
    let tx: i64 = 520 + item.grid_index[0] as i64 * 170;
    let ty: i64 = 330 + item.grid_index[1] as i64 * 205;
    out.push(InputAction::MoveTo { x: low16_exec(tx), y: low16_exec(ty), duration_ms: 400 });
    out.push(InputAction::Click { left: true, right: false, hold_ms: 0 });
    out.push(InputAction::Sleep { ms: 400 });
}

fn low16_exec(v: i64) -> (r: u16)
    ensures
        r == low16(v as int),
{
    (((v % 65536) + 65536) % 65536) as u16
}

/// Indices `0..n`.
pub open spec fn all_indices(n: nat) -> Seq<usize> {
    Seq::new(n, |k: int| k as usize)
}

/// Sort key of a task within a region: by row (rising in the upper half,
/// falling in the lower half), then by priority.
pub open spec fn order_key(t: ScheduledTask, ascending: bool) -> int {
    (if ascending {
        t.map_y as int
    } else {
        -(t.map_y as int)
    }) * 256 + t.priority as int
}

proof fn lemma_batch_extend(app: TowerDefenseApp, tasks: Seq<ScheduledTask>, order: Seq<usize>, m: int)
    requires
        0 <= m < order.len(),
    ensures
        forall|x: usize| #[trigger] batch_demolishes(app.strategy_demolishes@, tasks, order.subrange(0, m + 1), x) <==> batch_demolishes(app.strategy_demolishes@, tasks, order.subrange(0, m), x)
            || task_demolishes(app.strategy_demolishes@, tasks[order[m] as int], x),
        forall|x: usize| #[trigger] batch_places(app.strategy_buildings@, tasks, order.subrange(0, m + 1), x) <==> batch_places(app.strategy_buildings@, tasks, order.subrange(0, m), x)
            || task_places(app.strategy_buildings@, tasks[order[m] as int], x),
        forall|name: Seq<char>, w: i32, l: bool| #[trigger] batch_upgrades(app.strategy_upgrades@, tasks, order.subrange(0, m + 1), name, w, l) <==> batch_upgrades(app.strategy_upgrades@,
            tasks,
            order.subrange(0, m),
            name,
            w,
            l,
        ) || task_upgrades(app.strategy_upgrades@, tasks[order[m] as int], name, w, l),
{
    let a = order.subrange(0, m);
    let b = order.subrange(0, m + 1);
    assert forall|x: usize| #[trigger] batch_demolishes(app.strategy_demolishes@, tasks, b, x) <==> batch_demolishes(app.strategy_demolishes@, tasks, a, x)
        || task_demolishes(app.strategy_demolishes@, tasks[order[m] as int], x) by {
        if batch_demolishes(app.strategy_demolishes@, tasks, b, x) {
            let k = choose|k: int| 0 <= k < b.len() && #[trigger] task_demolishes(app.strategy_demolishes@, tasks[b[k] as int], x);
            if k < m {
                assert(a[k] == b[k]);
            }
        }
        if batch_demolishes(app.strategy_demolishes@, tasks, a, x) {
            let k = choose|k: int| 0 <= k < a.len() && #[trigger] task_demolishes(app.strategy_demolishes@, tasks[a[k] as int], x);
            assert(a[k] == b[k]);
        }
        if task_demolishes(app.strategy_demolishes@, tasks[order[m] as int], x) {
            assert(b[m] == order[m]);
        }
    }
    assert forall|x: usize| #[trigger] batch_places(app.strategy_buildings@, tasks, b, x) <==> batch_places(app.strategy_buildings@, tasks, a, x)
        || task_places(app.strategy_buildings@, tasks[order[m] as int], x) by {
        if batch_places(app.strategy_buildings@, tasks, b, x) {
            let k = choose|k: int| 0 <= k < b.len() && #[trigger] task_places(app.strategy_buildings@, tasks[b[k] as int], x);
            if k < m {
                assert(a[k] == b[k]);
            }
        }
        if batch_places(app.strategy_buildings@, tasks, a, x) {
            let k = choose|k: int| 0 <= k < a.len() && #[trigger] task_places(app.strategy_buildings@, tasks[a[k] as int], x);
            assert(a[k] == b[k]);
        }
        if task_places(app.strategy_buildings@, tasks[order[m] as int], x) {
            assert(b[m] == order[m]);
        }
    }
    assert forall|name: Seq<char>, w: i32, l: bool| #[trigger] batch_upgrades(app.strategy_upgrades@, tasks, b, name, w, l) <==> batch_upgrades(app.strategy_upgrades@,
        tasks,
        a,
        name,
        w,
        l,
    ) || task_upgrades(app.strategy_upgrades@, tasks[order[m] as int], name, w, l) by {
        if batch_upgrades(app.strategy_upgrades@, tasks, b, name, w, l) {
            let k = choose|k: int| 0 <= k < b.len() && #[trigger] task_upgrades(app.strategy_upgrades@, tasks[b[k] as int], name, w, l);
            if k < m {
                assert(a[k] == b[k]);
            }
        }
        if batch_upgrades(app.strategy_upgrades@, tasks, a, name, w, l) {
            let k = choose|k: int| 0 <= k < a.len() && #[trigger] task_upgrades(app.strategy_upgrades@, tasks[a[k] as int], name, w, l);
            assert(a[k] == b[k]);
        }
        if task_upgrades(app.strategy_upgrades@, tasks[order[m] as int], name, w, l) {
            assert(b[m] == order[m]);
        }
    }
}

/// Two batches whose indices together are exactly those of a third record
/// what the third records.
proof fn lemma_records_join(
    a: TowerDefenseApp,
    b: TowerDefenseApp,
    c: TowerDefenseApp,
    tasks: Seq<ScheduledTask>,
    o1: Seq<usize>,
    o2: Seq<usize>,
    all: Seq<usize>,
)
    requires
        records_batch(a, b, tasks, o1),
        records_batch(b, c, tasks, o2),
        same_plan(a, b),
        forall|k: usize| all.contains(k) <==> o1.contains(k) || o2.contains(k),
    ensures
        records_batch(a, c, tasks, all),
{
    assert forall|x: usize| #[trigger] batch_demolishes(a.strategy_demolishes@, tasks, all, x) <==> batch_demolishes(a.strategy_demolishes@, tasks, o1, x)
        || batch_demolishes(b.strategy_demolishes@, tasks, o2, x) by {
        if batch_demolishes(a.strategy_demolishes@, tasks, all, x) {
            let k = choose|k: int| 0 <= k < all.len() && #[trigger] task_demolishes(a.strategy_demolishes@, tasks[all[k] as int], x);
            assert(all.contains(all[k]));
            if o1.contains(all[k]) {
                let p = choose|p: int| 0 <= p < o1.len() && o1[p] == all[k];
                assert(task_demolishes(a.strategy_demolishes@, tasks[o1[p] as int], x));
            } else {
                let p = choose|p: int| 0 <= p < o2.len() && o2[p] == all[k];
                assert(task_demolishes(b.strategy_demolishes@, tasks[o2[p] as int], x));
            }
        }
        if batch_demolishes(a.strategy_demolishes@, tasks, o1, x) {
            let p = choose|p: int| 0 <= p < o1.len() && #[trigger] task_demolishes(a.strategy_demolishes@, tasks[o1[p] as int], x);
            assert(o1.contains(o1[p]));
            let k = choose|k: int| 0 <= k < all.len() && all[k] == o1[p];
            assert(task_demolishes(a.strategy_demolishes@, tasks[all[k] as int], x));
        }
        if batch_demolishes(b.strategy_demolishes@, tasks, o2, x) {
            let p = choose|p: int| 0 <= p < o2.len() && #[trigger] task_demolishes(b.strategy_demolishes@, tasks[o2[p] as int], x);
            assert(o2.contains(o2[p]));
            let k = choose|k: int| 0 <= k < all.len() && all[k] == o2[p];
            assert(task_demolishes(a.strategy_demolishes@, tasks[all[k] as int], x));
        }
    }
    assert forall|x: usize| #[trigger] batch_places(a.strategy_buildings@, tasks, all, x) <==> batch_places(a.strategy_buildings@, tasks, o1, x)
        || batch_places(b.strategy_buildings@, tasks, o2, x) by {
        if batch_places(a.strategy_buildings@, tasks, all, x) {
            let k = choose|k: int| 0 <= k < all.len() && #[trigger] task_places(a.strategy_buildings@, tasks[all[k] as int], x);
            assert(all.contains(all[k]));
            if o1.contains(all[k]) {
                let p = choose|p: int| 0 <= p < o1.len() && o1[p] == all[k];
                assert(task_places(a.strategy_buildings@, tasks[o1[p] as int], x));
            } else {
                let p = choose|p: int| 0 <= p < o2.len() && o2[p] == all[k];
                assert(task_places(b.strategy_buildings@, tasks[o2[p] as int], x));
            }
        }
        if batch_places(a.strategy_buildings@, tasks, o1, x) {
            let p = choose|p: int| 0 <= p < o1.len() && #[trigger] task_places(a.strategy_buildings@, tasks[o1[p] as int], x);
            assert(o1.contains(o1[p]));
            let k = choose|k: int| 0 <= k < all.len() && all[k] == o1[p];
            assert(task_places(a.strategy_buildings@, tasks[all[k] as int], x));
        }
        if batch_places(b.strategy_buildings@, tasks, o2, x) {
            let p = choose|p: int| 0 <= p < o2.len() && #[trigger] task_places(b.strategy_buildings@, tasks[o2[p] as int], x);
            assert(o2.contains(o2[p]));
            let k = choose|k: int| 0 <= k < all.len() && all[k] == o2[p];
            assert(task_places(a.strategy_buildings@, tasks[all[k] as int], x));
        }
    }
    assert forall|name: Seq<char>, w: i32, l: bool| #[trigger] batch_upgrades(a.strategy_upgrades@, tasks, all, name, w, l) <==> batch_upgrades(a.strategy_upgrades@,
        tasks,
        o1,
        name,
        w,
        l,
    ) || batch_upgrades(b.strategy_upgrades@, tasks, o2, name, w, l) by {
        if batch_upgrades(a.strategy_upgrades@, tasks, all, name, w, l) {
            let k = choose|k: int| 0 <= k < all.len() && #[trigger] task_upgrades(a.strategy_upgrades@, tasks[all[k] as int], name, w, l);
            assert(all.contains(all[k]));
            if o1.contains(all[k]) {
                let p = choose|p: int| 0 <= p < o1.len() && o1[p] == all[k];
                assert(task_upgrades(a.strategy_upgrades@, tasks[o1[p] as int], name, w, l));
            } else {
                let p = choose|p: int| 0 <= p < o2.len() && o2[p] == all[k];
                assert(task_upgrades(b.strategy_upgrades@, tasks[o2[p] as int], name, w, l));
            }
        }
        if batch_upgrades(a.strategy_upgrades@, tasks, o1, name, w, l) {
            let p = choose|p: int| 0 <= p < o1.len() && #[trigger] task_upgrades(a.strategy_upgrades@, tasks[o1[p] as int], name, w, l);
            assert(o1.contains(o1[p]));
            let k = choose|k: int| 0 <= k < all.len() && all[k] == o1[p];
            assert(task_upgrades(a.strategy_upgrades@, tasks[all[k] as int], name, w, l));
        }
        if batch_upgrades(b.strategy_upgrades@, tasks, o2, name, w, l) {
            let p = choose|p: int| 0 <= p < o2.len() && #[trigger] task_upgrades(b.strategy_upgrades@, tasks[o2[p] as int], name, w, l);
            assert(o2.contains(o2[p]));
            let k = choose|k: int| 0 <= k < all.len() && all[k] == o2[p];
            assert(task_upgrades(a.strategy_upgrades@, tasks[all[k] as int], name, w, l));
        }
    }
}

/// What one processed task adds to the completion records.
proof fn lemma_record_step(app0: TowerDefenseApp, a: TowerDefenseApp, b: TowerDefenseApp, t: ScheduledTask)
    requires
        same_plan(app0, a),
        task_valid(app0, t),
        b.completed_demolish_uids@ == match t.action {
            TaskAction::Demolish(i) => a.completed_demolish_uids@.push(a.strategy_demolishes@[i as int].uid),
            _ => a.completed_demolish_uids@,
        },
        b.placed_uids@ == match t.action {
            TaskAction::Place(i) => a.placed_uids@.push(a.strategy_buildings@[i as int].uid),
            _ => a.placed_uids@,
        },
        t.action is Upgrade ==> b.completed_upgrade_keys@.len() == a.completed_upgrade_keys@.len() + 1
            && b.completed_upgrade_keys@.drop_last() == a.completed_upgrade_keys@ && ({
            let u = a.strategy_upgrades@[t.action->Upgrade_0 as int];
            let k = b.completed_upgrade_keys@.last();
            k.name@ == u.building_name@ && k.wave_num == u.wave_num && k.is_late == u.is_late
        }),
        !(t.action is Upgrade) ==> b.completed_upgrade_keys == a.completed_upgrade_keys,
    ensures
        forall|x: usize| #[trigger] b.completed_demolish_uids@.contains(x) <==> a.completed_demolish_uids@.contains(x) || task_demolishes(
            app0.strategy_demolishes@,
            t,
            x,
        ),
        forall|x: usize| #[trigger] b.placed_uids@.contains(x) <==> a.placed_uids@.contains(x) || task_places(app0.strategy_buildings@, t, x),
        forall|name: Seq<char>, w: i32, l: bool| #[trigger] upgrade_done(b.completed_upgrade_keys@, name, w, l) <==> upgrade_done(
            a.completed_upgrade_keys@,
            name,
            w,
            l,
        ) || task_upgrades(app0.strategy_upgrades@, t, name, w, l),
{
    let ad = a.completed_demolish_uids@;
    let bd = b.completed_demolish_uids@;
    assert forall|x: usize| #[trigger] bd.contains(x) <==> ad.contains(x) || task_demolishes(app0.strategy_demolishes@, t, x) by {
        if bd.contains(x) {
            let k = choose|k: int| 0 <= k < bd.len() && bd[k] == x;
            if k < ad.len() {
                assert(ad[k] == x);
            }
        }
        if ad.contains(x) {
            let k = choose|k: int| 0 <= k < ad.len() && ad[k] == x;
            assert(bd[k] == x);
        }
        if task_demolishes(app0.strategy_demolishes@, t, x) {
            assert(bd[bd.len() - 1] == x);
        }
    }
    let ap = a.placed_uids@;
    let bp = b.placed_uids@;
    assert forall|x: usize| #[trigger] bp.contains(x) <==> ap.contains(x) || task_places(app0.strategy_buildings@, t, x) by {
        if bp.contains(x) {
            let k = choose|k: int| 0 <= k < bp.len() && bp[k] == x;
            if k < ap.len() {
                assert(ap[k] == x);
            }
        }
        if ap.contains(x) {
            let k = choose|k: int| 0 <= k < ap.len() && ap[k] == x;
            assert(bp[k] == x);
        }
        if task_places(app0.strategy_buildings@, t, x) {
            assert(bp[bp.len() - 1] == x);
        }
    }
    let keys = b.completed_upgrade_keys@;
    let k0 = a.completed_upgrade_keys@;
    assert forall|name: Seq<char>, w: i32, l: bool| #[trigger] upgrade_done(keys, name, w, l) <==> upgrade_done(k0, name, w, l) || task_upgrades(
        app0.strategy_upgrades@,
        t,
        name,
        w,
        l,
    ) by {
        if t.action is Upgrade {
            if upgrade_done(keys, name, w, l) {
                let k = choose|k: int| 0 <= k < keys.len() && #[trigger] keys[k].name@ == name && keys[k].wave_num == w && keys[k].is_late == l;
                if k < keys.len() - 1 {
                    assert(keys.drop_last()[k] == keys[k]);
                }
            }
            if upgrade_done(k0, name, w, l) {
                let k = choose|k: int| 0 <= k < k0.len() && #[trigger] k0[k].name@ == name && k0[k].wave_num == w && k0[k].is_late == l;
                assert(keys.drop_last()[k] == keys[k]);
            }
            if task_upgrades(app0.strategy_upgrades@, t, name, w, l) {
                assert(keys[keys.len() - 1].name@ == name);
            }
        }
    }
}

/// Stable insertion sort of task indices by `order_key`.
fn sort_indices(tasks: &Vec<ScheduledTask>, idxs: &Vec<usize>, ascending: bool) -> (r: Vec<usize>)
    requires
        forall|m: int| 0 <= m < idxs@.len() ==> #[trigger] idxs@[m] < tasks@.len(),
    ensures
        forall|k: usize| r@.contains(k) <==> idxs@.contains(k),
        forall|m: int| 0 <= m < r@.len() ==> #[trigger] r@[m] < tasks@.len(),
        forall|a: int, b: int| 0 <= a < b < r@.len() ==> order_key(tasks@[r@[a] as int], ascending) <= order_key(
            tasks@[r@[b] as int],
            ascending,
        ),
        r@ == sorted_by_key(tasks@, idxs@, ascending),
{
    let mut r: Vec<usize> = Vec::new();
    let mut i: usize = 0;
    while i < idxs.len()
        invariant
            i <= idxs@.len(),
            forall|m: int| 0 <= m < idxs@.len() ==> #[trigger] idxs@[m] < tasks@.len(),
            forall|k: usize| r@.contains(k) <==> idxs@.subrange(0, i as int).contains(k),
            forall|m: int| 0 <= m < r@.len() ==> #[trigger] r@[m] < tasks@.len(),
            forall|a: int, b: int| 0 <= a < b < r@.len() ==> order_key(tasks@[r@[a] as int], ascending) <= order_key(
                tasks@[r@[b] as int],
                ascending,
            ),
            r@ == sorted_by_key(tasks@, idxs@.take(i as int), ascending),
        decreases idxs@.len() - i,
    {
        let x = idxs[i];
        let kx = task_key(&tasks[x], ascending);
        let mut p: usize = 0;
        while p < r.len() && task_key(&tasks[r[p]], ascending) <= kx
            invariant
                p <= r@.len(),
                forall|m: int| 0 <= m < r@.len() ==> #[trigger] r@[m] < tasks@.len(),
                forall|m: int| 0 <= m < p ==> order_key(tasks@[#[trigger] r@[m] as int], ascending) <= kx,
            decreases r@.len() - p,
        {
            p = p + 1;
        }
        let ghost r0 = r@;
        proof {
            lemma_insert_pos(tasks@, r0, kx as int, ascending, p as int);
            let t = idxs@.take(i + 1);
            assert(t.drop_last() =~= idxs@.take(i as int));
            assert(t.last() == x);
        }
        r.insert(p, x);
        proof {
            assert(r@ == r0.insert(p as int, x));
            assert forall|k: usize| r@.contains(k) <==> idxs@.subrange(0, i + 1).contains(k) by {
                let s0 = idxs@.subrange(0, i as int);
                let s1 = s0.push(x);
                assert(idxs@.subrange(0, i + 1) =~= s1);
                if s1.contains(k) {
                    let m = choose|m: int| 0 <= m < s1.len() && s1[m] == k;
                    if m < s0.len() {
                        assert(s0[m] == k);
                    }
                }
                if s0.contains(k) {
                    let m = choose|m: int| 0 <= m < s0.len() && s0[m] == k;
                    assert(s1[m] == k);
                }
                if k == x {
                    assert(s1[s0.len() as int] == x);
                }
                if r@.contains(k) {
                    let m = choose|m: int| 0 <= m < r@.len() && r@[m] == k;
                    if m < p {
                        assert(r0[m] == k);
                    } else if m > p {
                        assert(r0[m - 1] == k);
                    }
                }
                if r0.contains(k) {
                    let m = choose|m: int| 0 <= m < r0.len() && r0[m] == k;
                    if m < p {
                        assert(r@[m] == k);
                    } else {
                        assert(r@[m + 1] == k);
                    }
                }
                if k == x {
                    assert(r@[p as int] == x);
                }
            }
            assert forall|a: int, b: int| 0 <= a < b < r@.len() implies order_key(tasks@[r@[a] as int], ascending) <= order_key(
                tasks@[r@[b] as int],
                ascending,
            ) by {
                if b < p {
                    assert(r@[a] == r0[a] && r@[b] == r0[b]);
                } else if b == p {
                    assert(r@[a] == r0[a]);
                } else if a < p {
                    assert(r@[a] == r0[a] && r@[b] == r0[b - 1]);
                } else if a == p {
                    assert(r@[b] == r0[b - 1]);
                    if p < r0.len() {
                        assert(order_key(tasks@[r0[p as int] as int], ascending) > kx);
                    }
                } else {
                    assert(r@[a] == r0[a - 1] && r@[b] == r0[b - 1]);
                }
            }
        }
        i = i + 1;
    }
    assert(idxs@.subrange(0, idxs@.len() as int) =~= idxs@);
    assert(idxs@.take(idxs@.len() as int) =~= idxs@);
    r
}

fn task_key(t: &ScheduledTask, ascending: bool) -> (r: i128)
    ensures
        r == order_key(*t, ascending),
{
    let y: i128 = if ascending {
        t.map_y as i128
    } else {
        -(t.map_y as i128)
    };
    y * 256 + t.priority as i128
}

fn vec_contains(v: &Vec<usize>, x: usize) -> (r: bool)
    ensures
        r == v@.contains(x),
{
    let mut i: usize = 0;
    while i < v.len()
        invariant
            i <= v@.len(),
            forall|k: int| 0 <= k < i ==> v@[k] != x,
        decreases v@.len() - i,
    {
        if v[i] == x {
            return true;
        }
        i = i + 1;
    }
    false
}

fn upgrade_done_exec(keys: &Vec<UpgradeKey>, name: &str, w: i32, l: bool) -> (r: bool)
    ensures
        r == upgrade_done(keys@, name@, w, l),
{
    let mut i: usize = 0;
    while i < keys.len()
        invariant
            i <= keys@.len(),
            forall|k: int| 0 <= k < i ==> !(#[trigger] keys@[k].name@ == name@ && keys@[k].wave_num == w && keys@[k].is_late == l),
        decreases keys@.len() - i,
    {
        if keys[i].wave_num == w && keys[i].is_late == l && same_text(keys[i].name.as_str(), name) {
            return true;
        }
        i = i + 1;
    }
    false
}

} // verus!
