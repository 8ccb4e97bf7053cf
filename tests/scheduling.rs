use nzm_cmd::camera::CameraController;
use nzm_cmd::run::{RunController, RunRequest};
use nzm_cmd::scheduler::{derive_loadout, TowerDefenseApp};
use nzm_cmd::td::{
    BuildingExport, DemolishEvent, InputAction, MapBuildingsExport, MapMeta, PrepAction, TDConfig, TrapConfigItem, UpgradeEvent,
    WaveStatus,
};
use nzm_cmd::wave::{recognize_wave_status, wave_from_capture, parse_decimal_i32, wave_read_steps, WaveMonitor};

fn meta() -> MapMeta {
    MapMeta { grid_pixel_size: 50, offset_x: 100, offset_y: 0, bottom: 2000, prep_actions: vec![] }
}

fn building(uid: usize, name: &str, gx: usize, gy: usize, wave: i32, late: bool) -> BuildingExport {
    BuildingExport { uid, name: name.to_string(), grid_x: gx, grid_y: gy, width: 1, height: 1, wave_num: wave, is_late: late }
}

fn trap(name: &str, b_type: &str, col: i32, row: i32) -> TrapConfigItem {
    TrapConfigItem { name: name.to_string(), b_type: b_type.to_string(), grid_index: [col, row] }
}

fn app(buildings: Vec<BuildingExport>, upgrades: Vec<UpgradeEvent>, demolishes: Vec<DemolishEvent>) -> TowerDefenseApp {
    let strategy = MapBuildingsExport { map_name: "m".to_string(), buildings, upgrades, demolishes };
    TowerDefenseApp::new(TDConfig::default(), meta(), strategy, vec![trap("spike", "Floor", 1, 0), trap("wall", "Wall", 0, 1)], 0)
}

fn edge_alignments(actions: &[InputAction]) -> usize {
    actions.iter().filter(|a| matches!(a, InputAction::KeyHold { ms: 2500, .. })).count()
}

#[test]
fn map_pixels() {
    let a = app(vec![], vec![], vec![]);
    assert_eq!(a.get_absolute_map_pixel(2, 3, 1, 2), Some((225, 200)));
    assert_eq!(a.get_absolute_map_pixel(0, 0, 3, 3), Some((175, 75)));
    assert_eq!(a.get_absolute_map_pixel(usize::MAX, 0, usize::MAX, 1), None);
}

#[test]
fn camera_move_is_idempotent() {
    let mut cam = CameraController::new(&TDConfig::default(), &meta());
    assert_eq!(cam.max_scroll, 920);
    assert_eq!(cam.safe_center, 540);
    let mut out = vec![];
    assert!(cam.smart_move_camera(1200, &mut out));
    assert_eq!(
        out,
        vec![
            InputAction::KeyHold { key: 's', ms: 2500 },
            InputAction::Sleep { ms: 500 },
            InputAction::KeyHold { key: 'w', ms: 900 },
            InputAction::Sleep { ms: 200 },
        ]
    );
    assert_eq!(cam.offset_y, 650);
    let mut again = vec![];
    assert!(!cam.smart_move_camera(1200, &mut again));
    assert!(again.is_empty());
}

#[test]
fn camera_move_from_top_edge() {
    let mut cam = CameraController::new(&TDConfig::default(), &meta());
    cam.offset_y = 900;
    let mut out = vec![];
    assert!(cam.smart_move_camera(700, &mut out));
    assert_eq!(out[0], InputAction::KeyHold { key: 'w', ms: 2500 });
    assert_eq!(out[2], InputAction::KeyHold { key: 's', ms: 500 });
    assert_eq!(cam.offset_y, 150);
    let mut small = vec![];
    assert_eq!(cam.scroll_camera_by_pixels('s', 9, 100, &mut small), 0);
    assert!(small.is_empty());
    assert_eq!(cam.scroll_camera_by_pixels('s', 12, 100, &mut small), 30);
}

#[test]
fn build_outside_view_aligns_once() {
    let mut a = app(vec![building(1, "spike", 0, 8, 1, false)], vec![], vec![]);
    a.camera.offset_y = 920;
    let out = a.execute_wave_phase(1, false);
    assert_eq!(edge_alignments(&out), 1);
    assert_eq!(out[0], InputAction::KeyHold { key: 'w', ms: 2500 });
    assert!(out.iter().any(|x| matches!(x, InputAction::DoubleClick { .. })));
    assert_eq!(a.placed_uids, vec![1]);
}

#[test]
fn build_inside_view_does_not_move() {
    let mut a = app(vec![building(2, "spike", 0, 10, 1, false)], vec![], vec![]);
    let out = a.execute_wave_phase(1, false);
    assert_eq!(edge_alignments(&out), 0);
    assert!(!out.iter().any(|x| matches!(x, InputAction::KeyHold { key: 's', .. } | InputAction::KeyHold { key: 'w', .. })));
    assert_eq!(out[0], InputAction::MoveTo { x: 200, y: 525, duration_ms: 350 });
    assert_eq!(out[2], InputAction::KeyClick { key: '4' });
    assert_eq!(out[3], InputAction::Sleep { ms: 250 });
}

#[test]
fn repeated_phase_dispatches_nothing() {
    let mut a = app(
        vec![building(1, "spike", 0, 10, 2, true), building(2, "wall", 3, 12, 2, true), building(3, "spike", 1, 1, 3, true)],
        vec![UpgradeEvent { building_name: "spike".to_string(), wave_num: 2, is_late: true }],
        vec![DemolishEvent {
            uid: 9,
            name: "old".to_string(),
            grid_x: 0,
            grid_y: 11,
            width: 1,
            height: 1,
            wave_num: 2,
            is_late: true,
        }],
    );
    let first = a.execute_wave_phase(2, true);
    assert!(!first.is_empty());
    assert_eq!(a.placed_uids, vec![1, 2]);
    assert_eq!(a.completed_demolish_uids, vec![9]);
    assert_eq!(a.completed_upgrade_keys.len(), 1);
    let second = a.execute_wave_phase(2, true);
    assert!(second.is_empty());
    assert_eq!(a.placed_uids, vec![1, 2]);
}

#[test]
fn demolition_precedes_building() {
    let mut a = app(
        vec![building(1, "spike", 0, 10, 1, false)],
        vec![],
        vec![DemolishEvent { uid: 7, name: "x".to_string(), grid_x: 0, grid_y: 10, width: 1, height: 1, wave_num: 1, is_late: false }],
    );
    let out = a.execute_wave_phase(1, false);
    let e = out.iter().position(|x| *x == InputAction::KeyClick { key: 'e' }).unwrap();
    let place = out.iter().position(|x| matches!(x, InputAction::DoubleClick { .. })).unwrap();
    assert!(e < place);
}

#[test]
fn upgrade_holds_tool_key() {
    let mut a = app(vec![building(1, "wall", 0, 10, 1, false)], vec![UpgradeEvent { building_name: "spike".to_string(), wave_num: 4, is_late: false }], vec![]);
    assert_eq!(a.active_loadout, vec!["wall".to_string(), "spike".to_string()]);
    let out = a.execute_wave_phase(4, false);
    assert_eq!(out, vec![InputAction::KeyHold { key: '5', ms: 1500 }, InputAction::Sleep { ms: 400 }]);
}

#[test]
fn trap_keys_follow_loadout() {
    let mut a = app(vec![], vec![], vec![]);
    a.active_loadout = vec!["a", "b", "c", "d", "e"].into_iter().map(String::from).collect();
    assert_eq!(a.get_trap_key("a"), '4');
    assert_eq!(a.get_trap_key("d"), '7');
    assert_eq!(a.get_trap_key("e"), '1');
    assert_eq!(a.get_trap_key("zzz"), '4');
}

#[test]
fn loadout_from_strategy() {
    let l = derive_loadout(
        &vec![building(1, "b", 0, 0, 1, false), building(2, "a", 0, 0, 1, false), building(3, "b", 0, 0, 1, false), building(4, "x", 0, 0, 1, false)],
        &vec![UpgradeEvent { building_name: "c".to_string(), wave_num: 1, is_late: false }],
        &vec![trap("a", "", 0, 0), trap("b", "", 0, 0), trap("c", "", 0, 0)],
    );
    assert_eq!(l, vec!["b".to_string(), "a".to_string(), "c".to_string()]);
}

#[test]
fn prep_script_and_loadout_menu() {
    let mut a = app(vec![building(1, "wall", 0, 0, 1, false)], vec![], vec![]);
    a.map_meta.prep_actions = vec![
        PrepAction::KeyDown { key: 'W' },
        PrepAction::Wait { ms: 700 },
        PrepAction::KeyDown { key: '#' },
        PrepAction::Log { msg: "go".to_string() },
        PrepAction::KeyUpAll,
    ];
    let out = a.execute_prep_logic();
    assert_eq!(
        out,
        vec![
            InputAction::KeyDown { code: 0x1A },
            InputAction::Sleep { ms: 700 },
            InputAction::KeyUpAll,
            InputAction::KeyUpAll,
            InputAction::KeyClick { key: 'n' },
            InputAction::Sleep { ms: 500 },
            InputAction::MoveTo { x: 172, y: 375, duration_ms: 400 },
            InputAction::Click { left: true, right: false, hold_ms: 0 },
            InputAction::Sleep { ms: 350 },
            InputAction::MoveTo { x: 520, y: 535, duration_ms: 400 },
            InputAction::Click { left: true, right: false, hold_ms: 0 },
            InputAction::Sleep { ms: 400 },
            InputAction::KeyClick { key: 'n' },
            InputAction::Sleep { ms: 500 },
        ]
    );
}

#[test]
fn view_setup_resets_camera() {
    let mut a = app(vec![], vec![], vec![]);
    a.camera.offset_y = 400;
    let out = a.setup_view();
    assert_eq!(out.len(), 2 + 4 * 21 + 8 + 2);
    assert_eq!(out[2], InputAction::Scroll { delta: -120 });
    assert_eq!(a.camera.offset_y, 0);
}

#[test]
fn wave_text_patterns() {
    assert_eq!(recognize_wave_status("当前波次 12", false), Some(WaveStatus { current_wave: 12 }));
    assert_eq!(recognize_wave_status("3/10S波次", true), Some(WaveStatus { current_wave: 3 }));
    assert_eq!(recognize_wave_status("", false), None);
    assert_eq!(recognize_wave_status("no wave here", false), None);
    assert_eq!(recognize_wave_status("波次99999999999", false), None);
    assert_eq!(wave_from_capture(Some("42".to_string())), Some(WaveStatus { current_wave: 42 }));
    assert_eq!(wave_from_capture(None), None);
}

#[test]
fn decimal_parsing() {
    assert_eq!(parse_decimal_i32("-2147483648"), Some(i32::MIN));
    assert_eq!(parse_decimal_i32("+7"), Some(7));
    assert_eq!(parse_decimal_i32("2147483648"), None);
    assert_eq!(parse_decimal_i32("-"), None);
    assert_eq!(parse_decimal_i32(""), None);
    assert_eq!(parse_decimal_i32("1a"), None);
}

#[test]
fn overlay_key_sequence() {
    let (before, after) = wave_read_steps(true);
    assert_eq!(before, vec![InputAction::KeyDown { code: 0x2B }, InputAction::Sleep { ms: 500 }]);
    assert_eq!(after.len(), 5);
    let (b, a) = wave_read_steps(false);
    assert!(b.is_empty() && a.is_empty());
}

#[test]
fn wave_transition_rule() {
    let mut m = WaveMonitor::new(0);
    assert!(!m.validate_transition(2, 100_000));
    assert!(m.validate_transition(1, 1_000));
    assert!(!m.validate_transition(2, 60_999));
    assert!(m.validate_transition(2, 61_000));
    assert!(!m.validate_transition(2, 200_000));
    assert!(!m.validate_transition(4, 200_000));
    assert_eq!(m.last_confirmed_wave, 2);
}

#[test]
fn quick_wave_sequence_is_filtered() {
    let mut m = WaveMonitor::new(0);
    assert!(m.validate_transition(1, 0));
    assert!(!m.validate_transition(2, 5_000));
    assert!(!m.validate_transition(2, 10_000));
    assert!(!m.validate_transition(3, 15_000));
    assert_eq!(m.last_confirmed_wave, 1);
    assert!(m.validate_transition(2, 70_000));
    assert!(!m.validate_transition(3, 80_000));
    assert!(m.validate_transition(3, 130_000));
}

#[test]
fn run_loop_follows_waves() {
    let a = app(vec![building(1, "spike", 0, 10, 1, false)], vec![], vec![]);
    let (mut run, first) = RunController::start(a);
    assert_eq!(first.actions.len(), 4);
    let step = run.on_wave(None, 1000);
    assert_eq!(step.actions, vec![InputAction::Sleep { ms: 1000 }]);
    let step = run.on_wave(Some(WaveStatus { current_wave: 1 }), 2000);
    assert!(matches!(step.next, RunRequest::ReadWave { use_tab: true, .. }));
    let step = run.on_wave(Some(WaveStatus { current_wave: 1 }), 3000);
    assert!(step.actions.contains(&InputAction::KeyClick { key: 'g' }));
    assert_eq!(run.app.placed_uids, vec![1]);
    assert!(matches!(run.on_wave(None, 4000).next, RunRequest::ReadWave { .. }));
    assert!(matches!(run.on_wave(None, 5000).next, RunRequest::ReadWave { .. }));
    assert!(matches!(run.on_wave(None, 6000).next, RunRequest::Finished));
}

#[test]
fn far_row_after_alignment_fine_scrolls_only() {
    let mut a = app(vec![building(5, "spike", 0, 18, 2, false)], vec![], vec![]);
    a.camera.offset_y = 920;
    let out = a.execute_wave_phase(2, false);
    assert_eq!(edge_alignments(&out), 1);
    assert_eq!(out[0], InputAction::KeyHold { key: 'w', ms: 2500 });
    assert_eq!(out[1], InputAction::Sleep { ms: 500 });
    assert_eq!(out[2], InputAction::KeyHold { key: 's', ms: 1300 });
    assert!(matches!(out[3], InputAction::MoveTo { .. }));
    assert_eq!(a.camera.offset_y, 390);
}

#[test]
fn coarse_scroll_resolution() {
    let cam = CameraController::new(&TDConfig::default(), &meta());
    let mut out = vec![];
    assert_eq!(cam.scroll_camera_by_pixels('w', 3000, 5000, &mut out), 3000);
    assert_eq!(out, vec![InputAction::KeyHold { key: 'w', ms: 10000 }]);
    let mut none = vec![];
    assert_eq!(cam.scroll_camera_by_pixels('w', -40, 5000, &mut none), 0);
    assert!(none.is_empty());
}
