use nzm_cmd::nav::{
    identify_current_scene, check_color, check_text, default_delay, identify_from_scores, score_checks, Anchors, ColorAnchor, MatchLogic, NavAction,
    NavEngine, NavEvent, NavResult, Scene, SceneReadings, TextAnchor, Transition,
};

fn tr(target: &str, x: i32, y: i32, delay: u64) -> Transition {
    Transition { target: target.to_string(), coords: [x, y], post_delay: delay }
}

fn text_scene(id: &str, logic: &str, texts: &[&str], transitions: Vec<Transition>) -> Scene {
    Scene {
        id: id.to_string(),
        logic: logic.to_string(),
        anchors: Some(Anchors {
            text: Some(texts.iter().map(|t| TextAnchor { rect: [0, 0, 10, 10], val: t.to_string() }).collect()),
            color: None,
        }),
        transitions: Some(transitions),
    }
}

fn virtual_scene(id: &str) -> Scene {
    Scene { id: id.to_string(), logic: String::new(), anchors: None, transitions: None }
}

fn readings(texts: &[&str]) -> SceneReadings {
    SceneReadings { texts: texts.iter().map(|t| t.to_string()).collect(), colors: vec![] }
}

#[test]
fn shortest_path_is_found() {
    let engine = NavEngine::new(vec![
        text_scene("A", "", &["a"], vec![tr("B", 1, 1, 500), tr("D", 2, 2, 500)]),
        text_scene("B", "", &["b"], vec![tr("C", 3, 3, 500)]),
        text_scene("C", "", &["c"], vec![tr("E", 4, 4, 500)]),
        text_scene("D", "", &["d"], vec![tr("E", 5, 5, 700)]),
        text_scene("E", "", &["e"], vec![]),
    ])
    .unwrap();
    let p = engine.find_path("A", "E").unwrap();
    assert_eq!(p.len(), 2);
    assert_eq!(p[0].target, "D");
    assert_eq!(p[1].coords, [5, 5]);
    assert_eq!(p[1].post_delay, 700);
    assert_eq!(engine.find_path("C", "C").unwrap().len(), 0);
    assert!(engine.find_path("E", "A").is_none());
    assert!(engine.find_path("Z", "A").is_none());
}

#[test]
fn ties_follow_declaration_order() {
    let engine = NavEngine::new(vec![
        text_scene("S", "", &["s"], vec![tr("X", 1, 0, 500), tr("Y", 2, 0, 500)]),
        text_scene("X", "", &["x"], vec![tr("T", 3, 0, 500)]),
        text_scene("Y", "", &["y"], vec![tr("T", 4, 0, 500)]),
        text_scene("T", "", &["t"], vec![]),
    ])
    .unwrap();
    let r = engine.find_route(0, "T").unwrap();
    assert_eq!(r, vec![(0, 0), (1, 0)]);
}

#[test]
fn undeclared_target_is_reachable_as_last_step() {
    let engine = NavEngine::new(vec![text_scene("A", "", &["a"], vec![tr("level", 9, 9, 100)])]).unwrap();
    assert_eq!(engine.find_path("A", "level").unwrap()[0].coords, [9, 9]);
}

#[test]
fn duplicate_ids_are_refused() {
    assert!(NavEngine::new(vec![virtual_scene("A"), virtual_scene("A")]).is_none());
    assert!(NavEngine::new(vec![]).is_some());
}

#[test]
fn and_or_scores() {
    assert_eq!(score_checks(MatchLogic::And, &vec![true, true, true]), 3);
    assert_eq!(score_checks(MatchLogic::And, &vec![true, false, true]), 0);
    assert_eq!(score_checks(MatchLogic::And, &vec![]), 0);
    assert_eq!(score_checks(MatchLogic::Or, &vec![false, true, true]), 2);
    assert_eq!(score_checks(MatchLogic::Or, &vec![false, false]), 0);
    assert_eq!(score_checks(MatchLogic::Or, &vec![]), 0);
}

#[test]
fn logic_names_ignore_case() {
    assert_eq!(MatchLogic::from_name("OR"), MatchLogic::Or);
    assert_eq!(MatchLogic::from_name("Or"), MatchLogic::Or);
    assert_eq!(MatchLogic::from_name("and"), MatchLogic::And);
    assert_eq!(MatchLogic::from_name(""), MatchLogic::And);
    assert_eq!(MatchLogic::from_lowered("OR"), MatchLogic::And);
}

#[test]
fn scene_scores_from_readings() {
    let engine = NavEngine::new(vec![
        text_scene("menu", "and", &["开始", "设置"], vec![]),
        text_scene("lobby", "OR", &["大厅", "队伍"], vec![]),
        virtual_scene("level"),
    ])
    .unwrap();
    assert_eq!(engine.get_match_score(0, &readings(&["开始游戏", "设置选项"])), 2);
    assert_eq!(engine.get_match_score(0, &readings(&["开始游戏", "其他"])), 0);
    assert_eq!(engine.get_match_score(0, &readings(&["开始游戏"])), 0);
    assert_eq!(engine.get_match_score(1, &readings(&["", "我的队伍"])), 1);
    assert_eq!(engine.get_match_score(2, &readings(&["anything"])), 0);
}

#[test]
fn color_anchor_tolerance() {
    assert!(check_color([250, 10, 10], "#FF0000", 9));
    assert!(!check_color([250, 10, 10], "#FF0000", 8));
    assert!(check_color([0, 0, 0], "zz", 0));
    assert!(!check_color([0, 0, 0], "#ff00", 255));
    assert!(check_color([18, 52, 86], "##123456", 0));
    assert!(check_color([18, 52, 86], "12345678", 0));
}

#[test]
fn color_anchor_in_scene() {
    let engine = NavEngine::new(vec![Scene {
        id: "hud".to_string(),
        logic: String::new(),
        anchors: Some(Anchors {
            text: None,
            color: Some(vec![ColorAnchor { pos: [5, 5], val: "#00ff00".to_string(), tol: 10 }]),
        }),
        transitions: None,
    }])
    .unwrap();
    let close = SceneReadings { texts: vec![], colors: vec![Some([5, 250, 5])] };
    let far = SceneReadings { texts: vec![], colors: vec![Some([50, 200, 50])] };
    let missing = SceneReadings { texts: vec![], colors: vec![None] };
    assert_eq!(engine.get_match_score(0, &close), 1);
    assert_eq!(engine.get_match_score(0, &far), 0);
    assert_eq!(engine.get_match_score(0, &missing), 0);
}

#[test]
fn text_containment() {
    assert!(check_text("当前波次12", "波次"));
    assert!(check_text("abc", ""));
    assert!(!check_text("ab", "abc"));
}

#[test]
fn identification_prefers_highest_then_first() {
    assert_eq!(identify_from_scores(&vec![0, 2, 3, 3]), Some(2));
    assert_eq!(identify_from_scores(&vec![0, 0]), None);
    assert_eq!(identify_from_scores(&vec![]), None);
    assert_eq!(default_delay(), 500);
}

#[test]
fn handover_to_virtual_scene() {
    let engine = NavEngine::new(vec![text_scene("A", "", &["a"], vec![tr("B", 10, 20, 500)]), virtual_scene("B")]).unwrap();
    let (mut nav, first) = engine.navigate("B");
    assert_eq!(first, NavAction::Probe { scene: 0 });
    let a = engine.get_match_score(0, &readings(&["a"]));
    assert_eq!(nav.step(&engine, NavEvent::Scored(a), 0), NavAction::Probe { scene: 1 });
    let b = engine.get_match_score(1, &readings(&[]));
    assert_eq!(nav.step(&engine, NavEvent::Scored(b), 10), NavAction::Click { x: 10, y: 20 });
    assert_eq!(nav.step(&engine, NavEvent::Performed, 20), NavAction::Sleep { ms: 500 });
    assert_eq!(nav.step(&engine, NavEvent::Performed, 520), NavAction::Finish(NavResult::Handover("B".to_string())));
}

#[test]
fn unknown_screen_fails_without_clicking() {
    let engine = NavEngine::new(vec![text_scene("A", "", &["a"], vec![tr("B", 10, 20, 500)]), virtual_scene("B")]).unwrap();
    let (mut nav, first) = engine.navigate("B");
    assert_eq!(first, NavAction::Probe { scene: 0 });
    assert_eq!(nav.step(&engine, NavEvent::Scored(0), 0), NavAction::Probe { scene: 1 });
    assert_eq!(nav.step(&engine, NavEvent::Scored(0), 5), NavAction::Finish(NavResult::Failed));
    assert!(!nav.clicked);
}

#[test]
fn navigation_confirms_each_step() {
    let engine = NavEngine::new(vec![
        text_scene("A", "", &["a"], vec![tr("B", 1, 2, 100)]),
        text_scene("B", "", &["b"], vec![tr("C", 3, 4, 3000)]),
        text_scene("C", "", &["c"], vec![]),
    ])
    .unwrap();
    let (mut nav, _) = engine.navigate("C");
    assert_eq!(nav.step(&engine, NavEvent::Scored(1), 0), NavAction::Probe { scene: 1 });
    assert_eq!(nav.step(&engine, NavEvent::Scored(0), 0), NavAction::Probe { scene: 2 });
    assert_eq!(nav.step(&engine, NavEvent::Scored(0), 0), NavAction::Click { x: 1, y: 2 });
    assert_eq!(nav.step(&engine, NavEvent::Performed, 100), NavAction::Probe { scene: 1 });
    assert_eq!(nav.step(&engine, NavEvent::Scored(0), 150), NavAction::Sleep { ms: 200 });
    assert_eq!(nav.step(&engine, NavEvent::Performed, 350), NavAction::Probe { scene: 1 });
    assert_eq!(nav.step(&engine, NavEvent::Scored(1), 400), NavAction::Sleep { ms: 300 });
    assert_eq!(nav.step(&engine, NavEvent::Performed, 700), NavAction::Click { x: 3, y: 4 });
    assert_eq!(nav.step(&engine, NavEvent::Performed, 800), NavAction::Probe { scene: 2 });
    assert_eq!(nav.step(&engine, NavEvent::Scored(0), 900), NavAction::Sleep { ms: 200 });
    assert_eq!(nav.step(&engine, NavEvent::Performed, 3700), NavAction::Probe { scene: 2 });
    assert_eq!(nav.step(&engine, NavEvent::Scored(0), 3750), NavAction::Sleep { ms: 200 });
    assert_eq!(nav.step(&engine, NavEvent::Performed, 3800), NavAction::Finish(NavResult::Failed));
}

#[test]
fn already_at_target_succeeds_at_once() {
    let engine = NavEngine::new(vec![text_scene("A", "", &["a"], vec![])]).unwrap();
    let (mut nav, _) = engine.navigate("A");
    assert_eq!(nav.step(&engine, NavEvent::Scored(1), 0), NavAction::Finish(NavResult::Success));
    let empty = NavEngine::new(vec![]).unwrap();
    assert_eq!(empty.navigate("A").1, NavAction::Finish(NavResult::Failed));
}

#[test]
fn hint_short_circuits_identification() {
    assert_eq!(identify_current_scene(Some(4), 1, &vec![0, 9]), Some(4));
    assert_eq!(identify_current_scene(Some(4), 0, &vec![0, 9]), Some(1));
    assert_eq!(identify_current_scene(None, 0, &vec![0, 0]), None);
}
