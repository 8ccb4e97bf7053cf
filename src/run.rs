//! The level run: waiting for combat, preparing, then following the waves.
//!
//! The caller performs the returned input steps, reads the wave counter where
//! asked (see `crate::wave`), and reports the reading back.

use vstd::prelude::*;
use crate::scheduler::{
    build_pending, demolish_pending, phase_done, phase_steps, prep_routine_steps, setup_view_steps, upgrade_pending, TowerDefenseApp,
};
use crate::td::{InputAction, WaveStatus};
use crate::wave::{accepts_transition, WaveMonitor};

verus! {

/// Readings in a row without a wave number after which the level counts as over.
pub const MAX_MISSED_READS: u32 = 3;
/// Pause between two readings while the level runs, in ms.
pub const MONITOR_PERIOD_MS: u64 = 10000;
/// HID usage code of the escape key.
pub const KEY_ESCAPE: u8 = 0x29;

#[derive(Debug, Clone, Copy, PartialEq, Eq, Structural)]
pub enum RunPhase {
    /// Waiting for the first wave number to appear on the HUD.
    WaitingForCombat,
    /// Following the waves through the detail overlay.
    Monitoring,
    Finished,
}

/// What the caller does after performing the steps.
#[derive(Debug, Clone, Copy)]
pub enum RunRequest {
    /// Read the wave counter in `rect`, with the detail overlay when `use_tab`.
    ReadWave { rect: [i32; 4], use_tab: bool },
    /// The level is over.
    Finished,
}

#[derive(Debug)]
pub struct RunStep {
    pub actions: Vec<InputAction>,
    pub next: RunRequest,
}

#[derive(Debug)]
pub struct RunController {
    pub app: TowerDefenseApp,
    pub phase: RunPhase,
    /// Readings in a row that held no wave number.
    pub missed_reads: u32,
}

/// Steps that dismiss a result screen: escape, space, escape.
pub open spec fn dismiss_steps() -> Seq<InputAction> {
    seq![
        InputAction::KeyDown { code: KEY_ESCAPE },
        InputAction::Sleep { ms: 100 },
        InputAction::KeyUpAll,
        InputAction::Sleep { ms: 300 },
        InputAction::KeyClick { key: ' ' },
        InputAction::Sleep { ms: 500 },
        InputAction::KeyDown { code: KEY_ESCAPE },
        InputAction::Sleep { ms: 100 },
        InputAction::KeyUpAll,
    ]
}

/// Steps that start the level from its lobby.
pub open spec fn entry_steps() -> Seq<InputAction> {
    seq![
        InputAction::MoveTo { x: 1700, y: 950, duration_ms: 500 },
        InputAction::Click { left: true, right: false, hold_ms: 0 },
        InputAction::MoveTo { x: 1110, y: 670, duration_ms: 500 },
        InputAction::Click { left: true, right: false, hold_ms: 0 },
    ]
}

/// `phase_done` does not look at the wave monitor.
proof fn lemma_phase_done_monitor(a: TowerDefenseApp, a2: TowerDefenseApp, b: TowerDefenseApp, wave: i32, late: bool)
    requires
        phase_done(a, b, wave, late),
        a2.strategy_buildings == a.strategy_buildings,
        a2.strategy_upgrades == a.strategy_upgrades,
        a2.strategy_demolishes == a.strategy_demolishes,
        a2.map_meta == a.map_meta,
        a2.config == a.config,
        a2.placed_uids == a.placed_uids,
        a2.completed_demolish_uids == a.completed_demolish_uids,
        a2.completed_upgrade_keys == a.completed_upgrade_keys,
    ensures
        phase_done(a2, b, wave, late),
{
    assert forall|i: int| demolish_pending(a2, i, wave, late) == demolish_pending(a, i, wave, late) by {}
    assert forall|i: int| build_pending(a2, i, wave, late) == build_pending(a, i, wave, late) by {}
    assert forall|i: int| upgrade_pending(a2, i, wave, late) == upgrade_pending(a, i, wave, late) by {}
}

impl RunController {
    pub open spec fn wf(&self) -> bool {
        self.app.wf()
    }

    /// A run over `app`, and its first steps: enter the level, then read the HUD.
    pub fn start(app: TowerDefenseApp) -> (r: (RunController, RunStep))
        requires
            app.wf(),
        ensures
            r.0.wf(),
            r.0.app == app,
            r.0.phase == RunPhase::WaitingForCombat,
            r.0.missed_reads == 0,
            r.1.actions@ == entry_steps(),
            r.1.next == (RunRequest::ReadWave { rect: app.config.hud_check_rect, use_tab: false }),
    {
        let mut actions: Vec<InputAction> = Vec::new();
        actions.push(InputAction::MoveTo { x: 1700, y: 950, duration_ms: 500 });
        actions.push(InputAction::Click { left: true, right: false, hold_ms: 0 });
        actions.push(InputAction::MoveTo { x: 1110, y: 670, duration_ms: 500 });
        actions.push(InputAction::Click { left: true, right: false, hold_ms: 0 });
        let rect = app.config.hud_check_rect;
        (
            RunController { app, phase: RunPhase::WaitingForCombat, missed_reads: 0 },
            RunStep { actions, next: RunRequest::ReadWave { rect, use_tab: false } },
        )
    }

    /// Takes a wave reading made at clock reading `now_ms` and returns the
    /// next steps.
    pub fn on_wave(&mut self, reading: Option<WaveStatus>, now_ms: u64) -> (r: RunStep)
        requires
            old(self).wf(),
        ensures
            final(self).wf(),
            old(self).phase is Finished ==> r.next == RunRequest::Finished && r.actions@.len() == 0,
            old(self).phase is WaitingForCombat && (reading matches Some(w) && w.current_wave > 0) ==> final(self).phase
                is Monitoring && final(self).app.monitor.last_wave_change_ms == now_ms && r.next == (RunRequest::ReadWave {
                rect: old(self).app.config.hud_wave_loop_rect,
                use_tab: true,
            }) && r.actions@ == prep_routine_steps(
                old(self).app.map_meta.prep_actions@,
                old(self).app.active_loadout@,
                old(self).app.trap_lookup@,
            ) + setup_view_steps() && final(self).app.camera.offset_y == 0,
            old(self).phase is WaitingForCombat && !(reading matches Some(w) && w.current_wave > 0) ==> final(self).phase
                is WaitingForCombat && r.actions@ == seq![InputAction::Sleep { ms: 1000 }] && r.next == (RunRequest::ReadWave {
                rect: old(self).app.config.hud_check_rect,
                use_tab: false,
            }),
            old(self).phase is Monitoring && reading is Some ==> final(self).missed_reads == 0 && r.next == (RunRequest::ReadWave {
                rect: old(self).app.config.hud_wave_loop_rect,
                use_tab: true,
            }),
            old(self).phase is Monitoring ==> (reading matches Some(w) ==> (!accepts_transition(
                old(self).app.monitor.last_confirmed_wave as int,
                old(self).app.monitor.last_wave_change_ms as int,
                w.current_wave as int,
                now_ms as int,
            ) ==> r.actions@ == seq![InputAction::Sleep { ms: MONITOR_PERIOD_MS }] && final(self).app == old(self).app)),
            old(self).phase is Monitoring ==> (reading matches Some(w) ==> (accepts_transition(
                old(self).app.monitor.last_confirmed_wave as int,
                old(self).app.monitor.last_wave_change_ms as int,
                w.current_wave as int,
                now_ms as int,
            ) ==> final(self).app.monitor.last_confirmed_wave == w.current_wave && (exists|mid: TowerDefenseApp|
                phase_done(old(self).app, mid, w.current_wave, false) && phase_done(mid, final(self).app, w.current_wave, true)
                    && r.actions@ == phase_steps(
                    TowerDefenseApp { monitor: WaveMonitor { last_confirmed_wave: w.current_wave, last_wave_change_ms: now_ms }, ..old(self).app },
                    w.current_wave,
                    false,
                ) + seq![InputAction::KeyClick { key: 'g' }, InputAction::Sleep { ms: 1000 }] + phase_steps(mid, w.current_wave, true)
                    + seq![InputAction::Sleep { ms: MONITOR_PERIOD_MS }]))),
            old(self).phase is Monitoring && reading is None ==> final(self).missed_reads == old(self).missed_reads + 1 || old(
                self,
            ).missed_reads == u32::MAX,
            old(self).phase is Monitoring && reading is None && old(self).missed_reads + 1 >= MAX_MISSED_READS ==> r.next
                == RunRequest::Finished && r.actions@ == dismiss_steps() && final(self).phase is Finished,
            old(self).phase is Monitoring && reading is None && old(self).missed_reads + 1 < MAX_MISSED_READS ==> r.actions@
                == dismiss_steps() + seq![InputAction::Sleep { ms: MONITOR_PERIOD_MS }],
    {
        match self.phase {
            RunPhase::Finished => RunStep { actions: Vec::new(), next: RunRequest::Finished },
            RunPhase::WaitingForCombat => {
                let started = match reading {
                    Some(w) => w.current_wave > 0,
                    None => false,
                };
                if started {
                    self.app.monitor.last_wave_change_ms = now_ms;
                    let mut actions = self.app.execute_prep_logic();
                    let mut view = self.app.setup_view();
                    actions.append(&mut view);
                    self.phase = RunPhase::Monitoring;
                    RunStep { actions, next: RunRequest::ReadWave { rect: self.app.config.hud_wave_loop_rect, use_tab: true } }
                } else {
                    let mut actions: Vec<InputAction> = Vec::new();
                    actions.push(InputAction::Sleep { ms: 1000 });
                    RunStep { actions, next: RunRequest::ReadWave { rect: self.app.config.hud_check_rect, use_tab: false } }
                }
            },
            RunPhase::Monitoring => {
                let rect = self.app.config.hud_wave_loop_rect;
                match reading {
                    Some(w) => {
                        self.missed_reads = 0;
                        let mut actions: Vec<InputAction> = Vec::new();
                        if self.app.validate_wave_transition(w.current_wave, now_ms) {
                            let ghost before = self.app;
                            let mut early = self.app.execute_wave_phase(w.current_wave, false);
                            let ghost mid = self.app;
                            actions.append(&mut early);
                            actions.push(InputAction::KeyClick { key: 'g' });
                            actions.push(InputAction::Sleep { ms: 1000 });
                            let mut late = self.app.execute_wave_phase(w.current_wave, true);
                            actions.append(&mut late);
                            proof {
                                assert(before == (TowerDefenseApp {
                                    monitor: WaveMonitor { last_confirmed_wave: w.current_wave, last_wave_change_ms: now_ms },
                                    ..old(self).app
                                }));
                            }
                            proof {
                                lemma_phase_done_monitor(before, old(self).app, mid, w.current_wave, false);
                                assert(phase_done(old(self).app, mid, w.current_wave, false));
                            }
                        }
                        let ghost pre_sleep = actions@;
                        actions.push(InputAction::Sleep { ms: MONITOR_PERIOD_MS });
                        proof {
                            assert(actions@ == pre_sleep + seq![InputAction::Sleep { ms: MONITOR_PERIOD_MS }]);
                        }
                        RunStep { actions, next: RunRequest::ReadWave { rect, use_tab: true } }
                    },
                    None => {
                        if self.missed_reads < u32::MAX {
                            self.missed_reads = self.missed_reads + 1;
                        }
                        let mut actions: Vec<InputAction> = Vec::new();
                        actions.push(InputAction::KeyDown { code: KEY_ESCAPE });
                        actions.push(InputAction::Sleep { ms: 100 });
                        actions.push(InputAction::KeyUpAll);
                        actions.push(InputAction::Sleep { ms: 300 });
                        actions.push(InputAction::KeyClick { key: ' ' });
                        actions.push(InputAction::Sleep { ms: 500 });
                        actions.push(InputAction::KeyDown { code: KEY_ESCAPE });
                        actions.push(InputAction::Sleep { ms: 100 });
                        actions.push(InputAction::KeyUpAll);
                        if self.missed_reads >= MAX_MISSED_READS {
                            self.phase = RunPhase::Finished;
                            RunStep { actions, next: RunRequest::Finished }
                        } else {
                            actions.push(InputAction::Sleep { ms: MONITOR_PERIOD_MS });
                            RunStep { actions, next: RunRequest::ReadWave { rect, use_tab: true } }
                        }
                    },
                }
            },
        }
    }
}

} // verus!
