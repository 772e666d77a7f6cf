use bevy_app::app::App;
use bevy_app::labels::{CoreStage, StartupStage, STARTUP_SCHEDULE};
use bevy_app::schedule::{Schedule, Stage};
use bevy_app::stage::{ScheduleError, SystemStage};
use bevy_app::system::{AccessSet, Effect, SystemDesc, SystemKind};

const A: u64 = 101;
const B: u64 = 102;
const C: u64 = 103;

fn labels(s: &Schedule) -> Vec<u64> {
    let mut out = Vec::new();
    let mut i = 0;
    while i < s.stages.len() {
        out.push(s.stages[i].0);
        i += 1;
    }
    out
}

#[test]
fn add_stage_appends_in_call_order() {
    let mut s = Schedule::new();
    assert_eq!(s.try_add_stage(A, Stage::Parallel(SystemStage::parallel())), Ok(()));
    assert_eq!(s.try_add_stage(B, Stage::Parallel(SystemStage::parallel())), Ok(()));
    assert_eq!(s.try_add_stage(C, Stage::Parallel(SystemStage::parallel())), Ok(()));
    assert_eq!(labels(&s), vec![A, B, C]);
}

#[test]
fn before_and_after_anchors_give_exactly_the_implied_order() {
    // Build A, then C after A, then B before C: the order must be A, B, C.
    let mut s = Schedule::new();
    assert_eq!(s.try_add_stage(A, Stage::Parallel(SystemStage::parallel())), Ok(()));
    assert_eq!(s.try_add_stage_after(A, C, Stage::Parallel(SystemStage::parallel())), Ok(()));
    assert_eq!(s.try_add_stage_before(C, B, Stage::Parallel(SystemStage::parallel())), Ok(()));
    assert_eq!(labels(&s), vec![A, B, C]);
}

#[test]
fn after_inserts_immediately_after_the_anchor() {
    let mut s = Schedule::new();
    assert_eq!(s.try_add_stage(A, Stage::Parallel(SystemStage::parallel())), Ok(()));
    assert_eq!(s.try_add_stage(C, Stage::Parallel(SystemStage::parallel())), Ok(()));
    assert_eq!(s.try_add_stage_after(A, B, Stage::Parallel(SystemStage::parallel())), Ok(()));
    assert_eq!(labels(&s), vec![A, B, C]);
}

#[test]
fn absent_anchor_reports_stage_not_found() {
    let mut s = Schedule::new();
    assert_eq!(s.try_add_stage(A, Stage::Parallel(SystemStage::parallel())), Ok(()));
    assert_eq!(
        s.try_add_stage_after(B, C, Stage::Parallel(SystemStage::parallel())),
        Err(ScheduleError::StageNotFound(B))
    );
    assert_eq!(
        s.try_add_stage_before(B, C, Stage::Parallel(SystemStage::parallel())),
        Err(ScheduleError::StageNotFound(B))
    );
    assert_eq!(labels(&s), vec![A]);
}

#[test]
fn duplicate_stage_label_is_refused() {
    let mut s = Schedule::new();
    assert_eq!(s.try_add_stage(A, Stage::Parallel(SystemStage::parallel())), Ok(()));
    assert_eq!(
        s.try_add_stage(A, Stage::Parallel(SystemStage::parallel())),
        Err(ScheduleError::DuplicateStageLabel(A))
    );
}

#[test]
fn default_stages_stand_in_their_fixed_order() {
    let app = App::new();
    assert_eq!(
        labels(&app.schedule),
        vec![
            CoreStage::First.label(),
            STARTUP_SCHEDULE,
            CoreStage::PreUpdate.label(),
            CoreStage::Update.label(),
            CoreStage::PostUpdate.label(),
            CoreStage::Last.label(),
        ]
    );
    match &app.schedule.stages[1].1 {
        Stage::Startup(ss) => {
            assert!(!ss.ran);
            let inner: Vec<u64> = ss.stages.iter().map(|p| p.0).collect();
            assert_eq!(
                inner,
                vec![
                    StartupStage::PreStartup.label(),
                    StartupStage::Startup.label(),
                    StartupStage::PostStartup.label(),
                ]
            );
        }
        Stage::Parallel(_) => panic!("startup schedule missing"),
    }
}

#[test]
fn user_stage_lands_between_anchors_on_an_app() {
    let mut app = App::new();
    app.add_stage_after(CoreStage::Update.label(), A, Stage::Parallel(SystemStage::parallel()));
    app.add_stage_before(A, B, Stage::Parallel(SystemStage::parallel()));
    assert_eq!(
        labels(&app.schedule),
        vec![
            CoreStage::First.label(),
            STARTUP_SCHEDULE,
            CoreStage::PreUpdate.label(),
            CoreStage::Update.label(),
            B,
            A,
            CoreStage::PostUpdate.label(),
            CoreStage::Last.label(),
        ]
    );
}

#[test]
fn adding_a_system_to_the_startup_schedule_label_is_the_wrong_kind() {
    let mut app = App::new();
    let sys = SystemDesc {
        id: 1,
        kind: SystemKind::Parallel(AccessSet { reads: Vec::new(), writes: Vec::new() }),
        after: Vec::new(),
        before: Vec::new(),
        run_if_state: None,
        effect: Effect::Noop,
    };
    assert_eq!(
        app.schedule.add_system_to_stage(STARTUP_SCHEDULE, sys),
        Err(ScheduleError::WrongStageKind(STARTUP_SCHEDULE))
    );
}

#[test]
fn get_stage_mut_edits_the_stage_in_place() {
    let mut s = Schedule::new();
    assert_eq!(s.try_add_stage(A, Stage::Parallel(SystemStage::parallel())), Ok(()));
    match s.get_stage_mut(A) {
        Ok(Stage::Parallel(st)) => st.add_system(SystemDesc {
            id: 1,
            kind: SystemKind::Parallel(AccessSet { reads: Vec::new(), writes: Vec::new() }),
            after: Vec::new(),
            before: Vec::new(),
            run_if_state: None,
            effect: Effect::Noop,
        }),
        _ => panic!("stage missing or of the wrong kind"),
    }
    match &s.stages[0].1 {
        Stage::Parallel(st) => assert_eq!(st.systems.len(), 1),
        _ => panic!("stage kind changed"),
    }
    match s.get_stage_mut(B) {
        Err(e) => assert_eq!(e, ScheduleError::StageNotFound(B)),
        Ok(_) => panic!("no stage carries this label"),
    }
}
