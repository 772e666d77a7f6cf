use bevy_app::app::{App, SubApp};
use bevy_app::labels::{CoreStage, APP_EXIT_EVENTS, CLEAR_TRACKERS_SYSTEM, RENDER_APP};
use bevy_app::schedule::Stage;
use bevy_app::stage::{plan_systems, ScheduleError};
use bevy_app::system::{AccessSet, Effect, SystemDesc, SystemKind, SystemSet};
use bevy_app::world::{Resource, ResourceModel, World};

const COUNTER: u64 = 100;

fn increment_system(id: u64) -> SystemDesc {
    SystemDesc {
        id,
        kind: SystemKind::Parallel(AccessSet { reads: Vec::new(), writes: vec![COUNTER] }),
        after: Vec::new(),
        before: Vec::new(),
        run_if_state: None,
        effect: Effect::AddInt { resource: COUNTER, delta: 1 },
    }
}

#[test]
fn n_incrementing_systems_count_exactly_n() {
    // The systems all write one counter, so they conflict pairwise and
    // may never run concurrently: every run counts each exactly once.
    let n: u64 = 5;
    let mut app = App::new();
    app.insert_resource(COUNTER, Resource::Int(0));
    for id in 0..n {
        app.add_system(increment_system(1000 + id));
    }
    assert!(app.update().is_ok());
    assert_eq!(app.world.int_value(COUNTER), Some(n as i64));
    assert!(app.update().is_ok());
    assert_eq!(app.world.int_value(COUNTER), Some(2 * n as i64));
}

#[test]
fn conflicting_systems_land_in_separate_waves() {
    let systems = vec![increment_system(1), increment_system(2), increment_system(3)];
    let runnable = vec![true, true, true];
    let plan = plan_systems(&systems, &runnable).unwrap();
    assert_eq!(plan.len(), 3);
    for wave in &plan {
        assert_eq!(wave.len(), 1);
    }
}

#[test]
fn disjoint_systems_share_a_wave() {
    let a = SystemDesc {
        id: 1,
        kind: SystemKind::Parallel(AccessSet { reads: Vec::new(), writes: vec![100] }),
        after: Vec::new(),
        before: Vec::new(),
        run_if_state: None,
        effect: Effect::AddInt { resource: 100, delta: 1 },
    };
    let b = SystemDesc {
        id: 2,
        kind: SystemKind::Parallel(AccessSet { reads: Vec::new(), writes: vec![101] }),
        after: Vec::new(),
        before: Vec::new(),
        run_if_state: None,
        effect: Effect::AddInt { resource: 101, delta: 1 },
    };
    let systems = vec![a, b];
    let runnable = vec![true, true];
    let plan = plan_systems(&systems, &runnable).unwrap();
    assert_eq!(plan.len(), 1);
    assert_eq!(plan[0], vec![0, 1]);
}

#[test]
fn explicit_order_splits_disjoint_systems_across_waves() {
    let mut first = SystemDesc {
        id: 1,
        kind: SystemKind::Parallel(AccessSet { reads: Vec::new(), writes: vec![100] }),
        after: Vec::new(),
        before: Vec::new(),
        run_if_state: None,
        effect: Effect::Noop,
    };
    first.before.push(2);
    let second = SystemDesc {
        id: 2,
        kind: SystemKind::Parallel(AccessSet { reads: Vec::new(), writes: vec![101] }),
        after: Vec::new(),
        before: Vec::new(),
        run_if_state: None,
        effect: Effect::Noop,
    };
    let systems = vec![second, first];
    let runnable = vec![true, true];
    let plan = plan_systems(&systems, &runnable).unwrap();
    // Index 1 (`first`) must land in an earlier wave than index 0.
    assert_eq!(plan, vec![vec![1], vec![0]]);
}

#[test]
fn an_ordering_cycle_is_a_fatal_configuration_error_naming_the_systems() {
    let mut a = increment_system(1);
    a.after.push(2);
    let mut b = increment_system(2);
    b.after.push(1);
    let systems = vec![a, b];
    let runnable = vec![true, true];
    match plan_systems(&systems, &runnable) {
        Err(ScheduleError::DependencyCycle(ids)) => assert_eq!(ids, vec![1, 2]),
        other => panic!("expected a dependency cycle, got {:?}", other),
    }
}

#[test]
fn startup_systems_run_exactly_once_over_five_updates() {
    let mut app = App::new();
    app.insert_resource(COUNTER, Resource::Int(0));
    app.add_startup_system(increment_system(1));
    for _ in 0..5 {
        assert!(app.update().is_ok());
    }
    assert_eq!(app.world.int_value(COUNTER), Some(1));
}

#[test]
fn exclusive_system_runs_alone() {
    let exclusive = SystemDesc {
        id: 9,
        kind: SystemKind::Exclusive,
        after: Vec::new(),
        before: Vec::new(),
        run_if_state: None,
        effect: Effect::AddInt { resource: COUNTER, delta: 10 },
    };
    let systems = vec![increment_system(1), exclusive, increment_system(2)];
    let runnable = vec![true, true, true];
    let plan = plan_systems(&systems, &runnable).unwrap();
    for wave in &plan {
        if wave.contains(&1) {
            assert_eq!(wave.len(), 1);
        }
    }
}

#[test]
fn system_set_members_inherit_the_set_scope() {
    const STATE: u64 = 300;
    const ON: u64 = 1;
    const OFF: u64 = 2;
    let mut app = App::new();
    app.insert_resource(COUNTER, Resource::Int(0));
    app.add_state(STATE, OFF);
    let set = SystemSet::new().with_system(increment_system(1)).with_state_scope(STATE, ON);
    app.add_system_set(set);
    // Scoped off: the member must not run.
    assert!(app.update().is_ok());
    assert_eq!(app.world.int_value(COUNTER), Some(0));
    // Flip the state: now it runs each tick.
    app.world.set_state(STATE, ON);
    assert!(app.update().is_ok());
    assert_eq!(app.world.int_value(COUNTER), Some(1));
}

#[test]
fn get_sub_app_on_missing_label_returns_the_label() {
    let app = App::new();
    match app.get_sub_app(RENDER_APP) {
        Err(label) => assert_eq!(label, RENDER_APP),
        Ok(_) => panic!("no sub-app was registered"),
    }
}

#[test]
fn sub_apps_update_with_their_own_worlds() {
    let mut app = App::new();
    let mut sub = SubApp::empty();
    sub.world.insert_resource(COUNTER, Resource::Int(0));
    let mut sub_schedule = bevy_app::schedule::Schedule::new();
    assert!(
        sub_schedule
            .try_add_stage(
                CoreStage::Update.label(),
                bevy_app::schedule::Stage::Parallel(bevy_app::stage::SystemStage::parallel())
            )
            .is_ok()
    );
    assert!(
        sub_schedule.add_system_to_stage(CoreStage::Update.label(), increment_system(1)).is_ok()
    );
    sub.schedule = sub_schedule;
    app.add_sub_app(RENDER_APP, sub);
    assert!(app.update().is_ok());
    assert!(app.update().is_ok());
    let sub = app.sub_app(RENDER_APP);
    assert_eq!(sub.world.int_value(COUNTER), Some(2));
    // The main world never saw the sub-app's counter.
    assert_eq!(app.world.int_value(COUNTER), None);
}

#[test]
fn events_rotate_once_per_app_tick() {
    const EVENTS: u64 = 400;
    let mut app = App::new();
    app.add_event(EVENTS);
    app.world.send_event(EVENTS, 7);
    match app.world.get_resource(EVENTS) {
        Some(Resource::Events(e)) => assert_eq!(e.len(), 1),
        _ => panic!("event queue missing"),
    }
    // One tick: still retained (previous generation).
    assert!(app.update().is_ok());
    match app.world.get_resource(EVENTS) {
        Some(Resource::Events(e)) => assert_eq!(e.len(), 1),
        _ => panic!("event queue missing"),
    }
    // Second tick: dropped.
    assert!(app.update().is_ok());
    match app.world.get_resource(EVENTS) {
        Some(Resource::Events(e)) => assert_eq!(e.len(), 0),
        _ => panic!("event queue missing"),
    }
}

#[test]
fn world_resources_insert_and_init() {
    let mut w = World::new();
    w.insert_resource(1, Resource::Int(5));
    assert_eq!(w.int_value(1), Some(5));
    w.init_resource(1, Resource::Int(9));
    assert_eq!(w.int_value(1), Some(5));
    w.insert_resource(1, Resource::Int(9));
    assert_eq!(w.int_value(1), Some(9));
    assert!(!w.contains_resource(2));
    match w.get_resource(1) {
        Some(Resource::Int(v)) => assert_eq!(*v, 9),
        _ => panic!("integer resource missing"),
    }
    let _ = ResourceModel::Int(0);
}

#[test]
fn registering_a_sub_app_under_a_taken_label_replaces_it() {
    let mut app = App::new();
    let mut first = SubApp::empty();
    first.world.insert_resource(COUNTER, Resource::Int(1));
    let mut second = SubApp::empty();
    second.world.insert_resource(COUNTER, Resource::Int(2));
    app.add_sub_app(RENDER_APP, first);
    app.add_sub_app(RENDER_APP, second);
    assert_eq!(app.sub_apps.len(), 1);
    assert_eq!(app.sub_app(RENDER_APP).world.int_value(COUNTER), Some(2));
}

#[test]
fn set_level_edges_apply_to_every_member() {
    let anchor = SystemDesc {
        id: 50,
        kind: SystemKind::Parallel(AccessSet { reads: Vec::new(), writes: vec![900] }),
        after: Vec::new(),
        before: Vec::new(),
        run_if_state: None,
        effect: Effect::Noop,
    };
    let member = SystemDesc {
        id: 51,
        kind: SystemKind::Parallel(AccessSet { reads: Vec::new(), writes: vec![901] }),
        after: Vec::new(),
        before: Vec::new(),
        run_if_state: None,
        effect: Effect::Noop,
    };
    let mut stage = bevy_app::stage::SystemStage::parallel();
    stage.add_system(anchor);
    // Without the set edge the two disjoint systems would share a wave.
    let set = SystemSet::new().with_system(member).with_after(50);
    stage.add_system_set(set);
    assert_eq!(stage.systems[1].after, vec![50]);
    let runnable = vec![true, true];
    let waves = plan_systems(&stage.systems, &runnable).unwrap();
    assert_eq!(waves, vec![vec![0], vec![1]]);
}

#[test]
fn a_new_app_wires_the_exit_queue_and_the_tracking_reset() {
    let app = App::new();
    match app.world.get_resource(APP_EXIT_EVENTS) {
        Some(Resource::Events(e)) => assert_eq!(e.len(), 0),
        _ => panic!("exit-signal queue missing"),
    }
    match &app.schedule.stages[0].1 {
        Stage::Parallel(st) => {
            assert_eq!(st.systems.len(), 1);
            assert_eq!(st.systems[0].id, APP_EXIT_EVENTS);
            assert!(matches!(
                st.systems[0].effect,
                Effect::RotateEvents { resource: APP_EXIT_EVENTS }
            ));
        }
        _ => panic!("first stage has the wrong kind"),
    }
    match &app.schedule.stages[5].1 {
        Stage::Parallel(st) => {
            assert_eq!(st.systems.len(), 1);
            assert_eq!(st.systems[0].id, CLEAR_TRACKERS_SYSTEM);
            assert!(matches!(st.systems[0].kind, SystemKind::Exclusive));
        }
        _ => panic!("last stage has the wrong kind"),
    }
}
