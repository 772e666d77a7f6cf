//! The app: one world, one schedule, and a set of labeled sub-apps.
//!
//! Advancing the app by one tick runs the main schedule against the main
//! world, then each sub-app's schedule against that sub-app's own world.
//! The default runner advances the app once; looping runners belong to
//! the surrounding program.

use crate::events::Events;
use crate::labels::{
    CoreStage, StartupStage, APP_EXIT_EVENTS, CLEAR_TRACKERS_SYSTEM, STARTUP_SCHEDULE,
};
use crate::schedule::{
    edge_free, expected_runs, has_label, label_index, labels_of, lemma_same_except_ran_reflexive,
    same_except_ran, startup_all_ran, trace_valid, trace_view, trace_world, unique_labels,
    Schedule, Stage, StageRun, StartupSchedule,
};
use crate::schedule::{find_label, lemma_label_index_agrees};
use crate::stage::{ScheduleError, SystemStage};
use crate::state::State;
use crate::system::{AccessSet, Effect, SystemDesc, SystemKind, SystemSet};
use crate::world::{Resource, World};
use vstd::prelude::*;

verus! {

/// An event that indicates the app should exit: a runner that sees it in
/// the exit-signal queue ends the process's update loop.
#[derive(Debug, Clone, Copy, Default, PartialEq, Eq, Structural)]
pub struct AppExit;

/// A nested world/schedule pair, driven once per parent tick.
pub struct SubApp {
    /// The sub-app's own world.
    pub world: World,
    /// The sub-app's own schedule.
    pub schedule: Schedule,
}

impl SubApp {
    /// The sub-app's world and schedule are well-formed.
    pub open spec fn wf(self) -> bool {
        self.world.wf() && self.schedule.wf()
    }

    /// A sub-app with an empty world and an empty schedule.
    pub fn empty() -> (r: SubApp)
        ensures
            r.wf(),
            r.world@ == Map::<u64, crate::world::ResourceModel>::empty(),
            r.schedule.stages@ == Seq::<(u64, Stage)>::empty(),
    {
        SubApp { world: World::new(), schedule: Schedule::new() }
    }
}

/// What one sub-app run owes: the schedule keeps its stages (startup
/// schedules now spent), and the trace reports exactly the owed stage
/// runs, each correctly planned, with the world ending as they dictate.
pub open spec fn sub_run_ok(old_sub: SubApp, new_sub: SubApp, tr: Seq<StageRun>) -> bool {
    &&& same_except_ran(old_sub.schedule.stages@, new_sub.schedule.stages@)
    &&& startup_all_ran(new_sub.schedule.stages@)
    &&& trace_view(tr) == expected_runs(old_sub.schedule.stages@)
    &&& trace_valid(old_sub.world@, tr)
    &&& new_sub.world@ == trace_world(old_sub.world@, tr)
}

/// The trace of one tick: the main schedule's stage runs, then each
/// sub-app's, in registration order.
pub struct AppTrace {
    /// Stage runs of the main schedule.
    pub main: Vec<StageRun>,
    /// Per sub-app: its label and its stage runs.
    pub sub_runs: Vec<(u64, Vec<StageRun>)>,
}

/// A container of app logic and data: a world, a schedule and labeled
/// sub-apps, configured with the builder methods and advanced with
/// [`App::update`].
pub struct App {
    /// The main world.
    pub world: World,
    /// The main schedule.
    pub schedule: Schedule,
    /// The labeled sub-apps, in registration order.
    pub sub_apps: Vec<(u64, SubApp)>,
}

impl App {
    /// The world, the schedule and every sub-app are well-formed, and
    /// sub-app labels are unique.
    pub open spec fn wf(self) -> bool {
        &&& self.world.wf()
        &&& self.schedule.wf()
        &&& unique_labels(self.sub_apps@)
        &&& forall|k: int|
            0 <= k < self.sub_apps@.len() ==> (#[trigger] self.sub_apps@[k]).1.wf()
    }

    /// The registered sub-apps, in registration order.
    pub open spec fn sub_apps(self) -> Seq<(u64, SubApp)> {
        self.sub_apps@
    }

    /// A minimal app: empty world, empty schedule, no sub-apps.
    pub fn empty() -> (r: App)
        ensures
            r.wf(),
            r.world@ == Map::<u64, crate::world::ResourceModel>::empty(),
            r.schedule.stages@ == Seq::<(u64, Stage)>::empty(),
            r.sub_apps() == Seq::<(u64, SubApp)>::empty(),
    {
        App { world: World::new(), schedule: Schedule::new(), sub_apps: Vec::new() }
    }

    /// Advances the app by one tick: runs the main schedule once, then
    /// each sub-app's schedule, in registration order. Fails only on a
    /// dependency cycle, a fatal configuration error.
    ///
    /// Each sub-app runs against its own world. Data flows from the main
    /// world into a sub-app's world as plain snapshots, taken between
    /// ticks by the surrounding program; the extract stage of the render
    /// pipeline works on such snapshots.
    #[verifier::loop_isolation(false)]
    #[verifier::rlimit(60)]
    pub fn update(&mut self) -> (r: Result<AppTrace, ScheduleError>)
        requires
            old(self).wf(),
        ensures
            final(self).wf(),
            same_except_ran(old(self).schedule.stages@, final(self).schedule.stages@),
            final(self).sub_apps().len() == old(self).sub_apps().len(),
            forall|k: int|
                0 <= k < old(self).sub_apps().len() ==> (#[trigger] final(self).sub_apps()[k]).0
                    == (old(self).sub_apps()[k]).0 && same_except_ran(
                    (old(self).sub_apps()[k]).1.schedule.stages@,
                    (final(self).sub_apps()[k]).1.schedule.stages@,
                ),
            match r {
                Ok(tr) => {
                    &&& startup_all_ran(final(self).schedule.stages@)
                    &&& trace_view(tr.main@) == expected_runs(old(self).schedule.stages@)
                    &&& trace_valid(old(self).world@, tr.main@)
                    &&& final(self).world@ == trace_world(old(self).world@, tr.main@)
                    &&& tr.sub_runs@.len() == old(self).sub_apps().len()
                    &&& forall|k: int|
                        0 <= k < old(self).sub_apps().len() ==> {
                            &&& tr.sub_runs@[k].0 == old(self).sub_apps()[k].0
                            &&& sub_run_ok(
                                old(self).sub_apps()[k].1,
                                final(self).sub_apps()[k].1,
                                tr.sub_runs@[k].1@,
                            )
                        }
                },
                Err(e) => e is DependencyCycle && !(edge_free(old(self).schedule.stages@) && (
                forall|k: int|
                    0 <= k < old(self).sub_apps().len() ==> edge_free(
                        (#[trigger] old(self).sub_apps()[k]).1.schedule.stages@,
                    ))),
            },
    {
        let main = match self.schedule.run(&mut self.world) {
            Ok(tr) => tr,
            Err(e) => {
                proof {
                    assert forall|k: int|
                        0 <= k < old(self).sub_apps().len() implies (
                    #[trigger] self.sub_apps@[k]).0 == (old(self).sub_apps()[k]).0
                        && same_except_ran(
                        (old(self).sub_apps()[k]).1.schedule.stages@,
                        (self.sub_apps@[k]).1.schedule.stages@,
                    ) by {
                        lemma_same_except_ran_reflexive(
                            (old(self).sub_apps()[k]).1.schedule.stages@,
                        );
                    }
                }
                return Err(e);
            },
        };
        let mut sub_runs: Vec<(u64, Vec<StageRun>)> = Vec::new();
        let ghost subs0 = self.sub_apps@;
        let ghost w1 = self.world;
        let ghost sch1 = self.schedule;
        let mut k: usize = 0;
        while k < self.sub_apps.len()
            invariant
                k <= subs0.len(),
                self.sub_apps@.len() == subs0.len(),
                sub_runs@.len() == k,
                self.world == w1,
                self.schedule == sch1,
                unique_labels(self.sub_apps@),
                forall|t: int| 0 <= t < subs0.len() ==> (#[trigger] self.sub_apps@[t]).1.wf(),
                forall|t: int| k <= t < subs0.len() ==> self.sub_apps@[t] == subs0[t],
                forall|t: int|
                    0 <= t < k ==> (#[trigger] self.sub_apps@[t]).0 == subs0[t].0
                        && sub_runs@[t].0 == subs0[t].0 && sub_run_ok(
                        subs0[t].1,
                        self.sub_apps@[t].1,
                        sub_runs@[t].1@,
                    ),
            decreases subs0.len() - k,
        {
            let ghost subs_pre = self.sub_apps@;
            let label = self.sub_apps[k].0;
            let sa = &mut self.sub_apps[k].1;
            match Schedule::run(&mut sa.schedule, &mut sa.world) {
                Ok(tr) => {
                    sub_runs.push((label, tr));
                },
                Err(e) => {
                    proof {
                        assert(subs_pre[k as int] == subs0[k as int]);
                        assert(subs0 == old(self).sub_apps@);
                        assert(!edge_free(subs0[k as int].1.schedule.stages@));
                        if forall|t: int|
                            0 <= t < old(self).sub_apps().len() ==> edge_free(
                                (#[trigger] old(self).sub_apps()[t]).1.schedule.stages@,
                            ) {
                            assert(edge_free(
                                (old(self).sub_apps()[k as int]).1.schedule.stages@,
                            ));
                            assert(false);
                        }
                        assert(self.sub_apps@ =~= subs_pre.update(
                            k as int,
                            self.sub_apps@[k as int],
                        ));
                        assert((self.sub_apps@[k as int]).1.wf());
                        assert forall|a: int, b: int|
                            0 <= a < b < self.sub_apps@.len() implies self.sub_apps@[a].0
                            != self.sub_apps@[b].0 by {
                            assert(subs_pre[a].0 != subs_pre[b].0);
                        }
                        assert forall|t: int|
                            0 <= t < old(self).sub_apps().len() implies (
                        #[trigger] self.sub_apps@[t]).0 == (old(self).sub_apps()[t]).0
                            && same_except_ran(
                            (old(self).sub_apps()[t]).1.schedule.stages@,
                            (self.sub_apps@[t]).1.schedule.stages@,
                        ) by {
                            if t > k {
                                lemma_same_except_ran_reflexive(
                                    (old(self).sub_apps()[t]).1.schedule.stages@,
                                );
                            }
                        }
                    }
                    return Err(e);
                },
            }
            proof {
                assert(self.sub_apps@ =~= subs_pre.update(k as int, self.sub_apps@[k as int]));
                assert((self.sub_apps@[k as int]).0 == subs0[k as int].0);
                assert((self.sub_apps@[k as int]).1.wf());
                assert(sub_run_ok(
                    subs0[k as int].1,
                    self.sub_apps@[k as int].1,
                    sub_runs@[k as int].1@,
                ));
                assert forall|a: int, b: int|
                    0 <= a < b < self.sub_apps@.len() implies self.sub_apps@[a].0
                    != self.sub_apps@[b].0 by {
                    assert(subs_pre[a].0 != subs_pre[b].0);
                }
            }
            k = k + 1;
        }
        proof {
            assert forall|t: int|
                0 <= t < old(self).sub_apps().len() implies (#[trigger] self.sub_apps@[t]).0 == (
            old(self).sub_apps()[t]).0 && same_except_ran(
                (old(self).sub_apps()[t]).1.schedule.stages@,
                (self.sub_apps@[t]).1.schedule.stages@,
            ) by {
                assert(sub_run_ok(subs0[t].1, self.sub_apps@[t].1, sub_runs@[t].1@));
            }
            assert forall|t: int|
                0 <= t < old(self).sub_apps().len() implies #[trigger] sub_runs@[t].0 == (old(
                self,
            ).sub_apps()[t]).0 by {
                assert((self.sub_apps@[t]).0 == subs0[t].0);
            }
        }
        Ok(AppTrace { main, sub_runs })
    }

    /// Starts the app: consumes its configuration and hands it to the
    /// default runner, which advances the app exactly once. Looping
    /// runners live in the surrounding program and call
    /// [`App::update`] themselves.
    pub fn run(self) -> (r: Result<AppTrace, ScheduleError>)
        requires
            self.wf(),
        ensures
            match r {
                Ok(tr) => {
                    &&& trace_view(tr.main@) == expected_runs(self.schedule.stages@)
                    &&& trace_valid(self.world@, tr.main@)
                    &&& tr.sub_runs@.len() == self.sub_apps().len()
                },
                Err(e) => e is DependencyCycle && !(edge_free(self.schedule.stages@) && (forall|
                    k: int,
                |
                    0 <= k < self.sub_apps().len() ==> edge_free(
                        (#[trigger] self.sub_apps()[k]).1.schedule.stages@,
                    ))),
            },
    {
        let mut app = self;
        app.update()
    }

    /// Registers a sub-app under `label`, replacing any sub-app
    /// previously registered under the same label.
    pub fn add_sub_app(&mut self, label: u64, sub: SubApp)
        requires
            old(self).wf(),
            sub.wf(),
        ensures
            final(self).wf(),
            final(self).world == old(self).world,
            final(self).schedule == old(self).schedule,
            has_label(old(self).sub_apps(), label) ==> final(self).sub_apps() == old(
                self,
            ).sub_apps().update(label_index(old(self).sub_apps(), label), (label, sub)),
            !has_label(old(self).sub_apps(), label) ==> final(self).sub_apps() == old(
                self,
            ).sub_apps().push((label, sub)),
    {
        match find_label(&self.sub_apps, label) {
            Some(i) => {
                proof {
                    lemma_label_index_agrees(self.sub_apps@, label, i as int);
                }
                self.sub_apps[i] = (label, sub);
                proof {
                    assert forall|a: int, b: int|
                        0 <= a < b < self.sub_apps@.len() implies self.sub_apps@[a].0
                        != self.sub_apps@[b].0 by {
                        assert(old(self).sub_apps@[a].0 != old(self).sub_apps@[b].0);
                    }
                }
            },
            None => {
                self.sub_apps.push((label, sub));
                proof {
                    assert forall|a: int, b: int|
                        0 <= a < b < self.sub_apps@.len() implies self.sub_apps@[a].0
                        != self.sub_apps@[b].0 by {
                        if b == self.sub_apps@.len() - 1 {
                            assert(self.sub_apps@[a] == old(self).sub_apps@[a]);
                        }
                    }
                }
            },
        }
    }

    /// Looks up a sub-app; the not-found result carries the label back.
    pub fn get_sub_app(&self, label: u64) -> (r: Result<&SubApp, u64>)
        requires
            self.wf(),
        ensures
            match r {
                Ok(sa) => has_label(self.sub_apps(), label) && *sa == self.sub_apps()[label_index(
                    self.sub_apps(),
                    label,
                )].1,
                Err(l) => l == label && !has_label(self.sub_apps(), label),
            },
    {
        match find_label(&self.sub_apps, label) {
            Some(i) => {
                proof {
                    lemma_label_index_agrees(self.sub_apps@, label, i as int);
                }
                Ok(&self.sub_apps[i].1)
            },
            None => Err(label),
        }
    }

    /// Looks up a sub-app mutably; the not-found result carries the
    /// label back.
    pub fn get_sub_app_mut(&mut self, label: u64) -> (r: Result<&mut SubApp, u64>)
        requires
            old(self).wf(),
        ensures
            match r {
                Ok(sa) => {
                    let idx = label_index(old(self).sub_apps(), label);
                    &&& has_label(old(self).sub_apps(), label)
                    &&& *sa == old(self).sub_apps()[idx].1
                    &&& final(self).world == old(self).world
                    &&& final(self).schedule == old(self).schedule
                    &&& final(self).sub_apps() == old(self).sub_apps().update(
                        idx,
                        (label, *final(sa)),
                    )
                },
                Err(l) => l == label && !has_label(old(self).sub_apps(), label) && *final(self)
                    == *old(self),
            },
    {
        match find_label(&self.sub_apps, label) {
            Some(i) => {
                proof {
                    lemma_label_index_agrees(self.sub_apps@, label, i as int);
                }
                Ok(&mut self.sub_apps[i].1)
            },
            None => Err(label),
        }
    }

    /// The sub-app under `label`, which must exist: the non-panicking
    /// lookup is [`App::get_sub_app`].
    pub fn sub_app(&self, label: u64) -> (r: &SubApp)
        requires
            self.wf(),
            has_label(self.sub_apps(), label),
        ensures
            *r == self.sub_apps()[label_index(self.sub_apps(), label)].1,
    {
        match self.get_sub_app(label) {
            Ok(sa) => sa,
            Err(_) => unreached(),
        }
    }

    /// The sub-app under `label`, mutably; it must exist: the
    /// non-panicking lookup is [`App::get_sub_app_mut`].
    pub fn sub_app_mut(&mut self, label: u64) -> (r: &mut SubApp)
        requires
            old(self).wf(),
            has_label(old(self).sub_apps(), label),
        ensures
            *r == old(self).sub_apps()[label_index(old(self).sub_apps(), label)].1,
            final(self).world == old(self).world,
            final(self).schedule == old(self).schedule,
            final(self).sub_apps() == old(self).sub_apps().update(
                label_index(old(self).sub_apps(), label),
                (label, *final(r)),
            ),
    {
        match self.get_sub_app_mut(label) {
            Ok(sa) => sa,
            Err(_) => unreached(),
        }
    }

    /// Inserts a resource, overwriting any resource previously added
    /// under the same key.
    pub fn insert_resource(&mut self, id: u64, resource: Resource)
        requires
            old(self).wf(),
            crate::world::resource_wf(resource@),
        ensures
            final(self).wf(),
            final(self).world@ == old(self).world@.insert(id, resource@),
            final(self).schedule == old(self).schedule,
            final(self).sub_apps() == old(self).sub_apps(),
    {
        self.world.insert_resource(id, resource);
    }

    /// Registers a resource under `id` only if none is there yet.
    pub fn init_resource(&mut self, id: u64, resource: Resource)
        requires
            old(self).wf(),
            crate::world::resource_wf(resource@),
        ensures
            final(self).wf(),
            old(self).world@.dom().contains(id) ==> final(self).world@ == old(self).world@,
            !old(self).world@.dom().contains(id) ==> final(self).world@ == old(
                self,
            ).world@.insert(id, resource@),
            final(self).schedule == old(self).schedule,
            final(self).sub_apps() == old(self).sub_apps(),
    {
        self.world.init_resource(id, resource);
    }
}

impl App {
    /// Appends a stage with the given label to the last position of the
    /// schedule. The label must be fresh; the non-panicking form is
    /// [`Schedule::try_add_stage`].
    pub fn add_stage(&mut self, label: u64, stage: Stage)
        requires
            old(self).wf(),
            crate::schedule::stage_wf(stage),
            !has_label(old(self).schedule.stages@, label),
        ensures
            final(self).wf(),
            final(self).schedule.stages@ == old(self).schedule.stages@.push((label, stage)),
            final(self).world == old(self).world,
            final(self).sub_apps() == old(self).sub_apps(),
    {
        match self.schedule.try_add_stage(label, stage) {
            Ok(_) => {},
            Err(_) => {
                proof {
                    assert(false);
                }
            },
        }
    }

    /// Inserts a stage immediately after the stage labeled `target`,
    /// which must exist; the non-panicking form is
    /// [`Schedule::try_add_stage_after`].
    pub fn add_stage_after(&mut self, target: u64, label: u64, stage: Stage)
        requires
            old(self).wf(),
            crate::schedule::stage_wf(stage),
            !has_label(old(self).schedule.stages@, label),
            has_label(old(self).schedule.stages@, target),
        ensures
            final(self).wf(),
            final(self).schedule.stages@ == old(self).schedule.stages@.insert(
                label_index(old(self).schedule.stages@, target) + 1,
                (label, stage),
            ),
            final(self).world == old(self).world,
            final(self).sub_apps() == old(self).sub_apps(),
    {
        match self.schedule.try_add_stage_after(target, label, stage) {
            Ok(_) => {},
            Err(_) => {
                proof {
                    assert(false);
                }
            },
        }
    }

    /// Inserts a stage immediately before the stage labeled `target`,
    /// which must exist; the non-panicking form is
    /// [`Schedule::try_add_stage_before`].
    pub fn add_stage_before(&mut self, target: u64, label: u64, stage: Stage)
        requires
            old(self).wf(),
            crate::schedule::stage_wf(stage),
            !has_label(old(self).schedule.stages@, label),
            has_label(old(self).schedule.stages@, target),
        ensures
            final(self).wf(),
            final(self).schedule.stages@ == old(self).schedule.stages@.insert(
                label_index(old(self).schedule.stages@, target),
                (label, stage),
            ),
            final(self).world == old(self).world,
            final(self).sub_apps() == old(self).sub_apps(),
    {
        match self.schedule.try_add_stage_before(target, label, stage) {
            Ok(_) => {},
            Err(_) => {
                proof {
                    assert(false);
                }
            },
        }
    }

    /// Adds utility stages, giving the schedule its standardized
    /// structure: `First`, the run-once startup schedule (with
    /// `PreStartup`, `Startup`, `PostStartup`), `PreUpdate`, `Update`,
    /// `PostUpdate` and `Last`, in that order.
    pub fn add_default_stages(&mut self)
        requires
            old(self).wf(),
            !has_label(old(self).schedule.stages@, CoreStage::First.spec_label()),
            !has_label(old(self).schedule.stages@, STARTUP_SCHEDULE),
            !has_label(old(self).schedule.stages@, CoreStage::PreUpdate.spec_label()),
            !has_label(old(self).schedule.stages@, CoreStage::Update.spec_label()),
            !has_label(old(self).schedule.stages@, CoreStage::PostUpdate.spec_label()),
            !has_label(old(self).schedule.stages@, CoreStage::Last.spec_label()),
        ensures
            final(self).wf(),
            final(self).world == old(self).world,
            final(self).sub_apps() == old(self).sub_apps(),
            ({
                let s0 = old(self).schedule.stages@;
                let s1 = final(self).schedule.stages@;
                &&& s1.len() == s0.len() + 6
                &&& forall|t: int| 0 <= t < s0.len() ==> s1[t] == s0[t]
                &&& labels_of(s1).skip(s0.len() as int) == seq![
                    CoreStage::First.spec_label(),
                    STARTUP_SCHEDULE,
                    CoreStage::PreUpdate.spec_label(),
                    CoreStage::Update.spec_label(),
                    CoreStage::PostUpdate.spec_label(),
                    CoreStage::Last.spec_label(),
                ]
                &&& forall|t: int|
                    s0.len() <= t < s1.len() && t != s0.len() + 1 ==> (#[trigger] s1[t]).1
                        is Parallel && s1[t].1->Parallel_0.systems@.len() == 0
                        && s1[t].1->Parallel_0.drivers@.len() == 0
                &&& s1[s0.len() as int + 1].1 is Startup
                &&& !(s1[s0.len() as int + 1].1)->Startup_0.ran
                &&& labels_of((s1[s0.len() as int + 1].1)->Startup_0.stages@) == seq![
                    StartupStage::PreStartup.spec_label(),
                    StartupStage::Startup.spec_label(),
                    StartupStage::PostStartup.spec_label(),
                ]
                &&& forall|t: int|
                    #![trigger (s1[s0.len() as int + 1].1)->Startup_0.stages@[t]]
                    0 <= t < 3 ==> {
                        let inner = (s1[s0.len() as int + 1].1)->Startup_0.stages@;
                        inner[t].1.systems@.len() == 0 && inner[t].1.drivers@.len() == 0
                    }
            }),
    {
        let mut startup = StartupSchedule { stages: Vec::new(), ran: false };
        startup.stages.push((StartupStage::PreStartup.label(), SystemStage::parallel()));
        startup.stages.push((StartupStage::Startup.label(), SystemStage::parallel()));
        startup.stages.push((StartupStage::PostStartup.label(), SystemStage::parallel()));
        proof {
            assert(startup.wf());
            assert(labels_of(startup.stages@) =~= seq![
                StartupStage::PreStartup.spec_label(),
                StartupStage::Startup.spec_label(),
                StartupStage::PostStartup.spec_label(),
            ]);
        }
        let ghost s0 = self.schedule.stages@;
        self.add_stage(CoreStage::First.label(), Stage::Parallel(SystemStage::parallel()));
        proof {
            crate::schedule::lemma_has_label_push(
                s0,
                self.schedule.stages@.last(),
                STARTUP_SCHEDULE,
            );
        }
        let startup_label = STARTUP_SCHEDULE;
        self.add_stage(startup_label, Stage::Startup(startup));
        proof {
            crate::schedule::lemma_has_label_push(
                s0.push(self.schedule.stages@[s0.len() as int]),
                self.schedule.stages@.last(),
                CoreStage::PreUpdate.spec_label(),
            );
            crate::schedule::lemma_has_label_push(
                s0,
                self.schedule.stages@[s0.len() as int],
                CoreStage::PreUpdate.spec_label(),
            );
        }
        self.add_stage(CoreStage::PreUpdate.label(), Stage::Parallel(SystemStage::parallel()));
        proof {
            lemma_fresh_after_pushes(s0, self.schedule.stages@, CoreStage::Update.spec_label());
        }
        self.add_stage(CoreStage::Update.label(), Stage::Parallel(SystemStage::parallel()));
        proof {
            lemma_fresh_after_pushes(
                s0,
                self.schedule.stages@,
                CoreStage::PostUpdate.spec_label(),
            );
        }
        self.add_stage(CoreStage::PostUpdate.label(), Stage::Parallel(SystemStage::parallel()));
        proof {
            lemma_fresh_after_pushes(s0, self.schedule.stages@, CoreStage::Last.spec_label());
        }
        self.add_stage(CoreStage::Last.label(), Stage::Parallel(SystemStage::parallel()));
        proof {
            let s1 = self.schedule.stages@;
            assert(labels_of(s1).skip(s0.len() as int) =~= seq![
                CoreStage::First.spec_label(),
                STARTUP_SCHEDULE,
                CoreStage::PreUpdate.spec_label(),
                CoreStage::Update.spec_label(),
                CoreStage::PostUpdate.spec_label(),
                CoreStage::Last.spec_label(),
            ]);
        }
    }
}

/// A label that none of the first entries carries and that differs from
/// every label appended after them is fresh in the whole sequence.
proof fn lemma_fresh_after_pushes(s0: Seq<(u64, Stage)>, s1: Seq<(u64, Stage)>, l: u64)
    requires
        s0.len() <= s1.len(),
        !has_label(s0, l),
        forall|t: int| 0 <= t < s0.len() ==> s1[t] == s0[t],
        forall|t: int| s0.len() <= t < s1.len() ==> (#[trigger] s1[t]).0 != l,
    ensures
        !has_label(s1, l),
{
    if has_label(s1, l) {
        let i = choose|i: int| 0 <= i < s1.len() && s1[i].0 == l;
        if i < s0.len() {
            assert(s0[i].0 == l);
        }
    }
}

impl App {
    /// Appends a system to the stage labeled `stage_label`, which must
    /// be an existing parallel stage. Systems for a startup sub-stage go
    /// through [`App::add_startup_system_to_stage`] instead.
    pub fn add_system_to_stage(&mut self, stage_label: u64, system: SystemDesc)
        requires
            old(self).wf(),
            !crate::labels::is_startup_stage_label(stage_label),
            has_label(old(self).schedule.stages@, stage_label),
            old(self).schedule.stages@[label_index(old(self).schedule.stages@, stage_label)].1
                is Parallel,
        ensures
            final(self).wf(),
            final(self).world == old(self).world,
            final(self).sub_apps() == old(self).sub_apps(),
            ({
                let idx = label_index(old(self).schedule.stages@, stage_label);
                let st0 = old(self).schedule.stages@[idx].1;
                let st1 = final(self).schedule.stages@[idx].1;
                &&& crate::schedule::updated_except(
                    old(self).schedule.stages@,
                    final(self).schedule.stages@,
                    idx,
                )
                &&& st1 is Parallel
                &&& st1->Parallel_0.systems@ == st0->Parallel_0.systems@.push(system)
                &&& st1->Parallel_0.drivers@ == st0->Parallel_0.drivers@
            }),
    {
        match self.schedule.add_system_to_stage(stage_label, system) {
            Ok(_) => {},
            Err(_) => {
                proof {
                    assert(false);
                }
            },
        }
    }

    /// Appends a system to the `Update` stage, the default stage for
    /// user logic.
    pub fn add_system(&mut self, system: SystemDesc)
        requires
            old(self).wf(),
            has_label(old(self).schedule.stages@, CoreStage::Update.spec_label()),
            old(self).schedule.stages@[label_index(
                old(self).schedule.stages@,
                CoreStage::Update.spec_label(),
            )].1 is Parallel,
        ensures
            final(self).wf(),
            final(self).world == old(self).world,
            final(self).sub_apps() == old(self).sub_apps(),
            ({
                let idx = label_index(old(self).schedule.stages@, CoreStage::Update.spec_label());
                let st0 = old(self).schedule.stages@[idx].1;
                let st1 = final(self).schedule.stages@[idx].1;
                &&& crate::schedule::updated_except(
                    old(self).schedule.stages@,
                    final(self).schedule.stages@,
                    idx,
                )
                &&& st1 is Parallel
                &&& st1->Parallel_0.systems@ == st0->Parallel_0.systems@.push(system)
                &&& st1->Parallel_0.drivers@ == st0->Parallel_0.drivers@
            }),
    {
        self.add_system_to_stage(CoreStage::Update.label(), system)
    }

    /// Appends a system set to the stage labeled `stage_label`, which
    /// must be an existing parallel stage.
    pub fn add_system_set_to_stage(&mut self, stage_label: u64, set: SystemSet)
        requires
            old(self).wf(),
            !crate::labels::is_startup_stage_label(stage_label),
            has_label(old(self).schedule.stages@, stage_label),
            old(self).schedule.stages@[label_index(old(self).schedule.stages@, stage_label)].1
                is Parallel,
        ensures
            final(self).wf(),
            final(self).world == old(self).world,
            final(self).sub_apps() == old(self).sub_apps(),
            ({
                let idx = label_index(old(self).schedule.stages@, stage_label);
                let st0 = old(self).schedule.stages@[idx].1;
                let st1 = final(self).schedule.stages@[idx].1;
                &&& crate::schedule::updated_except(
                    old(self).schedule.stages@,
                    final(self).schedule.stages@,
                    idx,
                )
                &&& st1 is Parallel
                &&& st1->Parallel_0.systems@.len() == st0->Parallel_0.systems@.len()
                    + set.systems@.len()
                &&& st1->Parallel_0.systems@.take(st0->Parallel_0.systems@.len() as int)
                    == st0->Parallel_0.systems@
                &&& crate::system::merged_members(
                    set,
                    st1->Parallel_0.systems@.skip(st0->Parallel_0.systems@.len() as int),
                )
                &&& st1->Parallel_0.drivers@ == st0->Parallel_0.drivers@
            }),
    {
        match self.schedule.add_system_set_to_stage(stage_label, set) {
            Ok(_) => {},
            Err(_) => {
                proof {
                    assert(false);
                }
            },
        }
    }

    /// Appends a system set to the `Update` stage.
    pub fn add_system_set(&mut self, set: SystemSet)
        requires
            old(self).wf(),
            has_label(old(self).schedule.stages@, CoreStage::Update.spec_label()),
            old(self).schedule.stages@[label_index(
                old(self).schedule.stages@,
                CoreStage::Update.spec_label(),
            )].1 is Parallel,
        ensures
            final(self).wf(),
            final(self).world == old(self).world,
            final(self).sub_apps() == old(self).sub_apps(),
            ({
                let idx = label_index(old(self).schedule.stages@, CoreStage::Update.spec_label());
                let st0 = old(self).schedule.stages@[idx].1;
                let st1 = final(self).schedule.stages@[idx].1;
                &&& crate::schedule::updated_except(
                    old(self).schedule.stages@,
                    final(self).schedule.stages@,
                    idx,
                )
                &&& st1 is Parallel
                &&& st1->Parallel_0.systems@.len() == st0->Parallel_0.systems@.len()
                    + set.systems@.len()
                &&& st1->Parallel_0.systems@.take(st0->Parallel_0.systems@.len() as int)
                    == st0->Parallel_0.systems@
                &&& crate::system::merged_members(
                    set,
                    st1->Parallel_0.systems@.skip(st0->Parallel_0.systems@.len() as int),
                )
                &&& st1->Parallel_0.drivers@ == st0->Parallel_0.drivers@
            }),
    {
        self.add_system_set_to_stage(CoreStage::Update.label(), set)
    }
}

impl App {
    /// Appends a sub-stage at the end of the startup schedule, which
    /// must exist; `label` must be fresh inside it.
    pub fn add_startup_stage(&mut self, label: u64, stage: SystemStage)
        requires
            old(self).wf(),
            has_label(old(self).schedule.stages@, STARTUP_SCHEDULE),
            old(self).schedule.stages@[label_index(old(self).schedule.stages@, STARTUP_SCHEDULE)].1
                is Startup,
            !has_label(
                (old(self).schedule.stages@[label_index(
                    old(self).schedule.stages@,
                    STARTUP_SCHEDULE,
                )].1)->Startup_0.stages@,
                label,
            ),
        ensures
            final(self).wf(),
            final(self).world == old(self).world,
            final(self).sub_apps() == old(self).sub_apps(),
            ({
                let idx = label_index(old(self).schedule.stages@, STARTUP_SCHEDULE);
                let ss0 = old(self).schedule.stages@[idx].1;
                let ss1 = final(self).schedule.stages@[idx].1;
                &&& crate::schedule::updated_except(
                    old(self).schedule.stages@,
                    final(self).schedule.stages@,
                    idx,
                )
                &&& ss1 is Startup
                &&& ss1->Startup_0.stages@ == ss0->Startup_0.stages@.push((label, stage))
                &&& ss1->Startup_0.ran == ss0->Startup_0.ran
            }),
    {
        match self.schedule.add_startup_stage(label, stage) {
            Ok(_) => {},
            Err(e) => {
                proof {
                    assert(false);
                }
            },
        }
    }

    /// Appends a system to the startup sub-stage labeled `stage_label`,
    /// which must exist.
    pub fn add_startup_system_to_stage(&mut self, stage_label: u64, system: SystemDesc)
        requires
            old(self).wf(),
            has_label(old(self).schedule.stages@, STARTUP_SCHEDULE),
            old(self).schedule.stages@[label_index(old(self).schedule.stages@, STARTUP_SCHEDULE)].1
                is Startup,
            has_label(
                (old(self).schedule.stages@[label_index(
                    old(self).schedule.stages@,
                    STARTUP_SCHEDULE,
                )].1)->Startup_0.stages@,
                stage_label,
            ),
        ensures
            final(self).wf(),
            final(self).world == old(self).world,
            final(self).sub_apps() == old(self).sub_apps(),
            ({
                let idx = label_index(old(self).schedule.stages@, STARTUP_SCHEDULE);
                let ss0 = old(self).schedule.stages@[idx].1;
                let ss1 = final(self).schedule.stages@[idx].1;
                let inner0 = ss0->Startup_0.stages@;
                let inner1 = ss1->Startup_0.stages@;
                let jdx = label_index(inner0, stage_label);
                &&& crate::schedule::updated_except(
                    old(self).schedule.stages@,
                    final(self).schedule.stages@,
                    idx,
                )
                &&& ss1 is Startup
                &&& crate::schedule::updated_except(inner0, inner1, jdx)
                &&& inner1[jdx].1.systems@ == inner0[jdx].1.systems@.push(system)
                &&& inner1[jdx].1.drivers@ == inner0[jdx].1.drivers@
                &&& ss1->Startup_0.ran == ss0->Startup_0.ran
            }),
    {
        match self.schedule.add_startup_system_to_stage(stage_label, system) {
            Ok(_) => {},
            Err(e) => {
                proof {
                    assert(false);
                }
            },
        }
    }

    /// Appends a system to the `Startup` sub-stage, the default stage
    /// for startup logic.
    pub fn add_startup_system(&mut self, system: SystemDesc)
        requires
            old(self).wf(),
            has_label(old(self).schedule.stages@, STARTUP_SCHEDULE),
            old(self).schedule.stages@[label_index(old(self).schedule.stages@, STARTUP_SCHEDULE)].1
                is Startup,
            has_label(
                (old(self).schedule.stages@[label_index(
                    old(self).schedule.stages@,
                    STARTUP_SCHEDULE,
                )].1)->Startup_0.stages@,
                StartupStage::Startup.spec_label(),
            ),
        ensures
            final(self).wf(),
            final(self).world == old(self).world,
            final(self).sub_apps() == old(self).sub_apps(),
            ({
                let idx = label_index(old(self).schedule.stages@, STARTUP_SCHEDULE);
                let ss0 = old(self).schedule.stages@[idx].1;
                let ss1 = final(self).schedule.stages@[idx].1;
                let inner0 = ss0->Startup_0.stages@;
                let inner1 = ss1->Startup_0.stages@;
                let jdx = label_index(inner0, StartupStage::Startup.spec_label());
                &&& crate::schedule::updated_except(
                    old(self).schedule.stages@,
                    final(self).schedule.stages@,
                    idx,
                )
                &&& ss1 is Startup
                &&& crate::schedule::updated_except(inner0, inner1, jdx)
                &&& inner1[jdx].1.systems@ == inner0[jdx].1.systems@.push(system)
                &&& inner1[jdx].1.drivers@ == inner0[jdx].1.drivers@
                &&& ss1->Startup_0.ran == ss0->Startup_0.ran
            }),
    {
        self.add_startup_system_to_stage(StartupStage::Startup.label(), system)
    }

    /// Sets the app up to manage an event queue under the resource key
    /// `resource`: registers the queue (if absent) and adds its per-tick
    /// rotation system to the `First` stage.
    pub fn add_event(&mut self, resource: u64)
        requires
            old(self).wf(),
            has_label(old(self).schedule.stages@, CoreStage::First.spec_label()),
            old(self).schedule.stages@[label_index(
                old(self).schedule.stages@,
                CoreStage::First.spec_label(),
            )].1 is Parallel,
        ensures
            final(self).wf(),
            final(self).sub_apps() == old(self).sub_apps(),
            old(self).world@.dom().contains(resource) ==> final(self).world@ == old(self).world@,
            !old(self).world@.dom().contains(resource) ==> final(self).world@ == old(
                self,
            ).world@.insert(
                resource,
                crate::world::ResourceModel::Events(
                    crate::events::EventsModel {
                        previous: Seq::empty(),
                        current: Seq::empty(),
                        total: 0,
                    },
                ),
            ),
            ({
                let idx = label_index(old(self).schedule.stages@, CoreStage::First.spec_label());
                let st0 = old(self).schedule.stages@[idx].1;
                let st1 = final(self).schedule.stages@[idx].1;
                &&& crate::schedule::updated_except(
                    old(self).schedule.stages@,
                    final(self).schedule.stages@,
                    idx,
                )
                &&& st1 is Parallel
                &&& st1->Parallel_0.systems@.len() == st0->Parallel_0.systems@.len() + 1
                &&& st1->Parallel_0.systems@.drop_last() == st0->Parallel_0.systems@
                &&& ({
                    let s = st1->Parallel_0.systems@.last();
                    &&& s.id == resource
                    &&& s.kind is Parallel
                    &&& s.kind->Parallel_0.writes@ == seq![resource]
                    &&& s.kind->Parallel_0.reads@ == Seq::<u64>::empty()
                    &&& s.after@ == Seq::<u64>::empty()
                    &&& s.before@ == Seq::<u64>::empty()
                    &&& s.run_if_state is None
                    &&& s.effect == Effect::RotateEvents { resource }
                })
                &&& st1->Parallel_0.drivers@ == st0->Parallel_0.drivers@
            }),
    {
        self.world.init_resource(resource, Resource::Events(Events::new()));
        let mut writes: Vec<u64> = Vec::new();
        writes.push(resource);
        let rotation = SystemDesc {
            id: resource,
            kind: SystemKind::Parallel(AccessSet { reads: Vec::new(), writes }),
            after: Vec::new(),
            before: Vec::new(),
            run_if_state: None,
            effect: Effect::RotateEvents { resource },
        };
        match self.schedule.add_system_to_stage(CoreStage::First.label(), rotation) {
            Ok(_) => {},
            Err(_) => {
                proof {
                    assert(false);
                }
            },
        }
        proof {
            let idx = label_index(old(self).schedule.stages@, CoreStage::First.spec_label());
            let st0 = old(self).schedule.stages@[idx].1;
            let st1 = self.schedule.stages@[idx].1;
            assert(st1->Parallel_0.systems@.drop_last() =~= st0->Parallel_0.systems@);
            assert(st1->Parallel_0.systems@.last().kind->Parallel_0.writes@ =~= seq![resource]);
        }
    }

    /// Adds a state resource with the given initial value and registers
    /// its driver on the stage labeled `stage_label`: that stage's
    /// state-scoped systems are gated on the state's current value.
    pub fn add_state_to_stage(&mut self, stage_label: u64, resource: u64, initial: u64)
        requires
            old(self).wf(),
            has_label(old(self).schedule.stages@, stage_label),
            old(self).schedule.stages@[label_index(old(self).schedule.stages@, stage_label)].1
                is Parallel,
        ensures
            final(self).wf(),
            final(self).sub_apps() == old(self).sub_apps(),
            final(self).world@ == old(self).world@.insert(
                resource,
                crate::world::ResourceModel::State(seq![initial]),
            ),
            ({
                let idx = label_index(old(self).schedule.stages@, stage_label);
                let st0 = old(self).schedule.stages@[idx].1;
                let st1 = final(self).schedule.stages@[idx].1;
                &&& crate::schedule::updated_except(
                    old(self).schedule.stages@,
                    final(self).schedule.stages@,
                    idx,
                )
                &&& st1 is Parallel
                &&& st1->Parallel_0.systems@ == st0->Parallel_0.systems@
                &&& st1->Parallel_0.drivers@ == st0->Parallel_0.drivers@.push(resource)
            }),
    {
        self.world.insert_resource(resource, Resource::State(State::new(initial)));
        match self.schedule.add_state_driver_to_stage(stage_label, resource) {
            Ok(_) => {},
            Err(_) => {
                proof {
                    assert(false);
                }
            },
        }
    }

    /// Adds a state resource with the given initial value and registers
    /// its driver on the `Update` stage.
    pub fn add_state(&mut self, resource: u64, initial: u64)
        requires
            old(self).wf(),
            has_label(old(self).schedule.stages@, CoreStage::Update.spec_label()),
            old(self).schedule.stages@[label_index(
                old(self).schedule.stages@,
                CoreStage::Update.spec_label(),
            )].1 is Parallel,
        ensures
            final(self).wf(),
            final(self).sub_apps() == old(self).sub_apps(),
            final(self).world@ == old(self).world@.insert(
                resource,
                crate::world::ResourceModel::State(seq![initial]),
            ),
            ({
                let idx = label_index(old(self).schedule.stages@, CoreStage::Update.spec_label());
                let st0 = old(self).schedule.stages@[idx].1;
                let st1 = final(self).schedule.stages@[idx].1;
                &&& crate::schedule::updated_except(
                    old(self).schedule.stages@,
                    final(self).schedule.stages@,
                    idx,
                )
                &&& st1 is Parallel
                &&& st1->Parallel_0.systems@ == st0->Parallel_0.systems@
                &&& st1->Parallel_0.drivers@ == st0->Parallel_0.drivers@.push(resource)
            }),
    {
        self.add_state_to_stage(CoreStage::Update.label(), resource, initial)
    }

    /// A new app with the standardized stage structure and the
    /// exit-signal event queue wired into the `First` stage.
    pub fn new() -> (r: App)
        ensures
            r.wf(),
            r.sub_apps() == Seq::<(u64, SubApp)>::empty(),
            r.world@ == Map::<u64, crate::world::ResourceModel>::empty().insert(
                APP_EXIT_EVENTS,
                crate::world::ResourceModel::Events(
                    crate::events::EventsModel {
                        previous: Seq::empty(),
                        current: Seq::empty(),
                        total: 0,
                    },
                ),
            ),
            labels_of(r.schedule.stages@) == seq![
                CoreStage::First.spec_label(),
                STARTUP_SCHEDULE,
                CoreStage::PreUpdate.spec_label(),
                CoreStage::Update.spec_label(),
                CoreStage::PostUpdate.spec_label(),
                CoreStage::Last.spec_label(),
            ],
            r.schedule.stages@[1].1 is Startup,
            !(r.schedule.stages@[1].1)->Startup_0.ran,
            labels_of((r.schedule.stages@[1].1)->Startup_0.stages@) == seq![
                StartupStage::PreStartup.spec_label(),
                StartupStage::Startup.spec_label(),
                StartupStage::PostStartup.spec_label(),
            ],
            forall|t: int|
                #![trigger (r.schedule.stages@[1].1)->Startup_0.stages@[t]]
                0 <= t < 3 ==> {
                    let inner = (r.schedule.stages@[1].1)->Startup_0.stages@;
                    inner[t].1.systems@.len() == 0 && inner[t].1.drivers@.len() == 0
                },
            forall|t: int|
                0 <= t < 6 && t != 1 ==> (#[trigger] r.schedule.stages@[t]).1 is Parallel
                    && (r.schedule.stages@[t].1)->Parallel_0.drivers@.len() == 0,
            forall|t: int|
                2 <= t < 5 ==> ((#[trigger] r.schedule.stages@[t]).1)->Parallel_0.systems@.len()
                    == 0,
            ({
                let first = (r.schedule.stages@[0].1)->Parallel_0.systems@;
                &&& first.len() == 1
                &&& first[0].id == APP_EXIT_EVENTS
                &&& first[0].kind is Parallel
                &&& first[0].kind->Parallel_0.writes@ == seq![APP_EXIT_EVENTS]
                &&& first[0].kind->Parallel_0.reads@ == Seq::<u64>::empty()
                &&& first[0].after@ == Seq::<u64>::empty()
                &&& first[0].before@ == Seq::<u64>::empty()
                &&& first[0].run_if_state is None
                &&& first[0].effect == Effect::RotateEvents { resource: APP_EXIT_EVENTS }
            }),
            ({
                let last = (r.schedule.stages@[5].1)->Parallel_0.systems@;
                &&& last.len() == 1
                &&& last[0].id == CLEAR_TRACKERS_SYSTEM
                &&& last[0].kind is Exclusive
                &&& last[0].after@ == Seq::<u64>::empty()
                &&& last[0].before@ == Seq::<u64>::empty()
                &&& last[0].run_if_state is None
                &&& last[0].effect is Noop
            }),
    {
        let mut app = App::empty();
        app.add_default_stages();
        proof {
            assert(labels_of(app.schedule.stages@) =~= seq![
                CoreStage::First.spec_label(),
                STARTUP_SCHEDULE,
                CoreStage::PreUpdate.spec_label(),
                CoreStage::Update.spec_label(),
                CoreStage::PostUpdate.spec_label(),
                CoreStage::Last.spec_label(),
            ]);
            assert(app.schedule.stages@[0].0 == CoreStage::First.spec_label());
            lemma_label_index_agrees(app.schedule.stages@, CoreStage::First.spec_label(), 0);
        }
        app.add_event(APP_EXIT_EVENTS);
        proof {
            assert(labels_of(app.schedule.stages@) =~= seq![
                CoreStage::First.spec_label(),
                STARTUP_SCHEDULE,
                CoreStage::PreUpdate.spec_label(),
                CoreStage::Update.spec_label(),
                CoreStage::PostUpdate.spec_label(),
                CoreStage::Last.spec_label(),
            ]);
            assert(app.schedule.stages@[5].0 == CoreStage::Last.spec_label());
            lemma_label_index_agrees(app.schedule.stages@, CoreStage::Last.spec_label(), 5);
        }
        // The per-tick change-tracking reset runs exclusively at the very
        // end of the tick. The modeled world keeps no change trackers, so
        // resetting them does nothing to the model world.
        app.add_system_to_stage(
            CoreStage::Last.label(),
            SystemDesc {
                id: CLEAR_TRACKERS_SYSTEM,
                kind: SystemKind::Exclusive,
                after: Vec::new(),
                before: Vec::new(),
                run_if_state: None,
                effect: Effect::Noop,
            },
        );
        proof {
            assert(labels_of(app.schedule.stages@) =~= seq![
                CoreStage::First.spec_label(),
                STARTUP_SCHEDULE,
                CoreStage::PreUpdate.spec_label(),
                CoreStage::Update.spec_label(),
                CoreStage::PostUpdate.spec_label(),
                CoreStage::Last.spec_label(),
            ]);
            assert(((app.schedule.stages@[5].1)->Parallel_0.systems@)[0].after@
                =~= Seq::<u64>::empty());
            assert(((app.schedule.stages@[5].1)->Parallel_0.systems@)[0].before@
                =~= Seq::<u64>::empty());
            assert(((app.schedule.stages@[0].1)->Parallel_0.systems@)[0].after@
                =~= Seq::<u64>::empty());
            assert(((app.schedule.stages@[0].1)->Parallel_0.systems@)[0].before@
                =~= Seq::<u64>::empty());
            assert(((app.schedule.stages@[0].1)->Parallel_0.systems@)[0].kind->Parallel_0.reads@
                =~= Seq::<u64>::empty());
        }
        app
    }
}

impl App {
    /// Inserts a sub-stage immediately after the startup sub-stage
    /// labeled `target`; the startup schedule and the target must exist
    /// and `label` must be fresh inside it.
    pub fn add_startup_stage_after(&mut self, target: u64, label: u64, stage: SystemStage)
        requires
            old(self).wf(),
            has_label(old(self).schedule.stages@, STARTUP_SCHEDULE),
            old(self).schedule.stages@[label_index(old(self).schedule.stages@, STARTUP_SCHEDULE)].1
                is Startup,
            !has_label(
                (old(self).schedule.stages@[label_index(
                    old(self).schedule.stages@,
                    STARTUP_SCHEDULE,
                )].1)->Startup_0.stages@,
                label,
            ),
            has_label(
                (old(self).schedule.stages@[label_index(
                    old(self).schedule.stages@,
                    STARTUP_SCHEDULE,
                )].1)->Startup_0.stages@,
                target,
            ),
        ensures
            final(self).wf(),
            final(self).world == old(self).world,
            final(self).sub_apps() == old(self).sub_apps(),
            ({
                let idx = label_index(old(self).schedule.stages@, STARTUP_SCHEDULE);
                let ss0 = old(self).schedule.stages@[idx].1;
                let ss1 = final(self).schedule.stages@[idx].1;
                &&& crate::schedule::updated_except(
                    old(self).schedule.stages@,
                    final(self).schedule.stages@,
                    idx,
                )
                &&& ss1 is Startup
                &&& ss1->Startup_0.stages@ == ss0->Startup_0.stages@.insert(
                    label_index(ss0->Startup_0.stages@, target) + 1,
                    (label, stage),
                )
                &&& ss1->Startup_0.ran == ss0->Startup_0.ran
            }),
    {
        match self.schedule.add_startup_stage_after(target, label, stage) {
            Ok(_) => {},
            Err(e) => {
                proof {
                    assert(false);
                }
            },
        }
    }

    /// Inserts a sub-stage immediately before the startup sub-stage
    /// labeled `target`; the startup schedule and the target must exist
    /// and `label` must be fresh inside it.
    pub fn add_startup_stage_before(&mut self, target: u64, label: u64, stage: SystemStage)
        requires
            old(self).wf(),
            has_label(old(self).schedule.stages@, STARTUP_SCHEDULE),
            old(self).schedule.stages@[label_index(old(self).schedule.stages@, STARTUP_SCHEDULE)].1
                is Startup,
            !has_label(
                (old(self).schedule.stages@[label_index(
                    old(self).schedule.stages@,
                    STARTUP_SCHEDULE,
                )].1)->Startup_0.stages@,
                label,
            ),
            has_label(
                (old(self).schedule.stages@[label_index(
                    old(self).schedule.stages@,
                    STARTUP_SCHEDULE,
                )].1)->Startup_0.stages@,
                target,
            ),
        ensures
            final(self).wf(),
            final(self).world == old(self).world,
            final(self).sub_apps() == old(self).sub_apps(),
            ({
                let idx = label_index(old(self).schedule.stages@, STARTUP_SCHEDULE);
                let ss0 = old(self).schedule.stages@[idx].1;
                let ss1 = final(self).schedule.stages@[idx].1;
                &&& crate::schedule::updated_except(
                    old(self).schedule.stages@,
                    final(self).schedule.stages@,
                    idx,
                )
                &&& ss1 is Startup
                &&& ss1->Startup_0.stages@ == ss0->Startup_0.stages@.insert(
                    label_index(ss0->Startup_0.stages@, target),
                    (label, stage),
                )
                &&& ss1->Startup_0.ran == ss0->Startup_0.ran
            }),
    {
        match self.schedule.add_startup_stage_before(target, label, stage) {
            Ok(_) => {},
            Err(e) => {
                proof {
                    assert(false);
                }
            },
        }
    }

    /// Appends a system set to the startup sub-stage labeled
    /// `stage_label`, which must exist, the set's scope merged in.
    pub fn add_startup_system_set_to_stage(&mut self, stage_label: u64, set: SystemSet)
        requires
            old(self).wf(),
            has_label(old(self).schedule.stages@, STARTUP_SCHEDULE),
            old(self).schedule.stages@[label_index(old(self).schedule.stages@, STARTUP_SCHEDULE)].1
                is Startup,
            has_label(
                (old(self).schedule.stages@[label_index(
                    old(self).schedule.stages@,
                    STARTUP_SCHEDULE,
                )].1)->Startup_0.stages@,
                stage_label,
            ),
        ensures
            final(self).wf(),
            final(self).world == old(self).world,
            final(self).sub_apps() == old(self).sub_apps(),
            ({
                let idx = label_index(old(self).schedule.stages@, STARTUP_SCHEDULE);
                let ss0 = old(self).schedule.stages@[idx].1;
                let ss1 = final(self).schedule.stages@[idx].1;
                let inner0 = ss0->Startup_0.stages@;
                let inner1 = ss1->Startup_0.stages@;
                let jdx = label_index(inner0, stage_label);
                &&& crate::schedule::updated_except(
                    old(self).schedule.stages@,
                    final(self).schedule.stages@,
                    idx,
                )
                &&& ss1 is Startup
                &&& crate::schedule::updated_except(inner0, inner1, jdx)
                &&& inner1[jdx].1.systems@.len() == inner0[jdx].1.systems@.len()
                    + set.systems@.len()
                &&& inner1[jdx].1.systems@.take(inner0[jdx].1.systems@.len() as int)
                    == inner0[jdx].1.systems@
                &&& crate::system::merged_members(
                    set,
                    inner1[jdx].1.systems@.skip(inner0[jdx].1.systems@.len() as int),
                )
                &&& inner1[jdx].1.drivers@ == inner0[jdx].1.drivers@
                &&& ss1->Startup_0.ran == ss0->Startup_0.ran
            }),
    {
        match self.schedule.add_startup_system_set_to_stage(stage_label, set) {
            Ok(_) => {},
            Err(e) => {
                proof {
                    assert(false);
                }
            },
        }
    }

    /// Appends a system set to the `Startup` sub-stage.
    pub fn add_startup_system_set(&mut self, set: SystemSet)
        requires
            old(self).wf(),
            has_label(old(self).schedule.stages@, STARTUP_SCHEDULE),
            old(self).schedule.stages@[label_index(old(self).schedule.stages@, STARTUP_SCHEDULE)].1
                is Startup,
            has_label(
                (old(self).schedule.stages@[label_index(
                    old(self).schedule.stages@,
                    STARTUP_SCHEDULE,
                )].1)->Startup_0.stages@,
                StartupStage::Startup.spec_label(),
            ),
        ensures
            final(self).wf(),
            final(self).world == old(self).world,
            final(self).sub_apps() == old(self).sub_apps(),
            ({
                let idx = label_index(old(self).schedule.stages@, STARTUP_SCHEDULE);
                let ss0 = old(self).schedule.stages@[idx].1;
                let ss1 = final(self).schedule.stages@[idx].1;
                let inner0 = ss0->Startup_0.stages@;
                let inner1 = ss1->Startup_0.stages@;
                let jdx = label_index(inner0, StartupStage::Startup.spec_label());
                &&& crate::schedule::updated_except(
                    old(self).schedule.stages@,
                    final(self).schedule.stages@,
                    idx,
                )
                &&& ss1 is Startup
                &&& crate::schedule::updated_except(inner0, inner1, jdx)
                &&& inner1[jdx].1.systems@.len() == inner0[jdx].1.systems@.len()
                    + set.systems@.len()
                &&& inner1[jdx].1.systems@.take(inner0[jdx].1.systems@.len() as int)
                    == inner0[jdx].1.systems@
                &&& crate::system::merged_members(
                    set,
                    inner1[jdx].1.systems@.skip(inner0[jdx].1.systems@.len() as int),
                )
                &&& inner1[jdx].1.drivers@ == inner0[jdx].1.drivers@
                &&& ss1->Startup_0.ran == ss0->Startup_0.ran
            }),
    {
        self.add_startup_system_set_to_stage(StartupStage::Startup.label(), set)
    }
}

} // verus!
