//! Schedules: ordered sequences of labeled stages.
//!
//! Stage execution order is exactly insertion/relative-position order:
//! `add_stage` appends, `add_stage_after` and `add_stage_before` insert
//! adjacent to a named anchor and report a stage-not-found error when the
//! anchor is absent. One stage may itself be a nested startup schedule,
//! whose run-once criterion makes its sub-stages execute only on the
//! first tick.

use crate::stage::{
    flat_plan, plan_view, runnable_mask_spec, run_order_model, systems_edge_free, valid_plan,
    ScheduleError, SystemStage,
};
use crate::labels::STARTUP_SCHEDULE;
use crate::system::{merged_members, SystemDesc, SystemSet};
use crate::world::{ResourceModel, World};
use vstd::prelude::*;

verus! {

/// The labels of a labeled sequence, in order.
pub open spec fn labels_of<S>(stages: Seq<(u64, S)>) -> Seq<u64> {
    stages.map_values(|p: (u64, S)| p.0)
}

/// Whether some entry carries `label`.
pub open spec fn has_label<S>(stages: Seq<(u64, S)>, label: u64) -> bool {
    exists|i: int| 0 <= i < stages.len() && stages[i].0 == label
}

/// No two entries share a label.
pub open spec fn unique_labels<S>(stages: Seq<(u64, S)>) -> bool {
    forall|i: int, j: int| 0 <= i < j < stages.len() ==> stages[i].0 != stages[j].0
}

/// The index of the entry carrying `label`; the unique one, under
/// [`unique_labels`].
pub open spec fn label_index<S>(stages: Seq<(u64, S)>, label: u64) -> int {
    choose|i: int| 0 <= i < stages.len() && stages[i].0 == label
}

/// Index of the entry carrying `label`, if any.
pub(crate) fn find_label<S>(stages: &Vec<(u64, S)>, label: u64) -> (r: Option<usize>)
    ensures
        match r {
            Some(i) => i < stages@.len() && stages@[i as int].0 == label && has_label(
                stages@,
                label,
            ),
            None => !has_label(stages@, label),
        },
{
    let mut i: usize = 0;
    while i < stages.len()
        invariant
            i <= stages@.len(),
            forall|j: int| 0 <= j < i ==> stages@[j].0 != label,
        decreases stages@.len() - i,
    {
        if stages[i].0 == label {
            return Some(i);
        }
        i = i + 1;
    }
    None
}

/// With unique labels, the found index is the label's index.
pub(crate) proof fn lemma_label_index_agrees<S>(stages: Seq<(u64, S)>, label: u64, i: int)
    requires
        unique_labels(stages),
        0 <= i < stages.len(),
        stages[i].0 == label,
    ensures
        label_index(stages, label) == i,
{
    let j = label_index(stages, label);
    assert(0 <= j < stages.len() && stages[j].0 == label);
}

/// Appends `(label, value)`; refused when the label is taken.
fn list_add<S>(stages: &mut Vec<(u64, S)>, label: u64, value: S) -> (r: Result<(), ScheduleError>)
    requires
        unique_labels(old(stages)@),
    ensures
        unique_labels(final(stages)@),
        !has_label(old(stages)@, label) ==> r == Ok::<(), ScheduleError>(()) && final(stages)@
            == old(stages)@.push((label, value)),
        has_label(old(stages)@, label) ==> r == Err::<(), ScheduleError>(
            ScheduleError::DuplicateStageLabel(label),
        ) && *final(stages) == *old(stages),
{
    match find_label(stages, label) {
        Some(_) => Err(ScheduleError::DuplicateStageLabel(label)),
        None => {
            stages.push((label, value));
            proof {
                assert forall|i: int, j: int|
                    0 <= i < j < stages@.len() implies stages@[i].0 != stages@[j].0 by {
                    if j == stages@.len() - 1 {
                        assert(stages@[i] == old(stages)@[i]);
                    }
                }
            }
            Ok(())
        },
    }
}

/// Inserts `(label, value)` immediately after the entry labeled
/// `target`; refused when the label is taken or the target is absent.
fn list_add_after<S>(stages: &mut Vec<(u64, S)>, target: u64, label: u64, value: S) -> (r: Result<
    (),
    ScheduleError,
>)
    requires
        unique_labels(old(stages)@),
    ensures
        unique_labels(final(stages)@),
        match r {
            Ok(_) => !has_label(old(stages)@, label) && has_label(old(stages)@, target) && final(stages)@ == old(stages)@.insert(
                label_index(old(stages)@, target) + 1,
                (label, value),
            ),
            Err(e) => *final(stages) == *old(stages) && (e
                == ScheduleError::DuplicateStageLabel(label) && has_label(old(stages)@, label) || e
                == ScheduleError::StageNotFound(target) && !has_label(old(stages)@, target)
                && !has_label(old(stages)@, label)),
        },
{
    if find_label(stages, label).is_some() {
        return Err(ScheduleError::DuplicateStageLabel(label));
    }
    match find_label(stages, target) {
        None => Err(ScheduleError::StageNotFound(target)),
        Some(i) => {
            proof {
                lemma_label_index_agrees(stages@, target, i as int);
            }
            let ghost s0 = stages@;
            let l = stages.len();
            proof {
                assert(i < l);
            }
            stages.insert(i + 1, (label, value));
            proof {
                assert forall|a: int, b: int|
                    0 <= a < b < stages@.len() implies stages@[a].0 != stages@[b].0 by {
                    let n = s0.len();
                    let p = i + 1;
                    if a < p && b < p {
                        assert(stages@[a] == s0[a] && stages@[b] == s0[b]);
                    } else if a < p && b > p {
                        assert(stages@[a] == s0[a] && stages@[b] == s0[b - 1]);
                    } else if a == p && b > p {
                        assert(stages@[b] == s0[b - 1]);
                        assert(!has_label(s0, label) ==> s0[b - 1].0 != label);
                    } else if a < p && b == p {
                        assert(stages@[a] == s0[a]);
                        assert(!has_label(s0, label) ==> s0[a].0 != label);
                    } else if a > p && b > p {
                        assert(stages@[a] == s0[a - 1] && stages@[b] == s0[b - 1]);
                    }
                }
            }
            Ok(())
        },
    }
}

/// Inserts `(label, value)` immediately before the entry labeled
/// `target`; refused when the label is taken or the target is absent.
fn list_add_before<S>(stages: &mut Vec<(u64, S)>, target: u64, label: u64, value: S) -> (r: Result<
    (),
    ScheduleError,
>)
    requires
        unique_labels(old(stages)@),
    ensures
        unique_labels(final(stages)@),
        match r {
            Ok(_) => !has_label(old(stages)@, label) && has_label(old(stages)@, target) && final(stages)@ == old(stages)@.insert(
                label_index(old(stages)@, target),
                (label, value),
            ),
            Err(e) => *final(stages) == *old(stages) && (e
                == ScheduleError::DuplicateStageLabel(label) && has_label(old(stages)@, label) || e
                == ScheduleError::StageNotFound(target) && !has_label(old(stages)@, target)
                && !has_label(old(stages)@, label)),
        },
{
    if find_label(stages, label).is_some() {
        return Err(ScheduleError::DuplicateStageLabel(label));
    }
    match find_label(stages, target) {
        None => Err(ScheduleError::StageNotFound(target)),
        Some(i) => {
            proof {
                lemma_label_index_agrees(stages@, target, i as int);
            }
            let ghost s0 = stages@;
            stages.insert(i, (label, value));
            proof {
                assert forall|a: int, b: int|
                    0 <= a < b < stages@.len() implies stages@[a].0 != stages@[b].0 by {
                    let p = i as int;
                    if a < p && b < p {
                        assert(stages@[a] == s0[a] && stages@[b] == s0[b]);
                    } else if a < p && b > p {
                        assert(stages@[a] == s0[a] && stages@[b] == s0[b - 1]);
                    } else if a == p && b > p {
                        assert(stages@[b] == s0[b - 1]);
                        assert(!has_label(s0, label) ==> s0[b - 1].0 != label);
                    } else if a < p && b == p {
                        assert(stages@[a] == s0[a]);
                        assert(!has_label(s0, label) ==> s0[a].0 != label);
                    } else if a > p && b > p {
                        assert(stages@[a] == s0[a - 1] && stages@[b] == s0[b - 1]);
                    }
                }
            }
            Ok(())
        },
    }
}

/// A stage of the main schedule: an ordinary parallel stage, or the
/// nested run-once startup schedule.
pub enum Stage {
    Parallel(SystemStage),
    Startup(StartupSchedule),
}

/// The nested startup schedule: labeled sub-stages that run exactly once,
/// on the first tick after which they are marked as having run.
pub struct StartupSchedule {
    /// The labeled sub-stages, in run order.
    pub stages: Vec<(u64, SystemStage)>,
    /// Whether the run-once criterion has already fired.
    pub ran: bool,
}

impl StartupSchedule {
    /// Sub-stage labels are unique.
    pub open spec fn wf(self) -> bool {
        unique_labels(self.stages@)
    }
}

/// Well-formedness of one stage.
pub open spec fn stage_wf(st: Stage) -> bool {
    match st {
        Stage::Parallel(_) => true,
        Stage::Startup(ss) => ss.wf(),
    }
}

/// An ordered sequence of labeled stages, executed in order once per
/// tick.
pub struct Schedule {
    /// The labeled stages, in run order.
    pub stages: Vec<(u64, Stage)>,
}

/// One stage execution of a schedule run: which stage ran, the wave plan
/// that ran, and (for the contracts) the systems and drivers it ran with.
pub struct StageRun {
    /// Label of the stage that ran.
    pub label: u64,
    /// The wave plan that was executed.
    pub plan: Vec<Vec<usize>>,
    /// The stage's systems at the time of the run.
    pub systems: Ghost<Seq<SystemDesc>>,
    /// The stage's state drivers at the time of the run.
    pub drivers: Ghost<Seq<u64>>,
}

/// The reportable content of one stage run.
pub open spec fn run_view(r: StageRun) -> (u64, Seq<SystemDesc>, Seq<u64>) {
    (r.label, r.systems@, r.drivers@)
}

/// The reportable content of a whole trace.
pub open spec fn trace_view(tr: Seq<StageRun>) -> Seq<(u64, Seq<SystemDesc>, Seq<u64>)> {
    tr.map_values(|r: StageRun| run_view(r))
}

/// The stage runs one stage contributes to a tick: a parallel stage runs
/// itself; the startup schedule runs each sub-stage once, and nothing on
/// later ticks.
pub open spec fn stage_runs(p: (u64, Stage)) -> Seq<(u64, Seq<SystemDesc>, Seq<u64>)> {
    match p.1 {
        Stage::Parallel(st) => seq![(p.0, st.systems@, st.drivers@)],
        Stage::Startup(ss) => {
            if ss.ran {
                Seq::empty()
            } else {
                ss.stages@.map_values(|q: (u64, SystemStage)| (q.0, q.1.systems@, q.1.drivers@))
            }
        },
    }
}

/// All stage runs a tick performs, in order.
pub open spec fn expected_runs(stages: Seq<(u64, Stage)>) -> Seq<(u64, Seq<SystemDesc>, Seq<u64>)>
    decreases stages.len(),
{
    if stages.len() == 0 {
        Seq::empty()
    } else {
        expected_runs(stages.drop_last()) + stage_runs(stages.last())
    }
}

/// The expected runs of one more stage.
pub proof fn lemma_expected_push(stages: Seq<(u64, Stage)>, i: int)
    requires
        0 <= i < stages.len(),
    ensures
        expected_runs(stages.take(i + 1)) == expected_runs(stages.take(i)) + stage_runs(
            stages[i],
        ),
{
    assert(stages.take(i + 1).drop_last() =~= stages.take(i));
    assert(stages.take(i + 1).last() == stages[i]);
}

/// The world after the traced stage runs.
pub open spec fn trace_world(m: Map<u64, ResourceModel>, tr: Seq<StageRun>) -> Map<
    u64,
    ResourceModel,
>
    decreases tr.len(),
{
    if tr.len() == 0 {
        m
    } else {
        run_order_model(
            trace_world(m, tr.drop_last()),
            tr.last().systems@,
            flat_plan(plan_view(tr.last().plan)),
        )
    }
}

/// Every traced plan was a correct plan for its stage's systems, gated
/// on the world as it stood when that stage began.
pub open spec fn trace_valid(m0: Map<u64, ResourceModel>, tr: Seq<StageRun>) -> bool {
    forall|k: int|
        0 <= k < tr.len() ==> valid_plan(
            (#[trigger] tr[k]).systems@,
            runnable_mask_spec(tr[k].systems@, trace_world(m0, tr.take(k)), tr[k].drivers@),
            plan_view(tr[k].plan),
        )
}

/// Both sequences hold the same stages, except that startup schedules may
/// differ in whether they have run.
pub open spec fn same_except_ran(a: Seq<(u64, Stage)>, b: Seq<(u64, Stage)>) -> bool {
    &&& b.len() == a.len()
    &&& forall|i: int|
        0 <= i < a.len() ==> {
            let p = #[trigger] a[i];
            let q = #[trigger] b[i];
            q.0 == p.0 && match (p.1, q.1) {
                (Stage::Parallel(x), Stage::Parallel(y)) => y == x,
                (Stage::Startup(x), Stage::Startup(y)) => y.stages@ == x.stages@,
                _ => false,
            }
        }
}

/// No system of any stage declares an explicit ordering edge. Such a
/// schedule can never present a dependency cycle, so running it always
/// succeeds.
pub open spec fn edge_free(stages: Seq<(u64, Stage)>) -> bool {
    forall|i: int|
        0 <= i < stages.len() ==> match (#[trigger] stages[i]).1 {
            Stage::Parallel(st) => systems_edge_free(st.systems@),
            Stage::Startup(ss) => forall|j: int|
                0 <= j < ss.stages@.len() ==> systems_edge_free(
                    (#[trigger] ss.stages@[j]).1.systems@,
                ),
        }
}

/// Every startup schedule is marked as having run.
pub open spec fn startup_all_ran(b: Seq<(u64, Stage)>) -> bool {
    forall|i: int|
        0 <= i < b.len() && (#[trigger] b[i]).1 is Startup ==> (b[i].1)->Startup_0.ran
}

impl Schedule {
    /// Labels are unique, on the outer schedule and inside the startup
    /// schedule.
    pub open spec fn wf(self) -> bool {
        unique_labels(self.stages@) && (forall|i: int|
            0 <= i < self.stages@.len() ==> stage_wf((#[trigger] self.stages@[i]).1))
    }

    /// The stage labels, in run order.
    pub open spec fn labels(self) -> Seq<u64> {
        labels_of(self.stages@)
    }

    /// An empty schedule.
    pub fn new() -> (r: Schedule)
        ensures
            r.stages@ == Seq::<(u64, Stage)>::empty(),
            r.wf(),
    {
        Schedule { stages: Vec::new() }
    }

    /// Appends a stage with the given label at the end of the schedule.
    /// Refused when the label is already taken.
    pub fn try_add_stage(&mut self, label: u64, stage: Stage) -> (r: Result<(), ScheduleError>)
        requires
            old(self).wf(),
            stage_wf(stage),
        ensures
            final(self).wf(),
            !has_label(old(self).stages@, label) ==> r == Ok::<(), ScheduleError>(()) && final(self).stages@ == old(self).stages@.push((label, stage)),
            has_label(old(self).stages@, label) ==> r == Err::<(), ScheduleError>(
                ScheduleError::DuplicateStageLabel(label),
            ) && final(self).stages@ == old(self).stages@,
    {
        list_add(&mut self.stages, label, stage)
    }

    /// Inserts a stage immediately after the stage labeled `target`.
    /// Refused when the label is taken or the target is absent.
    pub fn try_add_stage_after(&mut self, target: u64, label: u64, stage: Stage) -> (r: Result<
        (),
        ScheduleError,
    >)
        requires
            old(self).wf(),
            stage_wf(stage),
        ensures
            final(self).wf(),
            match r {
                Ok(_) => !has_label(old(self).stages@, label) && has_label(
                    old(self).stages@,
                    target,
                ) && final(self).stages@ == old(self).stages@.insert(
                    label_index(old(self).stages@, target) + 1,
                    (label, stage),
                ),
                Err(e) => final(self).stages@ == old(self).stages@ && (e
                    == ScheduleError::DuplicateStageLabel(label) && has_label(
                    old(self).stages@,
                    label,
                ) || e == ScheduleError::StageNotFound(target) && !has_label(
                    old(self).stages@,
                    target,
                ) && !has_label(old(self).stages@, label)),
            },
    {
        list_add_after(&mut self.stages, target, label, stage)
    }

    /// Inserts a stage immediately before the stage labeled `target`.
    /// Refused when the label is taken or the target is absent.
    pub fn try_add_stage_before(&mut self, target: u64, label: u64, stage: Stage) -> (r: Result<
        (),
        ScheduleError,
    >)
        requires
            old(self).wf(),
            stage_wf(stage),
        ensures
            final(self).wf(),
            match r {
                Ok(_) => !has_label(old(self).stages@, label) && has_label(
                    old(self).stages@,
                    target,
                ) && final(self).stages@ == old(self).stages@.insert(
                    label_index(old(self).stages@, target),
                    (label, stage),
                ),
                Err(e) => final(self).stages@ == old(self).stages@ && (e
                    == ScheduleError::DuplicateStageLabel(label) && has_label(
                    old(self).stages@,
                    label,
                ) || e == ScheduleError::StageNotFound(target) && !has_label(
                    old(self).stages@,
                    target,
                ) && !has_label(old(self).stages@, label)),
            },
    {
        list_add_before(&mut self.stages, target, label, stage)
    }

    /// Looks up the stage under `label`, mutably: the caller may edit
    /// the stage in place, and the schedule afterwards holds the edited
    /// stage at the same position under the same label. The schedule
    /// stays well-formed as long as the edited stage is.
    pub fn get_stage_mut(&mut self, label: u64) -> (r: Result<&mut Stage, ScheduleError>)
        requires
            old(self).wf(),
        ensures
            match r {
                Ok(st) => {
                    let idx = label_index(old(self).stages@, label);
                    &&& has_label(old(self).stages@, label)
                    &&& *st == old(self).stages@[idx].1
                    &&& final(self).stages@ == old(self).stages@.update(
                        idx,
                        (label, *final(st)),
                    )
                    &&& (stage_wf(*final(st)) ==> final(self).wf())
                },
                Err(e) => e == ScheduleError::StageNotFound(label) && !has_label(
                    old(self).stages@,
                    label,
                ) && *final(self) == *old(self),
            },
    {
        match find_label(&self.stages, label) {
            Some(i) => {
                proof {
                    lemma_label_index_agrees(self.stages@, label, i as int);
                }
                Ok(&mut self.stages[i].1)
            },
            None => Err(ScheduleError::StageNotFound(label)),
        }
    }

    /// Looks up the stage under `label`.
    pub fn get_stage(&self, label: u64) -> (r: Option<&Stage>)
        requires
            self.wf(),
        ensures
            match r {
                Some(st) => has_label(self.stages@, label) && *st == self.stages@[label_index(
                    self.stages@,
                    label,
                )].1,
                None => !has_label(self.stages@, label),
            },
    {
        match find_label(&self.stages, label) {
            Some(i) => {
                proof {
                    lemma_label_index_agrees(self.stages@, label, i as int);
                }
                Some(&self.stages[i].1)
            },
            None => None,
        }
    }
}

impl Default for Schedule {
    /// An empty schedule.
    fn default() -> (r: Schedule)
        ensures
            r.stages@ == Seq::<(u64, Stage)>::empty(),
            r.wf(),
    {
        Schedule::new()
    }
}

/// `b` equals `a` at every index but `idx`, where the label is kept.
pub open spec fn updated_except<S>(a: Seq<(u64, S)>, b: Seq<(u64, S)>, idx: int) -> bool {
    &&& b.len() == a.len()
    &&& forall|t: int| 0 <= t < a.len() && t != idx ==> a[t] == #[trigger] b[t]
    &&& 0 <= idx < a.len() ==> b[idx].0 == a[idx].0
}

impl Schedule {
    /// Appends a system to the parallel stage labeled `stage_label`.
    /// Refused when no stage carries the label or the stage is the
    /// startup schedule.
    pub fn add_system_to_stage(&mut self, stage_label: u64, s: SystemDesc) -> (r: Result<
        (),
        ScheduleError,
    >)
        requires
            old(self).wf(),
        ensures
            final(self).wf(),
            match r {
                Ok(_) => {
                    let idx = label_index(old(self).stages@, stage_label);
                    let st0 = old(self).stages@[idx].1;
                    let st1 = final(self).stages@[idx].1;
                    &&& has_label(old(self).stages@, stage_label)
                    &&& st0 is Parallel
                    &&& updated_except(old(self).stages@, final(self).stages@, idx)
                    &&& st1 is Parallel
                    &&& st1->Parallel_0.systems@ == st0->Parallel_0.systems@.push(s)
                    &&& st1->Parallel_0.drivers@ == st0->Parallel_0.drivers@
                },
                Err(e) => final(self).stages@ == old(self).stages@ && (e
                    == ScheduleError::StageNotFound(stage_label) && !has_label(
                    old(self).stages@,
                    stage_label,
                ) || e == ScheduleError::WrongStageKind(stage_label) && has_label(
                    old(self).stages@,
                    stage_label,
                ) && old(self).stages@[label_index(old(self).stages@, stage_label)].1 is Startup),
            },
    {
        match find_label(&self.stages, stage_label) {
            None => Err(ScheduleError::StageNotFound(stage_label)),
            Some(i) => {
                proof {
                    lemma_label_index_agrees(self.stages@, stage_label, i as int);
                }
                let ghost a = self.stages@;
                let entry = &mut self.stages[i];
                let r = match &mut entry.1 {
                    Stage::Parallel(st) => {
                        st.add_system(s);
                        Ok(())
                    },
                    Stage::Startup(_) => Err(ScheduleError::WrongStageKind(stage_label)),
                };
                proof {
                    if r is Err {
                        assert(self.stages@ =~= a);
                    }
                }
                r
            },
        }
    }

    /// Appends every member of a set to the parallel stage labeled
    /// `stage_label`, the set's scope merged in. Refused when no stage
    /// carries the label or the stage is the startup schedule.
    pub fn add_system_set_to_stage(&mut self, stage_label: u64, set: SystemSet) -> (r: Result<
        (),
        ScheduleError,
    >)
        requires
            old(self).wf(),
        ensures
            final(self).wf(),
            match r {
                Ok(_) => {
                    let idx = label_index(old(self).stages@, stage_label);
                    let st0 = old(self).stages@[idx].1;
                    let st1 = final(self).stages@[idx].1;
                    &&& has_label(old(self).stages@, stage_label)
                    &&& st0 is Parallel
                    &&& updated_except(old(self).stages@, final(self).stages@, idx)
                    &&& st1 is Parallel
                    &&& st1->Parallel_0.systems@.len() == st0->Parallel_0.systems@.len()
                        + set.systems@.len()
                    &&& st1->Parallel_0.systems@.take(st0->Parallel_0.systems@.len() as int)
                        == st0->Parallel_0.systems@
                    &&& merged_members(
                        set,
                        st1->Parallel_0.systems@.skip(st0->Parallel_0.systems@.len() as int),
                    )
                    &&& st1->Parallel_0.drivers@ == st0->Parallel_0.drivers@
                },
                Err(e) => final(self).stages@ == old(self).stages@ && (e
                    == ScheduleError::StageNotFound(stage_label) && !has_label(
                    old(self).stages@,
                    stage_label,
                ) || e == ScheduleError::WrongStageKind(stage_label) && has_label(
                    old(self).stages@,
                    stage_label,
                ) && old(self).stages@[label_index(old(self).stages@, stage_label)].1 is Startup),
            },
    {
        match find_label(&self.stages, stage_label) {
            None => Err(ScheduleError::StageNotFound(stage_label)),
            Some(i) => {
                proof {
                    lemma_label_index_agrees(self.stages@, stage_label, i as int);
                }
                let ghost a = self.stages@;
                let entry = &mut self.stages[i];
                let r = match &mut entry.1 {
                    Stage::Parallel(st) => {
                        st.add_system_set(set);
                        Ok(())
                    },
                    Stage::Startup(_) => Err(ScheduleError::WrongStageKind(stage_label)),
                };
                proof {
                    if r is Err {
                        assert(self.stages@ =~= a);
                    }
                }
                r
            },
        }
    }

    /// Registers a state driver on the parallel stage labeled
    /// `stage_label`. Refused when no stage carries the label or the
    /// stage is the startup schedule.
    pub fn add_state_driver_to_stage(&mut self, stage_label: u64, resource: u64) -> (r: Result<
        (),
        ScheduleError,
    >)
        requires
            old(self).wf(),
        ensures
            final(self).wf(),
            match r {
                Ok(_) => {
                    let idx = label_index(old(self).stages@, stage_label);
                    let st0 = old(self).stages@[idx].1;
                    let st1 = final(self).stages@[idx].1;
                    &&& has_label(old(self).stages@, stage_label)
                    &&& st0 is Parallel
                    &&& updated_except(old(self).stages@, final(self).stages@, idx)
                    &&& st1 is Parallel
                    &&& st1->Parallel_0.systems@ == st0->Parallel_0.systems@
                    &&& st1->Parallel_0.drivers@ == st0->Parallel_0.drivers@.push(resource)
                },
                Err(e) => final(self).stages@ == old(self).stages@ && (e
                    == ScheduleError::StageNotFound(stage_label) && !has_label(
                    old(self).stages@,
                    stage_label,
                ) || e == ScheduleError::WrongStageKind(stage_label) && has_label(
                    old(self).stages@,
                    stage_label,
                ) && old(self).stages@[label_index(old(self).stages@, stage_label)].1 is Startup),
            },
    {
        match find_label(&self.stages, stage_label) {
            None => Err(ScheduleError::StageNotFound(stage_label)),
            Some(i) => {
                proof {
                    lemma_label_index_agrees(self.stages@, stage_label, i as int);
                }
                let ghost a = self.stages@;
                let entry = &mut self.stages[i];
                let r = match &mut entry.1 {
                    Stage::Parallel(st) => {
                        st.add_state_driver(resource);
                        Ok(())
                    },
                    Stage::Startup(_) => Err(ScheduleError::WrongStageKind(stage_label)),
                };
                proof {
                    if r is Err {
                        assert(self.stages@ =~= a);
                    }
                }
                r
            },
        }
    }
}

impl Schedule {
    /// Appends a sub-stage at the end of the startup schedule. Refused
    /// when the startup schedule is absent (or its label misused) or the
    /// sub-stage label is taken.
    pub fn add_startup_stage(&mut self, label: u64, stage: SystemStage) -> (r: Result<
        (),
        ScheduleError,
    >)
        requires
            old(self).wf(),
        ensures
            final(self).wf(),
            match r {
                Ok(_) => {
                    let idx = label_index(old(self).stages@, STARTUP_SCHEDULE);
                    let ss0 = old(self).stages@[idx].1;
                    let ss1 = final(self).stages@[idx].1;
                    &&& has_label(old(self).stages@, STARTUP_SCHEDULE)
                    &&& ss0 is Startup
                    &&& updated_except(old(self).stages@, final(self).stages@, idx)
                    &&& ss1 is Startup
                    &&& !has_label(ss0->Startup_0.stages@, label)
                    &&& ss1->Startup_0.stages@ == ss0->Startup_0.stages@.push((label, stage))
                    &&& ss1->Startup_0.ran == ss0->Startup_0.ran
                },
                Err(e) => final(self).stages@ == old(self).stages@ && {
                    let idx = label_index(old(self).stages@, STARTUP_SCHEDULE);
                    ||| e == ScheduleError::StageNotFound(STARTUP_SCHEDULE) && !has_label(
                        old(self).stages@,
                        STARTUP_SCHEDULE,
                    )
                    ||| e == ScheduleError::WrongStageKind(STARTUP_SCHEDULE) && has_label(
                        old(self).stages@,
                        STARTUP_SCHEDULE,
                    ) && old(self).stages@[idx].1 is Parallel
                    ||| e == ScheduleError::DuplicateStageLabel(label) && has_label(
                        old(self).stages@,
                        STARTUP_SCHEDULE,
                    ) && old(self).stages@[idx].1 is Startup && has_label(
                        (old(self).stages@[idx].1)->Startup_0.stages@,
                        label,
                    )
                },
            },
    {
        match find_label(&self.stages, STARTUP_SCHEDULE) {
            None => Err(ScheduleError::StageNotFound(STARTUP_SCHEDULE)),
            Some(i) => {
                proof {
                    lemma_label_index_agrees(self.stages@, STARTUP_SCHEDULE, i as int);
                }
                let ghost a = self.stages@;
                let entry = &mut self.stages[i];
                let r = match &mut entry.1 {
                    Stage::Startup(ss) => list_add(&mut ss.stages, label, stage),
                    Stage::Parallel(_) => Err(ScheduleError::WrongStageKind(STARTUP_SCHEDULE)),
                };
                proof {
                    if r is Err {
                        assert(self.stages@ =~= a);
                    }
                }
                r
            },
        }
    }

    /// Inserts a sub-stage immediately after the startup sub-stage
    /// labeled `target`. Refused when the startup schedule is absent,
    /// the label is taken or the target is absent.
    pub fn add_startup_stage_after(&mut self, target: u64, label: u64, stage: SystemStage) -> (r:
        Result<(), ScheduleError>)
        requires
            old(self).wf(),
        ensures
            final(self).wf(),
            match r {
                Ok(_) => {
                    let idx = label_index(old(self).stages@, STARTUP_SCHEDULE);
                    let ss0 = old(self).stages@[idx].1;
                    let ss1 = final(self).stages@[idx].1;
                    &&& has_label(old(self).stages@, STARTUP_SCHEDULE)
                    &&& ss0 is Startup
                    &&& updated_except(old(self).stages@, final(self).stages@, idx)
                    &&& ss1 is Startup
                    &&& !has_label(ss0->Startup_0.stages@, label)
                    &&& has_label(ss0->Startup_0.stages@, target)
                    &&& ss1->Startup_0.stages@ == ss0->Startup_0.stages@.insert(
                        label_index(ss0->Startup_0.stages@, target) + 1,
                        (label, stage),
                    )
                    &&& ss1->Startup_0.ran == ss0->Startup_0.ran
                },
                Err(e) => final(self).stages@ == old(self).stages@ && {
                    let idx = label_index(old(self).stages@, STARTUP_SCHEDULE);
                    ||| e == ScheduleError::StageNotFound(STARTUP_SCHEDULE) && !has_label(
                        old(self).stages@,
                        STARTUP_SCHEDULE,
                    )
                    ||| e == ScheduleError::WrongStageKind(STARTUP_SCHEDULE) && has_label(
                        old(self).stages@,
                        STARTUP_SCHEDULE,
                    ) && old(self).stages@[idx].1 is Parallel
                    ||| e == ScheduleError::DuplicateStageLabel(label) && has_label(
                        old(self).stages@,
                        STARTUP_SCHEDULE,
                    ) && old(self).stages@[idx].1 is Startup && has_label(
                        (old(self).stages@[idx].1)->Startup_0.stages@,
                        label,
                    )
                    ||| e == ScheduleError::StageNotFound(target) && has_label(
                        old(self).stages@,
                        STARTUP_SCHEDULE,
                    ) && old(self).stages@[idx].1 is Startup && !has_label(
                        (old(self).stages@[idx].1)->Startup_0.stages@,
                        target,
                    )
                },
            },
    {
        match find_label(&self.stages, STARTUP_SCHEDULE) {
            None => Err(ScheduleError::StageNotFound(STARTUP_SCHEDULE)),
            Some(i) => {
                proof {
                    lemma_label_index_agrees(self.stages@, STARTUP_SCHEDULE, i as int);
                }
                let ghost a = self.stages@;
                let entry = &mut self.stages[i];
                let r = match &mut entry.1 {
                    Stage::Startup(ss) => list_add_after(&mut ss.stages, target, label, stage),
                    Stage::Parallel(_) => Err(ScheduleError::WrongStageKind(STARTUP_SCHEDULE)),
                };
                proof {
                    if r is Err {
                        assert(self.stages@ =~= a);
                    }
                }
                r
            },
        }
    }

    /// Inserts a sub-stage immediately before the startup sub-stage
    /// labeled `target`. Refused when the startup schedule is absent,
    /// the label is taken or the target is absent.
    pub fn add_startup_stage_before(&mut self, target: u64, label: u64, stage: SystemStage) -> (r:
        Result<(), ScheduleError>)
        requires
            old(self).wf(),
        ensures
            final(self).wf(),
            match r {
                Ok(_) => {
                    let idx = label_index(old(self).stages@, STARTUP_SCHEDULE);
                    let ss0 = old(self).stages@[idx].1;
                    let ss1 = final(self).stages@[idx].1;
                    &&& has_label(old(self).stages@, STARTUP_SCHEDULE)
                    &&& ss0 is Startup
                    &&& updated_except(old(self).stages@, final(self).stages@, idx)
                    &&& ss1 is Startup
                    &&& !has_label(ss0->Startup_0.stages@, label)
                    &&& has_label(ss0->Startup_0.stages@, target)
                    &&& ss1->Startup_0.stages@ == ss0->Startup_0.stages@.insert(
                        label_index(ss0->Startup_0.stages@, target),
                        (label, stage),
                    )
                    &&& ss1->Startup_0.ran == ss0->Startup_0.ran
                },
                Err(e) => final(self).stages@ == old(self).stages@ && {
                    let idx = label_index(old(self).stages@, STARTUP_SCHEDULE);
                    ||| e == ScheduleError::StageNotFound(STARTUP_SCHEDULE) && !has_label(
                        old(self).stages@,
                        STARTUP_SCHEDULE,
                    )
                    ||| e == ScheduleError::WrongStageKind(STARTUP_SCHEDULE) && has_label(
                        old(self).stages@,
                        STARTUP_SCHEDULE,
                    ) && old(self).stages@[idx].1 is Parallel
                    ||| e == ScheduleError::DuplicateStageLabel(label) && has_label(
                        old(self).stages@,
                        STARTUP_SCHEDULE,
                    ) && old(self).stages@[idx].1 is Startup && has_label(
                        (old(self).stages@[idx].1)->Startup_0.stages@,
                        label,
                    )
                    ||| e == ScheduleError::StageNotFound(target) && has_label(
                        old(self).stages@,
                        STARTUP_SCHEDULE,
                    ) && old(self).stages@[idx].1 is Startup && !has_label(
                        (old(self).stages@[idx].1)->Startup_0.stages@,
                        target,
                    )
                },
            },
    {
        match find_label(&self.stages, STARTUP_SCHEDULE) {
            None => Err(ScheduleError::StageNotFound(STARTUP_SCHEDULE)),
            Some(i) => {
                proof {
                    lemma_label_index_agrees(self.stages@, STARTUP_SCHEDULE, i as int);
                }
                let ghost a = self.stages@;
                let entry = &mut self.stages[i];
                let r = match &mut entry.1 {
                    Stage::Startup(ss) => list_add_before(&mut ss.stages, target, label, stage),
                    Stage::Parallel(_) => Err(ScheduleError::WrongStageKind(STARTUP_SCHEDULE)),
                };
                proof {
                    if r is Err {
                        assert(self.stages@ =~= a);
                    }
                }
                r
            },
        }
    }

    /// Appends a system to the startup sub-stage labeled `stage_label`.
    /// Refused when the startup schedule or the sub-stage is absent.
    pub fn add_startup_system_to_stage(&mut self, stage_label: u64, sys: SystemDesc) -> (r: Result<
        (),
        ScheduleError,
    >)
        requires
            old(self).wf(),
        ensures
            final(self).wf(),
            match r {
                Ok(_) => {
                    let idx = label_index(old(self).stages@, STARTUP_SCHEDULE);
                    let ss0 = old(self).stages@[idx].1;
                    let ss1 = final(self).stages@[idx].1;
                    let inner0 = ss0->Startup_0.stages@;
                    let inner1 = ss1->Startup_0.stages@;
                    let jdx = label_index(inner0, stage_label);
                    &&& has_label(old(self).stages@, STARTUP_SCHEDULE)
                    &&& ss0 is Startup
                    &&& updated_except(old(self).stages@, final(self).stages@, idx)
                    &&& ss1 is Startup
                    &&& has_label(inner0, stage_label)
                    &&& updated_except(inner0, inner1, jdx)
                    &&& inner1[jdx].1.systems@ == inner0[jdx].1.systems@.push(sys)
                    &&& inner1[jdx].1.drivers@ == inner0[jdx].1.drivers@
                    &&& ss1->Startup_0.ran == ss0->Startup_0.ran
                },
                Err(e) => final(self).stages@ == old(self).stages@ && {
                    let idx = label_index(old(self).stages@, STARTUP_SCHEDULE);
                    ||| e == ScheduleError::StageNotFound(STARTUP_SCHEDULE) && !has_label(
                        old(self).stages@,
                        STARTUP_SCHEDULE,
                    )
                    ||| e == ScheduleError::WrongStageKind(STARTUP_SCHEDULE) && has_label(
                        old(self).stages@,
                        STARTUP_SCHEDULE,
                    ) && old(self).stages@[idx].1 is Parallel
                    ||| e == ScheduleError::StageNotFound(stage_label) && has_label(
                        old(self).stages@,
                        STARTUP_SCHEDULE,
                    ) && old(self).stages@[idx].1 is Startup && !has_label(
                        (old(self).stages@[idx].1)->Startup_0.stages@,
                        stage_label,
                    )
                },
            },
    {
        match find_label(&self.stages, STARTUP_SCHEDULE) {
            None => Err(ScheduleError::StageNotFound(STARTUP_SCHEDULE)),
            Some(i) => {
                proof {
                    lemma_label_index_agrees(self.stages@, STARTUP_SCHEDULE, i as int);
                }
                let ghost a = self.stages@;
                let entry = &mut self.stages[i];
                let r = match &mut entry.1 {
                    Stage::Startup(ss) => {
                        match find_label(&ss.stages, stage_label) {
                            None => Err(ScheduleError::StageNotFound(stage_label)),
                            Some(j) => {
                                proof {
                                    lemma_label_index_agrees(ss.stages@, stage_label, j as int);
                                }
                                let inner = &mut ss.stages[j];
                                inner.1.add_system(sys);
                                Ok(())
                            },
                        }
                    },
                    Stage::Parallel(_) => Err(ScheduleError::WrongStageKind(STARTUP_SCHEDULE)),
                };
                proof {
                    if r is Err {
                        assert(self.stages@ =~= a);
                    }
                }
                r
            },
        }
    }

    /// Appends every member of a set to the startup sub-stage labeled
    /// `stage_label`, the set's scope merged in. Refused when the
    /// startup schedule or the sub-stage is absent.
    pub fn add_startup_system_set_to_stage(&mut self, stage_label: u64, set: SystemSet) -> (r:
        Result<(), ScheduleError>)
        requires
            old(self).wf(),
        ensures
            final(self).wf(),
            match r {
                Ok(_) => {
                    let idx = label_index(old(self).stages@, STARTUP_SCHEDULE);
                    let ss0 = old(self).stages@[idx].1;
                    let ss1 = final(self).stages@[idx].1;
                    let inner0 = ss0->Startup_0.stages@;
                    let inner1 = ss1->Startup_0.stages@;
                    let jdx = label_index(inner0, stage_label);
                    &&& has_label(old(self).stages@, STARTUP_SCHEDULE)
                    &&& ss0 is Startup
                    &&& updated_except(old(self).stages@, final(self).stages@, idx)
                    &&& ss1 is Startup
                    &&& has_label(inner0, stage_label)
                    &&& updated_except(inner0, inner1, jdx)
                    &&& inner1[jdx].1.systems@.len() == inner0[jdx].1.systems@.len()
                        + set.systems@.len()
                    &&& inner1[jdx].1.systems@.take(inner0[jdx].1.systems@.len() as int)
                        == inner0[jdx].1.systems@
                    &&& merged_members(
                        set,
                        inner1[jdx].1.systems@.skip(inner0[jdx].1.systems@.len() as int),
                    )
                    &&& inner1[jdx].1.drivers@ == inner0[jdx].1.drivers@
                    &&& ss1->Startup_0.ran == ss0->Startup_0.ran
                },
                Err(e) => final(self).stages@ == old(self).stages@ && {
                    let idx = label_index(old(self).stages@, STARTUP_SCHEDULE);
                    ||| e == ScheduleError::StageNotFound(STARTUP_SCHEDULE) && !has_label(
                        old(self).stages@,
                        STARTUP_SCHEDULE,
                    )
                    ||| e == ScheduleError::WrongStageKind(STARTUP_SCHEDULE) && has_label(
                        old(self).stages@,
                        STARTUP_SCHEDULE,
                    ) && old(self).stages@[idx].1 is Parallel
                    ||| e == ScheduleError::StageNotFound(stage_label) && has_label(
                        old(self).stages@,
                        STARTUP_SCHEDULE,
                    ) && old(self).stages@[idx].1 is Startup && !has_label(
                        (old(self).stages@[idx].1)->Startup_0.stages@,
                        stage_label,
                    )
                },
            },
    {
        match find_label(&self.stages, STARTUP_SCHEDULE) {
            None => Err(ScheduleError::StageNotFound(STARTUP_SCHEDULE)),
            Some(i) => {
                proof {
                    lemma_label_index_agrees(self.stages@, STARTUP_SCHEDULE, i as int);
                }
                let ghost a = self.stages@;
                let entry = &mut self.stages[i];
                let r = match &mut entry.1 {
                    Stage::Startup(ss) => {
                        match find_label(&ss.stages, stage_label) {
                            None => Err(ScheduleError::StageNotFound(stage_label)),
                            Some(j) => {
                                proof {
                                    lemma_label_index_agrees(ss.stages@, stage_label, j as int);
                                }
                                let inner = &mut ss.stages[j];
                                inner.1.add_system_set(set);
                                Ok(())
                            },
                        }
                    },
                    Stage::Parallel(_) => Err(ScheduleError::WrongStageKind(STARTUP_SCHEDULE)),
                };
                proof {
                    if r is Err {
                        assert(self.stages@ =~= a);
                    }
                }
                r
            },
        }
    }
}

impl Schedule {
    /// Runs every stage, in list order, to completion: each parallel
    /// stage is planned and executed against the world; the startup
    /// schedule runs each of its sub-stages once, is marked as having
    /// run, and is skipped on every later tick.
    ///
    /// Returns the trace of stage runs: its labels and systems are
    /// exactly those the schedule owed this tick ([`expected_runs`]),
    /// every traced plan was correct for the world at its stage's entry
    /// ([`trace_valid`]), and the world ends as the traced plans dictate
    /// ([`trace_world`]). Fails only on a dependency cycle, a fatal
    /// configuration error.
    #[verifier::loop_isolation(false)]
    #[verifier::rlimit(100)]
    pub fn run(&mut self, world: &mut World) -> (r: Result<Vec<StageRun>, ScheduleError>)
        requires
            old(self).wf(),
            old(world).wf(),
        ensures
            final(self).wf(),
            final(world).wf(),
            same_except_ran(old(self).stages@, final(self).stages@),
            match r {
                Ok(trace) => {
                    &&& startup_all_ran(final(self).stages@)
                    &&& trace_view(trace@) == expected_runs(old(self).stages@)
                    &&& trace_valid(old(world)@, trace@)
                    &&& final(world)@ == trace_world(old(world)@, trace@)
                },
                Err(e) => e is DependencyCycle && !edge_free(old(self).stages@),
            },
    {
        let ghost m0 = world@;
        let ghost s0 = self.stages@;
        let mut trace: Vec<StageRun> = Vec::new();
        let mut i: usize = 0;
        let n = self.stages.len();
        while i < n
            invariant
                i <= n,
                self.stages@.len() == n,
                world.wf(),
                self.wf(),
                same_except_ran(s0, self.stages@),
                forall|t: int| i <= t < n ==> self.stages@[t] == s0[t],
                forall|t: int|
                    0 <= t < i && (#[trigger] self.stages@[t]).1 is Startup ==> (
                    self.stages@[t].1)->Startup_0.ran,
                trace_view(trace@) == expected_runs(s0.take(i as int)),
                trace_valid(m0, trace@),
                world@ == trace_world(m0, trace@),
            decreases n - i,
        {
            let ghost trace0 = trace@;
            let is_startup = match &self.stages[i].1 {
                Stage::Startup(_) => true,
                Stage::Parallel(_) => false,
            };
            if !is_startup {
                let label = self.stages[i].0;
                match &self.stages[i].1 {
                    Stage::Parallel(st) => {
                        match st.run(world) {
                            Ok(plan) => {
                                trace.push(
                                    StageRun {
                                        label,
                                        plan,
                                        systems: Ghost(st.systems@),
                                        drivers: Ghost(st.drivers@),
                                    },
                                );
                            },
                            Err(e) => {
                                proof {
                                    if edge_free(s0) {
                                        assert(s0[i as int].1 is Parallel);
                                        assert(systems_edge_free(
                                            (s0[i as int].1)->Parallel_0.systems@,
                                        ));
                                    }
                                }
                                return Err(e);
                            },
                        }
                    },
                    Stage::Startup(_) => {
                        unreached::<()>();
                    },
                }
                proof {
                    lemma_expected_push(s0, i as int);
                    let e = trace@.last();
                    assert(trace@.drop_last() =~= trace0);
                    assert(trace_view(trace@) =~= trace_view(trace0).push(run_view(e)));
                    assert(stage_runs(s0[i as int]) =~= seq![run_view(e)]);
                    assert(trace_view(trace@) =~= expected_runs(s0.take(i + 1 as int)));
                    assert forall|k: int| 0 <= k < trace@.len() implies valid_plan(
                        (#[trigger] trace@[k]).systems@,
                        runnable_mask_spec(
                            trace@[k].systems@,
                            trace_world(m0, trace@.take(k)),
                            trace@[k].drivers@,
                        ),
                        plan_view(trace@[k].plan),
                    ) by {
                        if k < trace@.len() - 1 {
                            assert(trace@.take(k) =~= trace0.take(k));
                            assert(trace@[k] == trace0[k]);
                        } else {
                            assert(trace@.take(k) =~= trace0);
                        }
                    }
                }
            } else {
                let ran_before = match &self.stages[i].1 {
                    Stage::Startup(ss) => ss.ran,
                    Stage::Parallel(_) => unreached(),
                };
                if !ran_before {
                    let ghost s_pre = self.stages@;
                    {
                        let entry = &mut self.stages[i];
                        match &mut entry.1 {
                            Stage::Startup(ss) => {
                                ss.ran = true;
                            },
                            Stage::Parallel(_) => {},
                        }
                    }
                    let inner_len = match &self.stages[i].1 {
                        Stage::Startup(ss) => ss.stages.len(),
                        Stage::Parallel(_) => unreached(),
                    };
                    let ghost inner_runs = stage_runs(s0[i as int]);
                    let ghost s_mid = self.stages@;
                    proof {
                        assert(same_except_ran(s0, s_mid));
                        assert(inner_runs.len() == inner_len);
                    }
                    let mut j: usize = 0;
                    while j < inner_len
                        invariant
                            j <= inner_len,
                            self.stages@ == s_mid,
                            world.wf(),
                            trace_view(trace@) == expected_runs(s0.take(i as int))
                                + inner_runs.take(j as int),
                            trace_valid(m0, trace@),
                            world@ == trace_world(m0, trace@),
                        decreases inner_len - j,
                    {
                        let ghost trace1 = trace@;
                        match &self.stages[i].1 {
                            Stage::Startup(ss) => {
                                let label2 = ss.stages[j].0;
                                match ss.stages[j].1.run(world) {
                                    Ok(plan) => {
                                        trace.push(
                                            StageRun {
                                                label: label2,
                                                plan,
                                                systems: Ghost(ss.stages@[j as int].1.systems@),
                                                drivers: Ghost(ss.stages@[j as int].1.drivers@),
                                            },
                                        );
                                    },
                                    Err(e) => {
                                        proof {
                                            if edge_free(s0) {
                                                assert(s0[i as int].1 is Startup);
                                                let inner0 = (s0[i as int].1)->Startup_0.stages@;
                                                assert(systems_edge_free(
                                                    inner0[j as int].1.systems@,
                                                ));
                                            }
                                        }
                                        return Err(e);
                                    },
                                }
                            },
                            Stage::Parallel(_) => {
                                unreached::<()>();
                            },
                        }
                        proof {
                            let e = trace@.last();
                            assert(trace@.drop_last() =~= trace1);
                            assert(trace_view(trace@) =~= trace_view(trace1).push(run_view(e)));
                            assert((s_mid[i as int].1)->Startup_0.stages@[j as int] == (
                            s0[i as int].1)->Startup_0.stages@[j as int]);
                            assert(inner_runs[j as int] == run_view(e));
                            assert(inner_runs.take(j + 1 as int) =~= inner_runs.take(
                                j as int,
                            ).push(inner_runs[j as int]));
                            assert(trace_view(trace@) =~= expected_runs(s0.take(i as int))
                                + inner_runs.take(j + 1 as int));
                            assert forall|k: int| 0 <= k < trace@.len() implies valid_plan(
                                (#[trigger] trace@[k]).systems@,
                                runnable_mask_spec(
                                    trace@[k].systems@,
                                    trace_world(m0, trace@.take(k)),
                                    trace@[k].drivers@,
                                ),
                                plan_view(trace@[k].plan),
                            ) by {
                                if k < trace@.len() - 1 {
                                    assert(trace@.take(k) =~= trace1.take(k));
                                    assert(trace@[k] == trace1[k]);
                                } else {
                                    assert(trace@.take(k) =~= trace1);
                                }
                            }
                        }
                        j = j + 1;
                    }
                    proof {
                        lemma_expected_push(s0, i as int);
                        assert(inner_runs.take(inner_len as int) =~= inner_runs);
                        assert(trace_view(trace@) =~= expected_runs(s0.take(i + 1 as int)));
                    }
                } else {
                    proof {
                        lemma_expected_push(s0, i as int);
                        assert(stage_runs(s0[i as int]) =~= Seq::empty());
                        assert(trace_view(trace@) =~= expected_runs(s0.take(i + 1 as int)));
                    }
                }
            }
            i = i + 1;
        }
        proof {
            assert(s0.take(n as int) =~= s0);
        }
        Ok(trace)
    }
}

/// Label membership after a push.
pub proof fn lemma_has_label_push<S>(s: Seq<(u64, S)>, e: (u64, S), l: u64)
    ensures
        has_label(s.push(e), l) == (has_label(s, l) || e.0 == l),
{
    if has_label(s.push(e), l) {
        let i = choose|i: int| 0 <= i < s.push(e).len() && s.push(e)[i].0 == l;
        if i < s.len() {
            assert(s[i].0 == l);
        }
    }
    if has_label(s, l) {
        let i = choose|i: int| 0 <= i < s.len() && s[i].0 == l;
        assert(s.push(e)[i].0 == l);
    }
    if e.0 == l {
        assert(s.push(e)[s.len() as int].0 == l);
    }
}

/// The runs a tick owes for its parallel stages alone.
pub open spec fn expected_parallel_runs(stages: Seq<(u64, Stage)>) -> Seq<
    (u64, Seq<SystemDesc>, Seq<u64>),
>
    decreases stages.len(),
{
    if stages.len() == 0 {
        Seq::empty()
    } else {
        expected_parallel_runs(stages.drop_last()) + (match stages.last().1 {
            Stage::Parallel(st) => seq![(stages.last().0, st.systems@, st.drivers@)],
            Stage::Startup(_) => Seq::empty(),
        })
    }
}

/// Once the startup schedule has run it is spent: every later tick owes
/// runs for the parallel stages only, and none for the startup
/// sub-stages. Together with [`Schedule::run`]'s promise that a run
/// marks the startup schedule as having run, startup systems execute
/// exactly once however many times the app is updated.
pub proof fn lemma_startup_runs_once(stages: Seq<(u64, Stage)>)
    requires
        startup_all_ran(stages),
    ensures
        expected_runs(stages) == expected_parallel_runs(stages),
    decreases stages.len(),
{
    if stages.len() > 0 {
        assert(startup_all_ran(stages.drop_last())) by {
            assert forall|i: int|
                0 <= i < stages.drop_last().len() && (#[trigger] stages.drop_last()[i]).1
                    is Startup implies (stages.drop_last()[i].1)->Startup_0.ran by {
                assert(stages.drop_last()[i] == stages[i]);
            }
        }
        lemma_startup_runs_once(stages.drop_last());
        assert(stages.last() == stages[stages.len() - 1]);
        if stages.last().1 is Startup {
            assert(stage_runs(stages.last()) =~= Seq::<(u64, Seq<SystemDesc>, Seq<u64>)>::empty());
        }
    }
}

/// A schedule left untouched trivially keeps its stages.
pub proof fn lemma_same_except_ran_reflexive(s: Seq<(u64, Stage)>)
    ensures
        same_except_ran(s, s),
{
    assert forall|i: int|
        0 <= i < s.len() implies {
        let p = #[trigger] s[i];
        let q = s[i];
        q.0 == p.0 && match (p.1, q.1) {
            (Stage::Parallel(x), Stage::Parallel(y)) => y == x,
            (Stage::Startup(x), Stage::Startup(y)) => y.stages@ == x.stages@,
            _ => false,
        }
    } by {
        match s[i].1 {
            Stage::Parallel(_) => {},
            Stage::Startup(_) => {},
        }
    }
}

} // verus!
