//! Parallel stages and the conflict/ordering scheduler.
//!
//! A stage owns an ordered collection of systems. Before each run the
//! stage is planned: systems are grouped into waves such that every
//! explicit ordering edge crosses from an earlier wave to a later one, no
//! two systems in one wave conflict on declared access, and an exclusive
//! system sits alone in its wave. Waves run in order; within a wave the
//! systems are free to run concurrently or in any order, which is sound
//! because non-conflicting effects commute.

use crate::system::{
    apply_effect, apply_effect_model, effect_resource, lemma_effect_frame,
    lemma_nonconflicting_effects_commute, merged_member, merged_members, system_wf,
    systems_conflict, systems_conflict_exec, vec_contains, SystemDesc, SystemKind, SystemSet,
};
use crate::system::Effect;
use crate::world::{add_clamped, ResourceModel, World};
use vstd::prelude::*;

verus! {

/// Errors of schedule construction and planning.
#[derive(Debug, PartialEq, Eq)]
pub enum ScheduleError {
    /// No stage carries the given label.
    StageNotFound(u64),
    /// A stage with the given label already exists.
    DuplicateStageLabel(u64),
    /// The stage with the given label is not of the expected kind.
    WrongStageKind(u64),
    /// The explicit ordering constraints of the named systems cannot be
    /// satisfied: each of them waits on another one of them.
    DependencyCycle(Vec<u64>),
}

/// Explicit ordering edge: `i` must run before `j`, because `i` says so
/// with `before` or `j` says so with `after`.
pub open spec fn edge(systems: Seq<SystemDesc>, i: int, j: int) -> bool {
    systems[i].before@.contains(systems[j].id) || systems[j].after@.contains(systems[i].id)
}

/// Whether a system is gated off this tick. A system scoped to a state
/// value runs, in a stage driving that state resource, only while the
/// state's current value matches; in a stage without the driver the scope
/// is inert, and a scope against a missing or non-state resource never
/// matches.
pub open spec fn spec_runnable(
    s: SystemDesc,
    m: Map<u64, ResourceModel>,
    drivers: Seq<u64>,
) -> bool {
    match s.run_if_state {
        None => true,
        Some((res, v)) => {
            if drivers.contains(res) {
                m.dom().contains(res) && m[res] is State && m[res]->State_0.last() == v
            } else {
                true
            }
        },
    }
}

/// All waves of a plan, flattened in run order.
pub open spec fn flat_plan(plan: Seq<Seq<usize>>) -> Seq<usize>
    decreases plan.len(),
{
    if plan.len() == 0 {
        Seq::empty()
    } else {
        flat_plan(plan.drop_last()) + plan.last()
    }
}

/// Every listed index names a system runnable this tick.
pub open spec fn plan_entries_ok(
    systems: Seq<SystemDesc>,
    runnable: Seq<bool>,
    plan: Seq<Seq<usize>>,
) -> bool {
    forall|w: int, k: int|
        0 <= w < plan.len() && 0 <= k < plan[w].len() ==> #[trigger] plan[w][k] < systems.len()
            && runnable[plan[w][k] as int]
}

/// No system is listed twice anywhere in the plan.
pub open spec fn plan_distinct(plan: Seq<Seq<usize>>) -> bool {
    forall|w1: int, k1: int, w2: int, k2: int|
        0 <= w1 < plan.len() && 0 <= k1 < plan[w1].len() && 0 <= w2 < plan.len() && 0 <= k2
            < plan[w2].len() && (w1 != w2 || k1 != k2) ==> #[trigger] plan[w1][k1]
            != #[trigger] plan[w2][k2]
}

/// Every runnable system is listed somewhere in the plan.
pub open spec fn plan_complete(
    systems: Seq<SystemDesc>,
    runnable: Seq<bool>,
    plan: Seq<Seq<usize>>,
) -> bool {
    forall|i: int| 0 <= i < systems.len() && runnable[i] ==> flat_plan(plan).contains(i as usize)
}

/// Within one wave nothing conflicts, and an exclusive system is alone.
pub open spec fn plan_waves_ok(systems: Seq<SystemDesc>, plan: Seq<Seq<usize>>) -> bool {
    &&& forall|w: int, k1: int, k2: int|
        0 <= w < plan.len() && 0 <= k1 < plan[w].len() && 0 <= k2 < plan[w].len() && k1 != k2
            ==> !systems_conflict(
            &systems[#[trigger] plan[w][k1] as int],
            &systems[#[trigger] plan[w][k2] as int],
        )
    &&& forall|w: int, k: int|
        0 <= w < plan.len() && 0 <= k < plan[w].len() && systems[#[trigger] plan[w][k] as int].kind
            is Exclusive ==> plan[w].len() == 1
}

/// Every explicit ordering edge between listed systems crosses strictly
/// forward between waves.
pub open spec fn plan_edges_forward(systems: Seq<SystemDesc>, plan: Seq<Seq<usize>>) -> bool {
    forall|w1: int, k1: int, w2: int, k2: int|
        0 <= w1 < plan.len() && 0 <= k1 < plan[w1].len() && 0 <= w2 < plan.len() && 0 <= k2
            < plan[w2].len() && edge(
            systems,
            #[trigger] plan[w1][k1] as int,
            #[trigger] plan[w2][k2] as int,
        ) ==> w1 < w2
}

/// What a correct plan promises, given the systems of the stage and the
/// mask of systems runnable this tick:
/// every listed index is a runnable system; no index is listed twice;
/// every runnable system is listed; two systems in one wave never
/// conflict and are never explicitly ordered against each other; an
/// exclusive system is alone in its wave; and every explicit ordering
/// edge between runnable systems crosses strictly forward between waves.
pub open spec fn valid_plan(
    systems: Seq<SystemDesc>,
    runnable: Seq<bool>,
    plan: Seq<Seq<usize>>,
) -> bool {
    &&& plan_entries_ok(systems, runnable, plan)
    &&& plan_distinct(plan)
    &&& plan_complete(systems, runnable, plan)
    &&& plan_waves_ok(systems, plan)
    &&& plan_edges_forward(systems, plan)
}

/// A witness that the ordering constraints cannot be satisfied: a
/// nonempty set of runnable systems, each of which must run after another
/// member of the set.
pub open spec fn stuck_set(
    systems: Seq<SystemDesc>,
    runnable: Seq<bool>,
    stuck: Seq<usize>,
) -> bool {
    &&& stuck.len() > 0
    &&& forall|k: int| 0 <= k < stuck.len() ==> #[trigger] stuck[k] < systems.len()
        && runnable[stuck[k] as int]
    &&& forall|k: int|
        0 <= k < stuck.len() ==> exists|k2: int|
            0 <= k2 < stuck.len() && edge(
                systems,
                #[trigger] stuck[k2] as int,
                #[trigger] stuck[k] as int,
            )
}

/// Whether runnable, unscheduled system `j` still waits on a runnable,
/// unscheduled predecessor.
pub open spec fn has_unscheduled_pred(
    systems: Seq<SystemDesc>,
    runnable: Seq<bool>,
    scheduled: Seq<bool>,
    j: int,
) -> bool {
    exists|p: int|
        0 <= p < systems.len() && runnable[p] && !scheduled[p] && #[trigger] edge(systems, p, j)
}

/// Count of runnable, not yet scheduled systems among the first `upto`.
pub open spec fn unscheduled_count(runnable: Seq<bool>, scheduled: Seq<bool>, upto: int) -> nat
    decreases upto,
{
    if upto <= 0 {
        0
    } else {
        unscheduled_count(runnable, scheduled, upto - 1) + (if runnable[upto - 1] && !scheduled[upto
            - 1] {
            1nat
        } else {
            0nat
        })
    }
}

/// Scheduling one runnable, unscheduled system lowers the count by one.
proof fn lemma_unscheduled_count_update(
    runnable: Seq<bool>,
    scheduled: Seq<bool>,
    i: int,
    upto: int,
)
    requires
        0 <= i < scheduled.len(),
        runnable.len() == scheduled.len(),
        upto <= scheduled.len(),
        runnable[i],
        !scheduled[i],
    ensures
        i < upto ==> unscheduled_count(runnable, scheduled.update(i, true), upto)
            == unscheduled_count(runnable, scheduled, upto) - 1,
        i >= upto ==> unscheduled_count(runnable, scheduled.update(i, true), upto)
            == unscheduled_count(runnable, scheduled, upto),
    decreases upto,
{
    if upto > 0 {
        lemma_unscheduled_count_update(runnable, scheduled, i, upto - 1);
    }
}

/// The count over a prefix never exceeds the prefix length and is
/// positive as soon as one runnable unscheduled system is in it.
proof fn lemma_unscheduled_count_bounds(runnable: Seq<bool>, scheduled: Seq<bool>, upto: int)
    requires
        0 <= upto <= runnable.len(),
        runnable.len() == scheduled.len(),
    ensures
        unscheduled_count(runnable, scheduled, upto) <= upto,
        forall|i: int|
            0 <= i < upto && runnable[i] && !scheduled[i] ==> unscheduled_count(
                runnable,
                scheduled,
                upto,
            ) > 0,
    decreases upto,
{
    if upto > 0 {
        lemma_unscheduled_count_bounds(runnable, scheduled, upto - 1);
    }
}

/// A positive count has a runnable unscheduled witness.
proof fn lemma_unscheduled_count_pos(runnable: Seq<bool>, scheduled: Seq<bool>, upto: int)
    requires
        0 <= upto <= runnable.len(),
        runnable.len() == scheduled.len(),
        unscheduled_count(runnable, scheduled, upto) > 0,
    ensures
        exists|i: int| 0 <= i < upto && runnable[i] && !scheduled[i],
    decreases upto,
{
    if upto > 0 {
        if runnable[upto - 1] && !scheduled[upto - 1] {
        } else {
            lemma_unscheduled_count_pos(runnable, scheduled, upto - 1);
        }
    }
}

/// The waves of an executable plan, as sequences.
pub open spec fn plan_view(plan: Vec<Vec<usize>>) -> Seq<Seq<usize>> {
    plan@.map_values(|v: Vec<usize>| v@)
}

/// Flattening distributes over appending one wave.
pub proof fn lemma_flat_push(plan: Seq<Seq<usize>>, wave: Seq<usize>)
    ensures
        flat_plan(plan.push(wave)) == flat_plan(plan) + wave,
{
    assert(plan.push(wave).drop_last() =~= plan);
    assert(plan.push(wave).last() == wave);
}

/// Membership in a concatenation.
pub proof fn lemma_append_contains(a: Seq<usize>, b: Seq<usize>)
    ensures
        forall|x: usize| #[trigger] (a + b).contains(x) <==> a.contains(x) || b.contains(x),
{
    assert forall|x: usize| #[trigger] (a + b).contains(x) implies a.contains(x) || b.contains(
        x,
    ) by {
        let i = choose|i: int| 0 <= i < (a + b).len() && (a + b)[i] == x;
        if i < a.len() {
            assert(a[i] == x);
        } else {
            assert(b[i - a.len()] == x);
        }
    }
    assert forall|x: usize| a.contains(x) || b.contains(x) implies #[trigger] (a + b).contains(
        x,
    ) by {
        if a.contains(x) {
            let i = choose|i: int| 0 <= i < a.len() && a[i] == x;
            assert((a + b)[i] == x);
        } else {
            let i = choose|i: int| 0 <= i < b.len() && b[i] == x;
            assert((a + b)[a.len() + i] == x);
        }
    }
}

/// Whether system `i` must run before system `j`.
pub fn edge_exec(systems: &Vec<SystemDesc>, i: usize, j: usize) -> (r: bool)
    requires
        i < systems@.len(),
        j < systems@.len(),
    ensures
        r == edge(systems@, i as int, j as int),
{
    vec_contains(&systems[i].before, systems[j].id) || vec_contains(
        &systems[j].after,
        systems[i].id,
    )
}

/// Builds one wave: scans the systems in index order and admits each
/// runnable, unscheduled system whose runnable unscheduled predecessors
/// are all already scheduled and which neither conflicts with a system
/// already in the wave nor breaks the exclusive-runs-alone rule.
///
/// An empty result means every runnable unscheduled system still waits on
/// a runnable unscheduled predecessor.
#[verifier::loop_isolation(false)]
#[verifier::rlimit(60)]
fn build_wave(systems: &Vec<SystemDesc>, runnable: &Vec<bool>, scheduled: &Vec<bool>) -> (wave: Vec<
    usize,
>)
    requires
        runnable@.len() == systems@.len(),
        scheduled@.len() == systems@.len(),
    ensures
        forall|k1: int, k2: int|
            0 <= k1 < k2 < wave@.len() ==> #[trigger] wave@[k1] < #[trigger] wave@[k2],
        forall|k: int|
            0 <= k < wave@.len() ==> #[trigger] wave@[k] < systems@.len()
                && runnable@[wave@[k] as int] && !scheduled@[wave@[k] as int],
        forall|k1: int, k2: int|
            0 <= k1 < wave@.len() && 0 <= k2 < wave@.len() && k1 != k2 ==> !systems_conflict(
                &systems@[#[trigger] wave@[k1] as int],
                &systems@[#[trigger] wave@[k2] as int],
            ),
        forall|k: int|
            0 <= k < wave@.len() && systems@[#[trigger] wave@[k] as int].kind is Exclusive
                ==> wave@.len() == 1,
        forall|k: int, i2: int|
            0 <= k < wave@.len() && 0 <= i2 < systems@.len() && runnable@[i2] && !scheduled@[i2]
                ==> !(#[trigger] edge(systems@, i2, wave@[k] as int)),
        wave@.len() == 0 ==> forall|j: int|
            0 <= j < systems@.len() && runnable@[j] && !scheduled@[j]
                ==> #[trigger] has_unscheduled_pred(systems@, runnable@, scheduled@, j),
{
    let n = systems.len();
    let mut wave: Vec<usize> = Vec::new();
    let mut i: usize = 0;
    while i < n
        invariant
            i <= n,
            forall|k: int| 0 <= k < wave@.len() ==> #[trigger] wave@[k] < i,
            forall|k1: int, k2: int|
                0 <= k1 < k2 < wave@.len() ==> #[trigger] wave@[k1] < #[trigger] wave@[k2],
            forall|k: int|
                0 <= k < wave@.len() ==> runnable@[#[trigger] wave@[k] as int]
                    && !scheduled@[wave@[k] as int],
            forall|k1: int, k2: int|
                0 <= k1 < wave@.len() && 0 <= k2 < wave@.len() && k1 != k2 ==> !systems_conflict(
                    &systems@[#[trigger] wave@[k1] as int],
                    &systems@[#[trigger] wave@[k2] as int],
                ),
            forall|k: int|
                0 <= k < wave@.len() && systems@[#[trigger] wave@[k] as int].kind is Exclusive
                    ==> wave@.len() == 1,
            forall|k: int, i2: int|
                0 <= k < wave@.len() && 0 <= i2 < n && runnable@[i2] && !scheduled@[i2] ==> !(
                #[trigger] edge(systems@, i2, wave@[k] as int)),
            wave@.len() == 0 ==> forall|j: int|
                0 <= j < i && runnable@[j] && !scheduled@[j]
                    ==> #[trigger] has_unscheduled_pred(systems@, runnable@, scheduled@, j),
        decreases n - i,
    {
        if runnable[i] && !scheduled[i] {
            let is_exclusive = match &systems[i].kind {
                SystemKind::Exclusive => true,
                _ => false,
            };
            let mut blocked: bool = is_exclusive && wave.len() > 0;
            let ghost b0 = blocked;
            let mut j2: usize = 0;
            while j2 < n
                invariant
                    j2 <= n,
                    blocked == (b0 || exists|jj: int|
                        0 <= jj < j2 && runnable@[jj] && !scheduled@[jj] && #[trigger] edge(
                            systems@,
                            jj,
                            i as int,
                        )),
                decreases n - j2,
            {
                if runnable[j2] && !scheduled[j2] && edge_exec(systems, j2, i) {
                    blocked = true;
                }
                j2 = j2 + 1;
            }
            let ghost b1 = blocked;
            let mut kk: usize = 0;
            while kk < wave.len()
                invariant
                    kk <= wave@.len(),
                    blocked == (b1 || exists|m: int|
                        0 <= m < kk && #[trigger] systems_conflict(
                            &systems@[wave@[m] as int],
                            &systems@[i as int],
                        )),
                decreases wave@.len() - kk,
            {
                if systems_conflict_exec(&systems[wave[kk]], &systems[i]) {
                    blocked = true;
                }
                kk = kk + 1;
            }
            if blocked {
                proof {
                    if wave@.len() == 0 {
                        let jj = choose|jj: int|
                            0 <= jj < n && runnable@[jj] && !scheduled@[jj] && #[trigger] edge(
                                systems@,
                                jj,
                                i as int,
                            );
                        assert(edge(systems@, jj, i as int));
                        assert(has_unscheduled_pred(systems@, runnable@, scheduled@, i as int));
                    }
                }
            } else {
                proof {
                    assert forall|k1: int|
                        0 <= k1 < wave@.len() implies !systems_conflict(
                        &systems@[i as int],
                        &systems@[wave@[k1] as int],
                    ) && !systems_conflict(
                        &systems@[wave@[k1] as int],
                        &systems@[i as int],
                    ) by {
                        crate::system::lemma_conflict_symmetric(
                            &systems@[wave@[k1] as int],
                            &systems@[i as int],
                        );
                    }
                }
                wave.push(i);
            }
        }
        i = i + 1;
    }
    wave
}

/// The runnable unscheduled systems, when each waits on another, form a
/// stuck set, and their identities are the mapped sequence.
proof fn lemma_stuck_set_ok(
    systems: Seq<SystemDesc>,
    runnable: Seq<bool>,
    scheduled: Seq<bool>,
    stuck: Seq<usize>,
    pos: Seq<usize>,
    ids: Seq<u64>,
)
    requires
        runnable.len() == systems.len(),
        scheduled.len() == systems.len(),
        pos.len() == systems.len(),
        ids.len() == stuck.len(),
        unscheduled_count(runnable, scheduled, systems.len() as int) > 0,
        forall|j: int|
            0 <= j < systems.len() && runnable[j] && !scheduled[j]
                ==> #[trigger] has_unscheduled_pred(systems, runnable, scheduled, j),
        forall|k: int|
            0 <= k < stuck.len() ==> #[trigger] stuck[k] < systems.len()
                && runnable[stuck[k] as int] && !scheduled[stuck[k] as int],
        forall|k: int| 0 <= k < stuck.len() ==> ids[k] == systems[#[trigger] stuck[k] as int].id,
        forall|t: int|
            0 <= t < systems.len() && runnable[t] && !scheduled[t] ==> #[trigger] pos[t]
                < stuck.len() && stuck[pos[t] as int] as int == t,
    ensures
        stuck_set(systems, runnable, stuck),
        ids == stuck.map_values(|u: usize| systems[u as int].id),
{
    let n = systems.len() as int;
    lemma_unscheduled_count_pos(runnable, scheduled, n);
    let w = choose|t: int| 0 <= t < n && runnable[t] && !scheduled[t];
    assert(stuck[pos[w] as int] as int == w);
    assert forall|k: int| 0 <= k < stuck.len() implies exists|k2: int|
        0 <= k2 < stuck.len() && edge(
            systems,
            #[trigger] stuck[k2] as int,
            #[trigger] stuck[k] as int,
        ) by {
        let t = stuck[k] as int;
        assert(runnable[t] && !scheduled[t]);
        assert(has_unscheduled_pred(systems, runnable, scheduled, t));
        let p = choose|p: int|
            0 <= p < systems.len() && runnable[p] && !scheduled[p] && #[trigger] edge(
                systems,
                p,
                t,
            );
        assert(stuck[pos[p] as int] as int == p);
        assert(edge(systems, stuck[pos[p] as int] as int, stuck[k] as int));
    }
    assert(ids =~= stuck.map_values(|u: usize| systems[u as int].id));
}

/// Gathers every runnable unscheduled system into a dependency-cycle
/// error. Callable only when each of them waits on another: the stuck set
/// is then a witness in the sense of [`stuck_set`], and the error names
/// exactly its systems.
#[verifier::rlimit(100)]
fn collect_stuck(systems: &Vec<SystemDesc>, runnable: &Vec<bool>, scheduled: &Vec<bool>) -> (e:
    ScheduleError)
    requires
        runnable@.len() == systems@.len(),
        scheduled@.len() == systems@.len(),
        unscheduled_count(runnable@, scheduled@, systems@.len() as int) > 0,
        forall|j: int|
            0 <= j < systems@.len() && runnable@[j] && !scheduled@[j]
                ==> #[trigger] has_unscheduled_pred(systems@, runnable@, scheduled@, j),
    ensures
        e is DependencyCycle,
        exists|stuck: Seq<usize>|
            stuck_set(systems@, runnable@, stuck) && e->DependencyCycle_0@ == stuck.map_values(
                |u: usize| systems@[u as int].id,
            ),
{
    let n = systems.len();
    let mut stuck: Vec<usize> = Vec::new();
    let mut ids: Vec<u64> = Vec::new();
    let mut pos: Vec<usize> = Vec::new();
    let mut q: usize = 0;
    while q < n
        invariant
            q <= n,
            pos@.len() == q,
        decreases n - q,
    {
        pos.push(0);
        q = q + 1;
    }
    let mut j: usize = 0;
    while j < n
        invariant
            j <= n,
            n == systems@.len(),
            runnable@.len() == n,
            scheduled@.len() == n,
            pos@.len() == n,
            ids@.len() == stuck@.len(),
            stuck@.len() <= j,
            forall|k: int|
                0 <= k < stuck@.len() ==> #[trigger] stuck@[k] < n && runnable@[stuck@[k] as int]
                    && !scheduled@[stuck@[k] as int],
            forall|k: int|
                0 <= k < stuck@.len() ==> ids@[k] == systems@[#[trigger] stuck@[k] as int].id,
            forall|t: int|
                0 <= t < j && runnable@[t] && !scheduled@[t] ==> #[trigger] pos@[t] < stuck@.len()
                    && stuck@[pos@[t] as int] as int == t,
        decreases n - j,
    {
        if runnable[j] && !scheduled[j] {
            pos[j] = stuck.len();
            stuck.push(j);
            ids.push(systems[j].id);
        }
        j = j + 1;
    }
    proof {
        lemma_stuck_set_ok(systems@, runnable@, scheduled@, stuck@, pos@, ids@);
    }
    ScheduleError::DependencyCycle(ids)
}

/// Marks every system of the wave as scheduled and lowers the count of
/// waiting systems accordingly.
#[verifier::loop_isolation(false)]
fn mark_wave(
    scheduled: &mut Vec<bool>,
    runnable: &Vec<bool>,
    wave: &Vec<usize>,
    remaining: usize,
) -> (left: usize)
    requires
        runnable@.len() == old(scheduled)@.len(),
        remaining == unscheduled_count(runnable@, old(scheduled)@, old(scheduled)@.len() as int),
        forall|k1: int, k2: int|
            0 <= k1 < k2 < wave@.len() ==> #[trigger] wave@[k1] < #[trigger] wave@[k2],
        forall|k: int|
            0 <= k < wave@.len() ==> #[trigger] wave@[k] < old(scheduled)@.len()
                && runnable@[wave@[k] as int] && !old(scheduled)@[wave@[k] as int],
    ensures
        final(scheduled)@.len() == old(scheduled)@.len(),
        left == unscheduled_count(runnable@, final(scheduled)@, final(scheduled)@.len() as int),
        left == remaining - wave@.len(),
        forall|t: int|
            0 <= t < final(scheduled)@.len() ==> final(scheduled)@[t] == (old(scheduled)@[t]
                || exists|k2: int| 0 <= k2 < wave@.len() && #[trigger] wave@[k2] as int == t),
{
    let n = scheduled.len();
    let mut left = remaining;
    let mut mk: usize = 0;
    while mk < wave.len()
        invariant
            mk <= wave@.len(),
            scheduled@.len() == n,
            left == remaining - mk,
            left == unscheduled_count(runnable@, scheduled@, n as int),
            forall|t: int|
                0 <= t < n ==> scheduled@[t] == (old(scheduled)@[t] || exists|k2: int|
                    0 <= k2 < mk && #[trigger] wave@[k2] as int == t),
        decreases wave@.len() - mk,
    {
        let idx = wave[mk];
        proof {
            assert(!scheduled@[idx as int]);
            lemma_unscheduled_count_bounds(runnable@, scheduled@, n as int);
            lemma_unscheduled_count_update(runnable@, scheduled@, idx as int, n as int);
        }
        scheduled[idx] = true;
        left = left - 1;
        mk = mk + 1;
        proof {
            assert forall|t: int|
                0 <= t < n implies scheduled@[t] == (old(scheduled)@[t] || exists|k2: int|
                0 <= k2 < mk && #[trigger] wave@[k2] as int == t) by {
                if t == idx as int {
                    assert(wave@[mk - 1] as int == t);
                }
            }
        }
    }
    left
}

/// Plans the runnable systems of a stage into waves.
///
/// On success the plan satisfies [`valid_plan`]. Otherwise the explicit
/// ordering constraints cannot all be satisfied: a stuck set in the sense
/// of [`stuck_set`] exists, and the error names exactly its systems.
#[verifier::loop_isolation(false)]
#[verifier::rlimit(60)]
pub fn plan_systems(systems: &Vec<SystemDesc>, runnable: &Vec<bool>) -> (r: Result<
    Vec<Vec<usize>>,
    ScheduleError,
>)
    requires
        runnable@.len() == systems@.len(),
    ensures
        match r {
            Ok(plan) => valid_plan(systems@, runnable@, plan_view(plan)),
            Err(e) => e is DependencyCycle && exists|stuck: Seq<usize>|
                stuck_set(systems@, runnable@, stuck) && e->DependencyCycle_0@
                    == stuck.map_values(|u: usize| systems@[u as int].id),
        },
{
    let n = systems.len();
    let mut scheduled: Vec<bool> = Vec::new();
    let mut q: usize = 0;
    while q < n
        invariant
            q <= n,
            scheduled@.len() == q,
            forall|t: int| 0 <= t < q ==> !scheduled@[t],
        decreases n - q,
    {
        scheduled.push(false);
        q = q + 1;
    }
    let mut remaining: usize = 0;
    let mut c: usize = 0;
    while c < n
        invariant
            c <= n,
            remaining == unscheduled_count(runnable@, scheduled@, c as int),
            remaining <= c,
        decreases n - c,
    {
        if runnable[c] && !scheduled[c] {
            remaining = remaining + 1;
        }
        c = c + 1;
    }
    let mut plan: Vec<Vec<usize>> = Vec::new();
    while remaining > 0
        invariant
            scheduled@.len() == n,
            remaining == unscheduled_count(runnable@, scheduled@, n as int),
            forall|t: int| 0 <= t < n && scheduled@[t] ==> runnable@[t],
            plan_entries_ok(systems@, runnable@, plan_view(plan)),
            plan_distinct(plan_view(plan)),
            plan_waves_ok(systems@, plan_view(plan)),
            plan_edges_forward(systems@, plan_view(plan)),
            forall|w: int, k: int|
                0 <= w < plan_view(plan).len() && 0 <= k < plan_view(plan)[w].len()
                    ==> scheduled@[#[trigger] plan_view(plan)[w][k] as int],
            forall|t: int|
                0 <= t < n && scheduled@[t] ==> flat_plan(plan_view(plan)).contains(t as usize),
            forall|j: int, i2: int|
                0 <= j < n && scheduled@[j] && 0 <= i2 < n && runnable@[i2] && !scheduled@[i2]
                    ==> !(#[trigger] edge(systems@, i2, j)),
        decreases remaining,
    {
        let wave = build_wave(systems, runnable, &scheduled);
        if wave.len() == 0 {
            return Err(collect_stuck(systems, runnable, &scheduled));
        }
        let ghost sched0 = scheduled@;
        remaining = mark_wave(&mut scheduled, runnable, &wave, remaining);
        let ghost wv = wave@;
        let ghost pv0 = plan_view(plan);
        plan.push(wave);
        proof {
            assert(plan_view(plan) =~= pv0.push(wv));
            lemma_flat_push(pv0, wv);
            lemma_append_contains(flat_plan(pv0), wv);
            let pv = pv0.push(wv);
            assert forall|t: int|
                0 <= t < n && scheduled@[t] implies flat_plan(pv).contains(t as usize) by {
                if sched0[t] {
                    assert(flat_plan(pv0).contains(t as usize));
                } else {
                    let k2 = choose|k2: int| 0 <= k2 < wv.len() && #[trigger] wv[k2] as int == t;
                    assert(wv[k2] == t as usize);
                    assert(wv.contains(t as usize));
                }
            }
            assert forall|w1: int, k1: int, w2: int, k2: int|
                0 <= w1 < pv.len() && 0 <= k1 < pv[w1].len() && 0 <= w2 < pv.len() && 0 <= k2
                    < pv[w2].len() && edge(
                    systems@,
                    #[trigger] pv[w1][k1] as int,
                    #[trigger] pv[w2][k2] as int,
                ) implies w1 < w2 by {
                if w1 == pv.len() - 1 {
                    let a = pv[w1][k1] as int;
                    let b = pv[w2][k2] as int;
                    assert(runnable@[a] && !sched0[a]);
                    if w2 < pv.len() - 1 {
                        assert(sched0[b]);
                        assert(!edge(systems@, a, b));
                    } else {
                        assert(!edge(systems@, a, b));
                    }
                }
            }
        }
    }
    proof {
        lemma_unscheduled_count_bounds(runnable@, scheduled@, n as int);
        assert forall|t: int|
            0 <= t < n && runnable@[t] implies flat_plan(plan_view(plan)).contains(
            t as usize,
        ) by {
            assert(scheduled@[t]);
        }
    }
    Ok(plan)
}

/// No system of the collection declares an explicit ordering edge.
/// Such a collection can never present a dependency cycle.
pub open spec fn systems_edge_free(systems: Seq<SystemDesc>) -> bool {
    forall|k: int|
        0 <= k < systems.len() ==> (#[trigger] systems[k]).before@.len() == 0
            && systems[k].after@.len() == 0
}

/// The stage-entry runnable mask: one flag per system, from the world as
/// it stands when the stage begins.
pub open spec fn runnable_mask_spec(
    systems: Seq<SystemDesc>,
    m: Map<u64, ResourceModel>,
    drivers: Seq<u64>,
) -> Seq<bool> {
    Seq::new(systems.len(), |i: int| spec_runnable(systems[i], m, drivers))
}

/// The world after running the listed systems' effects in order.
pub open spec fn run_order_model(
    m: Map<u64, ResourceModel>,
    systems: Seq<SystemDesc>,
    order: Seq<usize>,
) -> Map<u64, ResourceModel>
    decreases order.len(),
{
    if order.len() == 0 {
        m
    } else {
        apply_effect_model(
            run_order_model(m, systems, order.drop_last()),
            systems[order.last() as int].effect,
        )
    }
}

/// Runs every wave of the plan in order, the systems of a wave in listed
/// order — sound in any order, since wave members never conflict.
#[verifier::loop_isolation(false)]
fn execute_plan(world: &mut World, systems: &Vec<SystemDesc>, plan: &Vec<Vec<usize>>)
    requires
        old(world).wf(),
        forall|w: int, k: int|
            0 <= w < plan_view(*plan).len() && 0 <= k < plan_view(*plan)[w].len()
                ==> #[trigger] plan_view(*plan)[w][k] < systems@.len(),
    ensures
        final(world).wf(),
        final(world)@ == run_order_model(old(world)@, systems@, flat_plan(plan_view(*plan))),
{
    let ghost pv = plan_view(*plan);
    let ghost m0 = world@;
    let mut w: usize = 0;
    while w < plan.len()
        invariant
            w <= plan@.len(),
            world.wf(),
            world@ == run_order_model(m0, systems@, flat_plan(pv.take(w as int))),
        decreases plan@.len() - w,
    {
        let wave = &plan[w];
        let ghost done = flat_plan(pv.take(w as int));
        let mut k: usize = 0;
        while k < wave.len()
            invariant
                k <= wave@.len(),
                world.wf(),
                world@ == run_order_model(m0, systems@, done + wave@.take(k as int)),
            decreases wave@.len() - k,
        {
            proof {
                assert(pv[w as int][k as int] == wave@[k as int]);
            }
            let idx = wave[k];
            apply_effect(world, &systems[idx].effect);
            proof {
                let prev = done + wave@.take(k as int);
                let next = done + wave@.take(k + 1 as int);
                assert(next =~= prev.push(wave@[k as int]));
                assert(prev.push(wave@[k as int]).drop_last() =~= prev);
            }
            k = k + 1;
        }
        proof {
            assert(wave@.take(wave@.len() as int) =~= wave@);
            assert(pv.take(w + 1 as int) =~= pv.take(w as int).push(pv[w as int]));
            lemma_flat_push(pv.take(w as int), pv[w as int]);
        }
        w = w + 1;
    }
    proof {
        assert(pv.take(pv.len() as int) =~= pv);
    }
}

/// An ordered, criterion-gated collection of systems, run to completion
/// before the next stage begins.
pub struct SystemStage {
    /// The registered systems, append-only, in registration order.
    pub systems: Vec<SystemDesc>,
    /// State resources whose drivers gate this stage's scoped systems.
    pub drivers: Vec<u64>,
}

impl SystemStage {
    /// An empty parallel stage.
    pub fn parallel() -> (r: SystemStage)
        ensures
            r.systems@ == Seq::<SystemDesc>::empty(),
            r.drivers@ == Seq::<u64>::empty(),
    {
        SystemStage { systems: Vec::new(), drivers: Vec::new() }
    }

    /// Appends a system.
    pub fn add_system(&mut self, s: SystemDesc)
        ensures
            final(self).systems@ == old(self).systems@.push(s),
            final(self).drivers@ == old(self).drivers@,
    {
        self.systems.push(s);
    }

    /// Appends every member of a set, with the set's scope and shared
    /// ordering edges merged in.
    #[verifier::loop_isolation(false)]
    pub fn add_system_set(&mut self, set: SystemSet)
        ensures
            final(self).drivers@ == old(self).drivers@,
            final(self).systems@.len() == old(self).systems@.len() + set.systems@.len(),
            final(self).systems@.take(old(self).systems@.len() as int) == old(self).systems@,
            merged_members(set, final(self).systems@.skip(old(self).systems@.len() as int)),
    {
        let SystemSet { systems: mut members, run_if_state: scope, before: set_before, after: set_after } =
            set;
        let ghost orig = members@;
        let ghost base = self.systems@.len() as int;
        while members.len() > 0
            invariant
                members@.len() <= orig.len(),
                members@ == orig.skip(orig.len() - members@.len()),
                self.drivers@ == old(self).drivers@,
                self.systems@.len() == base + orig.len() - members@.len(),
                self.systems@.take(base) == old(self).systems@,
                forall|i: int|
                    0 <= i < orig.len() - members@.len() ==> merged_member(
                        orig[i],
                        scope,
                        set_before@,
                        set_after@,
                        #[trigger] self.systems@[base + i],
                    ),
            decreases members@.len(),
        {
            let ghost d = orig.len() - members@.len();
            let mut m = members.remove(0);
            proof {
                assert(members@ =~= orig.skip(d + 1));
                assert(orig.skip(d)[0] == orig[d]);
            }
            if m.run_if_state.is_none() {
                m.run_if_state = scope;
            }
            let ghost own_before = m.before@;
            let mut j: usize = 0;
            while j < set_before.len()
                invariant
                    j <= set_before@.len(),
                    m.before@ == own_before + set_before@.take(j as int),
                    m.id == orig[d as int].id,
                    m.kind == orig[d as int].kind,
                    m.effect == orig[d as int].effect,
                    m.after == orig[d as int].after,
                    m.run_if_state == (if orig[d as int].run_if_state is Some {
                        orig[d as int].run_if_state
                    } else {
                        scope
                    }),
                decreases set_before@.len() - j,
            {
                m.before.push(set_before[j]);
                proof {
                    assert(m.before@ =~= own_before + set_before@.take(j + 1 as int));
                }
                j = j + 1;
            }
            proof {
                assert(set_before@.take(set_before@.len() as int) =~= set_before@);
            }
            let ghost own_after = m.after@;
            let mut q: usize = 0;
            while q < set_after.len()
                invariant
                    q <= set_after@.len(),
                    m.after@ == own_after + set_after@.take(q as int),
                    m.before@ == own_before + set_before@,
                    m.id == orig[d as int].id,
                    m.kind == orig[d as int].kind,
                    m.effect == orig[d as int].effect,
                    m.run_if_state == (if orig[d as int].run_if_state is Some {
                        orig[d as int].run_if_state
                    } else {
                        scope
                    }),
                decreases set_after@.len() - q,
            {
                m.after.push(set_after[q]);
                proof {
                    assert(m.after@ =~= own_after + set_after@.take(q + 1 as int));
                }
                q = q + 1;
            }
            proof {
                assert(set_after@.take(set_after@.len() as int) =~= set_after@);
            }
            self.systems.push(m);
            proof {
                assert(self.systems@.take(base) =~= old(self).systems@);
                assert(merged_member(
                    orig[d as int],
                    scope,
                    set_before@,
                    set_after@,
                    self.systems@[base + d],
                ));
            }
        }
        proof {
            assert(self.systems@.skip(base).len() == orig.len());
            assert forall|i: int|
                0 <= i < orig.len() implies merged_member(
                orig[i],
                scope,
                set_before@,
                set_after@,
                #[trigger] self.systems@.skip(base)[i],
            ) by {
                assert(self.systems@.skip(base)[i] == self.systems@[base + i]);
            }
        }
    }

    /// Registers a state driver: scoped systems of this stage are gated
    /// on that state resource's current value.
    pub fn add_state_driver(&mut self, resource: u64)
        ensures
            final(self).systems@ == old(self).systems@,
            final(self).drivers@ == old(self).drivers@.push(resource),
    {
        self.drivers.push(resource);
    }

    /// Evaluates, at stage entry, which systems run this tick.
    #[verifier::loop_isolation(false)]
    fn runnable_mask(&self, world: &World) -> (mask: Vec<bool>)
        requires
            world.wf(),
        ensures
            mask@ == runnable_mask_spec(self.systems@, world@, self.drivers@),
    {
        let mut mask: Vec<bool> = Vec::new();
        let mut i: usize = 0;
        while i < self.systems.len()
            invariant
                i <= self.systems@.len(),
                mask@.len() == i,
                forall|t: int|
                    0 <= t < i ==> mask@[t] == spec_runnable(
                        self.systems@[t],
                        world@,
                        self.drivers@,
                    ),
            decreases self.systems@.len() - i,
        {
            let s = &self.systems[i];
            let r: bool = match &s.run_if_state {
                None => true,
                Some(rv) => {
                    if vec_contains(&self.drivers, rv.0) {
                        match world.state_current(rv.0) {
                            Some(cur) => cur == rv.1,
                            None => false,
                        }
                    } else {
                        true
                    }
                },
            };
            mask.push(r);
            i = i + 1;
        }
        proof {
            assert(mask@ =~= runnable_mask_spec(self.systems@, world@, self.drivers@));
        }
        mask
    }

    /// Runs the stage against the world: plans the systems runnable at
    /// entry into conflict-free, order-respecting waves and applies their
    /// effects wave by wave. Returns the plan that ran. Fails, leaving
    /// the world untouched, exactly when the explicit ordering edges
    /// among runnable systems are cyclic.
    pub fn run(&self, world: &mut World) -> (r: Result<Vec<Vec<usize>>, ScheduleError>)
        requires
            old(world).wf(),
        ensures
            final(world).wf(),
            match r {
                Ok(plan) => valid_plan(
                    self.systems@,
                    runnable_mask_spec(self.systems@, old(world)@, self.drivers@),
                    plan_view(plan),
                ) && final(world)@ == run_order_model(
                    old(world)@,
                    self.systems@,
                    flat_plan(plan_view(plan)),
                ),
                Err(e) => final(world)@ == old(world)@ && e is DependencyCycle
                    && !systems_edge_free(self.systems@) && exists|stuck: Seq<usize>|
                    stuck_set(
                        self.systems@,
                        runnable_mask_spec(self.systems@, old(world)@, self.drivers@),
                        stuck,
                    ) && e->DependencyCycle_0@ == stuck.map_values(
                        |u: usize| self.systems@[u as int].id,
                    ),
            },
    {
        let mask = self.runnable_mask(world);
        match plan_systems(&self.systems, &mask) {
            Ok(plan) => {
                execute_plan(world, &self.systems, &plan);
                Ok(plan)
            },
            Err(e) => {
                proof {
                    let stuck = choose|stuck: Seq<usize>|
                        stuck_set(self.systems@, mask@, stuck) && e->DependencyCycle_0@
                            == stuck.map_values(|u: usize| self.systems@[u as int].id);
                    assert(stuck.len() > 0);
                    let k2 = choose|k2: int|
                        0 <= k2 < stuck.len() && edge(
                            self.systems@,
                            #[trigger] stuck[k2] as int,
                            #[trigger] stuck[0] as int,
                        );
                    assert(!systems_edge_free(self.systems@)) by {
                        if systems_edge_free(self.systems@) {
                            assert(self.systems@[stuck[k2] as int].before@.len() == 0);
                            assert(self.systems@[stuck[0] as int].after@.len() == 0);
                        }
                    }
                }
                Err(e)
            },
        }
    }
}

/// Two systems of one wave may run in either relative order: a correct
/// plan puts conflicting systems in different waves, and the effects of
/// non-conflicting systems commute, so both orders leave the world in
/// the same state.
pub proof fn lemma_wave_order_immaterial(
    m: Map<u64, ResourceModel>,
    systems: Seq<SystemDesc>,
    i: usize,
    j: usize,
)
    requires
        i < systems.len(),
        j < systems.len(),
        system_wf(&systems[i as int]),
        system_wf(&systems[j as int]),
        !systems_conflict(&systems[i as int], &systems[j as int]),
    ensures
        run_order_model(m, systems, seq![i, j]) == run_order_model(m, systems, seq![j, i]),
{
    reveal_with_fuel(run_order_model, 4);
    assert(seq![i, j].drop_last() =~= seq![i]);
    assert(seq![j, i].drop_last() =~= seq![j]);
    assert(seq![i].drop_last() =~= Seq::<usize>::empty());
    assert(seq![j].drop_last() =~= Seq::<usize>::empty());
    assert(run_order_model(m, systems, seq![i]) == apply_effect_model(
        m,
        systems[i as int].effect,
    ));
    assert(run_order_model(m, systems, seq![j]) == apply_effect_model(
        m,
        systems[j as int].effect,
    ));
    assert(run_order_model(m, systems, seq![i, j]) == apply_effect_model(
        run_order_model(m, systems, seq![i]),
        systems[j as int].effect,
    ));
    assert(run_order_model(m, systems, seq![j, i]) == apply_effect_model(
        run_order_model(m, systems, seq![j]),
        systems[i as int].effect,
    ));
    lemma_nonconflicting_effects_commute(m, &systems[i as int], &systems[j as int]);
}

/// The shared-counter law: when every listed system's effect adds one
/// to the same integer counter, running them in any order adds exactly
/// the number of runs — each listed system counts once. With a correct
/// plan, which lists every runnable system exactly once, a stage of
/// counter-incrementing systems therefore adds exactly their number.
pub proof fn lemma_counter_counts_each_run_once(
    m: Map<u64, ResourceModel>,
    systems: Seq<SystemDesc>,
    order: Seq<usize>,
    counter: u64,
)
    requires
        m.dom().contains(counter),
        m[counter] is Int,
        forall|k: int|
            0 <= k < order.len() ==> #[trigger] order[k] < systems.len()
                && systems[order[k] as int].effect == (Effect::AddInt {
                resource: counter,
                delta: 1,
            }),
        m[counter]->Int_0 + order.len() <= i64::MAX,
    ensures
        run_order_model(m, systems, order).dom().contains(counter),
        run_order_model(m, systems, order)[counter] == ResourceModel::Int(
            (m[counter]->Int_0 + order.len()) as i64,
        ),
    decreases order.len(),
{
    if order.len() > 0 {
        let pre = order.drop_last();
        assert forall|k: int|
            0 <= k < pre.len() implies #[trigger] pre[k] < systems.len()
                && systems[pre[k] as int].effect == (Effect::AddInt {
                resource: counter,
                delta: 1,
            }) by {
            assert(pre[k] == order[k]);
        }
        lemma_counter_counts_each_run_once(m, systems, pre, counter);
        let m1 = run_order_model(m, systems, pre);
        let c1 = m[counter]->Int_0 + pre.len();
        assert(order.last() == order[order.len() - 1]);
        assert(add_clamped((c1) as i64, 1) == (c1 + 1) as i64);
    }
}

/// The frame law of a run: a resource that none of the listed systems'
/// effects target is left exactly as it was. In particular, an event
/// queue rotates only where a rotation system for it is listed — once
/// per tick under the standard wiring.
pub proof fn lemma_untouched_resource(
    m: Map<u64, ResourceModel>,
    systems: Seq<SystemDesc>,
    order: Seq<usize>,
    r: u64,
)
    requires
        forall|k: int|
            0 <= k < order.len() ==> #[trigger] order[k] < systems.len() && effect_resource(
                systems[order[k] as int].effect,
            ) != Some(r),
    ensures
        run_order_model(m, systems, order).dom() == m.dom(),
        m.dom().contains(r) ==> run_order_model(m, systems, order)[r] == m[r],
    decreases order.len(),
{
    if order.len() > 0 {
        let pre = order.drop_last();
        assert forall|k: int|
            0 <= k < pre.len() implies #[trigger] pre[k] < systems.len() && effect_resource(
                systems[pre[k] as int].effect,
            ) != Some(r) by {
            assert(pre[k] == order[k]);
        }
        lemma_untouched_resource(m, systems, pre, r);
        assert(order.last() == order[order.len() - 1]);
        lemma_effect_frame(
            run_order_model(m, systems, pre),
            systems[order.last() as int].effect,
        );
    }
}

} // verus!
