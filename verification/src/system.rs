//! Systems: schedulable units of logic with declared data access.
//!
//! A system declares which resources it reads and writes; two systems
//! conflict when either writes something the other touches, and an
//! exclusive system conflicts with everything. A system's runtime work is
//! its effect, which must stay inside its declared write set; that is what
//! lets the scheduler run non-conflicting systems in either order.

use crate::world::{add_clamped, ResourceModel, World};
use vstd::prelude::*;

verus! {

/// Declared data access of a parallel system.
pub struct AccessSet {
    /// Resource keys the system reads.
    pub reads: Vec<u64>,
    /// Resource keys the system writes.
    pub writes: Vec<u64>,
}

/// Whether `a` and `b` clash on the single resource `t`: one writes it
/// while the other reads or writes it.
pub open spec fn conflict_on(t: u64, a: &AccessSet, b: &AccessSet) -> bool {
    (a.writes@.contains(t) && (b.reads@.contains(t) || b.writes@.contains(t))) || (
    b.writes@.contains(t) && (a.reads@.contains(t) || a.writes@.contains(t)))
}

/// Whether the two access sets conflict on any resource.
pub open spec fn access_conflicts(a: &AccessSet, b: &AccessSet) -> bool {
    exists|t: u64| #[trigger] conflict_on(t, a, b)
}

/// Whether `x` occurs in `v`.
pub fn vec_contains(v: &Vec<u64>, x: u64) -> (r: bool)
    ensures
        r == v@.contains(x),
{
    let mut i: usize = 0;
    while i < v.len()
        invariant
            i <= v@.len(),
            forall|j: int| 0 <= j < i ==> v@[j] != x,
        decreases v@.len() - i,
    {
        if v[i] == x {
            return true;
        }
        i = i + 1;
    }
    false
}

/// Executable form of [`access_conflicts`].
pub fn conflicts(a: &AccessSet, b: &AccessSet) -> (r: bool)
    ensures
        r == access_conflicts(a, b),
{
    let mut i: usize = 0;
    while i < a.writes.len()
        invariant
            i <= a.writes@.len(),
            forall|j: int| 0 <= j < i ==> !conflict_on(a.writes@[j], a, b),
        decreases a.writes@.len() - i,
    {
        let t = a.writes[i];
        if vec_contains(&b.reads, t) || vec_contains(&b.writes, t) {
            assert(conflict_on(t, a, b));
            return true;
        }
        i = i + 1;
    }
    let mut k: usize = 0;
    while k < b.writes.len()
        invariant
            k <= b.writes@.len(),
            forall|j: int| 0 <= j < a.writes@.len() ==> !conflict_on(a.writes@[j], a, b),
            forall|j: int| 0 <= j < k ==> !conflict_on(b.writes@[j], a, b),
        decreases b.writes@.len() - k,
    {
        let t = b.writes[k];
        if vec_contains(&a.reads, t) || vec_contains(&a.writes, t) {
            assert(conflict_on(t, a, b));
            return true;
        }
        k = k + 1;
    }
    assert forall|t: u64| !conflict_on(t, a, b) by {
        if a.writes@.contains(t) {
            let j = choose|j: int| 0 <= j < a.writes@.len() && a.writes@[j] == t;
            assert(!conflict_on(a.writes@[j], a, b));
        } else if b.writes@.contains(t) {
            let j = choose|j: int| 0 <= j < b.writes@.len() && b.writes@[j] == t;
            assert(!conflict_on(b.writes@[j], a, b));
        }
    }
    false
}

/// A system is either parallel, with a declared access set, or exclusive,
/// which behaves as if it wrote everything and therefore runs alone.
pub enum SystemKind {
    Parallel(AccessSet),
    Exclusive,
}

/// The runtime work of a system, as a targeted world mutation.
pub enum Effect {
    /// Add `delta` to the integer resource `resource`, clamped.
    AddInt { resource: u64, delta: i64 },
    /// Append `value` to the event queue `resource`.
    SendEvent { resource: u64, value: u64 },
    /// Rotate the double buffer of the event queue `resource`.
    RotateEvents { resource: u64 },
    /// Replace the current value of the state resource `resource`.
    SetState { resource: u64, value: u64 },
    /// Do nothing.
    Noop,
}

/// The resource an effect touches, if any.
pub open spec fn effect_resource(e: Effect) -> Option<u64> {
    match e {
        Effect::AddInt { resource, .. } => Some(resource),
        Effect::SendEvent { resource, .. } => Some(resource),
        Effect::RotateEvents { resource } => Some(resource),
        Effect::SetState { resource, .. } => Some(resource),
        Effect::Noop => None,
    }
}

/// A registered system: identity, declared access, explicit ordering
/// edges against other systems' identities, an optional state scope, and
/// its effect.
pub struct SystemDesc {
    /// Unique identity of the system within its stage.
    pub id: u64,
    /// Parallel with declared access, or exclusive.
    pub kind: SystemKind,
    /// Identities of systems this one must run after.
    pub after: Vec<u64>,
    /// Identities of systems this one must run before.
    pub before: Vec<u64>,
    /// When `Some((state_resource, value))`, a driver-gated stage runs
    /// this system only while that state's current value is `value`.
    pub run_if_state: Option<(u64, u64)>,
    /// The system's work.
    pub effect: Effect,
}

/// Whether two systems may never run concurrently.
pub open spec fn systems_conflict(a: &SystemDesc, b: &SystemDesc) -> bool {
    match (&a.kind, &b.kind) {
        (SystemKind::Parallel(x), SystemKind::Parallel(y)) => access_conflicts(x, y),
        _ => true,
    }
}

/// Executable form of [`systems_conflict`].
pub fn systems_conflict_exec(a: &SystemDesc, b: &SystemDesc) -> (r: bool)
    ensures
        r == systems_conflict(a, b),
{
    match (&a.kind, &b.kind) {
        (SystemKind::Parallel(x), SystemKind::Parallel(y)) => conflicts(x, y),
        _ => true,
    }
}

/// Conflict is symmetric.
pub proof fn lemma_conflict_symmetric(a: &SystemDesc, b: &SystemDesc)
    ensures
        systems_conflict(a, b) == systems_conflict(b, a),
{
    match (&a.kind, &b.kind) {
        (SystemKind::Parallel(x), SystemKind::Parallel(y)) => {
            if access_conflicts(x, y) {
                let t = choose|t: u64| conflict_on(t, x, y);
                assert(conflict_on(t, y, x));
            }
            if access_conflicts(y, x) {
                let t = choose|t: u64| conflict_on(t, y, x);
                assert(conflict_on(t, x, y));
            }
        },
        _ => {},
    }
}

/// A system's effect stays inside its declared write set.
pub open spec fn system_wf(s: &SystemDesc) -> bool {
    match &s.kind {
        SystemKind::Parallel(a) => match effect_resource(s.effect) {
            Some(r) => a.writes@.contains(r),
            None => true,
        },
        SystemKind::Exclusive => true,
    }
}

/// What applying an effect does to the world's abstract value. Mirrors
/// the world's targeted mutators: an effect aimed at a missing resource or
/// one of another kind leaves the world unchanged.
pub open spec fn apply_effect_model(m: Map<u64, ResourceModel>, e: Effect) -> Map<
    u64,
    ResourceModel,
> {
    match e {
        Effect::AddInt { resource, delta } => {
            if m.dom().contains(resource) && m[resource] is Int {
                m.insert(
                    resource,
                    ResourceModel::Int(add_clamped(m[resource]->Int_0, delta)),
                )
            } else {
                m
            }
        },
        Effect::SendEvent { resource, value } => {
            if m.dom().contains(resource) && m[resource] is Events {
                let e0 = m[resource]->Events_0;
                if e0.total < usize::MAX {
                    m.insert(resource, ResourceModel::Events(e0.sent(value)))
                } else {
                    m
                }
            } else {
                m
            }
        },
        Effect::RotateEvents { resource } => {
            if m.dom().contains(resource) && m[resource] is Events {
                m.insert(resource, ResourceModel::Events((m[resource]->Events_0).rotated()))
            } else {
                m
            }
        },
        Effect::SetState { resource, value } => {
            if m.dom().contains(resource) && m[resource] is State {
                let st = m[resource]->State_0;
                m.insert(resource, ResourceModel::State(st.update(st.len() - 1, value)))
            } else {
                m
            }
        },
        Effect::Noop => m,
    }
}

/// Applies an effect to the world.
pub fn apply_effect(world: &mut World, e: &Effect)
    requires
        old(world).wf(),
    ensures
        final(world).wf(),
        final(world)@ == apply_effect_model(old(world)@, *e),
{
    match e {
        Effect::AddInt { resource, delta } => world.add_int(*resource, *delta),
        Effect::SendEvent { resource, value } => world.send_event(*resource, *value),
        Effect::RotateEvents { resource } => world.rotate_events(*resource),
        Effect::SetState { resource, value } => world.set_state(*resource, *value),
        Effect::Noop => {},
    }
}

/// A named, composable group of systems sharing a run scope and shared
/// ordering edges. Adding a set to a stage is the same as adding each
/// member individually with the set's scope and edges merged in: a
/// member keeps its own scope when it has one, and the set's edges are
/// appended to the member's own.
pub struct SystemSet {
    /// The members, in registration order.
    pub systems: Vec<SystemDesc>,
    /// A state scope applied to every member without one of its own.
    pub run_if_state: Option<(u64, u64)>,
    /// System identities every member must run before.
    pub before: Vec<u64>,
    /// System identities every member must run after.
    pub after: Vec<u64>,
}

/// How one member leaves a set when the set is added to a stage: it
/// keeps its identity, access and effect; it keeps its own state scope
/// when it has one, else takes the set's; and the set's shared ordering
/// edges are appended to its own.
pub open spec fn merged_member(
    m: SystemDesc,
    scope: Option<(u64, u64)>,
    set_before: Seq<u64>,
    set_after: Seq<u64>,
    r: SystemDesc,
) -> bool {
    &&& r.id == m.id
    &&& r.kind == m.kind
    &&& r.effect == m.effect
    &&& r.run_if_state == (if m.run_if_state is Some {
        m.run_if_state
    } else {
        scope
    })
    &&& r.before@ == m.before@ + set_before
    &&& r.after@ == m.after@ + set_after
}

/// What adding a whole set contributes: one merged member per member,
/// in registration order.
pub open spec fn merged_members(set: SystemSet, out: Seq<SystemDesc>) -> bool {
    &&& out.len() == set.systems@.len()
    &&& forall|i: int|
        0 <= i < out.len() ==> merged_member(
            set.systems@[i],
            set.run_if_state,
            set.before@,
            set.after@,
            #[trigger] out[i],
        )
}

impl SystemSet {
    /// An empty set without a scope or shared edges.
    pub fn new() -> (r: SystemSet)
        ensures
            r.systems@ == Seq::<SystemDesc>::empty(),
            r.run_if_state is None,
            r.before@ == Seq::<u64>::empty(),
            r.after@ == Seq::<u64>::empty(),
    {
        SystemSet { systems: Vec::new(), run_if_state: None, before: Vec::new(), after: Vec::new() }
    }

    /// Adds a member.
    pub fn with_system(self, s: SystemDesc) -> (r: SystemSet)
        ensures
            r.systems@ == self.systems@.push(s),
            r.run_if_state == self.run_if_state,
            r.before@ == self.before@,
            r.after@ == self.after@,
    {
        let mut set = self;
        set.systems.push(s);
        set
    }

    /// Scopes the set to run only while the state resource `resource`
    /// holds `value` (in stages driving that state).
    pub fn with_state_scope(self, resource: u64, value: u64) -> (r: SystemSet)
        ensures
            r.systems@ == self.systems@,
            r.run_if_state == Some((resource, value)),
            r.before@ == self.before@,
            r.after@ == self.after@,
    {
        let mut set = self;
        set.run_if_state = Some((resource, value));
        set
    }

    /// Orders every member before the system with identity `id`.
    pub fn with_before(self, id: u64) -> (r: SystemSet)
        ensures
            r.systems@ == self.systems@,
            r.run_if_state == self.run_if_state,
            r.before@ == self.before@.push(id),
            r.after@ == self.after@,
    {
        let mut set = self;
        set.before.push(id);
        set
    }

    /// Orders every member after the system with identity `id`.
    pub fn with_after(self, id: u64) -> (r: SystemSet)
        ensures
            r.systems@ == self.systems@,
            r.run_if_state == self.run_if_state,
            r.before@ == self.before@,
            r.after@ == self.after@.push(id),
    {
        let mut set = self;
        set.after.push(id);
        set
    }
}

/// Applying an effect never changes the world at a key it does not touch,
/// and never changes the set of registered resources.
pub proof fn lemma_effect_frame(m: Map<u64, ResourceModel>, e: Effect)
    ensures
        apply_effect_model(m, e).dom() == m.dom(),
        forall|k: u64|
            effect_resource(e) != Some(k) && m.dom().contains(k) ==> apply_effect_model(m, e)[k]
                == m[k],
{
    let r = apply_effect_model(m, e);
    assert(r.dom() =~= m.dom());
}

/// Non-conflicting systems' effects commute: running the two in either
/// order leaves the world in the same state.
pub proof fn lemma_nonconflicting_effects_commute(
    m: Map<u64, ResourceModel>,
    a: &SystemDesc,
    b: &SystemDesc,
)
    requires
        system_wf(a),
        system_wf(b),
        !systems_conflict(a, b),
    ensures
        apply_effect_model(apply_effect_model(m, a.effect), b.effect) == apply_effect_model(
            apply_effect_model(m, b.effect),
            a.effect,
        ),
{
    if a.effect is Noop || b.effect is Noop {
    } else {
        let ra = effect_resource(a.effect)->Some_0;
        let rb = effect_resource(b.effect)->Some_0;
        if ra == rb {
            match (&a.kind, &b.kind) {
                (SystemKind::Parallel(x), SystemKind::Parallel(y)) => {
                    assert(conflict_on(ra, x, y));
                    assert(false);
                },
                _ => {
                    assert(false);
                },
            }
        }
        lemma_effect_frame(m, a.effect);
        lemma_effect_frame(m, b.effect);
        lemma_effect_frame(apply_effect_model(m, a.effect), b.effect);
        lemma_effect_frame(apply_effect_model(m, b.effect), a.effect);
        assert(apply_effect_model(apply_effect_model(m, a.effect), b.effect)
            =~= apply_effect_model(apply_effect_model(m, b.effect), a.effect));
    }
}

} // verus!
