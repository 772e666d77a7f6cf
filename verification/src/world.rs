//! The world: a store of singleton resources addressed by an interned
//! integer key, at most one resource per key.
//!
//! The scheduler core needs only a narrow interface to it: insert or
//! initialize a resource, look one up, and the targeted mutations that
//! system effects perform (counter updates, event sends and rotations,
//! state transitions).

use crate::events::{Events, EventsModel};
use crate::state::State;
use vstd::prelude::*;

verus! {

/// A resource value. Counters carry plain integers; event queues and
/// states carry the library's own verified types.
pub enum Resource {
    Int(i64),
    Events(Events<u64>),
    State(State),
}

/// The abstract value of a [`Resource`].
pub enum ResourceModel {
    Int(i64),
    Events(EventsModel<u64>),
    State(Seq<u64>),
}

impl View for Resource {
    type V = ResourceModel;

    open spec fn view(&self) -> ResourceModel {
        match self {
            Resource::Int(v) => ResourceModel::Int(*v),
            Resource::Events(e) => ResourceModel::Events(e@),
            Resource::State(s) => ResourceModel::State(s@),
        }
    }
}

/// Well-formedness of a resource value.
pub open spec fn resource_wf(r: ResourceModel) -> bool {
    match r {
        ResourceModel::Int(_) => true,
        ResourceModel::Events(e) => e.wf(),
        ResourceModel::State(s) => s.len() >= 1,
    }
}

/// `i64` addition clamped to the representable range.
pub open spec fn add_clamped(a: i64, b: i64) -> i64 {
    if a + b > i64::MAX {
        i64::MAX
    } else if a + b < i64::MIN {
        i64::MIN
    } else {
        (a + b) as i64
    }
}

/// Whether some entry of `s` carries the key `id`.
pub(crate) open spec fn has_key(s: Seq<(u64, Resource)>, id: u64) -> bool {
    exists|i: int| 0 <= i < s.len() && s[i].0 == id
}

/// No two entries share a key.
pub(crate) open spec fn unique_keys(s: Seq<(u64, Resource)>) -> bool {
    forall|i: int, j: int| 0 <= i < j < s.len() ==> s[i].0 != s[j].0
}

/// The key-to-value map an entry sequence denotes.
pub(crate) open spec fn entries_map(s: Seq<(u64, Resource)>) -> Map<u64, ResourceModel>
    decreases s.len(),
{
    if s.len() == 0 {
        Map::empty()
    } else {
        entries_map(s.drop_last()).insert(s.last().0, s.last().1@)
    }
}

/// The key of every entry is in the map's domain.
pub(crate) proof fn lemma_entries_map_contains(s: Seq<(u64, Resource)>, i: int)
    requires
        0 <= i < s.len(),
    ensures
        entries_map(s).dom().contains(s[i].0),
    decreases s.len(),
{
    if i < s.len() - 1 {
        lemma_entries_map_contains(s.drop_last(), i);
        assert(s.drop_last()[i] == s[i]);
    }
}

/// A key carried by no entry is not in the map's domain.
pub(crate) proof fn lemma_entries_map_absent(s: Seq<(u64, Resource)>, k: u64)
    requires
        forall|i: int| 0 <= i < s.len() ==> s[i].0 != k,
    ensures
        !entries_map(s).dom().contains(k),
    decreases s.len(),
{
    if s.len() > 0 {
        assert forall|i: int| 0 <= i < s.drop_last().len() implies s.drop_last()[i].0 != k by {
            assert(s.drop_last()[i] == s[i]);
        }
        lemma_entries_map_absent(s.drop_last(), k);
    }
}

/// With unique keys, the map agrees with every entry.
pub(crate) proof fn lemma_entries_map_at(s: Seq<(u64, Resource)>, i: int)
    requires
        unique_keys(s),
        0 <= i < s.len(),
    ensures
        entries_map(s).dom().contains(s[i].0),
        entries_map(s)[s[i].0] == s[i].1@,
    decreases s.len(),
{
    lemma_entries_map_contains(s, i);
    if i < s.len() - 1 {
        assert(unique_keys(s.drop_last()));
        lemma_entries_map_at(s.drop_last(), i);
        assert(s.drop_last()[i] == s[i]);
        assert(s[i].0 != s.last().0);
    }
}

/// Updating the value at an entry updates the map at its key.
pub(crate) proof fn lemma_entries_map_update(s: Seq<(u64, Resource)>, i: int, v: Resource)
    requires
        unique_keys(s),
        0 <= i < s.len(),
    ensures
        entries_map(s.update(i, (s[i].0, v))) == entries_map(s).insert(s[i].0, v@),
    decreases s.len(),
{
    let t = s.update(i, (s[i].0, v));
    if i == s.len() - 1 {
        assert(t.drop_last() == s.drop_last());
        assert(entries_map(t) == entries_map(s.drop_last()).insert(s[i].0, v@));
        assert(entries_map(s).insert(s[i].0, v@) == entries_map(s.drop_last()).insert(
            s.last().0,
            s.last().1@,
        ).insert(s[i].0, v@));
        assert(entries_map(s.drop_last()).insert(s[i].0, v@) =~= entries_map(
            s.drop_last(),
        ).insert(s.last().0, s.last().1@).insert(s[i].0, v@));
    } else {
        assert(unique_keys(s.drop_last()));
        lemma_entries_map_update(s.drop_last(), i, v);
        assert(t.drop_last() == s.drop_last().update(i, (s[i].0, v)));
        assert(t.last() == s.last());
        assert(s[i].0 != s.last().0);
        assert(entries_map(t) == entries_map(s.drop_last()).insert(s[i].0, v@).insert(
            s.last().0,
            s.last().1@,
        ));
        assert(entries_map(s.drop_last()).insert(s[i].0, v@).insert(s.last().0, s.last().1@)
            =~= entries_map(s.drop_last()).insert(s.last().0, s.last().1@).insert(s[i].0, v@));
    }
}

/// When every entry's resource is well-formed, so is every resource the
/// map carries.
pub(crate) proof fn lemma_entries_map_wf(s: Seq<(u64, Resource)>)
    requires
        forall|i: int| 0 <= i < s.len() ==> resource_wf(s[i].1@),
    ensures
        forall|k: u64|
            entries_map(s).dom().contains(k) ==> resource_wf(#[trigger] entries_map(s)[k]),
    decreases s.len(),
{
    if s.len() > 0 {
        assert forall|i: int| 0 <= i < s.drop_last().len() implies resource_wf(
            s.drop_last()[i].1@,
        ) by {
            assert(s.drop_last()[i] == s[i]);
        }
        lemma_entries_map_wf(s.drop_last());
        assert(s.last() == s[s.len() - 1]);
        assert forall|k: u64| entries_map(s).dom().contains(k) implies resource_wf(
            #[trigger] entries_map(s)[k],
        ) by {
            if k == s.last().0 {
                assert(entries_map(s)[k] == s.last().1@);
            } else {
                assert(entries_map(s)[k] == entries_map(s.drop_last())[k]);
            }
        }
    }
}

/// The world. Its abstract value is a finite map from resource key to
/// resource model.
pub struct World {
    entries: Vec<(u64, Resource)>,
}

impl View for World {
    type V = Map<u64, ResourceModel>;

    closed spec fn view(&self) -> Map<u64, ResourceModel> {
        entries_map(self.entries@)
    }
}

impl World {
    /// Internal invariant: one entry per key, every resource well-formed.
    pub closed spec fn wf(self) -> bool {
        unique_keys(self.entries@) && (forall|i: int|
            0 <= i < self.entries@.len() ==> resource_wf(self.entries@[i].1@))
    }

    /// Every resource a well-formed world holds is itself well-formed.
    pub proof fn lemma_wf_resources(self)
        requires
            self.wf(),
        ensures
            forall|k: u64| self@.dom().contains(k) ==> resource_wf(#[trigger] self@[k]),
    {
        lemma_entries_map_wf(self.entries@);
    }

    /// An empty world.
    pub fn new() -> (r: World)
        ensures
            r@ == Map::<u64, ResourceModel>::empty(),
            r.wf(),
    {
        World { entries: Vec::new() }
    }

    /// Index of the entry carrying `id`, if any.
    fn find(&self, id: u64) -> (r: Option<usize>)
        ensures
            match r {
                Some(i) => i < self.entries@.len() && self.entries@[i as int].0 == id,
                None => !has_key(self.entries@, id),
            },
    {
        let mut i: usize = 0;
        while i < self.entries.len()
            invariant
                i <= self.entries@.len(),
                forall|j: int| 0 <= j < i ==> self.entries@[j].0 != id,
            decreases self.entries@.len() - i,
        {
            if self.entries[i].0 == id {
                return Some(i);
            }
            i = i + 1;
        }
        None
    }

    /// Whether a resource is registered under `id`.
    pub fn contains_resource(&self, id: u64) -> (r: bool)
        ensures
            r == self@.dom().contains(id),
    {
        match self.find(id) {
            Some(i) => {
                proof {
                    lemma_entries_map_contains(self.entries@, i as int);
                }
                true
            },
            None => {
                proof {
                    lemma_entries_map_absent(self.entries@, id);
                }
                false
            },
        }
    }

    /// Looks up the resource under `id`.
    pub fn get_resource(&self, id: u64) -> (r: Option<&Resource>)
        requires
            self.wf(),
        ensures
            match r {
                Some(res) => self@.dom().contains(id) && res@ == self@[id],
                None => !self@.dom().contains(id),
            },
    {
        match self.find(id) {
            Some(i) => {
                proof {
                    lemma_entries_map_at(self.entries@, i as int);
                }
                Some(&self.entries[i].1)
            },
            None => {
                proof {
                    lemma_entries_map_absent(self.entries@, id);
                }
                None
            },
        }
    }

    /// Inserts a resource under `id`, overwriting any resource previously
    /// registered under the same key.
    pub fn insert_resource(&mut self, id: u64, resource: Resource)
        requires
            old(self).wf(),
            resource_wf(resource@),
        ensures
            final(self).wf(),
            final(self)@ == old(self)@.insert(id, resource@),
    {
        match self.find(id) {
            Some(i) => {
                proof {
                    lemma_entries_map_update(self.entries@, i as int, resource);
                }
                self.entries[i] = (id, resource);
            },
            None => {
                self.entries.push((id, resource));
                proof {
                    assert(self.entries@.drop_last() == old(self).entries@);
                }
            },
        }
    }

    /// Registers a resource under `id` only if none is there yet.
    pub fn init_resource(&mut self, id: u64, resource: Resource)
        requires
            old(self).wf(),
            resource_wf(resource@),
        ensures
            final(self).wf(),
            old(self)@.dom().contains(id) ==> final(self)@ == old(self)@,
            !old(self)@.dom().contains(id) ==> final(self)@ == old(self)@.insert(id, resource@),
    {
        if !self.contains_resource(id) {
            self.insert_resource(id, resource);
        }
    }

    /// The integer value under `id`, when that resource is an integer.
    pub fn int_value(&self, id: u64) -> (r: Option<i64>)
        requires
            self.wf(),
        ensures
            match r {
                Some(v) => self@.dom().contains(id) && self@[id] == ResourceModel::Int(v),
                None => !self@.dom().contains(id) || !(self@[id] is Int),
            },
    {
        match self.get_resource(id) {
            Some(Resource::Int(v)) => Some(*v),
            _ => None,
        }
    }

    /// The event queue under `id`, when that resource is an event queue.
    pub fn get_events(&self, id: u64) -> (r: Option<&Events<u64>>)
        requires
            self.wf(),
        ensures
            match r {
                Some(e) => self@.dom().contains(id) && self@[id] == ResourceModel::Events(e@)
                    && e@.wf(),
                None => !self@.dom().contains(id) || !(self@[id] is Events),
            },
    {
        proof {
            self.lemma_wf_resources();
        }
        match self.get_resource(id) {
            Some(Resource::Events(e)) => Some(e),
            _ => None,
        }
    }

    /// Adds `delta` to the integer resource under `id`, clamping at the
    /// representable range; no other resource kind is touched.
    pub fn add_int(&mut self, id: u64, delta: i64)
        requires
            old(self).wf(),
        ensures
            final(self).wf(),
            old(self)@.dom().contains(id) && old(self)@[id] is Int ==> final(self)@ == old(
                self,
            )@.insert(id, ResourceModel::Int(add_clamped(old(self)@[id]->Int_0, delta))),
            !(old(self)@.dom().contains(id) && old(self)@[id] is Int) ==> final(self)@ == old(
                self,
            )@,
    {
        match self.find(id) {
            Some(i) => {
                proof {
                    lemma_entries_map_at(self.entries@, i as int);
                }
                let ghost s = self.entries@;
                let entry = &mut self.entries[i];
                match &mut entry.1 {
                    Resource::Int(v) => {
                        let sum: i128 = (*v as i128) + (delta as i128);
                        let nv: i64 = if sum > i64::MAX as i128 {
                            i64::MAX
                        } else if sum < i64::MIN as i128 {
                            i64::MIN
                        } else {
                            sum as i64
                        };
                        *v = nv;
                        proof {
                            lemma_entries_map_update(s, i as int, Resource::Int(nv));
                        }
                    },
                    _ => {
                        proof {
                            assert(self.entries@ =~= s);
                        }
                    },
                }
            },
            None => {
                proof {
                    lemma_entries_map_absent(self.entries@, id);
                }
            },
        }
    }

    /// Appends `value` to the event queue under `id`; no other resource
    /// kind is touched. A queue whose send counter is exhausted drops the
    /// event.
    pub fn send_event(&mut self, id: u64, value: u64)
        requires
            old(self).wf(),
        ensures
            final(self).wf(),
            ({
                let m = old(self)@;
                if m.dom().contains(id) && m[id] is Events {
                    let e = m[id]->Events_0;
                    if e.total < usize::MAX {
                        final(self)@ == m.insert(id, ResourceModel::Events(e.sent(value)))
                    } else {
                        final(self)@ == m
                    }
                } else {
                    final(self)@ == m
                }
            }),
    {
        match self.find(id) {
            Some(i) => {
                proof {
                    lemma_entries_map_at(self.entries@, i as int);
                }
                let ghost s = self.entries@;
                let entry = &mut self.entries[i];
                match &mut entry.1 {
                    Resource::Events(e) => {
                        if e.total() < usize::MAX as u64 {
                            e.send(value);
                        }
                    },
                    _ => {},
                }
                proof {
                    if self.entries@ =~= s {
                    } else {
                        lemma_entries_map_update(s, i as int, self.entries@[i as int].1);
                    }
                }
            },
            None => {
                proof {
                    lemma_entries_map_absent(self.entries@, id);
                }
            },
        }
    }

    /// Rotates the event queue under `id` (its per-tick buffer swap); no
    /// other resource kind is touched.
    pub fn rotate_events(&mut self, id: u64)
        requires
            old(self).wf(),
        ensures
            final(self).wf(),
            old(self)@.dom().contains(id) && old(self)@[id] is Events ==> final(self)@ == old(
                self,
            )@.insert(id, ResourceModel::Events((old(self)@[id]->Events_0).rotated())),
            !(old(self)@.dom().contains(id) && old(self)@[id] is Events) ==> final(self)@ == old(
                self,
            )@,
    {
        match self.find(id) {
            Some(i) => {
                proof {
                    lemma_entries_map_at(self.entries@, i as int);
                }
                let ghost s = self.entries@;
                let entry = &mut self.entries[i];
                match &mut entry.1 {
                    Resource::Events(e) => {
                        e.update();
                    },
                    _ => {},
                }
                proof {
                    if self.entries@ =~= s {
                    } else {
                        lemma_entries_map_update(s, i as int, self.entries@[i as int].1);
                    }
                }
            },
            None => {
                proof {
                    lemma_entries_map_absent(self.entries@, id);
                }
            },
        }
    }

    /// Makes `value` the current value of the state resource under `id`,
    /// replacing the top of its transition stack; no other resource kind is
    /// touched.
    pub fn set_state(&mut self, id: u64, value: u64)
        requires
            old(self).wf(),
        ensures
            final(self).wf(),
            ({
                let m = old(self)@;
                if m.dom().contains(id) && m[id] is State {
                    let st = m[id]->State_0;
                    final(self)@ == m.insert(
                        id,
                        ResourceModel::State(st.update(st.len() - 1, value)),
                    )
                } else {
                    final(self)@ == m
                }
            }),
    {
        match self.find(id) {
            Some(i) => {
                proof {
                    lemma_entries_map_at(self.entries@, i as int);
                    self.lemma_wf_resources();
                }
                let ghost s = self.entries@;
                let entry = &mut self.entries[i];
                match &mut entry.1 {
                    Resource::State(st) => {
                        let ghost stack = st@;
                        let r = st.replace(value);
                        proof {
                            if r is Err {
                                assert(st@ =~= stack.update(stack.len() - 1, value));
                            }
                        }
                    },
                    _ => {},
                }
                proof {
                    if self.entries@ =~= s {
                        let m = old(self)@;
                        if m.dom().contains(id) && m[id] is State {
                            let st = m[id]->State_0;
                            assert(m.insert(id, ResourceModel::State(st.update(st.len() - 1, value)))
                                =~= m);
                        }
                    } else {
                        lemma_entries_map_update(s, i as int, self.entries@[i as int].1);
                    }
                }
            },
            None => {
                proof {
                    lemma_entries_map_absent(self.entries@, id);
                }
            },
        }
    }

    /// The current state value under `id`, when that resource is a state.
    pub fn state_current(&self, id: u64) -> (r: Option<u64>)
        requires
            self.wf(),
        ensures
            match r {
                Some(v) => self@.dom().contains(id) && self@[id] is State
                    && (self@[id])->State_0.last() == v,
                None => !self@.dom().contains(id) || !(self@[id] is State),
            },
    {
        proof {
            self.lemma_wf_resources();
        }
        match self.get_resource(id) {
            Some(Resource::State(s)) => Some(s.current()),
            _ => None,
        }
    }
}

} // verus!
