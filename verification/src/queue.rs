//! The queue stage: keeps the per-image bind-group cache current and
//! enqueues one drawable phase item per batch, keyed by depth; the
//! phase-sort stage then orders the items by that key.
//!
//! The cache is a set of image keys for which a bind group exists on
//! the drawing backend. An image the asset events report modified or
//! removed is evicted, and the stage answers which images need a fresh
//! bind group this frame; creating the actual backend objects is the
//! backend's work.

use crate::prepare::UiBatch;
use crate::system::vec_contains;
use vstd::prelude::*;

verus! {

/// What happened to an image asset since last frame.
#[derive(Clone, Copy, Debug, PartialEq, Eq, Structural)]
pub enum AssetEventKind {
    Created,
    Modified,
    Removed,
}

/// The per-image bind-group cache: the keys of the images whose bind
/// group is current on the backend.
pub struct UiImageBindGroups {
    /// The cached image keys, each at most once.
    pub images: Vec<u64>,
}

impl UiImageBindGroups {
    /// No key twice.
    pub open spec fn wf(self) -> bool {
        forall|a: int, b: int|
            0 <= a < b < self.images@.len() ==> self.images@[a] != self.images@[b]
    }

    /// An empty cache.
    pub fn new() -> (r: UiImageBindGroups)
        ensures
            r.images@ == Seq::<u64>::empty(),
            r.wf(),
    {
        UiImageBindGroups { images: Vec::new() }
    }
}

/// One drawable item of the transparent interface phase.
#[derive(Clone, Copy, Debug, PartialEq, Eq, Structural)]
pub struct TransparentUi {
    /// Index of the batch this item draws.
    pub batch_index: usize,
    /// Sort key: the batch's depth.
    pub sort_key: i64,
}

/// Whether the asset events mark an image dirty: its bind group (if
/// any) no longer matches the asset and must be dropped.
pub open spec fn dirty(events: Seq<(AssetEventKind, u64)>, image: u64) -> bool {
    exists|k: int|
        0 <= k < events.len() && (#[trigger] events[k]).1 == image && (events[k].0
            == AssetEventKind::Modified || events[k].0 == AssetEventKind::Removed)
}

/// Updates the bind-group cache and enqueues the frame's phase items.
///
/// Dirty images leave the cache. Then, when the view is ready, every
/// batch image missing from the cache joins it and is returned as
/// needing a fresh bind group, and one phase item per batch, carrying
/// the batch's depth as its sort key, is appended to the phase in batch
/// order. Without a ready view the phase gains nothing.
#[verifier::loop_isolation(false)]
#[verifier::rlimit(30)]
pub fn queue_uinodes(
    batches: &Vec<UiBatch>,
    image_events: &Vec<(AssetEventKind, u64)>,
    view_available: bool,
    bind_groups: &mut UiImageBindGroups,
    phase: &mut Vec<TransparentUi>,
) -> (new_groups: Vec<u64>)
    requires
        old(bind_groups).wf(),
    ensures
        final(bind_groups).wf(),
        forall|img: u64|
            #[trigger] final(bind_groups).images@.contains(img) <==> (old(
                bind_groups,
            ).images@.contains(img) && !dirty(image_events@, img)) || (view_available && exists|k: int|
                0 <= k < batches@.len() && (#[trigger] batches@[k]).image == img),
        forall|img: u64|
            #[trigger] new_groups@.contains(img) <==> view_available && !(old(
                bind_groups,
            ).images@.contains(img) && !dirty(image_events@, img)) && (exists|k: int|
                0 <= k < batches@.len() && (#[trigger] batches@[k]).image == img),
        forall|a: int, b: int| 0 <= a < b < new_groups@.len() ==> new_groups@[a] != new_groups@[b],
        view_available ==> final(phase)@.len() == old(phase)@.len() + batches@.len()
            && final(phase)@.take(old(phase)@.len() as int) == old(phase)@ && (forall|k: int|
            0 <= k < batches@.len() ==> final(phase)@[old(phase)@.len() + k] == (TransparentUi {
                batch_index: k as usize,
                sort_key: batches@[k].z,
            })),
        !view_available ==> final(phase)@ == old(phase)@,
{
    let mut e: usize = 0;
    while e < image_events.len()
        invariant
            e <= image_events@.len(),
            bind_groups.wf(),
            forall|img: u64|
                #[trigger] bind_groups.images@.contains(img) <==> old(
                    bind_groups,
                ).images@.contains(img) && !dirty(image_events@.take(e as int), img),
        decreases image_events@.len() - e,
    {
        let ghost pre = bind_groups.images@;
        let (kind, handle) = image_events[e];
        let evict = match kind {
            AssetEventKind::Created => false,
            AssetEventKind::Modified => true,
            AssetEventKind::Removed => true,
        };
        if evict {
            let mut j: usize = 0;
            while j < bind_groups.images.len()
                invariant
                    j <= bind_groups.images@.len(),
                    bind_groups.images@ == pre,
                    forall|t: int| 0 <= t < j ==> pre[t] != handle,
                decreases bind_groups.images@.len() - j,
            {
                if bind_groups.images[j] == handle {
                    bind_groups.images.remove(j);
                    proof {
                        assert forall|a: int, b: int|
                            0 <= a < b < bind_groups.images@.len() implies bind_groups.images@[a]
                            != bind_groups.images@[b] by {
                            if a < j {
                                assert(bind_groups.images@[a] == pre[a]);
                            } else {
                                assert(bind_groups.images@[a] == pre[a + 1]);
                            }
                            if b < j {
                                assert(bind_groups.images@[b] == pre[b]);
                            } else {
                                assert(bind_groups.images@[b] == pre[b + 1]);
                            }
                        }
                        assert forall|img: u64|
                            #[trigger] bind_groups.images@.contains(img) implies pre.contains(img)
                            && img != handle by {
                            let t = choose|t: int|
                                0 <= t < bind_groups.images@.len() && bind_groups.images@[t]
                                    == img;
                            if t < j {
                                assert(pre[t] == img);
                            } else {
                                assert(pre[t + 1] == img);
                            }
                        }
                        assert forall|img: u64|
                            pre.contains(img) && img != handle implies #[trigger] bind_groups
                                .images@.contains(img) by {
                            let t = choose|t: int| 0 <= t < pre.len() && pre[t] == img;
                            if t < j {
                                assert(bind_groups.images@[t] == img);
                            } else {
                                assert(t != j);
                                assert(bind_groups.images@[t - 1] == img);
                            }
                        }
                    }
                    break ;
                }
                j = j + 1;
            }
        }
        proof {
            assert forall|img: u64|
                #[trigger] bind_groups.images@.contains(img) <==> (old(
                    bind_groups,
                ).images@.contains(img) && !dirty(image_events@.take(e + 1 as int), img)) by {
                assert(image_events@.take(e + 1 as int).drop_last() =~= image_events@.take(
                    e as int,
                ));
                assert(image_events@.take(e + 1 as int).last() == image_events@[e as int]);
                assert forall|img2: u64| #[trigger] dirty(image_events@.take(e + 1 as int), img2)
                    <==> dirty(image_events@.take(e as int), img2) || (evict && img2 == handle) by {
                    let ev1 = image_events@.take(e + 1 as int);
                    let ev0 = image_events@.take(e as int);
                    if dirty(ev1, img2) {
                        let k = choose|k: int|
                            0 <= k < ev1.len() && (#[trigger] ev1[k]).1 == img2 && (ev1[k].0
                                == AssetEventKind::Modified || ev1[k].0
                                == AssetEventKind::Removed);
                        if k < e {
                            assert(ev0[k] == ev1[k]);
                            assert(dirty(ev0, img2));
                        }
                    }
                    if dirty(ev0, img2) {
                        let k = choose|k: int|
                            0 <= k < ev0.len() && (#[trigger] ev0[k]).1 == img2 && (ev0[k].0
                                == AssetEventKind::Modified || ev0[k].0
                                == AssetEventKind::Removed);
                        assert(ev1[k] == ev0[k]);
                    }
                    if evict && img2 == handle {
                        assert(ev1[e as int] == image_events@[e as int]);
                    }
                }
            }
        }
        e = e + 1;
    }
    proof {
        assert(image_events@.take(image_events@.len() as int) =~= image_events@);
    }
    let mut new_groups: Vec<u64> = Vec::new();
    if view_available {
        let ghost cache1 = bind_groups.images@;
        let mut k: usize = 0;
        while k < batches.len()
            invariant
                k <= batches@.len(),
                bind_groups.wf(),
                forall|img: u64|
                    #[trigger] bind_groups.images@.contains(img) <==> cache1.contains(img) || (
                    exists|t: int|
                        0 <= t < k && (#[trigger] batches@[t]).image == img),
                forall|img: u64|
                    #[trigger] new_groups@.contains(img) <==> !cache1.contains(img) && (exists|t: int|
                        0 <= t < k && (#[trigger] batches@[t]).image == img),
                forall|a: int, b: int|
                    0 <= a < b < new_groups@.len() ==> new_groups@[a] != new_groups@[b],
                forall|img: u64|
                    #[trigger] new_groups@.contains(img) ==> bind_groups.images@.contains(img),
                phase@.len() == old(phase)@.len() + k,
                phase@.take(old(phase)@.len() as int) == old(phase)@,
                forall|t: int|
                    0 <= t < k ==> phase@[old(phase)@.len() + t] == (TransparentUi {
                        batch_index: t as usize,
                        sort_key: batches@[t].z,
                    }),
            decreases batches@.len() - k,
        {
            let ghost cpre = bind_groups.images@;
            let ghost npre = new_groups@;
            let b = &batches[k];
            let ghost img_k = batches@[k as int].image;
            if !vec_contains(&bind_groups.images, b.image) {
                bind_groups.images.push(b.image);
                new_groups.push(b.image);
                proof {
                    assert forall|a: int, b2: int|
                        0 <= a < b2 < bind_groups.images@.len() implies bind_groups.images@[a]
                        != bind_groups.images@[b2] by {
                        if b2 == bind_groups.images@.len() - 1 {
                            assert(bind_groups.images@[a] == cpre[a]);
                            assert(cpre.contains(cpre[a]));
                        } else {
                            assert(bind_groups.images@[a] == cpre[a]);
                            assert(bind_groups.images@[b2] == cpre[b2]);
                        }
                    }
                    assert forall|img: u64|
                        #[trigger] bind_groups.images@.contains(img) implies cpre.contains(img)
                        || img == img_k by {
                        let t = choose|t: int|
                            0 <= t < bind_groups.images@.len() && bind_groups.images@[t] == img;
                        if t < bind_groups.images@.len() - 1 {
                            assert(cpre[t] == img);
                        }
                    }
                    assert forall|img: u64| cpre.contains(img) implies #[trigger] bind_groups
                        .images@.contains(img) by {
                        let t = choose|t: int| 0 <= t < cpre.len() && cpre[t] == img;
                        assert(bind_groups.images@[t] == img);
                    }
                    assert(bind_groups.images@[bind_groups.images@.len() - 1] == img_k);
                    assert(bind_groups.images@.contains(img_k));
                    assert forall|img: u64|
                        #[trigger] new_groups@.contains(img) implies npre.contains(img) || img
                            == img_k by {
                        let t = choose|t: int|
                            0 <= t < new_groups@.len() && new_groups@[t] == img;
                        if t < new_groups@.len() - 1 {
                            assert(npre[t] == img);
                        }
                    }
                    assert forall|img: u64| npre.contains(img) implies #[trigger] new_groups@
                        .contains(img) by {
                        let t = choose|t: int| 0 <= t < npre.len() && npre[t] == img;
                        assert(new_groups@[t] == img);
                    }
                    assert(new_groups@[new_groups@.len() - 1] == img_k);
                    assert(new_groups@.contains(img_k));
                    assert forall|a: int, b2: int|
                        0 <= a < b2 < new_groups@.len() implies new_groups@[a]
                        != new_groups@[b2] by {
                        if b2 == new_groups@.len() - 1 {
                            assert(new_groups@[a] == npre[a]);
                            assert(npre.contains(npre[a]));
                            assert(cpre.contains(npre[a]));
                        } else {
                            assert(new_groups@[a] == npre[a]);
                            assert(new_groups@[b2] == npre[b2]);
                        }
                    }
                }
            } else {
                proof {
                    assert(bind_groups.images@.contains(img_k));
                }
            }
            phase.push(TransparentUi { batch_index: k, sort_key: b.z });
            proof {
                assert(phase@.take(old(phase)@.len() as int) =~= old(phase)@);
                assert forall|img: u64|
                    #[trigger] bind_groups.images@.contains(img) <==> cache1.contains(img) || (
                    exists|t: int|
                        0 <= t < k + 1 && (#[trigger] batches@[t]).image == img) by {
                    if bind_groups.images@.contains(img) {
                        if !(cache1.contains(img) || exists|t: int|
                            0 <= t < k && (#[trigger] batches@[t]).image == img) {
                            assert(img == img_k);
                            assert((#[trigger] batches@[k as int]).image == img);
                        }
                    }
                    if exists|t: int| 0 <= t < k + 1 && (#[trigger] batches@[t]).image == img {
                        let t = choose|t: int|
                            0 <= t < k + 1 && (#[trigger] batches@[t]).image == img;
                        if t == k {
                            assert(bind_groups.images@.contains(img_k));
                        }
                    }
                }
                assert forall|img: u64|
                    #[trigger] new_groups@.contains(img) <==> !cache1.contains(img) && (exists|
                        t: int,
                    | 0 <= t < k + 1 && (#[trigger] batches@[t]).image == img) by {
                    if new_groups@.contains(img) {
                        if !(exists|t: int| 0 <= t < k && (#[trigger] batches@[t]).image == img) {
                            assert(img == img_k);
                            assert((#[trigger] batches@[k as int]).image == img);
                        }
                    }
                    if !cache1.contains(img) && exists|t: int|
                        0 <= t < k + 1 && (#[trigger] batches@[t]).image == img {
                        let t = choose|t: int|
                            0 <= t < k + 1 && (#[trigger] batches@[t]).image == img;
                        if t == k {
                        }
                    }
                }
            }
            k = k + 1;
        }
    }
    new_groups
}

/// Whether the phase items stand in ascending sort-key order.
pub open spec fn phase_sorted(s: Seq<TransparentUi>) -> bool {
    forall|i: int, j: int| 0 <= i < j < s.len() ==> s[i].sort_key <= s[j].sort_key
}

/// The subsequence of phase items carrying the sort key `z`, in order.
pub open spec fn with_sort_key(s: Seq<TransparentUi>, z: i64) -> Seq<TransparentUi>
    decreases s.len(),
{
    if s.len() == 0 {
        Seq::empty()
    } else {
        with_sort_key(s.drop_last(), z) + (if s.last().sort_key == z {
            seq![s.last()]
        } else {
            Seq::empty()
        })
    }
}

/// The key-`z` subsequence of a concatenation.
proof fn lemma_with_sort_key_add(a: Seq<TransparentUi>, b: Seq<TransparentUi>, z: i64)
    ensures
        with_sort_key(a + b, z) == with_sort_key(a, z) + with_sort_key(b, z),
    decreases b.len(),
{
    if b.len() == 0 {
        assert(a + b =~= a);
        assert(with_sort_key(a, z) + with_sort_key(b, z) =~= with_sort_key(a, z));
    } else {
        lemma_with_sort_key_add(a, b.drop_last(), z);
        assert((a + b).drop_last() =~= a + b.drop_last());
        assert((a + b).last() == b.last());
        assert(with_sort_key(a, z) + (with_sort_key(b.drop_last(), z) + (if b.last().sort_key
            == z {
            seq![b.last()]
        } else {
            Seq::empty()
        })) =~= (with_sort_key(a, z) + with_sort_key(b.drop_last(), z)) + (if b.last().sort_key
            == z {
            seq![b.last()]
        } else {
            Seq::empty()
        }));
    }
}

/// A sequence without key-`z` items has an empty `z` subsequence.
proof fn lemma_with_sort_key_none(s: Seq<TransparentUi>, z: i64)
    requires
        forall|k: int| 0 <= k < s.len() ==> (#[trigger] s[k]).sort_key != z,
    ensures
        with_sort_key(s, z) == Seq::<TransparentUi>::empty(),
    decreases s.len(),
{
    if s.len() > 0 {
        assert forall|k: int|
            0 <= k < s.drop_last().len() implies (#[trigger] s.drop_last()[k]).sort_key != z by {
            assert(s.drop_last()[k] == s[k]);
        }
        lemma_with_sort_key_none(s.drop_last(), z);
        assert(s.last() == s[s.len() - 1]);
        assert(with_sort_key(s, z) =~= Seq::<TransparentUi>::empty());
    }
}

/// The phase-sort stage: orders the phase items by their sort key, so
/// that batches draw back to front. The sort is stable: the result
/// holds exactly the same items, and items of equal key keep their
/// relative order.
#[verifier::loop_isolation(false)]
#[verifier::rlimit(60)]
pub fn sort_phase_system(phase: &mut Vec<TransparentUi>)
    ensures
        phase_sorted(final(phase)@),
        final(phase)@.to_multiset() == old(phase)@.to_multiset(),
        final(phase)@.len() == old(phase)@.len(),
        forall|z: i64| #[trigger] with_sort_key(final(phase)@, z) == with_sort_key(old(phase)@, z),
{
    let mut rest: Vec<TransparentUi> = Vec::new();
    core::mem::swap(phase, &mut rest);
    proof {
        broadcast use vstd::seq_lib::group_to_multiset_ensures;

    }
    while rest.len() > 0
        invariant
            phase_sorted(phase@),
            phase@.to_multiset().add(rest@.to_multiset()) =~= old(phase)@.to_multiset(),
            phase@.len() + rest@.len() == old(phase)@.len(),
            forall|a: int, b: int|
                0 <= a < phase@.len() && 0 <= b < rest@.len() ==> phase@[a].sort_key
                    <= rest@[b].sort_key,
            forall|z: i64|
                #[trigger] with_sort_key(phase@, z) + with_sort_key(rest@, z) == with_sort_key(
                    old(phase)@,
                    z,
                ),
        decreases rest@.len(),
    {
        let mut m: usize = 0;
        let mut t: usize = 1;
        while t < rest.len()
            invariant
                m < rest@.len(),
                t <= rest@.len(),
                forall|b: int| 0 <= b < t ==> rest@[m as int].sort_key <= rest@[b].sort_key,
                forall|b: int| 0 <= b < m ==> rest@[b].sort_key > rest@[m as int].sort_key,
            decreases rest@.len() - t,
        {
            if rest[t].sort_key < rest[m].sort_key {
                proof {
                    assert forall|b: int|
                        0 <= b < t implies rest@[b].sort_key > rest@[t as int].sort_key by {
                        assert(rest@[m as int].sort_key <= rest@[b].sort_key);
                    }
                }
                m = t;
            }
            t = t + 1;
        }
        let ghost rest0 = rest@;
        let ghost prev = phase@;
        let x = rest.remove(m);
        phase.push(x);
        proof {
            broadcast use vstd::seq_lib::group_to_multiset_ensures;

            assert(rest0.remove(m as int).to_multiset() =~= rest0.to_multiset().remove(x));
            assert(phase@.to_multiset().add(rest@.to_multiset()) =~= old(phase)@.to_multiset());
            assert forall|a: int, b: int|
                0 <= a < phase@.len() && 0 <= b < rest@.len() implies phase@[a].sort_key
                <= rest@[b].sort_key by {
                if b < m {
                    assert(rest@[b] == rest0[b]);
                } else {
                    assert(rest@[b] == rest0[b + 1]);
                }
            }
            let front = rest0.take(m as int);
            let back = rest0.skip(m as int + 1);
            assert(rest0 =~= front + seq![x] + back);
            assert(rest@ =~= front + back);
            assert(phase@.drop_last() =~= prev);
            assert(phase@.last() == x);
            assert forall|z: i64|
                #[trigger] with_sort_key(phase@, z) + with_sort_key(rest@, z) == with_sort_key(
                    old(phase)@,
                    z,
                ) by {
                lemma_with_sort_key_add(front + seq![x], back, z);
                lemma_with_sort_key_add(front, seq![x], z);
                lemma_with_sort_key_add(front, back, z);
                assert(seq![x].drop_last() =~= Seq::<TransparentUi>::empty());
                assert(seq![x].last() == x);
                assert(with_sort_key(Seq::<TransparentUi>::empty(), z)
                    == Seq::<TransparentUi>::empty());
                assert(with_sort_key(prev, z) + with_sort_key(rest0, z) == with_sort_key(
                    old(phase)@,
                    z,
                ));
                if z == x.sort_key {
                    assert forall|k: int|
                        0 <= k < front.len() implies (#[trigger] front[k]).sort_key != z by {
                        assert(front[k] == rest0[k]);
                        assert(rest0[k].sort_key > x.sort_key);
                    }
                    lemma_with_sort_key_none(front, z);
                    assert(with_sort_key(seq![x], z) =~= seq![x]);
                    assert(with_sort_key(rest0, z) =~= seq![x] + with_sort_key(back, z));
                    assert(with_sort_key(phase@, z) =~= with_sort_key(prev, z).push(x));
                    assert(with_sort_key(rest@, z) =~= with_sort_key(back, z));
                    assert(with_sort_key(phase@, z) + with_sort_key(rest@, z) =~= with_sort_key(
                        prev,
                        z,
                    ) + (seq![x] + with_sort_key(back, z)));
                } else {
                    assert(with_sort_key(seq![x], z) =~= Seq::<TransparentUi>::empty());
                    assert(with_sort_key(rest0, z) =~= with_sort_key(front, z) + with_sort_key(
                        back,
                        z,
                    ));
                    assert(with_sort_key(phase@, z) =~= with_sort_key(prev, z));
                    assert(with_sort_key(rest@, z) =~= with_sort_key(front, z) + with_sort_key(
                        back,
                        z,
                    ));
                }
            }
        }
    }
    proof {
        assert forall|z: i64|
            #[trigger] with_sort_key(final(phase)@, z) == with_sort_key(old(phase)@, z) by {
            assert(with_sort_key(rest@, z) =~= Seq::<TransparentUi>::empty());
            assert(with_sort_key(phase@, z) + with_sort_key(rest@, z) =~= with_sort_key(
                phase@,
                z,
            ));
        }
    }
}

} // verus!
