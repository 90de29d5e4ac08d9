//! Bookkeeping of instanced planes: every instance of one source plane
//! lives in a pool that is drawn with a single instanced draw call.
//!
//! A pool owns a dense list of instance IDs whose order is the slot order
//! of its GPU instance buffer (the per-slot transforms are kept alongside,
//! in the same order, by the caller). An index maps every instance ID to
//! its pool and slot; removal swaps the last slot into the freed one so
//! the list stays dense, and a pool that loses its last instance is torn
//! down.
use vstd::prelude::*;
use vstd::arithmetic::power2::{pow2, lemma_pow2_unfold, lemma2_to64};
use rustc_hash::FxHashMap;
use crate::fx_map::{fx_get, fx_insert, fx_keys, fx_new, fx_remove};

verus! {

/// Slots a new pool's instance buffer starts with.
pub const INITIAL_POOL_CAPACITY: usize = 8;

/// The instances of one source plane.
#[derive(Debug, Clone)]
pub struct PlaneInstancePool {
    /// Source plane object ID this pool was seeded from.
    pub source_plane_id: u32,
    /// Instance handles, in slot order.
    pub instance_ids: Vec<u32>,
    /// Capacity (in slots) of the GPU instance buffer.
    pub buffer_capacity_slots: usize,
    /// Set when the slots changed since the last upload.
    pub dirty: bool,
}

/// The pool bookkeeping as plain values: source plane, instance IDs in slot
/// order, buffer capacity and dirty flag.
pub struct PoolView {
    /// Source plane object ID.
    pub source: u32,
    /// Instance IDs in slot order.
    pub ids: Seq<u32>,
    /// Buffer capacity in slots.
    pub capacity: usize,
    /// Whether the slots changed since the last upload.
    pub dirty: bool,
}

impl View for PlaneInstancePool {
    type V = PoolView;

    open spec fn view(&self) -> PoolView {
        PoolView { source: self.source_plane_id, ids: self.instance_ids@, capacity: self.buffer_capacity_slots, dirty: self.dirty }
    }
}

/// Where removing an instance left things: the pool and the freed slot;
/// when `moved` is set, the instance from the last slot `last` was moved
/// into `slot` (the caller swaps its transforms the same way), then the
/// last slot was dropped. `pool_destroyed` tells that the pool lost its
/// last instance and was torn down.
#[derive(Debug, Clone, Copy, PartialEq, Eq, Structural)]
pub struct PlaneRemoval {
    /// Pool (instanced mesh) the instance belonged to.
    pub mesh_id: u32,
    /// The freed slot.
    pub slot: usize,
    /// The last slot before the removal.
    pub last: usize,
    /// Whether the last slot moved into the freed one.
    pub moved: bool,
    /// Whether the pool was torn down.
    pub pool_destroyed: bool,
    /// Source plane of the pool.
    pub source_plane_id: u32,
}

/// All plane-instance pools, the instance index and the source-plane map.
pub struct PlaneInstancePools {
    pools: FxHashMap<u32, PlaneInstancePool>,
    index: FxHashMap<u32, (u32, usize)>,
    source_to_pool: FxHashMap<u32, u32>,
}

/// The index and the pools agree: every indexed instance sits in the slot
/// the index names, every slot's instance is indexed there, every pool is
/// non-empty, and the source map is the inverse of the pools' sources.
pub open spec fn pools_consistent(
    pools: Map<u32, PoolView>,
    index: Map<u32, (u32, usize)>,
    sources: Map<u32, u32>,
) -> bool {
    &&& forall|id: u32| #[trigger] index.contains_key(id) ==> {
        &&& pools.contains_key(index[id].0)
        &&& index[id].1 < pools[index[id].0].ids.len()
        &&& pools[index[id].0].ids[index[id].1 as int] == id
    }
    &&& forall|m: u32, s: int| pools.contains_key(m) && 0 <= s < pools[m].ids.len() ==> {
        &&& index.contains_key(#[trigger] pools[m].ids[s])
        &&& index[pools[m].ids[s]].0 == m
        &&& index[pools[m].ids[s]].1 == s
    }
    &&& forall|m: u32| #[trigger] pools.contains_key(m) ==> pools[m].ids.len() > 0
    &&& forall|m: u32| #[trigger] pools.contains_key(m) ==> sources.contains_key(pools[m].source) && sources[pools[m].source] == m
    &&& forall|s: u32| #[trigger] sources.contains_key(s) ==> pools.contains_key(sources[s]) && pools[sources[s]].source == s
}

impl PlaneInstancePools {
    /// The pools by mesh ID.
    pub closed spec fn pools(&self) -> Map<u32, PoolView> {
        self.pools@.map_values(|p: PlaneInstancePool| p@)
    }

    /// The pool and slot of each instance.
    pub closed spec fn index(&self) -> Map<u32, (u32, usize)> {
        self.index@
    }

    /// The pool of each source plane.
    pub closed spec fn sources(&self) -> Map<u32, u32> {
        self.source_to_pool@
    }

    /// Internal consistency.
    pub closed spec fn wf(&self) -> bool {
        &&& self.pools@.dom().finite()
        &&& pools_consistent(self.pools(), self.index@, self.source_to_pool@)
    }

    /// No pools, no instances.
    pub fn new() -> (r: Self)
        ensures
            r.wf(),
            r.pools() == Map::<u32, PoolView>::empty(),
            r.index() == Map::<u32, (u32, usize)>::empty(),
            r.sources() == Map::<u32, u32>::empty(),
    {
        let r = PlaneInstancePools { pools: fx_new(), index: fx_new(), source_to_pool: fx_new() };
        assert(r.pools() =~= Map::<u32, PoolView>::empty());
        r
    }

    /// The pool (instanced mesh ID) serving `source_plane_id`, if any.
    pub fn pool_for_source(&self, source_plane_id: u32) -> (r: Option<u32>)
        ensures
            match r {
                Some(m) => self.sources().contains_key(source_plane_id) && m == self.sources()[source_plane_id],
                None => !self.sources().contains_key(source_plane_id),
            },
    {
        match fx_get(&self.source_to_pool, source_plane_id) {
            Some(m) => Some(*m),
            None => None,
        }
    }

    /// The pool and slot of instance `id`, if it is a plane instance.
    pub fn slot_of(&self, id: u32) -> (r: Option<(u32, usize)>)
        ensures
            match r {
                Some(p) => self.index().contains_key(id) && p == self.index()[id],
                None => !self.index().contains_key(id),
            },
    {
        match fx_get(&self.index, id) {
            Some(p) => Some(*p),
            None => None,
        }
    }
}


/// The instance IDs of a pool after removing slot `slot` by moving the last
/// slot into it.
pub open spec fn swap_removed(ids: Seq<u32>, slot: int) -> Seq<u32> {
    ids.update(slot, ids.last()).drop_last()
}

/// Instance IDs within one pool are distinct, since each is indexed at its
/// own slot.
proof fn lemma_pool_ids_distinct(pools: Map<u32, PoolView>, index: Map<u32, (u32, usize)>, sources: Map<u32, u32>, m: u32)
    requires
        pools_consistent(pools, index, sources),
        pools.contains_key(m),
    ensures
        pools[m].ids.no_duplicates(),
{
    let ids = pools[m].ids;
    assert forall|a: int, b: int| 0 <= a < ids.len() && 0 <= b < ids.len() && a != b implies ids[a] != ids[b] by {
        assert(index[pools[m].ids[a]].1 == a);
        assert(index[pools[m].ids[b]].1 == b);
    }
}

impl PlaneInstancePools {
    /// Add instance `instance_id` of `source_plane_id`: to the source's pool
    /// when it has one, else to a new pool under `new_mesh_id` with the
    /// initial capacity. The instance takes the next slot, and the pool is
    /// marked dirty. Returns the pool, the slot and whether the pool is new.
    pub fn instantiate(&mut self, source_plane_id: u32, new_mesh_id: u32, instance_id: u32) -> (r: (u32, usize, bool))
        requires
            old(self).wf(),
            !old(self).index().contains_key(instance_id),
            !old(self).sources().contains_key(source_plane_id) ==> !old(self).pools().contains_key(new_mesh_id),
        ensures
            final(self).wf(),
            r.2 == !old(self).sources().contains_key(source_plane_id),
            r.0 == (if r.2 { new_mesh_id } else { old(self).sources()[source_plane_id] }),
            r.1 == (if r.2 { 0 } else { old(self).pools()[r.0].ids.len() as int }),
            final(self).index() == old(self).index().insert(instance_id, (r.0, r.1)),
            final(self).sources() == old(self).sources().insert(source_plane_id, r.0),
            final(self).pools() == old(self).pools().insert(r.0, if r.2 {
                PoolView { source: source_plane_id, ids: seq![instance_id], capacity: INITIAL_POOL_CAPACITY, dirty: true }
            } else {
                PoolView { ids: old(self).pools()[r.0].ids.push(instance_id), dirty: true, ..old(self).pools()[r.0] }
            }),
    {
        let ghost pools0 = self.pools();
        let ghost index0 = self.index@;
        let ghost sources0 = self.source_to_pool@;
        let (mesh_id, slot, created) = match fx_get(&self.source_to_pool, source_plane_id) {
            Some(m) => {
                let m = *m;
                let mut pool = match fx_remove(&mut self.pools, m) {
                    Some(p) => p,
                    None => {
                        proof {
                            assert(pools0.contains_key(m));
                        }
                        return (m, 0, false);
                    },
                };
                let slot = pool.instance_ids.len();
                pool.instance_ids.push(instance_id);
                pool.dirty = true;
                let ghost pv = pool@;
                fx_insert(&mut self.pools, m, pool);
                proof {
                    assert(pv == PoolView { ids: pools0[m].ids.push(instance_id), dirty: true, ..pools0[m] });
                    assert(self.pools() =~= pools0.insert(m, pv));
                }
                (m, slot, false)
            },
            None => {
                let pool = PlaneInstancePool {
                    source_plane_id,
                    instance_ids: vec![instance_id],
                    buffer_capacity_slots: INITIAL_POOL_CAPACITY,
                    dirty: true,
                };
                let ghost pv = pool@;
                fx_insert(&mut self.pools, new_mesh_id, pool);
                proof {
                    assert(pv.ids =~= seq![instance_id]);
                    assert(self.pools() =~= pools0.insert(new_mesh_id, pv));
                }
                fx_insert(&mut self.source_to_pool, source_plane_id, new_mesh_id);
                (new_mesh_id, 0, true)
            },
        };
        fx_insert(&mut self.index, instance_id, (mesh_id, slot));
        proof {
            let np = if created {
                PoolView { source: source_plane_id, ids: seq![instance_id], capacity: INITIAL_POOL_CAPACITY, dirty: true }
            } else {
                PoolView { ids: pools0[mesh_id].ids.push(instance_id), dirty: true, ..pools0[mesh_id] }
            };
            assert(self.pools() == pools0.insert(mesh_id, np));
            if !created {
                assert(sources0.insert(source_plane_id, mesh_id) =~= sources0);
            }
            let pools1 = self.pools();
            let index1 = self.index@;
            let sources1 = self.source_to_pool@;
            assert forall|id: u32| #[trigger] index1.contains_key(id) implies {
                &&& pools1.contains_key(index1[id].0)
                &&& index1[id].1 < pools1[index1[id].0].ids.len()
                &&& pools1[index1[id].0].ids[index1[id].1 as int] == id
            } by {
                if id != instance_id {
                    let (m2, s2) = index0[id];
                    assert(pools0.contains_key(m2));
                    if m2 == mesh_id {
                        assert(!created);
                        assert(pools1[m2].ids[s2 as int] == pools0[m2].ids[s2 as int]);
                    }
                }
            }
            assert forall|m: u32, sl: int| pools1.contains_key(m) && 0 <= sl < pools1[m].ids.len() implies {
                &&& index1.contains_key(#[trigger] pools1[m].ids[sl])
                &&& index1[pools1[m].ids[sl]].0 == m
                &&& index1[pools1[m].ids[sl]].1 == sl
            } by {
                if m == mesh_id {
                    if sl < np.ids.len() - 1 {
                        assert(!created);
                        assert(pools1[m].ids[sl] == pools0[m].ids[sl]);
                        assert(index0[pools0[m].ids[sl]].1 == sl);
                        assert(pools0[m].ids[sl] != instance_id);
                    }
                } else {
                    assert(pools1[m] == pools0[m]);
                    assert(index0.contains_key(pools0[m].ids[sl]));
                    assert(pools0[m].ids[sl] != instance_id);
                }
            }
            assert forall|m: u32| #[trigger] pools1.contains_key(m) implies sources1.contains_key(pools1[m].source) && sources1[pools1[m].source] == m by {
                if m != mesh_id {
                    assert(pools1[m] == pools0[m]);
                    if created {
                        assert(pools0[m].source != source_plane_id);
                    }
                }
            }
            assert forall|src: u32| #[trigger] sources1.contains_key(src) implies pools1.contains_key(sources1[src]) && pools1[sources1[src]].source == src by {
                if src != source_plane_id {
                    assert(sources0[src] != mesh_id);
                }
            }
        }
        (mesh_id, slot, created)
    }
}


impl PlaneInstancePools {
    /// Remove plane instance `id`, swap-removing its slot to keep the pool
    /// dense; a pool left empty is torn down and its source plane unmapped.
    /// Returns `None`, changing nothing, when `id` is not a plane instance.
    pub fn remove_instance(&mut self, id: u32) -> (r: Option<PlaneRemoval>)
        requires
            old(self).wf(),
        ensures
            final(self).wf(),
            r.is_some() == old(self).index().contains_key(id),
            r.is_none() ==> final(self).pools() == old(self).pools() && final(self).index() == old(self).index()
                && final(self).sources() == old(self).sources(),
            r matches Some(rm) ==> {
                let m = rm.mesh_id;
                let p = old(self).pools()[m];
                &&& (m, rm.slot) == old(self).index()[id]
                &&& rm.last + 1 == p.ids.len()
                &&& rm.moved == (rm.slot != rm.last)
                &&& rm.source_plane_id == p.source
                &&& rm.pool_destroyed == (p.ids.len() == 1)
                &&& rm.pool_destroyed ==> {
                    &&& final(self).pools() == old(self).pools().remove(m)
                    &&& final(self).sources() == old(self).sources().remove(p.source)
                }
                &&& !rm.pool_destroyed ==> {
                    &&& final(self).pools() == old(self).pools().insert(m, PoolView {
                        ids: swap_removed(p.ids, rm.slot as int),
                        dirty: true,
                        ..p
                    })
                    &&& final(self).sources() == old(self).sources()
                }
                &&& final(self).index() == (if rm.moved {
                    old(self).index().remove(id).insert(p.ids[rm.last as int], (m, rm.slot))
                } else {
                    old(self).index().remove(id)
                })
            },
    {
        let ghost pools0 = self.pools();
        let ghost index0 = self.index@;
        let ghost sources0 = self.source_to_pool@;
        let (mesh_id, slot) = match fx_remove(&mut self.index, id) {
            Some(p) => p,
            None => {
                assert(self.index@ =~= index0);
                return None;
            },
        };
        let mut pool = match fx_remove(&mut self.pools, mesh_id) {
            Some(p) => p,
            None => {
                proof {
                    assert(pools0.contains_key(mesh_id));
                }
                return None;
            },
        };
        let ghost ids0 = pool.instance_ids@;
        proof {
            assert(ids0 == pools0[mesh_id].ids);
            lemma_pool_ids_distinct(pools0, index0, sources0, mesh_id);
        }
        let len = pool.instance_ids.len();
        let last = len - 1;
        let moved = slot != last;
        if moved {
            let moved_id = pool.instance_ids[last];
            pool.instance_ids.set(slot, moved_id);
            fx_insert(&mut self.index, moved_id, (mesh_id, slot));
        }
        pool.instance_ids.pop();
        pool.dirty = true;
        proof {
            assert(pool.instance_ids@ =~= swap_removed(ids0, slot as int));
        }
        let source = pool.source_plane_id;
        let destroyed = pool.instance_ids.len() == 0;
        let ghost pv = pool@;
        if destroyed {
            fx_remove(&mut self.source_to_pool, source);
            proof {
                assert(self.pools() =~= pools0.remove(mesh_id));
            }
        } else {
            fx_insert(&mut self.pools, mesh_id, pool);
            proof {
                assert(self.pools() =~= pools0.insert(mesh_id, pv));
            }
        }
        proof {
            let pools1 = self.pools();
            let index1 = self.index@;
            let sources1 = self.source_to_pool@;
            let nids = swap_removed(ids0, slot as int);
            assert forall|id2: u32| #[trigger] index1.contains_key(id2) implies {
                &&& pools1.contains_key(index1[id2].0)
                &&& index1[id2].1 < pools1[index1[id2].0].ids.len()
                &&& pools1[index1[id2].0].ids[index1[id2].1 as int] == id2
            } by {
                if moved && id2 == ids0[last as int] {
                    assert(index1[id2] == (mesh_id, slot));
                } else {
                    assert(id2 != id);
                    assert(index1[id2] == index0[id2]);
                    let (m2, s2) = index0[id2];
                    if m2 == mesh_id {
                        assert(ids0[s2 as int] == id2);
                        assert(s2 != slot);
                        assert(s2 != last);
                        assert(nids[s2 as int] == id2);
                    } else {
                        assert(pools1[m2] == pools0[m2]);
                    }
                }
            }
            assert forall|m: u32, sl: int| pools1.contains_key(m) && 0 <= sl < pools1[m].ids.len() implies {
                &&& index1.contains_key(#[trigger] pools1[m].ids[sl])
                &&& index1[pools1[m].ids[sl]].0 == m
                &&& index1[pools1[m].ids[sl]].1 == sl
            } by {
                if m == mesh_id {
                    assert(pools1[m].ids == nids);
                    if sl == slot && moved {
                        assert(nids[sl] == ids0[last as int]);
                    } else {
                        assert(nids[sl] == ids0[sl]);
                        assert(index0[ids0[sl]].1 == sl);
                        assert(ids0[sl] != id);
                        if moved {
                            assert(ids0[sl] != ids0[last as int]);
                        }
                    }
                } else {
                    assert(pools1[m] == pools0[m]);
                    let v = pools0[m].ids[sl];
                    assert(index0[v].0 == m);
                    assert(v != id);
                    if moved {
                        assert(index0[ids0[last as int]].0 == mesh_id);
                    }
                }
            }
            assert forall|m: u32| #[trigger] pools1.contains_key(m) implies sources1.contains_key(pools1[m].source) && sources1[pools1[m].source] == m by {
                if m != mesh_id {
                    assert(pools1[m] == pools0[m]);
                    if destroyed {
                        assert(pools0[m].source != source);
                    }
                }
            }
            assert forall|src: u32| #[trigger] sources1.contains_key(src) implies pools1.contains_key(sources1[src]) && pools1[sources1[src]].source == src by {
                assert(sources0.contains_key(src));
                if destroyed {
                    assert(src != source);
                    assert(sources0[src] != mesh_id);
                }
            }
            if moved {
                assert(index1 =~= index0.remove(id).insert(ids0[last as int], (mesh_id, slot)));
            } else {
                assert(index1 =~= index0.remove(id));
            }
            if !destroyed {
                assert(sources1 =~= sources0);
            }
        }
        Some(PlaneRemoval { mesh_id, slot, last, moved, pool_destroyed: destroyed, source_plane_id: source })
    }
}


impl PlaneInstancePools {
    /// A transform of plane instance `id` is about to change: its pool is
    /// marked dirty, and its pool and slot are returned. Returns `None`,
    /// changing nothing, when `id` is not a plane instance.
    pub fn mark_instance_dirty(&mut self, id: u32) -> (r: Option<(u32, usize)>)
        requires
            old(self).wf(),
        ensures
            final(self).wf(),
            final(self).index() == old(self).index(),
            final(self).sources() == old(self).sources(),
            match r {
                Some(p) => {
                    &&& old(self).index().contains_key(id)
                    &&& p == old(self).index()[id]
                    &&& final(self).pools() == old(self).pools().insert(p.0, PoolView { dirty: true, ..old(self).pools()[p.0] })
                },
                None => !old(self).index().contains_key(id) && final(self).pools() == old(self).pools(),
            },
    {
        let ghost pools0 = self.pools();
        let (m, slot) = match fx_get(&self.index, id) {
            Some(p) => *p,
            None => {
                return None;
            },
        };
        let mut pool = match fx_remove(&mut self.pools, m) {
            Some(p) => p,
            None => {
                proof {
                    assert(pools0.contains_key(m));
                }
                return None;
            },
        };
        pool.dirty = true;
        let ghost pv = pool@;
        fx_insert(&mut self.pools, m, pool);
        proof {
            assert(self.pools() =~= pools0.insert(m, pv));
            assert(pv == PoolView { dirty: true, ..pools0[m] });
        }
        Some((m, slot))
    }

    /// The pools whose slots changed since their last upload, each once.
    pub fn dirty_pools(&self) -> (r: Vec<u32>)
        ensures
            r@.no_duplicates(),
            forall|m: u32| #[trigger] r@.contains(m) <==> self.pools().contains_key(m) && self.pools()[m].dirty,
    {
        let keys = fx_keys(&self.pools);
        let mut out: Vec<u32> = Vec::new();
        let mut i: usize = 0;
        while i < keys.len()
            invariant
                i <= keys@.len(),
                keys@.no_duplicates(),
                keys@.to_set() == self.pools@.dom(),
                out@.no_duplicates(),
                forall|m: u32| #[trigger] out@.contains(m) <==> keys@.subrange(0, i as int).contains(m) && self.pools().contains_key(m) && self.pools()[m].dirty,
            decreases keys@.len() - i,
        {
            let m = keys[i];
            let ghost s0 = keys@.subrange(0, i as int);
            let ghost s1 = keys@.subrange(0, i + 1);
            proof {
                assert(s1 =~= s0.push(m));
                assert(keys@.to_set().contains(m));
                assert(!s0.contains(m)) by {
                    if s0.contains(m) {
                        let j = choose|j: int| 0 <= j < s0.len() && s0[j] == m;
                        assert(keys@[j] == keys@[i as int]);
                    }
                }
                assert forall|k: u32| #[trigger] s1.contains(k) <==> s0.contains(k) || k == m by {
                    if s1.contains(k) {
                        let j = choose|j: int| 0 <= j < s1.len() && s1[j] == k;
                        if j < i {
                            assert(s0[j] == k);
                        }
                    }
                    if s0.contains(k) {
                        let j = choose|j: int| 0 <= j < s0.len() && s0[j] == k;
                        assert(s1[j] == k);
                    }
                    if k == m {
                        assert(s1[i as int] == k);
                    }
                }
            }
            match fx_get(&self.pools, m) {
                Some(pool) => {
                    if pool.dirty {
                        let ghost o0 = out@;
                        out.push(m);
                        proof {
                            assert forall|k: u32| #[trigger] out@.contains(k) <==> o0.contains(k) || k == m by {
                                if out@.contains(k) {
                                    let j = choose|j: int| 0 <= j < out@.len() && out@[j] == k;
                                    if j < o0.len() {
                                        assert(o0[j] == k);
                                    }
                                }
                                if o0.contains(k) {
                                    let j = choose|j: int| 0 <= j < o0.len() && o0[j] == k;
                                    assert(out@[j] == k);
                                }
                                if k == m {
                                    assert(out@[o0.len() as int] == k);
                                }
                            }
                            assert forall|a: int, b: int| 0 <= a < out@.len() && 0 <= b < out@.len() && a != b implies out@[a] != out@[b] by {
                                if a < o0.len() && b < o0.len() {
                                } else if a < o0.len() {
                                    assert(o0.contains(o0[a]));
                                } else if b < o0.len() {
                                    assert(o0.contains(o0[b]));
                                }
                            }
                        }
                    }
                },
                None => {},
            }
            i = i + 1;
        }
        proof {
            assert(keys@.subrange(0, keys@.len() as int) =~= keys@);
            assert forall|m: u32| #[trigger] out@.contains(m) <==> self.pools().contains_key(m) && self.pools()[m].dirty by {
                assert(keys@.to_set().contains(m) <==> keys@.contains(m));
            }
        }
        out
    }

    /// Pool `mesh_id` was uploaded into a buffer of `capacity` slots: it is
    /// clean again and records that capacity.
    pub fn mark_uploaded(&mut self, mesh_id: u32, capacity: usize)
        requires
            old(self).wf(),
        ensures
            final(self).wf(),
            final(self).index() == old(self).index(),
            final(self).sources() == old(self).sources(),
            final(self).pools() == (if old(self).pools().contains_key(mesh_id) {
                old(self).pools().insert(mesh_id, PoolView { dirty: false, capacity, ..old(self).pools()[mesh_id] })
            } else {
                old(self).pools()
            }),
    {
        let ghost pools0 = self.pools();
        match fx_remove(&mut self.pools, mesh_id) {
            Some(mut pool) => {
                pool.dirty = false;
                pool.buffer_capacity_slots = capacity;
                let ghost pv = pool@;
                fx_insert(&mut self.pools, mesh_id, pool);
                proof {
                    assert(self.pools() =~= pools0.insert(mesh_id, pv));
                }
            },
            None => {
                assert(self.pools() =~= pools0);
            },
        }
    }
}

/// The least power of two that is at least `n` (1 for 0).
pub open spec fn is_next_power_of_two(n: int, p: int) -> bool {
    &&& exists|e: nat| p == pow2(e)
    &&& p >= n
    &&& (p == 1 || p < 2 * n)
}

/// The least power of two that is at least `n`.
pub fn next_power_of_two(n: usize) -> (r: usize)
    requires
        2 * n <= usize::MAX + 1,
    ensures
        is_next_power_of_two(n as int, r as int),
{
    let mut p: usize = 1;
    let ghost mut e: nat = 0;
    proof {
        lemma2_to64();
    }
    while p < n
        invariant
            p == pow2(e),
            p >= 1,
            2 * n <= usize::MAX + 1,
            p == 1 || p < 2 * n,
        decreases 2 * n - p,
    {
        proof {
            lemma_pow2_unfold(e + 1);
        }
        p = p * 2;
        proof {
            e = e + 1;
        }
    }
    p
}

/// The buffer capacity a pool of `needed` slots must be re-uploaded into
/// when its buffer holds only `capacity`: the next power of two, at least
/// the initial capacity; that is, the least power of two that is at least
/// both. `None` when the buffer is large enough.
pub fn grown_pool_capacity(needed: usize, capacity: usize) -> (r: Option<usize>)
    requires
        2 * needed <= usize::MAX + 1,
    ensures
        r is Some <==> needed > capacity,
        r matches Some(c) ==> {
            &&& exists|e: nat| c == pow2(e)
            &&& c >= needed && c >= INITIAL_POOL_CAPACITY
            &&& c == INITIAL_POOL_CAPACITY || c < 2 * needed
        },
{
    if needed > capacity {
        let p = next_power_of_two(needed);
        proof {
            lemma2_to64();
        }
        Some(if p >= INITIAL_POOL_CAPACITY { p } else { INITIAL_POOL_CAPACITY })
    } else {
        None
    }
}


// ---------------------------------------------------------------------------
// Laws
// ---------------------------------------------------------------------------

impl PlaneInstancePools {
    /// Every plane instance sits in the slot the index names, every slot's
    /// instance is indexed there, no pool is empty, and the source map is
    /// the inverse of the pools' sources.
    pub proof fn law_index_matches_slots(&self)
        requires
            self.wf(),
        ensures
            pools_consistent(self.pools(), self.index(), self.sources()),
            forall|m: u32| #[trigger] self.pools().contains_key(m) ==> self.pools()[m].ids.no_duplicates(),
    {
        assert forall|m: u32| #[trigger] self.pools().contains_key(m) implies self.pools()[m].ids.no_duplicates() by {
            lemma_pool_ids_distinct(self.pools(), self.index(), self.sources(), m);
        }
    }
}

/// Removing the instance that was just added to a pool (it took the last
/// slot, so nothing moves) restores the pool's slots.
pub proof fn law_remove_undoes_instantiate(ids: Seq<u32>, id: u32)
    ensures
        swap_removed(ids.push(id), ids.len() as int) == ids,
{
    assert(swap_removed(ids.push(id), ids.len() as int) =~= ids);
}

/// Swap-removal keeps every other instance and drops exactly the removed
/// one, in a pool without repeated IDs.
pub proof fn law_swap_remove_keeps_others(ids: Seq<u32>, slot: int)
    requires
        ids.no_duplicates(),
        0 <= slot < ids.len(),
    ensures
        swap_removed(ids, slot).len() == ids.len() - 1,
        swap_removed(ids, slot).no_duplicates(),
        forall|v: u32| #[trigger] swap_removed(ids, slot).contains(v) <==> ids.contains(v) && v != ids[slot],
{
    crate::spatial_index::lemma_swap_remove(ids, slot);
}

} // verus!
