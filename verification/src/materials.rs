//! Material bookkeeping: materials by ID and the material bound to each
//! object. The material values themselves are opaque here.
use vstd::prelude::*;
use rustc_hash::FxHashMap;
use crate::fx_map::{fx_get, fx_insert, fx_new, fx_remove};

verus! {

/// Materials by ID, the next material ID, and each object's material.
pub struct MaterialLibrary<M> {
    materials: FxHashMap<u32, M>,
    object_materials: FxHashMap<u32, u32>,
    next_material_id: u32,
}

impl<M> MaterialLibrary<M> {
    /// The materials by ID.
    pub closed spec fn materials(&self) -> Map<u32, M> {
        self.materials@
    }

    /// The material ID bound to each object.
    pub closed spec fn bindings(&self) -> Map<u32, u32> {
        self.object_materials@
    }

    /// The ID the next created material gets.
    pub closed spec fn next_id(&self) -> u32 {
        self.next_material_id
    }

    /// IDs start at 1, and every material ID was handed out before `next_id`.
    pub closed spec fn wf(&self) -> bool {
        &&& self.next_material_id >= 1
        &&& forall|id: u32| #[trigger] self.materials@.contains_key(id) ==> id < self.next_material_id
    }

    /// A well-formed library has handed out every material ID it holds,
    /// and its next ID is at least 1.
    pub proof fn lemma_ids_handed_out(&self)
        requires
            self.wf(),
        ensures
            self.next_id() >= 1,
            forall|id: u32| #[trigger] self.materials().contains_key(id) ==> id < self.next_id(),
    {
    }

    /// No materials and no bindings; IDs start at 1.
    pub fn new() -> (r: Self)
        ensures
            r.wf(),
            r.materials() == Map::<u32, M>::empty(),
            r.bindings() == Map::<u32, u32>::empty(),
            r.next_id() == 1,
    {
        let r = MaterialLibrary { materials: fx_new(), object_materials: fx_new(), next_material_id: 1 };
        assert(r.materials() =~= Map::<u32, M>::empty());
        assert(r.bindings() =~= Map::<u32, u32>::empty());
        r
    }

    /// Create a material and return its ID.
    pub fn create_material(&mut self, material: M) -> (id: u32)
        requires
            old(self).wf(),
            old(self).next_id() < u32::MAX,
        ensures
            final(self).wf(),
            id == old(self).next_id(),
            id != 0,
            !old(self).materials().contains_key(id),
            final(self).next_id() == old(self).next_id() + 1,
            final(self).materials() == old(self).materials().insert(id, material),
            final(self).bindings() == old(self).bindings(),
    {
        let id = self.next_material_id;
        self.next_material_id = self.next_material_id + 1;
        fx_insert(&mut self.materials, id, material);
        id
    }

    /// Replace an existing material. Returns `true` if the material
    /// existed; otherwise nothing changes.
    pub fn update_material(&mut self, id: u32, material: M) -> (r: bool)
        requires
            old(self).wf(),
        ensures
            final(self).wf(),
            r == old(self).materials().contains_key(id),
            final(self).materials() == (if r { old(self).materials().insert(id, material) } else { old(self).materials() }),
            final(self).bindings() == old(self).bindings(),
            final(self).next_id() == old(self).next_id(),
    {
        match fx_remove(&mut self.materials, id) {
            Some(_) => {
                fx_insert(&mut self.materials, id, material);
                assert(self.materials() =~= old(self).materials().insert(id, material));
                true
            },
            None => {
                assert(self.materials() =~= old(self).materials());
                false
            },
        }
    }

    /// Remove a material by ID. Returns `true` if it existed.
    pub fn remove_material(&mut self, id: u32) -> (r: bool)
        requires
            old(self).wf(),
        ensures
            final(self).wf(),
            r == old(self).materials().contains_key(id),
            final(self).materials() == old(self).materials().remove(id),
            final(self).bindings() == old(self).bindings(),
            final(self).next_id() == old(self).next_id(),
    {
        fx_remove(&mut self.materials, id).is_some()
    }

    /// Bind a material to an object. Returns `true` if the object exists;
    /// otherwise nothing changes.
    pub fn set_object_material(&mut self, object_id: u32, material_id: u32, object_exists: bool) -> (r: bool)
        requires
            old(self).wf(),
        ensures
            final(self).wf(),
            r == object_exists,
            final(self).bindings() == (if r { old(self).bindings().insert(object_id, material_id) } else { old(self).bindings() }),
            final(self).materials() == old(self).materials(),
            final(self).next_id() == old(self).next_id(),
    {
        if object_exists {
            fx_insert(&mut self.object_materials, object_id, material_id);
            true
        } else {
            false
        }
    }

    /// The ID the next created material gets.
    pub(crate) fn next_material_id(&self) -> (r: u32)
        ensures
            r == self.next_id(),
    {
        self.next_material_id
    }

    /// The material ID bound to an object, if any.
    pub fn get_object_material(&self, object_id: u32) -> (r: Option<u32>)
        ensures
            r == (if self.bindings().contains_key(object_id) { Some(self.bindings()[object_id]) } else { None }),
    {
        match fx_get(&self.object_materials, object_id) {
            Some(m) => Some(*m),
            None => None,
        }
    }

    /// The material stored under `id`, if any.
    pub fn get_material(&self, id: u32) -> (r: Option<&M>)
        ensures
            match r {
                Some(m) => self.materials().contains_key(id) && *m == self.materials()[id],
                None => !self.materials().contains_key(id),
            },
    {
        fx_get(&self.materials, id)
    }
}


impl<M> MaterialLibrary<M> {
    /// Objects are being destroyed: their material bindings go.
    pub fn unbind_objects(&mut self, object_ids: &Vec<u32>)
        requires
            old(self).wf(),
        ensures
            final(self).wf(),
            final(self).bindings() == old(self).bindings().remove_keys(object_ids@.to_set()),
            final(self).materials() == old(self).materials(),
            final(self).next_id() == old(self).next_id(),
    {
        let mut i: usize = 0;
        proof {
            assert(old(self).bindings().remove_keys(object_ids@.subrange(0, 0).to_set()) =~= old(self).bindings());
        }
        while i < object_ids.len()
            invariant
                i <= object_ids@.len(),
                self.wf(),
                self.materials() == old(self).materials(),
                self.next_id() == old(self).next_id(),
                self.bindings() == old(self).bindings().remove_keys(object_ids@.subrange(0, i as int).to_set()),
            decreases object_ids@.len() - i,
        {
            fx_remove(&mut self.object_materials, object_ids[i]);
            proof {
                assert(object_ids@.subrange(0, i + 1).to_set() =~= object_ids@.subrange(0, i as int).to_set().insert(object_ids@[i as int])) by {
                    assert(object_ids@.subrange(0, i + 1) =~= object_ids@.subrange(0, i as int).push(object_ids@[i as int]));
                    object_ids@.subrange(0, i as int).lemma_push_to_set_commute(object_ids@[i as int]);
                }
                assert(self.bindings() =~= old(self).bindings().remove_keys(object_ids@.subrange(0, i + 1).to_set()));
            }
            i = i + 1;
        }
        assert(object_ids@.subrange(0, object_ids@.len() as int) =~= object_ids@);
    }

    /// Materials owned by a destroyed model go.
    pub fn remove_materials(&mut self, ids: &Vec<u32>)
        requires
            old(self).wf(),
        ensures
            final(self).wf(),
            final(self).materials() == old(self).materials().remove_keys(ids@.to_set()),
            final(self).bindings() == old(self).bindings(),
            final(self).next_id() == old(self).next_id(),
    {
        let mut i: usize = 0;
        proof {
            assert(old(self).materials().remove_keys(ids@.subrange(0, 0).to_set()) =~= old(self).materials());
        }
        while i < ids.len()
            invariant
                i <= ids@.len(),
                self.wf(),
                self.bindings() == old(self).bindings(),
                self.next_id() == old(self).next_id(),
                self.materials() == old(self).materials().remove_keys(ids@.subrange(0, i as int).to_set()),
            decreases ids@.len() - i,
        {
            self.remove_material(ids[i]);
            proof {
                assert(ids@.subrange(0, i + 1).to_set() =~= ids@.subrange(0, i as int).to_set().insert(ids@[i as int])) by {
                    assert(ids@.subrange(0, i + 1) =~= ids@.subrange(0, i as int).push(ids@[i as int]));
                    ids@.subrange(0, i as int).lemma_push_to_set_commute(ids@[i as int]);
                }
                assert(self.materials() =~= old(self).materials().remove_keys(ids@.subrange(0, i + 1).to_set()));
            }
            i = i + 1;
        }
        assert(ids@.subrange(0, ids@.len() as int) =~= ids@);
    }
}

} // verus!
