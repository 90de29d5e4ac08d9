//! Models and their instances: the sub-mesh objects a model is drawn
//! with, the material bound to each, and instances that copy a model's
//! objects and clone its materials.
use vstd::prelude::*;
use rustc_hash::FxHashMap;
use crate::fx_map::{fx_get, fx_insert, fx_keys, fx_new, fx_remove};
use crate::materials::MaterialLibrary;

verus! {

/// What an object is drawn with: its vertex buffer, vertex count and
/// texture (0 = untextured).
#[derive(Debug, Clone, Copy, PartialEq, Eq, Structural)]
pub struct MeshObject {
    /// Backend vertex buffer.
    pub buffer: u32,
    /// Vertices in the buffer.
    pub vertex_count: u32,
    /// Texture ID (0 = untextured).
    pub texture_id: u32,
}

/// A loaded model: one object per sub-mesh, and the material of each
/// sub-mesh by position.
#[derive(Debug)]
pub struct Model {
    /// The sub-mesh objects.
    pub mesh_object_ids: Vec<u32>,
    /// The sub-mesh materials.
    pub mesh_material_ids: Vec<u32>,
    /// The model has a skeleton.
    pub has_skeleton: bool,
    /// The model is skinned on the GPU.
    pub is_skinned: bool,
}

/// An instance of a model: its own objects, and its own material for each
/// (0 where the model's sub-mesh had none).
#[derive(Debug)]
pub struct ModelInstance {
    /// The model this instance was made from.
    pub source_model_id: u32,
    /// The instance's objects.
    pub mesh_object_ids: Vec<u32>,
    /// The instance's materials, by position (0 = none).
    pub mesh_material_ids: Vec<u32>,
    /// For each instance object, the position of the model sub-mesh it
    /// copies.
    pub source_mesh_indices: Vec<usize>,
}

/// Positions as integers.
pub open spec fn as_positions(s: Seq<usize>) -> Seq<int> {
    Seq::new(s.len(), |j: int| s[j] as int)
}

/// Number of nonzero IDs in `ids`: the materials a run of objects cloned.
pub open spec fn clone_count(ids: Seq<u32>) -> nat
    decreases ids.len(),
{
    if ids.len() == 0 {
        0
    } else {
        clone_count(ids.drop_last()) + if ids.last() != 0 { 1nat } else { 0nat }
    }
}

/// `picked` lists, in increasing order, exactly the positions among the
/// first `upto` of `ids` whose object exists in `objects`.
pub open spec fn picks_present(ids: Seq<u32>, objects: Map<u32, MeshObject>, picked: Seq<int>, upto: int) -> bool {
    &&& forall|j: int| 0 <= j < picked.len() ==> 0 <= #[trigger] picked[j] < upto
    &&& forall|j1: int, j2: int| 0 <= j1 < j2 < picked.len() ==> picked[j1] < picked[j2]
    &&& forall|k: int| 0 <= k < upto ==> (objects.contains_key(#[trigger] ids[k]) <==> picked.contains(k))
}

/// What `instantiate_model` leaves: from `pre` to `post`, an instance of
/// model `src` with objects `inst_objs` and materials `inst_mats`, made from
/// the model's objects at positions `picked`, those that exist.
pub open spec fn instantiated<M: Clone>(
    pre: ModelRegistry<M>,
    post: ModelRegistry<M>,
    src: u32,
    inst_objs: Seq<u32>,
    inst_mats: Seq<u32>,
    picked: Seq<int>,
) -> bool {
    let ids = pre.models()[src].mesh_object_ids@;
    let mats = pre.models()[src].mesh_material_ids@;
    &&& picks_present(ids, pre.objects(), picked, ids.len() as int)
    &&& inst_objs.len() == picked.len()
    &&& inst_mats.len() == picked.len()
    &&& post.next_object_id() == pre.next_object_id() + picked.len()
    &&& post.next_material_id() == pre.next_material_id() + clone_count(inst_mats)
    &&& step_facts(pre, post.objects(), post.materials(), post.bindings(), post.next_object_id(),
        post.next_material_id(), ids, mats, inst_objs, inst_mats, picked)
}

/// From registry `pre` to the objects, materials, bindings and next IDs
/// given: each instance object `inst_objs[j]` is a fresh copy of the model
/// object at position `picked[j]`; a material is cloned, and bound to the
/// copy, exactly where that sub-mesh has one that exists, the clones taking
/// the next material IDs in order; nothing else changes.
pub open spec fn step_facts<M: Clone>(
    pre: ModelRegistry<M>,
    post_objects: Map<u32, MeshObject>,
    post_materials: Map<u32, M>,
    post_bindings: Map<u32, u32>,
    post_next_object_id: u32,
    post_next_material_id: u32,
    ids: Seq<u32>,
    mats: Seq<u32>,
    inst_objs: Seq<u32>,
    inst_mats: Seq<u32>,
    picked: Seq<int>,
) -> bool {
    let o = pre.next_object_id();
    let mo = pre.next_material_id();
    &&& forall|j: int| 0 <= j < picked.len() ==> #[trigger] inst_objs[j] == o + j
    &&& forall|j: int| 0 <= j < picked.len() ==> {
        &&& post_objects.contains_key(#[trigger] inst_objs[j])
        &&& post_objects[inst_objs[j]] == pre.objects()[ids[picked[j]]]
    }
    &&& forall|k: u32| (k < o || k >= post_next_object_id) ==> {
        &&& #[trigger] post_objects.contains_key(k) == pre.objects().contains_key(k)
        &&& pre.objects().contains_key(k) ==> post_objects[k] == pre.objects()[k]
    }
    &&& forall|j: int| 0 <= j < picked.len() ==> ((#[trigger] inst_mats[j] != 0) <==> (picked[j] < mats.len()
        && pre.materials().contains_key(mats[picked[j]])))
    &&& forall|j: int| 0 <= j < picked.len() && #[trigger] inst_mats[j] != 0 ==> {
        &&& inst_mats[j] == mo + clone_count(inst_mats.take(j))
        &&& cloned::<M>(pre.materials()[mats[picked[j]]], post_materials[inst_mats[j]])
        &&& post_bindings.contains_key(inst_objs[j])
        &&& post_bindings[inst_objs[j]] == inst_mats[j]
    }
    &&& forall|j: int| 0 <= j < picked.len() && #[trigger] inst_mats[j] == 0 ==> {
        &&& post_bindings.contains_key(inst_objs[j]) == pre.bindings().contains_key(inst_objs[j])
        &&& pre.bindings().contains_key(inst_objs[j]) ==> post_bindings[inst_objs[j]] == pre.bindings()[inst_objs[j]]
    }
    &&& forall|k: u32| (k < o || k >= post_next_object_id) ==> {
        &&& #[trigger] post_bindings.contains_key(k) == pre.bindings().contains_key(k)
        &&& pre.bindings().contains_key(k) ==> post_bindings[k] == pre.bindings()[k]
    }
    &&& forall|k: u32| #[trigger] post_materials.contains_key(k) == (pre.materials().contains_key(k) || (mo <= k
        < post_next_material_id))
    &&& forall|k: u32| #[trigger] pre.materials().contains_key(k) ==> post_materials[k] == pre.materials()[k]
}

proof fn lemma_clone_count_bound(s: Seq<u32>)
    ensures
        clone_count(s) <= s.len(),
    decreases s.len(),
{
    if s.len() > 0 {
        lemma_clone_count_bound(s.drop_last());
    }
}

proof fn lemma_clone_count_take(s: Seq<u32>, j: int)
    requires
        0 <= j < s.len(),
    ensures
        clone_count(s.take(j)) + (if s[j] != 0 { 1nat } else { 0nat }) <= clone_count(s),
    decreases s.len(),
{
    if j == s.len() - 1 {
        assert(s.take(j) =~= s.drop_last());
    } else {
        lemma_clone_count_take(s.drop_last(), j);
        assert(s.drop_last().take(j) =~= s.take(j));
    }
}

proof fn lemma_clone_count_push(s: Seq<u32>, x: u32)
    ensures
        clone_count(s.push(x)) == clone_count(s) + if x != 0 { 1nat } else { 0nat },
        forall|j: int| 0 <= j <= s.len() ==> #[trigger] s.push(x).take(j) == s.take(j),
{
    assert(s.push(x).drop_last() =~= s);
    assert forall|j: int| 0 <= j <= s.len() implies #[trigger] s.push(x).take(j) == s.take(j) by {
        assert(s.push(x).take(j) =~= s.take(j));
    }
}

proof fn lemma_picks_extend(ids: Seq<u32>, objects: Map<u32, MeshObject>, picked: Seq<int>, i: int)
    requires
        picks_present(ids, objects, picked, i),
        0 <= i < ids.len(),
    ensures
        objects.contains_key(ids[i]) ==> picks_present(ids, objects, picked.push(i), i + 1),
        !objects.contains_key(ids[i]) ==> picks_present(ids, objects, picked, i + 1),
{
    let p2 = picked.push(i);
    if objects.contains_key(ids[i]) {
        assert forall|k: int| 0 <= k < i + 1 implies (objects.contains_key(#[trigger] ids[k]) <==> p2.contains(k)) by {
            if k < i {
                if picked.contains(k) {
                    let w = choose|w: int| 0 <= w < picked.len() && picked[w] == k;
                    assert(p2[w] == k);
                }
                if p2.contains(k) {
                    let w = choose|w: int| 0 <= w < p2.len() && p2[w] == k;
                    assert(w < picked.len());
                    assert(picked[w] == k);
                }
            } else {
                assert(p2[picked.len() as int] == k);
            }
        }
    } else {
        assert forall|k: int| 0 <= k < i + 1 implies (objects.contains_key(#[trigger] ids[k]) <==> picked.contains(k)) by {
            if k == i && picked.contains(k) {
                let w = choose|w: int| 0 <= w < picked.len() && picked[w] == k;
                assert(picked[w] < i);
            }
        }
    }
}

/// One more present model object, copied as `new_id` with material `mid`,
/// keeps the per-object facts.
proof fn lemma_step<M: Clone>(
    orig: ModelRegistry<M>,
    pre: ModelRegistry<M>,
    post: ModelRegistry<M>,
    ids: Seq<u32>,
    mats: Seq<u32>,
    prev_objs: Seq<u32>,
    prev_mats: Seq<u32>,
    picked: Seq<int>,
    i: int,
    new_id: u32,
    mid: u32,
)
    requires
        orig.wf(),
        step_facts(orig, pre.objects(), pre.materials(), pre.bindings(), pre.next_object_id(),
            pre.next_material_id(), ids, mats, prev_objs, prev_mats, picked),
        prev_objs.len() == picked.len(),
        prev_mats.len() == picked.len(),
        pre.next_object_id() == orig.next_object_id() + picked.len(),
        pre.next_material_id() == orig.next_material_id() + clone_count(prev_mats),
        0 <= i < ids.len(),
        ids[i] < orig.next_object_id(),
        orig.objects().contains_key(ids[i]),
        i < mats.len() ==> mats[i] < orig.next_material_id(),
        new_id == pre.next_object_id(),
        post.next_object_id() == new_id + 1,
        post.objects() == pre.objects().insert(new_id, orig.objects()[ids[i]]),
        (i < mats.len() && pre.materials().contains_key(mats[i])) ==> {
            &&& mid == pre.next_material_id()
            &&& post.next_material_id() == mid + 1
            &&& post.materials() == pre.materials().insert(mid, post.materials()[mid])
            &&& cloned::<M>(pre.materials()[mats[i]], post.materials()[mid])
            &&& post.bindings() == pre.bindings().insert(new_id, mid)
        },
        !(i < mats.len() && pre.materials().contains_key(mats[i])) ==> {
            &&& mid == 0
            &&& post.next_material_id() == pre.next_material_id()
            &&& post.materials() == pre.materials()
            &&& post.bindings() == pre.bindings()
        },
    ensures
        step_facts(orig, post.objects(), post.materials(), post.bindings(), post.next_object_id(),
            post.next_material_id(), ids, mats, prev_objs.push(new_id), prev_mats.push(mid), picked.push(i)),
{
    let o = orig.next_object_id();
    let mo = orig.next_material_id();
    let io = prev_objs.push(new_id);
    let im = prev_mats.push(mid);
    let p2 = picked.push(i);
    let n = picked.len() as int;
    lemma_clone_count_push(prev_mats, mid);
    lemma_clone_count_bound(prev_mats);
    orig.library.lemma_ids_handed_out();
    if i < mats.len() {
        assert(pre.materials().contains_key(mats[i]) == orig.materials().contains_key(mats[i]));
    }
    assert forall|j: int| 0 <= j < p2.len() implies {
        &&& post.objects().contains_key(#[trigger] io[j])
        &&& post.objects()[io[j]] == orig.objects()[ids[p2[j]]]
    } by {
        if j < n {
            assert(io[j] == prev_objs[j]);
            assert(p2[j] == picked[j]);
        }
    }
    assert forall|j: int| 0 <= j < p2.len() && #[trigger] im[j] != 0 implies {
        &&& im[j] == mo + clone_count(im.take(j))
        &&& cloned::<M>(orig.materials()[mats[p2[j]]], post.materials()[im[j]])
        &&& post.bindings().contains_key(io[j])
        &&& post.bindings()[io[j]] == im[j]
    } by {
        if j < n {
            assert(im[j] == prev_mats[j]);
            assert(io[j] == prev_objs[j]);
            assert(p2[j] == picked[j]);
            assert(im.take(j) == prev_mats.take(j));
            lemma_clone_count_take(prev_mats, j);
            assert(prev_mats[j] < pre.next_material_id());
        } else {
            assert(im.take(j) == prev_mats.take(n));
            assert(prev_mats.take(n) =~= prev_mats);
            assert(orig.materials()[mats[i]] == pre.materials()[mats[i]]);
        }
    }
    assert forall|j: int| 0 <= j < p2.len() && #[trigger] im[j] == 0 implies {
        &&& post.bindings().contains_key(io[j]) == orig.bindings().contains_key(io[j])
        &&& orig.bindings().contains_key(io[j]) ==> post.bindings()[io[j]] == orig.bindings()[io[j]]
    } by {
        if j < n {
            assert(im[j] == prev_mats[j]);
            assert(io[j] == prev_objs[j]);
        } else {
            assert(pre.bindings().contains_key(new_id) == orig.bindings().contains_key(new_id));
        }
    }
    assert forall|j: int| 0 <= j < p2.len() implies ((#[trigger] im[j] != 0) <==> (p2[j] < mats.len()
        && orig.materials().contains_key(mats[p2[j]]))) by {
        if j < n {
            assert(im[j] == prev_mats[j]);
            assert(p2[j] == picked[j]);
        }
    }
    assert forall|k: u32| #[trigger] post.materials().contains_key(k) == (orig.materials().contains_key(k) || (mo <= k
        < post.next_material_id())) by {
        assert(pre.materials().contains_key(k) == (orig.materials().contains_key(k) || (mo <= k < pre.next_material_id())));
    }
    assert forall|k: u32| #[trigger] orig.materials().contains_key(k) implies post.materials()[k] == orig.materials()[k] by {
        assert(k < mo);
    }
    assert forall|k: u32| (k < o || k >= post.next_object_id()) implies {
        &&& #[trigger] post.bindings().contains_key(k) == orig.bindings().contains_key(k)
        &&& orig.bindings().contains_key(k) ==> post.bindings()[k] == orig.bindings()[k]
    } by {
        assert(k != new_id);
    }
    assert forall|k: u32| (k < o || k >= post.next_object_id()) implies {
        &&& #[trigger] post.objects().contains_key(k) == orig.objects().contains_key(k)
        &&& orig.objects().contains_key(k) ==> post.objects()[k] == orig.objects()[k]
    } by {
        assert(k != new_id);
    }
}

/// Instance `i` was made from model `model`.
pub open spec fn orphan_of(instances: Map<u32, ModelInstance>, model: u32, i: u32) -> bool {
    instances.contains_key(i) && instances[i].source_model_id == model
}

/// The objects of the instances made from `model`.
pub open spec fn orphan_objects(instances: Map<u32, ModelInstance>, model: u32) -> Set<u32> {
    Set::new(|k: u32| exists|i: u32| #[trigger] orphan_of(instances, model, i) && instances[i].mesh_object_ids@.contains(k))
}

/// The materials of the instances made from `model`.
pub open spec fn orphan_materials(instances: Map<u32, ModelInstance>, model: u32) -> Set<u32> {
    Set::new(|k: u32| exists|i: u32| #[trigger] orphan_of(instances, model, i) && instances[i].mesh_material_ids@.contains(k))
}

/// The objects of the instances made from `model` among the first `n` of
/// `keys`.
spec fn orphan_objects_among(instances: Map<u32, ModelInstance>, model: u32, keys: Seq<u32>, n: int) -> Set<u32> {
    Set::new(|k: u32| exists|j: int| 0 <= j < n && #[trigger] orphan_of(instances, model, keys[j])
        && instances[keys[j]].mesh_object_ids@.contains(k))
}

/// The materials of the instances made from `model` among the first `n`
/// of `keys`.
spec fn orphan_materials_among(instances: Map<u32, ModelInstance>, model: u32, keys: Seq<u32>, n: int) -> Set<u32> {
    Set::new(|k: u32| exists|j: int| 0 <= j < n && #[trigger] orphan_of(instances, model, keys[j])
        && instances[keys[j]].mesh_material_ids@.contains(k))
}

/// Objects, models, instances and materials, with the IDs handed out next.
pub struct ModelRegistry<M> {
    objects: FxHashMap<u32, MeshObject>,
    models: FxHashMap<u32, Model>,
    instances: FxHashMap<u32, ModelInstance>,
    library: MaterialLibrary<M>,
    next_object_id: u32,
    next_model_id: u32,
}

impl<M: Clone> ModelRegistry<M> {
    /// The objects by ID.
    pub closed spec fn objects(&self) -> Map<u32, MeshObject> {
        self.objects@
    }

    /// The models by ID.
    pub closed spec fn models(&self) -> Map<u32, Model> {
        self.models@
    }

    /// The instances by ID.
    pub closed spec fn instances(&self) -> Map<u32, ModelInstance> {
        self.instances@
    }

    /// The materials by ID.
    pub closed spec fn materials(&self) -> Map<u32, M> {
        self.library.materials()
    }

    /// The material bound to each object.
    pub closed spec fn bindings(&self) -> Map<u32, u32> {
        self.library.bindings()
    }

    /// The ID the next object gets.
    pub closed spec fn next_object_id(&self) -> u32 {
        self.next_object_id
    }

    /// The ID the next model or instance gets.
    pub closed spec fn next_model_id(&self) -> u32 {
        self.next_model_id
    }

    /// The ID the next material gets.
    pub closed spec fn next_material_id(&self) -> u32 {
        self.library.next_id()
    }

    /// IDs start at 1; every object, model and instance ID was handed out
    /// before the next one, and so was every object a model names.
    pub closed spec fn wf(&self) -> bool {
        &&& self.library.wf()
        &&& self.next_object_id >= 1
        &&& self.next_model_id >= 1
        &&& forall|id: u32| #[trigger] self.objects@.contains_key(id) ==> id < self.next_object_id
        &&& forall|id: u32| #[trigger] self.models@.contains_key(id) ==> id < self.next_model_id
        &&& forall|id: u32| #[trigger] self.instances@.contains_key(id) ==> id < self.next_model_id
        &&& forall|id: u32, k: int| #[trigger] self.models@.contains_key(id) && 0 <= k < self.models@[id].mesh_object_ids@.len()
            ==> #[trigger] self.models@[id].mesh_object_ids@[k] < self.next_object_id
        &&& forall|id: u32, k: int| #[trigger] self.models@.contains_key(id) && 0 <= k < self.models@[id].mesh_material_ids@.len()
            ==> #[trigger] self.models@[id].mesh_material_ids@[k] < self.library.next_id()
    }

    /// A well-formed registry has handed out every object, model, instance
    /// and material ID it holds: each is below its counter, and no counter
    /// is 0.
    pub proof fn lemma_ids_handed_out(&self)
        requires
            self.wf(),
        ensures
            self.next_object_id() >= 1,
            self.next_model_id() >= 1,
            self.next_material_id() >= 1,
            forall|id: u32| #[trigger] self.objects().contains_key(id) ==> id < self.next_object_id(),
            forall|id: u32| #[trigger] self.models().contains_key(id) ==> id < self.next_model_id(),
            forall|id: u32| #[trigger] self.instances().contains_key(id) ==> id < self.next_model_id(),
            forall|id: u32| #[trigger] self.materials().contains_key(id) ==> id < self.next_material_id(),
    {
        self.library.lemma_ids_handed_out();
    }

    /// Nothing stored; every ID starts at 1.
    pub fn new() -> (r: Self)
        ensures
            r.wf(),
            r.objects() == Map::<u32, MeshObject>::empty(),
            r.models() == Map::<u32, Model>::empty(),
            r.instances() == Map::<u32, ModelInstance>::empty(),
            r.materials() == Map::<u32, M>::empty(),
            r.bindings() == Map::<u32, u32>::empty(),
            r.next_object_id() == 1,
            r.next_model_id() == 1,
            r.next_material_id() == 1,
    {
        let r = ModelRegistry {
            objects: fx_new(),
            models: fx_new(),
            instances: fx_new(),
            library: MaterialLibrary::new(),
            next_object_id: 1,
            next_model_id: 1,
        };
        assert(r.objects() =~= Map::<u32, MeshObject>::empty());
        assert(r.models() =~= Map::<u32, Model>::empty());
        assert(r.instances() =~= Map::<u32, ModelInstance>::empty());
        r
    }

    /// Store an object under a fresh ID and return it.
    pub fn add_object(&mut self, object: MeshObject) -> (id: u32)
        requires
            old(self).wf(),
            old(self).next_object_id() < u32::MAX,
        ensures
            final(self).wf(),
            id == old(self).next_object_id(),
            !old(self).objects().contains_key(id),
            final(self).next_object_id() == id + 1,
            final(self).objects() == old(self).objects().insert(id, object),
            final(self).models() == old(self).models(),
            final(self).instances() == old(self).instances(),
            final(self).materials() == old(self).materials(),
            final(self).bindings() == old(self).bindings(),
            final(self).next_model_id() == old(self).next_model_id(),
            final(self).next_material_id() == old(self).next_material_id(),
    {
        let id = self.next_object_id;
        self.next_object_id = id + 1;
        fx_insert(&mut self.objects, id, object);
        id
    }

    /// Store a model made of objects and materials already handed out,
    /// under a fresh ID. Returns `None`, changing nothing, when some object
    /// or material ID was never handed out.
    pub fn add_model(&mut self, mesh_object_ids: Vec<u32>, mesh_material_ids: Vec<u32>, has_skeleton: bool, is_skinned: bool) -> (r: Option<u32>)
        requires
            old(self).wf(),
            old(self).next_model_id() < u32::MAX,
        ensures
            final(self).wf(),
            r is Some <==> ((forall|k: int| 0 <= k < mesh_object_ids@.len() ==> mesh_object_ids@[k] < old(self).next_object_id())
                && (forall|k: int| 0 <= k < mesh_material_ids@.len() ==> mesh_material_ids@[k] < old(self).next_material_id())),
            r matches Some(id) ==> {
                &&& id == old(self).next_model_id()
                &&& !old(self).models().contains_key(id)
                &&& !old(self).instances().contains_key(id)
                &&& final(self).next_model_id() == id + 1
                &&& final(self).models().dom() == old(self).models().dom().insert(id)
                &&& forall|m: u32| m != id ==> #[trigger] final(self).models().contains_key(m) ==> final(self).models()[m] == old(self).models()[m]
                &&& final(self).models()[id].mesh_object_ids@ == mesh_object_ids@
                &&& final(self).models()[id].mesh_material_ids@ == mesh_material_ids@
                &&& final(self).models()[id].has_skeleton == has_skeleton
                &&& final(self).models()[id].is_skinned == is_skinned
            },
            r is None ==> final(self).models() == old(self).models() && final(self).next_model_id() == old(self).next_model_id(),
            final(self).objects() == old(self).objects(),
            final(self).instances() == old(self).instances(),
            final(self).materials() == old(self).materials(),
            final(self).bindings() == old(self).bindings(),
            final(self).next_object_id() == old(self).next_object_id(),
            final(self).next_material_id() == old(self).next_material_id(),
    {
        let mut k: usize = 0;
        while k < mesh_object_ids.len()
            invariant
                k <= mesh_object_ids@.len(),
                self.wf(),
                forall|j: int| 0 <= j < k ==> mesh_object_ids@[j] < self.next_object_id,
            decreases mesh_object_ids@.len() - k,
        {
            if mesh_object_ids[k] >= self.next_object_id {
                return None;
            }
            k = k + 1;
        }
        let mut k: usize = 0;
        while k < mesh_material_ids.len()
            invariant
                k <= mesh_material_ids@.len(),
                self.wf(),
                forall|j: int| 0 <= j < k ==> mesh_material_ids@[j] < self.library.next_id(),
            decreases mesh_material_ids@.len() - k,
        {
            if mesh_material_ids[k] >= self.library.next_material_id() {
                return None;
            }
            k = k + 1;
        }
        let id = self.next_model_id;
        self.next_model_id = id + 1;
        fx_insert(&mut self.models, id, Model { mesh_object_ids, mesh_material_ids, has_skeleton, is_skinned });
        assert(self.models@.dom() =~= old(self).models@.dom().insert(id));
        Some(id)
    }

    /// Create an instance of a model: each of the model's objects that
    /// exists is copied (buffer, vertex count, texture) under a fresh ID, and
    /// the material of its sub-mesh, where that material exists, is cloned
    /// under a fresh ID and bound to the copy. Returns the instance's ID, or
    /// `None`, changing nothing, when `source_id` is no model or none of its
    /// objects exists.
    pub fn instantiate_model(&mut self, source_id: u32) -> (r: Option<u32>)
        requires
            old(self).wf(),
            old(self).next_model_id() < u32::MAX,
            old(self).models().contains_key(source_id) ==> old(self).next_object_id()
                + old(self).models()[source_id].mesh_object_ids@.len() <= u32::MAX,
            old(self).models().contains_key(source_id) ==> old(self).next_material_id()
                + old(self).models()[source_id].mesh_object_ids@.len() <= u32::MAX,
        ensures
            final(self).wf(),
            r is None <==> (!old(self).models().contains_key(source_id) || forall|k: int|
                0 <= k < old(self).models()[source_id].mesh_object_ids@.len() ==> !old(self).objects().contains_key(
                    #[trigger] old(self).models()[source_id].mesh_object_ids@[k],
                )),
            r is None ==> {
                &&& final(self).objects() == old(self).objects()
                &&& final(self).instances() == old(self).instances()
                &&& final(self).materials() == old(self).materials()
                &&& final(self).bindings() == old(self).bindings()
                &&& final(self).next_object_id() == old(self).next_object_id()
                &&& final(self).next_model_id() == old(self).next_model_id()
                &&& final(self).next_material_id() == old(self).next_material_id()
            },
            r matches Some(id) ==> {
                &&& id == old(self).next_model_id()
                &&& !old(self).models().contains_key(id)
                &&& !old(self).instances().contains_key(id)
                &&& final(self).next_model_id() == id + 1
                &&& final(self).instances() == old(self).instances().insert(id, final(self).instances()[id])
                &&& forall|j: int| 0 <= j < final(self).instances()[id].mesh_object_ids@.len() ==> !old(
                    self,
                ).objects().contains_key(#[trigger] final(self).instances()[id].mesh_object_ids@[j])
                &&& forall|j: int| 0 <= j < final(self).instances()[id].mesh_material_ids@.len()
                    && #[trigger] final(self).instances()[id].mesh_material_ids@[j] != 0 ==> !old(
                    self,
                ).materials().contains_key(final(self).instances()[id].mesh_material_ids@[j])
                &&& final(self).instances()[id].source_model_id == source_id
                &&& instantiated(*old(self), *final(self), source_id, final(self).instances()[id].mesh_object_ids@,
                    final(self).instances()[id].mesh_material_ids@, as_positions(final(self).instances()[id].source_mesh_indices@))
            },
            final(self).models() == old(self).models(),
    {
        let (ids_v, mats_v) = match fx_get(&self.models, source_id) {
            Some(m) => (m.mesh_object_ids.clone(), m.mesh_material_ids.clone()),
            None => return None,
        };
        let ghost ids = old(self).models@[source_id].mesh_object_ids@;
        let ghost mats = old(self).models@[source_id].mesh_material_ids@;
        assert(ids_v@ =~= ids);
        assert(mats_v@ =~= mats);
        let ghost o = self.next_object_id;
        let ghost mo = self.library.next_id();
        let mut inst_objs: Vec<u32> = Vec::new();
        let mut inst_mats: Vec<u32> = Vec::new();
        let mut positions: Vec<usize> = Vec::new();
        let ghost mut picked: Seq<int> = Seq::empty();
        let mut i: usize = 0;
        proof {
            assert forall|k: int| 0 <= k < ids.len() implies #[trigger] ids[k] < o by {
                assert(old(self).models@.contains_key(source_id));
            }
            assert forall|k: int| 0 <= k < mats.len() implies #[trigger] mats[k] < mo by {
                assert(old(self).models@.contains_key(source_id));
            }
        }
        while i < ids_v.len()
            invariant
                i <= ids.len(),
                ids_v@ == ids,
                mats_v@ == mats,
                ids == old(self).models@[source_id].mesh_object_ids@,
                mats == old(self).models@[source_id].mesh_material_ids@,
                old(self).wf(),
                o == old(self).next_object_id,
                mo == old(self).library.next_id(),
                o + ids.len() <= u32::MAX,
                mo + ids.len() <= u32::MAX,
                forall|k: int| 0 <= k < ids.len() ==> #[trigger] ids[k] < o,
                forall|k: int| 0 <= k < mats.len() ==> #[trigger] mats[k] < mo,
                self.library.wf(),
                self.models@ == old(self).models@,
                self.instances@ == old(self).instances@,
                self.next_model_id == old(self).next_model_id,
                picks_present(ids, old(self).objects@, picked, i as int),
                picked.len() <= i,
                inst_objs@.len() == picked.len(),
                positions@.len() == picked.len(),
                forall|j: int| 0 <= j < picked.len() ==> #[trigger] positions@[j] as int == picked[j],
                inst_mats@.len() == picked.len(),
                clone_count(inst_mats@) <= picked.len(),
                self.next_object_id == o + picked.len(),
                self.library.next_id() == mo + clone_count(inst_mats@),
                step_facts(*old(self), self.objects(), self.materials(), self.bindings(), self.next_object_id,
                    self.library.next_id(), ids, mats, inst_objs@, inst_mats@, picked),
            decreases ids.len() - i,
        {
            let src_obj = ids_v[i];
            match fx_get(&self.objects, src_obj) {
                None => {
                    proof {
                        lemma_picks_extend(ids, old(self).objects@, picked, i as int);
                    }
                },
                Some(found) => {
                    let object = *found;
                    let material = if i < mats_v.len() { Some(mats_v[i]) } else { None };
                    let ghost pre = *self;
                    proof {
                        lemma_clone_count_bound(inst_mats@);
                    }
                    let (new_id, mid) = self.copy_object(object, material);
                    let ghost prev_mats = inst_mats@;
                    let ghost prev_objs = inst_objs@;
                    inst_objs.push(new_id);
                    inst_mats.push(mid);
                    positions.push(i);
                    proof {
                        lemma_picks_extend(ids, old(self).objects@, picked, i as int);
                        lemma_clone_count_push(prev_mats, mid);
                        lemma_step(*old(self), pre, *self, ids, mats, prev_objs, prev_mats, picked, i as int, new_id, mid);
                        picked = picked.push(i as int);
                    }
                },
            }
            i = i + 1;
        }
        if inst_objs.len() == 0 {
            proof {
                assert(self.objects() =~= old(self).objects());
                assert(self.materials() =~= old(self).materials());
                assert(self.bindings() =~= old(self).bindings());
                assert forall|k: int| 0 <= k < ids.len() implies !old(self).objects@.contains_key(#[trigger] ids[k]) by {
                    assert(!picked.contains(k));
                }
            }
            return None;
        }
        let ghost before = *self;
        let id = self.next_model_id;
        self.next_model_id = id + 1;
        let ghost io = inst_objs@;
        let ghost im = inst_mats@;
        fx_insert(&mut self.instances, id, ModelInstance {
            source_model_id: source_id,
            mesh_object_ids: inst_objs,
            mesh_material_ids: inst_mats,
            source_mesh_indices: positions,
        });
        proof {
            assert(picked.contains(picked[0]));
            assert(old(self).objects@.contains_key(ids[picked[0]]));
            assert(self.instances@ =~= old(self).instances@.insert(id, self.instances@[id]));
            assert(self.objects() == before.objects());
            assert(self.materials() == before.materials());
            assert(self.bindings() == before.bindings());
            old(self).lemma_ids_handed_out();
            assert forall|j: int| 0 <= j < io.len() implies !old(self).objects().contains_key(#[trigger] io[j]) by {
                assert(io[j] == o + j);
            }
            assert forall|j: int| 0 <= j < im.len() && #[trigger] im[j] != 0 implies !old(self).materials().contains_key(im[j]) by {
                lemma_clone_count_take(im, j);
                lemma_clone_count_bound(im);
            }
            assert(self.instances()[id].mesh_object_ids@ == io);
            assert(self.instances()[id].mesh_material_ids@ == im);
            assert(as_positions(self.instances()[id].source_mesh_indices@) =~= picked);
            assert(instantiated(*old(self), *self, source_id, self.instances()[id].mesh_object_ids@,
                self.instances()[id].mesh_material_ids@, picked));
        }
        Some(id)
    }

    /// Copy `object` under a fresh ID and, where `material` names an
    /// existing material, clone it under a fresh ID and bind it to the
    /// copy. Returns the copy's ID and the clone's (0 when none).
    fn copy_object(&mut self, object: MeshObject, material: Option<u32>) -> (r: (u32, u32))
        requires
            old(self).library.wf(),
            old(self).next_object_id < u32::MAX,
            old(self).library.next_id() < u32::MAX,
        ensures
            final(self).library.wf(),
            r.0 == old(self).next_object_id,
            final(self).next_object_id == r.0 + 1,
            final(self).objects@ == old(self).objects@.insert(r.0, object),
            final(self).models@ == old(self).models@,
            final(self).instances@ == old(self).instances@,
            final(self).next_model_id == old(self).next_model_id,
            (material matches Some(m) && old(self).materials().contains_key(m)) ==> {
                &&& r.1 == old(self).next_material_id()
                &&& final(self).next_material_id() == r.1 + 1
                &&& final(self).materials() == old(self).materials().insert(r.1, final(self).materials()[r.1])
                &&& cloned::<M>(old(self).materials()[material->0], final(self).materials()[r.1])
                &&& final(self).bindings() == old(self).bindings().insert(r.0, r.1)
            },
            !(material matches Some(m) && old(self).materials().contains_key(m)) ==> {
                &&& r.1 == 0
                &&& final(self).next_material_id() == old(self).next_material_id()
                &&& final(self).materials() == old(self).materials()
                &&& final(self).bindings() == old(self).bindings()
            },
    {
        let new_id = self.next_object_id;
        self.next_object_id = new_id + 1;
        fx_insert(&mut self.objects, new_id, object);
        let copy = match material {
            Some(m) => match self.library.get_material(m) {
                Some(found) => Some(found.clone()),
                None => None,
            },
            None => None,
        };
        match copy {
            Some(c) => {
                let mid = self.library.create_material(c);
                self.library.set_object_material(new_id, mid, true);
                (new_id, mid)
            },
            None => (new_id, 0),
        }
    }

    /// Remove the objects `ids`.
    fn remove_objects(&mut self, ids: &Vec<u32>)
        requires
            old(self).wf(),
        ensures
            final(self).wf(),
            final(self).objects() == old(self).objects().remove_keys(ids@.to_set()),
            final(self).models() == old(self).models(),
            final(self).instances() == old(self).instances(),
            final(self).materials() == old(self).materials(),
            final(self).bindings() == old(self).bindings(),
            final(self).next_object_id() == old(self).next_object_id(),
            final(self).next_model_id() == old(self).next_model_id(),
            final(self).next_material_id() == old(self).next_material_id(),
    {
        let mut i: usize = 0;
        assert(old(self).objects@.remove_keys(ids@.subrange(0, 0).to_set()) =~= old(self).objects@);
        while i < ids.len()
            invariant
                i <= ids@.len(),
                self.wf(),
                self.models@ == old(self).models@,
                self.instances@ == old(self).instances@,
                self.library == old(self).library,
                self.next_object_id == old(self).next_object_id,
                self.next_model_id == old(self).next_model_id,
                self.objects@ == old(self).objects@.remove_keys(ids@.subrange(0, i as int).to_set()),
            decreases ids@.len() - i,
        {
            fx_remove(&mut self.objects, ids[i]);
            proof {
                assert(ids@.subrange(0, i + 1).to_set() =~= ids@.subrange(0, i as int).to_set().insert(ids@[i as int])) by {
                    assert(ids@.subrange(0, i + 1) =~= ids@.subrange(0, i as int).push(ids@[i as int]));
                    ids@.subrange(0, i as int).lemma_push_to_set_commute(ids@[i as int]);
                }
                assert(self.objects@ =~= old(self).objects@.remove_keys(ids@.subrange(0, i + 1).to_set()));
            }
            i = i + 1;
        }
        assert(ids@.subrange(0, ids@.len() as int) =~= ids@);
    }

    /// Destroy an instance: its objects, their material bindings and its
    /// materials go. Returns `false`, changing nothing, when there is no
    /// such instance.
    pub fn destroy_model_instance(&mut self, instance_id: u32) -> (r: bool)
        requires
            old(self).wf(),
        ensures
            final(self).wf(),
            r == old(self).instances().contains_key(instance_id),
            r ==> {
                let inst = old(self).instances()[instance_id];
                &&& final(self).instances() == old(self).instances().remove(instance_id)
                &&& final(self).objects() == old(self).objects().remove_keys(inst.mesh_object_ids@.to_set())
                &&& final(self).bindings() == old(self).bindings().remove_keys(inst.mesh_object_ids@.to_set())
                &&& final(self).materials() == old(self).materials().remove_keys(inst.mesh_material_ids@.to_set())
            },
            !r ==> {
                &&& final(self).instances() == old(self).instances()
                &&& final(self).objects() == old(self).objects()
                &&& final(self).bindings() == old(self).bindings()
                &&& final(self).materials() == old(self).materials()
            },
            final(self).models() == old(self).models(),
            final(self).next_object_id() == old(self).next_object_id(),
            final(self).next_model_id() == old(self).next_model_id(),
            final(self).next_material_id() == old(self).next_material_id(),
    {
        match fx_remove(&mut self.instances, instance_id) {
            None => false,
            Some(inst) => {
                self.remove_objects(&inst.mesh_object_ids);
                self.library.unbind_objects(&inst.mesh_object_ids);
                self.library.remove_materials(&inst.mesh_material_ids);
                true
            },
        }
    }

    /// Destroy a model: the instances made from it go (as by
    /// `destroy_model_instance`), then its own objects, their material
    /// bindings and its materials. An ID that names an instance rather than
    /// a model destroys that instance. Returns `false`, changing nothing,
    /// when the ID names neither.
    pub fn destroy_model(&mut self, model_id: u32) -> (r: bool)
        requires
            old(self).wf(),
        ensures
            final(self).wf(),
            r == (old(self).models().contains_key(model_id) || old(self).instances().contains_key(model_id)),
            old(self).models().contains_key(model_id) ==> {
                let model = old(self).models()[model_id];
                let objs = model.mesh_object_ids@.to_set().union(orphan_objects(old(self).instances(), model_id));
                &&& final(self).models() == old(self).models().remove(model_id)
                &&& final(self).instances() == old(self).instances().remove_keys(
                    Set::new(|i: u32| orphan_of(old(self).instances(), model_id, i)),
                )
                &&& final(self).objects() == old(self).objects().remove_keys(objs)
                &&& final(self).bindings() == old(self).bindings().remove_keys(objs)
                &&& final(self).materials() == old(self).materials().remove_keys(
                    model.mesh_material_ids@.to_set().union(orphan_materials(old(self).instances(), model_id)),
                )
            },
            !old(self).models().contains_key(model_id) ==> final(self).models() == old(self).models(),
            !old(self).models().contains_key(model_id) && old(self).instances().contains_key(model_id) ==> {
                let inst = old(self).instances()[model_id];
                &&& final(self).instances() == old(self).instances().remove(model_id)
                &&& final(self).objects() == old(self).objects().remove_keys(inst.mesh_object_ids@.to_set())
                &&& final(self).bindings() == old(self).bindings().remove_keys(inst.mesh_object_ids@.to_set())
                &&& final(self).materials() == old(self).materials().remove_keys(inst.mesh_material_ids@.to_set())
            },
            !r ==> {
                &&& final(self).instances() == old(self).instances()
                &&& final(self).objects() == old(self).objects()
                &&& final(self).bindings() == old(self).bindings()
                &&& final(self).materials() == old(self).materials()
            },
            final(self).next_object_id() == old(self).next_object_id(),
            final(self).next_model_id() == old(self).next_model_id(),
            final(self).next_material_id() == old(self).next_material_id(),
    {
        let (objs, mats) = match fx_get(&self.models, model_id) {
            Some(m) => (m.mesh_object_ids.clone(), m.mesh_material_ids.clone()),
            None => {
                return self.destroy_model_instance(model_id);
            },
        };
        let ghost model = old(self).models@[model_id];
        assert(objs@ =~= model.mesh_object_ids@);
        assert(mats@ =~= model.mesh_material_ids@);
        let ghost inst0 = old(self).instances@;
        let keys = fx_keys(&self.instances);
        let mut n: usize = 0;
        proof {
            assert(orphan_objects_among(inst0, model_id, keys@, 0) =~= Set::<u32>::empty());
            assert(orphan_materials_among(inst0, model_id, keys@, 0) =~= Set::<u32>::empty());
            assert(old(self).objects() =~= old(self).objects().remove_keys(Set::<u32>::empty()));
            assert(old(self).bindings() =~= old(self).bindings().remove_keys(Set::<u32>::empty()));
            assert(old(self).materials() =~= old(self).materials().remove_keys(Set::<u32>::empty()));
            assert(inst0 =~= inst0.remove_keys(Set::new(|i: u32| keys@.take(0).contains(i) && orphan_of(inst0, model_id, i))));
        }
        while n < keys.len()
            invariant
                n <= keys@.len(),
                keys@.no_duplicates(),
                keys@.to_set() == inst0.dom(),
                inst0 == old(self).instances@,
                self.wf(),
                self.models@ == old(self).models@,
                self.next_object_id == old(self).next_object_id,
                self.next_model_id == old(self).next_model_id,
                self.library.next_id() == old(self).library.next_id(),
                self.instances@ == inst0.remove_keys(Set::new(|i: u32| keys@.take(n as int).contains(i) && orphan_of(inst0, model_id, i))),
                self.objects() == old(self).objects().remove_keys(orphan_objects_among(inst0, model_id, keys@, n as int)),
                self.bindings() == old(self).bindings().remove_keys(orphan_objects_among(inst0, model_id, keys@, n as int)),
                self.materials() == old(self).materials().remove_keys(orphan_materials_among(inst0, model_id, keys@, n as int)),
            decreases keys@.len() - n,
        {
            let key = keys[n];
            let ghost done = Set::new(|i: u32| keys@.take(n as int).contains(i) && orphan_of(inst0, model_id, i));
            let ghost done2 = Set::new(|i: u32| keys@.take(n + 1).contains(i) && orphan_of(inst0, model_id, i));
            proof {
                assert(keys@.take(n + 1) =~= keys@.take(n as int).push(key));
                assert(!keys@.take(n as int).contains(key)) by {
                    if keys@.take(n as int).contains(key) {
                        let w = choose|w: int| 0 <= w < n && keys@.take(n as int)[w] == key;
                        assert(keys@[w] == keys@[n as int]);
                    }
                }
                assert(keys@.contains(key));
                assert(inst0.contains_key(key));
                assert(!done.contains(key));
                assert(self.instances@.contains_key(key));
                assert(self.instances@[key] == inst0[key]);
                assert forall|i: u32| keys@.take(n + 1).contains(i) <==> (keys@.take(n as int).contains(i) || i == key) by {
                    if keys@.take(n + 1).contains(i) {
                        let w = choose|w: int| 0 <= w < n + 1 && #[trigger] keys@.take(n + 1)[w] == i;
                        if w < n {
                            assert(keys@.take(n as int)[w] == i);
                        }
                    }
                    if keys@.take(n as int).contains(i) {
                        let w = choose|w: int| 0 <= w < n && #[trigger] keys@.take(n as int)[w] == i;
                        assert(keys@.take(n + 1)[w] == i);
                    }
                    if i == key {
                        assert(keys@.take(n + 1)[n as int] == i);
                    }
                }
            }
            let is_orphan = match fx_get(&self.instances, key) {
                Some(inst) => inst.source_model_id == model_id,
                None => false,
            };
            if is_orphan {
                self.destroy_model_instance(key);
                proof {
                    assert(done2 =~= done.insert(key));
                    assert(self.instances@ =~= inst0.remove_keys(done2));
                    assert(orphan_objects_among(inst0, model_id, keys@, n + 1) =~= orphan_objects_among(inst0, model_id, keys@, n as int).union(inst0[key].mesh_object_ids@.to_set())) by {
                        assert forall|k: u32| orphan_objects_among(inst0, model_id, keys@, n + 1).contains(k) implies
                            orphan_objects_among(inst0, model_id, keys@, n as int).contains(k) || inst0[key].mesh_object_ids@.to_set().contains(k) by {
                            let j = choose|j: int| 0 <= j < n + 1 && #[trigger] orphan_of(inst0, model_id, keys@[j])
                                && inst0[keys@[j]].mesh_object_ids@.contains(k);
                            if j < n {
                                assert(orphan_objects_among(inst0, model_id, keys@, n as int).contains(k));
                            }
                        }
                        assert forall|k: u32| inst0[key].mesh_object_ids@.to_set().contains(k) implies
                            orphan_objects_among(inst0, model_id, keys@, n + 1).contains(k) by {
                            assert(orphan_of(inst0, model_id, keys@[n as int]));
                        }
                        assert forall|k: u32| orphan_objects_among(inst0, model_id, keys@, n as int).contains(k) implies
                            orphan_objects_among(inst0, model_id, keys@, n + 1).contains(k) by {
                            let j = choose|j: int| 0 <= j < n && #[trigger] orphan_of(inst0, model_id, keys@[j])
                                && inst0[keys@[j]].mesh_object_ids@.contains(k);
                            assert(0 <= j < n + 1);
                        }
                    }
                    assert(orphan_materials_among(inst0, model_id, keys@, n + 1) =~= orphan_materials_among(inst0, model_id, keys@, n as int).union(inst0[key].mesh_material_ids@.to_set())) by {
                        assert forall|k: u32| orphan_materials_among(inst0, model_id, keys@, n + 1).contains(k) implies
                            orphan_materials_among(inst0, model_id, keys@, n as int).contains(k) || inst0[key].mesh_material_ids@.to_set().contains(k) by {
                            let j = choose|j: int| 0 <= j < n + 1 && #[trigger] orphan_of(inst0, model_id, keys@[j])
                                && inst0[keys@[j]].mesh_material_ids@.contains(k);
                            if j < n {
                                assert(orphan_materials_among(inst0, model_id, keys@, n as int).contains(k));
                            }
                        }
                        assert forall|k: u32| inst0[key].mesh_material_ids@.to_set().contains(k) implies
                            orphan_materials_among(inst0, model_id, keys@, n + 1).contains(k) by {
                            assert(orphan_of(inst0, model_id, keys@[n as int]));
                        }
                        assert forall|k: u32| orphan_materials_among(inst0, model_id, keys@, n as int).contains(k) implies
                            orphan_materials_among(inst0, model_id, keys@, n + 1).contains(k) by {
                            let j = choose|j: int| 0 <= j < n && #[trigger] orphan_of(inst0, model_id, keys@[j])
                                && inst0[keys@[j]].mesh_material_ids@.contains(k);
                            assert(0 <= j < n + 1);
                        }
                    }
                    let a = orphan_objects_among(inst0, model_id, keys@, n as int);
                    let b = inst0[key].mesh_object_ids@.to_set();
                    assert(self.objects() =~= old(self).objects().remove_keys(a.union(b)));
                    assert(self.bindings() =~= old(self).bindings().remove_keys(a.union(b)));
                    let c = orphan_materials_among(inst0, model_id, keys@, n as int);
                    let d = inst0[key].mesh_material_ids@.to_set();
                    assert(self.materials() =~= old(self).materials().remove_keys(c.union(d)));
                }
            } else {
                proof {
                    assert(!orphan_of(inst0, model_id, key));
                    assert(done2 =~= done);
                    assert(orphan_objects_among(inst0, model_id, keys@, n + 1) =~= orphan_objects_among(inst0, model_id, keys@, n as int)) by {
                        assert forall|k: u32| orphan_objects_among(inst0, model_id, keys@, n + 1).contains(k) implies
                            orphan_objects_among(inst0, model_id, keys@, n as int).contains(k) by {
                            let j = choose|j: int| 0 <= j < n + 1 && #[trigger] orphan_of(inst0, model_id, keys@[j])
                                && inst0[keys@[j]].mesh_object_ids@.contains(k);
                        }
                        assert forall|k: u32| orphan_objects_among(inst0, model_id, keys@, n as int).contains(k) implies
                            orphan_objects_among(inst0, model_id, keys@, n + 1).contains(k) by {
                            let j = choose|j: int| 0 <= j < n && #[trigger] orphan_of(inst0, model_id, keys@[j])
                                && inst0[keys@[j]].mesh_object_ids@.contains(k);
                            assert(0 <= j < n + 1);
                        }
                    }
                    assert(orphan_materials_among(inst0, model_id, keys@, n + 1) =~= orphan_materials_among(inst0, model_id, keys@, n as int)) by {
                        assert forall|k: u32| orphan_materials_among(inst0, model_id, keys@, n + 1).contains(k) implies
                            orphan_materials_among(inst0, model_id, keys@, n as int).contains(k) by {
                            let j = choose|j: int| 0 <= j < n + 1 && #[trigger] orphan_of(inst0, model_id, keys@[j])
                                && inst0[keys@[j]].mesh_material_ids@.contains(k);
                        }
                        assert forall|k: u32| orphan_materials_among(inst0, model_id, keys@, n as int).contains(k) implies
                            orphan_materials_among(inst0, model_id, keys@, n + 1).contains(k) by {
                            let j = choose|j: int| 0 <= j < n && #[trigger] orphan_of(inst0, model_id, keys@[j])
                                && inst0[keys@[j]].mesh_material_ids@.contains(k);
                            assert(0 <= j < n + 1);
                        }
                    }
                }
            }
            n = n + 1;
        }
        let ghost after_orphans = *self;
        fx_remove(&mut self.models, model_id);
        self.remove_objects(&objs);
        self.library.unbind_objects(&objs);
        self.library.remove_materials(&mats);
        proof {
            let all = keys@.len() as int;
            assert(keys@.take(all) =~= keys@);
            assert(Set::new(|i: u32| keys@.take(all).contains(i) && orphan_of(inst0, model_id, i)) =~= Set::new(
                |i: u32| orphan_of(inst0, model_id, i),
            )) by {
                assert forall|i: u32| orphan_of(inst0, model_id, i) implies keys@.contains(i) by {
                    assert(keys@.to_set().contains(i));
                }
            }
            assert(orphan_objects_among(inst0, model_id, keys@, all) =~= orphan_objects(inst0, model_id)) by {
                assert forall|k: u32| orphan_objects(inst0, model_id).contains(k) implies orphan_objects_among(inst0, model_id, keys@, all).contains(k) by {
                    let i = choose|i: u32| #[trigger] orphan_of(inst0, model_id, i) && inst0[i].mesh_object_ids@.contains(k);
                    assert(keys@.to_set().contains(i));
                    let j = choose|j: int| 0 <= j < keys@.len() && keys@[j] == i;
                    assert(orphan_of(inst0, model_id, keys@[j]));
                }
                assert forall|k: u32| orphan_objects_among(inst0, model_id, keys@, all).contains(k) implies orphan_objects(inst0, model_id).contains(k) by {
                    let j = choose|j: int| 0 <= j < all && #[trigger] orphan_of(inst0, model_id, keys@[j])
                        && inst0[keys@[j]].mesh_object_ids@.contains(k);
                    assert(orphan_of(inst0, model_id, keys@[j]));
                }
            }
            assert(orphan_materials_among(inst0, model_id, keys@, all) =~= orphan_materials(inst0, model_id)) by {
                assert forall|k: u32| orphan_materials(inst0, model_id).contains(k) implies orphan_materials_among(inst0, model_id, keys@, all).contains(k) by {
                    let i = choose|i: u32| #[trigger] orphan_of(inst0, model_id, i) && inst0[i].mesh_material_ids@.contains(k);
                    assert(keys@.to_set().contains(i));
                    let j = choose|j: int| 0 <= j < keys@.len() && keys@[j] == i;
                    assert(orphan_of(inst0, model_id, keys@[j]));
                }
                assert forall|k: u32| orphan_materials_among(inst0, model_id, keys@, all).contains(k) implies orphan_materials(inst0, model_id).contains(k) by {
                    let j = choose|j: int| 0 <= j < all && #[trigger] orphan_of(inst0, model_id, keys@[j])
                        && inst0[keys@[j]].mesh_material_ids@.contains(k);
                    assert(orphan_of(inst0, model_id, keys@[j]));
                }
            }
            let objs_all = model.mesh_object_ids@.to_set().union(orphan_objects(inst0, model_id));
            assert(self.objects() =~= old(self).objects().remove_keys(objs_all));
            assert(self.bindings() =~= old(self).bindings().remove_keys(objs_all));
            assert(self.materials() =~= old(self).materials().remove_keys(
                model.mesh_material_ids@.to_set().union(orphan_materials(inst0, model_id)),
            ));
            assert(self.models() =~= old(self).models().remove(model_id));
        }
        true
    }

    /// Whether instances of model `model_id` need vertex buffers of their
    /// own: the model has a skeleton and is skinned on the CPU, so each
    /// instance's vertices are deformed and uploaded apart. `None` when
    /// there is no such model.
    pub fn needs_own_buffers(&self, model_id: u32) -> (r: Option<bool>)
        ensures
            r == (if self.models().contains_key(model_id) {
                Some(self.models()[model_id].has_skeleton && !self.models()[model_id].is_skinned)
            } else {
                None
            }),
    {
        match fx_get(&self.models, model_id) {
            Some(m) => Some(m.has_skeleton && !m.is_skinned),
            None => None,
        }
    }

    /// Give an object another vertex buffer (one made for it alone).
    /// Returns `false`, changing nothing, when there is no such object.
    pub fn set_object_buffer(&mut self, object_id: u32, buffer: u32) -> (r: bool)
        requires
            old(self).wf(),
        ensures
            final(self).wf(),
            r == old(self).objects().contains_key(object_id),
            r ==> final(self).objects() == old(self).objects().insert(
                object_id,
                (MeshObject { buffer, ..old(self).objects()[object_id] }),
            ),
            !r ==> final(self).objects() == old(self).objects(),
            final(self).models() == old(self).models(),
            final(self).instances() == old(self).instances(),
            final(self).materials() == old(self).materials(),
            final(self).bindings() == old(self).bindings(),
            final(self).next_object_id() == old(self).next_object_id(),
            final(self).next_model_id() == old(self).next_model_id(),
            final(self).next_material_id() == old(self).next_material_id(),
    {
        let found = match fx_get(&self.objects, object_id) {
            Some(o) => Some(*o),
            None => None,
        };
        match found {
            Some(o) => {
                fx_insert(&mut self.objects, object_id, MeshObject { buffer, ..o });
                true
            },
            None => false,
        }
    }

    /// The model stored under `id`, if any.
    pub fn get_model(&self, id: u32) -> (r: Option<&Model>)
        ensures
            match r {
                Some(m) => self.models().contains_key(id) && *m == self.models()[id],
                None => !self.models().contains_key(id),
            },
    {
        fx_get(&self.models, id)
    }

    /// Create a material and return its ID (never 0).
    pub fn create_material(&mut self, material: M) -> (id: u32)
        requires
            old(self).wf(),
            old(self).next_material_id() < u32::MAX,
        ensures
            final(self).wf(),
            id == old(self).next_material_id(),
            id != 0,
            !old(self).materials().contains_key(id),
            final(self).next_material_id() == id + 1,
            final(self).materials() == old(self).materials().insert(id, material),
            final(self).bindings() == old(self).bindings(),
            final(self).objects() == old(self).objects(),
            final(self).models() == old(self).models(),
            final(self).instances() == old(self).instances(),
            final(self).next_object_id() == old(self).next_object_id(),
            final(self).next_model_id() == old(self).next_model_id(),
    {
        self.library.create_material(material)
    }

    /// Bind a material to an object. Returns `true` if the object exists;
    /// otherwise nothing changes.
    pub fn set_object_material(&mut self, object_id: u32, material_id: u32) -> (r: bool)
        requires
            old(self).wf(),
        ensures
            final(self).wf(),
            r == old(self).objects().contains_key(object_id),
            final(self).bindings() == (if r { old(self).bindings().insert(object_id, material_id) } else { old(self).bindings() }),
            final(self).materials() == old(self).materials(),
            final(self).objects() == old(self).objects(),
            final(self).models() == old(self).models(),
            final(self).instances() == old(self).instances(),
            final(self).next_object_id() == old(self).next_object_id(),
            final(self).next_model_id() == old(self).next_model_id(),
            final(self).next_material_id() == old(self).next_material_id(),
    {
        let exists = match fx_get(&self.objects, object_id) {
            Some(_) => true,
            None => false,
        };
        self.library.set_object_material(object_id, material_id, exists)
    }

    /// The object stored under `id`, if any.
    pub fn get_object(&self, id: u32) -> (r: Option<MeshObject>)
        ensures
            r == (if self.objects().contains_key(id) { Some(self.objects()[id]) } else { None }),
    {
        match fx_get(&self.objects, id) {
            Some(o) => Some(*o),
            None => None,
        }
    }

    /// The instance stored under `id`, if any.
    pub fn get_instance(&self, id: u32) -> (r: Option<&ModelInstance>)
        ensures
            match r {
                Some(inst) => self.instances().contains_key(id) && *inst == self.instances()[id],
                None => !self.instances().contains_key(id),
            },
    {
        fx_get(&self.instances, id)
    }

    /// The material stored under `id`, if any.
    pub fn get_material(&self, id: u32) -> (r: Option<&M>)
        ensures
            match r {
                Some(m) => self.materials().contains_key(id) && *m == self.materials()[id],
                None => !self.materials().contains_key(id),
            },
    {
        self.library.get_material(id)
    }

    /// The material bound to an object, if any.
    pub fn get_object_material(&self, object_id: u32) -> (r: Option<u32>)
        ensures
            r == (if self.bindings().contains_key(object_id) { Some(self.bindings()[object_id]) } else { None }),
    {
        self.library.get_object_material(object_id)
    }
}

} // verus!
