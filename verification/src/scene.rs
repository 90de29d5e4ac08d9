//! Named scenes that select a subset of the renderer's objects, models and
//! lights, and the registry that creates, destroys and activates them.
//!
//! While a scene is current, only its objects and lights are rendered;
//! with no current scene everything is rendered.
use vstd::prelude::*;
use std::collections::HashSet;
use rustc_hash::FxHashMap;
use crate::fx_map::{fx_contains, fx_get, fx_insert, fx_keys, fx_new, fx_remove};

verus! {

/// The abstract content of a scene: its name and its three ID sets.
pub struct SceneView {
    /// Scene name.
    pub name: Seq<char>,
    /// Object IDs in the scene.
    pub objects: Set<u32>,
    /// Model and model-instance IDs in the scene.
    pub models: Set<u32>,
    /// Light IDs in the scene.
    pub lights: Set<u32>,
}

/// A named 3D scene containing a subset of renderer objects.
pub struct Scene3D {
    /// Human-readable scene name.
    pub name: String,
    /// Object IDs belonging to this scene.
    pub objects: HashSet<u32>,
    /// Model / model-instance IDs belonging to this scene.
    pub models: HashSet<u32>,
    /// Light IDs belonging to this scene.
    pub lights: HashSet<u32>,
}

impl View for Scene3D {
    type V = SceneView;

    open spec fn view(&self) -> SceneView {
        SceneView { name: self.name@, objects: self.objects@, models: self.models@, lights: self.lights@ }
    }
}

impl Scene3D {
    /// Create a new empty scene with the given name.
    pub fn new(name: String) -> (r: Self)
        ensures
            r@.name == name@,
            r@.objects == Set::<u32>::empty(),
            r@.models == Set::<u32>::empty(),
            r@.lights == Set::<u32>::empty(),
    {
        Scene3D { name, objects: HashSet::new(), models: HashSet::new(), lights: HashSet::new() }
    }

    /// Add an object ID to the scene. Returns `true` if the ID was newly inserted.
    pub fn add_object(&mut self, id: u32) -> (r: bool)
        ensures
            r == !old(self)@.objects.contains(id),
            final(self)@ == (SceneView { objects: old(self)@.objects.insert(id), ..old(self)@ }),
    {
        self.objects.insert(id)
    }

    /// Remove an object ID from the scene. Returns `true` if the ID was present.
    pub fn remove_object(&mut self, id: u32) -> (r: bool)
        ensures
            r == old(self)@.objects.contains(id),
            final(self)@ == (SceneView { objects: old(self)@.objects.remove(id), ..old(self)@ }),
    {
        self.objects.remove(&id)
    }

    /// Add a model ID to the scene. Returns `true` if the ID was newly inserted.
    pub fn add_model(&mut self, id: u32) -> (r: bool)
        ensures
            r == !old(self)@.models.contains(id),
            final(self)@ == (SceneView { models: old(self)@.models.insert(id), ..old(self)@ }),
    {
        self.models.insert(id)
    }

    /// Remove a model ID from the scene. Returns `true` if the ID was present.
    pub fn remove_model(&mut self, id: u32) -> (r: bool)
        ensures
            r == old(self)@.models.contains(id),
            final(self)@ == (SceneView { models: old(self)@.models.remove(id), ..old(self)@ }),
    {
        self.models.remove(&id)
    }

    /// Add a light ID to the scene. Returns `true` if the ID was newly inserted.
    pub fn add_light(&mut self, id: u32) -> (r: bool)
        ensures
            r == !old(self)@.lights.contains(id),
            final(self)@ == (SceneView { lights: old(self)@.lights.insert(id), ..old(self)@ }),
    {
        self.lights.insert(id)
    }

    /// Remove a light ID from the scene. Returns `true` if the ID was present.
    pub fn remove_light(&mut self, id: u32) -> (r: bool)
        ensures
            r == old(self)@.lights.contains(id),
            final(self)@ == (SceneView { lights: old(self)@.lights.remove(id), ..old(self)@ }),
    {
        self.lights.remove(&id)
    }

    /// Returns `true` if the scene contains the given object ID.
    pub fn contains_object(&self, id: u32) -> (r: bool)
        ensures
            r == self@.objects.contains(id),
    {
        self.objects.contains(&id)
    }

    /// Returns `true` if the scene contains the given model ID.
    pub fn contains_model(&self, id: u32) -> (r: bool)
        ensures
            r == self@.models.contains(id),
    {
        self.models.contains(&id)
    }

    /// Returns `true` if the scene contains the given light ID.
    pub fn contains_light(&self, id: u32) -> (r: bool)
        ensures
            r == self@.lights.contains(id),
    {
        self.lights.contains(&id)
    }
}


// ---------------------------------------------------------------------------
// The registry
// ---------------------------------------------------------------------------

/// The scenes of a renderer, the next scene ID and the current scene.
pub struct SceneRegistry {
    scenes: FxHashMap<u32, Scene3D>,
    next_scene_id: u32,
    current_scene: Option<u32>,
}

impl SceneRegistry {
    /// The scenes by ID, each by its content.
    pub closed spec fn scenes(&self) -> Map<u32, SceneView> {
        self.scenes@.map_values(|s: Scene3D| s@)
    }

    /// The ID the next created scene gets.
    pub closed spec fn next_id(&self) -> u32 {
        self.next_scene_id
    }

    /// The current scene, if any.
    pub closed spec fn current(&self) -> Option<u32> {
        self.current_scene
    }

    /// Every scene ID was handed out before `next_id`, and the current
    /// scene exists.
    pub closed spec fn wf(&self) -> bool {
        &&& self.scenes@.dom().finite()
        &&& forall|k: u32| #[trigger] self.scenes@.contains_key(k) ==> 1 <= k < self.next_scene_id
        &&& self.next_scene_id >= 1
        &&& match self.current_scene {
            Some(id) => self.scenes@.contains_key(id),
            None => true,
        }
    }

    /// An empty registry: no scenes, no current scene, IDs start at 1.
    pub fn new() -> (r: Self)
        ensures
            r.wf(),
            r.scenes() == Map::<u32, SceneView>::empty(),
            r.next_id() == 1,
            r.current() == None::<u32>,
    {
        let r = SceneRegistry { scenes: fx_new(), next_scene_id: 1, current_scene: None };
        assert(r.scenes() =~= Map::<u32, SceneView>::empty());
        r
    }

    /// Create a new named scene and return its ID.
    pub fn create_scene(&mut self, name: &str) -> (id: u32)
        requires
            old(self).wf(),
            old(self).next_id() < u32::MAX,
        ensures
            final(self).wf(),
            id == old(self).next_id(),
            !old(self).scenes().contains_key(id),
            final(self).next_id() == old(self).next_id() + 1,
            final(self).scenes() == old(self).scenes().insert(id, SceneView {
                name: name@,
                objects: Set::<u32>::empty(),
                models: Set::<u32>::empty(),
                lights: Set::<u32>::empty(),
            }),
            final(self).current() == old(self).current(),
    {
        let id = self.next_scene_id;
        self.next_scene_id = self.next_scene_id + 1;
        let scene = Scene3D::new(String::from_str(name));
        fx_insert(&mut self.scenes, id, scene);
        proof {
            assert(self.scenes() =~= old(self).scenes().insert(id, SceneView {
                name: name@,
                objects: Set::<u32>::empty(),
                models: Set::<u32>::empty(),
                lights: Set::<u32>::empty(),
            }));
        }
        id
    }

    /// Destroy a scene by ID. Returns `true` if the scene existed. If it
    /// was the current scene, the current scene is cleared.
    pub fn destroy_scene(&mut self, scene_id: u32) -> (r: bool)
        requires
            old(self).wf(),
        ensures
            final(self).wf(),
            r == old(self).scenes().contains_key(scene_id),
            final(self).scenes() == old(self).scenes().remove(scene_id),
            final(self).next_id() == old(self).next_id(),
            final(self).current() == (if old(self).current() == Some(scene_id) { None } else { old(self).current() }),
    {
        match fx_remove(&mut self.scenes, scene_id) {
            Some(_) => {
                if self.current_scene == Some(scene_id) {
                    self.current_scene = None;
                }
                assert(self.scenes() =~= old(self).scenes().remove(scene_id));
                true
            },
            None => {
                assert(self.scenes() =~= old(self).scenes().remove(scene_id));
                false
            },
        }
    }

    /// Set the current scene by ID. Returns `true` if the scene exists;
    /// otherwise nothing changes.
    pub fn set_current_scene(&mut self, scene_id: u32) -> (r: bool)
        requires
            old(self).wf(),
        ensures
            final(self).wf(),
            r == old(self).scenes().contains_key(scene_id),
            final(self).current() == (if r { Some(scene_id) } else { old(self).current() }),
            final(self).scenes() == old(self).scenes(),
            final(self).next_id() == old(self).next_id(),
    {
        if fx_contains(&self.scenes, scene_id) {
            self.current_scene = Some(scene_id);
            true
        } else {
            false
        }
    }

    /// Clear the current scene so that everything is rendered.
    pub fn clear_current_scene(&mut self)
        requires
            old(self).wf(),
        ensures
            final(self).wf(),
            final(self).current() == None::<u32>,
            final(self).scenes() == old(self).scenes(),
            final(self).next_id() == old(self).next_id(),
    {
        self.current_scene = None;
    }

    /// Returns the current scene ID, or `None` if no scene is active.
    pub fn get_current_scene(&self) -> (r: Option<u32>)
        ensures
            r == self.current(),
    {
        self.current_scene
    }

    /// The scene stored under `scene_id`, if any.
    pub fn get_scene(&self, scene_id: u32) -> (r: Option<&Scene3D>)
        ensures
            match r {
                Some(s) => self.scenes().contains_key(scene_id) && s@ == self.scenes()[scene_id],
                None => !self.scenes().contains_key(scene_id),
            },
    {
        fx_get(&self.scenes, scene_id)
    }

    /// Whether an object is rendered under the current scene: always with
    /// no current scene, else when the current scene holds it.
    pub fn object_visible(&self, object_id: u32) -> (r: bool)
        requires
            self.wf(),
        ensures
            r == match self.current() {
                Some(sid) => self.scenes()[sid].objects.contains(object_id),
                None => true,
            },
    {
        match self.current_scene {
            Some(sid) => match fx_get(&self.scenes, sid) {
                Some(scene) => scene.contains_object(object_id),
                None => true,
            },
            None => true,
        }
    }

    /// Whether a model or instance is rendered under the current scene:
    /// always with no current scene, else when the current scene holds it.
    pub fn model_visible(&self, model_id: u32) -> (r: bool)
        requires
            self.wf(),
        ensures
            r == match self.current() {
                Some(sid) => self.scenes()[sid].models.contains(model_id),
                None => true,
            },
    {
        match self.current_scene {
            Some(sid) => match fx_get(&self.scenes, sid) {
                Some(scene) => scene.contains_model(model_id),
                None => true,
            },
            None => true,
        }
    }

    /// Whether a light is used under the current scene: always with no
    /// current scene, else when the current scene holds it.
    pub fn light_visible(&self, light_id: u32) -> (r: bool)
        requires
            self.wf(),
        ensures
            r == match self.current() {
                Some(sid) => self.scenes()[sid].lights.contains(light_id),
                None => true,
            },
    {
        match self.current_scene {
            Some(sid) => match fx_get(&self.scenes, sid) {
                Some(scene) => scene.contains_light(light_id),
                None => true,
            },
            None => true,
        }
    }
}


/// Add every ID of `ids` to the scene's objects.
fn add_objects(scene: &mut Scene3D, ids: &Vec<u32>)
    ensures
        final(scene)@ == (SceneView { objects: old(scene)@.objects + ids@.to_set(), ..old(scene)@ }),
{
    proof {
        assert(ids@.subrange(0, 0).to_set() =~= Set::<u32>::empty());
        assert(old(scene)@.objects + ids@.subrange(0, 0).to_set() =~= old(scene)@.objects);
    }
    let mut i: usize = 0;
    while i < ids.len()
        invariant
            i <= ids@.len(),
            scene@ == (SceneView { objects: old(scene)@.objects + ids@.subrange(0, i as int).to_set(), ..old(scene)@ }),
        decreases ids@.len() - i,
    {
        scene.add_object(ids[i]);
        proof {
            assert(ids@.subrange(0, i + 1).to_set() =~= ids@.subrange(0, i as int).to_set().insert(ids@[i as int])) by {
                assert(ids@.subrange(0, i + 1) =~= ids@.subrange(0, i as int).push(ids@[i as int]));
                ids@.subrange(0, i as int).lemma_push_to_set_commute(ids@[i as int]);
            }
            assert(scene@.objects =~= old(scene)@.objects + ids@.subrange(0, i + 1).to_set());
        }
        i = i + 1;
    }
    assert(ids@.subrange(0, ids@.len() as int) =~= ids@);
}

/// Take every ID of `ids` out of the scene's objects.
fn remove_objects(scene: &mut Scene3D, ids: &Vec<u32>)
    ensures
        final(scene)@ == (SceneView { objects: old(scene)@.objects - ids@.to_set(), ..old(scene)@ }),
{
    proof {
        assert(ids@.subrange(0, 0).to_set() =~= Set::<u32>::empty());
        assert(old(scene)@.objects - ids@.subrange(0, 0).to_set() =~= old(scene)@.objects);
    }
    let mut i: usize = 0;
    while i < ids.len()
        invariant
            i <= ids@.len(),
            scene@ == (SceneView { objects: old(scene)@.objects - ids@.subrange(0, i as int).to_set(), ..old(scene)@ }),
        decreases ids@.len() - i,
    {
        scene.remove_object(ids[i]);
        proof {
            assert(ids@.subrange(0, i + 1).to_set() =~= ids@.subrange(0, i as int).to_set().insert(ids@[i as int])) by {
                assert(ids@.subrange(0, i + 1) =~= ids@.subrange(0, i as int).push(ids@[i as int]));
                ids@.subrange(0, i as int).lemma_push_to_set_commute(ids@[i as int]);
            }
            assert(scene@.objects =~= old(scene)@.objects - ids@.subrange(0, i + 1).to_set());
        }
        i = i + 1;
    }
    assert(ids@.subrange(0, ids@.len() as int) =~= ids@);
}

impl SceneRegistry {
    /// Add an object to a scene. Returns `true` on success; fails, changing
    /// nothing, when the object does not exist or the scene does not.
    pub fn add_object_to_scene(&mut self, scene_id: u32, object_id: u32, object_exists: bool) -> (r: bool)
        requires
            old(self).wf(),
        ensures
            final(self).wf(),
            r == (object_exists && old(self).scenes().contains_key(scene_id)),
            final(self).scenes() == (if r {
                old(self).scenes().insert(scene_id, SceneView {
                    objects: old(self).scenes()[scene_id].objects.insert(object_id),
                    ..old(self).scenes()[scene_id]
                })
            } else {
                old(self).scenes()
            }),
            final(self).current() == old(self).current(),
            final(self).next_id() == old(self).next_id(),
    {
        if !object_exists {
            return false;
        }
        match fx_remove(&mut self.scenes, scene_id) {
            Some(mut scene) => {
                scene.add_object(object_id);
                fx_insert(&mut self.scenes, scene_id, scene);
                proof {
                    assert(self.scenes() =~= old(self).scenes().insert(scene_id, SceneView {
                        objects: old(self).scenes()[scene_id].objects.insert(object_id),
                        ..old(self).scenes()[scene_id]
                    }));
                }
                true
            },
            None => {
                assert(self.scenes() =~= old(self).scenes());
                false
            },
        }
    }

    /// Remove an object from a scene. Returns `true` if the scene existed
    /// and contained the object.
    pub fn remove_object_from_scene(&mut self, scene_id: u32, object_id: u32) -> (r: bool)
        requires
            old(self).wf(),
        ensures
            final(self).wf(),
            r == (old(self).scenes().contains_key(scene_id) && old(self).scenes()[scene_id].objects.contains(object_id)),
            final(self).scenes() == (if old(self).scenes().contains_key(scene_id) {
                old(self).scenes().insert(scene_id, SceneView {
                    objects: old(self).scenes()[scene_id].objects.remove(object_id),
                    ..old(self).scenes()[scene_id]
                })
            } else {
                old(self).scenes()
            }),
            final(self).current() == old(self).current(),
            final(self).next_id() == old(self).next_id(),
    {
        match fx_remove(&mut self.scenes, scene_id) {
            Some(mut scene) => {
                let removed = scene.remove_object(object_id);
                fx_insert(&mut self.scenes, scene_id, scene);
                proof {
                    assert(self.scenes() =~= old(self).scenes().insert(scene_id, SceneView {
                        objects: old(self).scenes()[scene_id].objects.remove(object_id),
                        ..old(self).scenes()[scene_id]
                    }));
                }
                removed
            },
            None => {
                assert(self.scenes() =~= old(self).scenes());
                false
            },
        }
    }

    /// Add a model to a scene, together with all of the model's mesh
    /// objects. `model_objects` is the model's object list, `None` when no
    /// model or model instance has that ID. Returns `true` on success;
    /// fails, changing nothing, when the model or the scene is unknown.
    pub fn add_model_to_scene(&mut self, scene_id: u32, model_id: u32, model_objects: Option<&Vec<u32>>) -> (r: bool)
        requires
            old(self).wf(),
        ensures
            final(self).wf(),
            r == (model_objects.is_some() && old(self).scenes().contains_key(scene_id)),
            final(self).scenes() == (if r {
                old(self).scenes().insert(scene_id, SceneView {
                    models: old(self).scenes()[scene_id].models.insert(model_id),
                    objects: old(self).scenes()[scene_id].objects + model_objects.unwrap()@.to_set(),
                    ..old(self).scenes()[scene_id]
                })
            } else {
                old(self).scenes()
            }),
            final(self).current() == old(self).current(),
            final(self).next_id() == old(self).next_id(),
    {
        let ids = match model_objects {
            Some(ids) => ids,
            None => {
                return false;
            },
        };
        match fx_remove(&mut self.scenes, scene_id) {
            Some(mut scene) => {
                scene.add_model(model_id);
                add_objects(&mut scene, ids);
                fx_insert(&mut self.scenes, scene_id, scene);
                proof {
                    assert(self.scenes() =~= old(self).scenes().insert(scene_id, SceneView {
                        models: old(self).scenes()[scene_id].models.insert(model_id),
                        objects: old(self).scenes()[scene_id].objects + ids@.to_set(),
                        ..old(self).scenes()[scene_id]
                    }));
                }
                true
            },
            None => {
                assert(self.scenes() =~= old(self).scenes());
                false
            },
        }
    }

    /// Remove a model from a scene; when the scene held the model, the
    /// model's mesh objects leave the scene too. `model_objects` is the
    /// model's object list, `None` when no model or model instance has that
    /// ID. Returns `true` if the model is known, the scene existed and it
    /// contained the model.
    pub fn remove_model_from_scene(&mut self, scene_id: u32, model_id: u32, model_objects: Option<&Vec<u32>>) -> (r: bool)
        requires
            old(self).wf(),
        ensures
            final(self).wf(),
            r == (model_objects.is_some() && old(self).scenes().contains_key(scene_id)
                && old(self).scenes()[scene_id].models.contains(model_id)),
            final(self).scenes() == (if model_objects.is_some() && old(self).scenes().contains_key(scene_id) {
                old(self).scenes().insert(scene_id, SceneView {
                    models: old(self).scenes()[scene_id].models.remove(model_id),
                    objects: if r {
                        old(self).scenes()[scene_id].objects - model_objects.unwrap()@.to_set()
                    } else {
                        old(self).scenes()[scene_id].objects
                    },
                    ..old(self).scenes()[scene_id]
                })
            } else {
                old(self).scenes()
            }),
            final(self).current() == old(self).current(),
            final(self).next_id() == old(self).next_id(),
    {
        let ids = match model_objects {
            Some(ids) => ids,
            None => {
                return false;
            },
        };
        match fx_remove(&mut self.scenes, scene_id) {
            Some(mut scene) => {
                let removed = scene.remove_model(model_id);
                if removed {
                    remove_objects(&mut scene, ids);
                }
                fx_insert(&mut self.scenes, scene_id, scene);
                proof {
                    assert(self.scenes() =~= old(self).scenes().insert(scene_id, SceneView {
                        models: old(self).scenes()[scene_id].models.remove(model_id),
                        objects: if removed {
                            old(self).scenes()[scene_id].objects - ids@.to_set()
                        } else {
                            old(self).scenes()[scene_id].objects
                        },
                        ..old(self).scenes()[scene_id]
                    }));
                }
                removed
            },
            None => {
                assert(self.scenes() =~= old(self).scenes());
                false
            },
        }
    }

    /// Add a light to a scene. Returns `true` on success; fails, changing
    /// nothing, when the light does not exist or the scene does not.
    pub fn add_light_to_scene(&mut self, scene_id: u32, light_id: u32, light_exists: bool) -> (r: bool)
        requires
            old(self).wf(),
        ensures
            final(self).wf(),
            r == (light_exists && old(self).scenes().contains_key(scene_id)),
            final(self).scenes() == (if r {
                old(self).scenes().insert(scene_id, SceneView {
                    lights: old(self).scenes()[scene_id].lights.insert(light_id),
                    ..old(self).scenes()[scene_id]
                })
            } else {
                old(self).scenes()
            }),
            final(self).current() == old(self).current(),
            final(self).next_id() == old(self).next_id(),
    {
        if !light_exists {
            return false;
        }
        match fx_remove(&mut self.scenes, scene_id) {
            Some(mut scene) => {
                scene.add_light(light_id);
                fx_insert(&mut self.scenes, scene_id, scene);
                proof {
                    assert(self.scenes() =~= old(self).scenes().insert(scene_id, SceneView {
                        lights: old(self).scenes()[scene_id].lights.insert(light_id),
                        ..old(self).scenes()[scene_id]
                    }));
                }
                true
            },
            None => {
                assert(self.scenes() =~= old(self).scenes());
                false
            },
        }
    }

    /// Remove a light from a scene. Returns `true` if the scene existed and
    /// contained the light.
    pub fn remove_light_from_scene(&mut self, scene_id: u32, light_id: u32) -> (r: bool)
        requires
            old(self).wf(),
        ensures
            final(self).wf(),
            r == (old(self).scenes().contains_key(scene_id) && old(self).scenes()[scene_id].lights.contains(light_id)),
            final(self).scenes() == (if old(self).scenes().contains_key(scene_id) {
                old(self).scenes().insert(scene_id, SceneView {
                    lights: old(self).scenes()[scene_id].lights.remove(light_id),
                    ..old(self).scenes()[scene_id]
                })
            } else {
                old(self).scenes()
            }),
            final(self).current() == old(self).current(),
            final(self).next_id() == old(self).next_id(),
    {
        match fx_remove(&mut self.scenes, scene_id) {
            Some(mut scene) => {
                let removed = scene.remove_light(light_id);
                fx_insert(&mut self.scenes, scene_id, scene);
                proof {
                    assert(self.scenes() =~= old(self).scenes().insert(scene_id, SceneView {
                        lights: old(self).scenes()[scene_id].lights.remove(light_id),
                        ..old(self).scenes()[scene_id]
                    }));
                }
                removed
            },
            None => {
                assert(self.scenes() =~= old(self).scenes());
                false
            },
        }
    }
}


/// A scene without model `model_id` and without the objects `ids`.
pub open spec fn without_model(v: SceneView, model_id: u32, ids: Set<u32>) -> SceneView {
    SceneView { models: v.models.remove(model_id), objects: v.objects - ids, ..v }
}

/// A scene that forgets a model keeps its name and lights, loses exactly
/// that model from its models, and exactly the given objects from its
/// objects.
pub proof fn lemma_without_model(v: SceneView, model_id: u32, ids: Set<u32>)
    ensures
        without_model(v, model_id, ids).name == v.name,
        without_model(v, model_id, ids).lights == v.lights,
        forall|m: u32| #[trigger] without_model(v, model_id, ids).models.contains(m) == (v.models.contains(m) && m != model_id),
        forall|o: u32| #[trigger] without_model(v, model_id, ids).objects.contains(o) == (v.objects.contains(o) && !ids.contains(o)),
{
}

impl SceneRegistry {
    /// A model (or model instance) is being destroyed: every scene forgets
    /// it and its mesh objects `object_ids`.
    pub fn purge_model(&mut self, model_id: u32, object_ids: &Vec<u32>)
        requires
            old(self).wf(),
        ensures
            final(self).wf(),
            final(self).scenes() == old(self).scenes().map_values(|v: SceneView| without_model(v, model_id, object_ids@.to_set())),
            final(self).scenes().dom() == old(self).scenes().dom(),
            forall|k: u32| #[trigger] final(self).scenes().contains_key(k) ==> {
                &&& final(self).scenes()[k].name == old(self).scenes()[k].name
                &&& final(self).scenes()[k].lights == old(self).scenes()[k].lights
                &&& forall|m: u32| #[trigger] final(self).scenes()[k].models.contains(m) == (old(self).scenes()[k].models.contains(m)
                    && m != model_id)
                &&& forall|o: u32| #[trigger] final(self).scenes()[k].objects.contains(o) == (old(self).scenes()[k].objects.contains(o)
                    && !object_ids@.contains(o))
            },
            final(self).current() == old(self).current(),
            final(self).next_id() == old(self).next_id(),
    {
        let ghost s0 = self.scenes();
        let ghost ids = object_ids@.to_set();
        let keys = fx_keys(&self.scenes);
        let mut i: usize = 0;
        while i < keys.len()
            invariant
                i <= keys@.len(),
                keys@.no_duplicates(),
                keys@.to_set() == s0.dom(),
                ids == object_ids@.to_set(),
                self.wf(),
                self.current() == old(self).current(),
                self.next_id() == old(self).next_id(),
                self.scenes().dom() == s0.dom(),
                forall|k: u32| #[trigger] self.scenes().contains_key(k) ==> self.scenes()[k] == (if keys@.subrange(0, i as int).contains(k) {
                    without_model(s0[k], model_id, ids)
                } else {
                    s0[k]
                }),
            decreases keys@.len() - i,
        {
            let k = keys[i];
            let ghost before = self.scenes();
            let ghost sub0 = keys@.subrange(0, i as int);
            let ghost sub1 = keys@.subrange(0, i + 1);
            proof {
                assert(sub1 =~= sub0.push(k));
                assert(keys@.to_set().contains(k));
                assert(!sub0.contains(k)) by {
                    if sub0.contains(k) {
                        let j = choose|j: int| 0 <= j < sub0.len() && sub0[j] == k;
                        assert(keys@[j] == keys@[i as int]);
                    }
                }
                assert forall|x: u32| #[trigger] sub1.contains(x) <==> sub0.contains(x) || x == k by {
                    if sub1.contains(x) {
                        let j = choose|j: int| 0 <= j < sub1.len() && sub1[j] == x;
                        if j < i {
                            assert(sub0[j] == x);
                        }
                    }
                    if sub0.contains(x) {
                        let j = choose|j: int| 0 <= j < sub0.len() && sub0[j] == x;
                        assert(sub1[j] == x);
                    }
                    if x == k {
                        assert(sub1[i as int] == x);
                    }
                }
            }
            match fx_remove(&mut self.scenes, k) {
                Some(mut scene) => {
                    scene.remove_model(model_id);
                    remove_objects(&mut scene, object_ids);
                    let ghost sv = scene@;
                    fx_insert(&mut self.scenes, k, scene);
                    proof {
                        assert(sv == without_model(s0[k], model_id, ids));
                        assert(self.scenes() =~= before.insert(k, sv));
                    }
                },
                None => {
                    proof {
                        assert(s0.contains_key(k));
                    }
                },
            }
            i = i + 1;
        }
        proof {
            assert(keys@.subrange(0, keys@.len() as int) =~= keys@);
            assert forall|k: u32| #[trigger] self.scenes().contains_key(k) implies keys@.contains(k) by {
                assert(keys@.to_set().contains(k));
            }
            assert(self.scenes() =~= s0.map_values(|v: SceneView| without_model(v, model_id, ids)));
            assert forall|k: u32| #[trigger] self.scenes().contains_key(k) implies {
                &&& self.scenes()[k].name == s0[k].name
                &&& self.scenes()[k].lights == s0[k].lights
                &&& forall|m: u32| #[trigger] self.scenes()[k].models.contains(m) == (s0[k].models.contains(m) && m != model_id)
                &&& forall|o: u32| #[trigger] self.scenes()[k].objects.contains(o) == (s0[k].objects.contains(o)
                    && !object_ids@.contains(o))
            } by {
                lemma_without_model(s0[k], model_id, ids);
                assert forall|o: u32| ids.contains(o) == object_ids@.contains(o) by {}
            }
        }
    }

    /// A model instance was created from `source_model_id`: when the
    /// current scene holds the source model, the instance and its mesh
    /// objects `instance_objects` join that scene. Returns whether they
    /// joined.
    pub fn adopt_instance(&mut self, source_model_id: u32, instance_id: u32, instance_objects: &Vec<u32>) -> (r: bool)
        requires
            old(self).wf(),
        ensures
            final(self).wf(),
            r == (old(self).current() matches Some(sid) && old(self).scenes()[sid].models.contains(source_model_id)),
            final(self).scenes() == (if r {
                old(self).scenes().insert(old(self).current()->Some_0, SceneView {
                    models: old(self).scenes()[old(self).current()->Some_0].models.insert(instance_id),
                    objects: old(self).scenes()[old(self).current()->Some_0].objects + instance_objects@.to_set(),
                    ..old(self).scenes()[old(self).current()->Some_0]
                })
            } else {
                old(self).scenes()
            }),
            final(self).current() == old(self).current(),
            final(self).next_id() == old(self).next_id(),
    {
        let sid = match self.current_scene {
            Some(sid) => sid,
            None => {
                return false;
            },
        };
        let ghost s0 = self.scenes();
        match fx_remove(&mut self.scenes, sid) {
            Some(mut scene) => {
                if scene.contains_model(source_model_id) {
                    scene.add_model(instance_id);
                    add_objects(&mut scene, instance_objects);
                    let ghost sv = scene@;
                    fx_insert(&mut self.scenes, sid, scene);
                    proof {
                        assert(self.scenes() =~= s0.insert(sid, sv));
                    }
                    true
                } else {
                    fx_insert(&mut self.scenes, sid, scene);
                    proof {
                        assert(self.scenes() =~= s0);
                    }
                    false
                }
            },
            None => {
                proof {
                    assert(s0.contains_key(sid));
                }
                false
            },
        }
    }
}

// ---------------------------------------------------------------------------
// Laws
// ---------------------------------------------------------------------------

impl SceneRegistry {
    /// The current scene, when there is one, is always a live scene.
    pub proof fn law_current_scene_exists(&self)
        requires
            self.wf(),
        ensures
            self.current() matches Some(id) ==> self.scenes().contains_key(id),
            forall|id: u32| #[trigger] self.scenes().contains_key(id) ==> 1 <= id < self.next_id(),
    {
    }
}

/// Destroying a scene right after creating it restores the scenes that
/// existed before.
pub proof fn law_destroy_undoes_create(scenes: Map<u32, SceneView>, id: u32, created: SceneView)
    requires
        !scenes.contains_key(id),
    ensures
        scenes.insert(id, created).remove(id) == scenes,
{
    assert(scenes.insert(id, created).remove(id) =~= scenes);
}

/// Adding a member that a scene lacks and removing it again restores the
/// scene's set; adding one it already has changes nothing.
pub proof fn law_add_then_remove_member(members: Set<u32>, id: u32)
    ensures
        !members.contains(id) ==> members.insert(id).remove(id) == members,
        members.contains(id) ==> members.insert(id) == members,
{
    assert(!members.contains(id) ==> members.insert(id).remove(id) =~= members);
    assert(members.contains(id) ==> members.insert(id) =~= members);
}

} // verus!
