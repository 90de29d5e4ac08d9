# goud_engine renderer core

The integer logic of a 3D/2D renderer, verified with Verus:

- `spatial_index`: sparse uniform-grid index over object IDs (insert,
  update, remove, deduplicated range queries with two walk strategies).
- `scene`: named scenes and the registry that creates, destroys and
  activates them, filters objects and lights by the current scene
  (`object_visible`, `light_visible`), purges a destroyed model and adopts a
  new instance into the current scene.
- `models`: objects, models and instances; `instantiate_model` copies a
  model's objects and clones and binds its materials, `destroy_model`
  removes a model with its objects, materials and instances.
- `skinned_instancing`: `instanced_skinned_groups` groups skinned instances
  by source model for instanced drawing.
- `static_batch`: `static_batch_plan` orders static objects by material and
  texture, batches the prefix that fits the vertex budget and splits it into
  draw groups.
- `draw_plan`: `render_candidates` picks the objects that go on to culling
  (not skinned, not statically batched, in the current scene), and
  `plan_object_draws` decides the main object pass: draw order (by material
  and texture), which draws bind their texture, and the frame counters.
- `plane_instances`: pools of instanced planes with a slot index kept
  consistent under swap-removal.
- `sprite_batch`: batch formation by texture, the quad index buffer, vertex
  buffer growth, draw ranges and the GPU texture recorded per batch.
- `render_pass`: post-processing pipeline (every enabled pass runs once, in
  order, on what the earlier ones left) and the 3x3 box blur.
- `bone_channels`, `uniforms`: animation channel names, channel maps and
  shader uniform resolution.
- `vertex_layout`, `config`, `materials`, `texture`: layouts, configuration
  values, material bookkeeping and the texture binding bridge.

`app/` holds the floating-point edges: world-space AABBs around the spatial
index, the bloom, color-grading and FXAA-like filters, float-valued
configuration, the per-scene environment (fog, skybox, grid) and the
vertex baking of the static batch.

What is not here: the renderer's frame loop (`render`), the skinned and
instanced draw paths (`render_skinned_models`,
`render_instanced_skinned_models`, `render_static_model_instances`,
`render_skinned_mesh_pass`), model loading (`load_model`), renderer start-up
(`Renderer3D::new`) and animation sampling (`update_animations`). They issue
GPU calls through the graphics backend and compute transforms, frusta and
skinning in floating point. The decisions they make on integers stand in the
library: scene filtering in `scene` (objects, lights and models), the
candidate filter, draw order, texture binds and counters in `draw_plan`,
the grouping of skinned instances in `skinned_instancing`, the static batch
plan in `static_batch`, the sprite batches in `sprite_batch`, the
level-of-detail skip in `config`, and model instancing and destruction in
`models`. Baking the static batch's vertices and making the buffers of
CPU-skinned instances are in `app/`; uploading buffers stays with the
backend. The frustum test that follows the candidate filter is floating
point and stays outside.
