//! The integer decisions of the main object pass: the order objects are
//! drawn in, which draws bind their texture, and the frame's counters. The
//! caller culls (in floating point), issues the GPU calls the plan names,
//! and computes each object's transform.
use vstd::prelude::*;
use crate::static_batch::{sort_entries, sorted_by_key, BatchEntry};
use crate::scene::SceneRegistry;

verus! {

/// One object draw.
#[derive(Debug, Clone, Copy, PartialEq, Eq, Structural)]
pub struct DrawCommand {
    /// Object to draw.
    pub object_id: u32,
    /// Its texture (0 = untextured: the draw samples no texture).
    pub texture_id: u32,
    /// The texture differs from the one bound last, so it is bound first.
    pub bind_texture: bool,
}

/// Counters of the main object pass.
#[derive(Debug, Clone, Copy, PartialEq, Eq, Structural)]
pub struct DrawPassStats {
    /// Objects in the scene before culling.
    pub total_objects: u32,
    /// Objects drawn.
    pub visible_objects: u32,
    /// Objects culled (never below 0).
    pub culled_objects: u32,
    /// Texture binds issued.
    pub texture_binds: u32,
    /// Draw calls issued.
    pub draw_calls: u32,
}

/// The texture bound when draw `i` of `textures` comes: that of the
/// latest earlier textured draw, or `u32::MAX` (no texture yet).
pub open spec fn bound_before(textures: Seq<u32>, i: int) -> u32
    decreases i,
{
    if i <= 0 {
        u32::MAX
    } else if textures[i - 1] > 0 {
        textures[i - 1]
    } else {
        bound_before(textures, i - 1)
    }
}

/// Draw `i` binds its texture: it is textured and that texture is not the
/// bound one.
pub open spec fn binds_at(textures: Seq<u32>, i: int) -> bool {
    textures[i] > 0 && textures[i] != bound_before(textures, i)
}

/// Number of texture binds among the first `n` draws.
pub open spec fn bind_count(textures: Seq<u32>, n: int) -> nat
    decreases n,
{
    if n <= 0 {
        0
    } else {
        bind_count(textures, n - 1) + if binds_at(textures, n - 1) { 1nat } else { 0nat }
    }
}

/// The visible objects as sort entries `(material, texture, object ID, 0)`.
pub open spec fn keyed(visible: Seq<(u32, u32, u32)>) -> Seq<BatchEntry> {
    Seq::new(visible.len(), |i: int| (visible[i].0, visible[i].1, visible[i].2, 0usize))
}

/// `order` is the draw order of `visible`: with `material_sorting`, the
/// entries in (material, texture) order; else the entries as given.
pub open spec fn draw_order_of(visible: Seq<(u32, u32, u32)>, material_sorting: bool, order: Seq<BatchEntry>) -> bool {
    &&& order.len() == visible.len()
    &&& order.to_multiset() == keyed(visible).to_multiset()
    &&& (material_sorting ==> sorted_by_key(order))
    &&& (!material_sorting ==> order == keyed(visible))
}

/// The textures of a draw order.
pub open spec fn draw_textures(cmds: Seq<DrawCommand>) -> Seq<u32> {
    Seq::new(cmds.len(), |i: int| cmds[i].texture_id)
}

/// A draw binds its texture exactly when it is textured and differs from
/// the texture of the latest earlier textured draw; a textured draw with no
/// textured draw before it binds unless its texture is `u32::MAX` (the
/// "nothing bound" mark).
pub proof fn lemma_bind_rule(textures: Seq<u32>, i: int, j: int)
    requires
        0 <= j < i < textures.len(),
        textures[j] > 0,
        forall|k: int| j < k < i ==> textures[k] == 0,
    ensures
        binds_at(textures, i) == (textures[i] > 0 && textures[i] != textures[j]),
    decreases i - j,
{
    if i - 1 > j {
        lemma_bind_rule_bound(textures, i - 1, j);
    } else {
        assert(bound_before(textures, j + 1) == textures[j]);
    }
}

proof fn lemma_bind_rule_bound(textures: Seq<u32>, i: int, j: int)
    requires
        0 <= j < i < textures.len(),
        textures[j] > 0,
        forall|k: int| j < k <= i ==> textures[k] == 0,
    ensures
        bound_before(textures, i + 1) == textures[j],
    decreases i - j,
{
    assert(bound_before(textures, i + 1) == bound_before(textures, i));
    if i - 1 > j {
        lemma_bind_rule_bound(textures, i - 1, j);
    } else {
        assert(bound_before(textures, j + 1) == textures[j]);
    }
}

/// With no textured draw before it, a draw binds exactly when it is
/// textured with a texture other than `u32::MAX`.
pub proof fn lemma_first_bind(textures: Seq<u32>, i: int)
    requires
        0 <= i < textures.len(),
        forall|k: int| 0 <= k < i ==> textures[k] == 0,
    ensures
        binds_at(textures, i) == (textures[i] > 0 && textures[i] != u32::MAX),
    decreases i,
{
    if i > 0 {
        lemma_first_bind_bound(textures, i - 1);
    }
}

proof fn lemma_first_bind_bound(textures: Seq<u32>, i: int)
    requires
        0 <= i < textures.len(),
        forall|k: int| 0 <= k <= i ==> textures[k] == 0,
    ensures
        bound_before(textures, i + 1) == u32::MAX,
    decreases i,
{
    assert(bound_before(textures, i + 1) == bound_before(textures, i));
    if i > 0 {
        lemma_first_bind_bound(textures, i - 1);
    }
}

proof fn lemma_bind_count_bound(textures: Seq<u32>, n: int)
    requires
        0 <= n,
    ensures
        bind_count(textures, n) <= n,
    decreases n,
{
    if n > 0 {
        lemma_bind_count_bound(textures, n - 1);
    }
}

/// The current scene admits object `id`: always with no current scene,
/// else when it holds the object.
pub open spec fn scene_admits(scenes: SceneRegistry, id: u32) -> bool {
    match scenes.current() {
        Some(sid) => scenes.scenes()[sid].objects.contains(id),
        None => true,
    }
}

/// Object `o` = `(ID, is_static)` goes on to culling: it is not drawn by
/// the skinned pass, not drawn from the static batch (when there is one),
/// and the current scene admits it.
pub open spec fn is_candidate(o: (u32, bool), skinned: Seq<u32>, has_static_batch: bool, scenes: SceneRegistry) -> bool {
    &&& !skinned.contains(o.0)
    &&& !(has_static_batch && o.1)
    &&& scene_admits(scenes, o.0)
}

/// The IDs of the candidates among `objects`, in order.
pub open spec fn candidates(objects: Seq<(u32, bool)>, skinned: Seq<u32>, has_static_batch: bool, scenes: SceneRegistry) -> Seq<u32>
    decreases objects.len(),
{
    if objects.len() == 0 {
        Seq::empty()
    } else {
        let rest = candidates(objects.drop_last(), skinned, has_static_batch, scenes);
        if is_candidate(objects.last(), skinned, has_static_batch, scenes) {
            rest.push(objects.last().0)
        } else {
            rest
        }
    }
}

/// The candidates are exactly the objects that are not skinned, not drawn
/// from the static batch, and held by the current scene's objects when
/// there is a current scene.
pub proof fn lemma_candidates_exact(objects: Seq<(u32, bool)>, skinned: Seq<u32>, has_static_batch: bool, scenes: SceneRegistry)
    ensures
        forall|i: int| 0 <= i < candidates(objects, skinned, has_static_batch, scenes).len() ==> {
            let id = #[trigger] candidates(objects, skinned, has_static_batch, scenes)[i];
            &&& !skinned.contains(id)
            &&& (scenes.current() matches Some(sid) ==> scenes.scenes()[sid].objects.contains(id))
            &&& exists|t: int| 0 <= t < objects.len() && objects[t].0 == id && !(has_static_batch && objects[t].1)
        },
        forall|t: int| 0 <= t < objects.len() && !skinned.contains((#[trigger] objects[t]).0) && !(has_static_batch && objects[t].1)
            && (scenes.current() matches Some(sid) ==> scenes.scenes()[sid].objects.contains(objects[t].0))
            ==> candidates(objects, skinned, has_static_batch, scenes).contains(objects[t].0),
    decreases objects.len(),
{
    if objects.len() > 0 {
        let rest = objects.drop_last();
        lemma_candidates_exact(rest, skinned, has_static_batch, scenes);
        let c = candidates(objects, skinned, has_static_batch, scenes);
        let c0 = candidates(rest, skinned, has_static_batch, scenes);
        assert forall|i: int| 0 <= i < c.len() implies {
            let id = #[trigger] c[i];
            &&& !skinned.contains(id)
            &&& (scenes.current() matches Some(sid) ==> scenes.scenes()[sid].objects.contains(id))
            &&& exists|t: int| 0 <= t < objects.len() && objects[t].0 == id && !(has_static_batch && objects[t].1)
        } by {
            if i < c0.len() {
                assert(c[i] == c0[i]);
                let t = choose|t: int| 0 <= t < rest.len() && rest[t].0 == c0[i] && !(has_static_batch && rest[t].1);
                assert(objects[t] == rest[t]);
            } else {
                let t = objects.len() - 1;
                assert(objects[t] == objects.last());
            }
        }
        assert forall|t: int| 0 <= t < objects.len() && !skinned.contains((#[trigger] objects[t]).0) && !(has_static_batch
            && objects[t].1) && (scenes.current() matches Some(sid) ==> scenes.scenes()[sid].objects.contains(objects[t].0))
            implies c.contains(objects[t].0) by {
            if t < rest.len() {
                assert(rest[t] == objects[t]);
                assert(c0.contains(objects[t].0));
                let w = choose|w: int| 0 <= w < c0.len() && c0[w] == objects[t].0;
                assert(c[w] == c0[w]);
            } else {
                assert(objects[t] == objects.last());
                assert(c[c.len() - 1] == objects[t].0);
            }
        }
    }
}

pub(crate) fn contains_id(ids: &Vec<u32>, id: u32) -> (r: bool)
    ensures
        r == ids@.contains(id),
{
    let mut i: usize = 0;
    while i < ids.len()
        invariant
            i <= ids@.len(),
            forall|j: int| 0 <= j < i ==> ids@[j] != id,
        decreases ids@.len() - i,
    {
        if ids[i] == id {
            assert(ids@[i as int] == id);
            return true;
        }
        i = i + 1;
    }
    false
}

/// The objects that go on to culling: those not drawn by the skinned pass,
/// not drawn from the static batch when there is one, and admitted by the
/// current scene. `objects` holds `(ID, is_static)`; the result keeps their
/// order.
pub fn render_candidates(objects: &Vec<(u32, bool)>, skinned: &Vec<u32>, has_static_batch: bool, scenes: &SceneRegistry) -> (r: Vec<u32>)
    requires
        scenes.wf(),
    ensures
        r@ == candidates(objects@, skinned@, has_static_batch, *scenes),
        forall|i: int| 0 <= i < r@.len() ==> {
            &&& !skinned@.contains(#[trigger] r@[i])
            &&& (scenes.current() matches Some(sid) ==> scenes.scenes()[sid].objects.contains(r@[i]))
            &&& exists|t: int| 0 <= t < objects@.len() && objects@[t].0 == r@[i] && !(has_static_batch && objects@[t].1)
        },
        forall|t: int| 0 <= t < objects@.len() && !skinned@.contains((#[trigger] objects@[t]).0) && !(has_static_batch
            && objects@[t].1) && (scenes.current() matches Some(sid) ==> scenes.scenes()[sid].objects.contains(objects@[t].0))
            ==> r@.contains(objects@[t].0),
{
    let mut out: Vec<u32> = Vec::new();
    let mut i: usize = 0;
    assert(objects@.take(0) =~= Seq::<(u32, bool)>::empty());
    while i < objects.len()
        invariant
            i <= objects@.len(),
            scenes.wf(),
            out@ == candidates(objects@.take(i as int), skinned@, has_static_batch, *scenes),
        decreases objects@.len() - i,
    {
        let o = objects[i];
        let keep = !contains_id(skinned, o.0) && !(has_static_batch && o.1) && scenes.object_visible(o.0);
        proof {
            assert(objects@.take(i + 1).drop_last() =~= objects@.take(i as int));
        }
        if keep {
            out.push(o.0);
        }
        i = i + 1;
    }
    assert(objects@.take(objects@.len() as int) =~= objects@);
    proof {
        lemma_candidates_exact(objects@, skinned@, has_static_batch, *scenes);
    }
    out
}

/// Plan the object pass. `visible` holds `(material, texture, object ID)`
/// for each object that survived culling, in the order found; with
/// `material_sorting` they are drawn in (material, texture) order, else in
/// that order. Each draw binds its texture
/// when it is textured and differs from the one bound last; every visible
/// object is one draw call.
pub fn plan_object_draws(visible: &Vec<(u32, u32, u32)>, material_sorting: bool, total_objects: u32) -> (r: (
    Vec<DrawCommand>,
    DrawPassStats,
))
    requires
        visible@.len() <= u32::MAX,
    ensures
        r.0@.len() == visible@.len(),
        exists|order: Seq<BatchEntry>| {
            &&& #[trigger] draw_order_of(visible@, material_sorting, order)
            &&& forall|i: int| 0 <= i < order.len() ==> #[trigger] r.0@[i].object_id == order[i].2 && r.0@[i].texture_id
                == order[i].1
        },
        forall|i: int| 0 <= i < r.0@.len() ==> #[trigger] r.0@[i].bind_texture == binds_at(draw_textures(r.0@), i),
        r.1.total_objects == total_objects,
        r.1.visible_objects == visible@.len(),
        r.1.culled_objects == (if total_objects >= visible@.len() { total_objects - visible@.len() } else { 0 }),
        r.1.texture_binds == bind_count(draw_textures(r.0@), r.0@.len() as int),
        r.1.draw_calls == visible@.len(),
{
    let mut entries: Vec<BatchEntry> = Vec::new();
    let mut i: usize = 0;
    while i < visible.len()
        invariant
            i <= visible@.len(),
            entries@.len() == i,
            forall|j: int| 0 <= j < i ==> #[trigger] entries@[j] == (visible@[j].0, visible@[j].1, visible@[j].2, 0usize),
        decreases visible@.len() - i,
    {
        let v = visible[i];
        entries.push((v.0, v.1, v.2, 0));
        i = i + 1;
    }
    let ghost input = keyed(visible@);
    assert(entries@ =~= input);
    let order = if material_sorting {
        sort_entries(&entries)
    } else {
        entries
    };
    proof {
        assert(order@.len() == order@.to_multiset().len()) by {
            vstd::seq_lib::to_multiset_len(order@);
        }
        vstd::seq_lib::to_multiset_len(input);
    }
    let mut cmds: Vec<DrawCommand> = Vec::new();
    let mut last: u32 = u32::MAX;
    let mut binds: u32 = 0;
    let mut k: usize = 0;
    while k < order.len()
        invariant
            k <= order@.len(),
            order@.len() == visible@.len(),
            visible@.len() <= u32::MAX,
            cmds@.len() == k,
            forall|j: int| 0 <= j < k ==> #[trigger] cmds@[j].object_id == order@[j].2 && cmds@[j].texture_id == order@[j].1,
            forall|j: int| 0 <= j < k ==> #[trigger] cmds@[j].bind_texture == binds_at(draw_textures(cmds@), j),
            last == bound_before(draw_textures(cmds@), k as int),
            binds == bind_count(draw_textures(cmds@), k as int),
        decreases order@.len() - k,
    {
        let e = order[k];
        let ghost before = cmds@;
        let bind = e.1 > 0 && e.1 != last;
        cmds.push(DrawCommand { object_id: e.2, texture_id: e.1, bind_texture: bind });
        proof {
            let t0 = draw_textures(before);
            let t1 = draw_textures(cmds@);
            assert forall|j: int| 0 <= j <= k implies #[trigger] bound_before(t1, j) == bound_before(t0, j) by {
                lemma_bound_before_prefix(t0, t1, j);
            }
            assert forall|j: int| 0 <= j <= k implies #[trigger] bind_count(t1, j) == bind_count(t0, j) by {
                lemma_bind_count_prefix(t0, t1, j);
            }
            assert(t1[k as int] == e.1);
            assert(bound_before(t1, k + 1) == if e.1 > 0 { e.1 } else { bound_before(t1, k as int) });
            assert(bind_count(t1, k + 1) == bind_count(t1, k as int) + if binds_at(t1, k as int) { 1nat } else { 0nat });
            assert forall|j: int| 0 <= j < k + 1 implies #[trigger] cmds@[j].bind_texture == binds_at(t1, j) by {
                if j < k {
                    assert(cmds@[j] == before[j]);
                    assert(t1[j] == t0[j]);
                }
            }
            lemma_bind_count_bound(t0, k as int);
        }
        if bind {
            binds = binds + 1;
            last = e.1;
        }
        k = k + 1;
    }
    let visible_count = visible.len() as u32;
    let culled = if total_objects >= visible_count { total_objects - visible_count } else { 0 };
    let stats = DrawPassStats {
        total_objects,
        visible_objects: visible_count,
        culled_objects: culled,
        texture_binds: binds,
        draw_calls: visible_count,
    };
    let r = (cmds, stats);
    proof {
        assert(draw_order_of(visible@, material_sorting, order@));
        assert(forall|i: int| 0 <= i < order@.len() ==> #[trigger] r.0@[i].object_id == order@[i].2 && r.0@[i].texture_id
            == order@[i].1);
    }
    r
}

/// `bound_before` looks only at earlier draws.
proof fn lemma_bound_before_prefix(t0: Seq<u32>, t1: Seq<u32>, j: int)
    requires
        0 <= j <= t0.len(),
        t0.len() <= t1.len(),
        forall|x: int| 0 <= x < t0.len() ==> t0[x] == t1[x],
    ensures
        bound_before(t1, j) == bound_before(t0, j),
    decreases j,
{
    if j > 0 {
        lemma_bound_before_prefix(t0, t1, j - 1);
    }
}

/// `bind_count` over a prefix looks only at that prefix.
proof fn lemma_bind_count_prefix(t0: Seq<u32>, t1: Seq<u32>, j: int)
    requires
        0 <= j <= t0.len(),
        t0.len() <= t1.len(),
        forall|x: int| 0 <= x < t0.len() ==> t0[x] == t1[x],
    ensures
        bind_count(t1, j) == bind_count(t0, j),
    decreases j,
{
    if j > 0 {
        lemma_bind_count_prefix(t0, t1, j - 1);
        lemma_bound_before_prefix(t0, t1, j - 1);
    }
}

} // verus!
