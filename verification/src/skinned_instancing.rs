//! Which skinned instances are drawn with instancing: instances are grouped
//! by source model, and a group is drawn instanced when it is large enough.
//! Building the bone and instance buffers and drawing stay outside.
use vstd::prelude::*;
use crate::draw_plan::contains_id;

verus! {

/// Instance `e` = `(instance ID, source model ID)` takes part: its source is
/// a skinned model and the instance has an animation player.
pub open spec fn qualifies(e: (u32, u32), skinned_sources: Seq<u32>, animated: Seq<u32>) -> bool {
    skinned_sources.contains(e.1) && animated.contains(e.0)
}

/// The IDs of the taking-part instances of source `src`, in order.
pub open spec fn members(instances: Seq<(u32, u32)>, src: u32, skinned_sources: Seq<u32>, animated: Seq<u32>) -> Seq<u32>
    decreases instances.len(),
{
    if instances.len() == 0 {
        Seq::empty()
    } else {
        let rest = members(instances.drop_last(), src, skinned_sources, animated);
        let e = instances.last();
        if e.1 == src && qualifies(e, skinned_sources, animated) {
            rest.push(e.0)
        } else {
            rest
        }
    }
}

proof fn lemma_members_push(instances: Seq<(u32, u32)>, e: (u32, u32), skinned_sources: Seq<u32>, animated: Seq<u32>)
    ensures
        forall|src: u32| #[trigger] members(instances.push(e), src, skinned_sources, animated) == if e.1 == src
            && qualifies(e, skinned_sources, animated) {
            members(instances, src, skinned_sources, animated).push(e.0)
        } else {
            members(instances, src, skinned_sources, animated)
        },
{
    assert(instances.push(e).drop_last() =~= instances);
}

/// Every member of a source's group is an animated instance of that source,
/// listed among the instances, and a source has members only when it is a
/// skinned source.
pub proof fn lemma_members_qualify(instances: Seq<(u32, u32)>, src: u32, skinned_sources: Seq<u32>, animated: Seq<u32>)
    ensures
        members(instances, src, skinned_sources, animated).len() > 0 ==> skinned_sources.contains(src),
        forall|k: int| 0 <= k < members(instances, src, skinned_sources, animated).len() ==> {
            &&& animated.contains(#[trigger] members(instances, src, skinned_sources, animated)[k])
            &&& instances.contains((members(instances, src, skinned_sources, animated)[k], src))
        },
        forall|t: int| 0 <= t < instances.len() && (#[trigger] instances[t]).1 == src && skinned_sources.contains(src)
            && animated.contains(instances[t].0) ==> members(instances, src, skinned_sources, animated).contains(instances[t].0),
    decreases instances.len(),
{
    if instances.len() > 0 {
        let rest = instances.drop_last();
        lemma_members_qualify(rest, src, skinned_sources, animated);
        let m = members(instances, src, skinned_sources, animated);
        let m0 = members(rest, src, skinned_sources, animated);
        assert forall|k: int| 0 <= k < m.len() implies {
            &&& animated.contains(#[trigger] m[k])
            &&& instances.contains((m[k], src))
        } by {
            if k < m0.len() {
                assert(m[k] == m0[k]);
                assert(animated.contains(m0[k]));
                let t = choose|t: int| 0 <= t < rest.len() && rest[t] == (m0[k], src);
                assert(instances[t] == rest[t]);
            } else {
                assert(instances[instances.len() - 1] == instances.last());
            }
        }
        assert forall|t: int| 0 <= t < instances.len() && (#[trigger] instances[t]).1 == src && skinned_sources.contains(src)
            && animated.contains(instances[t].0) implies m.contains(instances[t].0) by {
            if t < rest.len() {
                assert(rest[t] == instances[t]);
                assert(m0.contains(instances[t].0));
                let w = choose|w: int| 0 <= w < m0.len() && m0[w] == instances[t].0;
                assert(m[w] == m0[w]);
            } else {
                assert(m[m.len() - 1] == instances[t].0);
            }
        }
    }
}

/// The taking-part instances of `src`.
fn members_of(instances: &Vec<(u32, u32)>, src: u32, skinned_sources: &Vec<u32>, animated: &Vec<u32>) -> (r: Vec<u32>)
    ensures
        r@ == members(instances@, src, skinned_sources@, animated@),
{
    let mut out: Vec<u32> = Vec::new();
    let mut i: usize = 0;
    assert(instances@.take(0) =~= Seq::<(u32, u32)>::empty());
    while i < instances.len()
        invariant
            i <= instances@.len(),
            out@ == members(instances@.take(i as int), src, skinned_sources@, animated@),
        decreases instances@.len() - i,
    {
        let e = instances[i];
        proof {
            assert(instances@.take(i + 1) =~= instances@.take(i as int).push(e));
            lemma_members_push(instances@.take(i as int), e, skinned_sources@, animated@);
        }
        if e.1 == src && contains_id(skinned_sources, e.1) && contains_id(animated, e.0) {
            out.push(e.0);
        }
        i = i + 1;
    }
    assert(instances@.take(instances@.len() as int) =~= instances@);
    out
}

/// Group the skinned instances for instanced drawing. `instances` holds
/// `(instance ID, source model ID)`; an instance takes part when its source
/// is among `skinned_sources` and it is among `animated`. Each group is a
/// source model with all its taking-part instances, and is kept only when it
/// has at least `min_instances` of them (and at least one). Groups come in
/// the order their sources first appear.
pub fn instanced_skinned_groups(
    instances: &Vec<(u32, u32)>,
    skinned_sources: &Vec<u32>,
    animated: &Vec<u32>,
    min_instances: usize,
) -> (r: Vec<(u32, Vec<u32>)>)
    ensures
        forall|g: int| 0 <= g < r@.len() ==> {
            &&& #[trigger] r@[g].1@ == members(instances@, r@[g].0, skinned_sources@, animated@)
            &&& r@[g].1@.len() >= min_instances
            &&& r@[g].1@.len() > 0
        },
        forall|a: int, b: int| 0 <= a < b < r@.len() ==> #[trigger] r@[a].0 != #[trigger] r@[b].0,
        forall|g: int| 0 <= g < r@.len() ==> skinned_sources@.contains(#[trigger] r@[g].0),
        forall|g: int, k: int| 0 <= g < r@.len() && 0 <= k < r@[g].1@.len() ==> {
            &&& animated@.contains(#[trigger] r@[g].1@[k])
            &&& instances@.contains((r@[g].1@[k], r@[g].0))
        },
        forall|src: u32| #[trigger] members(instances@, src, skinned_sources@, animated@).len() > 0
            && members(instances@, src, skinned_sources@, animated@).len() >= min_instances ==> exists|g: int|
            0 <= g < r@.len() && #[trigger] r@[g].0 == src,
{
    // Sources with a taking-part instance, in order of first appearance.
    let mut sources: Vec<u32> = Vec::new();
    let mut i: usize = 0;
    assert(instances@.take(0) =~= Seq::<(u32, u32)>::empty());
    while i < instances.len()
        invariant
            i <= instances@.len(),
            sources@.no_duplicates(),
            forall|t: int| 0 <= t < sources@.len() ==> members(instances@.take(i as int), #[trigger] sources@[t],
                skinned_sources@, animated@).len() > 0,
            forall|src: u32| #[trigger] members(instances@.take(i as int), src, skinned_sources@, animated@).len() > 0
                ==> sources@.contains(src),
        decreases instances@.len() - i,
    {
        let e = instances[i];
        let ghost before = sources@;
        proof {
            assert(instances@.take(i + 1) =~= instances@.take(i as int).push(e));
            lemma_members_push(instances@.take(i as int), e, skinned_sources@, animated@);
        }
        if contains_id(skinned_sources, e.1) && contains_id(animated, e.0) && !contains_id(&sources, e.1) {
            sources.push(e.1);
            proof {
                assert forall|a: int, b: int| 0 <= a < b < sources@.len() implies sources@[a] != sources@[b] by {
                    if b == sources@.len() - 1 {
                        assert(sources@[a] == before[a]);
                        assert(before.contains(before[a]));
                    } else {
                        assert(sources@[a] == before[a] && sources@[b] == before[b]);
                    }
                }
                assert forall|t: int| 0 <= t < sources@.len() implies members(instances@.take(i + 1), #[trigger] sources@[t],
                    skinned_sources@, animated@).len() > 0 by {
                    if t < before.len() {
                        assert(sources@[t] == before[t]);
                    }
                }
                assert forall|src: u32| #[trigger] members(instances@.take(i + 1), src, skinned_sources@, animated@).len() > 0
                    implies sources@.contains(src) by {
                    if src == e.1 {
                        assert(sources@[sources@.len() - 1] == src);
                    } else {
                        assert(before.contains(src));
                        let w = choose|w: int| 0 <= w < before.len() && before[w] == src;
                        assert(sources@[w] == src);
                    }
                }
            }
        } else {
            proof {
                assert forall|t: int| 0 <= t < sources@.len() implies members(instances@.take(i + 1), #[trigger] sources@[t],
                    skinned_sources@, animated@).len() > 0 by {
                    let m0 = members(instances@.take(i as int), sources@[t], skinned_sources@, animated@);
                    assert(m0.len() > 0);
                }
            }
        }
        i = i + 1;
    }
    assert(instances@.take(instances@.len() as int) =~= instances@);
    // One group per source, kept when large enough.
    let mut groups: Vec<(u32, Vec<u32>)> = Vec::new();
    let mut j: usize = 0;
    while j < sources.len()
        invariant
            j <= sources@.len(),
            sources@.no_duplicates(),
            forall|t: int| 0 <= t < sources@.len() ==> members(instances@, #[trigger] sources@[t], skinned_sources@,
                animated@).len() > 0,
            forall|g: int| 0 <= g < groups@.len() ==> {
                &&& #[trigger] groups@[g].1@ == members(instances@, groups@[g].0, skinned_sources@, animated@)
                &&& groups@[g].1@.len() >= min_instances
                &&& groups@[g].1@.len() > 0
                &&& sources@.take(j as int).contains(groups@[g].0)
            },
            forall|a: int, b: int| 0 <= a < b < groups@.len() ==> #[trigger] groups@[a].0 != #[trigger] groups@[b].0,
            forall|t: int| 0 <= t < j && #[trigger] members(instances@, sources@[t], skinned_sources@, animated@).len()
                >= min_instances ==> exists|g: int| 0 <= g < groups@.len() && #[trigger] groups@[g].0 == sources@[t],
        decreases sources@.len() - j,
    {
        let src = sources[j];
        let ids = members_of(instances, src, skinned_sources, animated);
        let ghost g0 = groups@;
        proof {
            assert(sources@.take(j + 1) =~= sources@.take(j as int).push(src));
            assert(!sources@.take(j as int).contains(src)) by {
                if sources@.take(j as int).contains(src) {
                    let w = choose|w: int| 0 <= w < j && #[trigger] sources@.take(j as int)[w] == src;
                    assert(sources@[w] == sources@[j as int]);
                }
            }
            assert forall|x: u32| sources@.take(j as int).contains(x) implies sources@.take(j + 1).contains(x) by {
                let w = choose|w: int| 0 <= w < j && #[trigger] sources@.take(j as int)[w] == x;
                assert(sources@.take(j + 1)[w] == x);
            }
            assert(sources@.take(j + 1)[j as int] == src);
        }
        if ids.len() >= min_instances {
            groups.push((src, ids));
            proof {
                assert forall|a: int, b: int| 0 <= a < b < groups@.len() implies #[trigger] groups@[a].0 != #[trigger] groups@[b].0 by {
                    if b == g0.len() {
                        assert(groups@[a] == g0[a]);
                        assert(g0[a].1@ == members(instances@, g0[a].0, skinned_sources@, animated@));
                        assert(sources@.take(j as int).contains(g0[a].0));
                    } else {
                        assert(groups@[a] == g0[a] && groups@[b] == g0[b]);
                    }
                }
                assert forall|t: int| 0 <= t < j + 1 && #[trigger] members(instances@, sources@[t], skinned_sources@, animated@).len()
                    >= min_instances implies exists|g: int| 0 <= g < groups@.len() && #[trigger] groups@[g].0 == sources@[t] by {
                    if t < j {
                        let g = choose|g: int| 0 <= g < g0.len() && #[trigger] g0[g].0 == sources@[t];
                        assert(groups@[g] == g0[g]);
                    } else {
                        assert(groups@[g0.len() as int].0 == sources@[t]);
                    }
                }
                assert forall|g: int| 0 <= g < groups@.len() implies {
                    &&& #[trigger] groups@[g].1@ == members(instances@, groups@[g].0, skinned_sources@, animated@)
                    &&& groups@[g].1@.len() >= min_instances
                    &&& groups@[g].1@.len() > 0
                    &&& sources@.take(j + 1).contains(groups@[g].0)
                } by {
                    if g < g0.len() {
                        assert(groups@[g] == g0[g]);
                    }
                }
            }
        } else {
            proof {
                assert forall|t: int| 0 <= t < j + 1 && #[trigger] members(instances@, sources@[t], skinned_sources@, animated@).len()
                    >= min_instances implies exists|g: int| 0 <= g < groups@.len() && #[trigger] groups@[g].0 == sources@[t] by {
                    if t == j {
                        assert(false);
                    }
                }
            }
        }
        j = j + 1;
    }
    proof {
        assert forall|g: int| 0 <= g < groups@.len() implies skinned_sources@.contains(#[trigger] groups@[g].0) by {
            assert(groups@[g].1@ == members(instances@, groups@[g].0, skinned_sources@, animated@));
            lemma_members_qualify(instances@, groups@[g].0, skinned_sources@, animated@);
        }
        assert forall|g: int, k: int| 0 <= g < groups@.len() && 0 <= k < groups@[g].1@.len() implies {
            &&& animated@.contains(#[trigger] groups@[g].1@[k])
            &&& instances@.contains((groups@[g].1@[k], groups@[g].0))
        } by {
            assert(groups@[g].1@ == members(instances@, groups@[g].0, skinned_sources@, animated@));
            lemma_members_qualify(instances@, groups@[g].0, skinned_sources@, animated@);
        }
        assert forall|src: u32| #[trigger] members(instances@, src, skinned_sources@, animated@).len() > 0
            && members(instances@, src, skinned_sources@, animated@).len() >= min_instances implies exists|g: int|
            0 <= g < groups@.len() && #[trigger] groups@[g].0 == src by {
            assert(sources@.contains(src));
            let t = choose|t: int| 0 <= t < sources@.len() && sources@[t] == src;
            assert(members(instances@, sources@[t], skinned_sources@, animated@).len() >= min_instances);
        }
    }
    groups
}

} // verus!
