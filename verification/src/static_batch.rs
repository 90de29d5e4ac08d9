//! Planning the static batch: static objects are ordered by material and
//! texture, as many as the vertex budget allows are batched, and the
//! batched vertices are split into one draw group per material and texture.
//! Baking the vertices (floating point) and uploading them stay outside.
use vstd::prelude::*;

verus! {

/// A static object as the batch sees it: `(material, texture, object ID,
/// vertex count)`.
pub type BatchEntry = (u32, u32, u32, usize);

/// A contiguous range of batched vertices sharing material and texture.
#[derive(Debug, Clone, Copy, PartialEq, Eq, Structural)]
pub struct StaticBatchGroup {
    /// Material of the group (its color is resolved from it).
    pub material_id: u32,
    /// Texture of the group (0 = untextured).
    pub texture_id: u32,
    /// First vertex of the group in the batch buffer.
    pub start_vertex: u32,
    /// Number of vertices in the group.
    pub vertex_count: u32,
}

/// `a` sorts no later than `b`: by material, then texture.
pub open spec fn key_le(a: BatchEntry, b: BatchEntry) -> bool {
    a.0 < b.0 || (a.0 == b.0 && a.1 <= b.1)
}

/// The entries are in (material, texture) order.
pub open spec fn sorted_by_key(s: Seq<BatchEntry>) -> bool {
    forall|i: int, j: int| 0 <= i < j < s.len() ==> key_le(#[trigger] s[i], #[trigger] s[j])
}

/// Vertices of all the entries.
pub open spec fn vertex_total(s: Seq<BatchEntry>) -> nat
    decreases s.len(),
{
    if s.len() == 0 {
        0
    } else {
        vertex_total(s.drop_last()) + s.last().3 as nat
    }
}

/// Vertices of the entries with material `m` and texture `t`.
pub open spec fn key_total(s: Seq<BatchEntry>, m: u32, t: u32) -> nat
    decreases s.len(),
{
    if s.len() == 0 {
        0
    } else {
        key_total(s.drop_last(), m, t) + if s.last().0 == m && s.last().1 == t { s.last().3 as nat } else { 0nat }
    }
}

/// Group `a` comes strictly before group `b` in (material, texture) order.
pub open spec fn group_before(a: StaticBatchGroup, b: StaticBatchGroup) -> bool {
    a.material_id < b.material_id || (a.material_id == b.material_id && a.texture_id < b.texture_id)
}

/// `g` splits the vertices of `s`, in order, into one group per
/// (material, texture) that has vertices: the groups follow each other from
/// vertex 0 to the last vertex, in strictly increasing key order, and each
/// holds all the vertices of its key.
pub open spec fn groups_tile(s: Seq<BatchEntry>, g: Seq<StaticBatchGroup>) -> bool {
    &&& forall|i: int| 0 <= i < g.len() ==> {
        &&& #[trigger] g[i].vertex_count > 0
        &&& g[i].vertex_count == key_total(s, g[i].material_id, g[i].texture_id)
    }
    &&& forall|i: int, j: int| 0 <= i < j < g.len() ==> group_before(#[trigger] g[i], #[trigger] g[j])
    &&& g.len() == 0 ==> vertex_total(s) == 0
    &&& g.len() > 0 ==> g[0].start_vertex == 0 && g.last().start_vertex + g.last().vertex_count == vertex_total(s)
    &&& forall|i: int| 0 < i < g.len() ==> #[trigger] g[i].start_vertex == g[i - 1].start_vertex + g[i - 1].vertex_count
}

/// From entries in batch order: `batched` are the IDs of the longest prefix
/// whose vertices fit in `max`, and `groups` split that prefix's vertices.
pub open spec fn batch_plan(sorted: Seq<BatchEntry>, max: nat, groups: Seq<StaticBatchGroup>, batched: Seq<u32>) -> bool {
    let k = batched.len() as int;
    &&& k <= sorted.len()
    &&& forall|i: int| 0 <= i < k ==> #[trigger] batched[i] == sorted[i].2
    &&& vertex_total(sorted.take(k)) <= max
    &&& k < sorted.len() ==> vertex_total(sorted.take(k + 1)) > max
    &&& groups_tile(sorted.take(k), groups)
}

/// Batch order is by material first, then by texture; groups follow the
/// same order, strictly.
pub proof fn lemma_batch_order(a: BatchEntry, b: BatchEntry, g: StaticBatchGroup, h: StaticBatchGroup)
    ensures
        key_le(a, b) == (a.0 < b.0 || (a.0 == b.0 && a.1 <= b.1)),
        group_before(g, h) == (g.material_id < h.material_id || (g.material_id == h.material_id && g.texture_id
            < h.texture_id)),
{
}

proof fn lemma_totals_push(s: Seq<BatchEntry>, e: BatchEntry)
    ensures
        vertex_total(s.push(e)) == vertex_total(s) + e.3,
        forall|m: u32, t: u32| #[trigger] key_total(s.push(e), m, t) == key_total(s, m, t) + if e.0 == m && e.1 == t {
            e.3 as nat
        } else {
            0nat
        },
{
    assert(s.push(e).drop_last() =~= s);
}

proof fn lemma_key_total_zero(s: Seq<BatchEntry>, m: u32, t: u32)
    requires
        forall|i: int| 0 <= i < s.len() && (#[trigger] s[i]).0 == m && s[i].1 == t ==> s[i].3 == 0,
    ensures
        key_total(s, m, t) == 0,
    decreases s.len(),
{
    if s.len() > 0 {
        lemma_key_total_zero(s.drop_last(), m, t);
    }
}

proof fn lemma_key_total_le(s: Seq<BatchEntry>, m: u32, t: u32)
    ensures
        key_total(s, m, t) <= vertex_total(s),
    decreases s.len(),
{
    if s.len() > 0 {
        lemma_key_total_le(s.drop_last(), m, t);
    }
}

fn entry_key_le(a: &BatchEntry, b: &BatchEntry) -> (r: bool)
    ensures
        r == key_le(*a, *b),
{
    a.0 < b.0 || (a.0 == b.0 && a.1 <= b.1)
}

/// The entries, reordered into (material, texture) order.
pub(crate) fn sort_entries(entries: &Vec<BatchEntry>) -> (r: Vec<BatchEntry>)
    ensures
        r@.to_multiset() == entries@.to_multiset(),
        sorted_by_key(r@),
{
    let mut sorted: Vec<BatchEntry> = Vec::new();
    let mut i: usize = 0;
    proof {
        assert(entries@.take(0) =~= Seq::<BatchEntry>::empty());
        assert(sorted@ =~= Seq::<BatchEntry>::empty());
    }
    while i < entries.len()
        invariant
            i <= entries@.len(),
            sorted@.to_multiset() == entries@.take(i as int).to_multiset(),
            sorted_by_key(sorted@),
        decreases entries@.len() - i,
    {
        let e = entries[i];
        let mut q: usize = 0;
        while q < sorted.len() && entry_key_le(&sorted[q], &e)
            invariant
                q <= sorted@.len(),
                forall|t: int| 0 <= t < q ==> key_le(#[trigger] sorted@[t], e),
            decreases sorted@.len() - q,
        {
            q = q + 1;
        }
        let ghost before = sorted@;
        sorted.insert(q, e);
        proof {
            vstd::seq_lib::to_multiset_insert(before, q as int, e);
            vstd::seq_lib::to_multiset_build(entries@.take(i as int), e);
            assert(entries@.take(i + 1) =~= entries@.take(i as int).push(e));
            assert forall|a: int, b: int| 0 <= a < b < sorted@.len() implies key_le(
                #[trigger] sorted@[a],
                #[trigger] sorted@[b],
            ) by {
                if q < before.len() {
                    assert(!key_le(before[q as int], e));
                }
                if b < q {
                    assert(sorted@[a] == before[a] && sorted@[b] == before[b]);
                } else if b == q {
                    assert(sorted@[a] == before[a]);
                } else if a < q {
                    assert(sorted@[a] == before[a] && sorted@[b] == before[b - 1]);
                } else if a == q {
                    assert(sorted@[b] == before[b - 1]);
                    if b - 1 > q {
                        assert(key_le(before[q as int], before[b - 1]));
                    }
                } else {
                    assert(sorted@[a] == before[a - 1] && sorted@[b] == before[b - 1]);
                }
            }
        }
        i = i + 1;
    }
    proof {
        assert(entries@.take(entries@.len() as int) =~= entries@);
    }
    sorted
}

/// Every entry with vertices has a key no later than the last group's.
pub open spec fn positives_covered(s: Seq<BatchEntry>, g: Seq<StaticBatchGroup>) -> bool {
    forall|t: int| 0 <= t < s.len() && (#[trigger] s[t]).3 > 0 ==> g.len() > 0 && (s[t].0 < g.last().material_id || (
    s[t].0 == g.last().material_id && s[t].1 <= g.last().texture_id))
}

/// Extend the groups of `s` by entry `e`, whose key is no earlier than the
/// last group's.
#[verifier::spinoff_prover]
#[verifier::rlimit(60)]
fn group_step(groups: &mut Vec<StaticBatchGroup>, e: BatchEntry, run_total: usize, Ghost(s): Ghost<Seq<BatchEntry>>)
    requires
        groups_tile(s, old(groups)@),
        positives_covered(s, old(groups)@),
        run_total == vertex_total(s),
        vertex_total(s) + e.3 <= u32::MAX,
        old(groups)@.len() > 0 ==> (old(groups)@.last().material_id < e.0 || (old(groups)@.last().material_id == e.0
            && old(groups)@.last().texture_id <= e.1)),
    ensures
        groups_tile(s.push(e), final(groups)@),
        positives_covered(s.push(e), final(groups)@),
        final(groups)@ == old(groups)@ || (final(groups)@.len() > 0 && final(groups)@.last().material_id == e.0
            && final(groups)@.last().texture_id == e.1),
{
    let ghost g0 = groups@;
    proof {
        lemma_totals_push(s, e);
    }
    if e.3 > 0 {
        let n = groups.len();
        if n > 0 && groups[n - 1].material_id == e.0 && groups[n - 1].texture_id == e.1 {
            let last = groups[n - 1];
            proof {
                lemma_key_total_le(s.push(e), e.0, e.1);
                assert(last.vertex_count == key_total(s, e.0, e.1));
            }
            let grown = StaticBatchGroup { vertex_count: last.vertex_count + (e.3 as u32), ..last };
            groups.set(n - 1, grown);
            proof {
                assert forall|j: int| 0 <= j < groups@.len() implies {
                    &&& #[trigger] groups@[j].vertex_count > 0
                    &&& groups@[j].vertex_count == key_total(s.push(e), groups@[j].material_id, groups@[j].texture_id)
                } by {
                    if j < n - 1 {
                        assert(group_before(g0[j], g0[n - 1]));
                    }
                }
                assert forall|a: int, b: int| 0 <= a < b < groups@.len() implies group_before(
                    #[trigger] groups@[a],
                    #[trigger] groups@[b],
                ) by {
                    assert(group_before(g0[a], g0[b]));
                }
                assert forall|j: int| 0 < j < groups@.len() implies #[trigger] groups@[j].start_vertex
                    == groups@[j - 1].start_vertex + groups@[j - 1].vertex_count by {
                    assert(g0[j].start_vertex == g0[j - 1].start_vertex + g0[j - 1].vertex_count);
                }
                assert forall|t: int| 0 <= t < s.push(e).len() && (#[trigger] s.push(e)[t]).3 > 0 implies groups@.len() > 0
                    && (s.push(e)[t].0 < groups@.last().material_id || (s.push(e)[t].0 == groups@.last().material_id
                    && s.push(e)[t].1 <= groups@.last().texture_id)) by {
                    if t < s.len() {
                        assert(s.push(e)[t] == s[t]);
                    }
                }
            }
        } else {
            proof {
                assert forall|t: int| 0 <= t < s.len() && (#[trigger] s[t]).0 == e.0 && s[t].1 == e.1 implies s[t].3
                    == 0 by {}
                lemma_key_total_zero(s, e.0, e.1);
            }
            groups.push(StaticBatchGroup {
                material_id: e.0,
                texture_id: e.1,
                start_vertex: run_total as u32,
                vertex_count: e.3 as u32,
            });
            proof {
                assert forall|j: int| 0 <= j < groups@.len() implies {
                    &&& #[trigger] groups@[j].vertex_count > 0
                    &&& groups@[j].vertex_count == key_total(s.push(e), groups@[j].material_id, groups@[j].texture_id)
                } by {
                    if j < n {
                        assert(groups@[j] == g0[j]);
                        if j < n - 1 {
                            assert(group_before(g0[j], g0[n - 1]));
                        }
                    }
                }
                assert forall|a: int, b: int| 0 <= a < b < groups@.len() implies group_before(
                    #[trigger] groups@[a],
                    #[trigger] groups@[b],
                ) by {
                    if b < n {
                        assert(group_before(g0[a], g0[b]));
                    } else if a < n - 1 {
                        assert(group_before(g0[a], g0[n - 1]));
                    }
                }
                assert forall|j: int| 0 < j < groups@.len() implies #[trigger] groups@[j].start_vertex
                    == groups@[j - 1].start_vertex + groups@[j - 1].vertex_count by {
                    if j < n {
                        assert(g0[j].start_vertex == g0[j - 1].start_vertex + g0[j - 1].vertex_count);
                    }
                }
                assert forall|t: int| 0 <= t < s.push(e).len() && (#[trigger] s.push(e)[t]).3 > 0 implies groups@.len() > 0
                    && (s.push(e)[t].0 < groups@.last().material_id || (s.push(e)[t].0 == groups@.last().material_id
                    && s.push(e)[t].1 <= groups@.last().texture_id)) by {
                    if t < s.len() {
                        assert(s.push(e)[t] == s[t]);
                    }
                }
            }
        }
    } else {
        proof {
            assert forall|j: int| 0 <= j < groups@.len() implies {
                &&& #[trigger] groups@[j].vertex_count > 0
                &&& groups@[j].vertex_count == key_total(s.push(e), groups@[j].material_id, groups@[j].texture_id)
            } by {}
            assert forall|t: int| 0 <= t < s.push(e).len() && (#[trigger] s.push(e)[t]).3 > 0 implies groups@.len() > 0
                && (s.push(e)[t].0 < groups@.last().material_id || (s.push(e)[t].0 == groups@.last().material_id
                && s.push(e)[t].1 <= groups@.last().texture_id)) by {
                if t < s.len() {
                    assert(s.push(e)[t] == s[t]);
                }
            }
        }
    }
}

/// Plan the static batch: order the static objects by (material, texture),
/// batch the longest prefix of that order whose vertices fit in
/// `max_vertices`, and split the batched vertices into one group per
/// (material, texture). Returns the groups and the batched object IDs.
pub fn static_batch_plan(entries: &Vec<BatchEntry>, max_vertices: usize) -> (r: (Vec<StaticBatchGroup>, Vec<u32>))
    requires
        max_vertices <= u32::MAX,
    ensures
        exists|sorted: Seq<BatchEntry>| {
            &&& sorted.to_multiset() == entries@.to_multiset()
            &&& sorted_by_key(sorted)
            &&& #[trigger] batch_plan(sorted, max_vertices as nat, r.0@, r.1@)
        },
{
    let sorted = sort_entries(entries);
    // The longest prefix that fits.
    let mut k: usize = 0;
    let mut total: usize = 0;
    proof {
        assert(sorted@.take(0) =~= Seq::<BatchEntry>::empty());
    }
    while k < sorted.len() && sorted[k].3 <= max_vertices - total
        invariant
            k <= sorted@.len(),
            total == vertex_total(sorted@.take(k as int)),
            total <= max_vertices,
        decreases sorted@.len() - k,
    {
        proof {
            assert(sorted@.take(k + 1) =~= sorted@.take(k as int).push(sorted@[k as int]));
            lemma_totals_push(sorted@.take(k as int), sorted@[k as int]);
        }
        total = total + sorted[k].3;
        k = k + 1;
    }
    proof {
        if k < sorted@.len() {
            assert(sorted@.take(k + 1) =~= sorted@.take(k as int).push(sorted@[k as int]));
            lemma_totals_push(sorted@.take(k as int), sorted@[k as int]);
        }
    }
    // Groups over that prefix.
    let mut groups: Vec<StaticBatchGroup> = Vec::new();
    let mut batched: Vec<u32> = Vec::new();
    let mut run_total: usize = 0;
    let mut i: usize = 0;
    let ghost mut last_t: int = 0;
    proof {
        assert(sorted@.take(0) =~= Seq::<BatchEntry>::empty());
    }
    while i < k
        invariant
            k <= sorted@.len(),
            i <= k,
            sorted_by_key(sorted@),
            vertex_total(sorted@.take(k as int)) <= max_vertices,
            max_vertices <= u32::MAX,
            run_total == vertex_total(sorted@.take(i as int)),
            batched@.len() == i,
            forall|t: int| 0 <= t < i ==> #[trigger] batched@[t] == sorted@[t].2,
            groups_tile(sorted@.take(i as int), groups@),
            positives_covered(sorted@.take(i as int), groups@),
            groups@.len() > 0 ==> 0 <= last_t < i && sorted@[last_t].0 == groups@.last().material_id
                && sorted@[last_t].1 == groups@.last().texture_id,
        decreases k - i,
    {
        let e = sorted[i];
        let ghost s = sorted@.take(i as int);
        proof {
            assert(sorted@.take(i + 1) =~= s.push(e));
            lemma_totals_push(s, e);
            // Taking more entries can only add vertices.
            assert(sorted@.take(k as int).take(i + 1) =~= sorted@.take(i + 1));
            lemma_total_prefix(sorted@.take(k as int), i + 1);
            if groups@.len() > 0 {
                assert(key_le(sorted@[last_t], e));
            }
        }
        let ghost g0 = groups@;
        group_step(&mut groups, e, run_total, Ghost(s));
        proof {
            if groups@ != g0 {
                last_t = i as int;
            }
        }
        run_total = run_total + e.3;
        batched.push(e.2);
        i = i + 1;
    }
    proof {
        assert(sorted@.take(i as int) =~= sorted@.take(k as int));
        assert(batch_plan(sorted@, max_vertices as nat, groups@, batched@));
    }
    let r = (groups, batched);
    proof {
        assert(batch_plan(sorted@, max_vertices as nat, r.0@, r.1@));
    }
    r
}

/// Vertices of a prefix are no more than those of the whole.
proof fn lemma_total_prefix(s: Seq<BatchEntry>, n: int)
    requires
        0 <= n <= s.len(),
    ensures
        vertex_total(s.take(n)) <= vertex_total(s),
    decreases s.len() - n,
{
    if n < s.len() {
        lemma_total_prefix(s, n + 1);
        assert(s.take(n + 1) =~= s.take(n).push(s[n]));
        lemma_totals_push(s.take(n), s[n]);
    } else {
        assert(s.take(n) =~= s);
    }
}

} // verus!
