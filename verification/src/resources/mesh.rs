//! Topology of the icosphere mesh.
//!
//! The icosphere starts as an icosahedron (12 vertices, 20 triangles). Each
//! level of refinement splits every triangle into 4 triangles by adding the
//! middle point of each of its edges; a middle point shared by two triangles
//! is added only once. Vertex positions are computed by the caller: for each
//! new vertex this module reports the pair of vertices it lies between.

use std::collections::HashMap;
use vstd::prelude::*;

verus! {

broadcast use vstd::std_specs::hash::group_hash_axioms;

/// Number of vertices of the icosahedron the sphere starts from.
pub const ICOSAHEDRON_VERTICES: u16 = 12;

/// Vertex indices stay below this bound so that they fit a `u16` index buffer.
pub const INDEX_LIMIT: u16 = 65535;

/// The 20 triangles of the icosahedron, three vertex indices each.
pub open spec fn icosahedron() -> Seq<int> {
    seq![
        0, 11, 5, 0, 5, 1, 0, 1, 7, 0, 7, 10, 0, 10, 11,
        1, 5, 9, 5, 11, 4, 11, 10, 2, 10, 7, 6, 7, 1, 8,
        3, 9, 4, 3, 4, 2, 3, 2, 6, 3, 6, 8, 3, 8, 9,
        4, 9, 5, 2, 4, 11, 6, 2, 10, 8, 6, 7, 9, 8, 1,
    ]
}

/// An undirected edge, smaller vertex first.
pub open spec fn edge(a: int, b: int) -> (int, int) {
    if a <= b {
        (a, b)
    } else {
        (b, a)
    }
}

/// The edges of the triangles in the order they are split: for each triangle
/// `(v1, v2, v3)` the edges `v1-v2`, `v2-v3` and `v3-v1`.
pub open spec fn triangle_edges(ind: Seq<int>) -> Seq<(int, int)> {
    Seq::new(
        (ind.len() / 3 * 3) as nat,
        |k: int| edge(ind[k / 3 * 3 + k % 3], ind[k / 3 * 3 + (k % 3 + 1) % 3]),
    )
}

/// `acc` followed by the elements of `es` that are not yet present, each
/// once, in the order of their first appearance.
pub open spec fn append_unseen(acc: Seq<(int, int)>, es: Seq<(int, int)>) -> Seq<(int, int)>
    decreases es.len(),
{
    if es.len() == 0 {
        acc
    } else {
        let r = append_unseen(acc, es.drop_last());
        if r.contains(es.last()) {
            r
        } else {
            r.push(es.last())
        }
    }
}

/// Index of the vertex that lies in the middle of edge `a-b`, given the list
/// of middle points (new vertices are numbered after the icosahedron's).
pub open spec fn middle(parents: Seq<(int, int)>, a: int, b: int) -> int {
    ICOSAHEDRON_VERTICES + parents.index_of(edge(a, b))
}

/// Index `j` (0..12) of the four triangles that replace triangle `t`:
/// `v1 a c`, `v2 b a`, `v3 c b`, `a b c`, with `a`, `b`, `c` the middle
/// points of `v1-v2`, `v2-v3`, `v3-v1`.
pub open spec fn subdivided(ind: Seq<int>, parents: Seq<(int, int)>, t: int, j: int) -> int {
    let v1 = ind[3 * t];
    let v2 = ind[3 * t + 1];
    let v3 = ind[3 * t + 2];
    let a = middle(parents, v1, v2);
    let b = middle(parents, v2, v3);
    let c = middle(parents, v3, v1);
    seq![v1, a, c, v2, b, a, v3, c, b, a, b, c][j]
}

/// One level of refinement of the triangles `ind` whose middle points so far
/// are `parents`: the new triangles and the extended list of middle points.
pub open spec fn refine_once(ind: Seq<int>, parents: Seq<(int, int)>) -> (
    Seq<int>,
    Seq<(int, int)>,
) {
    let np = append_unseen(parents, triangle_edges(ind));
    (Seq::new((ind.len() / 3 * 12) as nat, |k: int| subdivided(ind, np, k / 12, k % 12)), np)
}

/// The triangles and middle points after `levels` levels of refinement.
pub open spec fn refined(levels: nat) -> (Seq<int>, Seq<(int, int)>)
    decreases levels,
{
    if levels == 0 {
        (icosahedron(), Seq::empty())
    } else {
        let prev = refined((levels - 1) as nat);
        refine_once(prev.0, prev.1)
    }
}

/// Indices as mathematical integers.
pub open spec fn ints(v: Seq<u16>) -> Seq<int> {
    v.map_values(|x: u16| x as int)
}

/// Vertex pairs as mathematical integers.
pub open spec fn int_pairs(v: Seq<(u16, u16)>) -> Seq<(int, int)> {
    v.map_values(|p: (u16, u16)| (p.0 as int, p.1 as int))
}

/// The key under which an edge is cached.
pub open spec fn edge_key(e: (int, int)) -> int {
    e.0 * 65536 + e.1
}

/// The cache maps the key of each middle point's edge to its vertex index.
spec fn cache_ok(cache: Map<u32, u16>, parents: Seq<(int, int)>) -> bool {
    &&& parents.no_duplicates()
    &&& ICOSAHEDRON_VERTICES + parents.len() <= INDEX_LIMIT
    &&& forall|i: int|
        #![trigger parents[i]]
        0 <= i < parents.len() ==> {
            &&& 0 <= parents[i].0 <= parents[i].1 < 65536
            &&& cache.contains_key(edge_key(parents[i]) as u32)
            &&& cache[edge_key(parents[i]) as u32] == ICOSAHEDRON_VERTICES + i
        }
    &&& forall|k: u32|
        #[trigger] cache.contains_key(k) ==> exists|i: int|
            0 <= i < parents.len() && edge_key(parents[i]) == k
}

proof fn lemma_append_unseen(acc: Seq<(int, int)>, es: Seq<(int, int)>)
    requires
        acc.no_duplicates(),
    ensures
        append_unseen(acc, es).no_duplicates(),
        acc.len() <= append_unseen(acc, es).len(),
        append_unseen(acc, es).take(acc.len() as int) == acc,
        forall|x: (int, int)|
            #[trigger] append_unseen(acc, es).contains(x) <==> (acc.contains(x) || es.contains(x)),
    decreases es.len(),
{
    if es.len() > 0 {
        let init = es.drop_last();
        lemma_append_unseen(acc, init);
        let r = append_unseen(acc, init);
        assert forall|x: (int, int)| #[trigger]
            append_unseen(acc, es).contains(x) <==> (acc.contains(x) || es.contains(x)) by {
            if es.contains(x) && !init.contains(x) {
                let i = choose|i: int| 0 <= i < es.len() && es[i] == x;
                if i < es.len() - 1 {
                    assert(init[i] == es[i]);
                }
                assert(i == es.len() - 1);
            }
            if init.contains(x) {
                let i = choose|i: int| 0 <= i < init.len() && init[i] == x;
                assert(es[i] == x);
            }
            if !r.contains(es.last()) {
                if r.push(es.last()).contains(x) && x != es.last() {
                    let i = choose|i: int| 0 <= i < r.push(es.last()).len() && r.push(es.last())[i] == x;
                    assert(r[i] == x);
                }
                if r.contains(x) {
                    let i = choose|i: int| 0 <= i < r.len() && r[i] == x;
                    assert(r.push(es.last())[i] == x);
                }
                assert(r.push(es.last())[r.len() as int] == es.last());
            }
        }
        if !r.contains(es.last()) {
            assert(r.push(es.last()).take(acc.len() as int) =~= r.take(acc.len() as int));
        }
    } else {
        assert(acc.take(acc.len() as int) =~= acc);
    }
}

/// Extending `es` only extends `append_unseen(acc, es)`.
proof fn lemma_append_unseen_prefix(acc: Seq<(int, int)>, es: Seq<(int, int)>, k: int)
    requires
        0 <= k <= es.len(),
    ensures
        append_unseen(acc, es.take(k)).len() <= append_unseen(acc, es).len(),
        append_unseen(acc, es).take(append_unseen(acc, es.take(k)).len() as int) == append_unseen(
            acc,
            es.take(k),
        ),
    decreases es.len() - k,
{
    if k == es.len() {
        assert(es.take(k) =~= es);
        assert(append_unseen(acc, es).take(append_unseen(acc, es).len() as int) =~= append_unseen(
            acc,
            es,
        ));
    } else {
        lemma_append_unseen_prefix(acc, es, k + 1);
        assert(es.take(k + 1).drop_last() =~= es.take(k));
        let a = append_unseen(acc, es.take(k));
        let b = append_unseen(acc, es.take(k + 1));
        let f = append_unseen(acc, es);
        assert(f.take(a.len() as int) =~= b.take(a.len() as int));
        if !a.contains(es[k]) {
            assert(b.take(a.len() as int) =~= a);
        }
    }
}

/// In a list without duplicates, the index of an element is its position.
proof fn lemma_index_of_unique(s: Seq<(int, int)>, i: int)
    requires
        s.no_duplicates(),
        0 <= i < s.len(),
    ensures
        s.index_of(s[i]) == i,
        s.contains(s[i]),
{
    assert(s.contains(s[i]));
    let j = s.index_of(s[i]);
    assert(0 <= j < s.len() && s[j] == s[i]);
}

/// An element of a prefix has the same index in the whole list.
proof fn lemma_index_of_prefix(s: Seq<(int, int)>, n: int, x: (int, int))
    requires
        s.no_duplicates(),
        0 <= n <= s.len(),
        s.take(n).contains(x),
    ensures
        s.index_of(x) == s.take(n).index_of(x),
        0 <= s.index_of(x) < n,
{
    let p = s.take(n);
    let i = p.index_of(x);
    assert(0 <= i < n && p[i] == x);
    assert(s[i] == x);
    lemma_index_of_unique(s, i);
}

/// Middle point of edge `p1-p2`: looked up in the cache, or appended to
/// `parents` with the next free vertex index. `None` when the new vertex
/// index would not stay below `INDEX_LIMIT`.
fn middle_point(
    p1: u16,
    p2: u16,
    parents: &mut Vec<(u16, u16)>,
    cache: &mut HashMap<u32, u16>,
) -> (r: Option<u16>)
    requires
        cache_ok(old(cache)@, int_pairs(old(parents)@)),
    ensures
        match r {
            Some(x) => {
                &&& int_pairs(final(parents)@) == (if int_pairs(old(parents)@).contains(
                    edge(p1 as int, p2 as int),
                ) {
                    int_pairs(old(parents)@)
                } else {
                    int_pairs(old(parents)@).push(edge(p1 as int, p2 as int))
                })
                &&& cache_ok(final(cache)@, int_pairs(final(parents)@))
                &&& int_pairs(final(parents)@).contains(edge(p1 as int, p2 as int))
                &&& x == middle(int_pairs(final(parents)@), p1 as int, p2 as int)
            },
            None => {
                &&& !int_pairs(old(parents)@).contains(edge(p1 as int, p2 as int))
                &&& ICOSAHEDRON_VERTICES + int_pairs(old(parents)@).len() >= INDEX_LIMIT
            },
        },
{
    let ghost ps = int_pairs(parents@);
    let ghost e = edge(p1 as int, p2 as int);
    let small = if p1 <= p2 {
        p1
    } else {
        p2
    };
    let big = if p1 <= p2 {
        p2
    } else {
        p1
    };
    let s32 = small as u32;
    let shifted: u32 = s32 << 16u32;
    proof {
        assert((s32 << 16u32) == s32 * 65536) by (bit_vector)
            requires
                s32 < 65536,
        ;
    }
    let key: u32 = shifted + big as u32;
    assert(key == edge_key(e));
    match cache.get(&key) {
        Some(index) => {
            let index = *index;
            proof {
                assert(cache@.contains_key(key));
                let i = choose|i: int| 0 <= i < ps.len() && edge_key(ps[i]) == key;
                assert(0 <= ps[i].0 <= ps[i].1 < 65536);
                assert(ps[i] == e);
                lemma_index_of_unique(ps, i);
            }
            Some(index)
        },
        None => {
            proof {
                if ps.contains(e) {
                    let i = choose|i: int| 0 <= i < ps.len() && ps[i] == e;
                    assert(cache@.contains_key(edge_key(ps[i]) as u32));
                }
            }
            let index = ICOSAHEDRON_VERTICES as usize + parents.len();
            if index >= INDEX_LIMIT as usize {
                return None;
            }
            parents.push((small, big));
            cache.insert(key, index as u16);
            proof {
                let np = int_pairs(parents@);
                assert(np =~= ps.push(e));
                assert forall|a: int, b: int|
                    0 <= a < np.len() && 0 <= b < np.len() && a != b implies np[a] != np[b] by {
                    if a < ps.len() && b < ps.len() {
                        assert(np[a] == ps[a] && np[b] == ps[b]);
                    } else if a < ps.len() {
                        assert(np[a] == ps[a]);
                    } else {
                        assert(np[b] == ps[b]);
                    }
                }
                assert forall|i: int|
                    #![trigger np[i]]
                    0 <= i < np.len() implies {
                    &&& 0 <= np[i].0 <= np[i].1 < 65536
                    &&& cache@.contains_key(edge_key(np[i]) as u32)
                    &&& cache@[edge_key(np[i]) as u32] == ICOSAHEDRON_VERTICES + i
                } by {
                    if i < ps.len() {
                        assert(np[i] == ps[i]);
                        assert(edge_key(ps[i]) != edge_key(e));
                    }
                }
                assert forall|k: u32| #[trigger] cache@.contains_key(k) implies exists|i: int|
                    0 <= i < np.len() && edge_key(np[i]) == k by {
                    if k != key {
                        let i = choose|i: int| 0 <= i < ps.len() && edge_key(ps[i]) == k;
                        assert(np[i] == ps[i]);
                    } else {
                        assert(np[ps.len() as int] == e);
                    }
                }
                lemma_index_of_unique(np, ps.len() as int);
            }
            Some(index as u16)
        },
    }
}

/// A middle point already known keeps its index when the list grows.
proof fn lemma_middle_stable(old: Seq<(int, int)>, new: Seq<(int, int)>, a: int, b: int)
    requires
        new.no_duplicates(),
        old.len() <= new.len(),
        new.take(old.len() as int) == old,
        old.contains(edge(a, b)),
    ensures
        middle(new, a, b) == middle(old, a, b),
        0 <= old.index_of(edge(a, b)) < old.len(),
{
    lemma_index_of_prefix(new, old.len() as int, edge(a, b));
}

/// The split of the triangles before triangle `t` does not change when the
/// middle points of triangle `t` are added.
proof fn lemma_subdivided_stable(
    ind: Seq<int>,
    es: Seq<(int, int)>,
    p0: Seq<(int, int)>,
    s0: Seq<(int, int)>,
    s3: Seq<(int, int)>,
    t: int,
)
    requires
        es == triangle_edges(ind),
        p0.no_duplicates(),
        0 <= t,
        3 * t <= es.len(),
        s0 == append_unseen(p0, es.take(3 * t)),
        s3.no_duplicates(),
        s0.len() <= s3.len(),
        s3.take(s0.len() as int) == s0,
    ensures
        forall|k: int|
            0 <= k < 12 * t ==> #[trigger] subdivided(ind, s0, k / 12, k % 12) == subdivided(
                ind,
                s3,
                k / 12,
                k % 12,
            ),
{
    lemma_append_unseen(p0, es.take(3 * t));
    assert forall|k: int| 0 <= k < 12 * t implies #[trigger] subdivided(ind, s0, k / 12, k % 12)
        == subdivided(ind, s3, k / 12, k % 12) by {
        let s = k / 12;
        assert(0 <= s < t);
        let w1 = ind[3 * s];
        let w2 = ind[3 * s + 1];
        let w3 = ind[3 * s + 2];
        let pre = es.take(3 * t);
        assert(pre[3 * s] == es[3 * s]);
        assert(pre[3 * s + 1] == es[3 * s + 1]);
        assert(pre[3 * s + 2] == es[3 * s + 2]);
        assert(es[3 * s] == edge(w1, w2));
        assert(es[3 * s + 1] == edge(w2, w3));
        assert(es[3 * s + 2] == edge(w3, w1));
        assert(pre.contains(edge(w1, w2)));
        assert(pre.contains(edge(w2, w3)));
        assert(pre.contains(edge(w3, w1)));
        lemma_middle_stable(s0, s3, w1, w2);
        lemma_middle_stable(s0, s3, w2, w3);
        lemma_middle_stable(s0, s3, w3, w1);
    }
}

/// Splits edge `k` of the refinement: `es[k]` is `p1-p2` and the middle
/// points of the edges before it are in `parents`.
fn split_edge(
    p1: u16,
    p2: u16,
    parents: &mut Vec<(u16, u16)>,
    cache: &mut HashMap<u32, u16>,
    Ghost(p0): Ghost<Seq<(int, int)>>,
    Ghost(es): Ghost<Seq<(int, int)>>,
    Ghost(k): Ghost<int>,
) -> (r: Option<u16>)
    requires
        p0.no_duplicates(),
        0 <= k < es.len(),
        es[k] == edge(p1 as int, p2 as int),
        int_pairs(old(parents)@) == append_unseen(p0, es.take(k)),
        cache_ok(old(cache)@, int_pairs(old(parents)@)),
    ensures
        match r {
            Some(x) => {
                &&& int_pairs(final(parents)@) == append_unseen(p0, es.take(k + 1))
                &&& cache_ok(final(cache)@, int_pairs(final(parents)@))
                &&& int_pairs(final(parents)@).contains(edge(p1 as int, p2 as int))
                &&& x == middle(int_pairs(final(parents)@), p1 as int, p2 as int)
                &&& int_pairs(old(parents)@).len() <= int_pairs(final(parents)@).len()
                &&& int_pairs(final(parents)@).take(int_pairs(old(parents)@).len() as int)
                    == int_pairs(old(parents)@)
            },
            None => ICOSAHEDRON_VERTICES + append_unseen(p0, es).len() > INDEX_LIMIT,
        },
{
    let ghost before = int_pairs(parents@);
    proof {
        assert(es.take(k + 1).drop_last() =~= es.take(k));
        assert(es.take(k + 1).last() == es[k]);
        lemma_append_unseen_prefix(p0, es, k + 1);
    }
    let r = middle_point(p1, p2, parents, cache);
    proof {
        if r is Some {
            let after = int_pairs(parents@);
            if !before.contains(es[k]) {
                assert(after.take(before.len() as int) =~= before);
            } else {
                assert(after.take(before.len() as int) =~= before);
            }
        }
    }
    r
}

/// One level of refinement: every triangle of `indices` is replaced by four.
/// `None` when a new vertex index would reach `INDEX_LIMIT`.
#[verifier::rlimit(80)]
fn refine_level(
    indices: &Vec<u16>,
    parents: &mut Vec<(u16, u16)>,
    cache: &mut HashMap<u32, u16>,
) -> (r: Option<Vec<u16>>)
    requires
        indices@.len() % 3 == 0,
        cache_ok(old(cache)@, int_pairs(old(parents)@)),
    ensures
        match r {
            Some(out) => {
                &&& (ints(out@), int_pairs(final(parents)@)) == refine_once(
                    ints(indices@),
                    int_pairs(old(parents)@),
                )
                &&& cache_ok(final(cache)@, int_pairs(final(parents)@))
            },
            None => ICOSAHEDRON_VERTICES + append_unseen(
                int_pairs(old(parents)@),
                triangle_edges(ints(indices@)),
            ).len() > INDEX_LIMIT,
        },
{
    let ghost ind = ints(indices@);
    let ghost p0 = int_pairs(parents@);
    let ghost es = triangle_edges(ind);
    let mut out: Vec<u16> = Vec::new();
    let len = indices.len();
    let n = len / 3;
    let mut t: usize = 0;
    proof {
        assert(es.take(0) =~= Seq::<(int, int)>::empty());
    }
    while t < n
        invariant
            ind == ints(indices@),
            es == triangle_edges(ind),
            p0 == int_pairs(old(parents)@),
            p0.no_duplicates(),
            len == indices@.len(),
            n == indices@.len() / 3,
            indices@.len() % 3 == 0,
            t <= n,
            int_pairs(parents@) == append_unseen(p0, es.take(3 * t)),
            cache_ok(cache@, int_pairs(parents@)),
            out@.len() == 12 * t,
            forall|k: int|
                0 <= k < 12 * t ==> #[trigger] out@[k] as int == subdivided(
                    ind,
                    int_pairs(parents@),
                    k / 12,
                    k % 12,
                ),
        decreases n - t,
    {
        assert(3 * n <= indices@.len()) by (nonlinear_arith)
            requires
                n == indices@.len() / 3,
        ;
        assert(3 * t + 2 < indices@.len());
        let base: usize = 3 * t;
        let v1 = indices[base];
        let v2 = indices[base + 1];
        let v3 = indices[base + 2];
        let ghost tt = t as int;
        proof {
            assert(es.len() == 3 * n);
            assert(es[3 * tt] == edge(v1 as int, v2 as int));
            assert(es[3 * tt + 1] == edge(v2 as int, v3 as int));
            assert(es[3 * tt + 2] == edge(v3 as int, v1 as int));
        }
        let ghost s0 = int_pairs(parents@);
        let a = match split_edge(v1, v2, parents, cache, Ghost(p0), Ghost(es), Ghost(3 * tt)) {
            Some(x) => x,
            None => {
                return None;
            },
        };
        let ghost s1 = int_pairs(parents@);
        let b = match split_edge(v2, v3, parents, cache, Ghost(p0), Ghost(es), Ghost(3 * tt + 1)) {
            Some(x) => x,
            None => {
                return None;
            },
        };
        let ghost s2 = int_pairs(parents@);
        let c = match split_edge(v3, v1, parents, cache, Ghost(p0), Ghost(es), Ghost(3 * tt + 2)) {
            Some(x) => x,
            None => {
                return None;
            },
        };
        let ghost s3 = int_pairs(parents@);
        let ghost old_out = out@;
        out.push(v1);
        out.push(a);
        out.push(c);
        out.push(v2);
        out.push(b);
        out.push(a);
        out.push(v3);
        out.push(c);
        out.push(b);
        out.push(a);
        out.push(b);
        out.push(c);
        proof {
            lemma_append_unseen(p0, es.take(3 * tt + 3));
            assert(s3.take(s1.len() as int) =~= s1) by {
                assert(s3.take(s2.len() as int) == s2);
                assert(s2.take(s1.len() as int) == s1);
            }
            lemma_middle_stable(s1, s3, v1 as int, v2 as int);
            lemma_middle_stable(s2, s3, v2 as int, v3 as int);
            assert(s3.take(s0.len() as int) =~= s0) by {
                assert(s1.take(s0.len() as int) == s0);
            }
            lemma_subdivided_stable(ind, es, p0, s0, s3, tt);
            assert forall|k: int| 0 <= k < 12 * (t + 1) implies #[trigger] out@[k] as int
                == subdivided(ind, s3, k / 12, k % 12) by {
                if k < 12 * tt {
                    assert(out@[k] == old_out[k]);
                    assert(old_out[k] as int == subdivided(ind, s0, k / 12, k % 12));
                } else {
                    assert(k / 12 == tt);
                }
            }
        }
        t = t + 1;
    }
    proof {
        assert(es.take(3 * n) =~= es);
        assert(ints(out@) =~= refine_once(ind, p0).0);
    }
    Some(out)
}

/// The list of middle points only grows with the levels, without duplicates,
/// and every level is made of whole triangles.
proof fn lemma_refined_grows(l: nat, m: nat)
    requires
        l <= m,
    ensures
        refined(m).1.no_duplicates(),
        refined(m).0.len() % 3 == 0,
        refined(l).1.len() <= refined(m).1.len(),
        refined(m).1.take(refined(l).1.len() as int) == refined(l).1,
    decreases m,
{
    if m == 0 {
        assert(refined(m).1.take(0) =~= refined(m).1);
    } else if l == m {
        lemma_refined_grows(0, (m - 1) as nat);
        let prev = refined((m - 1) as nat);
        lemma_append_unseen(prev.1, triangle_edges(prev.0));
        assert(refined(m).1.take(refined(m).1.len() as int) =~= refined(m).1);
        let q = prev.0.len() / 3;
        assert((q * 12) % 3 == 0) by (nonlinear_arith);
    } else {
        lemma_refined_grows(l, (m - 1) as nat);
        let prev = refined((m - 1) as nat);
        lemma_append_unseen(prev.1, triangle_edges(prev.0));
        let cur = refined(m).1;
        let a = refined(l).1;
        assert(cur.take(a.len() as int) =~= cur.take(prev.1.len() as int).take(a.len() as int));
        let q = prev.0.len() / 3;
        assert((q * 12) % 3 == 0) by (nonlinear_arith);
    }
}

/// The triangles of the icosahedron as a vector.
fn icosahedron_indices() -> (v: Vec<u16>)
    ensures
        ints(v@) == icosahedron(),
{
    let v: Vec<u16> = vec![
        0, 11, 5, 0, 5, 1, 0, 1, 7, 0, 7, 10, 0, 10, 11,
        1, 5, 9, 5, 11, 4, 11, 10, 2, 10, 7, 6, 7, 1, 8,
        3, 9, 4, 3, 4, 2, 3, 2, 6, 3, 6, 8, 3, 8, 9,
        4, 9, 5, 2, 4, 11, 6, 2, 10, 8, 6, 7, 9, 8, 1,
    ];
    assert(ints(v@) =~= icosahedron());
    v
}

/// The icosphere after `refine_levels` levels of refinement: its triangles
/// (three vertex indices each) and, for every vertex after the first 12 of
/// the icosahedron, the two vertices it lies between (in vertex order).
///
/// `None` when some vertex index would not stay below `INDEX_LIMIT`, the
/// largest index a `u16` index buffer can hold here.
pub fn icosphere_topology(refine_levels: u32) -> (r: Option<(Vec<u16>, Vec<(u16, u16)>)>)
    ensures
        r is None <==> ICOSAHEDRON_VERTICES + refined(refine_levels as nat).1.len() > INDEX_LIMIT,
        match r {
            Some((ind, par)) => ints(ind@) == refined(refine_levels as nat).0 && int_pairs(par@)
                == refined(refine_levels as nat).1,
            None => true,
        },
{
    let mut indices = icosahedron_indices();
    let mut parents: Vec<(u16, u16)> = Vec::new();
    let mut cache: HashMap<u32, u16> = HashMap::new();
    let mut level: u32 = 0;
    proof {
        assert(int_pairs(parents@) =~= Seq::<(int, int)>::empty());
        assert(cache@ =~= Map::<u32, u16>::empty());
    }
    while level < refine_levels
        invariant
            level <= refine_levels,
            ints(indices@) == refined(level as nat).0,
            int_pairs(parents@) == refined(level as nat).1,
            cache_ok(cache@, int_pairs(parents@)),
        decreases refine_levels - level,
    {
        proof {
            lemma_refined_grows(level as nat, level as nat);
        }
        match refine_level(&indices, &mut parents, &mut cache) {
            Some(next) => {
                indices = next;
            },
            None => {
                proof {
                    lemma_refined_grows((level + 1) as nat, refine_levels as nat);
                }
                return None;
            },
        }
        level = level + 1;
    }
    Some((indices, parents))
}

/// Every level has four times the triangles of the previous one: the
/// icosphere of `levels` levels has `20 * 4^levels` triangles.
pub proof fn lemma_icosphere_triangle_count(levels: nat)
    ensures
        refined(levels).0.len() == 60 * vstd::arithmetic::power::pow(4, levels),
    decreases levels,
{
    reveal_with_fuel(vstd::arithmetic::power::pow, 2);
    if levels > 0 {
        lemma_icosphere_triangle_count((levels - 1) as nat);
        let p = vstd::arithmetic::power::pow(4, (levels - 1) as nat);
        assert((60 * p) / 3 * 12 == 60 * (4 * p)) by (nonlinear_arith);
    }
}

/// Every triangle corner names an existing vertex, every new vertex lies
/// between two vertices numbered before it, and no edge gets two middle
/// points.
#[verifier::rlimit(40)]
pub proof fn lemma_icosphere_well_formed(levels: nat)
    ensures
        refined(levels).1.no_duplicates(),
        forall|k: int|
            0 <= k < refined(levels).0.len() ==> 0 <= #[trigger] refined(levels).0[k]
                < ICOSAHEDRON_VERTICES + refined(levels).1.len(),
        forall|i: int|
            0 <= i < refined(levels).1.len() ==> 0 <= (#[trigger] refined(levels).1[i]).0
                <= refined(levels).1[i].1 < ICOSAHEDRON_VERTICES + i,
    decreases levels,
{
    if levels == 0 {
        let ico = icosahedron();
        assert forall|k: int| 0 <= k < ico.len() implies 0 <= #[trigger] ico[k] < 12 by {
            assert(0 <= ico[k] < 12);
        }
    } else {
        lemma_icosphere_well_formed((levels - 1) as nat);
        lemma_refined_grows((levels - 1) as nat, (levels - 1) as nat);
        let prev = refined((levels - 1) as nat);
        let ind = prev.0;
        let par = prev.1;
        let es = triangle_edges(ind);
        let np = append_unseen(par, es);
        lemma_append_unseen(par, es);
        let bound = ICOSAHEDRON_VERTICES + par.len();
        assert forall|k: int| 0 <= k < es.len() implies 0 <= (#[trigger] es[k]).0 <= es[k].1
            < bound by {
            let t = k / 3;
            assert(0 <= t * 3 + k % 3 < ind.len());
            assert(0 <= t * 3 + (k % 3 + 1) % 3 < ind.len());
        }
        assert forall|i: int| 0 <= i < np.len() implies 0 <= (#[trigger] np[i]).0 <= np[i].1
            < ICOSAHEDRON_VERTICES + i by {
            if i < par.len() {
                assert(np.take(par.len() as int)[i] == np[i]);
            } else {
                assert(np.contains(np[i]));
                if par.contains(np[i]) {
                    let j = choose|j: int| 0 <= j < par.len() && par[j] == np[i];
                    assert(np.take(par.len() as int)[j] == np[j]);
                }
                let k = choose|k: int| 0 <= k < es.len() && es[k] == np[i];
            }
        }
        let ni = refined(levels).0;
        assert forall|k: int| 0 <= k < ni.len() implies 0 <= #[trigger] ni[k]
            < ICOSAHEDRON_VERTICES + np.len() by {
            let t = k / 12;
            let j = k % 12;
            assert(0 <= 3 * t + 2 < ind.len());
            let v1 = ind[3 * t];
            let v2 = ind[3 * t + 1];
            let v3 = ind[3 * t + 2];
            assert(es[3 * t] == edge(v1, v2));
            assert(es[3 * t + 1] == edge(v2, v3));
            assert(es[3 * t + 2] == edge(v3, v1));
            assert(np.contains(edge(v1, v2)));
            assert(np.contains(edge(v2, v3)));
            assert(np.contains(edge(v3, v1)));
            let x = np.index_of(edge(v1, v2));
            let y = np.index_of(edge(v2, v3));
            let z = np.index_of(edge(v3, v1));
            assert(0 <= x < np.len() && 0 <= y < np.len() && 0 <= z < np.len());
        }
    }
}

} // verus!
