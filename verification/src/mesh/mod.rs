//! Mesh topology: the triangle structure of an indexed mesh, and whether it
//! is a closed 2-manifold (every undirected edge shared by exactly two
//! triangles). Vertex coordinates — and everything computed from them, such as
//! bounding boxes, volume and center of mass — are floating-point data held by
//! the caller.

use vstd::prelude::*;

use std::collections::HashMap;

verus! {

broadcast use vstd::std_specs::hash::group_hash_axioms;

/// The triangles of an indexed mesh: triples of indices into its vertices.
#[derive(Debug, Clone, Default)]
pub struct Mesh {
    /// Number of distinct vertices.
    pub vertex_count: usize,
    /// Triangles as triples of vertex indices.
    pub faces: Vec<[usize; 3]>,
}

/// An undirected edge with its endpoints in ascending order.
pub open spec fn edge(i: usize, j: usize) -> (usize, usize) {
    if i < j {
        (i, j)
    } else {
        (j, i)
    }
}

/// The three edges of a triangle, in winding order.
pub open spec fn face_edges(f: [usize; 3]) -> Seq<(usize, usize)> {
    seq![edge(f[0], f[1]), edge(f[1], f[2]), edge(f[2], f[0])]
}

/// Every face's edges, face by face.
pub open spec fn all_edges(faces: Seq<[usize; 3]>) -> Seq<(usize, usize)>
    decreases faces.len(),
{
    if faces.len() == 0 {
        Seq::empty()
    } else {
        all_edges(faces.drop_last()) + face_edges(faces.last())
    }
}

/// How many times `e` occurs in `es`.
pub open spec fn edge_count(es: Seq<(usize, usize)>, e: (usize, usize)) -> nat
    decreases es.len(),
{
    if es.len() == 0 {
        0
    } else {
        edge_count(es.drop_last(), e) + if es.last() == e {
            1nat
        } else {
            0nat
        }
    }
}

/// A closed 2-manifold: at least one triangle, and every edge used by
/// exactly two triangles.
pub open spec fn watertight(faces: Seq<[usize; 3]>) -> bool {
    let es = all_edges(faces);
    faces.len() > 0 && forall|i: int| 0 <= i < es.len() ==> edge_count(es, #[trigger] es[i]) == 2
}

/// No edge occurs more often than a `u32` counter can count.
pub open spec fn edge_counts_fit(faces: Seq<[usize; 3]>) -> bool {
    let es = all_edges(faces);
    forall|i: int| 0 <= i < es.len() ==> edge_count(es, #[trigger] es[i]) <= u32::MAX
}

/// The hash key of an edge.
pub open spec fn edge_key(e: (usize, usize)) -> u128 {
    ((e.0 as int) * 0x1_0000_0000_0000_0000int + (e.1 as int)) as u128
}

proof fn lemma_edge_key_injective(a: (usize, usize), b: (usize, usize))
    ensures
        edge_key(a) == edge_key(b) ==> a == b,
{
    let m: int = 0x1_0000_0000_0000_0000;
    let x: int = (a.0 as int) * m + (a.1 as int);
    let y: int = (b.0 as int) * m + (b.1 as int);
    assert(0 <= x < 0x1_0000_0000_0000_0000_0000_0000_0000_0000int) by (nonlinear_arith)
        requires
            0 <= a.0 < m,
            0 <= a.1 < m,
            m == 0x1_0000_0000_0000_0000int,
            x == (a.0 as int) * m + (a.1 as int),
    ;
    assert(0 <= y < 0x1_0000_0000_0000_0000_0000_0000_0000_0000int) by (nonlinear_arith)
        requires
            0 <= b.0 < m,
            0 <= b.1 < m,
            m == 0x1_0000_0000_0000_0000int,
            y == (b.0 as int) * m + (b.1 as int),
    ;
    if x == y {
        assert(a.0 == b.0 && a.1 == b.1) by (nonlinear_arith)
            requires
                x == y,
                x == (a.0 as int) * m + (a.1 as int),
                y == (b.0 as int) * m + (b.1 as int),
                0 <= a.1 < m,
                0 <= b.1 < m,
                0 <= a.0,
                0 <= b.0,
        ;
    }
}

fn edge_exec(i: usize, j: usize) -> (r: (usize, usize))
    ensures
        r == edge(i, j),
{
    if i < j {
        (i, j)
    } else {
        (j, i)
    }
}

fn edge_key_exec(e: (usize, usize)) -> (r: u128)
    ensures
        r == edge_key(e),
{
    assert((e.0 as int) * 0x1_0000_0000_0000_0000int + (e.1 as int) <= u128::MAX) by (nonlinear_arith)
        requires
            0 <= e.0 < 0x1_0000_0000_0000_0000int,
            0 <= e.1 < 0x1_0000_0000_0000_0000int,
    ;
    (e.0 as u128) * 0x1_0000_0000_0000_0000u128 + (e.1 as u128)
}

/// All edges of the faces, face by face.
fn collect_edges(faces: &Vec<[usize; 3]>) -> (r: Vec<(usize, usize)>)
    ensures
        r@ == all_edges(faces@),
{
    let mut es: Vec<(usize, usize)> = Vec::new();
    let mut i: usize = 0;
    assert(faces@.take(0) =~= Seq::<[usize; 3]>::empty());
    while i < faces.len()
        invariant
            i <= faces@.len(),
            es@ == all_edges(faces@.take(i as int)),
        decreases faces@.len() - i,
    {
        let f = faces[i];
        es.push(edge_exec(f[0], f[1]));
        es.push(edge_exec(f[1], f[2]));
        es.push(edge_exec(f[2], f[0]));
        proof {
            assert(faces@.take(i + 1).drop_last() =~= faces@.take(i as int));
            assert(faces@.take(i + 1).last() == f);
            assert(es@ =~= all_edges(faces@.take(i + 1)));
        }
        i = i + 1;
    }
    assert(faces@.take(i as int) =~= faces@);
    es
}

proof fn lemma_edge_count_push(es: Seq<(usize, usize)>, x: (usize, usize), e: (usize, usize))
    ensures
        edge_count(es.push(x), e) == edge_count(es, e) + if x == e {
            1nat
        } else {
            0nat
        },
{
    assert(es.push(x).drop_last() =~= es);
}

proof fn lemma_edge_count_prefix(es: Seq<(usize, usize)>, k: int, e: (usize, usize))
    requires
        0 <= k <= es.len(),
    ensures
        edge_count(es.take(k), e) <= edge_count(es, e),
    decreases es.len() - k,
{
    if k < es.len() {
        assert(es.take(k + 1) =~= es.take(k).push(es[k]));
        lemma_edge_count_push(es.take(k), es[k], e);
        lemma_edge_count_prefix(es, k + 1, e);
    } else {
        assert(es.take(k) =~= es);
    }
}

proof fn lemma_edge_count_pos(es: Seq<(usize, usize)>, i: int)
    requires
        0 <= i < es.len(),
    ensures
        edge_count(es, es[i]) >= 1,
    decreases es.len(),
{
    if i < es.len() - 1 {
        assert(es.drop_last()[i] == es[i]);
        lemma_edge_count_pos(es.drop_last(), i);
    }
}

impl Mesh {
    /// Construct directly from a vertex count and faces.
    pub fn new(vertex_count: usize, faces: Vec<[usize; 3]>) -> (r: Mesh)
        ensures
            r.vertex_count == vertex_count,
            r.faces@ == faces@,
    {
        Mesh { vertex_count, faces }
    }

    pub fn triangle_count(&self) -> (r: usize)
        ensures
            r == self.faces@.len(),
    {
        self.faces.len()
    }

    pub fn is_empty(&self) -> (r: bool)
        ensures
            r == (self.faces@.len() == 0),
    {
        self.faces.len() == 0
    }

    /// True when the mesh is a closed 2-manifold: every undirected edge is
    /// shared by exactly two triangles.
    pub fn is_watertight(&self) -> (r: bool)
        requires
            edge_counts_fit(self.faces@),
        ensures
            r == watertight(self.faces@),
    {
        if self.faces.len() == 0 {
            return false;
        }
        let es = collect_edges(&self.faces);
        let ghost all = es@;
        let mut counts: HashMap<u128, u32> = HashMap::new();
        let mut k: usize = 0;
        while k < es.len()
            invariant
                all == es@,
                all == all_edges(self.faces@),
                edge_counts_fit(self.faces@),
                k <= all.len(),
                forall|e: (usize, usize)|
                    #![trigger edge_count(all.take(k as int), e)]
                    (counts@.contains_key(edge_key(e)) <==> edge_count(all.take(k as int), e) > 0)
                        && (edge_count(all.take(k as int), e) > 0 ==> counts@[edge_key(e)]
                        == edge_count(all.take(k as int), e)),
            decreases all.len() - k,
        {
            let e = es[k];
            let key = edge_key_exec(e);
            let ghost before = counts@;
            let ghost pre = all.take(k as int);
            proof {
                assert(all.take(k + 1) =~= pre.push(e));
                lemma_edge_count_push(pre, e, e);
                lemma_edge_count_prefix(all, k + 1, e);
                assert(all[k as int] == e);
            }
            let c: u32 = match counts.get(&key) {
                Some(c) => *c,
                None => 0,
            };
            assert(c == edge_count(pre, e));
            counts.insert(key, c + 1);
            proof {
                assert forall|x: (usize, usize)|
                    #![trigger edge_count(all.take(k + 1), x)]
                    (counts@.contains_key(edge_key(x)) <==> edge_count(all.take(k + 1), x) > 0)
                        && (edge_count(all.take(k + 1), x) > 0 ==> counts@[edge_key(x)]
                        == edge_count(all.take(k + 1), x)) by {
                    lemma_edge_count_push(pre, e, x);
                    lemma_edge_key_injective(x, e);
                    assert(edge_count(pre, x) == edge_count(all.take(k as int), x));
                }
            }
            k = k + 1;
        }
        assert(all.take(k as int) =~= all);
        let mut i: usize = 0;
        while i < es.len()
            invariant
                all == es@,
                all == all_edges(self.faces@),
                self.faces@.len() > 0,
                i <= all.len(),
                forall|e: (usize, usize)|
                    #![trigger edge_count(all, e)]
                    (counts@.contains_key(edge_key(e)) <==> edge_count(all, e) > 0) && (edge_count(
                        all,
                        e,
                    ) > 0 ==> counts@[edge_key(e)] == edge_count(all, e)),
                forall|j: int| 0 <= j < i ==> edge_count(all, #[trigger] all[j]) == 2,
            decreases all.len() - i,
        {
            let e = es[i];
            let key = edge_key_exec(e);
            proof {
                lemma_edge_count_pos(all, i as int);
                assert(all[i as int] == e);
            }
            match counts.get(&key) {
                Some(c) => {
                    if *c != 2 {
                        assert(edge_count(all, all[i as int]) != 2);
                        return false;
                    }
                },
                None => {
                    return false;
                },
            }
            i = i + 1;
        }
        true
    }
}

} // verus!
