//! Halfedge connectivity of a polygon mesh, and the mesh that joins it with
//! property columns.
use crate::connectivity::{FaceConnectivity, HalfedgeConnectivity, VertexConnectivity};
use crate::handle::{
    Edge, Face, Halfedge, Handle, PhantomEdge, PhantomFace, PhantomHalfedge, PhantomVertex, PropertyEdge,
    PropertyFace, PropertyHalfedge, PropertyVertex, Vertex,
};
use crate::property::{lemma_pushed_n_add, PropertyContainer, PropertyValue, PropertyVec};
use vstd::prelude::*;
use vstd::string::StringSliceAdditionalSpecFns;

verus! {

/// The index of the halfedge paired with halfedge `h` in its edge.
pub open spec fn opp(h: int) -> int {
    if h % 2 == 1 {
        h - 1
    } else {
        h + 1
    }
}

/// The index after `i` in a cycle of `n` indices.
pub open spec fn cyc(i: int, n: int) -> int {
    if i + 1 == n {
        0
    } else {
        i + 1
    }
}

/// The successor that halfedge `k` has after the links `c` are applied in
/// order over a successor `d`.
pub open spec fn succ_after(c: Seq<(Halfedge, Halfedge)>, k: int, d: int) -> int
    decreases c.len(),
{
    if c.len() == 0 {
        d
    } else if c.last().0.id() == k {
        c.last().1.id() as int
    } else {
        succ_after(c.drop_last(), k, d)
    }
}

/// The predecessor that halfedge `k` has after the links `c` are applied in
/// order over a predecessor `d`.
pub open spec fn pred_after(c: Seq<(Halfedge, Halfedge)>, k: int, d: int) -> int
    decreases c.len(),
{
    if c.len() == 0 {
        d
    } else if c.last().1.id() == k {
        c.last().0.id() as int
    } else {
        pred_after(c.drop_last(), k, d)
    }
}

/// Halfedge `x` is the first of some link of `c`.
pub open spec fn in_firsts(c: Seq<(Halfedge, Halfedge)>, x: int) -> bool {
    exists|j: int| 0 <= j < c.len() && #[trigger] c[j].0.id() == x
}

/// Halfedge `x` is the second of some link of `c`.
pub open spec fn in_seconds(c: Seq<(Halfedge, Halfedge)>, x: int) -> bool {
    exists|j: int| 0 <= j < c.len() && #[trigger] c[j].1.id() == x
}

/// Some link of `c` makes `b` follow `a`.
pub open spec fn in_links(c: Seq<(Halfedge, Halfedge)>, a: int, b: int) -> bool {
    exists|j: int| 0 <= j < c.len() && #[trigger] c[j].0.id() == a && c[j].1.id() == b
}

/// No two links of `c` share a first, nor a second.
pub open spec fn links_distinct(c: Seq<(Halfedge, Halfedge)>) -> bool {
    forall|a: int, b: int|
        0 <= a < b < c.len() ==> c[a].0.id() != c[b].0.id() && c[a].1.id() != c[b].1.id()
}

/// With distinct firsts, the successor after the links is the second of the
/// link whose first is `k`, or `d` where there is none.
proof fn lemma_succ_after(c: Seq<(Halfedge, Halfedge)>, k: int, d: int)
    requires
        links_distinct(c),
    ensures
        forall|j: int| 0 <= j < c.len() && c[j].0.id() == k ==> succ_after(c, k, d) == c[j].1.id(),
        !in_firsts(c, k) ==> succ_after(c, k, d) == d,
    decreases c.len(),
{
    if c.len() > 0 {
        let p = c.drop_last();
        assert(links_distinct(p));
        lemma_succ_after(p, k, d);
        assert forall|j: int| 0 <= j < c.len() && c[j].0.id() == k implies succ_after(c, k, d) == c[j].1.id() by {
            if j < c.len() - 1 {
                assert(c[j] == p[j]);
            }
        }
        if !in_firsts(c, k) {
            assert forall|j: int| 0 <= j < p.len() implies p[j].0.id() != k by {
                assert(c[j] == p[j]);
            }
        }
    }
}

/// With distinct seconds, the predecessor after the links is the first of
/// the link whose second is `k`, or `d` where there is none.
proof fn lemma_pred_after(c: Seq<(Halfedge, Halfedge)>, k: int, d: int)
    requires
        links_distinct(c),
    ensures
        forall|j: int| 0 <= j < c.len() && c[j].1.id() == k ==> pred_after(c, k, d) == c[j].0.id(),
        !in_seconds(c, k) ==> pred_after(c, k, d) == d,
    decreases c.len(),
{
    if c.len() > 0 {
        let p = c.drop_last();
        assert(links_distinct(p));
        lemma_pred_after(p, k, d);
        assert forall|j: int| 0 <= j < c.len() && c[j].1.id() == k implies pred_after(c, k, d) == c[j].0.id() by {
            if j < c.len() - 1 {
                assert(c[j] == p[j]);
            }
        }
        if !in_seconds(c, k) {
            assert forall|j: int| 0 <= j < p.len() implies p[j].1.id() != k by {
                assert(c[j] == p[j]);
            }
        }
    }
}

/// Appending a link keeps every first, second and link, and adds its own.
proof fn lemma_links_push(c: Seq<(Halfedge, Halfedge)>, e: (Halfedge, Halfedge))
    ensures
        forall|x: int| in_firsts(c, x) ==> #[trigger] in_firsts(c.push(e), x),
        forall|x: int| in_seconds(c, x) ==> #[trigger] in_seconds(c.push(e), x),
        forall|x: int, y: int| in_links(c, x, y) ==> #[trigger] in_links(c.push(e), x, y),
        in_firsts(c.push(e), e.0.id() as int),
        in_seconds(c.push(e), e.1.id() as int),
        in_links(c.push(e), e.0.id() as int, e.1.id() as int),
{
    let d = c.push(e);
    assert forall|x: int| in_firsts(c, x) implies #[trigger] in_firsts(d, x) by {
        let j = choose|j: int| 0 <= j < c.len() && #[trigger] c[j].0.id() == x;
        assert(d[j] == c[j]);
    }
    assert forall|x: int| in_seconds(c, x) implies #[trigger] in_seconds(d, x) by {
        let j = choose|j: int| 0 <= j < c.len() && #[trigger] c[j].1.id() == x;
        assert(d[j] == c[j]);
    }
    assert forall|x: int, y: int| in_links(c, x, y) implies #[trigger] in_links(d, x, y) by {
        let j = choose|j: int| 0 <= j < c.len() && #[trigger] c[j].0.id() == x && c[j].1.id() == y;
        assert(d[j] == c[j]);
    }
    assert(d[c.len() as int] == e);
}

/// Extending a sequence of links keeps every first, second and link.
proof fn lemma_links_extend(c: Seq<(Halfedge, Halfedge)>, d: Seq<(Halfedge, Halfedge)>)
    requires
        c.len() <= d.len(),
        forall|j: int| 0 <= j < c.len() ==> d[j] == c[j],
    ensures
        forall|x: int| in_firsts(c, x) ==> #[trigger] in_firsts(d, x),
        forall|x: int| in_seconds(c, x) ==> #[trigger] in_seconds(d, x),
        forall|x: int, y: int| in_links(c, x, y) ==> #[trigger] in_links(d, x, y),
{
    assert forall|x: int| in_firsts(c, x) implies #[trigger] in_firsts(d, x) by {
        let j = choose|j: int| 0 <= j < c.len() && #[trigger] c[j].0.id() == x;
        assert(d[j] == c[j]);
    }
    assert forall|x: int| in_seconds(c, x) implies #[trigger] in_seconds(d, x) by {
        let j = choose|j: int| 0 <= j < c.len() && #[trigger] c[j].1.id() == x;
        assert(d[j] == c[j]);
    }
    assert forall|x: int, y: int| in_links(c, x, y) implies #[trigger] in_links(d, x, y) by {
        let j = choose|j: int| 0 <= j < c.len() && #[trigger] c[j].0.id() == x && c[j].1.id() == y;
        assert(d[j] == c[j]);
    }
}

/// Appending a link whose first and second are new keeps them distinct.
proof fn lemma_distinct_push(c: Seq<(Halfedge, Halfedge)>, e: (Halfedge, Halfedge))
    requires
        links_distinct(c),
        forall|j: int| 0 <= j < c.len() ==> c[j].0.id() != e.0.id() && c[j].1.id() != e.1.id(),
    ensures
        links_distinct(c.push(e)),
{
    let d = c.push(e);
    assert forall|a: int, b: int| 0 <= a < b < d.len() implies d[a].0.id() != d[b].0.id() && d[a].1.id()
        != d[b].1.id() by {
        assert(d[a] == c[a]);
        if b < c.len() {
            assert(d[b] == c[b]);
        }
    }
}

/// Distinct indices of a cycle have distinct successors.
proof fn lemma_cyc(i: int, j: int, n: int)
    requires
        0 <= i < n,
        0 <= j < n,
        i != j,
    ensures
        0 <= cyc(i, n) < n,
        cyc(i, n) != cyc(j, n),
{
}

/// Some halfedge among the first `i` of `hs` is `k`.
pub open spec fn marked(hs: Seq<Halfedge>, i: int, k: int) -> bool {
    exists|j: int| 0 <= j < i && #[trigger] hs[j].id() == k
}

/// The number of consecutive pairs among the first `i` of `vs` that no
/// halfedge of `t` joins yet.
pub open spec fn count_missing(t: Topology, vs: Seq<Vertex>, i: int) -> nat
    decreases i,
{
    if i <= 0 {
        0
    } else {
        count_missing(t, vs, i - 1) + if t.find(vs[i - 1].id() as int, vs[cyc(i - 1, vs.len() as int)].id() as int) is None {
            1nat
        } else {
            0nat
        }
    }
}

/// The halfedge from `vs[i]` to the next vertex of `vs` that inserting the
/// face `vs` into `t` uses: the one that exists, or the one that it creates.
pub open spec fn planned(t: Topology, vs: Seq<Vertex>, i: int) -> int {
    match t.find(vs[i].id() as int, vs[cyc(i, vs.len() as int)].id() as int) {
        Some(h) => h,
        None => (t.nh() + 2 * count_missing(t, vs, i)) as int,
    }
}

/// Some consecutive pair of `vs` is joined by halfedge `k` when the face
/// `vs` is inserted into `t`.
pub open spec fn is_planned(t: Topology, vs: Seq<Vertex>, k: int) -> bool {
    exists|i: int| 0 <= i < vs.len() && #[trigger] planned(t, vs, i) == k
}

/// Halfedge `h` belongs to an edge created for one of the first `i` pairs.
pub open spec fn made_by(news: Seq<bool>, hs: Seq<Halfedge>, i: int, h: int) -> bool {
    exists|j: int| 0 <= j < i && #[trigger] news[j] && (h == hs[j].id() || h == hs[j].id() + 1)
}

/// Some vertex of `vs` has index `u`.
pub open spec fn vs_contains(vs: Seq<Vertex>, u: int) -> bool {
    exists|j: int| 0 <= j < vs.len() && #[trigger] vs[j].id() == u
}

/// The vertices of `vs` are distinct.
pub open spec fn distinct_vertices(vs: Seq<Vertex>) -> bool {
    forall|i: int, j: int| 0 <= i < vs.len() && 0 <= j < vs.len() && i != j ==> vs[i].id() != vs[j].id()
}

/// At the corner of the face `vs` where the side from `vs[i]` arrives at
/// vertex `vs[i + 1]` and the next side leaves it, where one of the two sides
/// is a new edge: the outgoing halfedge that `t1` stores for the vertex, and
/// how the boundary halfedges around the corner follow each other in `t1`.
pub open spec fn corner_after(t0: Topology, vs: Seq<Vertex>, t1: Topology, i: int) -> bool {
    let n = vs.len() as int;
    let ii = cyc(i, n);
    let v = vs[ii].id() as int;
    let a = planned(t0, vs, i);
    let b = planned(t0, vs, ii);
    let na = t0.find(vs[i].id() as int, vs[ii].id() as int) is None;
    let nb = t0.find(vs[ii].id() as int, vs[cyc(ii, n)].id() as int) is None;
    &&& na && !nb ==> t1.out(v) == Some(Halfedge::at(opp(a) as nat)) && t1.nxt(t0.prv(b)) == opp(a)
    &&& !na && nb ==> t1.out(v) == Some(Halfedge::at(t0.nxt(a) as nat)) && t1.nxt(opp(b)) == t0.nxt(a)
    &&& na && nb && t0.out(v) is None ==> t1.out(v) == Some(Halfedge::at(opp(a) as nat)) && t1.nxt(opp(b))
        == opp(a)
    &&& na && nb && t0.out(v) is Some ==> t1.out(v) == t0.out(v) && t1.nxt(t0.prv(t0.out(v)->Some_0.id() as int))
        == opp(a) && t1.nxt(opp(b)) == t0.out(v)->Some_0.id()
    &&& na ==> t1.fc(opp(a)) is None && t1.tgt(opp(a)) == vs[i].id()
}

/// Inserting the face `vs` into `t0` may relink the successor of halfedge
/// `k`: `k` is a side of the face, or the boundary halfedge before an existing
/// outgoing side or outgoing halfedge at a corner where a new edge arrives.
pub open spec fn relinked(t0: Topology, vs: Seq<Vertex>, k: int) -> bool {
    exists|i: int|
        0 <= i < vs.len() && {
            let n = vs.len() as int;
            let ii = cyc(i, n);
            let v = vs[ii].id() as int;
            let na = t0.find(vs[i].id() as int, vs[ii].id() as int) is None;
            let nb = t0.find(vs[ii].id() as int, vs[cyc(ii, n)].id() as int) is None;
            ||| k == #[trigger] planned(t0, vs, i)
            ||| na && !nb && k == t0.prv(planned(t0, vs, ii))
            ||| na && nb && t0.out(v) is Some && k == t0.prv(t0.out(v)->Some_0.id() as int)
        }
}

/// What inserting the face `vs` into `t0`, as face `f`, made of it in `t1`:
/// one more face, stored at its last halfedge; the halfedge joining each
/// consecutive pair, existing or new, now has face `f`; halfedges of new
/// edges follow each other along the face; nothing else of `t0` changed.
pub open spec fn face_added(t0: Topology, vs: Seq<Vertex>, t1: Topology, f: Face) -> bool {
    let n = vs.len() as int;
    &&& f.id() == t0.nf()
    &&& t1.nf() == t0.nf() + 1
    &&& t1.nv() == t0.nv()
    &&& t1.nh() == t0.nh() + 2 * count_missing(t0, vs, n)
    &&& t1.fstart(f.id() as int) == planned(t0, vs, n - 1)
    &&& forall|i: int|
        0 <= i < n ==> {
            &&& 0 <= #[trigger] planned(t0, vs, i) < t1.nh()
            &&& t1.tgt(planned(t0, vs, i)) == vs[cyc(i, n)].id()
            &&& t1.src(planned(t0, vs, i)) == vs[i].id()
            &&& t1.fc(planned(t0, vs, i)) == Some(f)
        }
    &&& forall|i: int|
        0 <= i < n && (t0.find(vs[i].id() as int, vs[cyc(i, n)].id() as int) is None || t0.find(
            vs[cyc(i, n)].id() as int,
            vs[cyc(cyc(i, n), n)].id() as int,
        ) is None) ==> t1.nxt(#[trigger] planned(t0, vs, i)) == planned(t0, vs, cyc(i, n))
    &&& forall|i: int|
        0 <= i < n && t0.find(vs[i].id() as int, vs[cyc(i, n)].id() as int) is Some && t0.find(
            vs[cyc(i, n)].id() as int,
            vs[cyc(cyc(i, n), n)].id() as int,
        ) is Some ==> t1.nxt(#[trigger] planned(t0, vs, i)) == t0.nxt(planned(t0, vs, i))
    &&& forall|k: int| 0 <= k < t0.nh() ==> #[trigger] t1.tgt(k) == t0.tgt(k)
    &&& forall|k: int| 0 <= k < t0.nh() && !is_planned(t0, vs, k) ==> #[trigger] t1.fc(k) == t0.fc(k)
    &&& forall|g: int| 0 <= g < t0.nf() ==> #[trigger] t1.fstart(g) == t0.fstart(g)
    &&& forall|i: int| 0 <= i < n ==> #[trigger] corner_after(t0, vs, t1, i)
    &&& forall|u: int| 0 <= u < t0.nv() && !vs_contains(vs, u) ==> #[trigger] t1.out(u) == t0.out(u)
    &&& forall|k: int| 0 <= k < t0.nh() && !relinked(t0, vs, k) ==> #[trigger] t1.nxt(k) == t0.nxt(k)
}

/// `t1` has the halfedges and faces of `t0`, with the same records.
pub open spec fn same_halfedges_faces(t1: Topology, t0: Topology) -> bool {
    &&& t1.nh() == t0.nh()
    &&& t1.nf() == t0.nf()
    &&& forall|k: int|
        0 <= k < t0.nh() ==> #[trigger] t1.tgt(k) == t0.tgt(k) && t1.nxt(k) == t0.nxt(k) && t1.prv(k) == t0.prv(
            k,
        ) && t1.fc(k) == t0.fc(k)
    &&& forall|g: int| 0 <= g < t0.nf() ==> #[trigger] t1.fstart(g) == t0.fstart(g)
}

/// `t1` holds the same elements as `t0`, with the same records.
pub open spec fn same_topology(t1: Topology, t0: Topology) -> bool {
    &&& same_halfedges_faces(t1, t0)
    &&& t1.nv() == t0.nv()
    &&& forall|u: int| 0 <= u < t0.nv() ==> #[trigger] t1.out(u) == t0.out(u)
}

/// The container `c1` holds the columns of `c0`, with their names and values.
pub open spec fn same_columns<T>(c1: PropertyContainer<Handle<T>>, c0: PropertyContainer<Handle<T>>) -> bool {
    &&& c1.size() == c0.size()
    &&& c1.n_props() == c0.n_props()
    &&& forall|i: int|
        #![trigger c1.col(i)]
        #![trigger c1.name(i)]
        0 <= i < c0.n_props() ==> c1.col(i) == c0.col(i) && c1.name(i) == c0.name(i)
}

/// The container `c1` is `c0` after `k` new elements: same names, each
/// column grown by `k` default slots.
pub open spec fn grown_columns<T>(c1: PropertyContainer<Handle<T>>, c0: PropertyContainer<Handle<T>>, k: nat) -> bool {
    &&& c1.size() == c0.size() + k
    &&& c1.n_props() == c0.n_props()
    &&& forall|i: int|
        #![trigger c1.col(i)]
        #![trigger c1.name(i)]
        0 <= i < c0.n_props() ==> c1.col(i) == c0.col(i).pushed_n(k) && c1.name(i) == c0.name(i)
}

/// The adjacency of the vertices, halfedges and faces of a mesh.
pub struct Topology {
    vconn_: PropertyVec<Vertex, VertexConnectivity>,
    hconn_: PropertyVec<Halfedge, HalfedgeConnectivity>,
    fconn_: PropertyVec<Face, FaceConnectivity>,
}

impl Topology {
    /// Number of vertices.
    pub closed spec fn nv(&self) -> nat {
        self.vconn_@.len()
    }

    /// Number of halfedges.
    pub closed spec fn nh(&self) -> nat {
        self.hconn_@.len()
    }

    /// Number of faces.
    pub closed spec fn nf(&self) -> nat {
        self.fconn_@.len()
    }

    /// The outgoing halfedge stored for vertex `v`.
    pub closed spec fn out(&self, v: int) -> Option<Halfedge> {
        self.vconn_@[v].halfedge_
    }

    /// The face of halfedge `h`, none on a boundary.
    pub closed spec fn fc(&self, h: int) -> Option<Face> {
        self.hconn_@[h].face_
    }

    /// The vertex that halfedge `h` points to.
    pub closed spec fn tgt(&self, h: int) -> int {
        self.hconn_@[h].vertex_.id() as int
    }

    /// The successor of halfedge `h` in its loop.
    pub closed spec fn nxt(&self, h: int) -> int {
        self.hconn_@[h].next_halfedge_.id() as int
    }

    /// The predecessor of halfedge `h` in its loop.
    pub closed spec fn prv(&self, h: int) -> int {
        self.hconn_@[h].prev_halfedge_.id() as int
    }

    /// The halfedge stored for face `f`.
    pub closed spec fn fstart(&self, f: int) -> int {
        self.fconn_@[f].halfedge_.id() as int
    }

    /// The vertex that halfedge `h` leaves.
    pub open spec fn src(&self, h: int) -> int {
        self.tgt(opp(h))
    }

    /// One clockwise step around the vertex that `h` leaves.
    pub open spec fn cw(&self, h: int) -> int {
        self.nxt(opp(h))
    }

    /// Halfedge `h` has no face.
    pub open spec fn boundary(&self, h: int) -> bool {
        self.fc(h).is_none()
    }

    /// Vertex `v` has no outgoing halfedge, or its stored one has no face.
    pub open spec fn boundary_vertex(&self, v: int) -> bool {
        match self.out(v) {
            Some(h) => self.boundary(h.id() as int),
            None => true,
        }
    }

    /// The records of vertex `v` designate existing elements.
    pub closed spec fn vertex_ok(&self, v: int) -> bool {
        match self.out(v) {
            Some(h) => h.id() < self.nh() && self.src(h.id() as int) == v,
            None => true,
        }
    }

    /// The record of halfedge `h` designates existing elements.
    pub closed spec fn halfedge_ok(&self, h: int) -> bool {
        &&& 0 <= self.tgt(h) < self.nv()
        &&& self.out(self.tgt(h)) is Some
        &&& 0 <= self.nxt(h) < self.nh()
        &&& 0 <= self.prv(h) < self.nh()
        &&& match self.fc(h) {
            Some(f) => f.id() < self.nf(),
            None => true,
        }
    }

    /// The record of face `f` designates a halfedge of that face.
    pub closed spec fn face_ok(&self, f: int) -> bool {
        &&& 0 <= self.fstart(f) < self.nh()
        &&& match self.fc(self.fstart(f)) {
            Some(g) => g.id() == f,
            None => false,
        }
    }

    /// Halfedge `h` and its neighbours in its loop are linked both ways and
    /// meet at their common vertices.
    pub closed spec fn linked(&self, h: int) -> bool {
        &&& self.prv(self.nxt(h)) == h
        &&& self.nxt(self.prv(h)) == h
        &&& self.tgt(self.prv(h)) == self.src(h)
        &&& self.src(self.nxt(h)) == self.tgt(h)
    }

    /// New vertices are isolated, and new halfedges have no face.
    pub closed spec fn defaults(&self) -> bool {
        &&& self.vconn_.default_value().halfedge_ is None
        &&& self.hconn_.default_value().face_ is None
    }

    /// Every handle that a record holds designates an existing element.
    pub closed spec fn wf_index(&self) -> bool {
        &&& self.defaults()
        &&& self.nh() % 2 == 0
        &&& forall|v: int| 0 <= v < self.nv() ==> #[trigger] self.vertex_ok(v)
        &&& forall|h: int| 0 <= h < self.nh() ==> #[trigger] self.halfedge_ok(h)
        &&& forall|f: int| 0 <= f < self.nf() ==> #[trigger] self.face_ok(f)
    }

    /// Successor and predecessor are inverse, and consecutive halfedges meet
    /// at a vertex.
    pub closed spec fn wf_links(&self) -> bool {
        forall|h: int| 0 <= h < self.nh() ==> #[trigger] self.linked(h)
    }

    /// The invariant of a topology.
    pub open spec fn wf(&self) -> bool {
        self.wf_index() && self.wf_links()
    }

    /// The element counts fit in `usize`.
    pub proof fn lemma_counts_fit(&self)
        ensures
            self.nv() <= usize::MAX,
            self.nh() <= usize::MAX,
            self.nf() <= usize::MAX,
    {
        self.vconn_.lemma_len_fits();
        self.hconn_.lemma_len_fits();
        self.fconn_.lemma_len_fits();
    }

    /// What the invariant states of halfedge `h`.
    pub proof fn lemma_halfedge(&self, h: int)
        requires
            self.wf(),
            0 <= h < self.nh(),
        ensures
            0 <= self.tgt(h) < self.nv(),
            0 <= self.nxt(h) < self.nh(),
            0 <= self.prv(h) < self.nh(),
            0 <= opp(h) < self.nh(),
            opp(opp(h)) == h,
            self.nh() <= usize::MAX,
            self.nv() <= usize::MAX,
            self.fc(h) matches Some(f) ==> f.id() < self.nf(),
            self.out(self.tgt(h)) is Some,
            self.prv(self.nxt(h)) == h,
            self.nxt(self.prv(h)) == h,
            self.tgt(self.prv(h)) == self.src(h),
            self.src(self.nxt(h)) == self.tgt(h),
    {
        self.lemma_counts_fit();
        assert(self.halfedge_ok(h));
        assert(self.linked(h));
    }

    /// What the invariant states of vertex `v`.
    pub proof fn lemma_vertex(&self, v: int)
        requires
            self.wf(),
            0 <= v < self.nv(),
        ensures
            self.out(v) matches Some(h) ==> h.id() < self.nh() && self.src(h.id() as int) == v,
    {
        assert(self.vertex_ok(v));
    }

    /// What the invariant states of face `f`.
    pub proof fn lemma_face(&self, f: int)
        requires
            self.wf(),
            0 <= f < self.nf(),
        ensures
            0 <= self.fstart(f) < self.nh(),
            self.fc(self.fstart(f)) matches Some(g) && g.id() == f,
    {
        assert(self.face_ok(f));
    }

    /// Constructs a topology without elements.
    pub fn new() -> (r: Topology)
        ensures
            r.wf(),
            r.nv() == 0,
            r.nh() == 0,
            r.nf() == 0,
    {
        Topology {
            vconn_: PropertyVec::new(VertexConnectivity::invalid()),
            hconn_: PropertyVec::new(HalfedgeConnectivity::invalid()),
            fconn_: PropertyVec::new(FaceConnectivity::invalid()),
        }
    }

    /// Returns the number of vertices.
    pub fn n_vertices(&self) -> (r: usize)
        ensures
            r == self.nv(),
    {
        self.vconn_.len()
    }

    /// Returns the number of faces.
    pub fn n_faces(&self) -> (r: usize)
        ensures
            r == self.nf(),
    {
        self.fconn_.len()
    }

    /// Returns the number of edges: half the number of halfedges.
    pub fn n_edges(&self) -> (r: usize)
        ensures
            r == self.nh() / 2,
    {
        self.hconn_.len() / 2
    }

    /// Returns the number of halfedges.
    pub fn n_halfedges(&self) -> (r: usize)
        ensures
            r == self.nh(),
    {
        self.hconn_.len()
    }

    /// Returns whether vertex `v` lies on a boundary: it has no outgoing
    /// halfedge, or its stored outgoing halfedge has no face.
    pub fn is_boundary_vertex(&self, v: Vertex) -> (r: bool)
        requires
            self.wf(),
            v.id() < self.nv(),
        ensures
            r == self.boundary_vertex(v.id() as int),
    {
        proof {
            self.lemma_vertex(v.id() as int);
        }
        match self.halfedge(v) {
            Some(h) => self.face(h).is_none(),
            None => true,
        }
    }

    /// Returns whether halfedge `h` has no face.
    pub fn is_boundary_halfedge(&self, h: Halfedge) -> (r: bool)
        requires
            h.id() < self.nh(),
        ensures
            r == self.boundary(h.id() as int),
    {
        self.face(h).is_none()
    }

    /// Returns the face of halfedge `h`, none on a boundary.
    pub fn face(&self, h: Halfedge) -> (r: Option<Face>)
        requires
            h.id() < self.nh(),
        ensures
            r == self.fc(h.id() as int),
    {
        self.hconn_.get(h).face_
    }

    /// Returns the stored outgoing halfedge of vertex `v`.
    pub fn halfedge(&self, v: Vertex) -> (r: Option<Halfedge>)
        requires
            v.id() < self.nv(),
        ensures
            r == self.out(v.id() as int),
    {
        self.vconn_.get(v).halfedge_
    }

    /// Returns halfedge `i` (0 or 1) of edge `e`.
    pub fn edge_halfedge(&self, e: Edge, i: usize) -> (r: Halfedge)
        requires
            i < 2,
            e.id() < self.nh() / 2,
        ensures
            r.id() == 2 * e.id() + i,
    {
        proof {
            self.lemma_counts_fit();
        }
        Halfedge::new(e.idx() * 2 + i)
    }

    /// Returns the halfedge stored for face `f`.
    pub fn face_halfedge(&self, f: Face) -> (r: Halfedge)
        requires
            f.id() < self.nf(),
        ensures
            r.id() == self.fstart(f.id() as int),
    {
        self.fconn_.get(f).halfedge_
    }

    /// Returns the edge of halfedge `h`.
    pub fn edge(&self, h: Halfedge) -> (r: Edge)
        ensures
            r.id() == h.id() / 2,
    {
        Edge::new(h.idx() / 2)
    }

    /// Returns the vertex that halfedge `h` points to.
    pub fn to_vertex(&self, h: Halfedge) -> (r: Vertex)
        requires
            h.id() < self.nh(),
        ensures
            r.id() == self.tgt(h.id() as int),
    {
        self.hconn_.get(h).vertex_
    }

    /// Returns the vertex that halfedge `h` leaves: the one its predecessor
    /// points to.
    pub fn from_vertex(&self, h: Halfedge) -> (r: Vertex)
        requires
            self.wf(),
            h.id() < self.nh(),
        ensures
            r.id() == self.tgt(self.prv(h.id() as int)),
            r.id() == self.src(h.id() as int),
    {
        proof {
            self.lemma_halfedge(h.id() as int);
        }
        self.to_vertex(self.prev_halfedge(h))
    }

    /// Returns the successor of halfedge `h` in its loop.
    pub fn next_halfedge(&self, h: Halfedge) -> (r: Halfedge)
        requires
            h.id() < self.nh(),
        ensures
            r.id() == self.nxt(h.id() as int),
    {
        self.hconn_.get(h).next_halfedge_
    }

    /// Returns the predecessor of halfedge `h` in its loop.
    pub fn prev_halfedge(&self, h: Halfedge) -> (r: Halfedge)
        requires
            h.id() < self.nh(),
        ensures
            r.id() == self.prv(h.id() as int),
    {
        self.hconn_.get(h).prev_halfedge_
    }

    /// Returns the other halfedge of the edge of `h`: its index with the low
    /// bit flipped.
    pub fn opposite_halfedge(&self, h: Halfedge) -> (r: Halfedge)
        ensures
            r.id() == opp(h.id() as int),
    {
        let idx = h.idx();
        if idx % 2 == 1 {
            Halfedge::new(idx - 1)
        } else {
            Halfedge::new(idx + 1)
        }
    }

    /// Returns the halfedge that follows `h` clockwise around the vertex it
    /// leaves: the successor of its opposite.
    pub fn cw_rotated_halfedge(&self, h: Halfedge) -> (r: Halfedge)
        requires
            self.wf(),
            h.id() < self.nh(),
        ensures
            r.id() == self.cw(h.id() as int),
            r.id() < self.nh(),
            self.src(r.id() as int) == self.src(h.id() as int),
    {
        proof {
            self.lemma_halfedge(h.id() as int);
            self.lemma_halfedge(opp(h.id() as int));
        }
        self.next_halfedge(self.opposite_halfedge(h))
    }

    /// The first halfedge, from `h` on in clockwise steps that stop before
    /// `stop` comes back or after `fuel` steps, that points to vertex `end`.
    pub open spec fn find_from(&self, stop: int, h: int, end: int, fuel: nat) -> Option<int>
        decreases fuel,
    {
        if self.tgt(h) == end {
            Some(h)
        } else if fuel == 0 {
            None
        } else if self.cw(h) == stop {
            None
        } else {
            self.find_from(stop, self.cw(h), end, (fuel - 1) as nat)
        }
    }

    /// The halfedge from vertex `start` to vertex `end` that a walk around
    /// `start`, from its stored outgoing halfedge, meets first.
    pub open spec fn find(&self, start: int, end: int) -> Option<int> {
        match self.out(start) {
            Some(h) => self.find_from(h.id() as int, h.id() as int, end, self.nh()),
            None => None,
        }
    }

    /// The first halfedge without a face, from `h` on in clockwise steps that
    /// stop before `stop` comes back or after `fuel` steps.
    pub open spec fn boundary_from(&self, stop: int, h: int, fuel: nat) -> Option<int>
        decreases fuel,
    {
        if self.boundary(h) {
            Some(h)
        } else if fuel == 0 {
            None
        } else if self.cw(h) == stop {
            None
        } else {
            self.boundary_from(stop, self.cw(h), (fuel - 1) as nat)
        }
    }

    /// A halfedge that `find_from` gives exists, points to `end`, and leaves
    /// the vertex that `h` leaves.
    proof fn lemma_find_from(&self, stop: int, h: int, end: int, fuel: nat)
        requires
            self.wf(),
            0 <= h < self.nh(),
        ensures
            self.find_from(stop, h, end, fuel) matches Some(r) ==> 0 <= r < self.nh() && self.tgt(r)
                == end && self.src(r) == self.src(h),
        decreases fuel,
    {
        self.lemma_halfedge(h);
        self.lemma_halfedge(opp(h));
        if self.tgt(h) != end && fuel > 0 && self.cw(h) != stop {
            self.lemma_find_from(stop, self.cw(h), end, (fuel - 1) as nat);
        }
    }

    /// A halfedge that `find` gives goes from `start` to `end`.
    pub proof fn lemma_find(&self, start: int, end: int)
        requires
            self.wf(),
            0 <= start < self.nv(),
        ensures
            self.find(start, end) matches Some(r) ==> 0 <= r < self.nh() && self.tgt(r) == end
                && self.src(r) == start,
    {
        self.lemma_vertex(start);
        if let Some(h) = self.out(start) {
            self.lemma_find_from(h.id() as int, h.id() as int, end, self.nh());
        }
    }

    /// Finds the halfedge from `start` to `end`, walking clockwise around
    /// `start` from its stored outgoing halfedge until it comes back; none
    /// where `start` has no outgoing halfedge. A walk never takes more steps
    /// than there are halfedges.
    pub fn find_halfedge(&self, start: Vertex, end: Vertex) -> (r: Option<Halfedge>)
        requires
            self.wf(),
            start.id() < self.nv(),
        ensures
            match r {
                Some(h) => self.find(start.id() as int, end.id() as int) == Some(h.id() as int),
                None => self.find(start.id() as int, end.id() as int) is None,
            },
    {
        proof {
            self.lemma_vertex(start.id() as int);
        }
        let mut h = match self.halfedge(start) {
            Some(x) => x,
            None => return None,
        };
        let h_end = h;
        let mut fuel = self.n_halfedges();
        loop
            invariant
                self.wf(),
                h.id() < self.nh(),
                self.find(start.id() as int, end.id() as int) == self.find_from(
                    h_end.id() as int,
                    h.id() as int,
                    end.id() as int,
                    fuel as nat,
                ),
            decreases fuel,
        {
            if self.to_vertex(h).idx() == end.idx() {
                return Some(h);
            }
            if fuel == 0 {
                return None;
            }
            h = self.cw_rotated_halfedge(h);
            if h.idx() == h_end.idx() {
                return None;
            }
            fuel = fuel - 1;
        }
    }

    /// Sets the stored outgoing halfedge of vertex `v` to `h`.
    fn set_halfedge(&mut self, v: Vertex, h: Halfedge)
        requires
            v.id() < old(self).nv(),
        ensures
            final(self).vconn_@ == old(self).vconn_@.update(
                v.id() as int,
                VertexConnectivity { halfedge_: Some(h) },
            ),
            final(self).hconn_@ == old(self).hconn_@,
            final(self).fconn_@ == old(self).fconn_@,
            final(self).defaults() == old(self).defaults(),
    {
        self.vconn_.set(v, VertexConnectivity { halfedge_: Some(h) });
    }

    /// Sets the face of halfedge `h` to `f`.
    fn set_face(&mut self, h: Halfedge, f: Face)
        requires
            h.id() < old(self).nh(),
        ensures
            final(self).hconn_@ == old(self).hconn_@.update(
                h.id() as int,
                HalfedgeConnectivity { face_: Some(f), ..old(self).hconn_@[h.id() as int] },
            ),
            final(self).vconn_@ == old(self).vconn_@,
            final(self).fconn_@ == old(self).fconn_@,
            final(self).defaults() == old(self).defaults(),
    {
        let mut c = *self.hconn_.get(h);
        c.face_ = Some(f);
        self.hconn_.set(h, c);
    }

    /// Sets the vertex that halfedge `h` points to to `v`.
    fn set_vertex(&mut self, h: Halfedge, v: Vertex)
        requires
            h.id() < old(self).nh(),
        ensures
            final(self).hconn_@ == old(self).hconn_@.update(
                h.id() as int,
                HalfedgeConnectivity { vertex_: v, ..old(self).hconn_@[h.id() as int] },
            ),
            final(self).vconn_@ == old(self).vconn_@,
            final(self).fconn_@ == old(self).fconn_@,
            final(self).defaults() == old(self).defaults(),
    {
        let mut c = *self.hconn_.get(h);
        c.vertex_ = v;
        self.hconn_.set(h, c);
    }

    /// Makes `nh` the successor of `h`, and `h` the predecessor of `nh`.
    fn set_next_halfedge(&mut self, h: Halfedge, nh: Halfedge)
        requires
            h.id() < old(self).nh(),
            nh.id() < old(self).nh(),
        ensures
            final(self).nh() == old(self).nh(),
            forall|k: int|
                0 <= k < old(self).nh() ==> {
                    &&& #[trigger] final(self).hconn_@[k].vertex_ == old(self).hconn_@[k].vertex_
                    &&& final(self).hconn_@[k].face_ == old(self).hconn_@[k].face_
                    &&& final(self).nxt(k) == if k == h.id() {
                        nh.id() as int
                    } else {
                        old(self).nxt(k)
                    }
                    &&& final(self).prv(k) == if k == nh.id() {
                        h.id() as int
                    } else {
                        old(self).prv(k)
                    }
                },
            final(self).vconn_@ == old(self).vconn_@,
            final(self).fconn_@ == old(self).fconn_@,
            final(self).defaults() == old(self).defaults(),
    {
        let mut c = *self.hconn_.get(h);
        c.next_halfedge_ = nh;
        self.hconn_.set(h, c);
        let mut d = *self.hconn_.get(nh);
        d.prev_halfedge_ = h;
        self.hconn_.set(nh, d);
    }

    /// Makes sure that the stored outgoing halfedge of vertex `v` has no
    /// face where one around `v` has none: walks clockwise from the stored one
    /// and keeps the first without a face.
    fn adjust_outgoing_halfedge(&mut self, v: Vertex)
        requires
            old(self).wf(),
            v.id() < old(self).nv(),
        ensures
            final(self).wf(),
            final(self).defaults() == old(self).defaults(),
            final(self).hconn_@ == old(self).hconn_@,
            final(self).fconn_@ == old(self).fconn_@,
            final(self).nv() == old(self).nv(),
            forall|u: int| 0 <= u < old(self).nv() && u != v.id() ==> #[trigger] final(self).out(u) == old(self).out(u),
            final(self).out(v.id() as int) == match old(self).out(v.id() as int) {
                Some(h) => match old(self).boundary_from(h.id() as int, h.id() as int, old(self).nh()) {
                    Some(b) => Some(Halfedge::at(b as nat)),
                    None => Some(h),
                },
                None => None,
            },
    {
        proof {
            self.lemma_vertex(v.id() as int);
        }
        let mut h = match self.halfedge(v) {
            Some(x) => x,
            None => return,
        };
        let hh = h;
        let mut fuel = self.n_halfedges();
        loop
            invariant
                *self == *old(self),
                self.wf(),
                v.id() < self.nv(),
                h.id() < self.nh(),
                self.src(h.id() as int) == v.id(),
                self.out(v.id() as int) == Some(hh),
                self.boundary_from(hh.id() as int, hh.id() as int, self.nh()) == self.boundary_from(
                    hh.id() as int,
                    h.id() as int,
                    fuel as nat,
                ),
            decreases fuel,
        {
            if self.is_boundary_halfedge(h) {
                proof {
                    assert forall|u: int| 0 <= u < self.nv() implies #[trigger] self.vertex_ok(u)
                        || u == v.id() by {}
                }
                self.set_halfedge(v, h);
                proof {
                    assert(h == Halfedge::at(h.id()));
                    assert forall|u: int| 0 <= u < self.nv() implies #[trigger] self.vertex_ok(u) by {
                        if u != v.id() {
                            assert(old(self).vertex_ok(u));
                        }
                    }
                    assert forall|k: int| 0 <= k < self.nh() implies #[trigger] self.halfedge_ok(k) by {
                        assert(old(self).halfedge_ok(k));
                    }
                    assert forall|k: int| 0 <= k < self.nh() implies #[trigger] self.linked(k) by {
                        assert(old(self).linked(k));
                    }
                    assert forall|f: int| 0 <= f < self.nf() implies #[trigger] self.face_ok(f) by {
                        assert(old(self).face_ok(f));
                    }
                }
                return;
            }
            if fuel == 0 {
                return;
            }
            h = self.cw_rotated_halfedge(h);
            if h.idx() == hh.idx() {
                return;
            }
            fuel = fuel - 1;
        }
    }

    /// Consecutive pairs of `vs`, the last one closing the polygon, meet at
    /// boundary vertices, and an edge that exists between them has no face on
    /// the side of the pair.
    pub open spec fn pair_ok(&self, vs: Seq<Vertex>, i: int) -> bool {
        &&& self.boundary_vertex(vs[i].id() as int)
        &&& match self.find(vs[i].id() as int, vs[cyc(i, vs.len() as int)].id() as int) {
            Some(h) => self.boundary(h),
            None => true,
        }
    }

    /// A face with the boundary `vs` can be inserted.
    pub open spec fn addable(&self, vs: Seq<Vertex>) -> bool {
        forall|i: int| 0 <= i < vs.len() ==> #[trigger] self.pair_ok(vs, i)
    }

    /// Checks that a face with the boundary `vertices` can be inserted, and
    /// returns for each consecutive pair the halfedge that already joins it.
    fn check_face(&self, vertices: &Vec<Vertex>) -> (r: Option<Vec<Option<Halfedge>>>)
        requires
            self.wf(),
            vertices@.len() >= 1,
            forall|i: int| 0 <= i < vertices@.len() ==> (#[trigger] vertices@[i]).id() < self.nv(),
        ensures
            r is Some <==> self.addable(vertices@),
            r matches Some(hv) ==> {
                &&& hv@.len() == vertices@.len()
                &&& forall|i: int|
                    0 <= i < vertices@.len() ==> match #[trigger] hv@[i] {
                        Some(h) => self.find(
                            vertices@[i].id() as int,
                            vertices@[cyc(i, vertices@.len() as int)].id() as int,
                        ) == Some(h.id() as int),
                        None => self.find(
                            vertices@[i].id() as int,
                            vertices@[cyc(i, vertices@.len() as int)].id() as int,
                        ) is None,
                    }
            },
    {
        let n = vertices.len();
        let mut hvec: Vec<Option<Halfedge>> = Vec::new();
        for i in 0..n
            invariant
                self.wf(),
                n == vertices@.len(),
                n >= 1,
                forall|j: int| 0 <= j < n ==> (#[trigger] vertices@[j]).id() < self.nv(),
                hvec@.len() == i,
                forall|j: int| 0 <= j < i ==> #[trigger] self.pair_ok(vertices@, j),
                forall|j: int|
                    0 <= j < i ==> match #[trigger] hvec@[j] {
                        Some(h) => self.find(
                            vertices@[j].id() as int,
                            vertices@[cyc(j, n as int)].id() as int,
                        ) == Some(h.id() as int),
                        None => self.find(
                            vertices@[j].id() as int,
                            vertices@[cyc(j, n as int)].id() as int,
                        ) is None,
                    },
        {
            if !self.is_boundary_vertex(vertices[i]) {
                assert(!self.pair_ok(vertices@, i as int));
                return None;
            }
            let ii = if i + 1 == n {
                0
            } else {
                i + 1
            };
            let found = self.find_halfedge(vertices[i], vertices[ii]);
            proof {
                self.lemma_find(vertices@[i as int].id() as int, vertices@[ii as int].id() as int);
            }
            if let Some(h) = found {
                if !self.is_boundary_halfedge(h) {
                    assert(!self.pair_ok(vertices@, i as int));
                    return None;
                }
            }
            hvec.push(found);
        }
        Some(hvec)
    }

    /// Appends an edge, as a pair of halfedges that are not linked yet, and
    /// returns the one from `start` to `end`.
    fn new_edge(&mut self, start: Vertex, end: Vertex) -> (r: Halfedge)
        requires
            old(self).nh() + 2 <= usize::MAX,
            old(self).defaults(),
        ensures
            r.id() == old(self).nh(),
            final(self).nh() == old(self).nh() + 2,
            final(self).hconn_@.subrange(0, old(self).nh() as int) == old(self).hconn_@,
            final(self).tgt(old(self).nh() as int) == end.id(),
            final(self).tgt(old(self).nh() + 1int) == start.id(),
            final(self).fc(old(self).nh() as int) is None,
            final(self).fc(old(self).nh() + 1int) is None,
            final(self).vconn_@ == old(self).vconn_@,
            final(self).fconn_@ == old(self).fconn_@,
            final(self).defaults() == old(self).defaults(),
    {
        self.hconn_.push();
        let h0 = Halfedge::new(self.hconn_.len() - 1);
        self.hconn_.push();
        let h1 = Halfedge::new(self.hconn_.len() - 1);
        self.set_vertex(h0, end);
        self.set_vertex(h1, start);
        assert(self.hconn_@.subrange(0, old(self).nh() as int) =~= old(self).hconn_@);
        h0
    }

    /// Appends a face whose stored halfedge is `h`.
    fn push_face(&mut self, h: Halfedge) -> (r: Face)
        requires
            old(self).nf() < usize::MAX,
        ensures
            r.id() == old(self).nf(),
            final(self).fconn_@ == old(self).fconn_@.push(FaceConnectivity { halfedge_: h }),
            final(self).vconn_@ == old(self).vconn_@,
            final(self).hconn_@ == old(self).hconn_@,
            final(self).defaults() == old(self).defaults(),
    {
        self.fconn_.push();
        let f = Face::new(self.fconn_.len() - 1);
        self.fconn_.set(f, FaceConnectivity::new(h));
        f
    }

    /// Halfedge `hs[i]` of a face being inserted joins `vs[i]` to the next
    /// vertex, has no face yet, and is new exactly when `news[i]` says so.
    closed spec fn planned_ok(&self, vs: Seq<Vertex>, hs: Seq<Halfedge>, news: Seq<bool>, onh: int, i: int) -> bool {
        &&& 0 <= hs[i].id() < self.nh()
        &&& self.tgt(hs[i].id() as int) == vs[cyc(i, vs.len() as int)].id()
        &&& self.src(hs[i].id() as int) == vs[i].id()
        &&& self.fc(hs[i].id() as int) is None
        &&& news[i] == (hs[i].id() >= onh)
        &&& news[i] ==> hs[i].id() % 2 == 0
    }

    /// Halfedge `h` existed before the insertion and is fully linked among
    /// the halfedges that existed.
    closed spec fn old_ok(&self, h: int, onh: int) -> bool {
        &&& self.halfedge_ok(h)
        &&& self.linked(h)
        &&& self.nxt(h) < onh
        &&& self.prv(h) < onh
    }

    /// Halfedge `h` was created for the insertion: it has no face, and it
    /// belongs to a new edge of the face.
    closed spec fn fresh_ok(&self, vs: Seq<Vertex>, hs: Seq<Halfedge>, news: Seq<bool>, h: int) -> bool {
        &&& 0 <= self.tgt(h) < self.nv()
        &&& self.fc(h) is None
        &&& exists|i: int|
            0 <= i < vs.len() && #[trigger] news[i] && (h == hs[i].id() || h == opp(hs[i].id() as int))
    }

    /// The stored outgoing halfedge of `v` existed before the insertion.
    closed spec fn old_vertex_ok(&self, v: int, onh: int) -> bool {
        match self.out(v) {
            Some(x) => x.id() < onh && self.src(x.id() as int) == v,
            None => true,
        }
    }

    /// The state in which the face `f` with boundary `vs` and halfedges `hs`
    /// has its new edges and its record, and waits for its links.
    closed spec fn ready(&self, vs: Seq<Vertex>, hs: Seq<Halfedge>, news: Seq<bool>, f: int, onh: int) -> bool {
        let n = vs.len() as int;
        &&& n >= 3
        &&& hs.len() == n
        &&& news.len() == n
        &&& forall|i: int, j: int| 0 <= i < n && 0 <= j < n && i != j ==> vs[i].id() != vs[j].id()
        &&& forall|i: int| 0 <= i < n ==> #[trigger] vs[i].id() < self.nv()
        &&& 0 <= onh <= self.nh()
        &&& onh % 2 == 0
        &&& self.nh() % 2 == 0
        &&& self.defaults()
        &&& forall|i: int| 0 <= i < n ==> #[trigger] self.planned_ok(vs, hs, news, onh, i)
        &&& forall|h: int| onh <= h < self.nh() ==> #[trigger] self.fresh_ok(vs, hs, news, h)
        &&& forall|h: int| 0 <= h < onh ==> #[trigger] self.old_ok(h, onh)
        &&& forall|v: int| 0 <= v < self.nv() ==> #[trigger] self.old_vertex_ok(v, onh)
        &&& f == self.nf() - 1
        &&& self.fstart(f) == hs[n - 1].id()
        &&& forall|g: int| 0 <= g < f ==> #[trigger] self.face_ok(g)
    }

    /// The first of a planned link that existed before keeps a link to its
    /// old successor, and the second of one keeps its old predecessor.
    closed spec fn entries_closed(&self, c: Seq<(Halfedge, Halfedge)>, onh: int) -> bool {
        &&& forall|j: int|
            0 <= j < c.len() && (#[trigger] c[j]).1.id() < onh ==> in_firsts(c, self.prv(c[j].1.id() as int))
        &&& forall|j: int|
            0 <= j < c.len() && (#[trigger] c[j]).0.id() < onh ==> in_seconds(c, self.nxt(c[j].0.id() as int))
    }

    /// The new halfedges at corner `k` of the face are planned to be linked.
    closed spec fn covered(c: Seq<(Halfedge, Halfedge)>, hs: Seq<Halfedge>, news: Seq<bool>, k: int) -> bool {
        let kk = cyc(k, hs.len() as int);
        &&& news[k] ==> in_firsts(c, hs[k].id() as int) && in_seconds(c, opp(hs[k].id() as int))
        &&& news[kk] ==> in_seconds(c, hs[kk].id() as int) && in_firsts(c, opp(hs[kk].id() as int))
        &&& (news[k] || news[kk]) ==> in_links(c, hs[k].id() as int, hs[kk].id() as int)
    }


    /// The links `c` join halfedges that meet at one vertex, and avoid the
    /// vertices of the corners from `i` on.
    closed spec fn links_before(&self, vs: Seq<Vertex>, c: Seq<(Halfedge, Halfedge)>, i: int) -> bool {
        forall|j: int|
            0 <= j < c.len() ==> {
                &&& (#[trigger] c[j]).0.id() < self.nh()
                &&& c[j].1.id() < self.nh()
                &&& self.tgt(c[j].0.id() as int) == self.src(c[j].1.id() as int)
                &&& forall|m: int|
                    i <= m < vs.len() ==> self.tgt(c[j].0.id() as int) != #[trigger] vs[cyc(m, vs.len() as int)].id()
            }
    }

    /// At corner `i` of the face `vs`, where `hs[i]` arrives at vertex
    /// `vs[i + 1]` and `hs[i + 1]` leaves it: the outgoing halfedge that `now`
    /// stores for the vertex, and the links planned in `c` around the corner
    /// where one of the two sides is new (successors and predecessors as in
    /// `pre`).
    closed spec fn corner_planned(
        pre: Topology,
        now: Topology,
        vs: Seq<Vertex>,
        hs: Seq<Halfedge>,
        news: Seq<bool>,
        c: Seq<(Halfedge, Halfedge)>,
        i: int,
    ) -> bool {
        let n = vs.len() as int;
        let ii = cyc(i, n);
        let v = vs[ii].id() as int;
        let a = hs[i].id() as int;
        let b = hs[ii].id() as int;
        &&& now.out(v) is Some
        &&& news[i] && !news[ii] ==> now.out(v) == Some(Halfedge::at(opp(a) as nat)) && in_links(
            c,
            pre.prv(b),
            opp(a),
        )
        &&& !news[i] && news[ii] ==> now.out(v) == Some(Halfedge::at(pre.nxt(a) as nat)) && in_links(
            c,
            opp(b),
            pre.nxt(a),
        )
        &&& news[i] && news[ii] && pre.out(v) is None ==> now.out(v) == Some(Halfedge::at(opp(a) as nat))
            && in_links(c, opp(b), opp(a))
        &&& news[i] && news[ii] && pre.out(v) is Some ==> now.out(v) == pre.out(v) && in_links(
            c,
            pre.prv(pre.out(v)->Some_0.id() as int),
            opp(a),
        ) && in_links(c, opp(b), pre.out(v)->Some_0.id() as int)
    }

    /// What corner `i` of the face `vs` looks like in `fin` once its links
    /// are applied, with `pre` the state before.
    pub closed spec fn corner_linked(
        pre: Topology,
        fin: Topology,
        vs: Seq<Vertex>,
        hs: Seq<Halfedge>,
        news: Seq<bool>,
        i: int,
    ) -> bool {
        let n = vs.len() as int;
        let ii = cyc(i, n);
        let v = vs[ii].id() as int;
        let a = hs[i].id() as int;
        let b = hs[ii].id() as int;
        &&& news[i] && !news[ii] ==> fin.out(v) == Some(Halfedge::at(opp(a) as nat)) && fin.nxt(pre.prv(b))
            == opp(a)
        &&& !news[i] && news[ii] ==> fin.out(v) == Some(Halfedge::at(pre.nxt(a) as nat)) && fin.nxt(opp(b))
            == pre.nxt(a)
        &&& news[i] && news[ii] && pre.out(v) is None ==> fin.out(v) == Some(Halfedge::at(opp(a) as nat))
            && fin.nxt(opp(b)) == opp(a)
        &&& news[i] && news[ii] && pre.out(v) is Some ==> fin.out(v) == pre.out(v) && fin.nxt(
            pre.prv(pre.out(v)->Some_0.id() as int),
        ) == opp(a) && fin.nxt(opp(b)) == pre.out(v)->Some_0.id()
    }

    /// Halfedge `x` may have its successor relinked at corner `i` of the
    /// face: it is new, or the side arriving at the corner, or the boundary
    /// halfedge before the corner's existing outgoing side.
    closed spec fn corner_first(
        pre: Topology,
        vs: Seq<Vertex>,
        hs: Seq<Halfedge>,
        news: Seq<bool>,
        onh: int,
        i: int,
        x: int,
    ) -> bool {
        let n = vs.len() as int;
        let ii = cyc(i, n);
        let v = vs[ii].id() as int;
        ||| x >= onh
        ||| x == hs[i].id()
        ||| news[i] && !news[ii] && x == pre.prv(hs[ii].id() as int)
        ||| news[i] && news[ii] && pre.out(v) is Some && x == pre.prv(pre.out(v)->Some_0.id() as int)
    }

    /// Halfedge `x` may have its successor relinked at some corner of the
    /// face.
    closed spec fn planned_first(
        pre: Topology,
        vs: Seq<Vertex>,
        hs: Seq<Halfedge>,
        news: Seq<bool>,
        onh: int,
        x: int,
    ) -> bool {
        exists|i: int| 0 <= i < vs.len() && #[trigger] Self::corner_first(pre, vs, hs, news, onh, i, x)
    }

    /// What a corner plans holds in any state storing the same outgoing
    /// halfedges, and for any longer sequence of links.
    proof fn lemma_corner_frame(
        pre: Topology,
        a: Topology,
        b: Topology,
        vs: Seq<Vertex>,
        hs: Seq<Halfedge>,
        news: Seq<bool>,
        c0: Seq<(Halfedge, Halfedge)>,
        c1: Seq<(Halfedge, Halfedge)>,
        k: int,
    )
        requires
            Self::corner_planned(pre, a, vs, hs, news, c0, k),
            b.out(vs[cyc(k, vs.len() as int)].id() as int) == a.out(vs[cyc(k, vs.len() as int)].id() as int),
            c0.len() <= c1.len(),
            forall|j: int| 0 <= j < c0.len() ==> c1[j] == c0[j],
        ensures
            Self::corner_planned(pre, b, vs, hs, news, c1, k),
    {
        lemma_links_extend(c0, c1);
    }

    /// Plans the links at corner `i` of the face, where halfedge `hs[i]`
    /// arrives at vertex `vs[i + 1]` and `hs[i + 1]` leaves it; sets the
    /// outgoing halfedge of that vertex, and returns whether it needs a check.
    #[verifier::rlimit(80)]
    #[verifier::spinoff_prover]
    fn plan_corner(
        &mut self,
        vertices: &Vec<Vertex>,
        hvec: &Vec<Halfedge>,
        new_hvec: &Vec<bool>,
        i: usize,
        next_cache: &mut Vec<(Halfedge, Halfedge)>,
        Ghost(pre): Ghost<Topology>,
        Ghost(onh): Ghost<int>,
        Ghost(f): Ghost<int>,
    ) -> (adj: bool)
        requires
            pre.ready(vertices@, hvec@, new_hvec@, f, onh),
            i < vertices@.len(),
            old(self).hconn_@.len() == pre.nh(),
            forall|k: int|
                0 <= k < pre.nh() ==> {
                    &&& (#[trigger] old(self).hconn_@[k]).vertex_ == pre.hconn_@[k].vertex_
                    &&& old(self).hconn_@[k].next_halfedge_ == pre.hconn_@[k].next_halfedge_
                    &&& old(self).hconn_@[k].prev_halfedge_ == pre.hconn_@[k].prev_halfedge_
                },
            old(self).nv() == pre.nv(),
            old(self).out(vertices@[cyc(i as int, vertices@.len() as int)].id() as int) == pre.out(
                vertices@[cyc(i as int, vertices@.len() as int)].id() as int,
            ),
            pre.links_before(vertices@, old(next_cache)@, i as int),
            links_distinct(old(next_cache)@),
            pre.entries_closed(old(next_cache)@, onh),
            forall|k: int|
                0 <= k < i ==> #[trigger] Self::corner_planned(
                    pre,
                    *old(self),
                    vertices@,
                    hvec@,
                    new_hvec@,
                    old(next_cache)@,
                    k,
                ),
        ensures
            ({
                let vs = vertices@;
                let n = vs.len() as int;
                let v = vs[cyc(i as int, n)].id() as int;
                let c = final(next_cache)@;
                let c0 = old(next_cache)@;
                &&& final(self).hconn_@ == old(self).hconn_@
                &&& final(self).fconn_@ == old(self).fconn_@
                &&& final(self).defaults() == old(self).defaults()
                &&& final(self).nv() == old(self).nv()
                &&& forall|u: int| 0 <= u < pre.nv() && u != v ==> #[trigger] final(self).out(u) == old(self).out(u)
                &&& match final(self).out(v) {
                    Some(x) => x.id() < pre.nh() && pre.src(x.id() as int) == v,
                    None => true,
                }
                &&& c0.len() <= c.len()
                &&& forall|j: int| 0 <= j < c0.len() ==> c[j] == c0[j]
                &&& pre.links_before(vs, c, i + 1)
                &&& links_distinct(c)
                &&& pre.entries_closed(c, onh)
                &&& Self::covered(c, hvec@, new_hvec@, i as int)
                &&& forall|j: int| c0.len() <= j < c.len() ==> pre.tgt((#[trigger] c[j]).0.id() as int) == v
                &&& !(new_hvec@[i as int] || new_hvec@[cyc(i as int, n)]) ==> c == c0
                &&& forall|k: int|
                    0 <= k <= i ==> #[trigger] Self::corner_planned(pre, *final(self), vs, hvec@, new_hvec@, c, k)
                &&& adj ==> !(new_hvec@[i as int] || new_hvec@[cyc(i as int, n)])
                &&& forall|j: int|
                    c0.len() <= j < c.len() ==> Self::corner_first(
                        pre,
                        vs,
                        hvec@,
                        new_hvec@,
                        onh,
                        i as int,
                        (#[trigger] c[j]).0.id() as int,
                    )
            }),
    {
        let ghost vs = vertices@;
        let ghost hs = hvec@;
        let ghost news = new_hvec@;
        let ghost c0 = next_cache@;
        let n = vertices.len();
        let ii: usize = if i + 1 == n {
            0
        } else {
            i + 1
        };
        let v = vertices[ii];
        let inner_prev = hvec[i];
        let inner_next = hvec[ii];
        let ghost vi = v.id() as int;
        proof {
            assert(ii == cyc(i as int, n as int));
            assert(pre.planned_ok(vs, hs, news, onh, i as int));
            assert(pre.planned_ok(vs, hs, news, onh, ii as int));
            assert(vs[ii as int].id() < pre.nv());
            pre.lemma_counts_fit();
            assert(pre.old_vertex_ok(vi, onh));
            if !news[i as int] {
                assert(pre.old_ok(hs[i as int].id() as int, onh));
                assert(pre.halfedge_ok(hs[i as int].id() as int));
            }
            if !news[ii as int] {
                assert(pre.old_ok(hs[ii as int].id() as int, onh));
                assert(pre.halfedge_ok(hs[ii as int].id() as int));
            }
            assert forall|j: int| 0 <= j < c0.len() implies pre.tgt(c0[j].0.id() as int) != vi && pre.src(
                c0[j].1.id() as int,
            ) != vi by {
                assert(c0[j] == c0[j]);
                assert(vs[cyc(i as int, n as int)] == vs[cyc(i as int, n as int)]);
            }
        }
        let mut adj = false;
        if new_hvec[i] || new_hvec[ii] {
            let outer_prev = self.opposite_halfedge(inner_next);
            let outer_next = self.opposite_halfedge(inner_prev);
            if !new_hvec[ii] {
                let boundary_prev = self.prev_halfedge(inner_next);
                proof {
                    lemma_distinct_push(c0, (boundary_prev, outer_next));
                    lemma_links_push(c0, (boundary_prev, outer_next));
                }
                next_cache.push((boundary_prev, outer_next));
                self.set_halfedge(v, outer_next);
            } else if !new_hvec[i] {
                let boundary_next = self.next_halfedge(inner_prev);
                proof {
                    lemma_distinct_push(c0, (outer_prev, boundary_next));
                    lemma_links_push(c0, (outer_prev, boundary_next));
                }
                next_cache.push((outer_prev, boundary_next));
                self.set_halfedge(v, boundary_next);
            } else {
                match self.halfedge(v) {
                    None => {
                        self.set_halfedge(v, outer_next);
                        proof {
                            lemma_distinct_push(c0, (outer_prev, outer_next));
                            lemma_links_push(c0, (outer_prev, outer_next));
                        }
                        next_cache.push((outer_prev, outer_next));
                    },
                    Some(h) => {
                        let boundary_prev = self.prev_halfedge(h);
                        proof {
                            assert(pre.old_ok(h.id() as int, onh));
                            lemma_distinct_push(c0, (boundary_prev, outer_next));
                            lemma_links_push(c0, (boundary_prev, outer_next));
                        }
                        next_cache.push((boundary_prev, outer_next));
                        proof {
                            let c1 = next_cache@;
                            lemma_distinct_push(c1, (outer_prev, h));
                            lemma_links_push(c1, (outer_prev, h));
                        }
                        next_cache.push((outer_prev, h));
                    },
                }
            }
            proof {
                let c2 = next_cache@;
                lemma_distinct_push(c2, (inner_prev, inner_next));
                lemma_links_push(c2, (inner_prev, inner_next));
            }
            next_cache.push((inner_prev, inner_next));
            proof {
                let c = next_cache@;
                assert forall|j: int| c0.len() <= j < c.len() implies pre.tgt((#[trigger] c[j]).0.id() as int) == vi by {
                }
            }
        } else {
            adj = match self.halfedge(v) {
                Some(h) => h.idx() == inner_next.idx(),
                None => false,
            };
        }
        proof {
            let c = next_cache@;
            assert forall|j: int| c0.len() <= j < c.len() implies Self::corner_first(
                pre,
                vs,
                hs,
                news,
                onh,
                i as int,
                (#[trigger] c[j]).0.id() as int,
            ) by {
                assert(pre.planned_ok(vs, hs, news, onh, ii as int));
            }
            assert(Self::corner_planned(pre, *self, vs, hs, news, c, i as int));
            assert forall|k: int| 0 <= k <= i implies #[trigger] Self::corner_planned(
                pre,
                *self,
                vs,
                hs,
                news,
                c,
                k,
            ) by {
                if k < i {
                    lemma_cyc(k, i as int, n as int);
                    assert(vs[cyc(k, n as int)].id() < pre.nv());
                    Self::lemma_corner_frame(pre, *old(self), *self, vs, hs, news, c0, c, k);
                }
            }
        }
        adj
    }

    /// Decides the links that insert the face `f`: sets the face of its
    /// halfedges and the outgoing halfedges of its vertices, and returns the
    /// links to apply and, for each vertex, whether its outgoing halfedge
    /// needs a check.
    #[verifier::rlimit(100)]
    #[verifier::spinoff_prover]
    fn plan_links(
        &mut self,
        vertices: &Vec<Vertex>,
        hvec: &Vec<Halfedge>,
        new_hvec: &Vec<bool>,
        f: Face,
        Ghost(onh): Ghost<int>,
    ) -> (r: (Vec<(Halfedge, Halfedge)>, Vec<bool>))
        requires
            old(self).ready(vertices@, hvec@, new_hvec@, f.id() as int, onh),
        ensures
            ({
                let pre = *old(self);
                let c = r.0@;
                let hs = hvec@;
                let n = vertices@.len() as int;
                &&& final(self).nv() == pre.nv()
                &&& final(self).nh() == pre.nh()
                &&& final(self).defaults() == pre.defaults()
                &&& final(self).fconn_@ == pre.fconn_@
                &&& forall|k: int|
                    0 <= k < pre.nh() ==> {
                        &&& (#[trigger] final(self).hconn_@[k]).vertex_ == pre.hconn_@[k].vertex_
                        &&& final(self).hconn_@[k].next_halfedge_ == pre.hconn_@[k].next_halfedge_
                        &&& final(self).hconn_@[k].prev_halfedge_ == pre.hconn_@[k].prev_halfedge_
                        &&& final(self).hconn_@[k].face_ == if marked(hs, n, k) {
                            Some(f)
                        } else {
                            pre.hconn_@[k].face_
                        }
                    }
                &&& forall|u: int|
                    0 <= u < pre.nv() ==> match #[trigger] final(self).out(u) {
                        Some(x) => x.id() < pre.nh() && pre.src(x.id() as int) == u,
                        None => true,
                    }
                &&& r.1@.len() == n
                &&& pre.links_before(vertices@, c, n)
                &&& links_distinct(c)
                &&& pre.entries_closed(c, onh)
                &&& forall|h: int| onh <= h < pre.nh() ==> in_firsts(c, h) && in_seconds(c, h)
                &&& forall|i: int|
                    0 <= i < n && (new_hvec@[i] || new_hvec@[cyc(i, n)]) ==> in_links(
                        c,
                        hs[i].id() as int,
                        hs[cyc(i, n)].id() as int,
                    )
                &&& forall|i: int|
                    0 <= i < n && !(new_hvec@[i] || new_hvec@[cyc(i, n)]) ==> !in_firsts(
                        c,
                        (#[trigger] hs[i]).id() as int,
                    )
                &&& forall|k: int|
                    0 <= k < n ==> #[trigger] Self::corner_planned(pre, *final(self), vertices@, hs, new_hvec@, c, k)
                &&& forall|k: int|
                    0 <= k < n && #[trigger] r.1@[cyc(k, n)] ==> !(new_hvec@[k] || new_hvec@[cyc(k, n)])
                &&& forall|u: int|
                    0 <= u < pre.nv() && !vs_contains(vertices@, u) ==> #[trigger] final(self).out(u) == pre.out(u)
                &&& forall|x: int| in_firsts(c, x) ==> #[trigger] Self::planned_first(pre, vertices@, hs, new_hvec@, onh, x)
            }),
    {
        let n = vertices.len();
        let ghost pre = *self;
        let ghost vs = vertices@;
        let ghost hs = hvec@;
        let ghost news = new_hvec@;
        let mut next_cache: Vec<(Halfedge, Halfedge)> = Vec::new();
        let mut needs_adjust: Vec<bool> = Vec::new();
        for k in 0..n
            invariant
                needs_adjust@.len() == k,
                forall|j: int| 0 <= j < k ==> !#[trigger] needs_adjust@[j],
        {
            needs_adjust.push(false);
        }
        proof {
            assert forall|k: int| 0 <= k < n implies !#[trigger] needs_adjust@[cyc(k, n as int)] by {
                assert(0 <= cyc(k, n as int) < n);
            }
        }
        proof {
            assert forall|u: int| 0 <= u < pre.nv() implies match #[trigger] self.out(u) {
                Some(x) => x.id() < pre.nh() && pre.src(x.id() as int) == u,
                None => true,
            } by {
                assert(pre.old_vertex_ok(u, onh));
            }
        }
        for i in 0..n
            invariant
                n == vs.len(),
                vs == vertices@,
                hs == hvec@,
                news == new_hvec@,
                pre.ready(vs, hs, news, f.id() as int, onh),
                self.nv() == pre.nv(),
                self.hconn_@.len() == pre.nh(),
                self.defaults() == pre.defaults(),
                self.fconn_@ == pre.fconn_@,
                forall|k: int|
                    0 <= k < pre.nh() ==> {
                        &&& (#[trigger] self.hconn_@[k]).vertex_ == pre.hconn_@[k].vertex_
                        &&& self.hconn_@[k].next_halfedge_ == pre.hconn_@[k].next_halfedge_
                        &&& self.hconn_@[k].prev_halfedge_ == pre.hconn_@[k].prev_halfedge_
                        &&& self.hconn_@[k].face_ == if marked(hs, i as int, k) {
                            Some(f)
                        } else {
                            pre.hconn_@[k].face_
                        }
                    },
                forall|u: int|
                    0 <= u < pre.nv() ==> match #[trigger] self.out(u) {
                        Some(x) => x.id() < pre.nh() && pre.src(x.id() as int) == u,
                        None => true,
                    },
                forall|m: int|
                    i <= m < n ==> #[trigger] self.out(vs[cyc(m, n as int)].id() as int) == pre.out(
                        vs[cyc(m, n as int)].id() as int,
                    ),
                needs_adjust@.len() == n,
                pre.links_before(vs, next_cache@, i as int),
                links_distinct(next_cache@),
                pre.entries_closed(next_cache@, onh),
                forall|k: int| 0 <= k < i ==> #[trigger] Self::covered(next_cache@, hs, news, k),
                forall|k: int|
                    0 <= k < i && !(news[k] || news[cyc(k, n as int)]) ==> !in_firsts(
                        next_cache@,
                        (#[trigger] hs[k]).id() as int,
                    ),
                forall|k: int|
                    0 <= k < i ==> #[trigger] Self::corner_planned(pre, *self, vs, hs, news, next_cache@, k),
                forall|k: int|
                    0 <= k < n && #[trigger] needs_adjust@[cyc(k, n as int)] ==> k < i && !(news[k] || news[cyc(
                        k,
                        n as int,
                    )]),
                forall|u: int|
                    0 <= u < pre.nv() && !vs_contains(vs, u) ==> #[trigger] self.out(u) == pre.out(u),
                forall|j: int|
                    0 <= j < next_cache@.len() ==> #[trigger] Self::planned_first(
                        pre,
                        vs,
                        hs,
                        news,
                        onh,
                        next_cache@[j].0.id() as int,
                    ),
        {
            let ghost c0 = next_cache@;
            let ghost na0 = needs_adjust@;
            let ghost s0 = *self;
            let adj = self.plan_corner(
                vertices,
                hvec,
                new_hvec,
                i,
                &mut next_cache,
                Ghost(pre),
                Ghost(onh),
                Ghost(f.id() as int),
            );
            let ghost s1 = *self;
            let ii: usize = if i + 1 == n {
                0
            } else {
                i + 1
            };
            if adj {
                needs_adjust.set(ii, true);
            }
            let inner_prev = hvec[i];
            proof {
                assert(pre.planned_ok(vs, hs, news, onh, i as int));
            }
            self.set_face(inner_prev, f);
            proof {
                let c1 = next_cache@;
                let vi = vs[cyc(i as int, n as int)].id() as int;
                lemma_links_extend(c0, c1);
                assert forall|k: int| 0 <= k < i + 1 implies #[trigger] Self::covered(c1, hs, news, k) by {
                    if k < i {
                        assert(Self::covered(c0, hs, news, k));
                    }
                }
                assert forall|k: int|
                    0 <= k < i + 1 && !(news[k] || news[cyc(k, n as int)]) implies !in_firsts(
                    c1,
                    (#[trigger] hs[k]).id() as int,
                ) by {
                    assert(pre.planned_ok(vs, hs, news, onh, k));
                    if in_firsts(c1, hs[k].id() as int) {
                        let j = choose|j: int| 0 <= j < c1.len() && #[trigger] c1[j].0.id() == hs[k].id();
                        if j < c0.len() {
                            assert(c1[j] == c0[j]);
                            if k < i {
                                assert(in_firsts(c0, hs[k].id() as int));
                            } else {
                                assert(c0[j] == c0[j]);
                                assert(vs[cyc(k, n as int)] == vs[cyc(k, n as int)]);
                            }
                        } else {
                            assert(pre.tgt(c1[j].0.id() as int) == vi);
                            lemma_cyc(k, i as int, n as int);
                        }
                    }
                }
                assert forall|k: int| 0 <= k < i + 1 implies #[trigger] Self::corner_planned(
                    pre,
                    *self,
                    vs,
                    hs,
                    news,
                    c1,
                    k,
                ) by {
                    assert(vs[cyc(k, n as int)].id() < pre.nv());
                    Self::lemma_corner_frame(pre, s1, *self, vs, hs, news, c1, c1, k);
                }
                assert forall|k: int|
                    0 <= k < n && #[trigger] needs_adjust@[cyc(k, n as int)] implies k < i + 1 && !(news[k]
                    || news[cyc(k, n as int)]) by {
                    if cyc(k, n as int) != ii {
                        assert(needs_adjust@[cyc(k, n as int)] == na0[cyc(k, n as int)]);
                    } else {
                        if k != i {
                            lemma_cyc(k, i as int, n as int);
                        }
                    }
                }
                assert forall|u: int| 0 <= u < pre.nv() && !vs_contains(vs, u) implies #[trigger] self.out(u)
                    == pre.out(u) by {
                    if u == vi {
                        assert(vs[cyc(i as int, n as int)].id() == u);
                    }
                    assert(self.out(u) == s1.out(u));
                    assert(s1.out(u) == s0.out(u));
                }
                assert forall|j: int| 0 <= j < c1.len() implies #[trigger] Self::planned_first(
                    pre,
                    vs,
                    hs,
                    news,
                    onh,
                    c1[j].0.id() as int,
                ) by {
                    if j < c0.len() {
                        assert(c1[j] == c0[j]);
                    } else {
                        assert(Self::corner_first(pre, vs, hs, news, onh, i as int, c1[j].0.id() as int));
                    }
                }
                assert forall|m: int| i + 1 <= m < n implies #[trigger] self.out(vs[cyc(m, n as int)].id() as int)
                    == pre.out(vs[cyc(m, n as int)].id() as int) by {
                    lemma_cyc(m, i as int, n as int);
                    let u = vs[cyc(m, n as int)].id() as int;
                    assert(vs[cyc(m, n as int)].id() != vi);
                    assert(u < pre.nv());
                    assert(s1.out(u) == s0.out(u));
                    assert(self.out(u) == s1.out(u));
                    assert(s0.out(vs[cyc(m, n as int)].id() as int) == pre.out(vs[cyc(m, n as int)].id() as int));
                }
                assert forall|u: int| 0 <= u < pre.nv() implies match #[trigger] self.out(u) {
                    Some(x) => x.id() < pre.nh() && pre.src(x.id() as int) == u,
                    None => true,
                } by {
                    assert(self.out(u) == s1.out(u));
                    if u != vi {
                        assert(s1.out(u) == s0.out(u));
                    }
                }
                assert forall|k: int| 0 <= k < pre.nh() implies {
                    &&& (#[trigger] self.hconn_@[k]).vertex_ == pre.hconn_@[k].vertex_
                    &&& self.hconn_@[k].next_halfedge_ == pre.hconn_@[k].next_halfedge_
                    &&& self.hconn_@[k].prev_halfedge_ == pre.hconn_@[k].prev_halfedge_
                    &&& self.hconn_@[k].face_ == if marked(hs, i + 1, k) {
                        Some(f)
                    } else {
                        pre.hconn_@[k].face_
                    }
                } by {
                    assert(s0.hconn_@[k] == s0.hconn_@[k]);
                    if k == hs[i as int].id() {
                        assert(marked(hs, i + 1, k));
                    } else {
                        if marked(hs, i + 1, k) {
                            let j = choose|j: int| 0 <= j < i + 1 && #[trigger] hs[j].id() == k;
                            assert(marked(hs, i as int, k));
                        }
                        if marked(hs, i as int, k) {
                            let j = choose|j: int| 0 <= j < i && #[trigger] hs[j].id() == k;
                            assert(marked(hs, i + 1, k));
                        }
                    }
                }
            }
        }
        proof {
            let c = next_cache@;
            assert forall|x: int| in_firsts(c, x) implies #[trigger] Self::planned_first(pre, vs, hs, news, onh, x) by {
                let j = choose|j: int| 0 <= j < c.len() && #[trigger] c[j].0.id() == x;
                assert(Self::planned_first(pre, vs, hs, news, onh, c[j].0.id() as int));
            }
            assert forall|h: int| onh <= h < pre.nh() implies in_firsts(c, h) && in_seconds(c, h) by {
                assert(pre.fresh_ok(vs, hs, news, h));
                let i = choose|i: int|
                    0 <= i < vs.len() && #[trigger] news[i] && (h == hs[i].id() || h == opp(hs[i].id() as int));
                let p = if i == 0 {
                    n - 1
                } else {
                    i - 1
                };
                assert(cyc(p, n as int) == i);
                assert(Self::covered(c, hs, news, i));
                assert(Self::covered(c, hs, news, p));
            }
            assert forall|i: int|
                0 <= i < n && (new_hvec@[i] || new_hvec@[cyc(i, n as int)]) implies in_links(
                c,
                hs[i].id() as int,
                hs[cyc(i, n as int)].id() as int,
            ) by {
                assert(Self::covered(c, hs, news, i));
            }
        }
        (next_cache, needs_adjust)
    }

    /// Applies the links `next_cache` in order.
    fn apply_links(&mut self, next_cache: &Vec<(Halfedge, Halfedge)>)
        requires
            forall|j: int|
                0 <= j < next_cache@.len() ==> (#[trigger] next_cache@[j]).0.id() < old(self).nh()
                    && next_cache@[j].1.id() < old(self).nh(),
        ensures
            final(self).nh() == old(self).nh(),
            final(self).vconn_@ == old(self).vconn_@,
            final(self).fconn_@ == old(self).fconn_@,
            final(self).defaults() == old(self).defaults(),
            forall|k: int|
                0 <= k < old(self).nh() ==> {
                    &&& (#[trigger] final(self).hconn_@[k]).vertex_ == old(self).hconn_@[k].vertex_
                    &&& final(self).hconn_@[k].face_ == old(self).hconn_@[k].face_
                    &&& final(self).nxt(k) == succ_after(next_cache@, k, old(self).nxt(k))
                    &&& final(self).prv(k) == pred_after(next_cache@, k, old(self).prv(k))
                },
    {
        let ghost c = next_cache@;
        let ghost pre = *self;
        let mut m: usize = 0;
        while m < next_cache.len()
            invariant
                c == next_cache@,
                0 <= m <= c.len(),
                forall|j: int| 0 <= j < c.len() ==> (#[trigger] c[j]).0.id() < pre.nh() && c[j].1.id() < pre.nh(),
                self.nh() == pre.nh(),
                self.vconn_@ == pre.vconn_@,
                self.fconn_@ == pre.fconn_@,
                self.defaults() == pre.defaults(),
                forall|k: int|
                    0 <= k < pre.nh() ==> {
                        &&& (#[trigger] self.hconn_@[k]).vertex_ == pre.hconn_@[k].vertex_
                        &&& self.hconn_@[k].face_ == pre.hconn_@[k].face_
                        &&& self.nxt(k) == succ_after(c.subrange(0, m as int), k, pre.nxt(k))
                        &&& self.prv(k) == pred_after(c.subrange(0, m as int), k, pre.prv(k))
                    },
            decreases c.len() - m,
        {
            let (a, b) = next_cache[m];
            proof {
                assert(c[m as int] == (a, b));
            }
            self.set_next_halfedge(a, b);
            proof {
                let t = c.subrange(0, m + 1);
                assert(t.drop_last() =~= c.subrange(0, m as int));
                assert(t.last() == (a, b));
            }
            m = m + 1;
        }
        proof {
            assert(c.subrange(0, c.len() as int) =~= c);
        }
    }

    #[verifier::rlimit(100)]
    #[verifier::spinoff_prover]
    proof fn lemma_linked_after_succ(
        pre: Topology,
        fin: Topology,
        c: Seq<(Halfedge, Halfedge)>,
        vs: Seq<Vertex>,
        hs: Seq<Halfedge>,
        news: Seq<bool>,
        f: int,
        onh: int,
        h: int,
    )
        requires
            0 <= onh <= pre.nh(),
            pre.nh() % 2 == 0,
            forall|x: int| 0 <= x < onh ==> #[trigger] pre.old_ok(x, onh),
            0 <= h < pre.nh(),
            fin.nh() == pre.nh(),
            forall|k: int|
                0 <= k < pre.nh() ==> {
                    &&& #[trigger] fin.tgt(k) == pre.tgt(k)
                    &&& fin.nxt(k) == succ_after(c, k, pre.nxt(k))
                    &&& fin.prv(k) == pred_after(c, k, pre.prv(k))
                },
            pre.links_before(vs, c, vs.len() as int),
            links_distinct(c),
            pre.entries_closed(c, onh),
            forall|x: int| onh <= x < pre.nh() ==> in_firsts(c, x) && in_seconds(c, x),
        ensures
            0 <= fin.nxt(h) < fin.nh(),
            fin.prv(fin.nxt(h)) == h,
            fin.src(fin.nxt(h)) == fin.tgt(h),
    {
        lemma_succ_after(c, h, pre.nxt(h));
        lemma_pred_after(c, h, pre.prv(h));
        assert(fin.tgt(h) == pre.tgt(h));
        assert(fin.tgt(opp(h)) == pre.tgt(opp(h)));
        let b = fin.nxt(h);
        if in_firsts(c, h) {
            let j = choose|j: int| 0 <= j < c.len() && #[trigger] c[j].0.id() == h;
            assert(c[j] == c[j]);
            assert(0 <= b < pre.nh());
            assert(fin.tgt(b) == pre.tgt(b));
            lemma_pred_after(c, b, pre.prv(b));
            assert(fin.tgt(opp(b)) == pre.tgt(opp(b)));
            assert(fin.prv(b) == pred_after(c, b, pre.prv(b)));
        } else {
            assert(pre.old_ok(h, onh));
            assert(pre.halfedge_ok(h));
            assert(b == pre.nxt(h));
            assert(pre.old_ok(b, onh));
            assert(pre.halfedge_ok(b));
            assert(fin.tgt(b) == pre.tgt(b));
            lemma_pred_after(c, b, pre.prv(b));
            if in_seconds(c, b) {
                let k = choose|k: int| 0 <= k < c.len() && #[trigger] c[k].1.id() == b;
                assert(c[k] == c[k]);
            }
            assert(fin.tgt(opp(b)) == pre.tgt(opp(b)));
            assert(fin.prv(b) == pred_after(c, b, pre.prv(b)));
        }
    }

    #[verifier::rlimit(80)]
    #[verifier::spinoff_prover]
    proof fn lemma_linked_after_pred(
        pre: Topology,
        fin: Topology,
        c: Seq<(Halfedge, Halfedge)>,
        vs: Seq<Vertex>,
        hs: Seq<Halfedge>,
        news: Seq<bool>,
        f: int,
        onh: int,
        h: int,
    )
        requires
            0 <= onh <= pre.nh(),
            pre.nh() % 2 == 0,
            forall|x: int| 0 <= x < onh ==> #[trigger] pre.old_ok(x, onh),
            0 <= h < pre.nh(),
            fin.nh() == pre.nh(),
            forall|k: int|
                0 <= k < pre.nh() ==> {
                    &&& #[trigger] fin.tgt(k) == pre.tgt(k)
                    &&& fin.nxt(k) == succ_after(c, k, pre.nxt(k))
                    &&& fin.prv(k) == pred_after(c, k, pre.prv(k))
                },
            pre.links_before(vs, c, vs.len() as int),
            links_distinct(c),
            pre.entries_closed(c, onh),
            forall|x: int| onh <= x < pre.nh() ==> in_firsts(c, x) && in_seconds(c, x),
        ensures
            0 <= fin.prv(h) < fin.nh(),
            fin.nxt(fin.prv(h)) == h,
            fin.tgt(fin.prv(h)) == fin.src(h),
    {
        lemma_succ_after(c, h, pre.nxt(h));
        lemma_pred_after(c, h, pre.prv(h));
        assert(fin.tgt(h) == pre.tgt(h));
        assert(fin.tgt(opp(h)) == pre.tgt(opp(h)));
        let a = fin.prv(h);
        if in_seconds(c, h) {
            let j = choose|j: int| 0 <= j < c.len() && #[trigger] c[j].1.id() == h;
            assert(c[j] == c[j]);
            lemma_succ_after(c, a, pre.nxt(a));
            assert(fin.tgt(a) == pre.tgt(a));
            assert(fin.nxt(a) == succ_after(c, a, pre.nxt(a)));
        } else {
            assert(pre.old_ok(h, onh));
            assert(pre.halfedge_ok(h));
            assert(a == pre.prv(h));
            assert(pre.old_ok(a, onh));
            assert(pre.halfedge_ok(a));
            lemma_succ_after(c, a, pre.nxt(a));
            if in_firsts(c, a) {
                let k = choose|k: int| 0 <= k < c.len() && #[trigger] c[k].0.id() == a;
                assert(c[k] == c[k]);
            }
            assert(fin.tgt(a) == pre.tgt(a));
            assert(fin.nxt(a) == succ_after(c, a, pre.nxt(a)));
        }
    }

    #[verifier::rlimit(80)]
    #[verifier::spinoff_prover]
    proof fn lemma_linked_after(
        pre: Topology,
        fin: Topology,
        c: Seq<(Halfedge, Halfedge)>,
        vs: Seq<Vertex>,
        hs: Seq<Halfedge>,
        news: Seq<bool>,
        f: int,
        onh: int,
        h: int,
    )
        requires
            0 <= onh <= pre.nh(),
            pre.nh() % 2 == 0,
            forall|x: int| 0 <= x < onh ==> #[trigger] pre.old_ok(x, onh),
            0 <= h < pre.nh(),
            fin.nh() == pre.nh(),
            forall|k: int|
                0 <= k < pre.nh() ==> {
                    &&& #[trigger] fin.tgt(k) == pre.tgt(k)
                    &&& fin.nxt(k) == succ_after(c, k, pre.nxt(k))
                    &&& fin.prv(k) == pred_after(c, k, pre.prv(k))
                },
            pre.links_before(vs, c, vs.len() as int),
            links_distinct(c),
            pre.entries_closed(c, onh),
            forall|x: int| onh <= x < pre.nh() ==> in_firsts(c, x) && in_seconds(c, x),
        ensures
            fin.linked(h),
            0 <= fin.nxt(h) < fin.nh(),
            0 <= fin.prv(h) < fin.nh(),
    {
        lemma_succ_after(c, h, pre.nxt(h));
        lemma_pred_after(c, h, pre.prv(h));
        assert(fin.tgt(h) == pre.tgt(h));
        assert(fin.tgt(opp(h)) == pre.tgt(opp(h)));
        Self::lemma_linked_after_succ(pre, fin, c, vs, hs, news, f, onh, h);
        Self::lemma_linked_after_pred(pre, fin, c, vs, hs, news, f, onh, h);
    }

    /// The links planned at each corner hold once they are applied.
    #[verifier::rlimit(80)]
    proof fn lemma_corners_linked(
        pre: Topology,
        mid: Topology,
        fin: Topology,
        c: Seq<(Halfedge, Halfedge)>,
        vs: Seq<Vertex>,
        hs: Seq<Halfedge>,
        news: Seq<bool>,
    )
        requires
            forall|k: int| 0 <= k < vs.len() ==> #[trigger] Self::corner_planned(pre, mid, vs, hs, news, c, k),
            forall|k: int| 0 <= k < vs.len() ==> (#[trigger] vs[k]).id() < pre.nv(),
            pre.links_before(vs, c, vs.len() as int),
            links_distinct(c),
            fin.vconn_@ == mid.vconn_@,
            forall|k: int|
                0 <= k < pre.nh() ==> {
                    &&& #[trigger] fin.tgt(k) == pre.tgt(k)
                    &&& fin.nxt(k) == succ_after(c, k, pre.nxt(k))
                    &&& fin.prv(k) == pred_after(c, k, pre.prv(k))
                },
        ensures
            forall|k: int| 0 <= k < vs.len() ==> #[trigger] Self::corner_linked(pre, fin, vs, hs, news, k),
    {
        assert forall|x: int, y: int| in_links(c, x, y) implies fin.nxt(x) == y by {
            let j = choose|j: int| 0 <= j < c.len() && #[trigger] c[j].0.id() == x && c[j].1.id() == y;
            assert(c[j] == c[j]);
            lemma_succ_after(c, x, pre.nxt(x));
            assert(fin.tgt(x) == pre.tgt(x));
        }
        assert forall|k: int| 0 <= k < vs.len() implies #[trigger] Self::corner_linked(pre, fin, vs, hs, news, k) by {
            assert(Self::corner_planned(pre, mid, vs, hs, news, c, k));
            let u = vs[cyc(k, vs.len() as int)].id() as int;
            assert(mid.out(u) == fin.out(u));
        }
    }

    /// After the links are planned, the vertex that a halfedge points to
    /// stores an outgoing halfedge.
    proof fn lemma_out_some(
        pre: Topology,
        mid: Topology,
        fin: Topology,
        vs: Seq<Vertex>,
        hs: Seq<Halfedge>,
        news: Seq<bool>,
        c: Seq<(Halfedge, Halfedge)>,
        f: int,
        onh: int,
        h: int,
    )
        requires
            pre.ready(vs, hs, news, f, onh),
            forall|k: int| 0 <= k < vs.len() ==> #[trigger] Self::corner_planned(pre, mid, vs, hs, news, c, k),
            fin.vconn_@ == mid.vconn_@,
            forall|u: int| 0 <= u < pre.nv() && !vs_contains(vs, u) ==> #[trigger] mid.out(u) == pre.out(u),
            0 <= h < pre.nh(),
            fin.tgt(h) == pre.tgt(h),
        ensures
            fin.out(fin.tgt(h)) is Some,
    {
        let n = vs.len() as int;
        let u = pre.tgt(h);
        assert(fin.out(u) == mid.out(u));
        if vs_contains(vs, u) {
            let j = choose|j: int| 0 <= j < n && #[trigger] vs[j].id() == u;
            let k = if j == 0 {
                n - 1
            } else {
                j - 1
            };
            assert(cyc(k, n) == j);
            assert(Self::corner_planned(pre, mid, vs, hs, news, c, k));
        } else if h < onh {
            assert(pre.old_ok(h, onh));
            assert(pre.halfedge_ok(h));
        } else {
            assert(pre.fresh_ok(vs, hs, news, h));
            let i = choose|i: int| 0 <= i < n && #[trigger] news[i] && (h == hs[i].id() || h == opp(hs[i].id() as int));
            assert(pre.planned_ok(vs, hs, news, onh, i));
            if h == hs[i].id() {
                assert(vs[cyc(i, n)].id() == u);
            } else {
                assert(vs[i].id() == u);
            }
        }
    }

    /// Links the face `f`, whose new edges and record are in place, into the
    /// topology, and restores the invariant.
    #[verifier::rlimit(80)]
    #[verifier::spinoff_prover]
    fn link_face(
        &mut self,
        vertices: &Vec<Vertex>,
        hvec: &Vec<Halfedge>,
        new_hvec: &Vec<bool>,
        f: Face,
        Ghost(onh): Ghost<int>,
    )
        requires
            old(self).ready(vertices@, hvec@, new_hvec@, f.id() as int, onh),
        ensures
            final(self).wf(),
            final(self).nv() == old(self).nv(),
            final(self).nh() == old(self).nh(),
            final(self).nf() == old(self).nf(),
            forall|k: int| 0 <= k < old(self).nh() ==> #[trigger] final(self).tgt(k) == old(self).tgt(k),
            forall|k: int|
                0 <= k < old(self).nh() ==> #[trigger] final(self).fc(k) == if marked(
                    hvec@,
                    vertices@.len() as int,
                    k,
                ) {
                    Some(f)
                } else {
                    old(self).fc(k)
                },
            forall|g: int| 0 <= g < old(self).nf() ==> #[trigger] final(self).fstart(g) == old(self).fstart(g),
            forall|i: int|
                0 <= i < vertices@.len() && (new_hvec@[i] || new_hvec@[cyc(i, vertices@.len() as int)])
                    ==> #[trigger] final(self).nxt(hvec@[i].id() as int) == hvec@[cyc(
                    i,
                    vertices@.len() as int,
                )].id(),
            forall|i: int|
                0 <= i < vertices@.len() && !(new_hvec@[i] || new_hvec@[cyc(i, vertices@.len() as int)])
                    ==> #[trigger] final(self).nxt(hvec@[i].id() as int) == old(self).nxt(hvec@[i].id() as int),
            forall|k: int|
                0 <= k < vertices@.len() ==> #[trigger] Self::corner_linked(
                    *old(self),
                    *final(self),
                    vertices@,
                    hvec@,
                    new_hvec@,
                    k,
                ),
            forall|u: int|
                0 <= u < old(self).nv() && !vs_contains(vertices@, u) ==> #[trigger] final(self).out(u) == old(
                    self,
                ).out(u),
            forall|k: int|
                0 <= k < old(self).nh() && !Self::planned_first(
                    *old(self),
                    vertices@,
                    hvec@,
                    new_hvec@,
                    onh,
                    k,
                ) ==> #[trigger] final(self).nxt(k) == old(self).nxt(k),
    {
        let ghost pre = *self;
        let ghost vs = vertices@;
        let ghost hs = hvec@;
        let ghost news = new_hvec@;
        let n = vertices.len();
        let (next_cache, needs_adjust) = self.plan_links(vertices, hvec, new_hvec, f, Ghost(onh));
        let ghost mid = *self;
        proof {
            let c = next_cache@;
            assert forall|j: int| 0 <= j < c.len() implies (#[trigger] c[j]).0.id() < self.nh() && c[j].1.id()
                < self.nh() by {
                assert(c[j] == c[j]);
            }
        }
        self.apply_links(&next_cache);
        proof {
            let c = next_cache@;
            let fin = *self;
            assert forall|k: int| 0 <= k < pre.nh() implies {
                &&& #[trigger] fin.tgt(k) == pre.tgt(k)
                &&& fin.nxt(k) == succ_after(c, k, pre.nxt(k))
                &&& fin.prv(k) == pred_after(c, k, pre.prv(k))
            } by {
                assert(fin.hconn_@[k] == fin.hconn_@[k]);
                assert(mid.hconn_@[k] == mid.hconn_@[k]);
            }
            assert forall|h: int| #![trigger self.linked(h)] #![trigger self.halfedge_ok(h)] 0 <= h < self.nh() implies self.linked(h) && self.halfedge_ok(h) by {
                Self::lemma_linked_after(pre, fin, c, vs, hs, news, f.id() as int, onh, h);
                Self::lemma_out_some(pre, mid, fin, vs, hs, news, c, f.id() as int, onh, h);
                assert(fin.hconn_@[h] == fin.hconn_@[h]);
                assert(mid.hconn_@[h] == mid.hconn_@[h]);
                if h < onh {
                    assert(pre.old_ok(h, onh));
                    assert(pre.halfedge_ok(h));
                } else {
                    assert(pre.fresh_ok(vs, hs, news, h));
                }
            }
            assert forall|u: int| 0 <= u < self.nv() implies #[trigger] self.vertex_ok(u) by {
                assert(mid.out(u) == self.out(u));
                if let Some(x) = self.out(u) {
                    assert(fin.tgt(opp(x.id() as int)) == pre.tgt(opp(x.id() as int)));
                }
            }
            assert forall|g: int| 0 <= g < self.nf() implies #[trigger] self.face_ok(g) by {
                let s = self.fstart(g);
                if g < f.id() {
                    assert(pre.face_ok(g));
                    assert(fin.hconn_@[s] == fin.hconn_@[s]);
                    assert(mid.hconn_@[s] == mid.hconn_@[s]);
                    if marked(hs, n as int, s) {
                        let j = choose|j: int| 0 <= j < n && #[trigger] hs[j].id() == s;
                        assert(pre.planned_ok(vs, hs, news, onh, j));
                    }
                } else {
                    assert(hs[n - 1].id() == s);
                    assert(marked(hs, n as int, s));
                    assert(pre.planned_ok(vs, hs, news, onh, n - 1));
                    assert(fin.hconn_@[s] == fin.hconn_@[s]);
                    assert(mid.hconn_@[s] == mid.hconn_@[s]);
                }
            }
            assert forall|i: int|
                0 <= i < n && (news[i] || news[cyc(i, n as int)]) implies #[trigger] fin.nxt(hs[i].id() as int)
                == hs[cyc(i, n as int)].id() by {
                let k = hs[i].id() as int;
                assert(pre.planned_ok(vs, hs, news, onh, i));
                assert(in_links(c, k, hs[cyc(i, n as int)].id() as int));
                let j = choose|j: int| 0 <= j < c.len() && #[trigger] c[j].0.id() == k && c[j].1.id() == hs[cyc(i, n as int)].id();
                lemma_succ_after(c, k, pre.nxt(k));
                assert(fin.hconn_@[k] == fin.hconn_@[k]);
            }
            assert forall|i: int|
                0 <= i < n && !(news[i] || news[cyc(i, n as int)]) implies #[trigger] fin.nxt(hs[i].id() as int)
                == pre.nxt(hs[i].id() as int) by {
                let k = hs[i].id() as int;
                assert(pre.planned_ok(vs, hs, news, onh, i));
                lemma_succ_after(c, k, pre.nxt(k));
                assert(fin.hconn_@[k] == fin.hconn_@[k]);
                assert(mid.hconn_@[k] == mid.hconn_@[k]);
            }
        }
        let ghost fin = *self;
        proof {
            Self::lemma_corners_linked(pre, mid, fin, next_cache@, vs, hs, news);
            assert forall|k: int|
                0 <= k < pre.nh() && !Self::planned_first(pre, vs, hs, news, onh, k) implies #[trigger] fin.nxt(k)
                == pre.nxt(k) by {
                let c = next_cache@;
                lemma_succ_after(c, k, pre.nxt(k));
                assert(fin.tgt(k) == pre.tgt(k));
            }
            assert forall|u: int| 0 <= u < pre.nv() && !vs_contains(vs, u) implies #[trigger] fin.out(u) == pre.out(
                u,
            ) by {
                assert(mid.out(u) == fin.out(u));
            }
        }
        for i in 0..n
            invariant
                n == vertices@.len(),
                vs == vertices@,
                needs_adjust@.len() == n,
                distinct_vertices(vs),
                forall|j: int| 0 <= j < n ==> #[trigger] vertices@[j].id() < self.nv(),
                self.wf(),
                self.hconn_@ == fin.hconn_@,
                self.fconn_@ == fin.fconn_@,
                self.nv() == fin.nv(),
                forall|k: int|
                    0 <= k < n && !needs_adjust@[cyc(k, n as int)] ==> #[trigger] self.out(
                        vs[cyc(k, n as int)].id() as int,
                    ) == fin.out(vs[cyc(k, n as int)].id() as int),
                forall|u: int| 0 <= u < fin.nv() && !vs_contains(vs, u) ==> #[trigger] self.out(u) == fin.out(u),
        {
            if needs_adjust[i] {
                let ghost before = *self;
                self.adjust_outgoing_halfedge(vertices[i]);
                proof {
                    assert forall|k: int|
                        0 <= k < n && !needs_adjust@[cyc(k, n as int)] implies #[trigger] self.out(
                        vs[cyc(k, n as int)].id() as int,
                    ) == fin.out(vs[cyc(k, n as int)].id() as int) by {
                        let u = vs[cyc(k, n as int)].id() as int;
                        assert(cyc(k, n as int) != i);
                        assert(u != vs[i as int].id());
                        assert(before.out(u) == fin.out(u));
                    }
                    assert forall|u: int| 0 <= u < fin.nv() && !vs_contains(vs, u) implies #[trigger] self.out(u)
                        == fin.out(u) by {
                        if u == vs[i as int].id() {
                            assert(vs_contains(vs, u));
                        }
                        assert(before.out(u) == fin.out(u));
                    }
                }
            }
        }
        proof {
            assert forall|k: int| 0 <= k < n implies #[trigger] Self::corner_linked(pre, *self, vs, hs, news, k) by {
                assert(Self::corner_linked(pre, fin, vs, hs, news, k));
                if news[k] || news[cyc(k, n as int)] {
                    assert(!needs_adjust@[cyc(k, n as int)]);
                    assert(self.out(vs[cyc(k, n as int)].id() as int) == fin.out(vs[cyc(k, n as int)].id() as int));
                }
                assert(fin.hconn_@ == self.hconn_@);
            }
        }
        proof {
            assert forall|k: int| 0 <= k < pre.nh() implies #[trigger] self.tgt(k) == pre.tgt(k) && self.fc(k)
                == if marked(hs, n as int, k) {
                Some(f)
            } else {
                pre.fc(k)
            } by {
                assert(fin.hconn_@[k] == fin.hconn_@[k]);
                assert(mid.hconn_@[k] == mid.hconn_@[k]);
            }
        }
    }

    /// The two topologies hold the same records.
    pub closed spec fn same_records(&self, other: &Topology) -> bool {
        &&& self.vconn_@ == other.vconn_@
        &&& self.hconn_@ == other.hconn_@
        &&& self.fconn_@ == other.fconn_@
        &&& self.defaults() == other.defaults()
    }

    /// A topology with the records of a well-formed one is well-formed.
    pub proof fn lemma_same_records(a: &Topology, b: &Topology)
        requires
            a.wf(),
            b.same_records(a),
        ensures
            b.wf(),
            b.nv() == a.nv(),
            b.nh() == a.nh(),
            b.nf() == a.nf(),
    {
        assert forall|u: int| 0 <= u < b.nv() implies #[trigger] b.vertex_ok(u) by {
            assert(a.vertex_ok(u));
        }
        assert forall|k: int| 0 <= k < b.nh() implies #[trigger] b.halfedge_ok(k) by {
            assert(a.halfedge_ok(k));
        }
        assert forall|k: int| 0 <= k < b.nh() implies #[trigger] b.linked(k) by {
            assert(a.linked(k));
        }
        assert forall|g: int| 0 <= g < b.nf() implies #[trigger] b.face_ok(g) by {
            assert(a.face_ok(g));
        }
    }

    /// The halfedges met from `curr` on in clockwise steps around the vertex
    /// they leave, until `end` comes back after a first step, or `fuel`
    /// halfedges were met.
    pub open spec fn vertex_ring_from(&self, curr: int, end: int, active: bool, fuel: nat) -> Seq<int>
        decreases fuel,
    {
        if active && curr == end {
            Seq::empty()
        } else if fuel == 0 {
            Seq::empty()
        } else {
            seq![curr] + self.vertex_ring_from(self.cw(curr), end, true, (fuel - 1) as nat)
        }
    }

    /// The halfedges met from `curr` on in successor steps along a loop,
    /// until `end` comes back after a first step, or `fuel` halfedges were
    /// met.
    pub open spec fn face_ring_from(&self, curr: int, end: int, active: bool, fuel: nat) -> Seq<int>
        decreases fuel,
    {
        if active && curr == end {
            Seq::empty()
        } else if fuel == 0 {
            Seq::empty()
        } else {
            seq![curr] + self.face_ring_from(self.nxt(curr), end, true, (fuel - 1) as nat)
        }
    }

    /// The outgoing halfedges of vertex `v`, clockwise from its stored one;
    /// none for an isolated vertex.
    pub open spec fn vertex_ring(&self, v: int) -> Seq<int> {
        match self.out(v) {
            Some(h) => self.vertex_ring_from(h.id() as int, h.id() as int, false, self.nh()),
            None => Seq::empty(),
        }
    }

    /// The halfedges of the loop of face `f`, from its stored one.
    pub open spec fn face_ring(&self, f: int) -> Seq<int> {
        self.face_ring_from(self.fstart(f), self.fstart(f), false, self.nh())
    }

    /// The vertices of face `f`, in the order of its loop.
    pub open spec fn face_vertices(&self, f: int) -> Seq<int> {
        self.face_ring(f).map_values(|h: int| self.tgt(h))
    }

    /// The first halfedge with a face among the outgoing halfedges of `v`,
    /// clockwise from its stored one; none where `v` is isolated or no such
    /// halfedge is met.
    pub open spec fn fan_start(&self, v: int) -> Option<int> {
        match self.out(v) {
            Some(h) => self.face_from(h.id() as int, self.nh()),
            None => None,
        }
    }

    /// The halfedges with a face met from `curr` on, each step going clockwise
    /// to the next halfedge with a face, until `end` comes back after a first
    /// step, or `fuel` halfedges were met.
    pub open spec fn fan_from(&self, curr: int, end: int, active: bool, fuel: nat) -> Seq<int>
        decreases fuel,
    {
        if active && curr == end {
            Seq::empty()
        } else if fuel == 0 {
            Seq::empty()
        } else {
            match self.face_from(self.cw(curr), self.nh()) {
                Some(n) => seq![curr] + self.fan_from(n, end, true, (fuel - 1) as nat),
                None => seq![curr],
            }
        }
    }

    /// The outgoing halfedges of vertex `v` that have a face, whose faces the
    /// walk around `v` yields in order.
    pub open spec fn fan(&self, v: int) -> Seq<int> {
        match self.fan_start(v) {
            Some(h) => self.fan_from(h, h, false, self.nh()),
            None => Seq::empty(),
        }
    }

    /// The first halfedge with a face from `h` on in clockwise steps, within
    /// `fuel` steps.
    pub open spec fn face_from(&self, h: int, fuel: nat) -> Option<int>
        decreases fuel,
    {
        if !self.boundary(h) {
            Some(h)
        } else if fuel == 0 {
            None
        } else {
            self.face_from(self.cw(h), (fuel - 1) as nat)
        }
    }

    /// A halfedge that `face_from` gives exists and has a face.
    pub proof fn lemma_face_from(&self, h: int, fuel: nat)
        requires
            self.wf(),
            0 <= h < self.nh(),
        ensures
            self.face_from(h, fuel) matches Some(r) ==> 0 <= r < self.nh() && !self.boundary(r),
        decreases fuel,
    {
        self.lemma_halfedge(h);
        self.lemma_halfedge(opp(h));
        if self.boundary(h) && fuel > 0 {
            self.lemma_face_from(self.cw(h), (fuel - 1) as nat);
        }
    }

    /// A topology whose records of the first `t0.nh()` halfedges, its vertex
    /// records and its first faces are those of `t0` keeps what `t0` states
    /// of them.
    proof fn lemma_old_records(t0: &Topology, t1: &Topology, h: int)
        requires
            t0.wf(),
            0 <= h < t0.nh(),
            t0.nh() <= t1.nh(),
            t1.hconn_@.subrange(0, t0.nh() as int) == t0.hconn_@,
            t1.vconn_@ == t0.vconn_@,
            t0.nf() <= t1.nf(),
        ensures
            t1.old_ok(h, t0.nh() as int),
            t1.tgt(h) == t0.tgt(h),
            t1.src(h) == t0.src(h),
            t1.fc(h) == t0.fc(h),
            t1.nxt(h) == t0.nxt(h),
            t1.prv(h) == t0.prv(h),
    {
        t0.lemma_halfedge(h);
        t0.lemma_halfedge(opp(h));
        let a = t0.nxt(h);
        let b = t0.prv(h);
        t0.lemma_halfedge(a);
        t0.lemma_halfedge(b);
        let sub = t1.hconn_@.subrange(0, t0.nh() as int);
        assert(sub[h] == t1.hconn_@[h]);
        assert(sub[opp(h)] == t1.hconn_@[opp(h)]);
        assert(sub[a] == t1.hconn_@[a]);
        assert(sub[b] == t1.hconn_@[b]);
        assert(sub[opp(a)] == t1.hconn_@[opp(a)]);
    }

    /// Topologies with the same records have the same elements and records.
    pub proof fn lemma_same_records_same(a: &Topology, b: &Topology)
        requires
            b.same_records(a),
        ensures
            same_topology(*b, *a),
    {
    }

    /// Appends an isolated vertex.
    fn push_vertex(&mut self) -> (r: Vertex)
        requires
            old(self).wf(),
            old(self).nv() < usize::MAX,
        ensures
            final(self).wf(),
            r.id() == old(self).nv(),
            final(self).nv() == old(self).nv() + 1,
            final(self).out(r.id() as int) is None,
            forall|u: int| 0 <= u < old(self).nv() ==> #[trigger] final(self).out(u) == old(self).out(u),
            final(self).hconn_@ == old(self).hconn_@,
            final(self).fconn_@ == old(self).fconn_@,
            final(self).hconn_.room() == old(self).hconn_.room(),
            final(self).fconn_.room() == old(self).fconn_.room(),
            final(self).vconn_.room() == if old(self).vconn_.room() > old(self).nv() {
                old(self).vconn_.room()
            } else {
                old(self).nv() + 1
            },
    {
        self.vconn_.push();
        let v = Vertex::new(self.vconn_.len() - 1);
        proof {
            assert forall|u: int| 0 <= u < self.nv() implies #[trigger] self.vertex_ok(u) by {
                if u < old(self).nv() {
                    assert(old(self).vertex_ok(u));
                }
            }
            assert forall|k: int| 0 <= k < self.nh() implies #[trigger] self.halfedge_ok(k) by {
                assert(old(self).halfedge_ok(k));
            }
            assert forall|k: int| 0 <= k < self.nh() implies #[trigger] self.linked(k) by {
                assert(old(self).linked(k));
            }
            assert forall|g: int| 0 <= g < self.nf() implies #[trigger] self.face_ok(g) by {
                assert(old(self).face_ok(g));
            }
        }
        v
    }
}

/// A kind of element, and the property container of its kind in a mesh's
/// properties.
pub trait ElementKind: Sized + 'static {
    /// The container of this kind in `p`.
    spec fn container(p: Properties) -> PropertyContainer<Handle<Self>>;

    /// `p` with the container of this kind replaced by `c`.
    spec fn with_container(p: Properties, c: PropertyContainer<Handle<Self>>) -> Properties;

    /// Returns the container of this kind.
    fn container_ref(p: &Properties) -> (r: &PropertyContainer<Handle<Self>>)
        ensures
            *r == Self::container(*p),
    ;

    /// Returns mutable access to the container of this kind.
    fn container_mut(p: &mut Properties) -> (r: &mut PropertyContainer<Handle<Self>>)
        ensures
            *r == Self::container(*old(p)),
            *final(p) == Self::with_container(*old(p), *final(r)),
            Self::container(*final(p)) == *final(r),
    ;
}

impl ElementKind for PhantomVertex {
    open spec fn container(p: Properties) -> PropertyContainer<Handle<PhantomVertex>> {
        p.vprop_
    }

    open spec fn with_container(p: Properties, c: PropertyContainer<Handle<PhantomVertex>>) -> Properties {
        Properties { vprop_: c, ..p }
    }

    fn container_ref(p: &Properties) -> (r: &PropertyContainer<Handle<PhantomVertex>>) {
        &p.vprop_
    }

    fn container_mut(p: &mut Properties) -> (r: &mut PropertyContainer<Handle<PhantomVertex>>) {
        &mut p.vprop_
    }
}

impl ElementKind for PhantomFace {
    open spec fn container(p: Properties) -> PropertyContainer<Handle<PhantomFace>> {
        p.fprop_
    }

    open spec fn with_container(p: Properties, c: PropertyContainer<Handle<PhantomFace>>) -> Properties {
        Properties { fprop_: c, ..p }
    }

    fn container_ref(p: &Properties) -> (r: &PropertyContainer<Handle<PhantomFace>>) {
        &p.fprop_
    }

    fn container_mut(p: &mut Properties) -> (r: &mut PropertyContainer<Handle<PhantomFace>>) {
        &mut p.fprop_
    }
}

impl ElementKind for PhantomEdge {
    open spec fn container(p: Properties) -> PropertyContainer<Handle<PhantomEdge>> {
        p.eprop_
    }

    open spec fn with_container(p: Properties, c: PropertyContainer<Handle<PhantomEdge>>) -> Properties {
        Properties { eprop_: c, ..p }
    }

    fn container_ref(p: &Properties) -> (r: &PropertyContainer<Handle<PhantomEdge>>) {
        &p.eprop_
    }

    fn container_mut(p: &mut Properties) -> (r: &mut PropertyContainer<Handle<PhantomEdge>>) {
        &mut p.eprop_
    }
}

impl ElementKind for PhantomHalfedge {
    open spec fn container(p: Properties) -> PropertyContainer<Handle<PhantomHalfedge>> {
        p.hprop_
    }

    open spec fn with_container(p: Properties, c: PropertyContainer<Handle<PhantomHalfedge>>) -> Properties {
        Properties { hprop_: c, ..p }
    }

    fn container_ref(p: &Properties) -> (r: &PropertyContainer<Handle<PhantomHalfedge>>) {
        &p.hprop_
    }

    fn container_mut(p: &mut Properties) -> (r: &mut PropertyContainer<Handle<PhantomHalfedge>>) {
        &mut p.hprop_
    }
}

/// The property columns of the four kinds of elements of a mesh.
pub struct Properties {
    pub vprop_: PropertyContainer<Vertex>,
    pub hprop_: PropertyContainer<Halfedge>,
    pub eprop_: PropertyContainer<Edge>,
    pub fprop_: PropertyContainer<Face>,
}

impl Properties {
    /// The four containers keep their invariants.
    pub open spec fn wf(&self) -> bool {
        &&& self.vprop_.wf()
        &&& self.hprop_.wf()
        &&& self.eprop_.wf()
        &&& self.fprop_.wf()
    }

    /// The value of property `prop` at element `h` of its kind.
    pub fn access<T: ElementKind, D: PropertyValue>(&self, prop: Handle<(T, D)>, h: Handle<T>) -> (r: &D)
        requires
            T::container(*self).wf(),
            T::container(*self).holds(prop),
            h.id() < T::container(*self).size(),
        ensures
            *r == T::container(*self).values(prop)[h.id() as int],
    {
        T::container_ref(self).access(prop, h)
    }

    /// Mutable access to the value of property `prop` at element `h` of its
    /// kind; the other kinds' containers are unchanged.
    pub fn access_mut<T: ElementKind, D: PropertyValue>(&mut self, prop: Handle<(T, D)>, h: Handle<T>) -> (r: &mut D)
        requires
            T::container(*old(self)).wf(),
            T::container(*old(self)).holds(prop),
            h.id() < T::container(*old(self)).size(),
        ensures
            *r == T::container(*old(self)).values(prop)[h.id() as int],
            *final(self) == T::with_container(*old(self), T::container(*final(self))),
            T::container(*final(self)).holds(prop),
            T::container(*final(self)).values(prop) == T::container(*old(self)).values(prop).update(
                h.id() as int,
                *final(r),
            ),
            T::container(*final(self)).default_of(prop) == T::container(*old(self)).default_of(prop),
            T::container(*final(self)).size() == T::container(*old(self)).size(),
            T::container(*final(self)).n_props() == T::container(*old(self)).n_props(),
    {
        T::container_mut(self).access_mut(prop, h)
    }

    /// Constructs four containers without columns and without elements.
    pub fn new() -> (r: Properties)
        ensures
            r.wf(),
            r.vprop_.size() == 0 && r.vprop_.n_props() == 0,
            r.hprop_.size() == 0 && r.hprop_.n_props() == 0,
            r.eprop_.size() == 0 && r.eprop_.n_props() == 0,
            r.fprop_.size() == 0 && r.fprop_.n_props() == 0,
    {
        Properties {
            vprop_: PropertyContainer::new(),
            hprop_: PropertyContainer::new(),
            eprop_: PropertyContainer::new(),
            fprop_: PropertyContainer::new(),
        }
    }

    /// Adds a vertex property named `name` whose values, present and new,
    /// start as `default_value`; none where a vertex property of that name
    /// exists.
    pub fn add_vertex_property<D: PropertyValue>(&mut self, name: &'static str, default_value: D) -> (r: Option<PropertyVertex<D>>)
        requires
            old(self).wf(),
        ensures
            final(self).wf(),
            final(self).hprop_ == old(self).hprop_,
            final(self).eprop_ == old(self).eprop_,
            final(self).fprop_ == old(self).fprop_,
            final(self).vprop_.size() == old(self).vprop_.size(),
            final(self).vprop_.reserved() == old(self).vprop_.reserved(),
            old(self).vprop_.has_name(name.spec_bytes()) <==> r is None,
            r is None ==> final(self).vprop_.n_props() == old(self).vprop_.n_props(),
            forall|i: int|
                #![trigger final(self).vprop_.col(i)]
                #![trigger final(self).vprop_.name(i)]
                0 <= i < old(self).vprop_.n_props() ==> final(self).vprop_.col(i) == old(self).vprop_.col(i)
                    && final(self).vprop_.name(i) == old(self).vprop_.name(i),
            r matches Some(p) ==> {
                &&& p.id() == old(self).vprop_.n_props()
                &&& final(self).vprop_.n_props() == old(self).vprop_.n_props() + 1
                &&& final(self).vprop_.name(p.id() as int) == name.spec_bytes()
                &&& D::data_of(final(self).vprop_.col(p.id() as int)) == Some(
                    (default_value, Seq::new(old(self).vprop_.size(), |k: int| default_value)),
                )
            },
    {
        self.vprop_.add::<D>(name, default_value)
    }

    /// Looks up the vertex property named `name` whose values have type `D`.
    pub fn get_vertex_property<D: PropertyValue>(&self, name: &'static str) -> (r: Option<PropertyVertex<D>>)
        requires
            self.wf(),
        ensures
            r matches Some(p) ==> self.vprop_.holds(p) && self.vprop_.name(p.id() as int) == name.spec_bytes(),
            r is None ==> forall|i: int|
                0 <= i < self.vprop_.n_props() ==> !(#[trigger] self.vprop_.name(i) == name.spec_bytes()
                    && D::data_of(self.vprop_.col(i)) is Some),
    {
        self.vprop_.get::<D>(name)
    }

    /// Adds a face property named `name` whose values, present and new,
    /// start as `default_value`; none where a face property of that name
    /// exists.
    pub fn add_face_property<D: PropertyValue>(&mut self, name: &'static str, default_value: D) -> (r: Option<PropertyFace<D>>)
        requires
            old(self).wf(),
        ensures
            final(self).wf(),
            final(self).vprop_ == old(self).vprop_,
            final(self).hprop_ == old(self).hprop_,
            final(self).eprop_ == old(self).eprop_,
            final(self).fprop_.size() == old(self).fprop_.size(),
            final(self).fprop_.reserved() == old(self).fprop_.reserved(),
            old(self).fprop_.has_name(name.spec_bytes()) <==> r is None,
            r is None ==> final(self).fprop_.n_props() == old(self).fprop_.n_props(),
            forall|i: int|
                #![trigger final(self).fprop_.col(i)]
                #![trigger final(self).fprop_.name(i)]
                0 <= i < old(self).fprop_.n_props() ==> final(self).fprop_.col(i) == old(self).fprop_.col(i)
                    && final(self).fprop_.name(i) == old(self).fprop_.name(i),
            r matches Some(p) ==> {
                &&& p.id() == old(self).fprop_.n_props()
                &&& final(self).fprop_.n_props() == old(self).fprop_.n_props() + 1
                &&& final(self).fprop_.name(p.id() as int) == name.spec_bytes()
                &&& D::data_of(final(self).fprop_.col(p.id() as int)) == Some(
                    (default_value, Seq::new(old(self).fprop_.size(), |k: int| default_value)),
                )
            },
    {
        self.fprop_.add::<D>(name, default_value)
    }

    /// Looks up the face property named `name` whose values have type `D`.
    pub fn get_face_property<D: PropertyValue>(&self, name: &'static str) -> (r: Option<PropertyFace<D>>)
        requires
            self.wf(),
        ensures
            r matches Some(p) ==> self.fprop_.holds(p) && self.fprop_.name(p.id() as int) == name.spec_bytes(),
            r is None ==> forall|i: int|
                0 <= i < self.fprop_.n_props() ==> !(#[trigger] self.fprop_.name(i) == name.spec_bytes()
                    && D::data_of(self.fprop_.col(i)) is Some),
    {
        self.fprop_.get::<D>(name)
    }

    /// Adds a edge property named `name` whose values, present and new,
    /// start as `default_value`; none where a edge property of that name
    /// exists.
    pub fn add_edge_property<D: PropertyValue>(&mut self, name: &'static str, default_value: D) -> (r: Option<PropertyEdge<D>>)
        requires
            old(self).wf(),
        ensures
            final(self).wf(),
            final(self).vprop_ == old(self).vprop_,
            final(self).hprop_ == old(self).hprop_,
            final(self).fprop_ == old(self).fprop_,
            final(self).eprop_.size() == old(self).eprop_.size(),
            final(self).eprop_.reserved() == old(self).eprop_.reserved(),
            old(self).eprop_.has_name(name.spec_bytes()) <==> r is None,
            r is None ==> final(self).eprop_.n_props() == old(self).eprop_.n_props(),
            forall|i: int|
                #![trigger final(self).eprop_.col(i)]
                #![trigger final(self).eprop_.name(i)]
                0 <= i < old(self).eprop_.n_props() ==> final(self).eprop_.col(i) == old(self).eprop_.col(i)
                    && final(self).eprop_.name(i) == old(self).eprop_.name(i),
            r matches Some(p) ==> {
                &&& p.id() == old(self).eprop_.n_props()
                &&& final(self).eprop_.n_props() == old(self).eprop_.n_props() + 1
                &&& final(self).eprop_.name(p.id() as int) == name.spec_bytes()
                &&& D::data_of(final(self).eprop_.col(p.id() as int)) == Some(
                    (default_value, Seq::new(old(self).eprop_.size(), |k: int| default_value)),
                )
            },
    {
        self.eprop_.add::<D>(name, default_value)
    }

    /// Looks up the edge property named `name` whose values have type `D`.
    pub fn get_edge_property<D: PropertyValue>(&self, name: &'static str) -> (r: Option<PropertyEdge<D>>)
        requires
            self.wf(),
        ensures
            r matches Some(p) ==> self.eprop_.holds(p) && self.eprop_.name(p.id() as int) == name.spec_bytes(),
            r is None ==> forall|i: int|
                0 <= i < self.eprop_.n_props() ==> !(#[trigger] self.eprop_.name(i) == name.spec_bytes()
                    && D::data_of(self.eprop_.col(i)) is Some),
    {
        self.eprop_.get::<D>(name)
    }

    /// Adds a halfedge property named `name` whose values, present and new,
    /// start as `default_value`; none where a halfedge property of that name
    /// exists.
    pub fn add_halfedge_property<D: PropertyValue>(&mut self, name: &'static str, default_value: D) -> (r: Option<PropertyHalfedge<D>>)
        requires
            old(self).wf(),
        ensures
            final(self).wf(),
            final(self).vprop_ == old(self).vprop_,
            final(self).eprop_ == old(self).eprop_,
            final(self).fprop_ == old(self).fprop_,
            final(self).hprop_.size() == old(self).hprop_.size(),
            final(self).hprop_.reserved() == old(self).hprop_.reserved(),
            old(self).hprop_.has_name(name.spec_bytes()) <==> r is None,
            r is None ==> final(self).hprop_.n_props() == old(self).hprop_.n_props(),
            forall|i: int|
                #![trigger final(self).hprop_.col(i)]
                #![trigger final(self).hprop_.name(i)]
                0 <= i < old(self).hprop_.n_props() ==> final(self).hprop_.col(i) == old(self).hprop_.col(i)
                    && final(self).hprop_.name(i) == old(self).hprop_.name(i),
            r matches Some(p) ==> {
                &&& p.id() == old(self).hprop_.n_props()
                &&& final(self).hprop_.n_props() == old(self).hprop_.n_props() + 1
                &&& final(self).hprop_.name(p.id() as int) == name.spec_bytes()
                &&& D::data_of(final(self).hprop_.col(p.id() as int)) == Some(
                    (default_value, Seq::new(old(self).hprop_.size(), |k: int| default_value)),
                )
            },
    {
        self.hprop_.add::<D>(name, default_value)
    }

    /// Looks up the halfedge property named `name` whose values have type `D`.
    pub fn get_halfedge_property<D: PropertyValue>(&self, name: &'static str) -> (r: Option<PropertyHalfedge<D>>)
        requires
            self.wf(),
        ensures
            r matches Some(p) ==> self.hprop_.holds(p) && self.hprop_.name(p.id() as int) == name.spec_bytes(),
            r is None ==> forall|i: int|
                0 <= i < self.hprop_.n_props() ==> !(#[trigger] self.hprop_.name(i) == name.spec_bytes()
                    && D::data_of(self.hprop_.col(i)) is Some),
    {
        self.hprop_.get::<D>(name)
    }
}

/// The state after the edges that the face `vs0` lacks in `m0` were created,
/// giving `m1`: `hs` holds the halfedge of each consecutive pair and `news`
/// whether it is new.
pub closed spec fn edges_created(
    m0: Mesh,
    vs0: Seq<Vertex>,
    found: Seq<Option<Halfedge>>,
    m1: Mesh,
    hs: Seq<Halfedge>,
    news: Seq<bool>,
) -> bool {
    let t0 = m0.topology;
    let vs = vs0;
    let n = vs.len() as int;
    let onh = t0.nh() as int;
    &&& m1.topology.vconn_@ == t0.vconn_@
    &&& m1.topology.fconn_@ == t0.fconn_@
    &&& m1.topology.defaults()
    &&& m1.topology.nh() == onh + 2 * count_missing(t0, vs, n)
    &&& m1.topology.hconn_@.subrange(0, onh) == t0.hconn_@
    &&& hs.len() == n
    &&& news.len() == n
    &&& forall|j: int| 0 <= j < n ==> (#[trigger] hs[j]).id() == planned(t0, vs, j)
    &&& forall|j: int| 0 <= j < n ==> #[trigger] news[j] == (found[j] is None)
    &&& forall|j: int|
        0 <= j < n && news[j] ==> {
            &&& m1.topology.tgt(#[trigger] hs[j].id() as int) == vs[cyc(j, n)].id()
            &&& m1.topology.tgt(hs[j].id() + 1int) == vs[j].id()
            &&& m1.topology.fc(hs[j].id() as int) is None
            &&& m1.topology.fc(hs[j].id() + 1int) is None
            &&& onh <= hs[j].id()
            &&& hs[j].id() + 1 < m1.topology.nh()
            &&& hs[j].id() % 2 == 0
        }
    &&& forall|h: int| onh <= h < m1.topology.nh() ==> #[trigger] made_by(news, hs, n, h)
    &&& m1.properties.wf()
    &&& m1.properties.vprop_ == m0.properties.vprop_
    &&& m1.properties.fprop_ == m0.properties.fprop_
    &&& grown_columns(m1.properties.eprop_, m0.properties.eprop_, count_missing(t0, vs, n))
    &&& grown_columns(m1.properties.hprop_, m0.properties.hprop_, 2 * count_missing(t0, vs, n))
    &&& m1.properties.hprop_.size() == m1.topology.nh()
    &&& m1.properties.eprop_.size() == m1.topology.nh() / 2
    &&& m1.topology.nh() % 2 == 0
}

/// A polygon mesh: its connectivity and the property columns of its elements.
pub struct Mesh {
    pub topology: Topology,
    pub properties: Properties,
}

impl Mesh {
    /// The connectivity keeps its invariant, and every property container
    /// has one slot per element of its kind.
    pub open spec fn wf(&self) -> bool {
        &&& self.topology.wf()
        &&& self.properties.wf()
        &&& self.properties.vprop_.size() == self.topology.nv()
        &&& self.properties.hprop_.size() == self.topology.nh()
        &&& self.properties.eprop_.size() == self.topology.nh() / 2
        &&& self.properties.fprop_.size() == self.topology.nf()
    }

    /// Constructs an empty mesh.
    pub fn new() -> (r: Mesh)
        ensures
            r.wf(),
            r.topology.nv() == 0,
            r.topology.nh() == 0,
            r.topology.nf() == 0,
            r.properties.vprop_.n_props() == 0,
            r.properties.hprop_.n_props() == 0,
            r.properties.eprop_.n_props() == 0,
            r.properties.fprop_.n_props() == 0,
    {
        Mesh { topology: Topology::new(), properties: Properties::new() }
    }

    /// The number of vertices the mesh holds room for.
    pub closed spec fn vertex_room(&self) -> nat {
        self.topology.vconn_.room()
    }

    /// The number of faces the mesh holds room for.
    pub closed spec fn face_room(&self) -> nat {
        self.topology.fconn_.room()
    }

    /// The number of halfedges the mesh holds room for.
    pub closed spec fn halfedge_room(&self) -> nat {
        self.topology.hconn_.room()
    }


    /// Makes room for at least `size` vertices; nothing else changes.
    pub fn vertex_reserve(&mut self, size: usize)
        requires
            old(self).wf(),
        ensures
            final(self).wf(),
            final(self).topology.same_records(&old(self).topology),
            same_topology(final(self).topology, old(self).topology),
            same_columns(final(self).properties.vprop_, old(self).properties.vprop_),
            final(self).properties.hprop_ == old(self).properties.hprop_,
            final(self).properties.eprop_ == old(self).properties.eprop_,
            final(self).properties.fprop_ == old(self).properties.fprop_,
            final(self).properties.vprop_.reserved() == size,
            final(self).vertex_room() == if old(self).vertex_room() >= size {
                old(self).vertex_room()
            } else {
                size as nat
            },
            final(self).face_room() == old(self).face_room(),
            final(self).halfedge_room() == old(self).halfedge_room(),
    {
        self.topology.vconn_.reserve(size);
        self.properties.vprop_.reserve(size);
        proof {
            Topology::lemma_same_records(&old(self).topology, &self.topology);
            Topology::lemma_same_records_same(&old(self).topology, &self.topology);
            PropertyContainer::lemma_wf_frame(&old(self).properties.vprop_, &self.properties.vprop_);
        }
    }

    /// Returns the number of vertices the mesh holds room for.
    pub fn vertex_capacity(&self) -> (r: usize)
        ensures
            r == self.vertex_room(),
    {
        self.topology.vconn_.capacity()
    }

    /// Makes room for at least `size` faces; nothing else changes.
    pub fn face_reserve(&mut self, size: usize)
        requires
            old(self).wf(),
        ensures
            final(self).wf(),
            final(self).topology.same_records(&old(self).topology),
            same_topology(final(self).topology, old(self).topology),
            same_columns(final(self).properties.fprop_, old(self).properties.fprop_),
            final(self).properties.vprop_ == old(self).properties.vprop_,
            final(self).properties.hprop_ == old(self).properties.hprop_,
            final(self).properties.eprop_ == old(self).properties.eprop_,
            final(self).properties.fprop_.reserved() == size,
            final(self).face_room() == if old(self).face_room() >= size {
                old(self).face_room()
            } else {
                size as nat
            },
            final(self).vertex_room() == old(self).vertex_room(),
            final(self).halfedge_room() == old(self).halfedge_room(),
    {
        self.topology.fconn_.reserve(size);
        self.properties.fprop_.reserve(size);
        proof {
            Topology::lemma_same_records(&old(self).topology, &self.topology);
            Topology::lemma_same_records_same(&old(self).topology, &self.topology);
            PropertyContainer::lemma_wf_frame(&old(self).properties.fprop_, &self.properties.fprop_);
        }
    }

    /// Returns the number of faces the mesh holds room for.
    pub fn face_capacity(&self) -> (r: usize)
        ensures
            r == self.face_room(),
    {
        self.topology.fconn_.capacity()
    }

    /// Makes room for at least `size` edges, that is `2 * size` halfedges;
    /// nothing else changes.
    pub fn edge_reserve(&mut self, size: usize)
        requires
            old(self).wf(),
            2 * size <= usize::MAX,
        ensures
            final(self).wf(),
            final(self).topology.same_records(&old(self).topology),
            same_topology(final(self).topology, old(self).topology),
            same_columns(final(self).properties.eprop_, old(self).properties.eprop_),
            same_columns(final(self).properties.hprop_, old(self).properties.hprop_),
            final(self).properties.vprop_ == old(self).properties.vprop_,
            final(self).properties.fprop_ == old(self).properties.fprop_,
            final(self).properties.eprop_.reserved() == size,
            final(self).properties.hprop_.reserved() == 2 * size,
            final(self).halfedge_room() == if old(self).halfedge_room() >= 2 * size {
                old(self).halfedge_room()
            } else {
                (2 * size) as nat
            },
            final(self).vertex_room() == old(self).vertex_room(),
            final(self).face_room() == old(self).face_room(),
    {
        self.topology.hconn_.reserve(size * 2);
        self.properties.eprop_.reserve(size);
        self.properties.hprop_.reserve(size * 2);
        proof {
            Topology::lemma_same_records(&old(self).topology, &self.topology);
            Topology::lemma_same_records_same(&old(self).topology, &self.topology);
            PropertyContainer::lemma_wf_frame(&old(self).properties.eprop_, &self.properties.eprop_);
            PropertyContainer::lemma_wf_frame(&old(self).properties.hprop_, &self.properties.hprop_);
        }
    }

    /// Returns the number of edges the mesh holds room for: half its room
    /// for halfedges.
    pub fn edge_capacity(&self) -> (r: usize)
        ensures
            r == self.halfedge_room() / 2,
    {
        self.topology.hconn_.capacity() / 2
    }

    /// Adds an isolated vertex, with the default value of every vertex
    /// property, and returns it.
    pub fn add_vertex(&mut self) -> (r: Vertex)
        requires
            old(self).wf(),
            old(self).topology.nv() < usize::MAX,
        ensures
            final(self).wf(),
            r.id() == old(self).topology.nv(),
            final(self).topology.nv() == old(self).topology.nv() + 1,
            final(self).topology.nh() == old(self).topology.nh(),
            final(self).topology.nf() == old(self).topology.nf(),
            final(self).topology.out(r.id() as int) is None,
            forall|u: int|
                0 <= u < old(self).topology.nv() ==> #[trigger] final(self).topology.out(u) == old(self).topology.out(u),
            same_halfedges_faces(final(self).topology, old(self).topology),
            grown_columns(final(self).properties.vprop_, old(self).properties.vprop_, 1),
            final(self).vertex_room() == if old(self).vertex_room() > old(self).topology.nv() {
                old(self).vertex_room()
            } else {
                old(self).topology.nv() + 1
            },
            final(self).properties.hprop_ == old(self).properties.hprop_,
            final(self).properties.eprop_ == old(self).properties.eprop_,
            final(self).properties.fprop_ == old(self).properties.fprop_,
            final(self).properties.vprop_.n_props() == old(self).properties.vprop_.n_props(),
            forall|i: int|
                0 <= i < old(self).properties.vprop_.n_props() ==> #[trigger] final(self).properties.vprop_.col(i)
                    == old(self).properties.vprop_.col(i).pushed() && final(self).properties.vprop_.name(i)
                    == old(self).properties.vprop_.name(i),
    {
        self.properties.vprop_.push();
        let v = self.topology.push_vertex();
        proof {
            assert forall|i: int| 0 <= i < old(self).properties.vprop_.n_props() implies self.properties.vprop_.col(i)
                == old(self).properties.vprop_.col(i).pushed_n(1) by {
                assert(old(self).properties.vprop_.col(i).pushed_n(1) == old(self).properties.vprop_.col(i).pushed_n(0).pushed());
            }
        }
        v
    }

    /// Adds `nb` isolated vertices, after making room for them, and returns
    /// them in order.
    pub fn add_vertices(&mut self, nb: usize) -> (r: Vec<Vertex>)
        requires
            old(self).wf(),
            old(self).topology.nv() + nb <= usize::MAX,
        ensures
            final(self).wf(),
            final(self).topology.nv() == old(self).topology.nv() + nb,
            final(self).topology.nh() == old(self).topology.nh(),
            final(self).topology.nf() == old(self).topology.nf(),
            r@.len() == nb,
            forall|i: int| 0 <= i < nb ==> (#[trigger] r@[i]).id() == old(self).topology.nv() + i,
            forall|i: int| 0 <= i < nb ==> #[trigger] final(self).topology.out(old(self).topology.nv() + i) is None,
            forall|u: int|
                0 <= u < old(self).topology.nv() ==> #[trigger] final(self).topology.out(u) == old(self).topology.out(u),
            same_halfedges_faces(final(self).topology, old(self).topology),
            grown_columns(final(self).properties.vprop_, old(self).properties.vprop_, nb as nat),
            final(self).properties.hprop_ == old(self).properties.hprop_,
            final(self).properties.eprop_ == old(self).properties.eprop_,
            final(self).properties.fprop_ == old(self).properties.fprop_,
            final(self).vertex_room() >= old(self).topology.nv() + nb,
    {
        let mut vec: Vec<Vertex> = Vec::new();
        if self.vertex_capacity() < self.topology.n_vertices() + nb {
            let new_cap = self.topology.n_vertices() + nb;
            self.vertex_reserve(new_cap);
        }
        let ghost n0 = self.topology.nv();
        for k in 0..nb
            invariant
                self.wf(),
                n0 == old(self).topology.nv(),
                n0 + nb <= usize::MAX,
                self.topology.nv() == n0 + k,
                self.topology.nh() == old(self).topology.nh(),
                self.topology.nf() == old(self).topology.nf(),
                self.vertex_room() >= n0 + nb,
                vec@.len() == k,
                forall|i: int| 0 <= i < k ==> (#[trigger] vec@[i]).id() == n0 + i,
                forall|i: int| 0 <= i < k ==> #[trigger] self.topology.out(n0 + i) is None,
                forall|u: int| 0 <= u < n0 ==> #[trigger] self.topology.out(u) == old(self).topology.out(u),
                same_halfedges_faces(self.topology, old(self).topology),
                grown_columns(self.properties.vprop_, old(self).properties.vprop_, k as nat),
                self.properties.hprop_ == old(self).properties.hprop_,
                self.properties.eprop_ == old(self).properties.eprop_,
                self.properties.fprop_ == old(self).properties.fprop_,
        {
            let ghost before = *self;
            let v = self.add_vertex();
            vec.push(v);
            proof {
                assert forall|i: int| 0 <= i < old(self).properties.vprop_.n_props() implies self.properties.vprop_.col(i)
                    == old(self).properties.vprop_.col(i).pushed_n((k + 1) as nat) by {
                    assert(before.properties.vprop_.col(i) == old(self).properties.vprop_.col(i).pushed_n(k as nat));
                    assert(self.properties.vprop_.col(i) == before.properties.vprop_.col(i).pushed_n(1));
                    assert(before.properties.vprop_.col(i).pushed_n(1) == before.properties.vprop_.col(i).pushed_n(0).pushed());
                }
            }
        }
        vec
    }

    /// Allocates an edge from `start` to `end`, with a slot in the edge and
    /// halfedge properties, and returns its halfedge from `start` to `end`.
    fn new_edge(&mut self, start: Vertex, end: Vertex) -> (r: Halfedge)
        requires
            start.id() != end.id(),
            old(self).properties.wf(),
            old(self).properties.hprop_.size() == old(self).topology.nh(),
            old(self).properties.eprop_.size() == old(self).topology.nh() / 2,
            old(self).topology.nh() % 2 == 0,
            old(self).topology.nh() + 2 <= usize::MAX,
            old(self).topology.defaults(),
        ensures
            r.id() == old(self).topology.nh(),
            final(self).topology.nh() == old(self).topology.nh() + 2,
            final(self).topology.hconn_@.subrange(0, old(self).topology.nh() as int) == old(self).topology.hconn_@,
            final(self).topology.tgt(old(self).topology.nh() as int) == end.id(),
            final(self).topology.tgt(old(self).topology.nh() + 1int) == start.id(),
            final(self).topology.fc(old(self).topology.nh() as int) is None,
            final(self).topology.fc(old(self).topology.nh() + 1int) is None,
            final(self).topology.vconn_@ == old(self).topology.vconn_@,
            final(self).topology.fconn_@ == old(self).topology.fconn_@,
            final(self).topology.defaults(),
            final(self).properties.wf(),
            final(self).properties.hprop_.size() == final(self).topology.nh(),
            final(self).properties.eprop_.size() == final(self).topology.nh() / 2,
            final(self).properties.vprop_ == old(self).properties.vprop_,
            final(self).properties.fprop_ == old(self).properties.fprop_,
            grown_columns(final(self).properties.eprop_, old(self).properties.eprop_, 1),
            grown_columns(final(self).properties.hprop_, old(self).properties.hprop_, 2),
    {
        self.properties.eprop_.push();
        self.properties.hprop_.push();
        let ghost h1 = self.properties.hprop_;
        self.properties.hprop_.push();
        proof {
            let e0 = old(self).properties.eprop_;
            let h0 = old(self).properties.hprop_;
            assert forall|i: int| 0 <= i < e0.n_props() implies self.properties.eprop_.col(i) == e0.col(i).pushed_n(1) by {
                assert(e0.col(i).pushed_n(1) == e0.col(i).pushed_n(0).pushed());
            }
            assert forall|i: int| 0 <= i < h0.n_props() implies self.properties.hprop_.col(i) == h0.col(i).pushed_n(2) by {
                assert(h1.col(i) == h0.col(i).pushed());
                assert(h0.col(i).pushed_n(1) == h0.col(i).pushed_n(0).pushed());
                assert(h0.col(i).pushed_n(2) == h0.col(i).pushed_n(1).pushed());
            }
        }
        self.topology.new_edge(start, end)
    }

    /// Creates, in order, the edges that the face `vertices` lacks, given
    /// what `found` says exists, and returns for each consecutive pair its
    /// halfedge and whether it is new.
    #[verifier::rlimit(80)]
    #[verifier::spinoff_prover]
    fn create_edges(&mut self, vertices: &Vec<Vertex>, found: &Vec<Option<Halfedge>>) -> (r: (Vec<Halfedge>, Vec<bool>))
        requires
            old(self).wf(),
            vertices@.len() >= 3,
            distinct_vertices(vertices@),
            forall|i: int| 0 <= i < vertices@.len() ==> (#[trigger] vertices@[i]).id() < old(self).topology.nv(),
            old(self).topology.nh() + 2 * vertices@.len() <= usize::MAX,
            old(self).topology.addable(vertices@),
            found@.len() == vertices@.len(),
            forall|j: int|
                0 <= j < vertices@.len() ==> match #[trigger] found@[j] {
                    Some(h) => old(self).topology.find(vertices@[j].id() as int, vertices@[cyc(j, vertices@.len() as int)].id() as int) == Some(
                        h.id() as int,
                    ),
                    None => old(self).topology.find(vertices@[j].id() as int, vertices@[cyc(j, vertices@.len() as int)].id() as int) is None,
                },
        ensures
            edges_created(*old(self), vertices@, found@, *final(self), r.0@, r.1@),
    {
        let n = vertices.len();
        let ghost t0 = self.topology;
        let ghost vs = vertices@;
        let ghost onh = t0.nh() as int;
        proof {
            t0.lemma_counts_fit();
        }
        let mut hvec: Vec<Halfedge> = Vec::new();
        let mut new_hvec: Vec<bool> = Vec::new();
        let mut i: usize = 0;
        while i < n
            invariant
                0 <= i <= n,
                n == vs.len(),
                vs == vertices@,
                n >= 3,
                distinct_vertices(vs),
                forall|j: int| 0 <= j < n ==> (#[trigger] vs[j]).id() < t0.nv(),
                t0.wf(),
                t0.addable(vs),
                onh == t0.nh(),
                onh + 2 * n <= usize::MAX,
                found@.len() == n,
                forall|j: int|
                    0 <= j < n ==> match #[trigger] found@[j] {
                        Some(h) => t0.find(vs[j].id() as int, vs[cyc(j, n as int)].id() as int) == Some(
                            h.id() as int,
                        ),
                        None => t0.find(vs[j].id() as int, vs[cyc(j, n as int)].id() as int) is None,
                    },
                self.topology.vconn_@ == t0.vconn_@,
                self.topology.fconn_@ == t0.fconn_@,
                self.topology.defaults(),
                self.topology.nh() == onh + 2 * count_missing(t0, vs, i as int),
                count_missing(t0, vs, i as int) <= i,
                self.topology.hconn_@.subrange(0, onh) == t0.hconn_@,
                hvec@.len() == i,
                new_hvec@.len() == i,
                forall|j: int| 0 <= j < i ==> (#[trigger] hvec@[j]).id() == planned(t0, vs, j),
                forall|j: int| 0 <= j < i ==> #[trigger] new_hvec@[j] == (found@[j] is None),
                forall|j: int|
                    0 <= j < i && new_hvec@[j] ==> {
                        &&& self.topology.tgt(#[trigger] hvec@[j].id() as int) == vs[cyc(j, n as int)].id()
                        &&& self.topology.tgt(hvec@[j].id() + 1int) == vs[j].id()
                        &&& self.topology.fc(hvec@[j].id() as int) is None
                        &&& self.topology.fc(hvec@[j].id() + 1int) is None
                        &&& onh <= hvec@[j].id()
                        &&& hvec@[j].id() + 1 < self.topology.nh()
                        &&& hvec@[j].id() % 2 == 0
                    },
                forall|h: int| onh <= h < self.topology.nh() ==> #[trigger] made_by(new_hvec@, hvec@, i as int, h),
                self.properties.wf(),
                self.properties.vprop_ == old(self).properties.vprop_,
                self.properties.fprop_ == old(self).properties.fprop_,
                grown_columns(self.properties.eprop_, old(self).properties.eprop_, count_missing(t0, vs, i as int)),
                grown_columns(self.properties.hprop_, old(self).properties.hprop_, 2 * count_missing(t0, vs, i as int)),
                self.properties.hprop_.size() == self.topology.nh(),
                self.properties.eprop_.size() == self.topology.nh() / 2,
                self.topology.nh() % 2 == 0,
            decreases n - i,
        {
            let ii: usize = if i + 1 == n {
                0
            } else {
                i + 1
            };
            let ghost hv0 = hvec@;
            let ghost nw0 = new_hvec@;
            let ghost before = self.topology;
            proof {
                assert(count_missing(t0, vs, i + 1) == count_missing(t0, vs, i as int) + if found@[i as int] is None {
                    1nat
                } else {
                    0nat
                });
                assert(vs[i as int].id() != vs[ii as int].id());
                assert(ii == cyc(i as int, n as int));
            }
            let ghost bm = *self;
            let h = match found[i] {
                Some(h) => h,
                None => self.new_edge(vertices[i], vertices[ii]),
            };
            proof {
                let cm = count_missing(t0, vs, i as int);
                let e0 = old(self).properties.eprop_;
                let h0 = old(self).properties.hprop_;
                if found@[i as int] is None {
                    assert forall|k: int| 0 <= k < e0.n_props() implies self.properties.eprop_.col(k) == e0.col(k).pushed_n(cm + 1) by {
                        assert(bm.properties.eprop_.col(k) == e0.col(k).pushed_n(cm));
                        lemma_pushed_n_add(e0.col(k), cm, 1);
                    }
                    assert forall|k: int| 0 <= k < h0.n_props() implies self.properties.hprop_.col(k) == h0.col(k).pushed_n(2 * cm + 2) by {
                        assert(bm.properties.hprop_.col(k) == h0.col(k).pushed_n(2 * cm));
                        lemma_pushed_n_add(h0.col(k), 2 * cm, 2);
                    }
                }
            }
            hvec.push(h);
            new_hvec.push(found[i].is_none());
            proof {
                assert(h.id() == planned(t0, vs, i as int));
                assert(hvec@[i as int] == h);
                assert(new_hvec@[i as int] == (found@[i as int] is None));
                assert(self.topology.hconn_@.subrange(0, onh) =~= before.hconn_@.subrange(0, onh));
                assert forall|j: int| 0 <= j < i + 1 implies (#[trigger] hvec@[j]).id() == planned(t0, vs, j) by {
                    if j < i {
                        assert(hvec@[j] == hv0[j]);
                    }
                }
                assert forall|j: int| 0 <= j < i + 1 implies #[trigger] new_hvec@[j] == (found@[j] is None) by {
                    if j < i {
                        assert(new_hvec@[j] == nw0[j]);
                    }
                }
                assert forall|j: int| 0 <= j < i + 1 && new_hvec@[j] implies {
                    &&& self.topology.tgt(#[trigger] hvec@[j].id() as int) == vs[cyc(j, n as int)].id()
                    &&& self.topology.tgt(hvec@[j].id() + 1int) == vs[j].id()
                    &&& self.topology.fc(hvec@[j].id() as int) is None
                    &&& self.topology.fc(hvec@[j].id() + 1int) is None
                    &&& onh <= hvec@[j].id()
                    &&& hvec@[j].id() + 1 < self.topology.nh()
                    &&& hvec@[j].id() % 2 == 0
                } by {
                    if j < i {
                        assert(hvec@[j] == hv0[j] && new_hvec@[j] == nw0[j]);
                        let x = hvec@[j].id() as int;
                        assert(before.tgt(x) == vs[cyc(j, n as int)].id());
                        assert(x + 1 < before.nh());
                        if found@[i as int] is None {
                            let sub = self.topology.hconn_@.subrange(0, before.nh() as int);
                            assert(sub[x] == self.topology.hconn_@[x]);
                            assert(sub[x + 1] == self.topology.hconn_@[x + 1]);
                        }
                    }
                }
                assert forall|hh: int| onh <= hh < self.topology.nh() implies #[trigger] made_by(
                    new_hvec@,
                    hvec@,
                    i + 1,
                    hh,
                ) by {
                    if hh < before.nh() {
                        assert(made_by(nw0, hv0, i as int, hh));
                        let j = choose|j: int| 0 <= j < i && #[trigger] nw0[j] && (hh == hv0[j].id() || hh == hv0[j].id() + 1);
                        assert(new_hvec@[j] && hvec@[j] == hv0[j]);
                    } else {
                        assert(new_hvec@[i as int] && hvec@[i as int] == h);
                    }
                }
            }
            i = i + 1;
        }
        (hvec, new_hvec)
    }

    /// The state after the missing edges and the face record were created is
    /// ready to be linked.
    #[verifier::rlimit(80)]
    proof fn lemma_ready(
        m0: Mesh,
        vs: Seq<Vertex>,
        found: Seq<Option<Halfedge>>,
        m1: Mesh,
        hs: Seq<Halfedge>,
        news: Seq<bool>,
        t1: Topology,
        f: Face,
    )
        requires
            m0.wf(),
            vs.len() >= 3,
            distinct_vertices(vs),
            forall|i: int| 0 <= i < vs.len() ==> (#[trigger] vs[i]).id() < m0.topology.nv(),
            m0.topology.addable(vs),
            found.len() == vs.len(),
            forall|j: int|
                0 <= j < vs.len() ==> match #[trigger] found[j] {
                    Some(h) => m0.topology.find(vs[j].id() as int, vs[cyc(j, vs.len() as int)].id() as int) == Some(
                        h.id() as int,
                    ),
                    None => m0.topology.find(vs[j].id() as int, vs[cyc(j, vs.len() as int)].id() as int) is None,
                },
            edges_created(m0, vs, found, m1, hs, news),
            t1.vconn_@ == m1.topology.vconn_@,
            t1.hconn_@ == m1.topology.hconn_@,
            t1.fconn_@ == m1.topology.fconn_@.push(FaceConnectivity { halfedge_: hs[vs.len() - 1] }),
            t1.defaults(),
            f.id() == m0.topology.nf(),
        ensures
            t1.ready(vs, hs, news, f.id() as int, m0.topology.nh() as int),
    {
        let t0 = m0.topology;
        let n = vs.len() as int;
        let onh = t0.nh() as int;
        let hvec = hs;
        t0.lemma_counts_fit();
        assert forall|k: int| 0 <= k < n implies #[trigger] t1.planned_ok(vs, hs, news, onh, k) by {
            assert(t0.pair_ok(vs, k));
            assert(vs[k].id() < t0.nv());
            t0.lemma_find(vs[k].id() as int, vs[cyc(k, n as int)].id() as int);
            assert(hs[k].id() == planned(t0, vs, k));
            assert(news[k] == (found[k] is None));
            if !news[k] {
                Topology::lemma_old_records(&t0, &t1, hs[k].id() as int);
            }
        }
        assert forall|h: int| onh <= h < t1.nh() implies #[trigger] t1.fresh_ok(vs, hs, news, h) by {
            assert(made_by(news, hs, n as int, h));
            let j = choose|j: int| 0 <= j < n && #[trigger] news[j] && (h == hs[j].id() || h == hs[j].id() + 1);
            assert(vs[j].id() < t0.nv());
            assert(vs[cyc(j, n as int)].id() < t0.nv());
            assert(hs[j] == hvec[j]);
            assert(opp(hs[j].id() as int) == hs[j].id() + 1);
        }
        assert forall|h: int| 0 <= h < onh implies #[trigger] t1.old_ok(h, onh) by {
            Topology::lemma_old_records(&t0, &t1, h);
        }
        assert forall|v: int| 0 <= v < t1.nv() implies #[trigger] t1.old_vertex_ok(v, onh) by {
            t0.lemma_vertex(v);
            if let Some(x) = t0.out(v) {
                Topology::lemma_old_records(&t0, &t1, x.id() as int);
            }
        }
        assert forall|g: int| 0 <= g < f.id() implies #[trigger] t1.face_ok(g) by {
            t0.lemma_face(g);
            Topology::lemma_old_records(&t0, &t1, t0.fstart(g));
            assert(t1.fconn_@[g] == t0.fconn_@[g]);
        }
        assert forall|k: int| 0 <= k < n implies #[trigger] vs[k].id() < t1.nv() by {
            assert(vs[k].id() < t0.nv());
        }
        assert(t1.fstart(f.id() as int) == hs[n - 1].id());
        assert(t1.ready(vs, hs, news, f.id() as int, onh));
    }

    /// An old halfedge that the insertion does not relink keeps its successor.
    #[verifier::rlimit(80)]
    proof fn lemma_unrelinked(
        t0: Topology,
        vs: Seq<Vertex>,
        found: Seq<Option<Halfedge>>,
        t1: Topology,
        hs: Seq<Halfedge>,
        news: Seq<bool>,
        t2: Topology,
        f: Face,
    )
        requires
            t0.wf(),
            t1.ready(vs, hs, news, f.id() as int, t0.nh() as int),
            found.len() == vs.len(),
            forall|j: int| 0 <= j < vs.len() ==> (#[trigger] hs[j]).id() == planned(t0, vs, j),
            forall|j: int| 0 <= j < vs.len() ==> #[trigger] news[j] == (found[j] is None),
            forall|j: int|
                0 <= j < vs.len() ==> match #[trigger] found[j] {
                    Some(h) => t0.find(vs[j].id() as int, vs[cyc(j, vs.len() as int)].id() as int) == Some(
                        h.id() as int,
                    ),
                    None => t0.find(vs[j].id() as int, vs[cyc(j, vs.len() as int)].id() as int) is None,
                },
            t1.hconn_@.subrange(0, t0.nh() as int) == t0.hconn_@,
            t1.vconn_@ == t0.vconn_@,
            t1.nf() >= t0.nf(),
            forall|k: int|
                0 <= k < t1.nh() && !Topology::planned_first(t1, vs, hs, news, t0.nh() as int, k) ==> #[trigger] t2.nxt(k)
                    == t1.nxt(k),
        ensures
            forall|k: int| 0 <= k < t0.nh() && !relinked(t0, vs, k) ==> #[trigger] t2.nxt(k) == t0.nxt(k),
    {
        let n = vs.len() as int;
        let onh = t0.nh() as int;
        assert forall|k: int| 0 <= k < t0.nh() && !relinked(t0, vs, k) implies #[trigger] t2.nxt(k) == t0.nxt(k) by {
            Topology::lemma_old_records(&t0, &t1, k);
            if Topology::planned_first(t1, vs, hs, news, onh, k) {
                let i = choose|i: int| 0 <= i < n && #[trigger] Topology::corner_first(t1, vs, hs, news, onh, i, k);
                let ii = cyc(i, n);
                let v = vs[ii].id() as int;
                assert(t1.planned_ok(vs, hs, news, onh, i));
                assert(t1.planned_ok(vs, hs, news, onh, ii));
                assert(news[i] == (found[i] is None));
                assert(news[ii] == (found[ii] is None));
                assert(hs[ii].id() == planned(t0, vs, ii));
                assert(t1.out(v) == t0.out(v));
                if !news[ii] {
                    Topology::lemma_old_records(&t0, &t1, hs[ii].id() as int);
                }
                if let Some(h) = t0.out(v) {
                    assert(vs[ii].id() < t0.nv());
                    t0.lemma_vertex(v);
                    Topology::lemma_old_records(&t0, &t1, h.id() as int);
                }
                assert(relinked(t0, vs, k));
            }
        }
    }

    /// The corners of the inserted face, stated over the topology before it.
    #[verifier::rlimit(80)]
    proof fn lemma_corners_after(
        t0: Topology,
        vs: Seq<Vertex>,
        found: Seq<Option<Halfedge>>,
        t1: Topology,
        hs: Seq<Halfedge>,
        news: Seq<bool>,
        t2: Topology,
        f: Face,
    )
        requires
            t0.wf(),
            t1.ready(vs, hs, news, f.id() as int, t0.nh() as int),
            found.len() == vs.len(),
            forall|j: int| 0 <= j < vs.len() ==> (#[trigger] hs[j]).id() == planned(t0, vs, j),
            forall|j: int| 0 <= j < vs.len() ==> #[trigger] news[j] == (found[j] is None),
            forall|j: int|
                0 <= j < vs.len() ==> match #[trigger] found[j] {
                    Some(h) => t0.find(vs[j].id() as int, vs[cyc(j, vs.len() as int)].id() as int) == Some(
                        h.id() as int,
                    ),
                    None => t0.find(vs[j].id() as int, vs[cyc(j, vs.len() as int)].id() as int) is None,
                },
            t1.hconn_@.subrange(0, t0.nh() as int) == t0.hconn_@,
            t1.vconn_@ == t0.vconn_@,
            t1.nf() >= t0.nf(),
            forall|k: int| 0 <= k < t1.nh() ==> #[trigger] t2.tgt(k) == t1.tgt(k),
            forall|k: int|
                0 <= k < t1.nh() ==> #[trigger] t2.fc(k) == if marked(hs, vs.len() as int, k) {
                    Some(f)
                } else {
                    t1.fc(k)
                },
            forall|k: int| 0 <= k < vs.len() ==> #[trigger] Topology::corner_linked(t1, t2, vs, hs, news, k),
        ensures
            forall|i: int| 0 <= i < vs.len() ==> #[trigger] corner_after(t0, vs, t2, i),
    {
        let n = vs.len() as int;
        let onh = t0.nh() as int;
        assert forall|i: int| 0 <= i < n implies #[trigger] corner_after(t0, vs, t2, i) by {
            let ii = cyc(i, n as int);
            assert(Topology::corner_linked(t1, t2, vs, hs, news, i));
            assert(t1.planned_ok(vs, hs, news, onh, i));
            assert(t1.planned_ok(vs, hs, news, onh, ii));
            assert(news[i] == (found[i] is None));
            assert(news[ii] == (found[ii] is None));
            assert(hs[i].id() == planned(t0, vs, i));
            assert(hs[ii].id() == planned(t0, vs, ii));
            let v = vs[ii].id() as int;
            assert(t1.vconn_@ == t0.vconn_@);
            assert(t1.out(v) == t0.out(v));
            if !news[i] {
                Topology::lemma_old_records(&t0, &t1, hs[i].id() as int);
            }
            if !news[ii] {
                Topology::lemma_old_records(&t0, &t1, hs[ii].id() as int);
            }
            if let Some(h) = t0.out(v) {
                assert(vs[ii].id() < t0.nv()) by {
                    assert(t1.planned_ok(vs, hs, news, onh, ii));
                }
                t0.lemma_vertex(v);
                Topology::lemma_old_records(&t0, &t1, h.id() as int);
            }
            if news[i] {
                let a = hs[i].id() as int;
                assert(t1.fresh_ok(vs, hs, news, opp(a)));
                if marked(hs, n as int, opp(a)) {
                    let j = choose|j: int| 0 <= j < n && #[trigger] hs[j].id() == opp(a);
                    assert(t1.planned_ok(vs, hs, news, onh, j));
                }
            }
        }
    }

    /// What linking the face made of the topology, stated over the halfedges
    /// planned from the topology before the insertion.
    #[verifier::rlimit(80)]
    proof fn lemma_added(
        t0: Topology,
        vs: Seq<Vertex>,
        found: Seq<Option<Halfedge>>,
        t1: Topology,
        hs: Seq<Halfedge>,
        news: Seq<bool>,
        t2: Topology,
        f: Face,
    )
        requires
            t0.wf(),
            t1.ready(vs, hs, news, f.id() as int, t0.nh() as int),
            found.len() == vs.len(),
            forall|j: int|
                0 <= j < vs.len() ==> match #[trigger] found[j] {
                    Some(h) => t0.find(vs[j].id() as int, vs[cyc(j, vs.len() as int)].id() as int) == Some(
                        h.id() as int,
                    ),
                    None => t0.find(vs[j].id() as int, vs[cyc(j, vs.len() as int)].id() as int) is None,
                },
            forall|j: int| 0 <= j < vs.len() ==> (#[trigger] hs[j]).id() == planned(t0, vs, j),
            forall|j: int| 0 <= j < vs.len() ==> #[trigger] news[j] == (found[j] is None),
            t1.nh() == t0.nh() + 2 * count_missing(t0, vs, vs.len() as int),
            t1.nv() == t0.nv(),
            t1.hconn_@.subrange(0, t0.nh() as int) == t0.hconn_@,
            t1.vconn_@ == t0.vconn_@,
            t1.fconn_@ == t0.fconn_@.push(FaceConnectivity { halfedge_: hs[vs.len() - 1] }),
            f.id() == t0.nf(),
            t2.nv() == t1.nv(),
            t2.nh() == t1.nh(),
            t2.nf() == t1.nf(),
            forall|k: int| 0 <= k < t1.nh() ==> #[trigger] t2.tgt(k) == t1.tgt(k),
            forall|k: int|
                0 <= k < t1.nh() ==> #[trigger] t2.fc(k) == if marked(hs, vs.len() as int, k) {
                    Some(f)
                } else {
                    t1.fc(k)
                },
            forall|g: int| 0 <= g < t1.nf() ==> #[trigger] t2.fstart(g) == t1.fstart(g),
            forall|i: int|
                0 <= i < vs.len() && (news[i] || news[cyc(i, vs.len() as int)]) ==> #[trigger] t2.nxt(
                    hs[i].id() as int,
                ) == hs[cyc(i, vs.len() as int)].id(),
            forall|i: int|
                0 <= i < vs.len() && !(news[i] || news[cyc(i, vs.len() as int)]) ==> #[trigger] t2.nxt(
                    hs[i].id() as int,
                ) == t1.nxt(hs[i].id() as int),
            forall|k: int| 0 <= k < vs.len() ==> #[trigger] Topology::corner_linked(t1, t2, vs, hs, news, k),
            forall|u: int| 0 <= u < t1.nv() && !vs_contains(vs, u) ==> #[trigger] t2.out(u) == t1.out(u),
            forall|k: int|
                0 <= k < t1.nh() && !Topology::planned_first(t1, vs, hs, news, t0.nh() as int, k) ==> #[trigger] t2.nxt(k)
                    == t1.nxt(k),
        ensures
            face_added(t0, vs, t2, f),
    {
        let n = vs.len() as int;
        let onh = t0.nh() as int;
        let hvec = hs;
        assert forall|k: int| 0 <= k < n implies {
            &&& 0 <= #[trigger] planned(t0, vs, k) < t2.nh()
            &&& t2.tgt(planned(t0, vs, k)) == vs[cyc(k, n as int)].id()
            &&& t2.src(planned(t0, vs, k)) == vs[k].id()
            &&& t2.fc(planned(t0, vs, k)) == Some(f)
        } by {
            assert(t1.planned_ok(vs, hs, news, onh, k));
            assert(hs[k].id() == planned(t0, vs, k));
            let x = hs[k].id() as int;
            assert(marked(hs, n as int, x));
            assert(0 <= opp(x) < t1.nh());
            assert(t2.tgt(opp(x)) == t1.tgt(opp(x)));
        }
        assert forall|k: int|
            0 <= k < n && (t0.find(vs[k].id() as int, vs[cyc(k, n as int)].id() as int) is None || t0.find(
                vs[cyc(k, n as int)].id() as int,
                vs[cyc(cyc(k, n as int), n as int)].id() as int,
            ) is None) implies t2.nxt(#[trigger] planned(t0, vs, k)) == planned(t0, vs, cyc(k, n as int)) by {
            let kk = cyc(k, n as int);
            assert(news[k] == (found[k] is None));
            assert(news[kk] == (found[kk] is None));
            assert(hs[k].id() == planned(t0, vs, k));
            assert(hs[kk].id() == planned(t0, vs, kk));
            assert(t2.nxt(hvec[k].id() as int) == hvec[kk].id());
        }
        assert forall|k: int|
            0 <= k < n && t0.find(vs[k].id() as int, vs[cyc(k, n as int)].id() as int) is Some && t0.find(
                vs[cyc(k, n as int)].id() as int,
                vs[cyc(cyc(k, n as int), n as int)].id() as int,
            ) is Some implies t2.nxt(#[trigger] planned(t0, vs, k)) == t0.nxt(planned(t0, vs, k)) by {
            let kk = cyc(k, n as int);
            assert(news[k] == (found[k] is None));
            assert(news[kk] == (found[kk] is None));
            assert(hs[k].id() == planned(t0, vs, k));
            assert(t1.planned_ok(vs, hs, news, onh, k));
            assert(t2.nxt(hvec[k].id() as int) == t1.nxt(hvec[k].id() as int));
            Topology::lemma_old_records(&t0, &t1, hs[k].id() as int);
        }
        assert forall|k: int| 0 <= k < t0.nh() implies #[trigger] t2.tgt(k) == t0.tgt(k) by {
            Topology::lemma_old_records(&t0, &t1, k);
            assert(t2.tgt(k) == t1.tgt(k));
        }
        assert forall|k: int| 0 <= k < t0.nh() && !is_planned(t0, vs, k) implies #[trigger] t2.fc(k) == t0.fc(k) by {
            Topology::lemma_old_records(&t0, &t1, k);
            assert(t2.fc(k) == if marked(hs, n as int, k) {
                Some(f)
            } else {
                t1.fc(k)
            });
            if marked(hs, n as int, k) {
                let j = choose|j: int| 0 <= j < n && #[trigger] hs[j].id() == k;
                assert(hs[j].id() == planned(t0, vs, j));
            }
        }
        assert forall|g: int| 0 <= g < t0.nf() implies #[trigger] t2.fstart(g) == t0.fstart(g) by {
            assert(t2.fstart(g) == t1.fstart(g));
            assert(t1.fconn_@[g] == t0.fconn_@[g]);
        }
        Self::lemma_corners_after(t0, vs, found, t1, hs, news, t2, f);
        Self::lemma_unrelinked(t0, vs, found, t1, hs, news, t2, f);
        assert forall|u: int| 0 <= u < t0.nv() && !vs_contains(vs, u) implies #[trigger] t2.out(u) == t0.out(u) by {
            assert(t1.vconn_@ == t0.vconn_@);
            assert(t1.out(u) == t0.out(u));
        }
    }

    /// Whether `add_face` takes `vertices`: at least three distinct existing
    /// vertices, with room in the element counts for the edges it may add.
    pub fn face_input_ok(&self, vertices: &Vec<Vertex>) -> (r: bool)
        ensures
            r == (vertices@.len() >= 3 && distinct_vertices(vertices@) && (forall|i: int|
                0 <= i < vertices@.len() ==> (#[trigger] vertices@[i]).id() < self.topology.nv())
                && self.topology.nh() + 2 * vertices@.len() <= usize::MAX && self.topology.nf() < usize::MAX),
    {
        let n = vertices.len();
        let nv = self.topology.n_vertices();
        let nh = self.topology.n_halfedges();
        let nf = self.topology.n_faces();
        if n < 3 || nf == usize::MAX {
            return false;
        }
        if n > (usize::MAX - nh) / 2 {
            return false;
        }
        let mut i: usize = 0;
        while i < n
            invariant
                n == vertices@.len(),
                nv == self.topology.nv(),
                0 <= i <= n,
                forall|a: int| 0 <= a < i ==> (#[trigger] vertices@[a]).id() < nv,
                forall|a: int, b: int| 0 <= a < i && 0 <= b < n && a != b ==> vertices@[a].id() != vertices@[b].id(),
            decreases n - i,
        {
            if vertices[i].idx() >= nv {
                return false;
            }
            let mut j: usize = 0;
            while j < n
                invariant
                    n == vertices@.len(),
                    0 <= i < n,
                    0 <= j <= n,
                    forall|b: int| 0 <= b < j && b != i ==> vertices@[i as int].id() != vertices@[b].id(),
                decreases n - j,
            {
                if j != i && vertices[i].idx() == vertices[j].idx() {
                    assert(!distinct_vertices(vertices@));
                    return false;
                }
                j = j + 1;
            }
            i = i + 1;
        }
        true
    }

    /// Inserts the face whose boundary is `vertices`, in order and closed from
    /// the last vertex to the first, and returns it. Returns none, and changes
    /// nothing, where a vertex of it is not on a boundary or where an edge
    /// between consecutive vertices exists and has a face on that side.
    /// Edges that do not exist yet are created.
    #[verifier::rlimit(100)]
    #[verifier::spinoff_prover]
    pub fn add_face(&mut self, vertices: &Vec<Vertex>) -> (r: Option<Face>)
        requires
            old(self).wf(),
            vertices@.len() >= 3,
            distinct_vertices(vertices@),
            forall|i: int| 0 <= i < vertices@.len() ==> (#[trigger] vertices@[i]).id() < old(self).topology.nv(),
            old(self).topology.nh() + 2 * vertices@.len() <= usize::MAX,
            old(self).topology.nf() < usize::MAX,
        ensures
            final(self).wf(),
            r is None <==> !old(self).topology.addable(vertices@),
            r is None ==> *final(self) == *old(self),
            r matches Some(f) ==> {
                &&& face_added(old(self).topology, vertices@, final(self).topology, f)
                &&& final(self).properties.vprop_ == old(self).properties.vprop_
                &&& grown_columns(
                    final(self).properties.eprop_,
                    old(self).properties.eprop_,
                    count_missing(old(self).topology, vertices@, vertices@.len() as int),
                )
                &&& grown_columns(
                    final(self).properties.hprop_,
                    old(self).properties.hprop_,
                    2 * count_missing(old(self).topology, vertices@, vertices@.len() as int),
                )
                &&& grown_columns(final(self).properties.fprop_, old(self).properties.fprop_, 1)
            },
    {
        let n = vertices.len();
        let found = match self.topology.check_face(vertices) {
            None => return None,
            Some(x) => x,
        };
        let ghost t0 = self.topology;
        let ghost vs = vertices@;
        let ghost onh = t0.nh() as int;
        let (hvec, new_hvec) = self.create_edges(vertices, &found);
        let ghost mid = *self;
        self.properties.fprop_.push();
        proof {
            let f0 = old(self).properties.fprop_;
            assert forall|i: int| 0 <= i < f0.n_props() implies self.properties.fprop_.col(i) == f0.col(i).pushed_n(1) by {
                assert(f0.col(i).pushed_n(1) == f0.col(i).pushed_n(0).pushed());
            }
        }
        let f = self.topology.push_face(hvec[n - 1]);
        let ghost t1 = self.topology;
        let ghost hs = hvec@;
        let ghost news = new_hvec@;
        proof {
            Self::lemma_ready(*old(self), vs, found@, mid, hs, news, t1, f);
        }
        self.topology.link_face(vertices, &hvec, &new_hvec, f, Ghost(onh));
        proof {
            Self::lemma_added(t0, vs, found@, t1, hs, news, self.topology, f);
        }
        Some(f)
    }
}

/// The opposite of the opposite of a halfedge is the halfedge itself.
pub proof fn lemma_opposite_involution(h: int)
    requires
        0 <= h,
    ensures
        opp(opp(h)) == h,
{
}

/// In a well-formed topology, the predecessor of the successor of a
/// halfedge, and the successor of its predecessor, are the halfedge itself.
pub proof fn lemma_next_prev_inverse(t: Topology, h: int)
    requires
        t.wf(),
        0 <= h < t.nh(),
    ensures
        t.prv(t.nxt(h)) == h,
        t.nxt(t.prv(h)) == h,
{
    t.lemma_halfedge(h);
}

/// A face cannot be inserted at a vertex whose stored outgoing halfedge
/// already has a face.
pub proof fn lemma_interior_vertex_blocks(t: Topology, vs: Seq<Vertex>, i: int)
    requires
        0 <= i < vs.len(),
        !t.boundary_vertex(vs[i].id() as int),
    ensures
        !t.addable(vs),
{
    assert(!t.pair_ok(vs, i));
}

/// In a well-formed topology, a vertex that stores no outgoing halfedge is
/// isolated: no halfedge leaves it or points to it.
pub proof fn lemma_no_stored_halfedge_isolated(t: Topology, v: int, h: int)
    requires
        t.wf(),
        0 <= h < t.nh(),
        t.out(v) is None,
    ensures
        t.tgt(h) != v,
        t.src(h) != v,
{
    t.lemma_halfedge(h);
    t.lemma_halfedge(opp(h));
}

/// An isolated vertex, such as a new one, has no halfedge, vertex or face
/// around it.
pub proof fn lemma_isolated_vertex_rings(t: Topology, v: int)
    requires
        t.out(v) is None,
    ensures
        t.vertex_ring(v) == Seq::<int>::empty(),
        t.fan_start(v) is None,
{
}

/// Along halfedges that follow each other, the walk from the `j`-th one
/// back to the last meets the ones in between.
proof fn lemma_loop_suffix(t: Topology, hs: Seq<int>, j: int, fuel: nat)
    requires
        hs.len() >= 1,
        1 <= j <= hs.len(),
        fuel >= hs.len() - j,
        forall|a: int, b: int| 0 <= a < hs.len() && 0 <= b < hs.len() && a != b ==> hs[a] != hs[b],
        forall|a: int| 0 <= a < hs.len() - 1 ==> t.nxt(#[trigger] hs[a]) == hs[a + 1],
    ensures
        t.face_ring_from(hs[j - 1], hs[hs.len() - 1], true, fuel) == hs.subrange(j - 1, hs.len() - 1),
    decreases hs.len() - j,
{
    let n = hs.len() as int;
    if j < n {
        lemma_loop_suffix(t, hs, j + 1, (fuel - 1) as nat);
        assert(hs.subrange(j - 1, n - 1) =~= seq![hs[j - 1]] + hs.subrange(j, n - 1));
    } else {
        assert(hs.subrange(j - 1, n - 1) =~= Seq::<int>::empty());
    }
}

/// A face inserted where every two consecutive sides that existed before
/// already followed each other on their boundary: its loop holds as many
/// halfedges as it has vertices, and walking it from its stored halfedge
/// meets its vertices in the order given.
pub proof fn lemma_inserted_face_loop(t0: Topology, vs: Seq<Vertex>, t1: Topology, f: Face)
    requires
        vs.len() >= 3,
        distinct_vertices(vs),
        face_added(t0, vs, t1, f),
        forall|i: int|
            0 <= i < vs.len() ==> #[trigger] t0.find(vs[i].id() as int, vs[cyc(i, vs.len() as int)].id() as int)
                is None || t0.find(
                vs[cyc(i, vs.len() as int)].id() as int,
                vs[cyc(cyc(i, vs.len() as int), vs.len() as int)].id() as int,
            ) is None || t0.nxt(planned(t0, vs, i)) == planned(t0, vs, cyc(i, vs.len() as int)),
    ensures
        t1.face_ring(f.id() as int).len() == vs.len(),
        t1.face_vertices(f.id() as int) == vs.map_values(|v: Vertex| v.id() as int),
{
    let n = vs.len() as int;
    let hs = Seq::new(n as nat, |i: int| planned(t0, vs, i));
    assert forall|a: int, b: int| 0 <= a < n && 0 <= b < n && a != b implies hs[a] != hs[b] by {
        assert(t1.src(planned(t0, vs, a)) == vs[a].id());
        assert(t1.src(planned(t0, vs, b)) == vs[b].id());
    }
    assert forall|a: int| 0 <= a < n implies t1.nxt(#[trigger] hs[a]) == hs[cyc(a, n)] by {
        assert(t0.find(vs[a].id() as int, vs[cyc(a, n)].id() as int) is None || t0.find(
            vs[cyc(a, n)].id() as int,
            vs[cyc(cyc(a, n), n)].id() as int,
        ) is None || t0.nxt(planned(t0, vs, a)) == planned(t0, vs, cyc(a, n)));
    }
    assert forall|a: int| 0 <= a < n - 1 implies t1.nxt(#[trigger] hs[a]) == hs[a + 1] by {
        assert(cyc(a, n) == a + 1);
        assert(t1.nxt(hs[a]) == hs[cyc(a, n)]);
    }
    assert(hs.no_duplicates());
    hs.unique_seq_to_set();
    assert(hs.to_set().subset_of(vstd::set_lib::set_int_range(0, t1.nh() as int))) by {
        assert forall|x: int| hs.to_set().contains(x) implies vstd::set_lib::set_int_range(0, t1.nh() as int).contains(x) by {
            let i = choose|i: int| 0 <= i < hs.len() && hs[i] == x;
            assert(0 <= planned(t0, vs, i) < t1.nh());
        }
    }
    vstd::set_lib::lemma_int_range(0, t1.nh() as int);
    vstd::set_lib::lemma_len_subset(hs.to_set(), vstd::set_lib::set_int_range(0, t1.nh() as int));
    let s = hs[n - 1];
    assert(t1.fstart(f.id() as int) == s);
    assert(t1.nxt(s) == hs[0]) by {
        assert(cyc(n - 1, n) == 0);
        assert(t1.nxt(hs[n - 1]) == hs[cyc(n - 1, n)]);
    }
    lemma_loop_suffix(t1, hs, 1, (t1.nh() - 1) as nat);
    let ring = t1.face_ring(f.id() as int);
    assert(ring == seq![s] + hs.subrange(0, n - 1));
    let want = vs.map_values(|v: Vertex| v.id() as int);
    assert forall|k: int| 0 <= k < n implies #[trigger] t1.face_vertices(f.id() as int)[k] == want[k] by {
        if k == 0 {
            assert(t1.tgt(planned(t0, vs, n - 1)) == vs[cyc(n - 1, n)].id());
        } else {
            assert(ring[k] == hs[k - 1]);
            assert(cyc(k - 1, n) == k);
            assert(t1.tgt(planned(t0, vs, k - 1)) == vs[cyc(k - 1, n)].id());
        }
    }
    assert(t1.face_vertices(f.id() as int) =~= want);
}

} // verus!
