//! Traversals of a mesh: every element of a kind in index order, and the
//! elements around a vertex or a face.
use crate::handle::{Edge, Face, Halfedge, Handle, Vertex};
use crate::mesh::{opp, Topology};
use vstd::prelude::*;

verus! {

/// Walks the vertices of a topology in index order.
pub struct VertexIterator<'a> {
    topology_: &'a Topology,
    curr_: Vertex,
}

impl<'a> VertexIterator<'a> {
    /// The topology walked.
    pub closed spec fn topology(&self) -> Topology {
        *self.topology_
    }

    /// The index of the next vertex.
    pub closed spec fn position(&self) -> nat {
        self.curr_.id()
    }

    /// Returns the next vertex, none once every vertex was returned.
    pub fn next(&mut self) -> (r: Option<Vertex>)
        ensures
            final(self).topology() == old(self).topology(),
            old(self).position() < old(self).topology().nv() ==> r == Some(Vertex::at(old(self).position()))
                && final(self).position() == old(self).position() + 1,
            old(self).position() >= old(self).topology().nv() ==> r is None && final(self).position() == old(
                self,
            ).position(),
    {
        let v = self.curr_;
        if self.topology_.n_vertices() <= v.idx() {
            None
        } else {
            self.curr_ = Vertex::new(v.idx() + 1);
            Some(v)
        }
    }
}


/// Walks the faces of a topology in index order.
pub struct FaceIterator<'a> {
    topology_: &'a Topology,
    curr_: Face,
}

impl<'a> FaceIterator<'a> {
    /// The topology walked.
    pub closed spec fn topology(&self) -> Topology {
        *self.topology_
    }

    /// The index of the next face.
    pub closed spec fn position(&self) -> nat {
        self.curr_.id()
    }

    /// Returns the next face, none once every face was returned.
    pub fn next(&mut self) -> (r: Option<Face>)
        ensures
            final(self).topology() == old(self).topology(),
            old(self).position() < old(self).topology().nf() ==> r == Some(Face::at(old(self).position()))
                && final(self).position() == old(self).position() + 1,
            old(self).position() >= old(self).topology().nf() ==> r is None && final(self).position() == old(
                self,
            ).position(),
    {
        let x = self.curr_;
        if self.topology_.n_faces() <= x.idx() {
            None
        } else {
            self.curr_ = Face::new(x.idx() + 1);
            Some(x)
        }
    }
}

/// Walks the edges of a topology in index order.
pub struct EdgeIterator<'a> {
    topology_: &'a Topology,
    curr_: Edge,
}

impl<'a> EdgeIterator<'a> {
    /// The topology walked.
    pub closed spec fn topology(&self) -> Topology {
        *self.topology_
    }

    /// The index of the next edge.
    pub closed spec fn position(&self) -> nat {
        self.curr_.id()
    }

    /// Returns the next edge, none once every edge was returned.
    pub fn next(&mut self) -> (r: Option<Edge>)
        ensures
            final(self).topology() == old(self).topology(),
            old(self).position() < old(self).topology().nh() / 2 ==> r == Some(Edge::at(old(self).position()))
                && final(self).position() == old(self).position() + 1,
            old(self).position() >= old(self).topology().nh() / 2 ==> r is None && final(self).position() == old(
                self,
            ).position(),
    {
        let x = self.curr_;
        if self.topology_.n_edges() <= x.idx() {
            None
        } else {
            self.curr_ = Edge::new(x.idx() + 1);
            Some(x)
        }
    }
}

/// Walks the halfedges of a topology in index order.
pub struct HalfedgeIterator<'a> {
    topology_: &'a Topology,
    curr_: Halfedge,
}

impl<'a> HalfedgeIterator<'a> {
    /// The topology walked.
    pub closed spec fn topology(&self) -> Topology {
        *self.topology_
    }

    /// The index of the next halfedge.
    pub closed spec fn position(&self) -> nat {
        self.curr_.id()
    }

    /// Returns the next halfedge, none once every halfedge was returned.
    pub fn next(&mut self) -> (r: Option<Halfedge>)
        ensures
            final(self).topology() == old(self).topology(),
            old(self).position() < old(self).topology().nh() ==> r == Some(Halfedge::at(old(self).position()))
                && final(self).position() == old(self).position() + 1,
            old(self).position() >= old(self).topology().nh() ==> r is None && final(self).position() == old(
                self,
            ).position(),
    {
        let x = self.curr_;
        if self.topology_.n_halfedges() <= x.idx() {
            None
        } else {
            self.curr_ = Halfedge::new(x.idx() + 1);
            Some(x)
        }
    }
}

/// Walks the vertices joined to a vertex by an edge, the one each outgoing halfedge points to, clockwise from its stored outgoing halfedge.
pub struct VerticesAroundVertexCirculator<'a> {
    topology_: &'a Topology,
    end_: Option<Halfedge>,
    curr_: Option<Halfedge>,
    active_: bool,
    fuel_: usize,
}

impl<'a> VerticesAroundVertexCirculator<'a> {
    /// The topology walked.
    pub closed spec fn topology(&self) -> Topology {
        *self.topology_
    }

    /// The halfedges still to walk.
    pub closed spec fn rest(&self) -> Seq<int> {
        match self.curr_ {
            Some(c) => self.topology_.vertex_ring_from(
                c.id() as int,
                match self.end_ {
                    Some(e) => e.id() as int,
                    None => -1,
                },
                self.active_,
                self.fuel_ as nat,
            ),
            None => Seq::empty(),
        }
    }

    /// The walk is within a well-formed topology.
    pub closed spec fn wf(&self) -> bool {
        &&& self.topology_.wf()
        &&& self.curr_ matches Some(c) ==> c.id() < self.topology_.nh()
    }

    /// Returns the next element, none once the walk is over.
    pub fn next(&mut self) -> (r: Option<Vertex>)
        requires
            old(self).wf(),
        ensures
            final(self).wf(),
            final(self).topology() == old(self).topology(),
            old(self).rest().len() == 0 ==> r is None && final(self).rest() == old(self).rest(),
            old(self).rest().len() > 0 ==> r == Some(Vertex::at(old(self).topology().tgt(old(self).rest()[0]) as nat)) && final(self).rest() == old(
                self,
            ).rest().drop_first(),
    {
        let c = match self.curr_ {
            Some(c) => c,
            None => return None,
        };
        let at_end = match self.end_ {
            Some(e) => e.idx() == c.idx(),
            None => false,
        };
        if self.active_ && at_end {
            return None;
        }
        if self.fuel_ == 0 {
            return None;
        }
        let ghost t = *self.topology_;
        let ghost e = match self.end_ {
            Some(e) => e.id() as int,
            None => -1,
        };
        let ghost f = self.fuel_ as nat;
        self.active_ = true;
        let x = self.topology_.to_vertex(c);
        self.curr_ = Some(self.topology_.cw_rotated_halfedge(c));
        self.fuel_ = self.fuel_ - 1;
        proof {
            let tail = t.vertex_ring_from(t.cw(c.id() as int), e, true, (f - 1) as nat);
            assert(t.vertex_ring_from(c.id() as int, e, old(self).active_, f) == seq![c.id() as int] + tail);
            assert((seq![c.id() as int] + tail).drop_first() =~= tail);
        }
        Some(x)
    }
}

/// Walks the outgoing halfedges of a vertex, clockwise from its stored outgoing halfedge.
pub struct HalfedgesAroundVertexCirculator<'a> {
    topology_: &'a Topology,
    end_: Option<Halfedge>,
    curr_: Option<Halfedge>,
    active_: bool,
    fuel_: usize,
}

impl<'a> HalfedgesAroundVertexCirculator<'a> {
    /// The topology walked.
    pub closed spec fn topology(&self) -> Topology {
        *self.topology_
    }

    /// The halfedges still to walk.
    pub closed spec fn rest(&self) -> Seq<int> {
        match self.curr_ {
            Some(c) => self.topology_.vertex_ring_from(
                c.id() as int,
                match self.end_ {
                    Some(e) => e.id() as int,
                    None => -1,
                },
                self.active_,
                self.fuel_ as nat,
            ),
            None => Seq::empty(),
        }
    }

    /// The walk is within a well-formed topology.
    pub closed spec fn wf(&self) -> bool {
        &&& self.topology_.wf()
        &&& self.curr_ matches Some(c) ==> c.id() < self.topology_.nh()
    }

    /// Returns the next element, none once the walk is over.
    pub fn next(&mut self) -> (r: Option<Halfedge>)
        requires
            old(self).wf(),
        ensures
            final(self).wf(),
            final(self).topology() == old(self).topology(),
            old(self).rest().len() == 0 ==> r is None && final(self).rest() == old(self).rest(),
            old(self).rest().len() > 0 ==> r == Some(Halfedge::at(old(self).rest()[0] as nat)) && final(self).rest() == old(
                self,
            ).rest().drop_first(),
    {
        let c = match self.curr_ {
            Some(c) => c,
            None => return None,
        };
        let at_end = match self.end_ {
            Some(e) => e.idx() == c.idx(),
            None => false,
        };
        if self.active_ && at_end {
            return None;
        }
        if self.fuel_ == 0 {
            return None;
        }
        let ghost t = *self.topology_;
        let ghost e = match self.end_ {
            Some(e) => e.id() as int,
            None => -1,
        };
        let ghost f = self.fuel_ as nat;
        self.active_ = true;
        let x = c;
        self.curr_ = Some(self.topology_.cw_rotated_halfedge(c));
        self.fuel_ = self.fuel_ - 1;
        proof {
            let tail = t.vertex_ring_from(t.cw(c.id() as int), e, true, (f - 1) as nat);
            assert(t.vertex_ring_from(c.id() as int, e, old(self).active_, f) == seq![c.id() as int] + tail);
            assert((seq![c.id() as int] + tail).drop_first() =~= tail);
        }
        Some(x)
    }
}

/// Walks the faces around a vertex, clockwise from the first outgoing
/// halfedge with a face after its stored one, once per halfedge with a face.
pub struct FacesAroundVertexCirculator<'a> {
    topology_: &'a Topology,
    end_: Option<Halfedge>,
    curr_: Option<Halfedge>,
    active_: bool,
    fuel_: usize,
}

impl<'a> FacesAroundVertexCirculator<'a> {
    /// The topology walked.
    pub closed spec fn topology(&self) -> Topology {
        *self.topology_
    }

    /// The halfedges whose faces are still to come.
    pub closed spec fn rest(&self) -> Seq<int> {
        match self.curr_ {
            Some(c) => self.topology_.fan_from(
                c.id() as int,
                match self.end_ {
                    Some(e) => e.id() as int,
                    None => -1,
                },
                self.active_,
                self.fuel_ as nat,
            ),
            None => Seq::empty(),
        }
    }

    /// The walk is within a well-formed topology and stops at halfedges
    /// with a face.
    pub closed spec fn wf(&self) -> bool {
        &&& self.topology_.wf()
        &&& self.curr_ matches Some(c) ==> c.id() < self.topology_.nh() && !self.topology_.boundary(c.id() as int)
    }

    /// Returns the face of the current halfedge and steps clockwise to the
    /// next halfedge with a face; none once the walk is over.
    pub fn next(&mut self) -> (r: Option<Face>)
        requires
            old(self).wf(),
        ensures
            final(self).wf(),
            final(self).topology() == old(self).topology(),
            old(self).rest().len() == 0 ==> r is None && final(self).rest() == old(self).rest(),
            old(self).rest().len() > 0 ==> r == old(self).topology().fc(old(self).rest()[0]) && r is Some
                && final(self).rest() == old(self).rest().drop_first(),
    {
        let c = match self.curr_ {
            Some(c) => c,
            None => return None,
        };
        let at_end = match self.end_ {
            Some(e) => e.idx() == c.idx(),
            None => false,
        };
        if self.active_ && at_end {
            return None;
        }
        if self.fuel_ == 0 {
            return None;
        }
        self.active_ = true;
        self.fuel_ = self.fuel_ - 1;
        let f = self.topology_.face(c);
        let ghost t = *self.topology_;
        let start = self.topology_.cw_rotated_halfedge(c);
        let mut h = start;
        let mut k = self.topology_.n_halfedges();
        let mut found = false;
        loop
            invariant_except_break
                !found,
            invariant
                t == *self.topology_,
                t.wf(),
                h.id() < t.nh(),
                t.face_from(start.id() as int, t.nh()) == t.face_from(h.id() as int, k as nat),
            ensures
                h.id() < t.nh(),
                found ==> t.face_from(start.id() as int, t.nh()) == Some(h.id() as int),
                !found ==> t.face_from(start.id() as int, t.nh()) is None,
            decreases k,
        {
            if !self.topology_.is_boundary_halfedge(h) {
                found = true;
                break;
            }
            if k == 0 {
                break;
            }
            h = self.topology_.cw_rotated_halfedge(h);
            k = k - 1;
        }
        proof {
            t.lemma_face_from(start.id() as int, t.nh());
            let e = match self.end_ {
                Some(e) => e.id() as int,
                None => -1,
            };
            let fu = self.fuel_ as nat;
            assert(old(self).rest() == seq![c.id() as int] + match t.face_from(t.cw(c.id() as int), t.nh()) {
                Some(n) => t.fan_from(n, e, true, fu),
                None => Seq::<int>::empty(),
            }) by {
                assert(seq![c.id() as int] + Seq::<int>::empty() =~= seq![c.id() as int]);
            }
        }
        self.curr_ = if found {
            Some(h)
        } else {
            None
        };
        proof {
            let tail = self.rest();
            assert((seq![c.id() as int] + tail).drop_first() =~= tail);
        }
        f
    }
}

/// Walks the vertices of a face, along its loop from its stored halfedge.
pub struct VerticesAroundFaceCirculator<'a> {
    topology_: &'a Topology,
    end_: Halfedge,
    curr_: Halfedge,
    active_: bool,
    fuel_: usize,
}

impl<'a> VerticesAroundFaceCirculator<'a> {
    /// The topology walked.
    pub closed spec fn topology(&self) -> Topology {
        *self.topology_
    }

    /// The halfedges still to walk.
    pub closed spec fn rest(&self) -> Seq<int> {
        self.topology_.face_ring_from(self.curr_.id() as int, self.end_.id() as int, self.active_, self.fuel_ as nat)
    }

    /// The walk is within a well-formed topology.
    pub closed spec fn wf(&self) -> bool {
        &&& self.topology_.wf()
        &&& self.curr_.id() < self.topology_.nh()
    }

    /// Returns the next element, none once the walk is over.
    pub fn next(&mut self) -> (r: Option<Vertex>)
        requires
            old(self).wf(),
        ensures
            final(self).wf(),
            final(self).topology() == old(self).topology(),
            old(self).rest().len() == 0 ==> r is None && final(self).rest() == old(self).rest(),
            old(self).rest().len() > 0 ==> r == Some(Vertex::at(old(self).topology().tgt(old(self).rest()[0]) as nat)) && final(self).rest() == old(
                self,
            ).rest().drop_first(),
    {
        let c = self.curr_;
        if self.active_ && c.idx() == self.end_.idx() {
            return None;
        }
        if self.fuel_ == 0 {
            return None;
        }
        let ghost t = *self.topology_;
        let ghost e = self.end_.id() as int;
        let ghost f = self.fuel_ as nat;
        proof {
            t.lemma_halfedge(c.id() as int);
        }
        self.active_ = true;
        let x = self.topology_.to_vertex(c);
        self.curr_ = self.topology_.next_halfedge(c);
        self.fuel_ = self.fuel_ - 1;
        proof {
            let tail = t.face_ring_from(t.nxt(c.id() as int), e, true, (f - 1) as nat);
            assert(t.face_ring_from(c.id() as int, e, old(self).active_, f) == seq![c.id() as int] + tail);
            assert((seq![c.id() as int] + tail).drop_first() =~= tail);
        }
        Some(x)
    }
}

/// Walks the halfedges of a face, along its loop from its stored halfedge.
pub struct HalfedgesAroundFaceCirculator<'a> {
    topology_: &'a Topology,
    end_: Halfedge,
    curr_: Halfedge,
    active_: bool,
    fuel_: usize,
}

impl<'a> HalfedgesAroundFaceCirculator<'a> {
    /// The topology walked.
    pub closed spec fn topology(&self) -> Topology {
        *self.topology_
    }

    /// The halfedges still to walk.
    pub closed spec fn rest(&self) -> Seq<int> {
        self.topology_.face_ring_from(self.curr_.id() as int, self.end_.id() as int, self.active_, self.fuel_ as nat)
    }

    /// The walk is within a well-formed topology.
    pub closed spec fn wf(&self) -> bool {
        &&& self.topology_.wf()
        &&& self.curr_.id() < self.topology_.nh()
    }

    /// Returns the next element, none once the walk is over.
    pub fn next(&mut self) -> (r: Option<Halfedge>)
        requires
            old(self).wf(),
        ensures
            final(self).wf(),
            final(self).topology() == old(self).topology(),
            old(self).rest().len() == 0 ==> r is None && final(self).rest() == old(self).rest(),
            old(self).rest().len() > 0 ==> r == Some(Halfedge::at(old(self).rest()[0] as nat)) && final(self).rest() == old(
                self,
            ).rest().drop_first(),
    {
        let c = self.curr_;
        if self.active_ && c.idx() == self.end_.idx() {
            return None;
        }
        if self.fuel_ == 0 {
            return None;
        }
        let ghost t = *self.topology_;
        let ghost e = self.end_.id() as int;
        let ghost f = self.fuel_ as nat;
        proof {
            t.lemma_halfedge(c.id() as int);
        }
        self.active_ = true;
        let x = c;
        self.curr_ = self.topology_.next_halfedge(c);
        self.fuel_ = self.fuel_ - 1;
        proof {
            let tail = t.face_ring_from(t.nxt(c.id() as int), e, true, (f - 1) as nat);
            assert(t.face_ring_from(c.id() as int, e, old(self).active_, f) == seq![c.id() as int] + tail);
            assert((seq![c.id() as int] + tail).drop_first() =~= tail);
        }
        Some(x)
    }
}


impl Topology {
    /// Walks the vertices in index order, from index 0.
    pub fn vertices(&self) -> (r: VertexIterator)
        ensures
            r.topology() == *self,
            r.position() == 0,
    {
        VertexIterator { topology_: self, curr_: Vertex::new(0) }
    }

    /// Walks the faces in index order, from index 0.
    pub fn faces(&self) -> (r: FaceIterator)
        ensures
            r.topology() == *self,
            r.position() == 0,
    {
        FaceIterator { topology_: self, curr_: Face::new(0) }
    }

    /// Walks the edges in index order, from index 0.
    pub fn edges(&self) -> (r: EdgeIterator)
        ensures
            r.topology() == *self,
            r.position() == 0,
    {
        EdgeIterator { topology_: self, curr_: Edge::new(0) }
    }

    /// Walks the halfedges in index order, from index 0.
    pub fn halfedges(&self) -> (r: HalfedgeIterator)
        ensures
            r.topology() == *self,
            r.position() == 0,
    {
        HalfedgeIterator { topology_: self, curr_: Halfedge::new(0) }
    }

    /// Walks the vertices joined to `v` by an edge, clockwise from its stored outgoing halfedge; nothing
    /// for an isolated vertex.
    pub fn vertices_around_vertex(&self, v: Vertex) -> (r: VerticesAroundVertexCirculator)
        requires
            self.wf(),
            v.id() < self.nv(),
        ensures
            r.wf(),
            r.topology() == *self,
            r.rest() == self.vertex_ring(v.id() as int),
    {
        proof {
            self.lemma_vertex(v.id() as int);
        }
        VerticesAroundVertexCirculator {
            topology_: self,
            end_: self.halfedge(v),
            curr_: self.halfedge(v),
            active_: false,
            fuel_: self.n_halfedges(),
        }
    }

    /// Walks the outgoing halfedges of `v`, clockwise from its stored outgoing halfedge; nothing
    /// for an isolated vertex.
    pub fn halfedges_around_vertex(&self, v: Vertex) -> (r: HalfedgesAroundVertexCirculator)
        requires
            self.wf(),
            v.id() < self.nv(),
        ensures
            r.wf(),
            r.topology() == *self,
            r.rest() == self.vertex_ring(v.id() as int),
    {
        proof {
            self.lemma_vertex(v.id() as int);
        }
        HalfedgesAroundVertexCirculator {
            topology_: self,
            end_: self.halfedge(v),
            curr_: self.halfedge(v),
            active_: false,
            fuel_: self.n_halfedges(),
        }
    }

    /// Walks the faces around `v`, clockwise from the first outgoing halfedge
    /// with a face, met from its stored one; nothing for an isolated vertex.
    pub fn faces_around_vertex(&self, v: Vertex) -> (r: FacesAroundVertexCirculator)
        requires
            self.wf(),
            v.id() < self.nv(),
        ensures
            r.wf(),
            r.topology() == *self,
            r.rest() == self.fan(v.id() as int),
    {
        proof {
            self.lemma_vertex(v.id() as int);
        }
        match self.halfedge(v) {
            None => FacesAroundVertexCirculator {
                topology_: self,
                end_: None,
                curr_: None,
                active_: false,
                fuel_: self.n_halfedges(),
            },
            Some(x) => {
                let mut h = x;
                let mut k = self.n_halfedges();
                let mut found = false;
                loop
                    invariant_except_break
                        !found,
                    invariant
                        self.wf(),
                        h.id() < self.nh(),
                        self.fan_start(v.id() as int) == self.face_from(h.id() as int, k as nat),
                    ensures
                        h.id() < self.nh(),
                        found ==> self.fan_start(v.id() as int) == Some(h.id() as int),
                        !found ==> self.fan_start(v.id() as int) is None,
                    decreases k,
                {
                    if !self.is_boundary_halfedge(h) {
                        found = true;
                        break;
                    }
                    if k == 0 {
                        break;
                    }
                    h = self.cw_rotated_halfedge(h);
                    k = k - 1;
                }
                proof {
                    self.lemma_face_from(x.id() as int, self.nh());
                    assert(h == Halfedge::at(h.id()));
                }
                let c = if found {
                    Some(h)
                } else {
                    None
                };
                FacesAroundVertexCirculator {
                    topology_: self,
                    end_: c,
                    curr_: c,
                    active_: false,
                    fuel_: self.n_halfedges(),
                }
            },
        }
    }

    /// Walks the vertices of face `f`, along its loop from its stored halfedge.
    pub fn vertices_around_face(&self, f: Face) -> (r: VerticesAroundFaceCirculator)
        requires
            self.wf(),
            f.id() < self.nf(),
        ensures
            r.wf(),
            r.topology() == *self,
            r.rest() == self.face_ring(f.id() as int),
    {
        proof {
            self.lemma_face(f.id() as int);
        }
        VerticesAroundFaceCirculator {
            topology_: self,
            end_: self.face_halfedge(f),
            curr_: self.face_halfedge(f),
            active_: false,
            fuel_: self.n_halfedges(),
        }
    }

    /// Walks the halfedges of face `f`, along its loop from its stored halfedge.
    pub fn halfedges_around_face(&self, f: Face) -> (r: HalfedgesAroundFaceCirculator)
        requires
            self.wf(),
            f.id() < self.nf(),
        ensures
            r.wf(),
            r.topology() == *self,
            r.rest() == self.face_ring(f.id() as int),
    {
        proof {
            self.lemma_face(f.id() as int);
        }
        HalfedgesAroundFaceCirculator {
            topology_: self,
            end_: self.face_halfedge(f),
            curr_: self.face_halfedge(f),
            active_: false,
            fuel_: self.n_halfedges(),
        }
    }
}

} // verus!
