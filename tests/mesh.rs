use lwmesh::Face;
use lwmesh::Halfedge;
use lwmesh::Mesh;
use lwmesh::Vertex;

fn triangle() -> (Mesh, Vec<Vertex>, Face) {
    let mut m = Mesh::new();
    let mut vvec = Vec::<Vertex>::new();
    for _ in 0..3 {
        vvec.push(m.add_vertex());
    }
    let f = m.add_face(&vvec).unwrap();
    (m, vvec, f)
}

#[test]
fn add_vertex() {
    let mut m = Mesh::new();
    assert!(m.properties.vprop_.len() == 0);

    let v0 = m.add_vertex();
    assert!(m.properties.vprop_.len() == 1);
    assert!(v0.idx() == 0);

    m.add_vertex();
    let v2 = m.add_vertex();
    assert!(m.properties.vprop_.len() == 3);
    assert!(v2.idx() == 2);
}

#[test]
fn n_vertices() {
    let mut m = Mesh::new();
    assert!(m.topology.n_vertices() == 0);

    m.add_vertex();
    assert!(m.topology.n_vertices() == 1);

    m.add_vertex();
    m.add_vertex();
    assert!(m.topology.n_vertices() == 3);
}

#[test]
fn add_face() {
    let mut m = Mesh::new();
    let mut vvec = Vec::<Vertex>::new();
    let v0 = m.add_vertex();
    let v1 = m.add_vertex();
    let v2 = m.add_vertex();
    let v3 = m.add_vertex();
    vvec.push(v0);
    vvec.push(v1);
    vvec.push(v2);
    let f = m.add_face(&vvec);
    assert!(f.is_some());
    assert!(m.topology.n_faces() == 1);

    vvec.clear();
    vvec.push(v2);
    vvec.push(v1);
    vvec.push(v3);
    let f = m.add_face(&vvec);
    assert!(f.is_some());
    assert!(m.topology.n_faces() == 2);

    let f = m.add_face(&vvec);
    assert!(f.is_none());
    assert!(m.topology.n_faces() == 2);

    let v4 = m.add_vertex();
    vvec.clear();
    vvec.push(v2);
    vvec.push(v1);
    vvec.push(v4);
    let f = m.add_face(&vvec);
    assert!(f.is_none());
    assert!(m.topology.n_faces() == 2);
}

#[test]
fn property() {
    let mut m = Mesh::new();

    // Vertex
    let prop = m.properties.add_vertex_property::<u32>("v:my_prop", 17).unwrap();
    let v0 = m.add_vertex();
    assert_eq!(*m.properties.access(prop, v0), 17);
    *m.properties.access_mut(prop, v0) = 42;
    assert_eq!(*m.properties.access(prop, v0), 42);

    // Face
    let prop = m.properties.add_face_property::<u32>("f:my_prop", 17).unwrap();
    let mut vvec = Vec::<Vertex>::new();
    let v1 = m.add_vertex();
    let v2 = m.add_vertex();
    vvec.push(v0);
    vvec.push(v1);
    vvec.push(v2);
    let f = m.add_face(&vvec).unwrap();
    assert_eq!(*m.properties.access(prop, f), 17);
    *m.properties.access_mut(prop, f) = 42;
    assert_eq!(*m.properties.access(prop, f), 42);

    // Edge
    let prop = m.properties.add_edge_property::<u32>("v:my_prop", 17).unwrap();
    let e = m.topology.edge(m.topology.find_halfedge(v0, v1).unwrap());
    assert_eq!(*m.properties.access(prop, e), 17);
    *m.properties.access_mut(prop, e) = 42;
    assert_eq!(*m.properties.access(prop, e), 42);

    // Halfedge
    let prop = m.properties.add_halfedge_property::<u32>("v:my_prop", 17).unwrap();
    let h = m.topology.find_halfedge(v2, v0).unwrap();
    assert_eq!(*m.properties.access(prop, h), 17);
    *m.properties.access_mut(prop, h) = 42;
    assert_eq!(*m.properties.access(prop, h), 42);
}

#[test]
#[should_panic]
fn invalid_property() {
    let mut m = Mesh::new();
    let prop = m.properties.get_vertex_property::<u32>("v:my_prop").unwrap();
    let v0 = m.add_vertex();
    m.properties.access(prop, v0);
}

#[test]
fn single_triangle_counts_and_boundary() {
    let (m, vvec, _) = triangle();
    assert_eq!(m.topology.n_faces(), 1);
    assert_eq!(m.topology.n_edges(), 3);
    assert_eq!(m.topology.n_halfedges(), 6);
    let h = m.topology.find_halfedge(vvec[0], vvec[1]).unwrap();
    assert!(!m.topology.is_boundary_halfedge(h));
    let oh = m.topology.opposite_halfedge(h);
    assert!(m.topology.is_boundary_halfedge(oh));
    assert_eq!(m.topology.to_vertex(h), vvec[1]);
    assert_eq!(m.topology.from_vertex(h), vvec[0]);
}

#[test]
fn two_triangles_share_an_edge() {
    let mut m = Mesh::new();
    let v = m.add_vertices(4);
    assert!(m.add_face(&vec![v[0], v[1], v[2]]).is_some());
    assert!(m.add_face(&vec![v[2], v[1], v[3]]).is_some());
    assert_eq!(m.topology.n_faces(), 2);
    assert_eq!(m.topology.n_edges(), 5);
    let h = m.topology.find_halfedge(v[1], v[2]).unwrap();
    let oh = m.topology.opposite_halfedge(h);
    let f0 = m.topology.face(h).unwrap();
    let f1 = m.topology.face(oh).unwrap();
    assert!(f0 != f1);
    assert!(m.add_face(&vec![v[2], v[1], v[3]]).is_none());
    assert_eq!(m.topology.n_faces(), 2);
}

#[test]
fn same_face_twice_is_rejected() {
    let mut m = Mesh::new();
    let v = m.add_vertices(4);
    let quad = vec![v[0], v[1], v[2], v[3]];
    assert!(m.add_face(&quad).is_some());
    assert!(m.add_face(&quad).is_none());
    assert_eq!(m.topology.n_faces(), 1);
    assert_eq!(m.topology.n_edges(), 4);
}

#[test]
fn interior_vertex_is_rejected() {
    // A fan of four triangles closes around the centre vertex c.
    let mut m = Mesh::new();
    let c = m.add_vertex();
    let r = m.add_vertices(4);
    for i in 0..4 {
        assert!(m.add_face(&vec![c, r[i], r[(i + 1) % 4]]).is_some());
    }
    assert!(!m.topology.is_boundary_vertex(c));
    let extra = m.add_vertex();
    let nv = m.topology.n_vertices();
    let nf = m.topology.n_faces();
    let ne = m.topology.n_edges();
    assert!(m.add_face(&vec![c, extra, r[0]]).is_none());
    assert_eq!(m.topology.n_vertices(), nv);
    assert_eq!(m.topology.n_faces(), nf);
    assert_eq!(m.topology.n_edges(), ne);
}

#[test]
fn next_and_prev_are_inverse() {
    let mut m = Mesh::new();
    let v = m.add_vertices(4);
    m.add_face(&vec![v[0], v[1], v[2]]).unwrap();
    m.add_face(&vec![v[2], v[1], v[3]]).unwrap();
    for i in 0..m.topology.n_halfedges() {
        let h = Halfedge::new(i);
        assert_eq!(m.topology.prev_halfedge(m.topology.next_halfedge(h)), h);
        assert_eq!(m.topology.next_halfedge(m.topology.prev_halfedge(h)), h);
        assert_eq!(m.topology.opposite_halfedge(m.topology.opposite_halfedge(h)), h);
    }
}

#[test]
fn opposite_flips_the_low_bit() {
    let (m, _, _) = triangle();
    assert_eq!(m.topology.opposite_halfedge(Halfedge::new(4)).idx(), 5);
    assert_eq!(m.topology.opposite_halfedge(Halfedge::new(5)).idx(), 4);
    assert_eq!(m.topology.edge(Halfedge::new(5)).idx(), 2);
    assert_eq!(m.topology.edge_halfedge(m.topology.edge(Halfedge::new(5)), 1).idx(), 5);
}

#[test]
fn reserve_keeps_capacity_until_exceeded() {
    let mut m = Mesh::new();
    m.vertex_reserve(15);
    assert_eq!(m.vertex_capacity(), 15);
    for _ in 0..15 {
        m.add_vertex();
        assert_eq!(m.vertex_capacity(), 15);
    }
    m.add_vertex();
    assert!(m.vertex_capacity() >= 16);
}

#[test]
fn face_and_edge_reserve() {
    let mut m = Mesh::new();
    m.face_reserve(17);
    assert_eq!(m.face_capacity(), 17);
    m.edge_reserve(17);
    assert_eq!(m.edge_capacity(), 17);
    assert_eq!(m.properties.hprop_.capacity(), 34);
    assert_eq!(m.properties.eprop_.capacity(), 17);
}

#[test]
fn add_vertices_returns_new_handles() {
    let mut m = Mesh::new();
    m.add_vertex();
    let vec = m.add_vertices(17);
    assert_eq!(m.topology.n_vertices(), 18);
    assert_eq!(vec.len(), 17);
    assert_eq!(vec[0].idx(), 1);
    assert_eq!(vec[16].idx(), 17);
    assert!(m.vertex_capacity() >= 18);
}

#[test]
fn new_vertex_gets_property_defaults() {
    let mut m = Mesh::new();
    let flag = m.properties.add_vertex_property::<bool>("v:flag", true).unwrap();
    let v = m.add_vertices(5);
    for x in &v {
        assert!(*m.properties.access(flag, *x));
    }
    *m.properties.access_mut(flag, v[2]) = false;
    for (i, x) in v.iter().enumerate() {
        assert_eq!(*m.properties.access(flag, *x), i != 2);
    }
    assert!(m.properties.add_vertex_property::<u32>("v:flag", 0).is_none());
    assert!(m.properties.get_vertex_property::<u32>("v:other").is_none());
    assert!(m.properties.get_vertex_property::<bool>("v:flag").is_some());
}

#[test]
fn face_input_ok_rejects_bad_boundaries() {
    let mut m = Mesh::new();
    let v = m.add_vertices(4);
    assert!(m.face_input_ok(&vec![v[0], v[1], v[2]]));
    assert!(!m.face_input_ok(&vec![v[0], v[1]]));
    assert!(!m.face_input_ok(&vec![v[0], v[1], v[0]]));
    assert!(!m.face_input_ok(&vec![v[0], v[1], Vertex::new(9)]));
}

#[test]
fn later_face_keeps_earlier_loop() {
    let mut m = Mesh::new();
    let v = m.add_vertices(5);
    let first = vec![v[0], v[1], v[2]];
    let f = m.add_face(&first).unwrap();
    m.add_face(&vec![v[2], v[1], v[3]]).unwrap();
    m.add_face(&vec![v[0], v[2], v[4]]).unwrap();
    let mut got = Vec::new();
    let mut c = m.topology.vertices_around_face(f);
    while let Some(x) = c.next() {
        got.push(x);
    }
    assert_eq!(got, first);
    let h = m.topology.find_halfedge(v[1], v[2]).unwrap();
    let oh = m.topology.find_halfedge(v[2], v[1]).unwrap();
    assert_eq!(m.topology.face(h), Some(f));
    assert!(m.topology.face(oh).is_some() && m.topology.face(oh) != Some(f));
}

#[test]
fn edge_and_halfedge_columns_grow_with_defaults() {
    let mut m = Mesh::new();
    let e = m.properties.add_edge_property::<u64>("e:len", 5).unwrap();
    let h = m.properties.add_halfedge_property::<i32>("h:tag", -1).unwrap();
    let v = m.add_vertices(3);
    m.add_face(&v).unwrap();
    assert_eq!(m.properties.eprop_.len(), 3);
    assert_eq!(m.properties.hprop_.len(), 6);
    for i in 0..3 {
        assert_eq!(*m.properties.access(e, lwmesh::Edge::new(i)), 5);
    }
    for i in 0..6 {
        assert_eq!(*m.properties.access(h, Halfedge::new(i)), -1);
    }
}
