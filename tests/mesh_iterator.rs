use lwmesh::Mesh;
use lwmesh::Vertex;

#[test]
fn iterator_and_properties() {
    let mut m = Mesh::new();
    let vprop = m.properties.add_vertex_property::<u32>("v:my_prop", 17).unwrap();
    let fprop = m.properties.add_face_property::<u32>("f:my_prop", 17).unwrap();
    let eprop = m.properties.add_edge_property::<u32>("e:my_prop", 17).unwrap();
    let hprop = m.properties.add_halfedge_property::<u32>("h:my_prop", 17).unwrap();
    let mut vvec = Vec::<Vertex>::new();
    for _ in 0..3 {
        vvec.push(m.add_vertex());
    }
    m.add_face(&vvec);

    let mut it = m.topology.vertices();
    while let Some(v) = it.next() {
        *m.properties.access_mut(vprop, v) += 1;
        assert_eq!(18, *m.properties.access(vprop, v));
    }

    let mut it = m.topology.faces();
    while let Some(f) = it.next() {
        *m.properties.access_mut(fprop, f) += 1;
        assert_eq!(18, *m.properties.access(fprop, f));
    }

    let mut it = m.topology.edges();
    while let Some(e) = it.next() {
        *m.properties.access_mut(eprop, e) += 1;
        assert_eq!(18, *m.properties.access(eprop, e));
    }

    let mut it = m.topology.halfedges();
    while let Some(h) = it.next() {
        *m.properties.access_mut(hprop, h) += 1;
        assert_eq!(18, *m.properties.access(hprop, h));
    }
}

#[test]
fn around_iterator() {
    let mut m = Mesh::new();
    let mut vvec = Vec::<Vertex>::new();
    for _ in 0..3 {
        vvec.push(m.add_vertex());
    }
    let f = m.add_face(&vvec).unwrap();

    let mut i = 0;
    let mut c = m.topology.vertices_around_vertex(vvec[0]);
    while c.next().is_some() {
        i += 1;
    }
    assert_eq!(i, 2);

    let mut i = 0;
    let mut c = m.topology.halfedges_around_vertex(vvec[0]);
    while c.next().is_some() {
        i += 1;
    }
    assert_eq!(i, 2);

    let mut i = 0;
    let mut c = m.topology.faces_around_vertex(vvec[0]);
    while c.next().is_some() {
        i += 1;
    }
    assert_eq!(i, 1);

    let mut i = 0;
    let mut c = m.topology.vertices_around_face(f);
    while c.next().is_some() {
        i += 1;
    }
    assert_eq!(i, 3);

    let mut i = 0;
    let mut c = m.topology.halfedges_around_face(f);
    while c.next().is_some() {
        i += 1;
    }
    assert_eq!(i, 3);
}

#[test]
fn empty_iterator() {
    let mut m = Mesh::new();
    let v = m.add_vertex();
    let mut i = 0;
    let mut c = m.topology.vertices_around_vertex(v);
    while c.next().is_some() {
        i += 1;
    }
    assert_eq!(i, 0);
    let mut i = 0;
    let mut c = m.topology.faces_around_vertex(v);
    while c.next().is_some() {
        i += 1;
    }
    assert_eq!(i, 0);
    let mut i = 0;
    let mut c = m.topology.halfedges_around_vertex(v);
    while c.next().is_some() {
        i += 1;
    }
    assert_eq!(i, 0);
}

#[test]
fn face_yields_its_vertices_in_order() {
    let mut m = Mesh::new();
    let v = m.add_vertices(6);
    let first = vec![v[0], v[1], v[2], v[3]];
    let f = m.add_face(&first).unwrap();
    let second = vec![v[3], v[2], v[4], v[5]];
    let g = m.add_face(&second).unwrap();
    for (face, expected) in [(f, &first), (g, &second)] {
        let mut got = Vec::new();
        let mut c = m.topology.vertices_around_face(face);
        while let Some(x) = c.next() {
            got.push(x);
        }
        assert_eq!(&got, expected);
        let mut n = 0;
        let mut c = m.topology.halfedges_around_face(face);
        while let Some(h) = c.next() {
            assert_eq!(m.topology.face(h), Some(face));
            n += 1;
        }
        assert_eq!(n, expected.len());
    }
}

#[test]
fn rings_around_a_shared_vertex() {
    let mut m = Mesh::new();
    let v = m.add_vertices(4);
    m.add_face(&vec![v[0], v[1], v[2]]).unwrap();
    m.add_face(&vec![v[2], v[1], v[3]]).unwrap();
    let mut around = Vec::new();
    let mut c = m.topology.vertices_around_vertex(v[1]);
    while let Some(x) = c.next() {
        around.push(x.idx());
    }
    around.sort();
    assert_eq!(around, vec![0, 2, 3]);
    let mut faces = 0;
    let mut c = m.topology.faces_around_vertex(v[1]);
    while c.next().is_some() {
        faces += 1;
    }
    assert_eq!(faces, 2);
    let mut outgoing = 0;
    let mut c = m.topology.halfedges_around_vertex(v[1]);
    while let Some(h) = c.next() {
        assert_eq!(m.topology.from_vertex(h), v[1]);
        outgoing += 1;
    }
    assert_eq!(outgoing, 3);
}
