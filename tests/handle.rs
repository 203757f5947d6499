use lwmesh::Vertex;
use std::cmp::Ordering;

#[test]
fn idx() {
    let idx = 42;
    let handle = Vertex::new(idx);
    assert!(handle.idx() == idx);
}

#[test]
fn cmp() {
    let idx1 = 42;
    let idx2 = 13;
    let h1 = Vertex::new(idx1);
    let h2 = Vertex::new(idx2);
    let h3 = Vertex::new(idx1);

    assert!(h1 != h2);
    assert!(h1 > h2);
    assert!(h2 < h1);
    assert!(h1 == h3);
    assert!(h1 <= h3);
    assert_eq!(h2.cmp(&h1), Ordering::Less);
    assert_eq!(h1.cmp(&h2), Ordering::Greater);
    assert_eq!(h1.cmp(&h3), Ordering::Equal);
}
