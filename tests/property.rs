use lwmesh::PropertyContainer;
use lwmesh::Vertex;

#[test]
fn len() {
    let mut pcontainer = PropertyContainer::<Vertex>::new();
    assert!(pcontainer.len() == 0);
    pcontainer.push();
    assert!(pcontainer.len() == 1);
    pcontainer.push();
    pcontainer.push();
    assert!(pcontainer.len() == 3);
}

#[test]
fn reserve_and_capacity() {
    let mut pcontainer = PropertyContainer::<Vertex>::new();
    pcontainer.reserve(16);
    assert!(16 <= pcontainer.capacity());
    pcontainer.reserve(33);
    assert!(33 <= pcontainer.capacity());
}

#[test]
fn push() {
    let mut pcontainer = PropertyContainer::<Vertex>::new();
    assert!(pcontainer.len() == 0);
    let size = 5;
    for _ in 0..size {
        pcontainer.push();
    }
    assert!(pcontainer.len() == size);
}

#[test]
fn add() {
    let mut pcontainer = PropertyContainer::<Vertex>::new();
    let prop = pcontainer.add::<u32>("v:my_prop", 17);
    assert!(prop.is_some());
    let prop = pcontainer.add::<u32>("v:my_prop", 17);
    assert!(prop.is_none());
}

#[test]
fn get() {
    let mut pcontainer = PropertyContainer::<Vertex>::new();
    let prop = pcontainer.get::<u32>("v:my_prop");
    assert!(prop.is_none());
    let prop = pcontainer.add::<u32>("v:my_prop", 17);
    assert!(prop.is_some());
    let prop = pcontainer.get::<u32>("v:my_prop");
    assert!(prop.is_some());
}

#[test]
fn reserve_and_add() {
    let mut pcontainer = PropertyContainer::<Vertex>::new();
    pcontainer.reserve(17);
    assert!(17 <= pcontainer.capacity());
    let prop = pcontainer.add::<u32>("v:my_prop", 0).unwrap();
    assert_eq!(pcontainer.property_capacity(prop), 17);
}

#[test]
fn push_and_add() {
    let mut pcontainer = PropertyContainer::<Vertex>::new();
    pcontainer.push();
    let v0 = Vertex::new(pcontainer.len() - 1);
    assert!(1 == pcontainer.len());
    let prop = pcontainer.add::<u32>("v:my_prop", 17).unwrap();
    pcontainer.push();
    let v1 = Vertex::new(pcontainer.len() - 1);
    assert!(2 == pcontainer.len());
    assert_eq!(*pcontainer.access(prop, v0), 17);
    assert_eq!(*pcontainer.access(prop, v1), 17);
}

#[test]
fn access() {
    let mut pcontainer = PropertyContainer::<Vertex>::new();
    let prop = pcontainer.add::<u32>("v:my_prop", 17).unwrap();
    pcontainer.push();
    let v = Vertex::new(pcontainer.len() - 1);
    assert_eq!(*pcontainer.access(prop, v), 17);
    *pcontainer.access_mut(prop, v) = 42;
    assert_eq!(*pcontainer.access(prop, v), 42);
}

#[test]
#[should_panic]
fn access_out_of_bound() {
    let mut pcontainer = PropertyContainer::<Vertex>::new();
    let v = Vertex::new(8);
    let prop = pcontainer.add::<u32>("v:my_prop", 17).unwrap();
    pcontainer.access(prop, v);
}

#[test]
fn add_same_name_other_type_is_rejected() {
    let mut pcontainer = PropertyContainer::<Vertex>::new();
    assert!(pcontainer.add::<u32>("v:flag", 1).is_some());
    assert!(pcontainer.add::<bool>("v:flag", true).is_none());
    assert!(pcontainer.get::<bool>("v:flag").is_none());
    assert!(pcontainer.get::<u32>("v:flag").is_some());
}

#[test]
fn defaults_fill_and_values_stay_apart() {
    let mut pcontainer = PropertyContainer::<Vertex>::new();
    let prop = pcontainer.add::<i64>("v:weight", -3).unwrap();
    for _ in 0..10 {
        pcontainer.push();
    }
    for i in 0..10 {
        assert_eq!(*pcontainer.access(prop, Vertex::new(i)), -3);
    }
    *pcontainer.access_mut(prop, Vertex::new(4)) = 99;
    for i in 0..10 {
        let expected = if i == 4 { 99 } else { -3 };
        assert_eq!(*pcontainer.access(prop, Vertex::new(i)), expected);
    }
}

#[test]
fn add_backfills_existing_elements() {
    let mut pcontainer = PropertyContainer::<Vertex>::new();
    pcontainer.push();
    pcontainer.push();
    let prop = pcontainer.add::<Option<Vertex>>("v:map", None).unwrap();
    assert_eq!(*pcontainer.access(prop, Vertex::new(0)), None);
    assert_eq!(*pcontainer.access(prop, Vertex::new(1)), None);
    *pcontainer.access_mut(prop, Vertex::new(1)) = Some(Vertex::new(7));
    assert_eq!(*pcontainer.access(prop, Vertex::new(1)), Some(Vertex::new(7)));
    assert_eq!(*pcontainer.access(prop, Vertex::new(0)), None);
}
