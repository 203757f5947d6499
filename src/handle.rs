//! Type-tagged indices for the elements of a mesh.
use core::marker::PhantomData;
use vstd::prelude::*;

verus! {

/// Tag of vertex handles.
#[derive(Copy, Clone, Debug, PartialEq, Eq, PartialOrd, Ord, Hash)]
pub struct PhantomVertex;

/// Tag of face handles.
#[derive(Copy, Clone, Debug, PartialEq, Eq, PartialOrd, Ord, Hash)]
pub struct PhantomFace;

/// Tag of edge handles.
#[derive(Copy, Clone, Debug, PartialEq, Eq, PartialOrd, Ord, Hash)]
pub struct PhantomEdge;

/// Tag of halfedge handles.
#[derive(Copy, Clone, Debug, PartialEq, Eq, PartialOrd, Ord, Hash)]
pub struct PhantomHalfedge;

/// Tag of property handles.
#[derive(Copy, Clone, Debug, PartialEq, Eq, PartialOrd, Ord, Hash)]
pub struct PhantomProperty;

pub type Vertex = Handle<PhantomVertex>;

pub type Face = Handle<PhantomFace>;

pub type Edge = Handle<PhantomEdge>;

pub type Halfedge = Handle<PhantomHalfedge>;

pub type PropertyVertex<T> = Handle<(PhantomVertex, T)>;

pub type PropertyFace<T> = Handle<(PhantomFace, T)>;

pub type PropertyEdge<T> = Handle<(PhantomEdge, T)>;

pub type PropertyHalfedge<T> = Handle<(PhantomHalfedge, T)>;

/// An index tagged at compile time by the kind of element it designates.
///
/// Two handles compare as their indices do.
#[derive(Debug, PartialEq, Eq, PartialOrd, Ord, Hash)]
pub struct Handle<A> {
    pub type_: PhantomData<A>,
    pub index_: usize,
}

impl<A> Clone for Handle<A> {
    fn clone(&self) -> (r: Self)
        ensures
            r == *self,
    {
        Handle { type_: PhantomData, index_: self.index_ }
    }
}

impl<A> Copy for Handle<A> {

}

impl<A> Handle<A> {
    /// The index that the handle designates.
    pub open spec fn id(self) -> nat {
        self.index_ as nat
    }

    /// The handle of index `i`, as a value of the logic.
    pub open spec fn at(i: nat) -> Handle<A> {
        Handle { type_: PhantomData, index_: i as usize }
    }

    /// Constructs the handle of index `idx`.
    pub fn new(idx: usize) -> (r: Handle<A>)
        ensures
            r.id() == idx,
    {
        Handle { type_: PhantomData, index_: idx }
    }

    /// Returns the index of the handle.
    pub fn idx(&self) -> (r: usize)
        ensures
            r == self.id(),
    {
        self.index_
    }
}

} // verus!
