//! Typed columns of per-element values, and named heterogeneous sets of them.
use crate::handle::{Edge, Face, Halfedge, Handle, Vertex};
use core::marker::PhantomData;
use vstd::prelude::*;
use vstd::string::StringSliceAdditionalSpecFns;

verus! {

/// What a column offers whatever the type of its values: its length, room
/// to grow, and growth by one default slot.
pub trait ResizableVec {
    /// The number of slots.
    spec fn slots(&self) -> nat;

    /// Returns the number of slots.
    fn len(&self) -> (r: usize)
        ensures
            r == self.slots(),
    ;

    /// Makes room for more slots; the slots are unchanged.
    fn reserve(&mut self, size: usize)
        ensures
            final(self).slots() == old(self).slots(),
    ;

    /// Returns the number of slots the column holds room for.
    fn capacity(&self) -> (r: usize)
        ensures
            r >= self.slots(),
    ;

    /// Appends a slot holding the default value.
    fn push(&mut self)
        requires
            old(self).slots() < usize::MAX,
        ensures
            final(self).slots() == old(self).slots() + 1,
    ;
}

/// A growable column of values of type `D`, indexed by handles `H`, whose new
/// slots take a default value.
pub struct PropertyVec<H, D> {
    default_: D,
    data_: Vec<D>,
    capacity_: usize,
    handle_: PhantomData<H>,
}

impl<H, D> View for PropertyVec<H, D> {
    type V = Seq<D>;

    closed spec fn view(&self) -> Seq<D> {
        self.data_@
    }
}

impl<T, D: Copy> PropertyVec<Handle<T>, D> {
    /// The value that new slots take.
    pub closed spec fn default_value(&self) -> D {
        self.default_
    }

    /// The number of slots the column holds room for: at least what was
    /// reserved, and at least its length.
    pub closed spec fn room(&self) -> nat {
        if self.capacity_ >= self.data_@.len() {
            self.capacity_ as nat
        } else {
            self.data_@.len()
        }
    }

    /// A column never holds more than `usize::MAX` slots.
    pub proof fn lemma_len_fits(&self)
        ensures
            self@.len() <= usize::MAX,
    {
        assert(self.data_.len() == self.data_@.len());
    }

    /// Constructs an empty column whose new slots take `default_value`.
    pub fn new(default_value: D) -> (r: Self)
        ensures
            r@ == Seq::<D>::empty(),
            r.default_value() == default_value,
            r.room() == 0,
    {
        PropertyVec { default_: default_value, data_: Vec::new(), capacity_: 0, handle_: PhantomData }
    }

    /// Makes room for at least `size` slots; the values are unchanged.
    pub fn reserve(&mut self, size: usize)
        ensures
            final(self)@ == old(self)@,
            final(self).default_value() == old(self).default_value(),
            final(self).room() == if old(self).room() >= size { old(self).room() } else { size as nat },
    {
        self.data_.reserve(size);
        if size > self.capacity_ {
            self.capacity_ = size;
        }
    }

    /// The number of slots.
    pub fn len(&self) -> (r: usize)
        ensures
            r == self@.len(),
    {
        self.data_.len()
    }

    /// The number of slots the column holds room for.
    pub fn capacity(&self) -> (r: usize)
        ensures
            r == self.room(),
    {
        if self.capacity_ >= self.data_.len() {
            self.capacity_
        } else {
            self.data_.len()
        }
    }

    /// Appends a slot holding the default value.
    pub fn push(&mut self)
        requires
            old(self)@.len() < usize::MAX,
        ensures
            final(self)@ == old(self)@.push(old(self).default_value()),
            final(self).default_value() == old(self).default_value(),
            final(self).room() == if old(self).room() > old(self)@.len() { old(self).room() } else { old(self)@.len() + 1 },
    {
        let d = self.default_;
        self.data_.push(d);
    }

    /// The value of slot `h`.
    pub fn get(&self, h: Handle<T>) -> (r: &D)
        requires
            h.id() < self@.len(),
        ensures
            *r == self@[h.id() as int],
    {
        &self.data_[h.index_]
    }

    /// Mutable access to the value of slot `h`.
    pub fn get_mut(&mut self, h: Handle<T>) -> (r: &mut D)
        requires
            h.id() < old(self)@.len(),
        ensures
            *r == old(self)@[h.id() as int],
            final(self)@ == old(self)@.update(h.id() as int, *final(r)),
            final(self).default_value() == old(self).default_value(),
            final(self).room() == old(self).room(),
    {
        &mut self.data_[h.index_]
    }

    /// Stores `value` in slot `h`.
    pub fn set(&mut self, h: Handle<T>, value: D)
        requires
            h.id() < old(self)@.len(),
        ensures
            final(self)@ == old(self)@.update(h.id() as int, value),
            final(self).default_value() == old(self).default_value(),
            final(self).room() == old(self).room(),
    {
        self.data_.set(h.index_, value);
    }
}

/// Relies on `Vec::capacity`: the room a vector holds is at least its length.
#[verifier::external_body]
fn vec_capacity<D>(v: &Vec<D>) -> (r: usize)
    ensures
        r >= v@.len(),
{
    v.capacity()
}

/// Whether two names are the same string, byte for byte.
fn same_name(a: &str, b: &str) -> (r: bool)
    ensures
        r == (a.spec_bytes() == b.spec_bytes()),
{
    let x = a.as_bytes();
    let y = b.as_bytes();
    if x.len() != y.len() {
        return false;
    }
    let mut i: usize = 0;
    while i < x.len()
        invariant
            x@ == a.spec_bytes(),
            y@ == b.spec_bytes(),
            x@.len() == y@.len(),
            i <= x@.len(),
            forall|j: int| 0 <= j < i ==> x@[j] == y@[j],
        decreases x@.len() - i,
    {
        if x[i] != y[i] {
            return false;
        }
        i = i + 1;
    }
    assert(x@ =~= y@);
    true
}

/// A column of values of one of the supported types, with the default value
/// that its new slots take.
pub enum PropertyColumn {
    Bool(bool, Vec<bool>),
    U8(u8, Vec<u8>),
    U32(u32, Vec<u32>),
    U64(u64, Vec<u64>),
    Usize(usize, Vec<usize>),
    I32(i32, Vec<i32>),
    I64(i64, Vec<i64>),
    VertexHandle(Option<Vertex>, Vec<Option<Vertex>>),
    FaceHandle(Option<Face>, Vec<Option<Face>>),
    EdgeHandle(Option<Edge>, Vec<Option<Edge>>),
    HalfedgeHandle(Option<Halfedge>, Vec<Option<Halfedge>>),
}

/// What a column holds: its type, its default value and its values.
pub enum ColumnView {
    Bool(bool, Seq<bool>),
    U8(u8, Seq<u8>),
    U32(u32, Seq<u32>),
    U64(u64, Seq<u64>),
    Usize(usize, Seq<usize>),
    I32(i32, Seq<i32>),
    I64(i64, Seq<i64>),
    VertexHandle(Option<Vertex>, Seq<Option<Vertex>>),
    FaceHandle(Option<Face>, Seq<Option<Face>>),
    EdgeHandle(Option<Edge>, Seq<Option<Edge>>),
    HalfedgeHandle(Option<Halfedge>, Seq<Option<Halfedge>>),
}

impl View for PropertyColumn {
    type V = ColumnView;

    open spec fn view(&self) -> ColumnView {
        match self {
            PropertyColumn::Bool(d, x) => ColumnView::Bool(*d, x@),
            PropertyColumn::U8(d, x) => ColumnView::U8(*d, x@),
            PropertyColumn::U32(d, x) => ColumnView::U32(*d, x@),
            PropertyColumn::U64(d, x) => ColumnView::U64(*d, x@),
            PropertyColumn::Usize(d, x) => ColumnView::Usize(*d, x@),
            PropertyColumn::I32(d, x) => ColumnView::I32(*d, x@),
            PropertyColumn::I64(d, x) => ColumnView::I64(*d, x@),
            PropertyColumn::VertexHandle(d, x) => ColumnView::VertexHandle(*d, x@),
            PropertyColumn::FaceHandle(d, x) => ColumnView::FaceHandle(*d, x@),
            PropertyColumn::EdgeHandle(d, x) => ColumnView::EdgeHandle(*d, x@),
            PropertyColumn::HalfedgeHandle(d, x) => ColumnView::HalfedgeHandle(*d, x@),
        }
    }
}

impl ColumnView {
    /// The number of values.
    pub open spec fn len(self) -> nat {
        match self {
            ColumnView::Bool(_, x) => x.len(),
            ColumnView::U8(_, x) => x.len(),
            ColumnView::U32(_, x) => x.len(),
            ColumnView::U64(_, x) => x.len(),
            ColumnView::Usize(_, x) => x.len(),
            ColumnView::I32(_, x) => x.len(),
            ColumnView::I64(_, x) => x.len(),
            ColumnView::VertexHandle(_, x) => x.len(),
            ColumnView::FaceHandle(_, x) => x.len(),
            ColumnView::EdgeHandle(_, x) => x.len(),
            ColumnView::HalfedgeHandle(_, x) => x.len(),
        }
    }

    /// The column with one more slot, holding the default value.
    pub open spec fn pushed(self) -> ColumnView {
        match self {
            ColumnView::Bool(d, x) => ColumnView::Bool(d, x.push(d)),
            ColumnView::U8(d, x) => ColumnView::U8(d, x.push(d)),
            ColumnView::U32(d, x) => ColumnView::U32(d, x.push(d)),
            ColumnView::U64(d, x) => ColumnView::U64(d, x.push(d)),
            ColumnView::Usize(d, x) => ColumnView::Usize(d, x.push(d)),
            ColumnView::I32(d, x) => ColumnView::I32(d, x.push(d)),
            ColumnView::I64(d, x) => ColumnView::I64(d, x.push(d)),
            ColumnView::VertexHandle(d, x) => ColumnView::VertexHandle(d, x.push(d)),
            ColumnView::FaceHandle(d, x) => ColumnView::FaceHandle(d, x.push(d)),
            ColumnView::EdgeHandle(d, x) => ColumnView::EdgeHandle(d, x.push(d)),
            ColumnView::HalfedgeHandle(d, x) => ColumnView::HalfedgeHandle(d, x.push(d)),
        }
    }

    /// The column with `k` more slots, each holding the default value.
    pub open spec fn pushed_n(self, k: nat) -> ColumnView
        decreases k,
    {
        if k == 0 {
            self
        } else {
            self.pushed_n((k - 1) as nat).pushed()
        }
    }

    /// The two columns hold values of the same type.
    pub open spec fn same_kind(self, other: ColumnView) -> bool {
        match (self, other) {
            (ColumnView::Bool(_, _), ColumnView::Bool(_, _)) => true,
            (ColumnView::U8(_, _), ColumnView::U8(_, _)) => true,
            (ColumnView::U32(_, _), ColumnView::U32(_, _)) => true,
            (ColumnView::U64(_, _), ColumnView::U64(_, _)) => true,
            (ColumnView::Usize(_, _), ColumnView::Usize(_, _)) => true,
            (ColumnView::I32(_, _), ColumnView::I32(_, _)) => true,
            (ColumnView::I64(_, _), ColumnView::I64(_, _)) => true,
            (ColumnView::VertexHandle(_, _), ColumnView::VertexHandle(_, _)) => true,
            (ColumnView::FaceHandle(_, _), ColumnView::FaceHandle(_, _)) => true,
            (ColumnView::EdgeHandle(_, _), ColumnView::EdgeHandle(_, _)) => true,
            (ColumnView::HalfedgeHandle(_, _), ColumnView::HalfedgeHandle(_, _)) => true,
            _ => false,
        }
    }
}

impl PropertyColumn {
    /// Returns the number of values.
    pub fn len(&self) -> (r: usize)
        ensures
            r == self@.len(),
    {
        match self {
            PropertyColumn::Bool(_, x) => x.len(),
            PropertyColumn::U8(_, x) => x.len(),
            PropertyColumn::U32(_, x) => x.len(),
            PropertyColumn::U64(_, x) => x.len(),
            PropertyColumn::Usize(_, x) => x.len(),
            PropertyColumn::I32(_, x) => x.len(),
            PropertyColumn::I64(_, x) => x.len(),
            PropertyColumn::VertexHandle(_, x) => x.len(),
            PropertyColumn::FaceHandle(_, x) => x.len(),
            PropertyColumn::EdgeHandle(_, x) => x.len(),
            PropertyColumn::HalfedgeHandle(_, x) => x.len(),
        }
    }

    /// Appends a slot holding the default value.
    pub fn push(&mut self)
        requires
            old(self)@.len() < usize::MAX,
        ensures
            final(self)@ == old(self)@.pushed(),
    {
        match self {
            PropertyColumn::Bool(d, x) => {
                let e = *d;
                x.push(e);
            },
            PropertyColumn::U8(d, x) => {
                let e = *d;
                x.push(e);
            },
            PropertyColumn::U32(d, x) => {
                let e = *d;
                x.push(e);
            },
            PropertyColumn::U64(d, x) => {
                let e = *d;
                x.push(e);
            },
            PropertyColumn::Usize(d, x) => {
                let e = *d;
                x.push(e);
            },
            PropertyColumn::I32(d, x) => {
                let e = *d;
                x.push(e);
            },
            PropertyColumn::I64(d, x) => {
                let e = *d;
                x.push(e);
            },
            PropertyColumn::VertexHandle(d, x) => {
                let e = *d;
                x.push(e);
            },
            PropertyColumn::FaceHandle(d, x) => {
                let e = *d;
                x.push(e);
            },
            PropertyColumn::EdgeHandle(d, x) => {
                let e = *d;
                x.push(e);
            },
            PropertyColumn::HalfedgeHandle(d, x) => {
                let e = *d;
                x.push(e);
            },
        }
    }

    /// Returns the number of values the column holds room for.
    pub fn capacity(&self) -> (r: usize)
        ensures
            r >= self@.len(),
    {
        match self {
            PropertyColumn::Bool(_, x) => vec_capacity(x),
            PropertyColumn::U8(_, x) => vec_capacity(x),
            PropertyColumn::U32(_, x) => vec_capacity(x),
            PropertyColumn::U64(_, x) => vec_capacity(x),
            PropertyColumn::Usize(_, x) => vec_capacity(x),
            PropertyColumn::I32(_, x) => vec_capacity(x),
            PropertyColumn::I64(_, x) => vec_capacity(x),
            PropertyColumn::VertexHandle(_, x) => vec_capacity(x),
            PropertyColumn::FaceHandle(_, x) => vec_capacity(x),
            PropertyColumn::EdgeHandle(_, x) => vec_capacity(x),
            PropertyColumn::HalfedgeHandle(_, x) => vec_capacity(x),
        }
    }

    /// Makes room for at least `size` more values; the values are unchanged.
    pub fn reserve(&mut self, size: usize)
        ensures
            final(self)@ == old(self)@,
    {
        match self {
            PropertyColumn::Bool(_, x) => x.reserve(size),
            PropertyColumn::U8(_, x) => x.reserve(size),
            PropertyColumn::U32(_, x) => x.reserve(size),
            PropertyColumn::U64(_, x) => x.reserve(size),
            PropertyColumn::Usize(_, x) => x.reserve(size),
            PropertyColumn::I32(_, x) => x.reserve(size),
            PropertyColumn::I64(_, x) => x.reserve(size),
            PropertyColumn::VertexHandle(_, x) => x.reserve(size),
            PropertyColumn::FaceHandle(_, x) => x.reserve(size),
            PropertyColumn::EdgeHandle(_, x) => x.reserve(size),
            PropertyColumn::HalfedgeHandle(_, x) => x.reserve(size),
        }
    }
}

impl<T, D: Copy> ResizableVec for PropertyVec<Handle<T>, D> {
    open spec fn slots(&self) -> nat {
        self@.len()
    }

    fn len(&self) -> (r: usize) {
        PropertyVec::len(self)
    }

    fn reserve(&mut self, size: usize) {
        PropertyVec::reserve(self, size)
    }

    fn capacity(&self) -> (r: usize) {
        proof {
            assert(self.room() >= self@.len());
        }
        PropertyVec::capacity(self)
    }

    fn push(&mut self) {
        PropertyVec::push(self)
    }
}

impl ResizableVec for PropertyColumn {
    open spec fn slots(&self) -> nat {
        self@.len()
    }

    fn len(&self) -> (r: usize) {
        PropertyColumn::len(self)
    }

    fn reserve(&mut self, size: usize) {
        PropertyColumn::reserve(self, size)
    }

    fn capacity(&self) -> (r: usize) {
        PropertyColumn::capacity(self)
    }

    fn push(&mut self) {
        PropertyColumn::push(self)
    }
}

/// A type whose values a property column can hold.
pub trait PropertyValue: Copy + Sized {
    /// The default value and the values of a column of this type; none for a
    /// column of another type.
    spec fn data_of(c: ColumnView) -> Option<(Self, Seq<Self>)>;

    /// What a column of this type holds follows its length, its growth and
    /// its type.
    proof fn lemma_column(c: ColumnView, e: ColumnView)
        ensures
            Self::data_of(c) matches Some(d) ==> d.1.len() == c.len() && Self::data_of(c.pushed()) == Some(
                (d.0, d.1.push(d.0)),
            ),
            c.same_kind(e) ==> (Self::data_of(c) is Some <==> Self::data_of(e) is Some),
    ;

    /// An empty column of this type whose new slots take `default_value`.
    fn column(default_value: Self) -> (r: PropertyColumn)
        ensures
            Self::data_of(r@) == Some((default_value, Seq::<Self>::empty())),
    ;

    /// Whether `c` holds values of this type.
    fn is_column(c: &PropertyColumn) -> (r: bool)
        ensures
            r == Self::data_of(c@) is Some,
    ;

    /// Value `i` of column `c`.
    fn value(c: &PropertyColumn, i: usize) -> (r: &Self)
        requires
            Self::data_of(c@) matches Some(d) && i < d.1.len(),
        ensures
            Self::data_of(c@) matches Some(d) && *r == d.1[i as int],
    ;

    /// Mutable access to value `i` of column `c`.
    fn value_mut(c: &mut PropertyColumn, i: usize) -> (r: &mut Self)
        requires
            Self::data_of(old(c)@) matches Some(d) && i < d.1.len(),
        ensures
            Self::data_of(old(c)@) matches Some(d) && *r == d.1[i as int] && Self::data_of(final(c)@) == Some(
                (d.0, d.1.update(i as int, *final(r))),
            ),
            final(c)@.len() == old(c)@.len(),
            final(c)@.same_kind(old(c)@),
    ;
}

impl PropertyValue for bool {
    open spec fn data_of(c: ColumnView) -> Option<(bool, Seq<bool>)> {
        match c {
            ColumnView::Bool(d, x) => Some((d, x)),
            _ => None,
        }
    }

    proof fn lemma_column(c: ColumnView, e: ColumnView) {
    }

    fn column(default_value: bool) -> (r: PropertyColumn) {
        PropertyColumn::Bool(default_value, Vec::new())
    }

    fn is_column(c: &PropertyColumn) -> (r: bool) {
        match c {
            PropertyColumn::Bool(_, _) => true,
            _ => false,
        }
    }

    fn value(c: &PropertyColumn, i: usize) -> (r: &bool) {
        match c {
            PropertyColumn::Bool(_, x) => &x[i],
            _ => vstd::pervasive::unreached(),
        }
    }

    fn value_mut(c: &mut PropertyColumn, i: usize) -> (r: &mut bool) {
        match c {
            PropertyColumn::Bool(_, x) => &mut x[i],
            _ => vstd::pervasive::unreached(),
        }
    }
}

impl PropertyValue for u8 {
    open spec fn data_of(c: ColumnView) -> Option<(u8, Seq<u8>)> {
        match c {
            ColumnView::U8(d, x) => Some((d, x)),
            _ => None,
        }
    }

    proof fn lemma_column(c: ColumnView, e: ColumnView) {
    }

    fn column(default_value: u8) -> (r: PropertyColumn) {
        PropertyColumn::U8(default_value, Vec::new())
    }

    fn is_column(c: &PropertyColumn) -> (r: bool) {
        match c {
            PropertyColumn::U8(_, _) => true,
            _ => false,
        }
    }

    fn value(c: &PropertyColumn, i: usize) -> (r: &u8) {
        match c {
            PropertyColumn::U8(_, x) => &x[i],
            _ => vstd::pervasive::unreached(),
        }
    }

    fn value_mut(c: &mut PropertyColumn, i: usize) -> (r: &mut u8) {
        match c {
            PropertyColumn::U8(_, x) => &mut x[i],
            _ => vstd::pervasive::unreached(),
        }
    }
}

impl PropertyValue for u32 {
    open spec fn data_of(c: ColumnView) -> Option<(u32, Seq<u32>)> {
        match c {
            ColumnView::U32(d, x) => Some((d, x)),
            _ => None,
        }
    }

    proof fn lemma_column(c: ColumnView, e: ColumnView) {
    }

    fn column(default_value: u32) -> (r: PropertyColumn) {
        PropertyColumn::U32(default_value, Vec::new())
    }

    fn is_column(c: &PropertyColumn) -> (r: bool) {
        match c {
            PropertyColumn::U32(_, _) => true,
            _ => false,
        }
    }

    fn value(c: &PropertyColumn, i: usize) -> (r: &u32) {
        match c {
            PropertyColumn::U32(_, x) => &x[i],
            _ => vstd::pervasive::unreached(),
        }
    }

    fn value_mut(c: &mut PropertyColumn, i: usize) -> (r: &mut u32) {
        match c {
            PropertyColumn::U32(_, x) => &mut x[i],
            _ => vstd::pervasive::unreached(),
        }
    }
}

impl PropertyValue for u64 {
    open spec fn data_of(c: ColumnView) -> Option<(u64, Seq<u64>)> {
        match c {
            ColumnView::U64(d, x) => Some((d, x)),
            _ => None,
        }
    }

    proof fn lemma_column(c: ColumnView, e: ColumnView) {
    }

    fn column(default_value: u64) -> (r: PropertyColumn) {
        PropertyColumn::U64(default_value, Vec::new())
    }

    fn is_column(c: &PropertyColumn) -> (r: bool) {
        match c {
            PropertyColumn::U64(_, _) => true,
            _ => false,
        }
    }

    fn value(c: &PropertyColumn, i: usize) -> (r: &u64) {
        match c {
            PropertyColumn::U64(_, x) => &x[i],
            _ => vstd::pervasive::unreached(),
        }
    }

    fn value_mut(c: &mut PropertyColumn, i: usize) -> (r: &mut u64) {
        match c {
            PropertyColumn::U64(_, x) => &mut x[i],
            _ => vstd::pervasive::unreached(),
        }
    }
}

impl PropertyValue for usize {
    open spec fn data_of(c: ColumnView) -> Option<(usize, Seq<usize>)> {
        match c {
            ColumnView::Usize(d, x) => Some((d, x)),
            _ => None,
        }
    }

    proof fn lemma_column(c: ColumnView, e: ColumnView) {
    }

    fn column(default_value: usize) -> (r: PropertyColumn) {
        PropertyColumn::Usize(default_value, Vec::new())
    }

    fn is_column(c: &PropertyColumn) -> (r: bool) {
        match c {
            PropertyColumn::Usize(_, _) => true,
            _ => false,
        }
    }

    fn value(c: &PropertyColumn, i: usize) -> (r: &usize) {
        match c {
            PropertyColumn::Usize(_, x) => &x[i],
            _ => vstd::pervasive::unreached(),
        }
    }

    fn value_mut(c: &mut PropertyColumn, i: usize) -> (r: &mut usize) {
        match c {
            PropertyColumn::Usize(_, x) => &mut x[i],
            _ => vstd::pervasive::unreached(),
        }
    }
}

impl PropertyValue for i32 {
    open spec fn data_of(c: ColumnView) -> Option<(i32, Seq<i32>)> {
        match c {
            ColumnView::I32(d, x) => Some((d, x)),
            _ => None,
        }
    }

    proof fn lemma_column(c: ColumnView, e: ColumnView) {
    }

    fn column(default_value: i32) -> (r: PropertyColumn) {
        PropertyColumn::I32(default_value, Vec::new())
    }

    fn is_column(c: &PropertyColumn) -> (r: bool) {
        match c {
            PropertyColumn::I32(_, _) => true,
            _ => false,
        }
    }

    fn value(c: &PropertyColumn, i: usize) -> (r: &i32) {
        match c {
            PropertyColumn::I32(_, x) => &x[i],
            _ => vstd::pervasive::unreached(),
        }
    }

    fn value_mut(c: &mut PropertyColumn, i: usize) -> (r: &mut i32) {
        match c {
            PropertyColumn::I32(_, x) => &mut x[i],
            _ => vstd::pervasive::unreached(),
        }
    }
}

impl PropertyValue for i64 {
    open spec fn data_of(c: ColumnView) -> Option<(i64, Seq<i64>)> {
        match c {
            ColumnView::I64(d, x) => Some((d, x)),
            _ => None,
        }
    }

    proof fn lemma_column(c: ColumnView, e: ColumnView) {
    }

    fn column(default_value: i64) -> (r: PropertyColumn) {
        PropertyColumn::I64(default_value, Vec::new())
    }

    fn is_column(c: &PropertyColumn) -> (r: bool) {
        match c {
            PropertyColumn::I64(_, _) => true,
            _ => false,
        }
    }

    fn value(c: &PropertyColumn, i: usize) -> (r: &i64) {
        match c {
            PropertyColumn::I64(_, x) => &x[i],
            _ => vstd::pervasive::unreached(),
        }
    }

    fn value_mut(c: &mut PropertyColumn, i: usize) -> (r: &mut i64) {
        match c {
            PropertyColumn::I64(_, x) => &mut x[i],
            _ => vstd::pervasive::unreached(),
        }
    }
}

impl PropertyValue for Option<Vertex> {
    open spec fn data_of(c: ColumnView) -> Option<(Option<Vertex>, Seq<Option<Vertex>>)> {
        match c {
            ColumnView::VertexHandle(d, x) => Some((d, x)),
            _ => None,
        }
    }

    proof fn lemma_column(c: ColumnView, e: ColumnView) {
    }

    fn column(default_value: Option<Vertex>) -> (r: PropertyColumn) {
        PropertyColumn::VertexHandle(default_value, Vec::new())
    }

    fn is_column(c: &PropertyColumn) -> (r: bool) {
        match c {
            PropertyColumn::VertexHandle(_, _) => true,
            _ => false,
        }
    }

    fn value(c: &PropertyColumn, i: usize) -> (r: &Option<Vertex>) {
        match c {
            PropertyColumn::VertexHandle(_, x) => &x[i],
            _ => vstd::pervasive::unreached(),
        }
    }

    fn value_mut(c: &mut PropertyColumn, i: usize) -> (r: &mut Option<Vertex>) {
        match c {
            PropertyColumn::VertexHandle(_, x) => &mut x[i],
            _ => vstd::pervasive::unreached(),
        }
    }
}

impl PropertyValue for Option<Face> {
    open spec fn data_of(c: ColumnView) -> Option<(Option<Face>, Seq<Option<Face>>)> {
        match c {
            ColumnView::FaceHandle(d, x) => Some((d, x)),
            _ => None,
        }
    }

    proof fn lemma_column(c: ColumnView, e: ColumnView) {
    }

    fn column(default_value: Option<Face>) -> (r: PropertyColumn) {
        PropertyColumn::FaceHandle(default_value, Vec::new())
    }

    fn is_column(c: &PropertyColumn) -> (r: bool) {
        match c {
            PropertyColumn::FaceHandle(_, _) => true,
            _ => false,
        }
    }

    fn value(c: &PropertyColumn, i: usize) -> (r: &Option<Face>) {
        match c {
            PropertyColumn::FaceHandle(_, x) => &x[i],
            _ => vstd::pervasive::unreached(),
        }
    }

    fn value_mut(c: &mut PropertyColumn, i: usize) -> (r: &mut Option<Face>) {
        match c {
            PropertyColumn::FaceHandle(_, x) => &mut x[i],
            _ => vstd::pervasive::unreached(),
        }
    }
}

impl PropertyValue for Option<Edge> {
    open spec fn data_of(c: ColumnView) -> Option<(Option<Edge>, Seq<Option<Edge>>)> {
        match c {
            ColumnView::EdgeHandle(d, x) => Some((d, x)),
            _ => None,
        }
    }

    proof fn lemma_column(c: ColumnView, e: ColumnView) {
    }

    fn column(default_value: Option<Edge>) -> (r: PropertyColumn) {
        PropertyColumn::EdgeHandle(default_value, Vec::new())
    }

    fn is_column(c: &PropertyColumn) -> (r: bool) {
        match c {
            PropertyColumn::EdgeHandle(_, _) => true,
            _ => false,
        }
    }

    fn value(c: &PropertyColumn, i: usize) -> (r: &Option<Edge>) {
        match c {
            PropertyColumn::EdgeHandle(_, x) => &x[i],
            _ => vstd::pervasive::unreached(),
        }
    }

    fn value_mut(c: &mut PropertyColumn, i: usize) -> (r: &mut Option<Edge>) {
        match c {
            PropertyColumn::EdgeHandle(_, x) => &mut x[i],
            _ => vstd::pervasive::unreached(),
        }
    }
}

impl PropertyValue for Option<Halfedge> {
    open spec fn data_of(c: ColumnView) -> Option<(Option<Halfedge>, Seq<Option<Halfedge>>)> {
        match c {
            ColumnView::HalfedgeHandle(d, x) => Some((d, x)),
            _ => None,
        }
    }

    proof fn lemma_column(c: ColumnView, e: ColumnView) {
    }

    fn column(default_value: Option<Halfedge>) -> (r: PropertyColumn) {
        PropertyColumn::HalfedgeHandle(default_value, Vec::new())
    }

    fn is_column(c: &PropertyColumn) -> (r: bool) {
        match c {
            PropertyColumn::HalfedgeHandle(_, _) => true,
            _ => false,
        }
    }

    fn value(c: &PropertyColumn, i: usize) -> (r: &Option<Halfedge>) {
        match c {
            PropertyColumn::HalfedgeHandle(_, x) => &x[i],
            _ => vstd::pervasive::unreached(),
        }
    }

    fn value_mut(c: &mut PropertyColumn, i: usize) -> (r: &mut Option<Halfedge>) {
        match c {
            PropertyColumn::HalfedgeHandle(_, x) => &mut x[i],
            _ => vstd::pervasive::unreached(),
        }
    }
}


/// Appends a default slot to column `i` of `v`.
fn push_column_at(v: &mut Vec<(&'static str, PropertyColumn, usize)>, i: usize)
    requires
        i < old(v)@.len(),
        old(v)@[i as int].1@.len() < usize::MAX,
    ensures
        final(v)@.len() == old(v)@.len(),
        final(v)@[i as int].0 == old(v)@[i as int].0,
        final(v)@[i as int].1@ == old(v)@[i as int].1@.pushed(),
        final(v)@[i as int].2 == old(v)@[i as int].2,
        forall|j: int| 0 <= j < old(v)@.len() && j != i ==> #[trigger] final(v)@[j] == old(v)@[j],
{
    v[i].1.push();
}

/// Makes room for `size` more values in column `i` of `v`.
fn reserve_column_at(v: &mut Vec<(&'static str, PropertyColumn, usize)>, i: usize, size: usize)
    requires
        i < old(v)@.len(),
    ensures
        final(v)@.len() == old(v)@.len(),
        final(v)@[i as int].0 == old(v)@[i as int].0,
        final(v)@[i as int].1@ == old(v)@[i as int].1@,
        final(v)@[i as int].2 == if old(v)@[i as int].2 >= size {
            old(v)@[i as int].2
        } else {
            size
        },
        forall|j: int| 0 <= j < old(v)@.len() && j != i ==> #[trigger] final(v)@[j] == old(v)@[j],
{
    v[i].1.reserve(size);
    if v[i].2 < size {
        v[i].2 = size;
    }
}

/// A growable set of named columns of values of various types, all with one
/// slot per element of one kind (`H` is the handle of that kind).
pub struct PropertyContainer<H> {
    handle_: PhantomData<H>,
    parrays_: Vec<(&'static str, PropertyColumn, usize)>,
    size_: usize,
    capacity_: usize,
}

impl<T> PropertyContainer<Handle<T>> {
    /// The number of elements: the length of every column.
    pub closed spec fn size(&self) -> nat {
        self.size_ as nat
    }

    /// The capacity last reserved.
    pub closed spec fn reserved(&self) -> nat {
        self.capacity_ as nat
    }

    /// The number of columns.
    pub closed spec fn n_props(&self) -> nat {
        self.parrays_@.len()
    }

    /// The name of column `i`, as bytes.
    pub closed spec fn name(&self, i: int) -> Seq<u8> {
        self.parrays_@[i].0.spec_bytes()
    }

    /// The number of slots that column `i` holds room for: at least the
    /// largest size reserved for it, and at least its length.
    pub closed spec fn col_room(&self, i: int) -> nat {
        if self.parrays_@[i].2 >= self.parrays_@[i].1@.len() {
            self.parrays_@[i].2 as nat
        } else {
            self.parrays_@[i].1@.len()
        }
    }

    /// What column `i` holds.
    pub closed spec fn col(&self, i: int) -> ColumnView {
        self.parrays_@[i].1@
    }

    /// Every column has one slot per element, and no two columns share a
    /// name.
    pub open spec fn wf(&self) -> bool {
        &&& forall|i: int| 0 <= i < self.n_props() ==> (#[trigger] self.col(i)).len() == self.size()
        &&& forall|i: int, j: int|
            0 <= i < j < self.n_props() ==> #[trigger] self.name(i) != #[trigger] self.name(j)
    }

    /// Some column is named `name`.
    pub open spec fn has_name(&self, name: Seq<u8>) -> bool {
        exists|i: int| 0 <= i < self.n_props() && #[trigger] self.name(i) == name
    }

    /// Property `p` designates a column of values of type `D`.
    pub open spec fn holds<D: PropertyValue>(&self, p: Handle<(T, D)>) -> bool {
        p.id() < self.n_props() && D::data_of(self.col(p.id() as int)) is Some
    }

    /// The values of column `p`, read as values of type `D`.
    pub open spec fn values<D: PropertyValue>(&self, p: Handle<(T, D)>) -> Seq<D> {
        D::data_of(self.col(p.id() as int))->Some_0.1
    }

    /// The default value of column `p`, read as a value of type `D`.
    pub open spec fn default_of<D: PropertyValue>(&self, p: Handle<(T, D)>) -> D {
        D::data_of(self.col(p.id() as int))->Some_0.0
    }

    /// Constructs a container without columns and without elements.
    pub fn new() -> (r: Self)
        ensures
            r.wf(),
            r.size() == 0,
            r.reserved() == 0,
            r.n_props() == 0,
    {
        PropertyContainer { handle_: PhantomData, parrays_: Vec::new(), size_: 0, capacity_: 0 }
    }

    /// Returns the number of elements.
    pub fn len(&self) -> (r: usize)
        ensures
            r == self.size(),
    {
        self.size_
    }

    /// Returns the capacity last reserved.
    pub fn capacity(&self) -> (r: usize)
        ensures
            r == self.reserved(),
    {
        self.capacity_
    }

    /// Returns the number of slots that column `p` holds room for.
    pub fn property_capacity<D: PropertyValue>(&self, p: Handle<(T, D)>) -> (r: usize)
        requires
            self.wf(),
            self.holds(p),
        ensures
            r == self.col_room(p.id() as int),
            r >= self.size(),
    {
        let c = &self.parrays_[p.index_];
        let n = c.1.len();
        if c.2 >= n {
            c.2
        } else {
            n
        }
    }

    /// Makes room for `size` elements in every column and records `size` as
    /// the capacity; no value changes.
    pub fn reserve(&mut self, size: usize)
        ensures
            final(self).reserved() == size,
            forall|i: int|
                0 <= i < old(self).n_props() ==> #[trigger] final(self).col_room(i) == if old(self).col_room(i) >= size {
                    old(self).col_room(i)
                } else {
                    size as nat
                },
            final(self).size() == old(self).size(),
            final(self).n_props() == old(self).n_props(),
            forall|i: int|
                #![trigger final(self).col(i)]
                #![trigger final(self).name(i)]
                0 <= i < old(self).n_props() ==> final(self).col(i) == old(self).col(i)
                    && final(self).name(i) == old(self).name(i),
    {
        self.capacity_ = size;
        let mut i: usize = 0;
        while i < self.parrays_.len()
            invariant
                self.capacity_ == size,
                self.size_ == old(self).size_,
                self.parrays_@.len() == old(self).parrays_@.len(),
                forall|j: int|
                    0 <= j < self.parrays_@.len() ==> #[trigger] self.col(j) == old(self).col(j)
                        && self.name(j) == old(self).name(j),
                0 <= i <= self.parrays_@.len(),
                forall|j: int|
                    0 <= j < self.parrays_@.len() ==> #[trigger] self.col_room(j) == if j < i {
                        if old(self).col_room(j) >= size {
                            old(self).col_room(j)
                        } else {
                            size as nat
                        }
                    } else {
                        old(self).col_room(j)
                    },
            decreases self.parrays_@.len() - i,
        {
            let ghost prev = *self;
            reserve_column_at(&mut self.parrays_, i, size);
            proof {
                assert forall|j: int| 0 <= j < self.parrays_@.len() implies #[trigger] self.col(j) == old(self).col(
                    j,
                ) && self.name(j) == old(self).name(j) by {
                    assert(prev.col(j) == old(self).col(j) && prev.name(j) == old(self).name(j));
                }
                assert forall|j: int| 0 <= j < self.parrays_@.len() implies #[trigger] self.col_room(j) == if j < i + 1 {
                    if old(self).col_room(j) >= size {
                        old(self).col_room(j)
                    } else {
                        size as nat
                    }
                } else {
                    old(self).col_room(j)
                } by {
                    assert(prev.col_room(j) == if j < i {
                        if old(self).col_room(j) >= size {
                            old(self).col_room(j)
                        } else {
                            size as nat
                        }
                    } else {
                        old(self).col_room(j)
                    });
                    assert(prev.col(j) == old(self).col(j));
                }
            }
            i = i + 1;
        }
    }

    /// Adds a column named `name` whose slots, present and new, take
    /// `default_value`; none where a column of that name exists, whatever its
    /// type.
    pub fn add<D: PropertyValue>(&mut self, name: &'static str, default_value: D) -> (r: Option<Handle<(T, D)>>)
        requires
            old(self).wf(),
        ensures
            final(self).wf(),
            final(self).size() == old(self).size(),
            final(self).reserved() == old(self).reserved(),
            old(self).has_name(name.spec_bytes()) ==> r is None && final(self).n_props() == old(self).n_props(),
            !old(self).has_name(name.spec_bytes()) ==> r is Some && final(self).n_props() == old(self).n_props()
                + 1,
            forall|i: int|
                #![trigger final(self).col(i)]
                #![trigger final(self).name(i)]
                0 <= i < old(self).n_props() ==> final(self).col(i) == old(self).col(i)
                    && final(self).name(i) == old(self).name(i),
            forall|i: int| 0 <= i < old(self).n_props() ==> #[trigger] final(self).col_room(i) == old(self).col_room(i),
            r matches Some(p) ==> {
                &&& p.id() == old(self).n_props()
                &&& final(self).name(p.id() as int) == name.spec_bytes()
                &&& final(self).col_room(p.id() as int) == if old(self).reserved() >= old(self).size() {
                    old(self).reserved()
                } else {
                    old(self).size()
                }
                &&& D::data_of(final(self).col(p.id() as int)) == Some(
                    (default_value, Seq::new(old(self).size(), |k: int| default_value)),
                )
            },
    {
        let mut i: usize = 0;
        while i < self.parrays_.len()
            invariant
                *self == *old(self),
                old(self).wf(),
                0 <= i <= self.parrays_@.len(),
                forall|j: int| 0 <= j < i ==> #[trigger] self.name(j) != name.spec_bytes(),
            decreases self.parrays_@.len() - i,
        {
            if same_name(self.parrays_[i].0, name) {
                assert(self.name(i as int) == name.spec_bytes());
                return None;
            }
            i = i + 1;
        }
        let mut col = D::column(default_value);
        col.reserve(self.capacity_);
        let mut k: usize = 0;
        while k < self.size_
            invariant
                0 <= k <= self.size_,
                D::data_of(col@) == Some((default_value, Seq::new(k as nat, |m: int| default_value))),
            decreases self.size_ - k,
        {
            proof {
                D::lemma_column(col@, col@);
            }
            col.push();
            k = k + 1;
            proof {
                assert(Seq::new(k as nat, |m: int| default_value) =~= Seq::new((k - 1) as nat, |m: int| default_value).push(default_value));
            }
        }
        proof {
            D::lemma_column(col@, col@);
        }
        self.parrays_.push((name, col, self.capacity_));
        let p = Handle::new(self.parrays_.len() - 1);
        proof {
            assert(self.col(p.id() as int) == col@);
            assert(self.name(p.id() as int) == name.spec_bytes());
            assert forall|a: int| 0 <= a < self.n_props() implies (#[trigger] self.col(a)).len() == self.size() by {
                if a < old(self).n_props() {
                    assert(self.parrays_@[a] == old(self).parrays_@[a]);
                    assert(old(self).col(a).len() == old(self).size());
                }
            }
            assert forall|a: int, b: int| 0 <= a < b < self.n_props() implies #[trigger] self.name(a)
                != #[trigger] self.name(b) by {
                assert(self.parrays_@[a] == old(self).parrays_@[a]);
                if b < old(self).n_props() {
                    assert(self.parrays_@[b] == old(self).parrays_@[b]);
                    assert(old(self).name(a) != old(self).name(b));
                } else {
                    assert(old(self).name(a) != name.spec_bytes());
                }
            }
            assert forall|a: int| 0 <= a < old(self).n_props() implies #[trigger] self.col(a) == old(self).col(a)
                && self.name(a) == old(self).name(a) by {
                assert(self.parrays_@[a] == old(self).parrays_@[a]);
            }
        }
        Some(p)
    }

    /// Looks up the column named `name` that holds values of type `D`.
    pub fn get<D: PropertyValue>(&self, name: &'static str) -> (r: Option<Handle<(T, D)>>)
        requires
            self.wf(),
        ensures
            r matches Some(p) ==> self.holds(p) && self.name(p.id() as int) == name.spec_bytes(),
            r is None ==> forall|i: int|
                0 <= i < self.n_props() ==> !(#[trigger] self.name(i) == name.spec_bytes() && D::data_of(
                    self.col(i),
                ) is Some),
            !self.has_name(name.spec_bytes()) ==> r is None,
    {
        let mut i: usize = 0;
        while i < self.parrays_.len()
            invariant
                0 <= i <= self.parrays_@.len(),
                forall|j: int|
                    0 <= j < i ==> !(#[trigger] self.name(j) == name.spec_bytes() && D::data_of(self.col(j)) is Some),
            decreases self.parrays_@.len() - i,
        {
            if same_name(self.parrays_[i].0, name) && D::is_column(&self.parrays_[i].1) {
                assert(self.name(i as int) == name.spec_bytes());
                return Some(Handle::new(i));
            }
            i = i + 1;
        }
        None
    }

    /// Appends one slot holding its default value to every column.
    pub fn push(&mut self)
        requires
            old(self).wf(),
            old(self).size() < usize::MAX,
        ensures
            final(self).wf(),
            final(self).size() == old(self).size() + 1,
            final(self).reserved() == old(self).reserved(),
            final(self).n_props() == old(self).n_props(),
            forall|i: int|
                #![trigger final(self).col(i)]
                #![trigger final(self).name(i)]
                0 <= i < old(self).n_props() ==> final(self).col(i) == old(self).col(i).pushed()
                    && final(self).name(i) == old(self).name(i),
    {
        self.size_ = self.size_ + 1;
        let mut i: usize = 0;
        while i < self.parrays_.len()
            invariant
                self.size_ == old(self).size_ + 1,
                self.capacity_ == old(self).capacity_,
                old(self).wf(),
                old(self).size() < usize::MAX,
                self.parrays_@.len() == old(self).parrays_@.len(),
                0 <= i <= self.parrays_@.len(),
                forall|j: int|
                    0 <= j < self.parrays_@.len() ==> #[trigger] self.col(j) == if j < i {
                        old(self).col(j).pushed()
                    } else {
                        old(self).col(j)
                    } && self.name(j) == old(self).name(j),
            decreases self.parrays_@.len() - i,
        {
            proof {
                assert(old(self).col(i as int).len() == old(self).size());
            }
            let ghost prev = *self;
            assert(prev.col(i as int) == old(self).col(i as int));
            push_column_at(&mut self.parrays_, i);
            proof {
                assert forall|j: int| 0 <= j < self.parrays_@.len() implies #[trigger] self.col(j) == if j < i + 1 {
                    old(self).col(j).pushed()
                } else {
                    old(self).col(j)
                } && self.name(j) == old(self).name(j) by {
                    assert(prev.col(j) == if j < i {
                        old(self).col(j).pushed()
                    } else {
                        old(self).col(j)
                    } && prev.name(j) == old(self).name(j));
                }
            }
            i = i + 1;
        }
        proof {
            assert forall|j: int| 0 <= j < self.n_props() implies (#[trigger] self.col(j)).len() == self.size() by {
                assert(old(self).col(j).len() == old(self).size());
                assert(self.col(j) == old(self).col(j).pushed());
            }
            assert forall|a: int, b: int| 0 <= a < b < self.n_props() implies #[trigger] self.name(a)
                != #[trigger] self.name(b) by {
                assert(self.col(a) == old(self).col(a).pushed() && self.name(a) == old(self).name(a));
                assert(self.col(b) == old(self).col(b).pushed() && self.name(b) == old(self).name(b));
            }
        }
    }

    /// A container keeps its invariant through a change that keeps its size,
    /// its names and the lengths of its columns.
    pub proof fn lemma_wf_frame(a: &Self, b: &Self)
        requires
            a.wf(),
            b.size() == a.size(),
            b.n_props() == a.n_props(),
            forall|i: int| 0 <= i < a.n_props() ==> #[trigger] b.name(i) == a.name(i),
            forall|i: int| 0 <= i < a.n_props() ==> (#[trigger] b.col(i)).len() == a.col(i).len(),
        ensures
            b.wf(),
    {
        assert forall|i: int, j: int| 0 <= i < j < b.n_props() implies #[trigger] b.name(i) != #[trigger] b.name(j) by {
            assert(a.name(i) != a.name(j));
        }
        assert forall|i: int| 0 <= i < b.n_props() implies (#[trigger] b.col(i)).len() == b.size() by {
            assert(a.col(i).len() == a.size());
        }
    }

    /// The value of property `p` at element `h`.
    pub fn access<D: PropertyValue>(&self, p: Handle<(T, D)>, h: Handle<T>) -> (r: &D)
        requires
            self.wf(),
            self.holds(p),
            h.id() < self.size(),
        ensures
            *r == self.values(p)[h.id() as int],
    {
        proof {
            D::lemma_column(self.col(p.id() as int), self.col(p.id() as int));
        }
        D::value(&self.parrays_[p.index_].1, h.index_)
    }

    /// Mutable access to the value of property `p` at element `h`.
    pub fn access_mut<D: PropertyValue>(&mut self, p: Handle<(T, D)>, h: Handle<T>) -> (r: &mut D)
        requires
            old(self).wf(),
            old(self).holds(p),
            h.id() < old(self).size(),
        ensures
            *r == old(self).values(p)[h.id() as int],
            final(self).col(p.id() as int).len() == old(self).col(p.id() as int).len(),
            final(self).holds(p),
            final(self).values(p) == old(self).values(p).update(h.id() as int, *final(r)),
            final(self).default_of(p) == old(self).default_of(p),
            final(self).size() == old(self).size(),
            final(self).reserved() == old(self).reserved(),
            final(self).n_props() == old(self).n_props(),
            forall|i: int|
                0 <= i < old(self).n_props() ==> #[trigger] final(self).name(i) == old(self).name(i),
            forall|i: int|
                0 <= i < old(self).n_props() && i != p.id() ==> #[trigger] final(self).col(i) == old(self).col(i),
    {
        proof {
            D::lemma_column(self.col(p.id() as int), self.col(p.id() as int));
        }
        D::value_mut(&mut self.parrays_[p.index_].1, h.index_)
    }
}

/// Growing by `a` slots and then by `b` is growing by `a + b`.
pub proof fn lemma_pushed_n_add(c: ColumnView, a: nat, b: nat)
    ensures
        c.pushed_n(a).pushed_n(b) == c.pushed_n(a + b),
    decreases b,
{
    if b > 0 {
        lemma_pushed_n_add(c, a, (b - 1) as nat);
    }
}

/// A column that holds its default value `d` in each of its `s` slots
/// still holds `d` in each slot after growing by `k` slots.
pub proof fn lemma_defaults_after_growth<D: PropertyValue>(c: ColumnView, d: D, s: nat, k: nat)
    requires
        D::data_of(c) == Some((d, Seq::new(s, |i: int| d))),
    ensures
        D::data_of(c.pushed_n(k)) == Some((d, Seq::new(s + k, |i: int| d))),
    decreases k,
{
    if k > 0 {
        lemma_defaults_after_growth(c, d, s, (k - 1) as nat);
        let c0 = c.pushed_n((k - 1) as nat);
        D::lemma_column(c0, c0);
        assert(Seq::new((s + k - 1) as nat, |i: int| d).push(d) =~= Seq::new(s + k, |i: int| d));
    }
}

/// Writing one slot of a column leaves every other slot as it was.
pub proof fn lemma_write_keeps_others<D>(values: Seq<D>, h: int, x: D, j: int)
    requires
        0 <= h < values.len(),
        0 <= j < values.len(),
        j != h,
    ensures
        values.update(h, x)[j] == values[j],
        values.update(h, x)[h] == x,
{
}

} // verus!
