//! Arrays of 32-bit floats, kept by `ndarray`.
//!
//! An element is known by its bit pattern: nothing here computes with it.

use ndarray::{ArrayD, Axis, ErrorKind, IxDyn};
use vstd::prelude::*;

verus! {

/// A 32-bit float, by its bit pattern.
#[derive(Clone, Copy, Debug, PartialEq, Eq, Structural)]
pub struct F32 {
    pub bits: u32,
}

/// A 64-bit float, by its bit pattern.
#[derive(Clone, Copy, Debug, PartialEq, Eq, Structural)]
pub struct F64 {
    pub bits: u64,
}

/// Why an array cannot have a shape.
#[derive(Clone, Copy, Debug, PartialEq, Eq, Structural)]
pub enum ShapeFault {
    IncompatibleShape,
    IncompatibleLayout,
    RangeLimited,
    OutOfBounds,
    Unsupported,
    Overflow,
    Other,
}

impl ShapeFault {
    /// The text for a fault.
    pub open spec fn text(self) -> Seq<char> {
        match self {
            ShapeFault::IncompatibleShape => "ShapeError/IncompatibleShape: incompatible shapes"@,
            ShapeFault::IncompatibleLayout => "ShapeError/IncompatibleLayout: incompatible memory layout"@,
            ShapeFault::RangeLimited => "ShapeError/RangeLimited: the shape does not fit in type limits"@,
            ShapeFault::OutOfBounds => "ShapeError/OutOfBounds: out of bounds indexing"@,
            ShapeFault::Unsupported => "ShapeError/Unsupported: unsupported operation"@,
            ShapeFault::Overflow => "ShapeError/Overflow: arithmetic overflow"@,
            ShapeFault::Other => "ShapeError"@,
        }
    }

    /// Says what is wrong.
    pub fn message(&self) -> (r: &'static str)
        ensures
            r@ == self.text(),
    {
        match *self {
            ShapeFault::IncompatibleShape => "ShapeError/IncompatibleShape: incompatible shapes",
            ShapeFault::IncompatibleLayout => "ShapeError/IncompatibleLayout: incompatible memory layout",
            ShapeFault::RangeLimited => "ShapeError/RangeLimited: the shape does not fit in type limits",
            ShapeFault::OutOfBounds => "ShapeError/OutOfBounds: out of bounds indexing",
            ShapeFault::Unsupported => "ShapeError/Unsupported: unsupported operation",
            ShapeFault::Overflow => "ShapeError/Overflow: arithmetic overflow",
            ShapeFault::Other => "ShapeError",
        }
    }
}

// ---------------------------------------------------------------------------
// Sizes
// ---------------------------------------------------------------------------
/// The number of elements of an array with these axis lengths.
pub open spec fn product(dims: Seq<usize>) -> nat
    decreases dims.len(),
{
    if dims.len() == 0 {
        1
    } else {
        product(dims.drop_last()) * dims.last() as nat
    }
}

/// The product of the axis lengths that are not zero.
pub open spec fn nonzero_product(dims: Seq<usize>) -> nat
    decreases dims.len(),
{
    if dims.len() == 0 {
        1
    } else if dims.last() == 0 {
        nonzero_product(dims.drop_last())
    } else {
        nonzero_product(dims.drop_last()) * dims.last() as nat
    }
}

/// The axis lengths are within what an array can have.
pub open spec fn sizable(dims: Seq<usize>) -> bool {
    nonzero_product(dims) <= isize::MAX
}

// ---------------------------------------------------------------------------
// The model
// ---------------------------------------------------------------------------
/// How the elements lie in memory: in row-major order; otherwise, with two
/// axes or more, in column-major order; or in neither.
pub enum Layout {
    Standard,
    Reversed,
    Other,
}

/// What is known of an array: the length of each axis, the elements in
/// row-major order of their indices, and how they lie in memory (`memory` is
/// `None` where they do not lie side by side).
#[verifier::ext_equal]
pub struct NdView {
    pub dims: Seq<usize>,
    pub elems: Seq<F32>,
    pub memory: Option<Seq<F32>>,
    pub layout: Layout,
}

/// An array of `ndarray`.
#[verifier::external_body]
pub struct NdArray {
    inner: ArrayD<F32>,
}

/// The length of each axis of an array.
pub uninterp spec fn nd_dims(a: NdArray) -> Seq<usize>;

/// The elements of an array, in row-major order of their indices.
pub uninterp spec fn nd_elems(a: NdArray) -> Seq<F32>;

/// The elements of an array as they lie in memory, if they lie side by side.
pub uninterp spec fn nd_memory(a: NdArray) -> Option<Seq<F32>>;

/// The memory layout of an array.
pub uninterp spec fn nd_layout(a: NdArray) -> Layout;

impl View for NdArray {
    type V = NdView;

    open spec fn view(&self) -> NdView {
        NdView {
            dims: nd_dims(*self),
            elems: nd_elems(*self),
            memory: nd_memory(*self),
            layout: nd_layout(*self),
        }
    }
}

/// The array with these axis lengths whose elements, in row-major order, are
/// `data`.
pub open spec fn shaped(dims: Seq<usize>, data: Seq<F32>) -> Result<NdView, ShapeFault> {
    if !sizable(dims) {
        Err(ShapeFault::Overflow)
    } else if product(dims) > data.len() {
        Err(ShapeFault::OutOfBounds)
    } else if product(dims) < data.len() {
        Err(ShapeFault::IncompatibleShape)
    } else {
        Ok(standard(dims, data))
    }
}

/// A row-major array.
pub open spec fn standard(dims: Seq<usize>, data: Seq<F32>) -> NdView {
    NdView { dims, elems: data, memory: Some(data), layout: Layout::Standard }
}

/// Where the element with the row-major number `i` stands in column-major
/// order, with `scale` elements to a step along the first axis.
pub open spec fn column_offset(dims: Seq<usize>, i: int, scale: int) -> int
    decreases dims.len(),
{
    if dims.len() == 0 {
        0
    } else {
        let rest = dims.drop_first();
        let block = product(rest) as int;
        (i / block) * scale + column_offset(rest, i % block, scale * dims[0])
    }
}

/// The elements in row-major order of an array that lies in column-major
/// order.
pub open spec fn column_major(dims: Seq<usize>, memory: Seq<F32>) -> Seq<F32> {
    Seq::new(memory.len(), |i: int| memory[column_offset(dims, i, 1)])
}

/// How many axes are longer or shorter than one.
pub open spec fn wide_axes(dims: Seq<usize>) -> nat
    decreases dims.len(),
{
    if dims.len() == 0 {
        0
    } else {
        wide_axes(dims.drop_last()) + if dims.last() == 1 {
            0nat
        } else {
            1
        }
    }
}

/// The layout of an array that lies in column-major order: with no more than
/// one axis that counts, that is the row-major order too.
pub open spec fn column_layout(dims: Seq<usize>) -> Layout {
    if wide_axes(dims) <= 1 {
        Layout::Standard
    } else {
        Layout::Reversed
    }
}

/// What giving the axis lengths `dims` to an array comes to: the memory stays
/// as it is, and is read in the order it was laid out in.
pub open spec fn reshaped(a: NdView, dims: Seq<usize>) -> Result<NdView, ShapeFault> {
    if !sizable(dims) || product(dims) != product(a.dims) {
        Err(ShapeFault::IncompatibleShape)
    } else {
        match (a.layout, a.memory) {
            (Layout::Standard, _) => Ok(NdView { dims, ..a }),
            (Layout::Reversed, Some(m)) => Ok(
                NdView {
                    dims,
                    elems: column_major(dims, m),
                    memory: Some(m),
                    layout: column_layout(dims),
                },
            ),
            _ => Err(ShapeFault::IncompatibleLayout),
        }
    }
}

// ---------------------------------------------------------------------------
// Joining
// ---------------------------------------------------------------------------
/// The arrays agree on every axis but `axis`.
pub open spec fn agrees(a: NdView, b: NdView, axis: int) -> bool {
    a.dims.remove(axis) == b.dims.remove(axis)
}

/// The sum of the lengths along `axis`.
pub open spec fn stacked(arrays: Seq<NdView>, axis: int) -> nat
    decreases arrays.len(),
{
    if arrays.len() == 0 {
        0
    } else {
        stacked(arrays.drop_last(), axis) + arrays.last().dims[axis] as nat
    }
}

/// How many elements of an array follow each other before an axis outside
/// `axis` moves.
pub open spec fn slab_len(a: NdView, axis: int) -> int {
    product(a.dims.skip(axis)) as int
}

/// The elements of all arrays at the position `o` outside `axis`, one array
/// after the other.
pub open spec fn slabs(arrays: Seq<NdView>, axis: int, o: int) -> Seq<F32>
    decreases arrays.len(),
{
    if arrays.len() == 0 {
        Seq::empty()
    } else {
        let a = arrays.last();
        let w = slab_len(a, axis);
        slabs(arrays.drop_last(), axis, o) + a.elems.subrange(o * w, o * w + w)
    }
}

/// The elements of the joined arrays at the first `outer` positions outside
/// `axis`.
pub open spec fn woven(arrays: Seq<NdView>, axis: int, outer: nat) -> Seq<F32>
    decreases outer,
{
    if outer == 0 {
        Seq::empty()
    } else {
        woven(arrays, axis, (outer - 1) as nat) + slabs(arrays, axis, outer - 1)
    }
}

/// Whether the arrays can be compared and stacked along `axis`: where the
/// first one has that axis, so has each other one up to the first that does
/// not agree; and where all agree, the sum of their lengths along it is a
/// length.
pub open spec fn joinable(arrays: Seq<NdView>, axis: int) -> bool {
    arrays.len() > 0 && axis < arrays[0].dims.len() ==> {
        &&& forall|k: int|
            0 <= k < arrays.len() ==> axis < (#[trigger] arrays[k]).dims.len() || exists|j: int|
                0 <= j < k && axis < arrays[j].dims.len() && !agrees(
                    #[trigger] arrays[j],
                    arrays[0],
                    axis,
                )
        &&& (forall|k: int|
            0 <= k < arrays.len() ==> axis < (#[trigger] arrays[k]).dims.len() && agrees(
                arrays[k],
                arrays[0],
                axis,
            )) ==> stacked(arrays, axis) <= usize::MAX
    }
}

/// The axis lengths of arrays.
pub open spec fn dims_of(arrays: Seq<NdView>) -> Seq<Seq<usize>> {
    Seq::new(arrays.len(), |i: int| arrays[i].dims)
}

/// The elements as they lie in memory of arrays of these axis lengths that
/// were joined along an axis other than the first, with the elements `elems`
/// in row-major order.
pub uninterp spec fn nd_joined_memory(
    dims: Seq<Seq<usize>>,
    axis: int,
    elems: Seq<F32>,
) -> Option<Seq<F32>>;

/// The memory layout of arrays of these axis lengths that were joined along
/// an axis other than the first.
pub uninterp spec fn nd_joined_layout(dims: Seq<Seq<usize>>, axis: int) -> Layout;

/// The joined array with the given axis lengths.
pub open spec fn woven_array(arrays: Seq<NdView>, axis: int, dims: Seq<usize>) -> NdView {
    let elems = woven(arrays, axis, product(dims.take(axis)));
    if axis == 0 {
        standard(dims, elems)
    } else {
        NdView {
            dims,
            elems,
            memory: nd_joined_memory(dims_of(arrays), axis, elems),
            layout: nd_joined_layout(dims_of(arrays), axis),
        }
    }
}

/// What joining the arrays along `axis` comes to. Along the first axis the
/// result is row-major.
pub open spec fn joined(arrays: Seq<NdView>, axis: int) -> Result<NdView, ShapeFault> {
    if arrays.len() == 0 {
        Err(ShapeFault::Unsupported)
    } else if axis >= arrays[0].dims.len() {
        Err(ShapeFault::OutOfBounds)
    } else if exists|k: int|
        0 <= k < arrays.len() && axis < arrays[k].dims.len() && !agrees(
            #[trigger] arrays[k],
            arrays[0],
            axis,
        ) {
        Err(ShapeFault::IncompatibleShape)
    } else {
        let dims = arrays[0].dims.update(axis, stacked(arrays, axis) as usize);
        if !sizable(dims) {
            Err(ShapeFault::Overflow)
        } else {
            Ok(woven_array(arrays, axis, dims))
        }
    }
}

/// The views of the arrays in a list.
pub open spec fn nd_views(arrays: Seq<NdArray>) -> Seq<NdView> {
    Seq::new(arrays.len(), |i: int| arrays[i]@)
}

/// The outcome of an array operation, with the array by its view.
pub open spec fn nd_outcome(r: Result<NdArray, ShapeFault>) -> Result<NdView, ShapeFault> {
    match r {
        Ok(a) => Ok(a@),
        Err(e) => Err(e),
    }
}

// ---------------------------------------------------------------------------
// Calls into `ndarray`
// ---------------------------------------------------------------------------
/// `ArrayBase::from_shape_vec` with a dynamic shape and no strides: checks the
/// axis lengths (the product of those that are not zero is at most
/// `isize::MAX`), compares their product with the length of the data, and
/// takes the data over as a row-major array.
#[verifier::external_body]
pub(crate) fn nd_from_shape_vec(dims: &Vec<usize>, data: Vec<F32>) -> (r: Result<
    NdArray,
    ShapeFault,
>)
    ensures
        nd_outcome(r) == shaped(dims@, data@),
{
    match ArrayD::from_shape_vec(IxDyn(dims), data) {
        Ok(inner) => Ok(NdArray { inner }),
        Err(e) => Err(
            match e.kind() {
                ErrorKind::IncompatibleShape => ShapeFault::IncompatibleShape,
                ErrorKind::IncompatibleLayout => ShapeFault::IncompatibleLayout,
                ErrorKind::RangeLimited => ShapeFault::RangeLimited,
                ErrorKind::OutOfBounds => ShapeFault::OutOfBounds,
                ErrorKind::Unsupported => ShapeFault::Unsupported,
                ErrorKind::Overflow => ShapeFault::Overflow,
                _ => ShapeFault::Other,
            },
        ),
    }
}

/// `ArrayBase::into_shape` with a dynamic shape: fails where the number of
/// elements differs or the array lies neither in row-major nor in column-major
/// order; otherwise the data stays in place and only the strides are new.
#[verifier::external_body]
pub(crate) fn nd_into_shape(a: NdArray, dims: &Vec<usize>) -> (r: Result<NdArray, ShapeFault>)
    ensures
        nd_outcome(r) == reshaped(a@, dims@),
{
    match a.inner.into_shape(IxDyn(dims)) {
        Ok(inner) => Ok(NdArray { inner }),
        Err(e) => Err(
            match e.kind() {
                ErrorKind::IncompatibleShape => ShapeFault::IncompatibleShape,
                ErrorKind::IncompatibleLayout => ShapeFault::IncompatibleLayout,
                ErrorKind::RangeLimited => ShapeFault::RangeLimited,
                ErrorKind::OutOfBounds => ShapeFault::OutOfBounds,
                ErrorKind::Unsupported => ShapeFault::Unsupported,
                ErrorKind::Overflow => ShapeFault::Overflow,
                _ => ShapeFault::Other,
            },
        ),
    }
}

/// `ndarray::concatenate`: fails for no arrays, an axis that the first array
/// lacks, arrays that differ on another axis, and a size out of range;
/// otherwise the arrays follow each other along the axis. Along the first axis
/// the result is row-major. Along another, how it lies in memory depends on
/// the axis lengths of the arrays and on the axis alone; along the last, where
/// there are elements, it lies in column-major order. The function panics on
/// an array that lacks the axis, and where the sum of the lengths along the
/// axis overflows.
#[verifier::external_body]
pub(crate) fn nd_concatenate(axis: usize, arrays: &Vec<NdArray>) -> (r: Result<
    NdArray,
    ShapeFault,
>)
    requires
        joinable(nd_views(arrays@), axis as int),
    ensures
        nd_outcome(r) == joined(nd_views(arrays@), axis as int),
        r matches Ok(a) ==> axis > 0 ==> nd_memory(a) == nd_joined_memory(
            dims_of(nd_views(arrays@)),
            axis as int,
            nd_elems(a),
        ) && nd_layout(a) == nd_joined_layout(dims_of(nd_views(arrays@)), axis as int),
        r matches Ok(a) ==> axis > 0 && axis + 1 == a@.dims.len() && product(a@.dims) > 0 ==> {
            &&& a@.memory matches Some(m) && m.len() == product(a@.dims) && a@.elems
                == column_major(a@.dims, m)
            &&& a@.layout == column_layout(a@.dims)
        },
{
    let views: Vec<_> = arrays.iter().map(|a| a.inner.view()).collect();
    match ndarray::concatenate(Axis(axis), &views) {
        Ok(inner) => Ok(NdArray { inner }),
        Err(e) => Err(
            match e.kind() {
                ErrorKind::IncompatibleShape => ShapeFault::IncompatibleShape,
                ErrorKind::IncompatibleLayout => ShapeFault::IncompatibleLayout,
                ErrorKind::RangeLimited => ShapeFault::RangeLimited,
                ErrorKind::OutOfBounds => ShapeFault::OutOfBounds,
                ErrorKind::Unsupported => ShapeFault::Unsupported,
                ErrorKind::Overflow => ShapeFault::Overflow,
                _ => ShapeFault::Other,
            },
        ),
    }
}

/// `ArrayBase::shape`: the length of each axis.
#[verifier::external_body]
pub(crate) fn nd_shape(a: &NdArray) -> (r: Vec<usize>)
    ensures
        r@ == nd_dims(*a),
{
    a.inner.shape().to_vec()
}

/// `ArrayBase::as_slice_memory_order`: the elements as they lie in memory,
/// where they lie side by side.
#[verifier::external_body]
pub(crate) fn nd_as_slice_memory_order(a: &NdArray) -> (r: Option<&[F32]>)
    ensures
        match r {
            Some(s) => nd_memory(*a) == Some(s@),
            None => nd_memory(*a) is None,
        },
{
    a.inner.as_slice_memory_order()
}

/// `ArrayBase::iter`, which walks in row-major order, collected.
#[verifier::external_body]
pub(crate) fn nd_iter(a: &NdArray) -> (r: Vec<F32>)
    ensures
        r@ == nd_elems(*a),
{
    a.inner.iter().cloned().collect()
}

/// `ArrayBase::first`: the element at index zero, if there is one.
#[verifier::external_body]
pub(crate) fn nd_first(a: &NdArray) -> (r: Option<F32>)
    ensures
        r == (if a@.elems.len() > 0 {
            Some(a@.elems[0])
        } else {
            None
        }),
{
    a.inner.first().cloned()
}

/// `Clone` of an array: the same axis lengths and elements, laid out alike.
#[verifier::external_body]
pub(crate) fn nd_clone(a: &NdArray) -> (r: NdArray)
    ensures
        nd_dims(r) == nd_dims(*a),
        nd_elems(r) == nd_elems(*a),
        nd_memory(r) == nd_memory(*a),
        nd_layout(r) == nd_layout(*a),
{
    NdArray { inner: a.inner.clone() }
}

impl NdArray {
    /// The array with these axis lengths whose elements, in row-major order,
    /// are `data`.
    pub fn from_shape_vec(dims: &Vec<usize>, data: Vec<F32>) -> (r: Result<Self, ShapeFault>)
        ensures
            nd_outcome(r) == shaped(dims@, data@),
    {
        nd_from_shape_vec(dims, data)
    }

    /// The length of each axis.
    pub fn shape(&self) -> (r: Vec<usize>)
        ensures
            r@ == self@.dims,
    {
        nd_shape(self)
    }

    /// The elements as they lie in memory, where they lie side by side.
    pub fn as_slice_memory_order(&self) -> (r: Option<&[F32]>)
        ensures
            match r {
                Some(s) => self@.memory == Some(s@),
                None => self@.memory is None,
            },
    {
        nd_as_slice_memory_order(self)
    }

    /// The elements in row-major order.
    pub fn to_vec(&self) -> (r: Vec<F32>)
        ensures
            r@ == self@.elems,
    {
        nd_iter(self)
    }
}

} // verus!
