//! Tensors, and what ports accept of them.

use crate::cpu_backend::buffer_from_array_cpu;
use crate::nd::{
    nd_as_slice_memory_order, nd_first, nd_from_shape_vec, nd_shape, nonzero_product, product, shaped, standard,
    NdArray, NdView, ShapeFault, F32, F64,
};
use crate::text::{decimal, decimal_text, join2};
use std::sync::Arc;
use vstd::pervasive::arbitrary;
use vstd::prelude::*;

verus! {

/// The type of an element.
#[derive(Clone, Copy, Debug, PartialEq, Eq, Structural)]
pub enum DType {
    F32,
    F64,
    I32,
    I64,
}

impl DType {
    /// The name of the type.
    pub open spec fn text(self) -> Seq<char> {
        match self {
            DType::F32 => "F32"@,
            DType::F64 => "F64"@,
            DType::I32 => "I32"@,
            DType::I64 => "I64"@,
        }
    }

    /// The name of the type.
    pub fn name(&self) -> (r: &'static str)
        ensures
            r@ == self.text(),
    {
        match *self {
            DType::F32 => "F32",
            DType::F64 => "F64",
            DType::I32 => "I32",
            DType::I64 => "I64",
        }
    }
}

// ---------------------------------------------------------------------------
// Shapes
// ---------------------------------------------------------------------------
/// The length of each axis; `None` where it is not known.
#[derive(Debug, PartialEq, Eq)]
pub struct Shape(pub Vec<Option<usize>>);

impl View for Shape {
    type V = Seq<Option<usize>>;

    open spec fn view(&self) -> Seq<Option<usize>> {
        self.0@
    }
}

impl Clone for Shape {
    fn clone(&self) -> (r: Self)
        ensures
            r@ == self@,
    {
        let mut dims: Vec<Option<usize>> = Vec::new();
        let mut i: usize = 0;
        while i < self.0.len()
            invariant
                i <= self.0@.len(),
                dims@ == self.0@.take(i as int),
            decreases self.0@.len() - i,
        {
            dims.push(self.0[i]);
            i = i + 1;
            assert(dims@ =~= self.0@.take(i as int));
        }
        assert(dims@ =~= self.0@);
        Shape(dims)
    }
}

/// Whether every axis length is known.
pub open spec fn all_known(dims: Seq<Option<usize>>) -> bool {
    forall|i: int| 0 <= i < dims.len() ==> (#[trigger] dims[i]) is Some
}

/// The axis lengths, where all are known.
pub open spec fn concrete(dims: Seq<Option<usize>>) -> Option<Seq<usize>> {
    if all_known(dims) {
        Some(Seq::new(dims.len(), |i: int| dims[i]->0))
    } else {
        None
    }
}

/// The known axis lengths as a shape.
pub open spec fn known(dims: Seq<usize>) -> Seq<Option<usize>> {
    Seq::new(dims.len(), |i: int| Some(dims[i]))
}

/// The number, or the greatest `usize` where that is smaller.
pub open spec fn saturated(n: nat) -> usize {
    if n > usize::MAX {
        usize::MAX
    } else {
        n as usize
    }
}

/// One axis length in the text of a shape.
pub open spec fn axis_text(d: Option<usize>) -> Seq<char> {
    match d {
        Some(n) => "Some("@ + decimal(n as nat) + ")"@,
        None => "None"@,
    }
}

/// The axis lengths in the text of a shape.
pub open spec fn axes_text(dims: Seq<Option<usize>>) -> Seq<char>
    decreases dims.len(),
{
    if dims.len() == 0 {
        Seq::empty()
    } else if dims.len() == 1 {
        axis_text(dims[0])
    } else {
        axes_text(dims.drop_last()) + ", "@ + axis_text(dims.last())
    }
}

/// The text of a shape.
pub open spec fn shape_text(dims: Seq<Option<usize>>) -> Seq<char> {
    "Shape(["@ + axes_text(dims) + "])"@
}

fn axis_string(d: Option<usize>) -> (r: String)
    ensures
        r@ == axis_text(d),
{
    match d {
        Some(n) => {
            let mut s = join2("Some(", decimal_text(n as u64).as_str());
            s.append(")");
            s
        },
        None => "None".to_owned(),
    }
}

/// A tensor with shape `a` may stand where shape `b` is asked for.
pub open spec fn shape_matches(
    a: Seq<Option<usize>>,
    b: Seq<Option<usize>>,
    allow_broadcast: bool,
) -> bool {
    a == b || (allow_broadcast && a.len() == 0 && b.len() == 1)
}

impl Shape {
    /// No axes.
    pub fn scalar() -> (r: Self)
        ensures
            r@ == Seq::<Option<usize>>::empty(),
    {
        Shape(Vec::new())
    }

    /// One axis.
    pub fn vector(n: usize) -> (r: Self)
        ensures
            r@ == seq![Some(n)],
    {
        let mut dims: Vec<Option<usize>> = Vec::new();
        dims.push(Some(n));
        assert(dims@ =~= seq![Some(n)]);
        Shape(dims)
    }

    /// The shape with these axis lengths.
    pub fn of_dims(dims: &Vec<usize>) -> (r: Self)
        ensures
            r@ == known(dims@),
    {
        let mut v: Vec<Option<usize>> = Vec::new();
        let mut i: usize = 0;
        while i < dims.len()
            invariant
                i <= dims@.len(),
                v@ == known(dims@).take(i as int),
            decreases dims@.len() - i,
        {
            v.push(Some(dims[i]));
            i = i + 1;
            assert(v@ =~= known(dims@).take(i as int));
        }
        assert(v@ =~= known(dims@));
        Shape(v)
    }

    /// The axis lengths, where all are known.
    pub fn dims(&self) -> (r: Option<Vec<usize>>)
        ensures
            match r {
                Some(v) => concrete(self@) == Some(v@),
                None => concrete(self@) is None,
            },
    {
        let mut v: Vec<usize> = Vec::new();
        let mut i: usize = 0;
        while i < self.0.len()
            invariant
                i <= self.0@.len(),
                v@.len() == i,
                forall|j: int| 0 <= j < i ==> (#[trigger] self.0@[j]) == Some(v@[j]),
            decreases self.0@.len() - i,
        {
            match self.0[i] {
                Some(n) => {
                    v.push(n);
                },
                None => {
                    return None;
                },
            }
            i = i + 1;
        }
        assert(v@ =~= concrete(self@)->0);
        Some(v)
    }

    /// The total number of elements if all axis lengths are known; the
    /// greatest `usize` where it is more than that.
    pub fn num_elements(&self) -> (r: Option<usize>)
        ensures
            r == (match concrete(self@) {
                Some(dims) => Some(saturated(product(dims))),
                None => None,
            }),
    {
        let mut acc: usize = 1;
        let mut i: usize = 0;
        let ghost all = Seq::new(self.0@.len(), |j: int| self.0@[j]->0);
        assert(all.take(0) =~= Seq::empty());
        while i < self.0.len()
            invariant
                i <= self.0@.len(),
                all == Seq::new(self.0@.len(), |j: int| self.0@[j]->0),
                acc == saturated(product(all.take(i as int))),
                forall|j: int| 0 <= j < i ==> (#[trigger] self.0@[j]) is Some,
            decreases self.0@.len() - i,
        {
            match self.0[i] {
                Some(n) => {
                    proof {
                        let before = product(all.take(i as int));
                        assert(all.take(i + 1).drop_last() =~= all.take(i as int));
                        assert(all.take(i + 1).last() == n);
                        assert(product(all.take(i + 1)) == before * n as nat);
                        if n == 0 {
                            assert(before * n as nat == 0) by (nonlinear_arith)
                                requires
                                    n == 0,
                            ;
                            assert(acc * n == 0) by (nonlinear_arith)
                                requires
                                    n == 0,
                            ;
                        } else if before > usize::MAX {
                            assert(before * n as nat >= before) by (nonlinear_arith)
                                requires
                                    n >= 1,
                            ;
                            assert(acc * n >= acc) by (nonlinear_arith)
                                requires
                                    n >= 1,
                                    acc >= 0,
                            ;
                        }
                    }
                    acc = match acc.checked_mul(n) {
                        Some(p) => p,
                        None => usize::MAX,
                    };
                },
                None => {
                    return None;
                },
            }
            i = i + 1;
        }
        assert(all.take(i as int) =~= concrete(self@)->0);
        Some(acc)
    }

    /// The same axis lengths.
    fn same(&self, other: &Shape) -> (r: bool)
        ensures
            r == (self@ == other@),
    {
        if self.0.len() != other.0.len() {
            return false;
        }
        let mut i: usize = 0;
        while i < self.0.len()
            invariant
                i <= self.0@.len(),
                self.0@.len() == other.0@.len(),
                forall|j: int| 0 <= j < i ==> self.0@[j] == other.0@[j],
            decreases self.0@.len() - i,
        {
            let same = match (self.0[i], other.0[i]) {
                (Some(m), Some(n)) => m == n,
                (None, None) => true,
                _ => false,
            };
            if !same {
                return false;
            }
            i = i + 1;
        }
        assert(self@ =~= other@);
        true
    }

    /// Whether this shape may stand where `other` is asked for: it is the
    /// same, or, where broadcasting is allowed, a scalar for a vector.
    pub fn matches(&self, other: &Shape, allow_broadcast: bool) -> (r: bool)
        ensures
            r == shape_matches(self@, other@, allow_broadcast),
    {
        if self.same(other) {
            return true;
        }
        allow_broadcast && self.0.len() == 0 && other.0.len() == 1
    }

    /// The text of the shape.
    pub fn describe(&self) -> (r: String)
        ensures
            r@ == shape_text(self@),
    {
        let mut s = "Shape([".to_owned();
        let mut axes = String::new();
        let mut i: usize = 0;
        assert(self@.take(0) =~= Seq::empty());
        assert(axes@ =~= axes_text(self@.take(0)));
        while i < self.0.len()
            invariant
                i <= self.0@.len(),
                axes@ == axes_text(self@.take(i as int)),
            decreases self.0@.len() - i,
        {
            assert(self@.take(i + 1).drop_last() =~= self@.take(i as int));
            if i > 0 {
                axes.append(", ");
                axes.append(axis_string(self.0[i]).as_str());
            } else {
                axes = axis_string(self.0[i]);
            }
            i = i + 1;
        }
        assert(self@.take(i as int) =~= self@);
        s.append(axes.as_str());
        s.append("])");
        s
    }
}

// ---------------------------------------------------------------------------
// Device buffers and storage
// ---------------------------------------------------------------------------
/// A buffer on a device. What it holds does not change while it is shared:
/// whoever writes to a buffer does so before a tensor takes it as its storage.
pub trait DeviceBuffer: Send + Sync {
    /// The type of the elements.
    closed spec fn spec_dtype(&self) -> DType {
        arbitrary()
    }

    /// The axis lengths.
    closed spec fn spec_shape(&self) -> Seq<usize> {
        arbitrary()
    }

    /// The elements.
    closed spec fn spec_contents(&self) -> Seq<F32> {
        arbitrary()
    }

    /// Whether reading the elements back never fails.
    closed spec fn spec_readable(&self) -> bool {
        arbitrary()
    }

    /// The type of the elements.
    fn dtype(&self) -> (r: DType)
        ensures
            r == self.spec_dtype(),
    ;

    /// The axis lengths.
    fn shape(&self) -> (r: Vec<usize>)
        ensures
            r@ == self.spec_shape(),
    ;

    /// Reads the elements back. A device may fail to.
    fn to_host_f32(&self) -> (r: Result<Vec<F32>, String>)
        ensures
            r matches Ok(v) ==> v@ == self.spec_contents(),
            self.spec_readable() ==> r is Ok,
    ;
}

/// An array of 64-bit floats. It is carried along and not computed with.
pub struct F64Array {
    pub dims: Vec<usize>,
    pub elems: Vec<F64>,
}

/// Where the elements of a tensor are.
pub enum TensorStorage {
    NdF32(Arc<NdArray>),
    NdF64(Arc<F64Array>),
    Device(Arc<Box<dyn DeviceBuffer>>),
}

/// What is known of a storage.
#[verifier::ext_equal]
pub enum StorageView {
    NdF32 { array: NdView },
    NdF64 { dims: Seq<usize>, elems: Seq<F64> },
    Device { dtype: DType, dims: Seq<usize>, contents: Seq<F32>, readable: bool },
}

impl View for TensorStorage {
    type V = StorageView;

    open spec fn view(&self) -> StorageView {
        match self {
            TensorStorage::NdF32(a) => StorageView::NdF32 { array: (**a)@ },
            TensorStorage::NdF64(a) => StorageView::NdF64 {
                dims: (**a).dims@,
                elems: (**a).elems@,
            },
            TensorStorage::Device(d) => StorageView::Device {
                dtype: (***d).spec_dtype(),
                dims: (***d).spec_shape(),
                contents: (***d).spec_contents(),
                readable: (***d).spec_readable(),
            },
        }
    }
}

/// `Arc::clone`: another pointer to the same value.
#[verifier::external_body]
pub(crate) fn share<T>(a: &Arc<T>) -> (r: Arc<T>)
    ensures
        r == *a,
{
    a.clone()
}

impl Clone for TensorStorage {
    fn clone(&self) -> (r: Self)
        ensures
            r@ == self@,
    {
        match self {
            TensorStorage::NdF32(a) => TensorStorage::NdF32(share(a)),
            TensorStorage::NdF64(a) => TensorStorage::NdF64(share(a)),
            TensorStorage::Device(d) => TensorStorage::Device(share(d)),
        }
    }
}

// ---------------------------------------------------------------------------
// Tensors
// ---------------------------------------------------------------------------
/// Elements with a type and a shape.
pub struct Tensor {
    pub dtype: DType,
    pub shape: Shape,
    pub storage: TensorStorage,
}

/// What is known of a tensor.
#[verifier::ext_equal]
pub struct TensorView {
    pub dtype: DType,
    pub shape: Seq<Option<usize>>,
    pub storage: StorageView,
}

impl View for Tensor {
    type V = TensorView;

    open spec fn view(&self) -> TensorView {
        TensorView { dtype: self.dtype, shape: self.shape@, storage: self.storage@ }
    }
}

impl Clone for Tensor {
    fn clone(&self) -> (r: Self)
        ensures
            r@ == self@,
    {
        Tensor { dtype: self.dtype, shape: self.shape.clone(), storage: self.storage.clone() }
    }
}

/// Why a tensor cannot be made or moved.
#[derive(Debug)]
pub enum TensorError {
    DataLength,
    Shape(ShapeFault),
    HostToDevice,
    DeviceRead(String),
    DeviceToHost,
    NotOnDevice,
}

/// A [`TensorError`], with the text by its characters.
pub enum TensorErrorView {
    DataLength,
    Shape { fault: ShapeFault },
    HostToDevice,
    DeviceRead { text: Seq<char> },
    DeviceToHost,
    NotOnDevice,
}

impl View for TensorError {
    type V = TensorErrorView;

    open spec fn view(&self) -> TensorErrorView {
        match self {
            TensorError::DataLength => TensorErrorView::DataLength,
            TensorError::Shape(fault) => TensorErrorView::Shape { fault: *fault },
            TensorError::HostToDevice => TensorErrorView::HostToDevice,
            TensorError::DeviceRead(s) => TensorErrorView::DeviceRead { text: s@ },
            TensorError::DeviceToHost => TensorErrorView::DeviceToHost,
            TensorError::NotOnDevice => TensorErrorView::NotOnDevice,
        }
    }
}

impl TensorErrorView {
    /// The text for an error.
    pub open spec fn text(self) -> Seq<char> {
        match self {
            TensorErrorView::DataLength => "data length does not match dims"@,
            TensorErrorView::Shape { fault } => fault.text(),
            TensorErrorView::HostToDevice => "host_to_device: only NdF32 supported in dummy device"@,
            TensorErrorView::DeviceRead { text } => text,
            TensorErrorView::DeviceToHost => "device_to_host: failed"@,
            TensorErrorView::NotOnDevice => "device_to_host: not a device tensor"@,
        }
    }
}

impl TensorError {
    /// Says what is wrong.
    pub fn message(&self) -> (r: String)
        ensures
            r@ == self@.text(),
    {
        match self {
            TensorError::DataLength => "data length does not match dims".to_owned(),
            TensorError::Shape(fault) => fault.message().to_owned(),
            TensorError::HostToDevice => "host_to_device: only NdF32 supported in dummy device".to_owned(),
            TensorError::DeviceRead(s) => s.as_str().to_owned(),
            TensorError::DeviceToHost => "device_to_host: failed".to_owned(),
            TensorError::NotOnDevice => "device_to_host: not a device tensor".to_owned(),
        }
    }
}

/// An outcome with the tensor and the error by their views.
pub open spec fn outcome(r: Result<Tensor, TensorError>) -> Result<TensorView, TensorErrorView> {
    match r {
        Ok(t) => Ok(t@),
        Err(e) => Err(e@),
    }
}

/// The tensor over an array, or the fault that came instead of one.
pub open spec fn over_array(
    shape: Seq<Option<usize>>,
    r: Result<NdView, ShapeFault>,
) -> Result<TensorView, TensorErrorView> {
    match r {
        Ok(array) => Ok(
            TensorView { dtype: DType::F32, shape, storage: StorageView::NdF32 { array } },
        ),
        Err(fault) => Err(TensorErrorView::Shape { fault }),
    }
}

/// Every product of the first few axis lengths is in range.
pub open spec fn products_fit(dims: Seq<usize>) -> bool {
    forall|k: int| 0 <= k <= dims.len() ==> product(#[trigger] dims.take(k)) <= usize::MAX
}

/// The tensor of these elements and axis lengths.
pub open spec fn built(data: Seq<F32>, dims: Seq<usize>) -> Result<TensorView, TensorErrorView> {
    if data.len() != product(dims) {
        Err(TensorErrorView::DataLength)
    } else {
        over_array(known(dims), shaped(dims, data))
    }
}

/// What a buffer on the host holds of an array: the elements as they lie in
/// memory, or in row-major order where they do not lie side by side.
pub open spec fn uploaded(a: NdView) -> StorageView {
    StorageView::Device {
        dtype: DType::F32,
        dims: a.dims,
        contents: match a.memory {
            Some(m) => m,
            None => a.elems,
        },
        readable: true,
    }
}

/// What moving a tensor to a buffer comes to.
pub open spec fn on_device(t: TensorView) -> Result<TensorView, TensorErrorView> {
    match t.storage {
        StorageView::NdF32 { array } => Ok(
            TensorView { dtype: t.dtype, shape: t.shape, storage: uploaded(array) },
        ),
        _ => Err(TensorErrorView::HostToDevice),
    }
}

/// The tensor with the given shape over elements that were read back.
pub open spec fn fetched(
    shape: Seq<Option<usize>>,
    read: Result<Seq<F32>, Seq<char>>,
) -> Result<TensorView, TensorErrorView> {
    match read {
        Err(text) => Err(TensorErrorView::DeviceRead { text }),
        Ok(data) => match concrete(shape) {
            None => Err(TensorErrorView::DeviceToHost),
            Some(dims) => over_array(shape, shaped(dims, data)),
        },
    }
}

/// What fetching a tensor back may come to: a device that can be read gives
/// what it holds, any other may fail to.
pub open spec fn may_come_back(t: TensorView, r: Result<TensorView, TensorErrorView>) -> bool {
    match t.storage {
        StorageView::Device { dtype, contents, readable, .. } => if dtype == DType::F32 {
            ||| r == fetched(t.shape, Ok(contents))
            ||| !readable && exists|text: Seq<char>| r == #[trigger] fetched(t.shape, Err(text))
        } else {
            r == Err::<TensorView, _>(TensorErrorView::DeviceToHost)
        },
        _ => r == Err::<TensorView, _>(TensorErrorView::NotOnDevice),
    }
}

/// Whether the array of a tensor is sure to come.
pub open spec fn has_array(t: TensorView) -> bool {
    match t.storage {
        StorageView::NdF32 { .. } => true,
        StorageView::NdF64 { .. } => false,
        StorageView::Device { dtype, contents, readable, .. } => readable && dtype == DType::F32
            && fetched(t.shape, Ok(contents)) is Ok,
    }
}

/// What came of reading a device, by views.
pub open spec fn read_view(read: Result<Vec<F32>, String>) -> Result<Seq<F32>, Seq<char>> {
    match read {
        Ok(v) => Ok(v@),
        Err(s) => Err(s@),
    }
}

proof fn lemma_one_axis(n: usize)
    ensures
        product(seq![n]) == n,
        nonzero_product(seq![n]) == if n == 0 {
            1
        } else {
            n as nat
        },
{
    assert(seq![n].drop_last() =~= Seq::empty());
    assert(product(seq![n].drop_last()) == 1);
    assert(nonzero_product(seq![n].drop_last()) == 1);
    assert(1 * n as nat == n);
}

proof fn lemma_two_axes(m: usize, n: usize)
    requires
        m * n <= usize::MAX,
    ensures
        products_fit(seq![m, n]),
{
    let dims = seq![m, n];
    lemma_one_axis(m);
    assert(dims.drop_last() =~= seq![m]);
    assert(product(dims) == m as nat * n as nat);
    assert(dims.take(0) =~= Seq::empty());
    assert(dims.take(1) =~= seq![m]);
    assert(dims.take(2) =~= dims);
    assert forall|k: int| 0 <= k <= dims.len() implies product(#[trigger] dims.take(k))
        <= usize::MAX by {
        assert(k == 0 || k == 1 || k == 2);
    }
}

impl Tensor {
    /// A scalar: an array without axes.
    pub fn scalar_f32(v: F32) -> (r: Self)
        ensures
            outcome(Ok(r)) == built(seq![v], Seq::empty()),
            r@ == (TensorView {
                dtype: DType::F32,
                shape: Seq::empty(),
                storage: StorageView::NdF32 { array: standard(Seq::empty(), seq![v]) },
            }),
    {
        let dims: Vec<usize> = Vec::new();
        let mut data: Vec<F32> = Vec::new();
        data.push(v);
        assert(data@ =~= seq![v]);
        assert(dims@ =~= Seq::empty());
        assert(known(Seq::empty()) =~= Seq::empty());
        match nd_from_shape_vec(&dims, data) {
            Ok(a) => Tensor {
                dtype: DType::F32,
                shape: Shape::scalar(),
                storage: TensorStorage::NdF32(Arc::new(a)),
            },
            Err(_) => vstd::pervasive::unreached(),
        }
    }

    /// A vector.
    pub fn vector_f32(v: Vec<F32>) -> (r: Self)
        requires
            v@.len() <= isize::MAX,
        ensures
            r@ == (TensorView {
                dtype: DType::F32,
                shape: seq![Some(v@.len() as usize)],
                storage: StorageView::NdF32 {
                    array: standard(seq![v@.len() as usize], v@),
                },
            }),
    {
        let len: usize = v.len();
        let mut dims: Vec<usize> = Vec::new();
        dims.push(len);
        assert(dims@ =~= seq![len]);
        proof {
            lemma_one_axis(len);
        }
        match nd_from_shape_vec(&dims, v) {
            Ok(a) => Tensor {
                dtype: DType::F32,
                shape: Shape::vector(len),
                storage: TensorStorage::NdF32(Arc::new(a)),
            },
            Err(_) => vstd::pervasive::unreached(),
        }
    }

    /// A tensor from its elements in row-major order and its axis lengths.
    pub fn from_vec_nd_f32(data: Vec<F32>, dims: Vec<usize>) -> (r: Result<Self, TensorError>)
        requires
            products_fit(dims@),
        ensures
            outcome(r) == built(data@, dims@),
    {
        let mut expected: usize = 1;
        let mut i: usize = 0;
        assert(dims@.take(0) =~= Seq::empty());
        while i < dims.len()
            invariant
                i <= dims@.len(),
                products_fit(dims@),
                expected == product(dims@.take(i as int)),
            decreases dims@.len() - i,
        {
            assert(dims@.take(i + 1).drop_last() =~= dims@.take(i as int));
            assert(product(dims@.take(i + 1)) == expected * dims@[i as int]);
            expected = expected * dims[i];
            i = i + 1;
        }
        assert(dims@.take(i as int) =~= dims@);
        if data.len() != expected {
            return Err(TensorError::DataLength);
        }
        match nd_from_shape_vec(&dims, data) {
            Ok(a) => Ok(
                Tensor {
                    dtype: DType::F32,
                    shape: Shape::of_dims(&dims),
                    storage: TensorStorage::NdF32(Arc::new(a)),
                },
            ),
            Err(fault) => Err(TensorError::Shape(fault)),
        }
    }

    /// A matrix from its elements in row-major order.
    pub fn matrix_f32(rows: usize, cols: usize, data: Vec<F32>) -> (r: Result<Self, TensorError>)
        requires
            rows * cols <= usize::MAX,
        ensures
            outcome(r) == built(data@, seq![rows, cols]),
    {
        let mut dims: Vec<usize> = Vec::new();
        dims.push(rows);
        dims.push(cols);
        assert(dims@ =~= seq![rows, cols]);
        proof {
            lemma_two_axes(rows, cols);
        }
        Tensor::from_vec_nd_f32(data, dims)
    }

    /// The element of a scalar on the host.
    pub open spec fn spec_scalar(t: TensorView) -> Option<F32> {
        match t.storage {
            StorageView::NdF32 { array } => if t.shape.len() == 0 && array.dims.len() == 0
                && array.elems.len() > 0 {
                Some(array.elems[0])
            } else {
                None
            },
            _ => None,
        }
    }

    /// The element of a scalar on the host.
    pub fn as_f32_scalar(&self) -> (r: Option<F32>)
        ensures
            r == Tensor::spec_scalar(self@),
    {
        if self.shape.0.len() == 0 {
            match &self.storage {
                TensorStorage::NdF32(a) => {
                    if nd_shape(a).len() == 0 {
                        nd_first(a)
                    } else {
                        None
                    }
                },
                _ => None,
            }
        } else {
            None
        }
    }

    /// The elements of a tensor on the host, as they lie in memory.
    pub fn as_f32_slice(&self) -> (r: Option<&[F32]>)
        ensures
            match (self@.storage, r) {
                (StorageView::NdF32 { array }, Some(s)) => array.memory == Some(s@),
                (StorageView::NdF32 { array }, None) => array.memory is None,
                (_, Some(_)) => false,
                (_, None) => true,
            },
    {
        match &self.storage {
            TensorStorage::NdF32(a) => nd_as_slice_memory_order(a),
            _ => None,
        }
    }

    /// Whether there are no axes.
    pub fn is_scalar(&self) -> (r: bool)
        ensures
            r == (self@.shape.len() == 0),
    {
        self.shape.0.len() == 0
    }

    /// Whether there is one axis.
    pub fn is_vector(&self) -> (r: bool)
        ensures
            r == (self@.shape.len() == 1),
    {
        self.shape.0.len() == 1
    }

    /// The array of the given shape over elements that were read from a
    /// device, if there is one.
    pub fn array_of_read(shape: &Shape, read: Result<Vec<F32>, String>) -> (r: Option<NdArray>)
        ensures
            match r {
                Some(a) => fetched(shape@, read_view(read)) == over_array(shape@, Ok(a@)),
                None => fetched(shape@, read_view(read)) is Err,
            },
    {
        match (read, shape.dims()) {
            (Ok(data), Some(dims)) => match nd_from_shape_vec(&dims, data) {
                Ok(a) => Some(a),
                Err(_) => None,
            },
            _ => None,
        }
    }

    /// The elements as an array on the host. A device may fail to give them;
    /// what is returned for each outcome of the read, `array_of_read` says.
    pub fn to_ndarray_f32(&self) -> (r: Option<Arc<NdArray>>)
        ensures
            match self@.storage {
                StorageView::NdF32 { array } => r matches Some(a) && (*a)@ == array,
                StorageView::NdF64 { .. } => r is None,
                StorageView::Device { dtype, contents, .. } => {
                    &&& r matches Some(a) ==> dtype == DType::F32 && fetched(
                        self@.shape,
                        Ok(contents),
                    ) == over_array(self@.shape, Ok((*a)@))
                    &&& has_array(self@) ==> r is Some
                },
            },
    {
        match &self.storage {
            TensorStorage::NdF32(a) => Some(share(a)),
            TensorStorage::Device(dev) => {
                if dev.dtype() == DType::F32 {
                    match Tensor::array_of_read(&self.shape, dev.to_host_f32()) {
                        Some(a) => Some(Arc::new(a)),
                        None => None,
                    }
                } else {
                    None
                }
            },
            _ => None,
        }
    }

    /// Moves the elements to a buffer.
    pub fn host_to_device(&self) -> (r: Result<Self, TensorError>)
        ensures
            outcome(r) == on_device(self@),
    {
        match &self.storage {
            TensorStorage::NdF32(a) => {
                let storage = buffer_from_array_cpu(share(a));
                Ok(Tensor { dtype: self.dtype, shape: self.shape.clone(), storage })
            },
            _ => Err(TensorError::HostToDevice),
        }
    }

    /// The tensor of the given shape over elements that were read from a
    /// device.
    pub fn tensor_of_read(shape: &Shape, read: Result<Vec<F32>, String>) -> (r: Result<
        Self,
        TensorError,
    >)
        ensures
            outcome(r) == fetched(shape@, read_view(read)),
    {
        match read {
            Err(s) => Err(TensorError::DeviceRead(s)),
            Ok(data) => match shape.dims() {
                Some(dims) => match nd_from_shape_vec(&dims, data) {
                    Ok(a) => Ok(
                        Tensor {
                            dtype: DType::F32,
                            shape: shape.clone(),
                            storage: TensorStorage::NdF32(Arc::new(a)),
                        },
                    ),
                    Err(fault) => Err(TensorError::Shape(fault)),
                },
                None => Err(TensorError::DeviceToHost),
            },
        }
    }

    /// Fetches the elements back. A device may fail to give them; what is
    /// returned for each outcome of the read, `tensor_of_read` says.
    pub fn device_to_host(&self) -> (r: Result<Self, TensorError>)
        ensures
            may_come_back(self@, outcome(r)),
    {
        match &self.storage {
            TensorStorage::Device(dev) => {
                if dev.dtype() == DType::F32 {
                    Tensor::tensor_of_read(&self.shape, dev.to_host_f32())
                } else {
                    Err(TensorError::DeviceToHost)
                }
            },
            _ => Err(TensorError::NotOnDevice),
        }
    }
}

} // verus!
