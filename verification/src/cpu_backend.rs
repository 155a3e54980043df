//! Buffers on the host, for builds without a device.

use crate::nd::{nd_as_slice_memory_order, nd_iter, nd_shape, NdArray, NdView, F32};
use crate::tensor::{uploaded, DType, DeviceBuffer, TensorStorage};
use std::sync::Arc;
use vstd::prelude::*;

verus! {

/// The elements of an array as they go to a device: as they lie in memory, or
/// in row-major order where they do not lie side by side.
pub fn flat_elements(a: &NdArray) -> (r: Vec<F32>)
    ensures
        r@ == uploaded(a@)->contents,
{
    match nd_as_slice_memory_order(a) {
        Some(slice) => {
            let mut v: Vec<F32> = Vec::new();
            let mut i: usize = 0;
            while i < slice.len()
                invariant
                    i <= slice@.len(),
                    v@ == slice@.take(i as int),
                decreases slice@.len() - i,
            {
                v.push(slice[i]);
                i = i + 1;
                assert(v@ =~= slice@.take(i as int));
            }
            assert(v@ =~= slice@);
            v
        },
        None => nd_iter(a),
    }
}

/// A buffer that is an array on the host.
pub struct CpuBuffer {
    data: Arc<NdArray>,
}

impl CpuBuffer {
    /// The array in the buffer.
    pub closed spec fn array(&self) -> NdView {
        (*self.data)@
    }

    /// Takes an array as a buffer.
    pub fn from_array(a: Arc<NdArray>) -> (r: Self)
        ensures
            r.array() == (*a)@,
    {
        CpuBuffer { data: a }
    }
}

impl DeviceBuffer for CpuBuffer {
    open spec fn spec_dtype(&self) -> DType {
        DType::F32
    }

    open spec fn spec_shape(&self) -> Seq<usize> {
        self.array().dims
    }

    open spec fn spec_contents(&self) -> Seq<F32> {
        uploaded(self.array())->contents
    }

    open spec fn spec_readable(&self) -> bool {
        true
    }

    fn dtype(&self) -> (r: DType) {
        DType::F32
    }

    fn shape(&self) -> (r: Vec<usize>) {
        nd_shape(&self.data)
    }

    fn to_host_f32(&self) -> (r: Result<Vec<F32>, String>) {
        Ok(flat_elements(&self.data))
    }
}

/// A buffer over an array on the host, as the storage of a tensor.
pub fn buffer_from_array_cpu(a: Arc<NdArray>) -> (r: TensorStorage)
    ensures
        r@ == uploaded((*a)@),
{
    let boxed: Box<dyn DeviceBuffer> = Box::new(CpuBuffer::from_array(a));
    let buffer = Arc::new(boxed);
    assert(*buffer == boxed);
    TensorStorage::Device(buffer)
}

} // verus!
