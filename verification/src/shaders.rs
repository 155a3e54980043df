//! What hosts and shaders share: shapes, and the copy of a flat buffer.

use crate::nd::{product, F32};
use crate::tensor::products_fit;
use vstd::prelude::*;

verus! {

/// The number of elements of a shape.
pub fn num_elements(dims: &[usize]) -> (r: usize)
    requires
        products_fit(dims@),
    ensures
        r == product(dims@),
{
    let mut n: usize = 1;
    let mut i: usize = 0;
    assert(dims@.take(0) =~= Seq::empty());
    while i < dims.len()
        invariant
            i <= dims@.len(),
            products_fit(dims@),
            n == product(dims@.take(i as int)),
        decreases dims@.len() - i,
    {
        assert(dims@.take(i + 1).drop_last() =~= dims@.take(i as int));
        assert(product(dims@.take(i + 1)) == n * dims@[i as int]);
        n = n * dims[i];
        i = i + 1;
    }
    assert(dims@.take(i as int) =~= dims@);
    n
}

/// An axis length as a shader has it: its lower 32 bits.
pub open spec fn shader_dim(d: usize) -> u32 {
    (d as int % 0x1_0000_0000) as u32
}

fn to_shader_dim(d: usize) -> (r: u32)
    ensures
        r == shader_dim(d),
{
    let wide: u64 = d as u64;
    assert((wide % 0x1_0000_0000) <= 0xffff_ffff) by (bit_vector);
    (wide % 0x1_0000_0000) as u32
}

/// The axis lengths as a shader has them.
pub fn canonical_layout_dims(dims: &[usize]) -> (r: Vec<u32>)
    ensures
        r@.len() == dims@.len(),
        forall|i: int| 0 <= i < dims@.len() ==> #[trigger] r@[i] == shader_dim(dims@[i]),
{
    let mut out: Vec<u32> = Vec::new();
    let mut i: usize = 0;
    while i < dims.len()
        invariant
            i <= dims@.len(),
            out@.len() == i,
            forall|j: int| 0 <= j < i ==> #[trigger] out@[j] == shader_dim(dims@[j]),
        decreases dims@.len() - i,
    {
        out.push(to_shader_dim(dims[i]));
        i = i + 1;
    }
    out
}

/// Copies all elements to a buffer of the same length.
pub fn copy_flat(src: &[F32], dst: &mut Vec<F32>)
    requires
        src@.len() == old(dst)@.len(),
    ensures
        final(dst)@ == src@,
{
    let mut i: usize = 0;
    while i < src.len()
        invariant
            i <= src@.len(),
            src@.len() == dst@.len(),
            forall|j: int| 0 <= j < i ==> #[trigger] dst@[j] == src@[j],
        decreases src@.len() - i,
    {
        dst.set(i, src[i]);
        i = i + 1;
    }
    assert(dst@ =~= src@);
}

/// What one invocation of the copy kernel leaves in the destination.
pub open spec fn kernel_step(src: Seq<F32>, dst: Seq<F32>, idx: int) -> Seq<F32> {
    if 0 <= idx < src.len() && idx < dst.len() {
        dst.update(idx, src[idx])
    } else {
        dst
    }
}

/// One invocation of the copy kernel: copies the element with its number, if
/// both buffers have it.
pub fn copy_kernel(idx: u32, src: &[F32], dst: &mut Vec<F32>)
    ensures
        final(dst)@ == kernel_step(src@, old(dst)@, idx as int),
{
    let i: usize = idx as usize;
    if i < src.len() && i < dst.len() {
        dst.set(i, src[i]);
    }
}

/// What invocations with the given numbers, one after the other, leave in the
/// destination.
pub open spec fn kernel_run(src: Seq<F32>, dst: Seq<F32>, order: Seq<u32>) -> Seq<F32>
    decreases order.len(),
{
    if order.len() == 0 {
        dst
    } else {
        kernel_step(src, kernel_run(src, dst, order.drop_last()), order.last() as int)
    }
}

/// Whether an invocation has a number.
pub open spec fn invoked(order: Seq<u32>, i: int) -> bool {
    exists|k: int| 0 <= k < order.len() && (#[trigger] order[k]) == i
}

proof fn lemma_kernel_run(src: Seq<F32>, dst: Seq<F32>, order: Seq<u32>, i: int)
    requires
        0 <= i < dst.len(),
        src.len() == dst.len(),
    ensures
        kernel_run(src, dst, order).len() == dst.len(),
        kernel_run(src, dst, order)[i] == if invoked(order, i) {
            src[i]
        } else {
            dst[i]
        },
    decreases order.len(),
{
    if order.len() > 0 {
        let rest = order.drop_last();
        lemma_kernel_run(src, dst, rest, i);
        if invoked(rest, i) {
            let k = choose|k: int| 0 <= k < rest.len() && (#[trigger] rest[k]) == i;
            assert(order[k] == i);
        }
        if invoked(order, i) {
            let k = choose|k: int| 0 <= k < order.len() && (#[trigger] order[k]) == i;
            if k < rest.len() {
                assert(rest[k] == i);
            } else {
                assert(order.last() == i);
            }
        }
        if order.last() == i {
            assert(order[order.len() - 1] == i);
        }
    }
}

/// The kernel copies the buffer, in whatever order its invocations come and
/// though some come more than once or have numbers past the end, as long as
/// every element has one.
pub proof fn law_kernel_copies_in_any_order(src: Seq<F32>, dst: Seq<F32>, order: Seq<u32>)
    requires
        src.len() == dst.len(),
        forall|i: int| 0 <= i < src.len() ==> #[trigger] invoked(order, i),
    ensures
        kernel_run(src, dst, order) == src,
{
    if src.len() == 0 {
        lemma_empty_run(src, dst, order);
        assert(kernel_run(src, dst, order) =~= src);
    } else {
        lemma_kernel_run(src, dst, order, 0);
        assert forall|i: int| 0 <= i < src.len() implies #[trigger] kernel_run(src, dst, order)[i]
            == src[i] by {
            lemma_kernel_run(src, dst, order, i);
        }
        assert(kernel_run(src, dst, order) =~= src);
    }
}

proof fn lemma_empty_run(src: Seq<F32>, dst: Seq<F32>, order: Seq<u32>)
    requires
        dst.len() == 0,
    ensures
        kernel_run(src, dst, order).len() == 0,
    decreases order.len(),
{
    if order.len() > 0 {
        lemma_empty_run(src, dst, order.drop_last());
    }
}

/// How many invocations a workgroup of the kernel has.
pub const WORKGROUP: u32 = 64;

/// How many workgroups a buffer of so many elements needs.
pub fn workgroups(elements: u32) -> (r: u32)
    ensures
        r == (elements + 63) / 64,
        r * WORKGROUP >= elements,
        r > 0 ==> (r - 1) * WORKGROUP < elements,
{
    let full: u32 = elements / WORKGROUP;
    if elements % WORKGROUP > 0 {
        full + 1
    } else {
        full
    }
}

} // verus!
