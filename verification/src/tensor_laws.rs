//! What holds of tensors across operations.

use crate::nd::{
    joined, product, reshaped, sizable, slab_len, slabs, standard, woven, NdView,
    ShapeFault, F32,
};
use crate::nodes::spread;
use crate::tensor::{
    concrete, known, may_come_back, on_device, DType, StorageView, TensorErrorView, TensorView,
};
use vstd::prelude::*;

verus! {

/// The shape of known axis lengths gives these axis lengths back.
pub proof fn law_known_shapes_are_concrete(dims: Seq<usize>)
    ensures
        concrete(known(dims)) == Some(dims),
{
    assert(concrete(known(dims))->0 =~= dims);
}

/// A tensor that goes to a buffer on the host and is fetched back has the
/// shape and the elements that it had, in row-major order, unless its elements
/// lie in memory in another order than that.
pub proof fn law_device_round_trip(
    dtype: DType,
    array: NdView,
    back: Result<TensorView, TensorErrorView>,
)
    requires
        sizable(array.dims),
        product(array.dims) == array.elems.len(),
        array.memory is Some ==> array.memory->0 == array.elems,
        ({
            let t = TensorView {
                dtype,
                shape: known(array.dims),
                storage: StorageView::NdF32 { array },
            };
            let there = on_device(t);
            there is Ok && may_come_back(there->Ok_0, back)
        }),
    ensures
        back == Ok::<TensorView, TensorErrorView>(row_major(array.dims, array.elems)),
{
    law_known_shapes_are_concrete(array.dims);
}

/// A row-major tensor on the host.
pub open spec fn row_major(dims: Seq<usize>, elems: Seq<F32>) -> TensorView {
    TensorView {
        dtype: DType::F32,
        shape: known(dims),
        storage: StorageView::NdF32 { array: standard(dims, elems) },
    }
}

/// Reshaping an array in row-major order keeps its elements and their order,
/// and reshaping it back gives the array it was.
pub proof fn law_reshape_keeps_elements(a: NdView, dims: Seq<usize>)
    requires
        a.layout is Standard,
        sizable(a.dims),
        reshaped(a, dims) is Ok,
    ensures
        reshaped(a, dims)->Ok_0 == (NdView { dims, ..a }),
        reshaped(reshaped(a, dims)->Ok_0, a.dims) == Ok::<NdView, ShapeFault>(a),
{
}

/// An array in row-major or column-major order takes on every shape with as
/// many elements: reshaping fails exactly where the numbers differ or the axis
/// lengths are out of range.
pub proof fn law_reshape_succeeds_for_equal_counts(a: NdView, dims: Seq<usize>)
    requires
        a.layout is Standard || (a.layout is Reversed && a.memory is Some),
    ensures
        reshaped(a, dims) is Ok <==> sizable(dims) && product(dims) == product(a.dims),
{
}

/// The elements of all arrays, one array after the other.
pub open spec fn in_turn(arrays: Seq<NdView>) -> Seq<F32>
    decreases arrays.len(),
{
    if arrays.len() == 0 {
        Seq::empty()
    } else {
        in_turn(arrays.drop_last()) + arrays.last().elems
    }
}

proof fn lemma_slabs(arrays: Seq<NdView>)
    requires
        forall|k: int|
            0 <= k < arrays.len() ==> (#[trigger] arrays[k]).elems.len() == product(arrays[k].dims),
    ensures
        slabs(arrays, 0, 0) == in_turn(arrays),
    decreases arrays.len(),
{
    if arrays.len() > 0 {
        let rest = arrays.drop_last();
        let a = arrays.last();
        assert forall|k: int| 0 <= k < rest.len() implies (#[trigger] rest[k]).elems.len()
            == product(rest[k].dims) by {
            assert(rest[k] == arrays[k]);
        }
        lemma_slabs(rest);
        assert(a == arrays[arrays.len() - 1]);
        assert(a.dims.skip(0) =~= a.dims);
        assert(a.elems.subrange(0, slab_len(a, 0)) =~= a.elems);
    }
}

/// Joined along the first axis, the elements of the arrays follow each other.
pub proof fn law_join_follows_in_turn(arrays: Seq<NdView>)
    requires
        forall|k: int|
            0 <= k < arrays.len() ==> (#[trigger] arrays[k]).elems.len() == product(arrays[k].dims),
        joined(arrays, 0) is Ok,
    ensures
        joined(arrays, 0)->Ok_0.elems == in_turn(arrays),
        joined(arrays, 0)->Ok_0.memory == Some(in_turn(arrays)),
{
    lemma_slabs(arrays);
    let dims = joined(arrays, 0)->Ok_0.dims;
    assert(dims.take(0) =~= Seq::empty());
    assert(woven(arrays, 0, 0) =~= Seq::empty());
    assert(woven(arrays, 0, 1) =~= slabs(arrays, 0, 0));
}

proof fn lemma_spread(ports: Seq<Seq<char>>, ts: Seq<TensorView>, n: nat, i: int)
    requires
        0 <= i < n <= ports.len(),
        forall|j: int, k: int| 0 <= j < k < ports.len() ==> ports[j] != ports[k],
    ensures
        spread(ports, ts, n).dom().contains(ports[i]),
        spread(ports, ts, n)[ports[i]] == seq![
            if i < ts.len() {
                ts[i]
            } else {
                ts[0]
            },
        ],
    decreases n,
{
    if i < n - 1 {
        lemma_spread(ports, ts, (n - 1) as nat, i);
    }
}

/// A merge to ports with different names puts the tensor in its place at each
/// of them, and the first tensor where there are no more.
pub proof fn law_merge_fills_every_port(ports: Seq<Seq<char>>, ts: Seq<TensorView>, i: int)
    requires
        0 <= i < ports.len(),
        forall|j: int, k: int| 0 <= j < k < ports.len() ==> ports[j] != ports[k],
    ensures
        spread(ports, ts, ports.len()).dom().contains(ports[i]),
        spread(ports, ts, ports.len())[ports[i]] == seq![
            if i < ts.len() {
                ts[i]
            } else {
                ts[0]
            },
        ],
{
    lemma_spread(ports, ts, ports.len(), i);
}

} // verus!
