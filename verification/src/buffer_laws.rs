//! What the pool of staging buffers, the plans for copies, the planner's
//! buffers and the copy kernel come to.

use crate::arithmetic::{Precision, Real};
use crate::nd::F32;
use crate::scratch::{instrumentation_file, plain_text, Instrumentation, Sample, Scratch};
use crate::shaders::{canonical_layout_dims, copy_flat, copy_kernel, num_elements, workgroups};
use crate::staging::{
    bucket_for_size, first_free, is_power_of_two, read_plan, staged_bytes,
    staged_destination_usage, trimmed, upload_plan, Staging, StagingEntry, StagingPool, UploadPlan,
    Usage,
};
use crate::tensor::products_fit;
use vstd::arithmetic::power2::{lemma2_to64, lemma_pow2_unfold, pow2};
use vstd::prelude::*;

verus! {

// ---------------------------------------------------------------------------
// Usages and sizes
// ---------------------------------------------------------------------------
/// The union of two usages allows what either does and nothing else, and a
/// usage contains another exactly where it allows all that the other does.
pub proof fn law_usages(a: Usage, b: Usage, both: Usage, r: bool)
    requires
        call_ensures(Usage::union, (a, b), both),
        call_ensures(Usage::contains, (a, b), r),
    ensures
        both.map_read == (a.map_read || b.map_read),
        both.copy_src == (a.copy_src || b.copy_src),
        both.copy_dst == (a.copy_dst || b.copy_dst),
        both.storage == (a.storage || b.storage),
        r <==> (b.map_read ==> a.map_read) && (b.copy_src ==> a.copy_src) && (b.copy_dst
            ==> a.copy_dst) && (b.storage ==> a.storage),
        r <==> both == a,
{
}

proof fn lemma_power(n: int) -> (k: nat)
    requires
        is_power_of_two(n),
    ensures
        n == pow2(k),
    decreases n,
{
    lemma2_to64();
    if n == 1 {
        0
    } else {
        let k = lemma_power(n / 2);
        lemma_pow2_unfold(k + 1);
        k + 1
    }
}

/// Buffers are kept by powers of two: that for a size is not less than it, and
/// is less than twice as much, or one.
pub proof fn law_buckets_are_powers_of_two(size: u64, r: u64) -> (k: nat)
    requires
        call_ensures(bucket_for_size, (size,), r),
    ensures
        r == pow2(k),
        size <= r,
        r == 1 || r < 2 * size,
{
    lemma_power(r as int)
}

/// So many floats take four bytes each. Up to 65536 bytes go to the device
/// directly, more go through a staging buffer of the size that such a number
/// is kept by. The buffer allows what is asked, and to be copied from and to.
pub proof fn law_uploads_are_planned(elements: u64, usage: Usage, r: UploadPlan)
    requires
        call_ensures(upload_plan, (elements, usage), r),
    ensures
        r.size == elements + elements + elements + elements,
        r.path is Direct <==> r.size <= 65536,
        r.path is Staged ==> r.size <= r.path->bucket < 2 * r.size,
        r.path is Staged ==> exists|k: nat| r.path->bucket == #[trigger] pow2(k),
        r.usage.copy_src && r.usage.copy_dst,
        r.usage.map_read == usage.map_read,
        r.usage.storage == usage.storage,
{
    if r.path is Staged {
        let k = lemma_power(r.path->bucket as int);
        assert(r.path->bucket == pow2(k));
    }
}

/// Reads are planned by the same sizes.
pub proof fn law_reads_are_planned(elements: u64, r: (u64, u64))
    requires
        call_ensures(read_plan, (elements,), r),
    ensures
        r.0 == elements + elements + elements + elements,
        r.0 <= r.1,
        r.1 == 1 || r.1 < 2 * r.0,
        exists|k: nat| r.1 == #[trigger] pow2(k),
{
    let k = lemma_power(r.1 as int);
    assert(r.1 == pow2(k));
}

/// What a staged upload ends in allows what the staging buffer does, and to be
/// copied from and to.
pub proof fn law_destinations_can_be_copied(staging: Usage, r: Usage)
    requires
        call_ensures(staged_destination_usage, (staging,), r),
    ensures
        r.copy_src && r.copy_dst,
        r.map_read == staging.map_read,
        r.storage == staging.storage,
{
}

/// The bytes that are asked for are the first of those that are there.
pub proof fn law_reads_are_trimmed(mapped: &[u8], size: usize, r: Vec<u8>, i: int)
    requires
        size <= mapped@.len(),
        call_ensures(trimmed, (mapped, size), r),
        0 <= i < size,
    ensures
        r@.len() == size,
        r@[i] == mapped@[i],
{
}

/// A buffer is shown with its first contents, or with zeros.
pub proof fn law_first_contents(key: usize, contents: Option<&[u8]>, r: Vec<u8>, i: int)
    requires
        call_ensures(staged_bytes, (key, contents), r),
    ensures
        contents is Some ==> r@.len() == contents->0@.len() && (0 <= i < r@.len() ==> r@[i]
            == contents->0@[i]),
        contents is None ==> r@.len() == key && (0 <= i < key ==> r@[i] == 0),
{
}

// ---------------------------------------------------------------------------
// The pool
// ---------------------------------------------------------------------------
/// A buffer that is not in use and can be used for writing to a device, that
/// is to be copied from and to, or for reading from one, that is to be copied
/// to and mapped.
pub open spec fn usable(e: StagingEntry, for_write: bool) -> bool {
    &&& !e.in_use
    &&& e.usage.copy_dst
    &&& for_write ==> e.usage.copy_src
    &&& !for_write ==> e.usage.map_read
}

/// The same buffer, in use or not.
pub open spec fn same_buffer(a: StagingEntry, b: StagingEntry) -> bool {
    a.buffer == b.buffer && a.usage == b.usage
}

proof fn lemma_first(s: Seq<StagingEntry>, for_write: bool, i: int, place: int)
    requires
        0 <= i <= place < s.len(),
        usable(s[place], for_write),
        forall|k: int| i <= k < place ==> !usable(#[trigger] s[k], for_write),
    ensures
        first_free(s, for_write, i) == Some(place),
    decreases place - i,
{
    if i < place {
        assert(!usable(s[i], for_write));
        lemma_first(s, for_write, i + 1, place);
    }
}

proof fn lemma_none(s: Seq<StagingEntry>, for_write: bool, i: int)
    requires
        0 <= i,
        forall|k: int| i <= k < s.len() ==> !usable(#[trigger] s[k], for_write),
    ensures
        first_free(s, for_write, i) is None,
    decreases s.len() - i,
{
    if i < s.len() {
        assert(!usable(s[i], for_write));
        lemma_none(s, for_write, i + 1);
    }
}

/// The first usable buffer of a size is taken from the pool and is in use from
/// then on; the others of the size stay in their order.
pub proof fn law_first_usable_buffers_are_taken(
    pool: &mut StagingPool,
    key: u64,
    for_write: bool,
    r: Option<StagingEntry>,
    place: int,
)
    requires
        call_ensures(StagingPool::acquire, (pool, key, for_write), r),
        0 <= place < old(pool).bucket(key).len(),
        usable(old(pool).bucket(key)[place], for_write),
        forall|k: int|
            0 <= k < place ==> !usable(#[trigger] old(pool).bucket(key)[k], for_write),
    ensures
        ({
            let before = old(pool).bucket(key);
            let after = final(pool).bucket(key);
            &&& r is Some
            &&& r->0.in_use
            &&& same_buffer(r->0, before[place])
            &&& after.len() == before.len() - 1
            &&& forall|k: int| 0 <= k < place ==> #[trigger] after[k] == before[k]
            &&& forall|k: int| place <= k < after.len() ==> #[trigger] after[k] == before[k + 1]
        }),
{
    lemma_first(old(pool).bucket(key), for_write, 0, place);
}

/// Where no buffer of a size is usable, none is taken.
pub proof fn law_unusable_buffers_stay(
    pool: &mut StagingPool,
    key: u64,
    for_write: bool,
    r: Option<StagingEntry>,
)
    requires
        call_ensures(StagingPool::acquire, (pool, key, for_write), r),
        forall|k: int|
            0 <= k < old(pool).bucket(key).len() ==> !usable(
                #[trigger] old(pool).bucket(key)[k],
                for_write,
            ),
    ensures
        r is None,
        final(pool).bucket(key) == old(pool).bucket(key),
{
    lemma_none(old(pool).bucket(key), for_write, 0);
}

/// A buffer that comes back is not in use any more, and stands last among
/// those of its size. Where there were four or more, only the last four stay,
/// and the others are handed out, in their order.
pub proof fn law_the_last_four_are_kept(
    pool: &mut StagingPool,
    key: u64,
    entry: StagingEntry,
    r: Vec<StagingEntry>,
)
    requires
        call_ensures(StagingPool::release, (pool, key, entry), r),
    ensures
        ({
            let before = old(pool).bucket(key);
            let after = final(pool).bucket(key);
            &&& before.len() < 4 ==> after.len() == before.len() + 1 && r@.len() == 0
            &&& before.len() >= 4 ==> after.len() == 4 && r@.len() == before.len() - 3
            &&& !after.last().in_use
            &&& same_buffer(after.last(), entry)
            &&& forall|k: int| 0 <= k < r@.len() ==> #[trigger] r@[k] == before[k]
            &&& forall|k: int|
                0 <= k < after.len() - 1 ==> #[trigger] after[k] == before[k + r@.len()]
        }),
{
}

/// A staging buffer is taken from the pool where that has one, as by
/// [`StagingPool::acquire`]; else one is to be made, of the size and for what
/// it is needed for. One for writing with first contents gets these once it is
/// there; one for reading is made of them, and has their length.
pub proof fn law_staging_buffers_are_planned(
    pool: &mut StagingPool,
    key: u64,
    contents: Option<u64>,
    for_write: bool,
    r: Staging,
)
    requires
        call_ensures(StagingPool::acquire_staging_entry, (pool, key, contents, for_write), r),
    ensures
        ({
            let before = old(pool).bucket(key);
            let some = exists|k: int| 0 <= k < before.len() && usable(#[trigger] before[k], for_write);
            &&& r is Reused <==> some
            &&& r is Reused ==> r->Reused_0.in_use && final(pool).bucket(key).len()
                == before.len() - 1
            &&& r is Create ==> final(pool).bucket(key) == before
            &&& r is Create ==> {
                let plan = r->Create_0;
                let made = contents is Some && !for_write;
                &&& plan.usage.copy_src == (for_write || made)
                &&& plan.usage.copy_dst == !made
                &&& plan.usage.map_read == !for_write
                &&& !plan.usage.storage
                &&& plan.size == if made {
                    contents->0
                } else {
                    key
                }
                &&& plan.created_mapped == made
                &&& plan.initial is Nothing <==> contents is None
                &&& plan.initial is AtCreation <==> made
            }
        }),
{
    let before = old(pool).bucket(key);
    if exists|k: int| 0 <= k < before.len() && usable(#[trigger] before[k], for_write) {
        let k = choose|k: int| 0 <= k < before.len() && usable(#[trigger] before[k], for_write);
        let place = lemma_least(before, for_write, k);
        lemma_first(before, for_write, 0, place);
    } else {
        lemma_none(before, for_write, 0);
    }
}

proof fn lemma_least(s: Seq<StagingEntry>, for_write: bool, k: int) -> (place: int)
    requires
        0 <= k < s.len(),
        usable(s[k], for_write),
    ensures
        0 <= place <= k,
        usable(s[place], for_write),
        forall|j: int| 0 <= j < place ==> !usable(#[trigger] s[j], for_write),
    decreases k,
{
    if exists|j: int| 0 <= j < k && usable(#[trigger] s[j], for_write) {
        let j = choose|j: int| 0 <= j < k && usable(#[trigger] s[j], for_write);
        lemma_least(s, for_write, j)
    } else {
        k
    }
}

/// Taking and bringing back buffers of one size leaves those of every other as
/// they are.
pub proof fn law_sizes_are_kept_apart(
    pool: &mut StagingPool,
    key: u64,
    for_write: bool,
    entry: StagingEntry,
    taken: Option<StagingEntry>,
    dropped: Vec<StagingEntry>,
    other: u64,
    back: bool,
)
    requires
        other != key,
        if back {
            call_ensures(StagingPool::release, (pool, key, entry), dropped)
        } else {
            call_ensures(StagingPool::acquire, (pool, key, for_write), taken)
        },
    ensures
        final(pool).bucket(other) == old(pool).bucket(other),
{
}

// ---------------------------------------------------------------------------
// The planner's buffers
// ---------------------------------------------------------------------------
/// All zeros, and as long as it was or as it is asked to be, whichever is more.
pub open spec fn is_zeros<T>(s: Seq<T>, before: nat, len: int, zero: T) -> bool {
    &&& s.len() == if before < len {
        len
    } else {
        before as int
    }
    &&& forall|i: int| 0 <= i < s.len() ==> #[trigger] s[i] == zero
}

/// Before planning the buffers are long enough and hold zeros; one of them is
/// one longer, and one has an entry for each block of eight.
pub proof fn law_buffers_are_made_ready<P: Precision>(s: &mut Scratch<P>, len: usize, r: ())
    requires
        call_ensures(Scratch::<P>::ensure_len, (s, len), r),
    ensures
        is_zeros(
            final(s).pref_compute@,
            old(s).pref_compute@.len(),
            len as int,
            P::Wide::spec_zero(),
        ),
        is_zeros(final(s).pref_transfer@, old(s).pref_transfer@.len(), len as int, 0usize),
        is_zeros(final(s).a@, old(s).a@.len(), len as int, P::Narrow::spec_zero()),
        is_zeros(final(s).prev@, old(s).prev@.len(), len as int, P::Narrow::spec_zero()),
        is_zeros(final(s).cur@, old(s).cur@.len(), len as int, P::Narrow::spec_zero()),
        is_zeros(final(s).best_from@, old(s).best_from@.len(), len + 1, P::Narrow::spec_zero()),
        is_zeros(
            final(s).dp_lminus1@,
            old(s).dp_lminus1@.len(),
            len as int,
            P::Narrow::spec_zero(),
        ),
        is_zeros(final(s).val@, old(s).val@.len(), len as int, P::Narrow::spec_zero()),
        is_zeros(
            final(s).block_max@,
            old(s).block_max@.len(),
            len as int / 8 + 3,
            P::Narrow::spec_zero(),
        ),
{
}

/// The counts begin at zero.
pub proof fn law_counts_begin_at_zero(r: Instrumentation)
    requires
        call_ensures(Instrumentation::new, (), r),
    ensures
        r.total_calls == 0,
        r.greedy_calls == 0,
        r.dp_calls == 0,
        r.dp_window_hist@.len() == 0,
        r.dp_time_ns@.len() == 0,
        r.dp_cycles@.len() == 0,
{
    assert(r.lists()[0] == r.dp_time_ns@);
    assert(r.lists()[6] == r.dp_cycles@);
}

/// A list of sums of which the one at a place has grown by so much, if the
/// list has that place.
pub open spec fn gained(before: Seq<u128>, after: Seq<u128>, place: int, x: u128) -> bool {
    &&& after.len() == before.len()
    &&& place < before.len() ==> after[place] == before[place] + x
    &&& forall|i: int| 0 <= i < before.len() && i != place ==> #[trigger] after[i] == before[i]
}

/// What was measured of a search is added at the length of its window to the
/// sums that it is measured for; nothing else changes.
pub proof fn law_measurements_add_up(
    s: &mut Instrumentation,
    window: usize,
    sample: &Sample,
    r: (),
)
    requires
        forall|i: int|
            0 <= i < 12 && window < (#[trigger] old(s).lists()[i]).len() ==> old(
                s,
            ).lists()[i][window as int] + sample.parts()[i] <= u128::MAX,
        call_ensures(Instrumentation::record, (s, window, sample), r),
    ensures
        gained(old(s).dp_time_ns@, final(s).dp_time_ns@, window as int, sample.time_ns),
        gained(
            old(s).dp_time_select_ns@,
            final(s).dp_time_select_ns@,
            window as int,
            sample.time_select_ns,
        ),
        gained(old(s).dp_cycles@, final(s).dp_cycles@, window as int, sample.cycles),
        gained(old(s).dp_cycles_a@, final(s).dp_cycles_a@, window as int, sample.cycles_a),
        gained(
            old(s).dp_cycles_best_from@,
            final(s).dp_cycles_best_from@,
            window as int,
            sample.cycles_best_from,
        ),
        gained(old(s).dp_cycles_cur@, final(s).dp_cycles_cur@, window as int, sample.cycles_cur),
        gained(
            old(s).dp_cycles_rotate@,
            final(s).dp_cycles_rotate@,
            window as int,
            sample.cycles_rotate,
        ),
        gained(
            old(s).dp_cycles_select@,
            final(s).dp_cycles_select@,
            window as int,
            sample.cycles_select,
        ),
        final(s).dp_time_a_ns@ == old(s).dp_time_a_ns@,
        final(s).dp_time_best_from_ns@ == old(s).dp_time_best_from_ns@,
        final(s).dp_time_cur_ns@ == old(s).dp_time_cur_ns@,
        final(s).dp_time_rotate_ns@ == old(s).dp_time_rotate_ns@,
        final(s).total_calls == old(s).total_calls,
        final(s).greedy_calls == old(s).greedy_calls,
        final(s).dp_calls == old(s).dp_calls,
        final(s).dp_window_hist@ == old(s).dp_window_hist@,
{
    let before = old(s).lists();
    let after = final(s).lists();
    assert forall|i: int| 0 <= i < 12 implies gained(
        #[trigger] before[i],
        after[i],
        window as int,
        sample.parts()[i],
    ) by {
        assert(after[i] == crate::scratch::bumped(before[i], window as int, sample.parts()[i]));
    }
    assert(gained(before[0], after[0], window as int, sample.parts()[0]));
    assert(gained(before[1], after[1], window as int, 0));
    assert(after[1] =~= before[1]);
    assert(gained(before[2], after[2], window as int, 0));
    assert(after[2] =~= before[2]);
    assert(gained(before[3], after[3], window as int, 0));
    assert(after[3] =~= before[3]);
    assert(gained(before[4], after[4], window as int, 0));
    assert(after[4] =~= before[4]);
    assert(gained(before[5], after[5], window as int, sample.parts()[5]));
    assert(gained(before[6], after[6], window as int, sample.parts()[6]));
    assert(gained(before[7], after[7], window as int, sample.parts()[7]));
    assert(gained(before[8], after[8], window as int, sample.parts()[8]));
    assert(gained(before[9], after[9], window as int, sample.parts()[9]));
    assert(gained(before[10], after[10], window as int, sample.parts()[10]));
    assert(gained(before[11], after[11], window as int, sample.parts()[11]));
}

/// A list that was made longer: the same entries, and zeros after them.
pub open spec fn zeros_follow(before: Seq<u128>, after: Seq<u128>, len: int) -> bool {
    &&& after.len() == if before.len() < len {
        len
    } else {
        before.len() as int
    }
    &&& forall|i: int| 0 <= i < before.len() ==> #[trigger] after[i] == before[i]
    &&& forall|i: int| before.len() <= i < after.len() ==> #[trigger] after[i] == 0
}

/// Making room for longer windows keeps the counts, and adds zeros.
pub proof fn law_counts_are_kept(s: &mut Instrumentation, len: usize, r: ())
    requires
        call_ensures(Instrumentation::ensure_len, (s, len), r),
    ensures
        final(s).total_calls == old(s).total_calls,
        final(s).greedy_calls == old(s).greedy_calls,
        final(s).dp_calls == old(s).dp_calls,
        final(s).dp_window_hist@.len() >= len,
        forall|i: int|
            0 <= i < old(s).dp_window_hist@.len() ==> #[trigger] final(s).dp_window_hist@[i]
                == old(s).dp_window_hist@[i],
        zeros_follow(old(s).dp_time_ns@, final(s).dp_time_ns@, len as int),
        zeros_follow(old(s).dp_time_select_ns@, final(s).dp_time_select_ns@, len as int),
        zeros_follow(old(s).dp_cycles@, final(s).dp_cycles@, len as int),
        zeros_follow(old(s).dp_cycles_select@, final(s).dp_cycles_select@, len as int),
{
    let before = old(s).lists();
    let after = final(s).lists();
    assert(after[0] == crate::scratch::grown(before[0], len as int, 0u128));
    assert(after[5] == crate::scratch::grown(before[5], len as int, 0u128));
    assert(after[6] == crate::scratch::grown(before[6], len as int, 0u128));
    assert(after[11] == crate::scratch::grown(before[11], len as int, 0u128));
}

/// An identifier becomes a file name of as many characters: ASCII letters and
/// digits, underscores and dashes stay, and every other character becomes an
/// underscore.
pub proof fn law_names_are_made_plain(id: &str, r: String, i: int)
    requires
        call_ensures(plain_text, (id,), r),
        0 <= i < id@.len(),
    ensures
        r@.len() == id@.len(),
        ({
            let c = id@[i];
            let code = c as int;
            let stays = 97 <= code <= 122 || 65 <= code <= 90 || 48 <= code <= 57 || code == 95
                || code == 45;
            r@[i] == if stays {
                c
            } else {
                '_'
            }
        }),
{
}

/// The counts are written to a file of their own, and those of a run with a
/// name to one with that name in it.
pub proof fn law_counts_have_their_files(id: &str, name: String, named: String, unnamed: String)
    requires
        call_ensures(plain_text, (id,), name),
        call_ensures(instrumentation_file, (Some(id),), named),
        call_ensures(instrumentation_file, (None::<&str>,), unnamed),
    ensures
        named@ == "partitioner_instrumentation_"@ + name@ + ".json"@,
        unnamed@ == "partitioner_instrumentation.json"@,
{
}

// ---------------------------------------------------------------------------
// The copy kernel
// ---------------------------------------------------------------------------
/// A shape without axes has one element, and one axis more multiplies the
/// number by its length.
pub proof fn law_axes_multiply(dims: &[usize], longer: &[usize], d: usize, r: usize, s: usize)
    requires
        products_fit(dims@),
        products_fit(longer@),
        longer@ == dims@.push(d),
        call_ensures(num_elements, (dims,), r),
        call_ensures(num_elements, (longer,), s),
    ensures
        dims@.len() == 0 ==> r == 1,
        s == r * d,
{
    assert(dims@.push(d).drop_last() =~= dims@);
}

/// The lengths of the axes as a shader has them are those that 32 bits hold:
/// the same where they fit, and else less by a multiple of what does not.
pub proof fn law_shaders_see_the_lower_bits(dims: &[usize], r: Vec<u32>, i: int) -> (rounds: int)
    requires
        call_ensures(canonical_layout_dims, (dims,), r),
        0 <= i < dims@.len(),
    ensures
        r@.len() == dims@.len(),
        dims@[i] < 0x1_0000_0000 ==> r@[i] == dims@[i],
        dims@[i] == rounds * 0x1_0000_0000 + r@[i],
{
    dims@[i] as int / 0x1_0000_0000
}

/// Copying a buffer of the same length makes it equal, element by element.
pub proof fn law_buffers_are_copied(src: &[F32], dst: &mut Vec<F32>, r: (), i: int)
    requires
        src@.len() == old(dst)@.len(),
        call_ensures(copy_flat, (src, dst), r),
        0 <= i < src@.len(),
    ensures
        final(dst)@.len() == src@.len(),
        final(dst)@[i] == src@[i],
{
}

/// An invocation of the kernel copies the element with its number where both
/// buffers have it, and touches no other.
pub proof fn law_invocations_copy_one_element(
    idx: u32,
    src: &[F32],
    dst: &mut Vec<F32>,
    r: (),
    i: int,
)
    requires
        call_ensures(copy_kernel, (idx, src, dst), r),
        0 <= i < old(dst)@.len(),
    ensures
        final(dst)@.len() == old(dst)@.len(),
        final(dst)@[i] == if i == idx && i < src@.len() {
            src@[i]
        } else {
            old(dst)@[i]
        },
{
}

/// There are just enough workgroups of 64 invocations.
pub proof fn law_workgroups_cover(elements: u32, r: u32)
    requires
        call_ensures(workgroups, (elements,), r),
    ensures
        elements <= 64 * r,
        64 * r < elements + 64,
{
}

} // verus!
