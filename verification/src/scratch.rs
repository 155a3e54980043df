//! The planner's reusable buffers and its counters.

use crate::arithmetic::{Precision, Real};
use crate::text::join3;
use vstd::prelude::*;

verus! {

/// A moment in the search for a segment, told to a [`Probe`].
#[derive(Clone, Copy, Debug, PartialEq, Eq, Structural)]
pub enum Mark {
    /// The table is about to be built.
    Begin,
    /// The scores of the prefixes are known.
    Scored,
    /// A row of the table is about to be computed.
    RowBegin,
    /// The values that the row maximises over are known.
    RowForward,
    /// The row is known.
    RowDone,
    /// The row has become the previous one.
    RowRotated,
    /// The table is complete.
    TableDone,
    /// The segment is chosen.
    Selected,
}

/// An observer of the search, for timing. It has no part in what is planned.
pub trait Probe {
    /// Called at each moment, with the length of the window.
    fn mark(&mut self, window_len: usize, mark: Mark);
}

/// The probe that observes nothing.
pub struct Silent;

impl Probe for Silent {
    fn mark(&mut self, window_len: usize, mark: Mark) {
    }
}

/// What a probe measured of one search: nanoseconds and processor cycles.
#[derive(Clone, Copy, Debug, PartialEq, Eq, Structural)]
pub struct Sample {
    pub time_ns: u128,
    pub time_select_ns: u128,
    pub cycles: u128,
    pub cycles_a: u128,
    pub cycles_best_from: u128,
    pub cycles_cur: u128,
    pub cycles_rotate: u128,
    pub cycles_select: u128,
}

/// Counts of what the planner did. The lists are indexed by window length.
pub struct Instrumentation {
    pub total_calls: u64,
    pub greedy_calls: u64,
    pub dp_calls: u64,
    pub dp_window_hist: Vec<u64>,
    pub dp_time_ns: Vec<u128>,
    pub dp_time_a_ns: Vec<u128>,
    pub dp_time_best_from_ns: Vec<u128>,
    pub dp_time_cur_ns: Vec<u128>,
    pub dp_time_rotate_ns: Vec<u128>,
    pub dp_time_select_ns: Vec<u128>,
    pub dp_cycles: Vec<u128>,
    pub dp_cycles_a: Vec<u128>,
    pub dp_cycles_best_from: Vec<u128>,
    pub dp_cycles_cur: Vec<u128>,
    pub dp_cycles_rotate: Vec<u128>,
    pub dp_cycles_select: Vec<u128>,
}

/// How many positions of a long window are looked at together.
pub const BLOCK: usize = 8;

/// The planner's buffers, kept from one call to the next so that planning
/// does not allocate afresh.
pub struct Scratch<P: Precision> {
    pub pref_compute: Vec<P::Wide>,
    pub pref_transfer: Vec<usize>,
    pub a: Vec<P::Narrow>,
    pub prev: Vec<P::Narrow>,
    pub cur: Vec<P::Narrow>,
    pub best_from: Vec<P::Narrow>,
    pub dp_lminus1: Vec<P::Narrow>,
    pub val: Vec<P::Narrow>,
    pub block_max: Vec<P::Narrow>,
    pub instr: Instrumentation,
}

/// `s`, extended by `fill` to a length of at least `len`.
pub open spec fn grown<T>(s: Seq<T>, len: int, fill: T) -> Seq<T> {
    if s.len() < len {
        s + Seq::new((len - s.len()) as nat, |i: int| fill)
    } else {
        s
    }
}

/// Extends `v` by `fill` to a length of at least `len`.
fn grow<T: Copy>(v: &mut Vec<T>, len: usize, fill: T)
    ensures
        final(v)@ == grown(old(v)@, len as int, fill),
{
    let ghost start = v@;
    while v.len() < len
        invariant
            v@ == grown(start, v@.len() as int, fill),
            start.len() <= v@.len(),
            v@.len() <= len || v@ == start,
        decreases len - v@.len(),
    {
        v.push(fill);
        assert(v@ =~= grown(start, v@.len() as int, fill));
    }
    assert(v@ =~= grown(start, len as int, fill));
}

/// As many zeros as `s` has entries, and `len` at least.
pub open spec fn zeroed<T>(s: Seq<T>, len: int, zero: T) -> Seq<T> {
    Seq::new(
        if s.len() < len {
            len as nat
        } else {
            s.len()
        },
        |i: int| zero,
    )
}

/// Sets all of `v` to `zero`, at a length of at least `len`.
fn clear<T: Copy>(v: &mut Vec<T>, len: usize, zero: T)
    ensures
        final(v)@ == zeroed(old(v)@, len as int, zero),
{
    let ghost start = v@;
    let mut i: usize = 0;
    while i < v.len()
        invariant
            i <= v@.len(),
            v@.len() == start.len(),
            forall|j: int| 0 <= j < i ==> #[trigger] v@[j] == zero,
        decreases v@.len() - i,
    {
        v.set(i, zero);
        i = i + 1;
    }
    grow(v, len, zero);
    assert(v@ =~= zeroed(start, len as int, zero));
}

impl Instrumentation {
    /// All counts at zero, all lists empty.
    pub open spec fn is_new(&self) -> bool {
        &&& self.total_calls == 0
        &&& self.greedy_calls == 0
        &&& self.dp_calls == 0
        &&& self.dp_window_hist@ == Seq::<u64>::empty()
        &&& forall|i: int| 0 <= i < 12 ==> #[trigger] self.lists()[i] == Seq::<u128>::empty()
    }

    /// The lists of times and cycles.
    pub open spec fn lists(&self) -> Seq<Seq<u128>> {
        seq![
            self.dp_time_ns@,
            self.dp_time_a_ns@,
            self.dp_time_best_from_ns@,
            self.dp_time_cur_ns@,
            self.dp_time_rotate_ns@,
            self.dp_time_select_ns@,
            self.dp_cycles@,
            self.dp_cycles_a@,
            self.dp_cycles_best_from@,
            self.dp_cycles_cur@,
            self.dp_cycles_rotate@,
            self.dp_cycles_select@,
        ]
    }

    /// The same counts, with lists extended by zeros to `len`.
    pub open spec fn extended(&self, after: &Self, len: int) -> bool {
        &&& after.total_calls == self.total_calls
        &&& after.greedy_calls == self.greedy_calls
        &&& after.dp_calls == self.dp_calls
        &&& after.dp_window_hist@ == grown(self.dp_window_hist@, len, 0u64)
        &&& forall|i: int|
            0 <= i < 12 ==> #[trigger] after.lists()[i] == grown(self.lists()[i], len, 0u128)
    }

    /// Everything at zero.
    pub fn new() -> (r: Self)
        ensures
            r.is_new(),
    {
        Instrumentation {
            total_calls: 0,
            greedy_calls: 0,
            dp_calls: 0,
            dp_window_hist: Vec::new(),
            dp_time_ns: Vec::new(),
            dp_time_a_ns: Vec::new(),
            dp_time_best_from_ns: Vec::new(),
            dp_time_cur_ns: Vec::new(),
            dp_time_rotate_ns: Vec::new(),
            dp_time_select_ns: Vec::new(),
            dp_cycles: Vec::new(),
            dp_cycles_a: Vec::new(),
            dp_cycles_best_from: Vec::new(),
            dp_cycles_cur: Vec::new(),
            dp_cycles_rotate: Vec::new(),
            dp_cycles_select: Vec::new(),
        }
    }

    /// Makes every list at least `len` long.
    pub fn ensure_len(&mut self, len: usize)
        ensures
            old(self).extended(final(self), len as int),
    {
        grow(&mut self.dp_window_hist, len, 0u64);
        grow(&mut self.dp_time_ns, len, 0u128);
        grow(&mut self.dp_time_a_ns, len, 0u128);
        grow(&mut self.dp_time_best_from_ns, len, 0u128);
        grow(&mut self.dp_time_cur_ns, len, 0u128);
        grow(&mut self.dp_time_rotate_ns, len, 0u128);
        grow(&mut self.dp_time_select_ns, len, 0u128);
        grow(&mut self.dp_cycles, len, 0u128);
        grow(&mut self.dp_cycles_a, len, 0u128);
        grow(&mut self.dp_cycles_best_from, len, 0u128);
        grow(&mut self.dp_cycles_cur, len, 0u128);
        grow(&mut self.dp_cycles_rotate, len, 0u128);
        grow(&mut self.dp_cycles_select, len, 0u128);
    }
}

/// `s` with `x` added at position `i`, where it has that position.
pub open spec fn bumped(s: Seq<u128>, i: int, x: u128) -> Seq<u128> {
    if 0 <= i < s.len() {
        s.update(i, (s[i] + x) as u128)
    } else {
        s
    }
}

/// Whether `x` can be added at position `i`.
pub open spec fn has_room(s: Seq<u128>, i: int, x: u128) -> bool {
    0 <= i < s.len() ==> s[i] + x <= u128::MAX
}

fn bump(v: &mut Vec<u128>, i: usize, x: u128)
    requires
        has_room(old(v)@, i as int, x),
    ensures
        final(v)@ == bumped(old(v)@, i as int, x),
{
    if i < v.len() {
        let y: u128 = v[i] + x;
        v.set(i, y);
    }
}

impl Sample {
    /// The measurements in the order of the lists that they are added to; the
    /// lists that nothing is measured for get zero.
    pub open spec fn parts(&self) -> Seq<u128> {
        seq![
            self.time_ns,
            0u128,
            0u128,
            0u128,
            0u128,
            self.time_select_ns,
            self.cycles,
            self.cycles_a,
            self.cycles_best_from,
            self.cycles_cur,
            self.cycles_rotate,
            self.cycles_select,
        ]
    }
}

impl Instrumentation {
    /// Adds what was measured of one search over a window of `window_len`.
    pub fn record(&mut self, window_len: usize, sample: &Sample)
        requires
            forall|i: int|
                0 <= i < 12 ==> has_room(
                    #[trigger] old(self).lists()[i],
                    window_len as int,
                    sample.parts()[i],
                ),
        ensures
            forall|i: int|
                0 <= i < 12 ==> #[trigger] final(self).lists()[i] == bumped(
                    old(self).lists()[i],
                    window_len as int,
                    sample.parts()[i],
                ),
            final(self).total_calls == old(self).total_calls,
            final(self).greedy_calls == old(self).greedy_calls,
            final(self).dp_calls == old(self).dp_calls,
            final(self).dp_window_hist == old(self).dp_window_hist,
    {
        let ghost l = old(self).lists();
        assert(has_room(l[0], window_len as int, sample.parts()[0]));
        assert(has_room(l[5], window_len as int, sample.parts()[5]));
        assert(has_room(l[6], window_len as int, sample.parts()[6]));
        assert(has_room(l[7], window_len as int, sample.parts()[7]));
        assert(has_room(l[8], window_len as int, sample.parts()[8]));
        assert(has_room(l[9], window_len as int, sample.parts()[9]));
        assert(has_room(l[10], window_len as int, sample.parts()[10]));
        assert(has_room(l[11], window_len as int, sample.parts()[11]));
        bump(&mut self.dp_time_ns, window_len, sample.time_ns);
        bump(&mut self.dp_time_select_ns, window_len, sample.time_select_ns);
        bump(&mut self.dp_cycles, window_len, sample.cycles);
        bump(&mut self.dp_cycles_a, window_len, sample.cycles_a);
        bump(&mut self.dp_cycles_best_from, window_len, sample.cycles_best_from);
        bump(&mut self.dp_cycles_cur, window_len, sample.cycles_cur);
        bump(&mut self.dp_cycles_rotate, window_len, sample.cycles_rotate);
        bump(&mut self.dp_cycles_select, window_len, sample.cycles_select);
        assert forall|i: int| 0 <= i < 12 implies #[trigger] self.lists()[i] == bumped(
            l[i],
            window_len as int,
            sample.parts()[i],
        ) by {
            if 1 <= i <= 4 {
                assert(bumped(l[i], window_len as int, 0u128) =~= l[i]);
            }
        }
    }
}

impl<P: Precision> Scratch<P> {
    /// Empty buffers and zero counts.
    pub fn new() -> (r: Self)
        ensures
            r.pref_compute@.len() == 0,
            r.pref_transfer@.len() == 0,
            r.a@.len() == 0,
            r.prev@.len() == 0,
            r.cur@.len() == 0,
            r.best_from@.len() == 0,
            r.dp_lminus1@.len() == 0,
            r.val@.len() == 0,
            r.block_max@.len() == 0,
            r.instr.is_new(),
    {
        Scratch {
            pref_compute: Vec::new(),
            pref_transfer: Vec::new(),
            a: Vec::new(),
            prev: Vec::new(),
            cur: Vec::new(),
            best_from: Vec::new(),
            dp_lminus1: Vec::new(),
            val: Vec::new(),
            block_max: Vec::new(),
            instr: Instrumentation::new(),
        }
    }

    /// Makes every buffer at least `len` long (`best_from` one longer, and
    /// `block_max` as long as the blocks of these need) and sets all of it to
    /// zero. The counts stay; where there were none, they are zero.
    pub fn ensure_len(&mut self, len: usize)
        requires
            len + BLOCK <= usize::MAX,
        ensures
            final(self).pref_compute@ == zeroed(
                old(self).pref_compute@,
                len as int,
                P::Wide::spec_zero(),
            ),
            final(self).pref_transfer@ == zeroed(old(self).pref_transfer@, len as int, 0usize),
            final(self).a@ == zeroed(old(self).a@, len as int, P::Narrow::spec_zero()),
            final(self).prev@ == zeroed(old(self).prev@, len as int, P::Narrow::spec_zero()),
            final(self).cur@ == zeroed(old(self).cur@, len as int, P::Narrow::spec_zero()),
            final(self).best_from@ == zeroed(
                old(self).best_from@,
                len + 1,
                P::Narrow::spec_zero(),
            ),
            final(self).dp_lminus1@ == zeroed(
                old(self).dp_lminus1@,
                len as int,
                P::Narrow::spec_zero(),
            ),
            final(self).val@ == zeroed(old(self).val@, len as int, P::Narrow::spec_zero()),
            final(self).block_max@ == zeroed(
                old(self).block_max@,
                (len + BLOCK) / BLOCK as int + 2,
                P::Narrow::spec_zero(),
            ),
            old(self).instr.extended(&final(self).instr, len as int),
    {
        clear(&mut self.pref_compute, len, P::Wide::zero());
        clear(&mut self.pref_transfer, len, 0usize);
        clear(&mut self.a, len, P::Narrow::zero());
        clear(&mut self.prev, len, P::Narrow::zero());
        clear(&mut self.cur, len, P::Narrow::zero());
        clear(&mut self.best_from, len + 1, P::Narrow::zero());
        clear(&mut self.dp_lminus1, len, P::Narrow::zero());
        clear(&mut self.val, len, P::Narrow::zero());
        clear(&mut self.block_max, (len + BLOCK) / BLOCK + 2, P::Narrow::zero());
        self.instr.ensure_len(len);
    }
}

// ---------------------------------------------------------------------------
// The files that counts are written to
// ---------------------------------------------------------------------------
/// Whether a character can stand in a file name as it is: an ASCII letter or
/// digit, an underscore or a dash.
pub open spec fn is_plain(c: char) -> bool {
    ('a' <= c <= 'z') || ('A' <= c <= 'Z') || ('0' <= c <= '9') || c == '_' || c == '-'
}

/// A text with an underscore for every character that cannot stand in a file
/// name.
pub open spec fn plain(id: Seq<char>) -> Seq<char> {
    Seq::new(
        id.len(),
        |i: int|
            if is_plain(id[i]) {
                id[i]
            } else {
                '_'
            },
    )
}

/// A text with an underscore for every character that cannot stand in a file
/// name.
pub fn plain_text(id: &str) -> (r: String)
    ensures
        r@ == plain(id@),
{
    let n: usize = id.unicode_len();
    let mut out = String::new();
    let mut i: usize = 0;
    assert(out@ =~= plain(id@).take(0));
    while i < n
        invariant
            i <= n,
            n == id@.len(),
            out@ == plain(id@).take(i as int),
        decreases n - i,
    {
        let c = id.get_char(i);
        let keep = ('a' <= c && c <= 'z') || ('A' <= c && c <= 'Z') || ('0' <= c && c <= '9') || c
            == '_' || c == '-';
        out.push(if keep { c } else { '_' });
        i = i + 1;
        assert(out@ =~= plain(id@).take(i as int));
    }
    assert(plain(id@).take(i as int) =~= plain(id@));
    out
}

/// The name of the file for the counts, or for those of a run with a name.
pub open spec fn file_name(id: Option<Seq<char>>) -> Seq<char> {
    match id {
        None => "partitioner_instrumentation.json"@,
        Some(id) => "partitioner_instrumentation_"@ + plain(id) + ".json"@,
    }
}

/// The name of the file for the counts, or for those of a run with a name.
pub fn instrumentation_file(id: Option<&str>) -> (r: String)
    ensures
        r@ == file_name(
            match id {
                Some(t) => Some(t@),
                None => None,
            },
        ),
{
    match id {
        None => "partitioner_instrumentation.json".to_owned(),
        Some(id) => join3("partitioner_instrumentation_", plain_text(id).as_str(), ".json"),
    }
}

/// The name of a file for counts has no separator of directories in it,
/// whatever the run is called.
pub proof fn law_file_names_stay_in_their_directory(id: Seq<char>, i: int)
    requires
        0 <= i < file_name(Some(id)).len(),
    ensures
        file_name(Some(id))[i] != '/',
        file_name(Some(id))[i] != '\\',
{
    reveal_strlit("partitioner_instrumentation_");
    reveal_strlit(".json");
}

} // verus!
