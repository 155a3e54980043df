//! Counting what happens.

use crate::strmap::StrMap;
use vstd::pervasive::arbitrary;
use vstd::prelude::*;

verus! {

/// Adds up times by event. The totals change through `record_event` alone;
/// where a profiler is shared, it is kept among the [`Profilers`].
pub trait Profiler: Send {
    /// The totals by event.
    closed spec fn totals(&self) -> Map<Seq<char>, u64> {
        arbitrary()
    }

    /// Adds the time of an event.
    fn record_event(&mut self, name: &str, micros: u64)
        requires
            total_of(old(self).totals(), name@) + micros <= u64::MAX,
        ensures
            final(self).totals() == recorded(old(self).totals(), name@, micros),
    ;

    /// The totals so far.
    fn snapshot(&self) -> (r: ProfilerSnapshot)
        ensures
            r.events@ == self.totals(),
    ;
}

/// The total of an event; zero for one that did not happen.
pub open spec fn total_of(totals: Map<Seq<char>, u64>, name: Seq<char>) -> int {
    if totals.dom().contains(name) {
        totals[name] as int
    } else {
        0
    }
}

/// The totals after an event.
pub open spec fn recorded(totals: Map<Seq<char>, u64>, name: Seq<char>, micros: u64) -> Map<
    Seq<char>,
    u64,
> {
    totals.insert(name, (total_of(totals, name) + micros) as u64)
}

/// Totals by event.
pub struct ProfilerSnapshot {
    pub events: StrMap<u64>,
}

/// Totals in memory.
pub struct InMemoryProfiler(StrMap<u64>);

impl InMemoryProfiler {
    /// The totals by event.
    pub closed spec fn table(&self) -> Map<Seq<char>, u64> {
        self.0@
    }

    /// Nothing recorded.
    pub fn new() -> (r: Self)
        ensures
            r.table() == Map::<Seq<char>, u64>::empty(),
    {
        InMemoryProfiler(StrMap::new())
    }
}

impl Profiler for InMemoryProfiler {
    open spec fn totals(&self) -> Map<Seq<char>, u64> {
        self.table()
    }

    fn record_event(&mut self, name: &str, micros: u64) {
        let before: u64 = match self.0.get(name) {
            Some(total) => *total,
            None => 0,
        };
        self.0.insert(name, before + micros);
    }

    fn snapshot(&self) -> (r: ProfilerSnapshot) {
        ProfilerSnapshot { events: self.0.copied() }
    }
}

// ---------------------------------------------------------------------------
// Shared profilers
// ---------------------------------------------------------------------------
/// A thing in a list.
struct Held<T> {
    inner: T,
}

/// The profilers that are shared.
pub struct Profilers {
    list: Vec<Held<Box<dyn Profiler>>>,
}

/// The totals of the profiler at a place.
spec fn totals_at(list: Seq<Held<Box<dyn Profiler>>>, i: int) -> Map<Seq<char>, u64> {
    list[i].inner.totals()
}

impl View for Profilers {
    type V = Seq<Map<Seq<char>, u64>>;

    closed spec fn view(&self) -> Seq<Map<Seq<char>, u64>> {
        Seq::new(self.list@.len(), |i: int| totals_at(self.list@, i))
    }
}

impl Profilers {
    /// No profilers.
    pub fn new() -> (r: Self)
        ensures
            r@ == Seq::<Map<Seq<char>, u64>>::empty(),
    {
        let r = Profilers { list: Vec::new() };
        assert(r@ =~= Seq::<Map<Seq<char>, u64>>::empty());
        r
    }

    fn hold(&mut self, held: Held<Box<dyn Profiler>>) -> (r: SharedProfiler)
        ensures
            r@ == old(self)@.len(),
            final(self)@ == old(self)@.push(held.inner.totals()),
    {
        let number: usize = self.list.len();
        self.list.push(held);
        proof {
            let before = old(self).list@;
            let after = self.list@;
            assert(after[before.len() as int] == held);
            assert forall|i: int| 0 <= i < before.len() implies totals_at(after, i) == totals_at(
                before,
                i,
            ) by {
                assert(after[i] == before[i]);
            }
            assert(self@ =~= old(self)@.push(held.inner.totals()));
        }
        SharedProfiler { number }
    }

    /// Shares a profiler.
    pub fn share(&mut self, p: Box<dyn Profiler>) -> (r: SharedProfiler)
        ensures
            r@ == old(self)@.len(),
            final(self)@ == old(self)@.push(p.totals()),
    {
        let held = Held { inner: p };
        assert(held.inner == p);
        self.hold(held)
    }
}

/// A profiler that is shared. Its copies are one profiler, which is kept among
/// the [`Profilers`].
#[derive(Clone, Copy, Debug, PartialEq, Eq, Structural)]
pub struct SharedProfiler {
    number: usize,
}

impl View for SharedProfiler {
    type V = nat;

    closed spec fn view(&self) -> nat {
        self.number as nat
    }
}

impl SharedProfiler {
    /// Adds the time of an event.
    pub fn record_event(&self, profilers: &mut Profilers, name: &str, micros: u64)
        requires
            self@ < old(profilers)@.len(),
            total_of(old(profilers)@[self@ as int], name@) + micros <= u64::MAX,
        ensures
            final(profilers)@ == recorded_at(old(profilers)@, self@, name@, micros),
    {
        let ghost before = profilers.list@;
        let ghost at = self.number as int;
        assert(profilers@[at] == totals_at(before, at));
        profilers.list[self.number].inner.record_event(name, micros);
        proof {
            let after = profilers.list@;
            assert(totals_at(after, at) == recorded(totals_at(before, at), name@, micros));
            assert forall|i: int| 0 <= i < before.len() && i != at implies totals_at(after, i)
                == totals_at(before, i) by {
                assert(after[i] == before[i]);
            }
            assert(profilers@ =~= recorded_at(old(profilers)@, self@, name@, micros));
        }
    }

    /// The totals so far.
    pub fn snapshot(&self, profilers: &Profilers) -> (r: ProfilerSnapshot)
        requires
            self@ < profilers@.len(),
        ensures
            r.events@ == profilers@[self@ as int],
    {
        assert(profilers@[self.number as int] == totals_at(profilers.list@, self.number as int));
        profilers.list[self.number].inner.snapshot()
    }
}

/// The totals of all shared profilers after an event that one of them heard.
pub open spec fn recorded_at(
    all: Seq<Map<Seq<char>, u64>>,
    number: nat,
    name: Seq<char>,
    micros: u64,
) -> Seq<Map<Seq<char>, u64>> {
    all.update(number as int, recorded(all[number as int], name, micros))
}

/// What became of lookups in a cache.
#[derive(Clone, Copy, Debug, PartialEq, Eq, Structural)]
pub struct CacheStats {
    pub hit: u64,
    pub miss: u64,
    pub evicted: u64,
}

/// What an execution carries along.
pub struct ExecutionContext {
    pub profiler: Option<SharedProfiler>,
    pub debug_mode: bool,
    pub artifact_provenance: StrMap<String>,
}

impl ExecutionContext {
    /// A context without a profiler.
    pub fn new() -> (r: Self)
        ensures
            r.profiler is None,
            !r.debug_mode,
            r.artifact_provenance@ == Map::<Seq<char>, String>::empty(),
    {
        ExecutionContext { profiler: None, debug_mode: false, artifact_provenance: StrMap::new() }
    }

    /// A context with a profiler, which the caller shares.
    pub fn with_profiler(p: SharedProfiler) -> (r: Self)
        ensures
            r.profiler == Some(p),
            !r.debug_mode,
            r.artifact_provenance@ == Map::<Seq<char>, String>::empty(),
    {
        ExecutionContext {
            profiler: Some(p),
            debug_mode: false,
            artifact_provenance: StrMap::new(),
        }
    }
}

// ---------------------------------------------------------------------------
// Laws
// ---------------------------------------------------------------------------
/// Two events of one name add up, in whatever order they come.
pub proof fn law_events_add_up(totals: Map<Seq<char>, u64>, name: Seq<char>, a: u64, b: u64)
    requires
        total_of(totals, name) + a + b <= u64::MAX,
    ensures
        total_of(recorded(recorded(totals, name, a), name, b), name) == total_of(totals, name) + a
            + b,
        recorded(recorded(totals, name, a), name, b) == recorded(
            recorded(totals, name, b),
            name,
            a,
        ),
{
    assert(recorded(recorded(totals, name, a), name, b) =~= recorded(
        recorded(totals, name, b),
        name,
        a,
    ));
}

/// What a copy of a shared profiler hears of, such as the one in a context,
/// shows in every copy, and in no other profiler.
pub proof fn law_copies_share_their_totals(
    all: Seq<Map<Seq<char>, u64>>,
    heard: nat,
    asked: nat,
    name: Seq<char>,
    micros: u64,
)
    requires
        heard < all.len(),
        asked < all.len(),
        total_of(all[heard as int], name) + micros <= u64::MAX,
    ensures
        asked == heard ==> total_of(recorded_at(all, heard, name, micros)[asked as int], name)
            == total_of(all[asked as int], name) + micros,
        asked != heard ==> recorded_at(all, heard, name, micros)[asked as int]
            == all[asked as int],
{
}

/// An event leaves the totals of all others as they are.
pub proof fn law_events_are_kept_apart(
    totals: Map<Seq<char>, u64>,
    name: Seq<char>,
    micros: u64,
    other: Seq<char>,
)
    requires
        other != name,
    ensures
        total_of(recorded(totals, name, micros), other) == total_of(totals, other),
{
}

} // verus!
