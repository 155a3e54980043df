//! Which adapter to use, and which device to hand out.
//!
//! The adapters are known by plain facts; a host enumerates them, and makes
//! devices of those that are chosen here.

use crate::text::{contains_text, index_of_text, parse_index, str_contains};
use vstd::prelude::*;

verus! {

// ---------------------------------------------------------------------------
// Scores
// ---------------------------------------------------------------------------
/// The kind of an adapter.
#[derive(Clone, Copy, Debug, PartialEq, Eq, Structural)]
pub enum AdapterKind {
    Discrete,
    Integrated,
    Virtual,
    Cpu,
    Other,
}

/// What is known of an adapter.
pub struct AdapterFacts {
    pub kind: AdapterKind,
    pub name: String,
    pub timestamp_query: bool,
    pub storage_binding_array: bool,
    pub push_constants: bool,
    pub max_storage_buffers: u32,
    pub min_storage_alignment: u32,
}

/// A text in lower case.
pub uninterp spec fn lowercase(text: Seq<char>) -> Seq<char>;

/// `str::to_lowercase`: which text it gives depends on the text it is given
/// alone.
#[verifier::external_body]
pub(crate) fn to_lower(text: &str) -> (r: String)
    ensures
        r@ == lowercase(text@),
{
    text.to_lowercase()
}

/// Whether a name, in lower case, is that of an adapter in software.
pub open spec fn is_software(name: Seq<char>) -> bool {
    contains_text(name, "swiftshader"@) || contains_text(name, "llvmpipe"@)
}

fn software(name: &str) -> (r: bool)
    ensures
        r == is_software(name@),
{
    str_contains(name, "swiftshader") || str_contains(name, "llvmpipe")
}

/// The smaller of the two.
pub open spec fn least(a: int, b: int) -> int {
    if a < b {
        a
    } else {
        b
    }
}

/// `a` less `b`, but not less than zero.
pub open spec fn less(a: int, b: int) -> int {
    if a < b {
        0
    } else {
        a - b
    }
}

/// `n` where `holds` does, else zero.
pub open spec fn bonus(holds: bool, n: int) -> int {
    if holds {
        n
    } else {
        0
    }
}

fn points(holds: bool, n: u32) -> (r: u32)
    ensures
        r == bonus(holds, n as int),
        r <= n,
{
    if holds {
        n
    } else {
        0
    }
}

fn less_points(a: u32, b: u32) -> (r: u32)
    ensures
        r == less(a as int, b as int),
        r <= a,
{
    if a < b {
        0
    } else {
        a - b
    }
}

/// How good an adapter is, from its facts, its name in lower case and what is
/// known of the whole system: the kind counts most, an adapter in software is
/// marked down, features and limits add.
pub open spec fn score(facts: AdapterFacts, name: Seq<char>, system: int) -> int {
    let kind = match facts.kind {
        AdapterKind::Discrete => 60int,
        AdapterKind::Integrated => 30,
        AdapterKind::Virtual => 10,
        _ => 5,
    };
    less(kind, bonus(is_software(name), 50)) + bonus(facts.timestamp_query, 5) + bonus(
        facts.storage_binding_array,
        20,
    ) + bonus(facts.push_constants, 5) + 2 * least(facts.max_storage_buffers as int, 16) + bonus(
        facts.min_storage_alignment >= 256,
        10,
    ) + bonus(contains_text(name, "nvidia"@), 10) + bonus(system > 0, least(system, 20))
}

/// How good an adapter is, from its kind and its name in lower case alone.
pub open spec fn quick_score(kind: AdapterKind, name: Seq<char>) -> int {
    let base = match kind {
        AdapterKind::Discrete => 50int,
        AdapterKind::Integrated => 25,
        _ => 5,
    };
    let vendor = if contains_text(name, "nvidia"@) {
        10int
    } else if contains_text(name, "amd"@) || contains_text(name, "radeon"@) {
        8
    } else {
        0
    };
    less(base + vendor, bonus(is_software(name), 40))
}

/// The score of an adapter whose name in lower case is `name`.
#[verifier::spinoff_prover]
pub fn score_named(facts: &AdapterFacts, name: &str, system: i32) -> (r: u32)
    ensures
        r == score(*facts, name@, system as int),
{
    let kind: u32 = match facts.kind {
        AdapterKind::Discrete => 60,
        AdapterKind::Integrated => 30,
        AdapterKind::Virtual => 10,
        _ => 5,
    };
    let buffers: u32 = if facts.max_storage_buffers < 16 {
        facts.max_storage_buffers
    } else {
        16
    };
    let extra: u32 = if system < 0 {
        0
    } else if system < 20 {
        system as u32
    } else {
        20
    };
    let soft = software(name);
    let nvidia = str_contains(name, "nvidia");
    let base: u32 = less_points(kind, points(soft, 50));
    let queries: u32 = points(facts.timestamp_query, 5);
    let arrays: u32 = points(facts.storage_binding_array, 20);
    let constants: u32 = points(facts.push_constants, 5);
    let alignment: u32 = points(facts.min_storage_alignment >= 256, 10);
    let vendor: u32 = points(nvidia, 10);
    assert(buffers == least(facts.max_storage_buffers as int, 16));
    assert(extra == bonus(system > 0, least(system as int, 20)));
    assert(base <= 60 && buffers <= 16 && extra <= 20);
    base + queries + arrays + constants + 2 * buffers + alignment + vendor + extra
}

/// How good an adapter is.
pub fn adapter_score(facts: &AdapterFacts, system: i32) -> (r: u32)
    ensures
        r == score(*facts, lowercase(facts.name@), system as int),
{
    let name = to_lower(facts.name.as_str());
    score_named(facts, name.as_str(), system)
}

/// The quick score of an adapter whose name in lower case is `name`.
pub fn quick_score_named(kind: AdapterKind, name: &str) -> (r: u32)
    ensures
        r == quick_score(kind, name@),
{
    let mut s: u32 = match kind {
        AdapterKind::Discrete => 50,
        AdapterKind::Integrated => 25,
        _ => 5,
    };
    if str_contains(name, "nvidia") {
        s = s + 10;
    } else if str_contains(name, "amd") || str_contains(name, "radeon") {
        s = s + 8;
    }
    less_points(s, points(software(name), 40))
}

/// How good an adapter is, from its kind and its name alone.
pub fn adapter_score_quick(facts: &AdapterFacts) -> (r: u32)
    ensures
        r == quick_score(facts.kind, lowercase(facts.name@)),
{
    let name = to_lower(facts.name.as_str());
    quick_score_named(facts.kind, name.as_str())
}

/// Whether an adapter can bind what the kernels need.
pub fn adapter_matches_requirements(facts: &AdapterFacts) -> (r: bool)
    ensures
        r == facts.storage_binding_array,
{
    facts.storage_binding_array
}

// ---------------------------------------------------------------------------
// Selection
// ---------------------------------------------------------------------------
/// How a device is selected.
#[derive(Clone, Copy, Debug, PartialEq, Eq, Structural)]
pub enum DeviceSelectionPolicy {
    /// One after the other.
    RoundRobin,
    /// The best.
    BestScore,
    /// By number, counted round.
    Index(usize),
}

/// The first of the greatest numbers.
pub open spec fn first_best(scores: Seq<u32>, i: int) -> bool {
    &&& 0 <= i < scores.len()
    &&& forall|j: int| 0 <= j < i ==> (#[trigger] scores[j]) < scores[i]
    &&& forall|j: int| i < j < scores.len() ==> (#[trigger] scores[j]) <= scores[i]
}

/// The adapter that a policy selects, given how good each of them is; none
/// where there are none.
pub fn select_index(scores: &Vec<u32>, policy: DeviceSelectionPolicy) -> (r: Option<usize>)
    ensures
        r is None <==> scores@.len() == 0,
        r matches Some(i) ==> i < scores@.len() && match policy {
            DeviceSelectionPolicy::RoundRobin => i == 0,
            DeviceSelectionPolicy::Index(n) => i == n as int % scores@.len() as int,
            DeviceSelectionPolicy::BestScore => first_best(scores@, i as int),
        },
{
    if scores.len() == 0 {
        return None;
    }
    match policy {
        DeviceSelectionPolicy::RoundRobin => Some(0),
        DeviceSelectionPolicy::Index(n) => Some(n % scores.len()),
        DeviceSelectionPolicy::BestScore => {
            let mut best: usize = 0;
            let mut i: usize = 1;
            while i < scores.len()
                invariant
                    1 <= i <= scores@.len(),
                    best < i,
                    forall|j: int| 0 <= j < best ==> (#[trigger] scores@[j]) < scores@[best as int],
                    forall|j: int| best < j < i ==> (#[trigger] scores@[j]) <= scores@[best as int],
                decreases scores@.len() - i,
            {
                if scores[i] > scores[best] {
                    best = i;
                }
                i = i + 1;
            }
            Some(best)
        },
    }
}

/// The quick scores of adapters.
pub open spec fn quick_scores(facts: Seq<AdapterFacts>) -> Seq<int> {
    Seq::new(facts.len(), |i: int| quick_score(facts[i].kind, lowercase(facts[i].name@)))
}

/// The adapter that a policy selects.
pub fn select_adapter_index_by_policy(
    facts: &Vec<AdapterFacts>,
    policy: DeviceSelectionPolicy,
) -> (r: Option<usize>)
    ensures
        r is None <==> facts@.len() == 0,
        r matches Some(i) ==> i < facts@.len() && match policy {
            DeviceSelectionPolicy::RoundRobin => i == 0,
            DeviceSelectionPolicy::Index(n) => i == n as int % facts@.len() as int,
            DeviceSelectionPolicy::BestScore => {
                let scores = quick_scores(facts@);
                &&& forall|j: int| 0 <= j < i ==> (#[trigger] scores[j]) < scores[i as int]
                &&& forall|j: int|
                    i < j < scores.len() ==> (#[trigger] scores[j]) <= scores[i as int]
            },
        },
{
    let mut scores: Vec<u32> = Vec::new();
    let mut k: usize = 0;
    while k < facts.len()
        invariant
            k <= facts@.len(),
            scores@.len() == k,
            forall|j: int| 0 <= j < k ==> (#[trigger] scores@[j]) == quick_scores(facts@)[j],
        decreases facts@.len() - k,
    {
        scores.push(adapter_score_quick(&facts[k]));
        k = k + 1;
    }
    let r = select_index(&scores, policy);
    proof {
        if r is Some && policy == DeviceSelectionPolicy::BestScore {
            let i = r->0 as int;
            let want = quick_scores(facts@);
            assert(first_best(scores@, i));
            assert forall|j: int| 0 <= j < i implies (#[trigger] want[j]) < want[i] by {
                assert(scores@[j] < scores@[i]);
            }
            assert forall|j: int| i < j < want.len() implies (#[trigger] want[j]) <= want[i] by {
                assert(scores@[j] <= scores@[i]);
            }
        }
    }
    r
}

/// `a` comes before `b`: it is better, or as good and earlier.
pub open spec fn ahead(scores: Seq<int>, a: int, b: int) -> bool {
    scores[a] > scores[b] || (scores[a] == scores[b] && a < b)
}

/// The positions of the first `n` scores, each once, the best first; of equal
/// ones the earlier first.
pub open spec fn ranks(scores: Seq<int>, n: int, order: Seq<usize>) -> bool {
    &&& order.len() == n
    &&& forall|q: int| 0 <= q < order.len() ==> (#[trigger] order[q]) < n
    &&& forall|p: int, q: int|
        0 <= p < q < order.len() ==> ahead(scores, #[trigger] order[p] as int, #[trigger] order[q] as int)
}

proof fn lemma_ranked(scores: Seq<int>, n: int, order: Seq<usize>, p: int)
    requires
        0 <= n < scores.len(),
        n <= usize::MAX,
        ranks(scores, n, order),
        0 <= p <= order.len(),
        forall|q: int| 0 <= q < p ==> scores[(#[trigger] order[q]) as int] >= scores[n],
        p < order.len() ==> scores[order[p] as int] < scores[n],
    ensures
        ranks(scores, n + 1, order.insert(p, n as usize)),
{
    let after = order.insert(p, n as usize);
    assert forall|q: int| 0 <= q < after.len() implies (#[trigger] after[q]) < n + 1 by {
        if q < p {
            assert(after[q] == order[q]);
        } else if q > p {
            assert(after[q] == order[q - 1]);
        }
    }
    assert forall|x: int, y: int| 0 <= x < y < after.len() implies ahead(
        scores,
        #[trigger] after[x] as int,
        #[trigger] after[y] as int,
    ) by {
        let ox = if x < p {
            x
        } else {
            x - 1
        };
        let oy = if y < p {
            y
        } else {
            y - 1
        };
        if x != p {
            assert(after[x] == order[ox]);
        }
        if y != p {
            assert(after[y] == order[oy]);
        }
        if x == p {
            assert(p < order.len());
            if oy > p {
                assert(ahead(scores, order[p] as int, order[oy] as int));
            }
        }
    }
}

/// The numbers in a list.
pub open spec fn numbers(scores: Seq<u32>) -> Seq<int> {
    Seq::new(scores.len(), |i: int| scores[i] as int)
}

/// The positions of the scores, the best first; of equal ones the earlier
/// first.
pub fn best_first(scores: &Vec<u32>) -> (order: Vec<usize>)
    ensures
        ranks(numbers(scores@), scores@.len() as int, order@),
{
    let ghost all = numbers(scores@);
    let mut order: Vec<usize> = Vec::new();
    let mut n: usize = 0;
    while n < scores.len()
        invariant
            n <= scores@.len(),
            all == numbers(scores@),
            ranks(all, n as int, order@),
        decreases scores@.len() - n,
    {
        let mut p: usize = 0;
        while p < order.len() && scores[order[p]] >= scores[n]
            invariant
                p <= order@.len(),
                n < scores@.len(),
                all == numbers(scores@),
                ranks(all, n as int, order@),
                forall|q: int| 0 <= q < p ==> all[(#[trigger] order@[q]) as int] >= all[n as int],
            decreases order@.len() - p,
        {
            p = p + 1;
        }
        proof {
            lemma_ranked(all, n as int, order@, p as int);
        }
        order.insert(p, n);
        n = n + 1;
    }
    order
}

// ---------------------------------------------------------------------------
// An adapter by request
// ---------------------------------------------------------------------------
/// Which adapter a request, such as one from the environment, is for.
pub enum Choice {
    /// The adapter at a position.
    Adapter(usize),
    /// Whichever the system offers.
    Default,
}

/// The first of the adapters from `i` on whose name contains a text.
pub open spec fn first_named(names: Seq<Seq<char>>, text: Seq<char>, i: int) -> Option<int>
    decreases names.len() - i,
{
    if i < 0 || i >= names.len() {
        None
    } else if contains_text(names[i], text) {
        Some(i)
    } else {
        first_named(names, text, i + 1)
    }
}

/// The first of the adapters from `i` on that can bind what the kernels need.
pub open spec fn first_able(facts: Seq<AdapterFacts>, i: int) -> Option<int>
    decreases facts.len() - i,
{
    if i < 0 || i >= facts.len() {
        None
    } else if facts[i].storage_binding_array {
        Some(i)
    } else {
        first_able(facts, i + 1)
    }
}

/// The names of adapters.
pub open spec fn names_of(facts: Seq<AdapterFacts>) -> Seq<Seq<char>> {
    Seq::new(facts.len(), |i: int| facts[i].name@)
}

/// The adapter for a request: the one at the position it gives, or the first
/// with the text in its name; failing that the first that can bind what the
/// kernels need.
pub open spec fn chosen(facts: Seq<AdapterFacts>, request: Option<Seq<char>>) -> Option<int> {
    let asked = match request {
        None => None,
        Some(text) => match index_of_text(text) {
            Some(i) if i < facts.len() => Some(i as int),
            _ => first_named(names_of(facts), text, 0),
        },
    };
    match asked {
        Some(i) => Some(i),
        None => first_able(facts, 0),
    }
}

fn find_named(facts: &Vec<AdapterFacts>, text: &str) -> (r: Option<usize>)
    ensures
        match r {
            Some(i) => first_named(names_of(facts@), text@, 0) == Some(i as int) && i < facts@.len(),
            None => first_named(names_of(facts@), text@, 0) is None,
        },
{
    let ghost names = names_of(facts@);
    let mut i: usize = 0;
    while i < facts.len()
        invariant
            i <= facts@.len(),
            names == names_of(facts@),
            first_named(names, text@, 0) == first_named(names, text@, i as int),
        decreases facts@.len() - i,
    {
        if str_contains(facts[i].name.as_str(), text) {
            return Some(i);
        }
        i = i + 1;
    }
    None
}

/// The adapter for a request.
pub fn choose_adapter(facts: &Vec<AdapterFacts>, request: Option<&str>) -> (r: Choice)
    ensures
        ({
            let text = match request {
                Some(t) => Some(t@),
                None => None,
            };
            match r {
                Choice::Adapter(i) => chosen(facts@, text) == Some(i as int),
                Choice::Default => chosen(facts@, text) is None,
            }
        }),
{
    match request {
        Some(text) => {
            match parse_index(text) {
                Some(i) => {
                    if i < facts.len() {
                        return Choice::Adapter(i);
                    }
                },
                None => {},
            }
            match find_named(facts, text) {
                Some(i) => {
                    return Choice::Adapter(i);
                },
                None => {},
            }
        },
        None => {},
    }
    let mut i: usize = 0;
    while i < facts.len()
        invariant
            i <= facts@.len(),
            first_able(facts@, 0) == first_able(facts@, i as int),
            chosen(
                facts@,
                match request {
                    Some(t) => Some(t@),
                    None => None,
                },
            ) == first_able(facts@, 0),
        decreases facts@.len() - i,
    {
        if facts[i].storage_binding_array {
            return Choice::Adapter(i);
        }
        i = i + 1;
    }
    Choice::Default
}

} // verus!
