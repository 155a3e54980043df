//! What the scores of adapters come to, and which adapters and devices are
//! taken.

use crate::device_manager::{
    lower_names, scores_of, DeviceManager, InitAction, InitStage, InitView, Initializer,
};
use crate::gpu_backend::{
    adapter_matches_requirements, adapter_score, adapter_score_quick, best_first, choose_adapter,
    first_able, first_best, first_named, lowercase, names_of, quick_scores, quick_score_named,
    score_named, select_adapter_index_by_policy, select_index, AdapterFacts, AdapterKind, Choice,
    DeviceSelectionPolicy,
};
use crate::text::{contains_text, index_of_text};
use vstd::arithmetic::div_mod::lemma_fundamental_div_mod;
use vstd::prelude::*;

verus! {

// ---------------------------------------------------------------------------
// Scores
// ---------------------------------------------------------------------------
/// The score of an adapter: sixty, thirty, ten or five points by its kind, of
/// which one in software loses fifty or what there are; five for timestamp
/// queries, twenty for arrays of storage bindings, five for push constants;
/// two for each storage buffer up to sixteen; ten for an alignment from 256 on;
/// ten for the vendor; and up to twenty for the system.
pub proof fn law_scores_add_up(facts: &AdapterFacts, name: &str, system: i32, r: u32)
    requires
        call_ensures(score_named, (facts, name, system), r),
    ensures
        ({
            let soft = contains_text(name@, "swiftshader"@) || contains_text(name@, "llvmpipe"@);
            let kind = match (facts.kind, soft) {
                (AdapterKind::Discrete, false) => 60int,
                (AdapterKind::Discrete, true) => 10,
                (AdapterKind::Integrated, false) => 30,
                (AdapterKind::Virtual, false) => 10,
                (AdapterKind::Cpu, false) => 5,
                (AdapterKind::Other, false) => 5,
                _ => 0,
            };
            let queries = if facts.timestamp_query {
                5int
            } else {
                0
            };
            let arrays = if facts.storage_binding_array {
                20int
            } else {
                0
            };
            let constants = if facts.push_constants {
                5int
            } else {
                0
            };
            let buffers = if facts.max_storage_buffers >= 16 {
                32int
            } else {
                facts.max_storage_buffers + facts.max_storage_buffers
            };
            let alignment = if facts.min_storage_alignment >= 256 {
                10int
            } else {
                0
            };
            let vendor = if contains_text(name@, "nvidia"@) {
                10int
            } else {
                0
            };
            let extra = if system >= 20 {
                20int
            } else if system > 0 {
                system as int
            } else {
                0
            };
            r == kind + queries + arrays + constants + buffers + alignment + vendor + extra
        }),
{
}

/// The quick score of an adapter: fifty, twenty-five or five points by its
/// kind, ten or eight for the vendor, and of all these one in software loses
/// forty or what there are.
pub proof fn law_quick_scores_add_up(kind: AdapterKind, name: &str, r: u32)
    requires
        call_ensures(quick_score_named, (kind, name), r),
    ensures
        ({
            let soft = contains_text(name@, "swiftshader"@) || contains_text(name@, "llvmpipe"@);
            let base = match kind {
                AdapterKind::Discrete => 50int,
                AdapterKind::Integrated => 25,
                AdapterKind::Virtual => 5,
                AdapterKind::Cpu => 5,
                AdapterKind::Other => 5,
            };
            let vendor = if contains_text(name@, "nvidia"@) {
                10int
            } else if contains_text(name@, "amd"@) || contains_text(name@, "radeon"@) {
                8
            } else {
                0
            };
            &&& !soft ==> r == base + vendor
            &&& soft && base + vendor >= 40 ==> r == base + vendor - 40
            &&& soft && base + vendor < 40 ==> r == 0
        }),
{
}

/// The scores of an adapter are those for its name in lower case.
pub proof fn law_names_are_taken_in_lower_case(
    facts: &AdapterFacts,
    name: &str,
    system: i32,
    a: u32,
    b: u32,
    c: u32,
    d: u32,
)
    requires
        name@ == lowercase(facts.name@),
        call_ensures(adapter_score, (facts, system), a),
        call_ensures(score_named, (facts, name, system), b),
        call_ensures(adapter_score_quick, (facts,), c),
        call_ensures(quick_score_named, (facts.kind, name), d),
    ensures
        a == b,
        c == d,
{
}

/// What the kernels need is that arrays of storage bindings can be bound.
pub proof fn law_requirements(facts: &AdapterFacts, r: bool)
    requires
        call_ensures(adapter_matches_requirements, (facts,), r),
    ensures
        r <==> facts.storage_binding_array,
{
}

// ---------------------------------------------------------------------------
// Selection
// ---------------------------------------------------------------------------
/// A place that a number comes to, counted round among so many places.
pub open spec fn counted_round(number: int, places: int, place: int) -> bool {
    0 <= place < places && exists|rounds: int| number == #[trigger] (rounds * places) + place
}

proof fn lemma_counted_round(number: int, places: int)
    requires
        places > 0,
        number >= 0,
    ensures
        counted_round(number, places, number % places),
{
    lemma_fundamental_div_mod(number, places);
    vstd::arithmetic::div_mod::lemma_mod_bound(number, places);
    let rounds = number / places;
    assert(number == rounds * places + number % places) by (nonlinear_arith)
        requires
            number == places * rounds + number % places,
    ;
}

/// A policy selects none where there are none; else the first, or the one that
/// a number comes to, counted round, or the first that none is better than.
pub proof fn law_policies_select(
    scores: &Vec<u32>,
    policy: DeviceSelectionPolicy,
    r: Option<usize>,
    other: int,
)
    requires
        call_ensures(select_index, (scores, policy), r),
        0 <= other < scores@.len() || scores@.len() == 0,
    ensures
        r is None <==> scores@.len() == 0,
        r is Some ==> r->0 < scores@.len(),
        r is Some && policy is RoundRobin ==> r->0 == 0,
        r is Some && policy is Index ==> counted_round(
            policy->Index_0 as int,
            scores@.len() as int,
            r->0 as int,
        ),
        r is Some && policy is BestScore ==> {
            &&& scores@[other] <= scores@[r->0 as int]
            &&& other < r->0 ==> scores@[other] < scores@[r->0 as int]
        },
{
    if r is Some && policy is Index {
        lemma_counted_round(policy->Index_0 as int, scores@.len() as int);
    }
    if r is Some && policy is BestScore {
        assert(first_best(scores@, r->0 as int));
    }
}

/// Adapters are selected by the same policies, the best by the quick scores.
pub proof fn law_policies_select_adapters(
    facts: &Vec<AdapterFacts>,
    policy: DeviceSelectionPolicy,
    r: Option<usize>,
    other: int,
    best: u32,
    theirs: u32,
)
    requires
        call_ensures(select_adapter_index_by_policy, (facts, policy), r),
        0 <= other < facts@.len() || facts@.len() == 0,
        r is Some ==> call_ensures(adapter_score_quick, (&facts@[r->0 as int],), best),
        r is Some ==> call_ensures(adapter_score_quick, (&facts@[other],), theirs),
    ensures
        r is None <==> facts@.len() == 0,
        r is Some ==> r->0 < facts@.len(),
        r is Some && policy is RoundRobin ==> r->0 == 0,
        r is Some && policy is Index ==> counted_round(
            policy->Index_0 as int,
            facts@.len() as int,
            r->0 as int,
        ),
        r is Some && policy is BestScore ==> {
            &&& theirs <= best
            &&& other < r->0 ==> theirs < best
        },
{
    if r is Some && policy is Index {
        lemma_counted_round(policy->Index_0 as int, facts@.len() as int);
    }
    if r is Some && policy is BestScore {
        let scores = quick_scores(facts@);
        assert(scores[other] == theirs);
        assert(scores[r->0 as int] == best);
    }
}

/// Ranking gives every place once: as many as there are, no two alike, each of
/// them a place. Of two places the better comes first, and of two as good ones
/// the earlier.
pub proof fn law_ranking_puts_the_best_first(
    scores: &Vec<u32>,
    order: Vec<usize>,
    p: int,
    q: int,
)
    requires
        call_ensures(best_first, (scores,), order),
        0 <= p < q < scores@.len(),
    ensures
        order@.len() == scores@.len(),
        order@[p] < scores@.len(),
        order@[q] < scores@.len(),
        order@[p] != order@[q],
        scores@[order@[p] as int] >= scores@[order@[q] as int],
        scores@[order@[p] as int] == scores@[order@[q] as int] ==> order@[p] < order@[q],
{
    assert(crate::gpu_backend::ahead(
        crate::gpu_backend::numbers(scores@),
        order@[p] as int,
        order@[q] as int,
    ));
}

proof fn lemma_first_named(names: Seq<Seq<char>>, text: Seq<char>, i: int)
    requires
        0 <= i,
    ensures
        match first_named(names, text, i) {
            Some(j) => i <= j < names.len() && contains_text(names[j], text) && forall|k: int|
                i <= k < j ==> !contains_text(#[trigger] names[k], text),
            None => forall|k: int| i <= k < names.len() ==> !contains_text(
                #[trigger] names[k],
                text,
            ),
        },
    decreases names.len() - i,
{
    if i < names.len() && !contains_text(names[i], text) {
        lemma_first_named(names, text, i + 1);
    }
}

proof fn lemma_first_able(facts: Seq<AdapterFacts>, i: int)
    requires
        0 <= i,
    ensures
        match first_able(facts, i) {
            Some(j) => i <= j < facts.len() && facts[j].storage_binding_array && forall|k: int|
                i <= k < j ==> !(#[trigger] facts[k]).storage_binding_array,
            None => forall|k: int|
                i <= k < facts.len() ==> !(#[trigger] facts[k]).storage_binding_array,
        },
    decreases facts.len() - i,
{
    if i < facts.len() && !facts[i].storage_binding_array {
        lemma_first_able(facts, i + 1);
    }
}

/// A request that gives the position of an adapter is for that adapter.
pub proof fn law_positions_are_honoured(facts: &Vec<AdapterFacts>, text: &str, r: Choice)
    requires
        call_ensures(choose_adapter, (facts, Some(text)), r),
        index_of_text(text@) is Some,
        index_of_text(text@)->0 < facts@.len(),
    ensures
        r is Adapter,
        r->0 == index_of_text(text@)->0,
{
}

/// Any other request is for the first adapter whose name has the text in it,
/// where there is one.
pub proof fn law_names_are_honoured(facts: &Vec<AdapterFacts>, text: &str, r: Choice, place: int)
    requires
        call_ensures(choose_adapter, (facts, Some(text)), r),
        !(index_of_text(text@) is Some && index_of_text(text@)->0 < facts@.len()),
        0 <= place < facts@.len(),
        contains_text(facts@[place].name@, text@),
    ensures
        r is Adapter,
        r->0 <= place,
        contains_text(facts@[r->0 as int].name@, text@),
{
    lemma_first_named(names_of(facts@), text@, 0);
    assert(names_of(facts@)[place] == facts@[place].name@);
}

/// Without a request, or where no name has its text in it, the first adapter
/// that can bind what the kernels need is taken, and where there is none,
/// whatever the system offers.
pub proof fn law_able_adapters_are_taken(
    facts: &Vec<AdapterFacts>,
    request: Option<&str>,
    r: Choice,
)
    requires
        call_ensures(choose_adapter, (facts, request), r),
        request is Some ==> !(index_of_text(request->0@) is Some && index_of_text(request->0@)->0
            < facts@.len()),
        request is Some ==> forall|i: int|
            0 <= i < facts@.len() ==> !contains_text((#[trigger] facts@[i]).name@, request->0@),
    ensures
        r is Default <==> forall|i: int|
            0 <= i < facts@.len() ==> !(#[trigger] facts@[i]).storage_binding_array,
        r is Adapter ==> {
            &&& r->0 < facts@.len()
            &&& facts@[r->0 as int].storage_binding_array
            &&& forall|i: int| 0 <= i < r->0 ==> !(#[trigger] facts@[i]).storage_binding_array
        },
{
    lemma_first_able(facts@, 0);
    if request is Some {
        let names = names_of(facts@);
        lemma_first_named(names, request->0@, 0);
        if first_named(names, request->0@, 0) is Some {
            let j = first_named(names, request->0@, 0)->0;
            assert(names[j] == facts@[j].name@);
        }
    }
}

// ---------------------------------------------------------------------------
// Initialising
// ---------------------------------------------------------------------------
/// Initialising begins with nothing made. It prefers the adapter at the
/// position that a request gives, if there is one there, or else the first
/// whose name has the text in it, whatever the case; and none without a
/// request.
pub proof fn law_requests_are_preferred(
    facts: &Vec<AdapterFacts>,
    request: Option<&str>,
    system: i32,
    r: Initializer,
    place: int,
)
    requires
        call_ensures(Initializer::new, (facts, request, system), r),
        0 <= place < facts@.len(),
    ensures
        r@.made.len() == 0,
        r@.stage is Begun,
        request is None ==> r@.preferred is None,
        request is Some && index_of_text(request->0@) is Some ==> {
            let n = index_of_text(request->0@)->0;
            &&& n < facts@.len() ==> r@.preferred is Some && r@.preferred->0 == n
            &&& n >= facts@.len() ==> r@.preferred is None
        },
        request is Some && index_of_text(request->0@) is None ==> {
            let held = contains_text(lowercase(facts@[place].name@), lowercase(request->0@));
            &&& held ==> r@.preferred is Some && r@.preferred->0 <= place
            &&& r@.preferred is Some ==> r@.preferred->0 < facts@.len() && contains_text(
                lowercase(facts@[r@.preferred->0 as int].name@),
                lowercase(request->0@),
            )
        },
{
    if request is Some {
        let names = lower_names(facts@);
        lemma_first_named(names, lowercase(request->0@), 0);
        assert(names[place] == lowercase(facts@[place].name@));
        if r@.preferred is Some {
            assert(names[r@.preferred->0 as int] == lowercase(
                facts@[r@.preferred->0 as int].name@,
            ));
        }
    }
}

/// The adapters are tried from the best on: each has one place in the order,
/// and of two the one with the higher score comes first, of two as good ones
/// the earlier.
pub proof fn law_adapters_are_tried_by_score(
    facts: &Vec<AdapterFacts>,
    request: Option<&str>,
    system: i32,
    r: Initializer,
    p: int,
    q: int,
    first: u32,
    second: u32,
)
    requires
        call_ensures(Initializer::new, (facts, request, system), r),
        0 <= p < q < facts@.len(),
        call_ensures(adapter_score, (&facts@[r@.order[p] as int], system), first),
        call_ensures(adapter_score, (&facts@[r@.order[q] as int], system), second),
    ensures
        r@.order.len() == facts@.len(),
        r@.order[p] < facts@.len(),
        r@.order[q] < facts@.len(),
        r@.order[p] != r@.order[q],
        first >= second,
        first == second ==> r@.order[p] < r@.order[q],
{
    let scores = scores_of(facts@, system as int);
    let a = r@.order[p] as int;
    let b = r@.order[q] as int;
    assert(crate::gpu_backend::ahead(scores, a, b));
    assert(scores[a] == first);
    assert(scores[b] == second);
}

/// What is to be done next where the adapters from a place in the order on are
/// still to be tried: the one at that place; or, where there is none, nothing
/// if a device was made, else whatever the system offers.
pub open spec fn goes_on(v: InitView, place: int, action: InitAction) -> bool {
    if place < v.order.len() {
        action == InitAction::Init(v.order[place]) && v.stage == InitStage::Ordered(place as usize)
    } else if v.made.len() > 0 {
        action == InitAction::End(true) && v.stage == InitStage::Ended(true)
    } else {
        action == InitAction::InitDefault && v.stage == InitStage::Fallback
    }
}

/// The preferred adapter is tried first, where there is one, and the others in
/// their order after that, whatever came of it. The first of the others of
/// which a device can be made is the last that is tried; where one cannot be
/// made the next is tried. The system's offer is the last resort. Devices are
/// made of the adapters that were tried with success, and of no other.
pub proof fn law_steps_of_initialising(s: &mut Initializer, ok: bool, r: InitAction)
    requires
        old(s)@.sound(),
        old(s)@.order.len() <= usize::MAX,
        call_ensures(Initializer::step, (s, ok), r),
    ensures
        ({
            let (a, b) = (old(s)@, final(s)@);
            &&& b.preferred == a.preferred
            &&& b.order == a.order
            &&& a.stage is Begun ==> b.made == a.made && if a.preferred is Some {
                r == InitAction::Init(a.preferred->0) && b.stage == InitStage::Preferred
            } else {
                goes_on(b, 0, r)
            }
            &&& a.stage is Preferred ==> goes_on(b, 0, r) && b.made == if ok {
                a.made.push(a.preferred->0)
            } else {
                a.made
            }
            &&& a.stage is Ordered && ok ==> {
                &&& r == InitAction::End(true)
                &&& b.stage == InitStage::Ended(true)
                &&& b.made == a.made.push(a.order[a.stage->Ordered_0 as int])
            }
            &&& a.stage is Ordered && !ok ==> goes_on(b, a.stage->Ordered_0 + 1, r) && b.made
                == a.made
            &&& a.stage is Fallback ==> r == InitAction::End(ok) && b.stage == InitStage::Ended(ok)
                && b.made == a.made
            &&& a.stage is Ended ==> b == a && r == InitAction::End(a.stage->Ended_0)
        }),
{
}

// ---------------------------------------------------------------------------
// Devices
// ---------------------------------------------------------------------------
/// There are no devices at first, and no turn has been taken. A device that is
/// added comes last, with its score, and changes no turn.
pub proof fn law_devices_are_added(
    fresh: DeviceManager,
    m: &mut DeviceManager,
    device: u64,
    score: u32,
    done: (),
    empty: bool,
)
    requires
        call_ensures(DeviceManager::new, (), fresh),
        call_ensures(DeviceManager::add_device, (m, device, score), done),
        call_ensures(DeviceManager::is_empty, (&*old(m),), empty),
    ensures
        fresh.spec_devices().len() == 0,
        fresh.spec_turn() == 0,
        empty <==> old(m).spec_devices().len() == 0,
        final(m).spec_devices() == old(m).spec_devices() + seq![device],
        final(m).spec_scores() == old(m).spec_scores() + seq![score],
        final(m).spec_turn() == old(m).spec_turn(),
{
    assert(final(m).spec_devices() =~= old(m).spec_devices() + seq![device]);
    assert(final(m).spec_scores() =~= old(m).spec_scores() + seq![score]);
}

/// The device whose turn it is stands at the place that the turns so far come
/// to, counted round, and each call takes one turn; the devices stay as they
/// are.
pub proof fn law_turns_are_taken(m: &mut DeviceManager, r: u64) -> (place: int)
    requires
        old(m).spec_devices().len() > 0,
        call_ensures(DeviceManager::get_device_round_robin, (m,), r),
    ensures
        counted_round(old(m).spec_turn() as int, old(m).spec_devices().len() as int, place),
        r == old(m).spec_devices()[place],
        final(m).spec_devices() == old(m).spec_devices(),
        final(m).spec_scores() == old(m).spec_scores(),
        old(m).spec_turn() < usize::MAX ==> final(m).spec_turn() == old(m).spec_turn() + 1,
        old(m).spec_turn() == usize::MAX ==> final(m).spec_turn() == 0,
{
    let n = old(m).spec_devices().len() as int;
    lemma_counted_round(old(m).spec_turn() as int, n);
    old(m).spec_turn() as int % n
}

/// By turns a policy hands out the device whose turn it is, by score one with
/// the highest score, the first of them, and by number the one that the number
/// comes to, counted round. Only the first takes a turn.
pub proof fn law_policies_hand_out(
    m: &mut DeviceManager,
    policy: DeviceSelectionPolicy,
    r: u64,
) -> (place: int)
    requires
        old(m).spec_devices().len() > 0,
        old(m).spec_scores().len() == old(m).spec_devices().len(),
        call_ensures(DeviceManager::get_device_by_policy, (m, policy), r),
    ensures
        0 <= place < old(m).spec_devices().len(),
        r == old(m).spec_devices()[place],
        final(m).spec_devices() == old(m).spec_devices(),
        final(m).spec_scores() == old(m).spec_scores(),
        policy is RoundRobin ==> {
            &&& counted_round(
                old(m).spec_turn() as int,
                old(m).spec_devices().len() as int,
                place,
            )
            &&& old(m).spec_turn() < usize::MAX ==> final(m).spec_turn() == old(m).spec_turn() + 1
            &&& old(m).spec_turn() == usize::MAX ==> final(m).spec_turn() == 0
        },
        policy is Index ==> counted_round(
            policy->Index_0 as int,
            old(m).spec_devices().len() as int,
            place,
        ),
        policy is BestScore ==> forall|other: int|
            0 <= other < old(m).spec_scores().len() ==> {
                &&& (#[trigger] old(m).spec_scores()[other]) <= old(m).spec_scores()[place]
                &&& other < place ==> old(m).spec_scores()[other] < old(m).spec_scores()[place]
            },
        !(policy is RoundRobin) ==> final(m).spec_turn() == old(m).spec_turn(),
{
    let n = old(m).spec_devices().len() as int;
    match policy {
        DeviceSelectionPolicy::RoundRobin => {
            lemma_counted_round(old(m).spec_turn() as int, n);
            old(m).spec_turn() as int % n
        },
        DeviceSelectionPolicy::Index(number) => {
            lemma_counted_round(number as int, n);
            number as int % n
        },
        DeviceSelectionPolicy::BestScore => {
            let scores = old(m).spec_scores();
            let i = choose|i: int| #[trigger]
                first_best(scores, i) && r == old(m).spec_devices()[i];
            i
        },
    }
}

} // verus!
