//! The devices at hand: how they come to be there, and which is handed out.

use crate::gpu_backend::{
    adapter_score, best_first, first_best, first_named, lowercase, numbers, ranks, score, to_lower,
    AdapterFacts, DeviceSelectionPolicy,
};
use crate::text::{index_of_text, parse_index, str_contains};
use vstd::prelude::*;

verus! {

// ---------------------------------------------------------------------------
// Initialising
// ---------------------------------------------------------------------------
/// The names of adapters in lower case.
pub open spec fn lower_names(facts: Seq<AdapterFacts>) -> Seq<Seq<char>> {
    Seq::new(facts.len(), |i: int| lowercase(facts[i].name@))
}

/// The adapter that a request prefers: the one at the position it gives, or,
/// where it gives none, the first with the text in its name, whatever the
/// case.
pub open spec fn preferred(facts: Seq<AdapterFacts>, request: Option<Seq<char>>) -> Option<int> {
    match request {
        None => None,
        Some(text) => match index_of_text(text) {
            Some(i) => if i < facts.len() {
                Some(i as int)
            } else {
                None
            },
            None => first_named(lower_names(facts), lowercase(text), 0),
        },
    }
}

/// Where initialising stands.
#[derive(Clone, Copy, Debug, PartialEq, Eq, Structural)]
pub enum InitStage {
    Begun,
    /// The preferred adapter is being tried.
    Preferred,
    /// The adapter at a place in the order is being tried.
    Ordered(usize),
    /// Whatever the system offers is being tried.
    Fallback,
    Ended(bool),
}

/// What a host is to do next.
#[derive(Clone, Copy, Debug, PartialEq, Eq, Structural)]
pub enum InitAction {
    /// Make a device of the adapter at a position.
    Init(usize),
    /// Make a device of whatever adapter the system offers.
    InitDefault,
    /// Nothing more: whether there is a device.
    End(bool),
}

/// The making of devices: the preferred adapter is tried, then the others from
/// the best on up to the first of which a device can be made; where there is
/// no device after that, whatever the system offers.
pub struct Initializer {
    preferred: Option<usize>,
    order: Vec<usize>,
    made: Vec<usize>,
    stage: InitStage,
}

/// An [`Initializer`] by its parts.
#[verifier::ext_equal]
pub struct InitView {
    pub preferred: Option<usize>,
    pub order: Seq<usize>,
    /// The positions of the adapters that devices were made of, in order.
    pub made: Seq<usize>,
    pub stage: InitStage,
}

impl View for Initializer {
    type V = InitView;

    closed spec fn view(&self) -> InitView {
        InitView {
            preferred: self.preferred,
            order: self.order@,
            made: self.made@,
            stage: self.stage,
        }
    }
}

impl InitView {
    /// The places stand in the order.
    pub open spec fn sound(self) -> bool {
        &&& self.stage matches InitStage::Ordered(i) ==> i < self.order.len()
        &&& self.stage == InitStage::Preferred ==> self.preferred is Some
        &&& self.stage == InitStage::Fallback ==> self.made.len() == 0
    }

    /// The stage that trying the adapters from place `i` on begins with, with
    /// `made` devices there already.
    pub open spec fn resumed(self, i: int, made: Seq<usize>) -> InitView {
        InitView {
            made,
            stage: if i < self.order.len() {
                InitStage::Ordered(i as usize)
            } else if made.len() > 0 {
                InitStage::Ended(true)
            } else {
                InitStage::Fallback
            },
            ..self
        }
    }

    /// What comes of a stage whose action succeeded or failed.
    pub open spec fn next(self, ok: bool) -> InitView {
        match self.stage {
            InitStage::Begun => if self.preferred is Some {
                InitView { stage: InitStage::Preferred, ..self }
            } else {
                self.resumed(0, self.made)
            },
            InitStage::Preferred => self.resumed(
                0,
                if ok {
                    self.made.push(self.preferred->0)
                } else {
                    self.made
                },
            ),
            InitStage::Ordered(i) => if ok {
                InitView {
                    made: self.made.push(self.order[i as int]),
                    stage: InitStage::Ended(true),
                    ..self
                }
            } else {
                self.resumed(i + 1, self.made)
            },
            InitStage::Fallback => InitView { stage: InitStage::Ended(ok), ..self },
            InitStage::Ended(_) => self,
        }
    }

    /// The action of a stage.
    pub open spec fn action(self) -> InitAction {
        match self.stage {
            InitStage::Begun => InitAction::End(false),
            InitStage::Preferred => InitAction::Init(self.preferred->0),
            InitStage::Ordered(i) => InitAction::Init(self.order[i as int]),
            InitStage::Fallback => InitAction::InitDefault,
            InitStage::Ended(there) => InitAction::End(there),
        }
    }
}

/// The scores of adapters.
pub open spec fn scores_of(facts: Seq<AdapterFacts>, system: int) -> Seq<int> {
    Seq::new(facts.len(), |i: int| score(facts[i], lowercase(facts[i].name@), system))
}

fn find_preferred(facts: &Vec<AdapterFacts>, request: Option<&str>) -> (r: Option<usize>)
    ensures
        ({
            let want = preferred(
                facts@,
                match request {
                    Some(t) => Some(t@),
                    None => None,
                },
            );
            match r {
                Some(i) => want == Some(i as int) && i < facts@.len(),
                None => want is None,
            }
        }),
{
    let text = match request {
        Some(text) => text,
        None => {
            return None;
        },
    };
    match parse_index(text) {
        Some(i) => {
            if i < facts.len() {
                return Some(i);
            }
            return None;
        },
        None => {},
    }
    let wanted = to_lower(text);
    let ghost names = lower_names(facts@);
    let mut i: usize = 0;
    while i < facts.len()
        invariant
            i <= facts@.len(),
            names == lower_names(facts@),
            wanted@ == lowercase(text@),
            request == Some(text),
            index_of_text(text@) is None,
            first_named(names, wanted@, 0) == first_named(names, wanted@, i as int),
        decreases facts@.len() - i,
    {
        let name = to_lower(facts[i].name.as_str());
        if str_contains(name.as_str(), wanted.as_str()) {
            return Some(i);
        }
        i = i + 1;
    }
    None
}

impl Initializer {
    /// Begins to make devices, given a request, such as one from the
    /// environment, and what is known of the whole system.
    pub fn new(facts: &Vec<AdapterFacts>, request: Option<&str>, system: i32) -> (r: Self)
        ensures
            r@.sound(),
            r@.stage == InitStage::Begun,
            r@.made.len() == 0,
            ({
                let want = preferred(
                    facts@,
                    match request {
                        Some(t) => Some(t@),
                        None => None,
                    },
                );
                match r@.preferred {
                    Some(i) => want == Some(i as int) && i < facts@.len(),
                    None => want is None,
                }
            }),
            ranks(scores_of(facts@, system as int), facts@.len() as int, r@.order),
    {
        let preferred = find_preferred(facts, request);
        let mut scores: Vec<u32> = Vec::new();
        let mut k: usize = 0;
        while k < facts.len()
            invariant
                k <= facts@.len(),
                scores@.len() == k,
                forall|j: int|
                    0 <= j < k ==> (#[trigger] scores@[j]) == scores_of(facts@, system as int)[j],
            decreases facts@.len() - k,
        {
            scores.push(adapter_score(&facts[k], system));
            k = k + 1;
        }
        let order = best_first(&scores);
        assert(numbers(scores@) =~= scores_of(facts@, system as int));
        Initializer { preferred, order, made: Vec::new(), stage: InitStage::Begun }
    }

    fn resume(&mut self, i: usize)
        requires
            i <= old(self)@.order.len(),
        ensures
            final(self)@ == old(self)@.resumed(i as int, old(self)@.made),
            final(self)@.sound(),
    {
        self.stage = if i < self.order.len() {
            InitStage::Ordered(i)
        } else if self.made.len() > 0 {
            InitStage::Ended(true)
        } else {
            InitStage::Fallback
        };
    }

    /// Takes note of what came of the last action, and says what to do next.
    pub fn step(&mut self, ok: bool) -> (r: InitAction)
        requires
            old(self)@.sound(),
        ensures
            final(self)@ == old(self)@.next(ok),
            final(self)@.sound(),
            r == final(self)@.action(),
    {
        let len: usize = self.order.len();
        match self.stage {
            InitStage::Begun => {
                if self.preferred.is_some() {
                    self.stage = InitStage::Preferred;
                } else {
                    self.resume(0);
                }
            },
            InitStage::Preferred => {
                if ok {
                    match self.preferred {
                        Some(p) => {
                            self.made.push(p);
                        },
                        None => {},
                    }
                }
                self.resume(0);
            },
            InitStage::Ordered(i) => {
                if ok {
                    self.made.push(self.order[i]);
                    self.stage = InitStage::Ended(true);
                } else {
                    assert(i < len);
                    self.resume(i + 1);
                }
            },
            InitStage::Fallback => {
                self.stage = InitStage::Ended(ok);
            },
            InitStage::Ended(_) => {},
        }
        match self.stage {
            InitStage::Begun => InitAction::End(false),
            InitStage::Preferred => match self.preferred {
                Some(p) => InitAction::Init(p),
                None => InitAction::End(false),
            },
            InitStage::Ordered(i) => InitAction::Init(self.order[i]),
            InitStage::Fallback => InitAction::InitDefault,
            InitStage::Ended(there) => InitAction::End(there),
        }
    }
}

// ---------------------------------------------------------------------------
// Handing out
// ---------------------------------------------------------------------------
/// The device whose turn it is.
pub open spec fn at_turn(devices: Seq<u64>, turn: int) -> u64 {
    devices[turn % devices.len() as int]
}

/// The devices, by the numbers that the host has for them and the scores of
/// their adapters, and whose turn it is.
pub struct DeviceManager {
    devices: Vec<(u64, u32)>,
    rr: usize,
}

impl DeviceManager {
    /// The devices.
    pub closed spec fn spec_devices(&self) -> Seq<u64> {
        Seq::new(self.devices@.len(), |i: int| self.devices@[i].0)
    }

    /// The scores of the devices' adapters.
    pub closed spec fn spec_scores(&self) -> Seq<u32> {
        Seq::new(self.devices@.len(), |i: int| self.devices@[i].1)
    }

    /// How many turns there have been, counted round.
    pub closed spec fn spec_turn(&self) -> usize {
        self.rr
    }

    /// No devices.
    pub fn new() -> (r: Self)
        ensures
            r.spec_devices().len() == 0,
            r.spec_scores().len() == 0,
            r.spec_turn() == 0,
    {
        DeviceManager { devices: Vec::new(), rr: 0 }
    }

    /// Whether there are no devices, and some have to be made.
    pub fn is_empty(&self) -> (r: bool)
        ensures
            r == (self.spec_devices().len() == 0),
    {
        self.devices.len() == 0
    }

    /// Adds a device, with the score of its adapter.
    pub fn add_device(&mut self, device: u64, score: u32)
        ensures
            final(self).spec_devices() == old(self).spec_devices().push(device),
            final(self).spec_scores() == old(self).spec_scores().push(score),
            final(self).spec_turn() == old(self).spec_turn(),
    {
        self.devices.push((device, score));
        assert(self.spec_devices() =~= old(self).spec_devices().push(device));
        assert(self.spec_scores() =~= old(self).spec_scores().push(score));
    }

    /// The device whose turn it is. The next one has the next turn.
    pub fn get_device_round_robin(&mut self) -> (r: u64)
        requires
            old(self).spec_devices().len() > 0,
        ensures
            r == at_turn(old(self).spec_devices(), old(self).spec_turn() as int),
            final(self).spec_devices() == old(self).spec_devices(),
            final(self).spec_scores() == old(self).spec_scores(),
            final(self).spec_turn() == old(self).spec_turn().wrapping_add(1),
    {
        let i: usize = self.rr % self.devices.len();
        self.rr = self.rr.wrapping_add(1);
        self.devices[i].0
    }

    /// The place of the device with the highest score, the first of them.
    fn best_place(&self) -> (r: usize)
        requires
            self.spec_devices().len() > 0,
        ensures
            r < self.spec_devices().len(),
            first_best(self.spec_scores(), r as int),
    {
        let mut best: usize = 0;
        let mut i: usize = 1;
        while i < self.devices.len()
            invariant
                1 <= i <= self.devices@.len(),
                best < i,
                forall|j: int|
                    0 <= j < best ==> (#[trigger] self.devices@[j]).1 < self.devices@[best as int].1,
                forall|j: int|
                    best < j < i ==> (#[trigger] self.devices@[j]).1 <= self.devices@[best as int].1,
            decreases self.devices@.len() - i,
        {
            if self.devices[i].1 > self.devices[best].1 {
                best = i;
            }
            i = i + 1;
        }
        best
    }

    /// The device that a policy selects: the one whose turn it is, that with
    /// the highest score, or that at a place, counted round.
    pub fn get_device_by_policy(&mut self, policy: DeviceSelectionPolicy) -> (r: u64)
        requires
            old(self).spec_devices().len() > 0,
        ensures
            final(self).spec_devices() == old(self).spec_devices(),
            final(self).spec_scores() == old(self).spec_scores(),
            match policy {
                DeviceSelectionPolicy::RoundRobin => {
                    &&& r == at_turn(old(self).spec_devices(), old(self).spec_turn() as int)
                    &&& final(self).spec_turn() == old(self).spec_turn().wrapping_add(1)
                },
                DeviceSelectionPolicy::BestScore => {
                    &&& exists|i: int| #[trigger]
                        first_best(old(self).spec_scores(), i) && r == old(self).spec_devices()[i]
                    &&& final(self).spec_turn() == old(self).spec_turn()
                },
                DeviceSelectionPolicy::Index(n) => {
                    &&& r == old(self).spec_devices()[n as int
                        % old(self).spec_devices().len() as int]
                    &&& final(self).spec_turn() == old(self).spec_turn()
                },
            },
    {
        match policy {
            DeviceSelectionPolicy::RoundRobin => self.get_device_round_robin(),
            DeviceSelectionPolicy::BestScore => {
                let i: usize = self.best_place();
                self.devices[i].0
            },
            DeviceSelectionPolicy::Index(n) => {
                let i: usize = n % self.devices.len();
                self.devices[i].0
            },
        }
    }
}

// ---------------------------------------------------------------------------
// Laws
// ---------------------------------------------------------------------------
/// The turn so many turns on: turns are counted round.
pub open spec fn turn_after(turn: usize, k: int) -> int {
    (turn + k) % (usize::MAX + 1)
}

/// So many turns as there are devices give each device one turn: whichever
/// place a device has, one of the turns is its turn, and no other. Where the
/// count of turns starts anew meanwhile, this is so if the devices divide it.
pub proof fn law_turns_go_round(devices: Seq<u64>, turn: usize, place: int) -> (turns_on: int)
    requires
        0 <= place < devices.len() <= usize::MAX,
        turn + devices.len() <= usize::MAX + 1 || (usize::MAX + 1) % devices.len() as int == 0,
    ensures
        0 <= turns_on < devices.len(),
        at_turn(devices, turn_after(turn, turns_on)) == devices[place],
        forall|other: int|
            0 <= other < devices.len() && other != turns_on ==> #[trigger] turn_after(turn, other)
                % devices.len() as int != place,
{
    let n = devices.len() as int;
    let at = turn as int % n;
    let turns_on = if place >= at {
        place - at
    } else {
        place - at + n
    };
    let q = turn as int / n;
    vstd::arithmetic::div_mod::lemma_fundamental_div_mod(turn as int, n);
    vstd::arithmetic::div_mod::lemma_mod_bound(turn as int, n);
    assert forall|other: int| 0 <= other < n implies (#[trigger] turn_after(turn, other) % n
        == place <==> other == turns_on) by {
        let sum = at + other;
        if sum < n {
            assert(turn + other == q * n + sum) by (nonlinear_arith)
                requires
                    turn as int == n * q + at,
                    sum == at + other,
            ;
            vstd::arithmetic::div_mod::lemma_fundamental_div_mod_converse(
                turn + other,
                n,
                q,
                sum,
            );
        } else {
            assert(turn + other == (q + 1) * n + (sum - n)) by (nonlinear_arith)
                requires
                    turn as int == n * q + at,
                    sum == at + other,
            ;
            vstd::arithmetic::div_mod::lemma_fundamental_div_mod_converse(
                turn + other,
                n,
                q + 1,
                sum - n,
            );
        }
        lemma_same_place(turn, other, n);
    }
    assert(turn_after(turn, turns_on) % n == place);
    turns_on
}

/// Counting round does not matter to whose turn it is.
proof fn lemma_same_place(turn: usize, k: int, n: int)
    requires
        0 <= k < n <= usize::MAX,
        turn + k <= usize::MAX || (usize::MAX + 1) % n == 0,
    ensures
        turn_after(turn, k) % n == (turn + k) % n,
{
    let all = usize::MAX + 1;
    if turn + k <= usize::MAX {
        vstd::arithmetic::div_mod::lemma_small_mod((turn + k) as nat, all as nat);
    } else {
        let past = turn + k - all;
        vstd::arithmetic::div_mod::lemma_fundamental_div_mod_converse(turn + k, all, 1, past);
        let c = all / n;
        vstd::arithmetic::div_mod::lemma_fundamental_div_mod(all, n);
        assert(turn + k == past + n * c);
        vstd::arithmetic::div_mod::lemma_mod_multiples_vanish(c, past, n);
    }
}

/// What remains to be tried.
spec fn tries_left(v: InitView) -> int {
    match v.stage {
        InitStage::Begun => v.order.len() as int + 3,
        InitStage::Preferred => v.order.len() as int + 2,
        InitStage::Ordered(i) => v.order.len() - i + 1,
        InitStage::Fallback => 1,
        InitStage::Ended(_) => 0,
    }
}

/// The parts after the given outcomes.
pub open spec fn init_after(v: InitView, outcomes: Seq<bool>) -> InitView
    decreases outcomes.len(),
{
    if outcomes.len() == 0 {
        v
    } else {
        init_after(v.next(outcomes[0]), outcomes.drop_first())
    }
}

/// Making devices comes to an end: after at most three actions more than there
/// are adapters it is over, whatever succeeded.
pub proof fn law_initialising_ends(v: InitView, outcomes: Seq<bool>)
    requires
        v.sound(),
        v.order.len() < usize::MAX,
        outcomes.len() >= v.order.len() + 3,
    ensures
        init_after(v, outcomes).stage is Ended,
{
    lemma_init_ends(v, outcomes);
}

proof fn lemma_init_ends(v: InitView, outcomes: Seq<bool>)
    requires
        v.sound(),
        v.order.len() < usize::MAX,
        outcomes.len() >= tries_left(v),
    ensures
        init_after(v, outcomes).stage is Ended,
    decreases outcomes.len(),
{
    if outcomes.len() > 0 {
        lemma_init_ends(v.next(outcomes[0]), outcomes.drop_first());
    }
}

/// Whether devices were made of the preferred adapter and of those in the
/// order alone.
pub open spec fn made_of_known(v: InitView) -> bool {
    forall|i: int|
        0 <= i < v.made.len() ==> v.preferred == Some(#[trigger] v.made[i]) || v.order.contains(
            v.made[i],
        )
}

/// Devices are made of no more than two adapters, of the preferred one and of
/// those in the order alone; where initialising ends well with none, the
/// system has offered one.
pub proof fn law_few_devices_are_made(v: InitView, outcomes: Seq<bool>)
    requires
        v.sound(),
        v.order.len() < usize::MAX,
        v.stage == InitStage::Begun,
        v.made.len() == 0,
    ensures
        init_after(v, outcomes).made.len() <= 2,
        made_of_known(init_after(v, outcomes)),
        init_after(v, outcomes).stage == InitStage::Ended(true) && init_after(
            v,
            outcomes,
        ).made.len() == 0 ==> exists|k: int|
            0 <= k < outcomes.len() && #[trigger] outcomes[k] && init_after(
                v,
                outcomes.take(k),
            ).stage == InitStage::Fallback,
{
    lemma_made(v, outcomes);
}

proof fn lemma_made(v: InitView, outcomes: Seq<bool>)
    requires
        v.sound(),
        v.order.len() < usize::MAX,
        made_of_known(v),
        v.made.len() <= (match v.stage {
            InitStage::Begun => 0nat,
            InitStage::Preferred => 0,
            InitStage::Ordered(_) => 1,
            InitStage::Fallback => 0,
            InitStage::Ended(_) => 2,
        }),
        v.stage == InitStage::Ended(true) ==> v.made.len() > 0,
    ensures
        init_after(v, outcomes).made.len() <= 2,
        made_of_known(init_after(v, outcomes)),
        init_after(v, outcomes).stage == InitStage::Ended(true) && init_after(
            v,
            outcomes,
        ).made.len() == 0 ==> exists|k: int|
            0 <= k < outcomes.len() && #[trigger] outcomes[k] && init_after(
                v,
                outcomes.take(k),
            ).stage == InitStage::Fallback,
    decreases outcomes.len(),
{
    if outcomes.len() > 0 {
        let next = v.next(outcomes[0]);
        let rest = outcomes.drop_first();
        assert(outcomes.take(0).len() == 0);
        if v.stage == InitStage::Fallback && outcomes[0] {
            lemma_ended(next, rest);
            assert(init_after(v, outcomes.take(0)).stage == InitStage::Fallback);
        } else {
            lemma_made(next, rest);
            let end = init_after(v, outcomes);
            if end.stage == InitStage::Ended(true) && end.made.len() == 0 {
                let k = choose|k: int|
                    0 <= k < rest.len() && #[trigger] rest[k] && init_after(
                        next,
                        rest.take(k),
                    ).stage == InitStage::Fallback;
                assert(outcomes.take(k + 1).drop_first() =~= rest.take(k));
                assert(outcomes[k + 1]);
                assert(init_after(v, outcomes.take(k + 1)).stage == InitStage::Fallback);
            }
        }
    }
}

proof fn lemma_ended(v: InitView, outcomes: Seq<bool>)
    requires
        v.stage is Ended,
    ensures
        init_after(v, outcomes) == v,
    decreases outcomes.len(),
{
    if outcomes.len() > 0 {
        lemma_ended(v, outcomes.drop_first());
    }
}

} // verus!
