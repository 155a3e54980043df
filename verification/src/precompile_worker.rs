//! Compiling kernels ahead of their use: who waits, who runs, and what each
//! task does next. A host moves the tasks; this decides.

use vstd::prelude::*;

verus! {

/// How many tasks fit in the channel to the worker.
pub const QUEUE_CAPACITY: usize = 64;

// ---------------------------------------------------------------------------
// Cancellation
// ---------------------------------------------------------------------------
/// Whether the token with a number has been called off.
pub open spec fn off(states: Seq<bool>, number: nat) -> bool {
    number < states.len() && states[number as int]
}

/// What may happen to the states of tokens.
pub enum CancelStep {
    /// A token is made.
    New,
    /// A token, or a copy of it, is called off.
    Cancel { number: nat },
    /// The tokens of a handle are called off.
    CancelAll { numbers: Set<nat> },
}

/// The states after a step.
pub open spec fn after_cancel_step(states: Seq<bool>, step: CancelStep) -> Seq<bool> {
    match step {
        CancelStep::New => states.push(false),
        CancelStep::Cancel { number } => if number < states.len() {
            states.update(number as int, true)
        } else {
            states
        },
        CancelStep::CancelAll { numbers } => Seq::new(
            states.len(),
            |i: int| states[i] || numbers.contains(i as nat),
        ),
    }
}

/// What has been called off: the state that all copies of a token share, for
/// every token that there is.
pub struct CancelStates {
    states: Vec<bool>,
}

impl View for CancelStates {
    type V = Seq<bool>;

    closed spec fn view(&self) -> Seq<bool> {
        self.states@
    }
}

impl CancelStates {
    /// No tokens yet.
    pub fn new() -> (r: Self)
        ensures
            r@ == Seq::<bool>::empty(),
    {
        CancelStates { states: Vec::new() }
    }
}

/// A token by which something is called off. Its copies are one token: they
/// share its state, which is kept among the [`CancelStates`] that the token was
/// made with.
#[derive(Clone, Copy, Debug, PartialEq, Eq, Hash, Structural)]
pub struct CancellationToken {
    number: usize,
}

impl View for CancellationToken {
    type V = nat;

    closed spec fn view(&self) -> nat {
        self.number as nat
    }
}

impl CancellationToken {
    /// A token unlike any other, not called off.
    pub fn new(states: &mut CancelStates) -> (r: Self)
        ensures
            r@ == old(states)@.len(),
            final(states)@ == after_cancel_step(old(states)@, CancelStep::New),
    {
        let number: usize = states.states.len();
        states.states.push(false);
        CancellationToken { number }
    }

    /// Calls it off, and with it all its copies. Tells whether those who wait
    /// are to be woken, which is so the first time only.
    pub fn cancel(&self, states: &mut CancelStates) -> (r: bool)
        requires
            self@ < old(states)@.len(),
        ensures
            final(states)@ == after_cancel_step(
                old(states)@,
                (CancelStep::Cancel { number: self@ }),
            ),
            r == !off(old(states)@, self@),
    {
        let first = !states.states[self.number];
        states.states.set(self.number, true);
        first
    }

    /// Whether it, or a copy of it, has been called off.
    pub fn is_cancelled(&self, states: &CancelStates) -> (r: bool)
        requires
            self@ < states@.len(),
        ensures
            r == off(states@, self@),
    {
        states.states[self.number]
    }
}

/// Tokens to be called off together.
pub struct CancelHandle {
    tokens: Vec<CancellationToken>,
}

impl CancelHandle {
    /// Whether a token is registered.
    pub closed spec fn registered(&self, number: nat) -> bool {
        exists|i: int| 0 <= i < self.tokens@.len() && (#[trigger] self.tokens@[i])@ == number
    }

    /// The registered tokens.
    pub open spec fn numbers(&self) -> Set<nat> {
        Set::new(|number: nat| self.registered(number))
    }

    /// No tokens.
    pub fn new() -> (r: Self)
        ensures
            forall|number: nat| !#[trigger] r.registered(number),
    {
        CancelHandle { tokens: Vec::new() }
    }

    /// Registers a token. One that is registered already stays so.
    pub fn register(&mut self, token: &CancellationToken)
        ensures
            forall|number: nat| #[trigger]
                final(self).registered(number) <==> old(self).registered(number) || number
                    == token@,
            final(self).numbers() == old(self).numbers().insert(token@),
    {
        let ghost before = self.tokens@;
        let mut i: usize = 0;
        while i < self.tokens.len() && self.tokens[i].number != token.number
            invariant
                i <= self.tokens@.len(),
                self.tokens@ == before,
            decreases self.tokens@.len() - i,
        {
            i = i + 1;
        }
        if i == self.tokens.len() {
            self.tokens.push(*token);
        }
        proof {
            let after = self.tokens@;
            assert(after[i as int]@ == token@);
            assert(forall|j: int| 0 <= j < before.len() ==> #[trigger] after[j] == before[j]);
            assert forall|number: nat| #[trigger]
                self.registered(number) <==> old(self).registered(number) || number == token@ by {
                if self.registered(number) && number != token@ {
                    let j = choose|j: int|
                        0 <= j < after.len() && (#[trigger] after[j])@ == number;
                    assert(before[j]@ == number);
                }
                if old(self).registered(number) {
                    let j = choose|j: int|
                        0 <= j < before.len() && (#[trigger] before[j])@ == number;
                    assert(after[j]@ == number);
                }
            }
            assert(self.numbers() =~= old(self).numbers().insert(token@));
        }
    }

    /// Calls all registered tokens off, and no other. Returns those that were
    /// not called off before, each once, for those who wait to be woken.
    pub fn cancel_all(&self, states: &mut CancelStates) -> (r: Vec<CancellationToken>)
        requires
            forall|number: nat| #[trigger]
                self.registered(number) ==> number < old(states)@.len(),
        ensures
            final(states)@ == after_cancel_step(
                old(states)@,
                (CancelStep::CancelAll { numbers: self.numbers() }),
            ),
            forall|t: CancellationToken| #[trigger]
                r@.contains(t) <==> self.registered(t@) && !off(old(states)@, t@),
            r@.no_duplicates(),
    {
        let ghost tokens = self.tokens@;
        let ghost before = states@;
        assert forall|j: int| 0 <= j < tokens.len() implies (#[trigger] tokens[j])@
            < before.len() by {
            assert(self.registered(tokens[j]@));
        }
        let mut woken: Vec<CancellationToken> = Vec::new();
        let mut i: usize = 0;
        while i < self.tokens.len()
            invariant
                i <= tokens.len(),
                tokens == self.tokens@,
                states@.len() == before.len(),
                forall|j: int| 0 <= j < tokens.len() ==> (#[trigger] tokens[j])@ < before.len(),
                forall|number: nat| #[trigger]
                    off(states@, number) <==> off(before, number) || among(tokens, i as int, number),
                forall|t: CancellationToken| #[trigger]
                    woken@.contains(t) <==> among(tokens, i as int, t@) && !off(before, t@),
                woken@.no_duplicates(),
            decreases tokens.len() - i,
        {
            let ghost held = woken@;
            let ghost now = states@;
            let token = self.tokens[i];
            if token.cancel(states) {
                woken.push(token);
            }
            proof {
                assert(off(now, token@) <==> off(before, token@) || among(
                    tokens,
                    i as int,
                    token@,
                ));
                assert forall|number: nat| among(tokens, i + 1, number) <==> among(
                    tokens,
                    i as int,
                    number,
                ) || number == token@ by {
                    lemma_among(tokens, i as int, number);
                }
                assert forall|number: nat| #[trigger]
                    off(states@, number) <==> off(before, number) || among(
                        tokens,
                        i + 1,
                        number,
                    ) by {
                    assert(off(states@, number) <==> off(now, number) || number == token@);
                }
                assert forall|t: CancellationToken| #[trigger]
                    woken@.contains(t) <==> among(tokens, i + 1, t@) && !off(before, t@) by {
                    lemma_woken(held, woken@, token, t);
                    assert(t@ == token@ ==> t == token);
                }
                assert(woken@.no_duplicates()) by {
                    if woken@.len() > held.len() {
                        assert(!held.contains(token));
                        assert(woken@ =~= held.push(token));
                    }
                }
            }
            i = i + 1;
        }
        assert forall|number: nat| self.registered(number) == among(
            tokens,
            tokens.len() as int,
            number,
        ) by {}
        proof {
            let after = after_cancel_step(
                before,
                CancelStep::CancelAll { numbers: self.numbers() },
            );
            assert forall|i: int| 0 <= i < before.len() implies states@[i] == after[i] by {
                let number = i as nat;
                assert(off(states@, number) <==> off(before, number) || self.registered(number));
            }
            assert(states@ =~= after);
        }
        woken
    }
}

/// Whether a token is among the first `n`.
spec fn among(tokens: Seq<CancellationToken>, n: int, number: nat) -> bool {
    exists|i: int| 0 <= i < n && i < tokens.len() && (#[trigger] tokens[i])@ == number
}

proof fn lemma_among(tokens: Seq<CancellationToken>, n: int, number: nat)
    requires
        0 <= n < tokens.len(),
    ensures
        among(tokens, n + 1, number) <==> among(tokens, n, number) || number == tokens[n]@,
{
    if among(tokens, n, number) {
        let i = choose|i: int| 0 <= i < n && i < tokens.len() && (#[trigger] tokens[i])@ == number;
        assert(tokens[i]@ == number);
    }
}

proof fn lemma_woken(
    held: Seq<CancellationToken>,
    woken: Seq<CancellationToken>,
    token: CancellationToken,
    t: CancellationToken,
)
    requires
        woken == held || woken == held.push(token),
    ensures
        woken == held ==> (woken.contains(t) <==> held.contains(t)),
        woken == held.push(token) ==> (woken.contains(t) <==> held.contains(t) || t == token),
{
    if woken == held.push(token) {
        assert(woken[held.len() as int] == token);
        if held.contains(t) {
            let i = choose|i: int| 0 <= i < held.len() && held[i] == t;
            assert(woken[i] == t);
        }
        if woken.contains(t) && t != token {
            let i = choose|i: int| 0 <= i < woken.len() && woken[i] == t;
            assert(held[i] == t);
        }
    }
}

// ---------------------------------------------------------------------------
// Tasks
// ---------------------------------------------------------------------------
/// A kernel to compile.
#[derive(Debug)]
pub struct CompileTask {
    pub fingerprint: String,
    pub source: Vec<u8>,
    /// The token by which the task is called off.
    pub cancel: CancellationToken,
    /// Whether someone waits to hear that compiling has started.
    pub started: bool,
}

impl Clone for CompileTask {
    fn clone(&self) -> (r: Self)
        ensures
            r.fingerprint@ == self.fingerprint@,
            r.source@ == self.source@,
            r.cancel == self.cancel,
            r.started == self.started,
    {
        let source = self.source.clone();
        assert(source@ =~= self.source@);
        CompileTask {
            fingerprint: self.fingerprint.as_str().to_owned(),
            source,
            cancel: self.cancel,
            started: self.started,
        }
    }
}

impl CompileTask {
    /// A task whose start is told, and a copy of its token.
    pub fn with_started(fingerprint: String, source: Vec<u8>, states: &mut CancelStates) -> (r: (
        Self,
        CancellationToken,
    ))
        ensures
            r.0 == (CompileTask { fingerprint, source, cancel: r.1, started: true }),
            r.1@ == old(states)@.len(),
            final(states)@ == after_cancel_step(old(states)@, CancelStep::New),
    {
        let token = CancellationToken::new(states);
        (CompileTask { fingerprint, source, cancel: token, started: true }, token)
    }
}

/// An event that a profiler hears of.
#[derive(Clone, Copy, Debug, PartialEq, Eq, Structural)]
pub enum CompileEvent {
    Start,
    Cancelled,
    Done,
}

impl CompileEvent {
    /// The name of an event.
    pub open spec fn text(self) -> Seq<char> {
        match self {
            CompileEvent::Start => "compile_start"@,
            CompileEvent::Cancelled => "compile_cancelled"@,
            CompileEvent::Done => "compile_done"@,
        }
    }

    /// The name of the event.
    pub fn name(&self) -> (r: &'static str)
        ensures
            r@ == self.text(),
    {
        match *self {
            CompileEvent::Start => "compile_start",
            CompileEvent::Cancelled => "compile_cancelled",
            CompileEvent::Done => "compile_done",
        }
    }
}

/// What a host is to do for a task, in order.
#[derive(Clone, Copy, Debug, PartialEq, Eq, Structural)]
pub enum TaskAction {
    /// Tell the profiler, if there is one.
    Record(CompileEvent),
    /// Tell whoever waits for the start.
    SignalStarted,
    /// Compile until that is done or the token is called off; where both are
    /// so at once, the token counts.
    Race,
    /// Write what was compiled to the cache.
    Write,
    /// Answer whoever submitted the task.
    Respond(TaskOutcome),
    /// Give back the place of a running task.
    Release,
}

/// What became of a task.
#[derive(Clone, Copy, Debug, PartialEq, Eq, Structural)]
pub enum TaskOutcome {
    Done,
    Cancelled,
    CompileFailed,
    WriteFailed,
}

/// Where a task stands.
#[derive(Clone, Copy, Debug, PartialEq, Eq, Structural)]
pub enum TaskStage {
    Admitted,
    Racing,
    Writing,
    Ended(TaskOutcome),
}

/// What a host reports of a task.
#[derive(Clone, Copy, Debug, PartialEq, Eq, Structural)]
pub enum TaskReport {
    /// The task runs.
    Running,
    /// The race was over: whether the token had been called off, and whether
    /// what was compiled is there.
    Raced { cancelled: bool, compiled: bool },
    /// The cache has what was compiled, or has not.
    Written { ok: bool },
}

/// What becomes of a task's stage.
pub open spec fn next_task_stage(stage: TaskStage, report: TaskReport) -> TaskStage {
    match (stage, report) {
        (TaskStage::Admitted, TaskReport::Running) => TaskStage::Racing,
        (TaskStage::Racing, TaskReport::Raced { cancelled, compiled }) => if cancelled {
            TaskStage::Ended(TaskOutcome::Cancelled)
        } else if compiled {
            TaskStage::Writing
        } else {
            TaskStage::Ended(TaskOutcome::CompileFailed)
        },
        (TaskStage::Writing, TaskReport::Written { ok }) => TaskStage::Ended(
            if ok {
                TaskOutcome::Done
            } else {
                TaskOutcome::WriteFailed
            },
        ),
        _ => stage,
    }
}

/// What to do when a task reaches a stage: a task that ends is told of first,
/// then answered, then gives back its place.
pub open spec fn stage_actions(stage: TaskStage, started: bool) -> Seq<TaskAction> {
    match stage {
        TaskStage::Admitted => Seq::empty(),
        TaskStage::Racing => if started {
            seq![
                TaskAction::Record(CompileEvent::Start),
                TaskAction::SignalStarted,
                TaskAction::Race,
            ]
        } else {
            seq![TaskAction::Record(CompileEvent::Start), TaskAction::Race]
        },
        TaskStage::Writing => seq![TaskAction::Write],
        TaskStage::Ended(outcome) => match outcome {
            TaskOutcome::Done => seq![
                TaskAction::Record(CompileEvent::Done),
                TaskAction::Respond(outcome),
                TaskAction::Release,
            ],
            TaskOutcome::Cancelled => seq![
                TaskAction::Record(CompileEvent::Cancelled),
                TaskAction::Respond(outcome),
                TaskAction::Release,
            ],
            _ => seq![TaskAction::Respond(outcome), TaskAction::Release],
        },
    }
}

/// What to do for a task after a report: nothing where the report does not
/// belong to the stage.
pub open spec fn task_actions(stage: TaskStage, report: TaskReport, started: bool) -> Seq<
    TaskAction,
> {
    if next_task_stage(stage, report) == stage {
        Seq::empty()
    } else {
        stage_actions(next_task_stage(stage, report), started)
    }
}

/// Takes note of a report on a task, and says what to do for it.
pub fn advance_task(stage: TaskStage, report: TaskReport, started: bool) -> (r: (
    TaskStage,
    Vec<TaskAction>,
))
    ensures
        r.0 == next_task_stage(stage, report),
        r.1@ == task_actions(stage, report, started),
{
    let next: TaskStage = match (stage, report) {
        (TaskStage::Admitted, TaskReport::Running) => TaskStage::Racing,
        (TaskStage::Racing, TaskReport::Raced { cancelled, compiled }) => if cancelled {
            TaskStage::Ended(TaskOutcome::Cancelled)
        } else if compiled {
            TaskStage::Writing
        } else {
            TaskStage::Ended(TaskOutcome::CompileFailed)
        },
        (TaskStage::Writing, TaskReport::Written { ok }) => TaskStage::Ended(
            if ok {
                TaskOutcome::Done
            } else {
                TaskOutcome::WriteFailed
            },
        ),
        _ => stage,
    };
    let mut actions: Vec<TaskAction> = Vec::new();
    if next != stage {
        match next {
            TaskStage::Admitted => {},
            TaskStage::Racing => {
                actions.push(TaskAction::Record(CompileEvent::Start));
                if started {
                    actions.push(TaskAction::SignalStarted);
                }
                actions.push(TaskAction::Race);
            },
            TaskStage::Writing => {
                actions.push(TaskAction::Write);
            },
            TaskStage::Ended(outcome) => {
                match outcome {
                    TaskOutcome::Done => {
                        actions.push(TaskAction::Record(CompileEvent::Done));
                    },
                    TaskOutcome::Cancelled => {
                        actions.push(TaskAction::Record(CompileEvent::Cancelled));
                    },
                    _ => {},
                }
                actions.push(TaskAction::Respond(outcome));
                actions.push(TaskAction::Release);
            },
        }
    }
    assert(actions@ =~= task_actions(stage, report, started));
    (next, actions)
}

// ---------------------------------------------------------------------------
// The service
// ---------------------------------------------------------------------------
/// How many tasks wait and how many run. A task is submitted, taken from the
/// queue, begun once there is a place for it, and finished.
pub struct PrecompileService {
    limit: usize,
    queue_len: usize,
    waiting: usize,
    in_flight: usize,
    submitted: Ghost<nat>,
    finished: Ghost<nat>,
    open: bool,
}

/// A [`PrecompileService`] in numbers.
pub struct ServiceView {
    /// How many tasks may run at once.
    pub limit: nat,
    /// Submitted, and not taken from the queue yet.
    pub queue_len: nat,
    /// Taken from the queue, and not begun yet: none or one.
    pub waiting: nat,
    /// Running.
    pub in_flight: nat,
    /// All that were submitted.
    pub submitted: nat,
    /// All that were finished.
    pub finished: nat,
    /// Whether tasks are still accepted.
    pub open: bool,
}

impl ServiceView {
    /// Every task that was submitted waits, runs or is finished, and no more
    /// run than may.
    pub open spec fn sound(self) -> bool {
        &&& self.in_flight <= self.limit
        &&& self.waiting <= 1
        &&& self.submitted == self.queue_len + self.waiting + self.in_flight + self.finished
    }

    /// Whether a task can be taken from the queue.
    pub open spec fn can_take(self) -> bool {
        self.queue_len > 0 && self.waiting == 0
    }

    /// Whether the task that was taken can run.
    pub open spec fn can_begin(self) -> bool {
        self.waiting == 1 && self.in_flight < self.limit
    }

    /// Whether a task can finish.
    pub open spec fn can_finish(self) -> bool {
        self.in_flight > 0
    }

    /// With one task more in the queue.
    pub open spec fn after_submit(self) -> ServiceView {
        ServiceView { queue_len: self.queue_len + 1, submitted: self.submitted + 1, ..self }
    }

    /// With a task taken from the queue.
    pub open spec fn after_take(self) -> ServiceView {
        ServiceView { queue_len: (self.queue_len - 1) as nat, waiting: 1, ..self }
    }

    /// With the task that was taken running.
    pub open spec fn after_begin(self) -> ServiceView {
        ServiceView { waiting: 0, in_flight: self.in_flight + 1, ..self }
    }

    /// With a running task finished.
    pub open spec fn after_finish(self) -> ServiceView {
        ServiceView {
            in_flight: (self.in_flight - 1) as nat,
            finished: self.finished + 1,
            ..self
        }
    }
}

impl View for PrecompileService {
    type V = ServiceView;

    closed spec fn view(&self) -> ServiceView {
        ServiceView {
            limit: self.limit as nat,
            queue_len: self.queue_len as nat,
            waiting: self.waiting as nat,
            in_flight: self.in_flight as nat,
            submitted: self.submitted@,
            finished: self.finished@,
            open: self.open,
        }
    }
}

impl PrecompileService {
    #[verifier::type_invariant]
    spec fn sound(self) -> bool {
        self@.sound()
    }

    /// A service on which `concurrency_limit` tasks may run at once.
    pub fn new(concurrency_limit: usize) -> (r: Self)
        ensures
            r@ == (ServiceView {
                limit: concurrency_limit as nat,
                queue_len: 0,
                waiting: 0,
                in_flight: 0,
                submitted: 0,
                finished: 0,
                open: true,
            }),
    {
        PrecompileService {
            limit: concurrency_limit,
            queue_len: 0,
            waiting: 0,
            in_flight: 0,
            submitted: Ghost(0),
            finished: Ghost(0),
            open: true,
        }
    }

    /// Counts a task that is about to be sent. Tells whether it may be: after
    /// a shutdown none may.
    pub fn submit(&mut self) -> (r: bool)
        requires
            old(self)@.queue_len < usize::MAX,
        ensures
            r == old(self)@.open,
            final(self)@ == if r {
                old(self)@.after_submit()
            } else {
                old(self)@
            },
            final(self)@.sound(),
    {
        proof {
            use_type_invariant(&*self);
        }
        if self.open {
            *self = PrecompileService {
                limit: self.limit,
                queue_len: self.queue_len + 1,
                waiting: self.waiting,
                in_flight: self.in_flight,
                submitted: Ghost(self.submitted@ + 1),
                finished: Ghost(self.finished@),
                open: true,
            };
            true
        } else {
            false
        }
    }

    /// Takes the next task from the queue, unless one waits for a place
    /// already or there is none.
    pub fn take(&mut self) -> (r: bool)
        ensures
            r == old(self)@.can_take(),
            final(self)@ == if r {
                old(self)@.after_take()
            } else {
                old(self)@
            },
            final(self)@.sound(),
    {
        proof {
            use_type_invariant(&*self);
        }
        if self.queue_len > 0 && self.waiting == 0 {
            *self = PrecompileService {
                limit: self.limit,
                queue_len: self.queue_len - 1,
                waiting: 1,
                in_flight: self.in_flight,
                submitted: Ghost(self.submitted@),
                finished: Ghost(self.finished@),
                open: self.open,
            };
            true
        } else {
            false
        }
    }

    /// Lets the task that waits run, if there is one and there is a place for
    /// it.
    pub fn begin(&mut self) -> (r: bool)
        ensures
            r == old(self)@.can_begin(),
            final(self)@ == if r {
                old(self)@.after_begin()
            } else {
                old(self)@
            },
            final(self)@.sound(),
    {
        proof {
            use_type_invariant(&*self);
        }
        if self.waiting == 1 && self.in_flight < self.limit {
            *self = PrecompileService {
                limit: self.limit,
                queue_len: self.queue_len,
                waiting: 0,
                in_flight: self.in_flight + 1,
                submitted: Ghost(self.submitted@),
                finished: Ghost(self.finished@),
                open: self.open,
            };
            true
        } else {
            false
        }
    }

    /// Counts a running task as finished, and frees its place, if there is
    /// one.
    pub fn finish(&mut self) -> (r: bool)
        ensures
            r == old(self)@.can_finish(),
            final(self)@ == if r {
                old(self)@.after_finish()
            } else {
                old(self)@
            },
            final(self)@.sound(),
    {
        proof {
            use_type_invariant(&*self);
        }
        if self.in_flight > 0 {
            *self = PrecompileService {
                limit: self.limit,
                queue_len: self.queue_len,
                waiting: self.waiting,
                in_flight: self.in_flight - 1,
                submitted: Ghost(self.submitted@),
                finished: Ghost(self.finished@ + 1),
                open: self.open,
            };
            true
        } else {
            false
        }
    }

    /// Accepts no more tasks. Those that were submitted are still worked off.
    pub fn shutdown(&mut self)
        ensures
            final(self)@ == (ServiceView { open: false, ..old(self)@ }),
            final(self)@.sound(),
    {
        proof {
            use_type_invariant(&*self);
        }
        self.open = false;
    }

    /// Whether the worker is through: nothing is accepted, waits or runs.
    pub fn is_idle(&self) -> (r: bool)
        ensures
            r == (!self@.open && self@.submitted == self@.finished),
    {
        proof {
            use_type_invariant(self);
        }
        !self.open && self.queue_len == 0 && self.waiting == 0 && self.in_flight == 0
    }

    /// How many tasks wait in the queue, and how many run.
    pub fn metrics_snapshot(&self) -> (r: (usize, usize))
        ensures
            r.0 == self@.queue_len,
            r.1 == self@.in_flight,
    {
        (self.queue_len, self.in_flight)
    }
}

/// Why a task that was submitted came to nothing.
#[derive(Clone, Copy, Debug, PartialEq, Eq, Structural)]
pub enum SubmitError {
    /// It could not be sent.
    Send,
    /// No answer came.
    Response,
    /// The answer was that it came to nothing.
    Task(TaskOutcome),
}

impl SubmitError {
    /// The text for an error; `None` where it is that of the compiler or of
    /// the cache.
    pub open spec fn text(self) -> Option<Seq<char>> {
        match self {
            SubmitError::Send => Some("send task"@),
            SubmitError::Response => Some("await response"@),
            SubmitError::Task(TaskOutcome::Cancelled) => Some("cancelled"@),
            SubmitError::Task(_) => None,
        }
    }

    /// Says what is wrong; `None` where the compiler or the cache has said so.
    pub fn message(&self) -> (r: Option<&'static str>)
        ensures
            match r {
                Some(m) => self.text() == Some(m@),
                None => self.text() is None,
            },
    {
        match *self {
            SubmitError::Send => Some("send task"),
            SubmitError::Response => Some("await response"),
            SubmitError::Task(outcome) => match outcome {
                TaskOutcome::Cancelled => Some("cancelled"),
                _ => None,
            },
        }
    }
}

/// What submitting a task came to: whether it was sent, and the answer.
pub open spec fn submitted(sent: bool, answer: Option<TaskOutcome>) -> Result<(), SubmitError> {
    if !sent {
        Err(SubmitError::Send)
    } else {
        match answer {
            None => Err(SubmitError::Response),
            Some(TaskOutcome::Done) => Ok(()),
            Some(outcome) => Err(SubmitError::Task(outcome)),
        }
    }
}

/// What submitting a task came to.
pub fn submit_result(sent: bool, answer: Option<TaskOutcome>) -> (r: Result<(), SubmitError>)
    ensures
        r == submitted(sent, answer),
{
    if !sent {
        Err(SubmitError::Send)
    } else {
        match answer {
            None => Err(SubmitError::Response),
            Some(outcome) => match outcome {
                TaskOutcome::Done => Ok(()),
                _ => Err(SubmitError::Task(outcome)),
            },
        }
    }
}

// ---------------------------------------------------------------------------
// Laws
// ---------------------------------------------------------------------------
/// All that is done for a task on which the reports come in.
pub open spec fn task_history(stage: TaskStage, reports: Seq<TaskReport>, started: bool) -> Seq<
    TaskAction,
>
    decreases reports.len(),
{
    if reports.len() == 0 {
        Seq::empty()
    } else {
        task_actions(stage, reports[0], started) + task_history(
            next_task_stage(stage, reports[0]),
            reports.drop_first(),
            started,
        )
    }
}

/// Where the reports leave a task.
pub open spec fn task_after(stage: TaskStage, reports: Seq<TaskReport>) -> TaskStage
    decreases reports.len(),
{
    if reports.len() == 0 {
        stage
    } else {
        task_after(next_task_stage(stage, reports[0]), reports.drop_first())
    }
}

/// How often an action occurs.
pub open spec fn times(actions: Seq<TaskAction>, a: TaskAction) -> nat
    decreases actions.len(),
{
    if actions.len() == 0 {
        0
    } else {
        times(actions.drop_last(), a) + if actions.last() == a {
            1nat
        } else {
            0
        }
    }
}

proof fn lemma_times_concat(x: Seq<TaskAction>, y: Seq<TaskAction>, a: TaskAction)
    ensures
        times(x + y, a) == times(x, a) + times(y, a),
    decreases y.len(),
{
    if y.len() == 0 {
        assert(x + y =~= x);
    } else {
        assert((x + y).drop_last() =~= x + y.drop_last());
        lemma_times_concat(x, y.drop_last(), a);
    }
}

proof fn lemma_times_step(stage: TaskStage, report: TaskReport, started: bool, a: TaskAction)
    ensures
        times(task_actions(stage, report, started), a) == action_count(
            stage,
            next_task_stage(stage, report),
            started,
            a,
        ),
{
    reveal_with_fuel(times, 4);
    let s = task_actions(stage, report, started);
    if s.len() > 0 {
        assert(s.drop_last().len() == s.len() - 1);
        if s.len() > 1 {
            assert(s.drop_last().drop_last().len() == s.len() - 2);
        }
    }
}

/// How often an action is among those of reaching a stage from another.
spec fn action_count(from: TaskStage, to: TaskStage, started: bool, a: TaskAction) -> nat {
    if from == to {
        0
    } else {
        match to {
            TaskStage::Admitted => 0,
            TaskStage::Racing => if a == TaskAction::Race || a == TaskAction::Record(
                CompileEvent::Start,
            ) || (started && a == TaskAction::SignalStarted) {
                1
            } else {
                0
            },
            TaskStage::Writing => if a == TaskAction::Write {
                1
            } else {
                0
            },
            TaskStage::Ended(outcome) => if a == TaskAction::Release || a == TaskAction::Respond(
                outcome,
            ) || (outcome == TaskOutcome::Done && a == TaskAction::Record(CompileEvent::Done)) || (
            outcome == TaskOutcome::Cancelled && a == TaskAction::Record(
                CompileEvent::Cancelled,
            )) {
                1
            } else {
                0
            },
        }
    }
}

/// How often an action is done for a task that starts at a stage and ends with
/// an outcome.
spec fn total_count(
    stage: TaskStage,
    outcome: TaskOutcome,
    started: bool,
    a: TaskAction,
) -> nat {
    match stage {
        TaskStage::Ended(_) => 0,
        TaskStage::Writing => action_count(stage, TaskStage::Ended(outcome), started, a),
        TaskStage::Racing => total_count_from_race(outcome, started, a),
        TaskStage::Admitted => total_count_from_race(outcome, started, a) + action_count(
            stage,
            TaskStage::Racing,
            started,
            a,
        ),
    }
}

spec fn total_count_from_race(outcome: TaskOutcome, started: bool, a: TaskAction) -> nat {
    action_count(TaskStage::Racing, TaskStage::Ended(outcome), started, a) + if (outcome
        == TaskOutcome::Done || outcome == TaskOutcome::WriteFailed) && a == TaskAction::Write {
        1nat
    } else {
        0
    }
}

proof fn lemma_history(
    stage: TaskStage,
    reports: Seq<TaskReport>,
    started: bool,
    outcome: TaskOutcome,
    a: TaskAction,
)
    requires
        task_after(stage, reports) == TaskStage::Ended(outcome),
    ensures
        times(task_history(stage, reports, started), a) == total_count(stage, outcome, started, a),
        stage == TaskStage::Writing ==> outcome == TaskOutcome::Done || outcome
            == TaskOutcome::WriteFailed,
        stage matches TaskStage::Ended(o) ==> o == outcome,
    decreases reports.len(),
{
    if reports.len() > 0 {
        let next = next_task_stage(stage, reports[0]);
        lemma_history(next, reports.drop_first(), started, outcome, a);
        lemma_times_step(stage, reports[0], started, a);
        lemma_times_concat(
            task_actions(stage, reports[0], started),
            task_history(next, reports.drop_first(), started),
            a,
        );
    }
}

/// Whatever reports come in on a task until it ends, it has been answered
/// once, with its outcome, and has given its place back once.
pub proof fn law_every_task_is_answered_once(
    reports: Seq<TaskReport>,
    started: bool,
    outcome: TaskOutcome,
)
    requires
        task_after(TaskStage::Admitted, reports) == TaskStage::Ended(outcome),
    ensures
        times(
            task_history(TaskStage::Admitted, reports, started),
            TaskAction::Respond(outcome),
        ) == 1,
        forall|other: TaskOutcome|
            other != outcome ==> #[trigger] times(
                task_history(TaskStage::Admitted, reports, started),
                TaskAction::Respond(other),
            ) == 0,
        times(task_history(TaskStage::Admitted, reports, started), TaskAction::Release) == 1,
{
    let stage = TaskStage::Admitted;
    lemma_history(stage, reports, started, outcome, TaskAction::Respond(outcome));
    lemma_history(stage, reports, started, outcome, TaskAction::Release);
    assert forall|other: TaskOutcome| other != outcome implies #[trigger] times(
        task_history(stage, reports, started),
        TaskAction::Respond(other),
    ) == 0 by {
        lemma_history(stage, reports, started, outcome, TaskAction::Respond(other));
    }
}

/// A task that was called off writes nothing and is told of as cancelled; one
/// that is done wrote once and is told of as done; the start of every task is
/// told of once.
pub proof fn law_events_tell_what_happened(
    reports: Seq<TaskReport>,
    started: bool,
    outcome: TaskOutcome,
)
    requires
        task_after(TaskStage::Admitted, reports) == TaskStage::Ended(outcome),
    ensures
        ({
            let done = task_history(TaskStage::Admitted, reports, started);
            &&& times(done, TaskAction::Record(CompileEvent::Start)) == 1
            &&& times(done, TaskAction::SignalStarted) == if started {
                1nat
            } else {
                0
            }
            &&& times(done, TaskAction::Record(CompileEvent::Cancelled)) == if outcome
                == TaskOutcome::Cancelled {
                1nat
            } else {
                0
            }
            &&& times(done, TaskAction::Record(CompileEvent::Done)) == if outcome
                == TaskOutcome::Done {
                1nat
            } else {
                0
            }
            &&& times(done, TaskAction::Write) == if outcome == TaskOutcome::Done || outcome
                == TaskOutcome::WriteFailed {
                1nat
            } else {
                0
            }
        }),
{
    let stage = TaskStage::Admitted;
    lemma_history(stage, reports, started, outcome, TaskAction::Record(CompileEvent::Start));
    lemma_history(stage, reports, started, outcome, TaskAction::SignalStarted);
    lemma_history(stage, reports, started, outcome, TaskAction::Record(CompileEvent::Cancelled));
    lemma_history(stage, reports, started, outcome, TaskAction::Record(CompileEvent::Done));
    lemma_history(stage, reports, started, outcome, TaskAction::Write);
}

/// The states after some steps.
pub open spec fn after_cancel_steps(states: Seq<bool>, steps: Seq<CancelStep>) -> Seq<bool>
    decreases steps.len(),
{
    if steps.len() == 0 {
        states
    } else {
        after_cancel_step(after_cancel_steps(states, steps.drop_last()), steps.last())
    }
}

/// Whether a step calls a token off.
pub open spec fn step_calls_off(step: CancelStep, number: nat) -> bool {
    match step {
        CancelStep::New => false,
        CancelStep::Cancel { number: n } => n == number,
        CancelStep::CancelAll { numbers } => numbers.contains(number),
    }
}

/// Whether some step calls a token off.
pub open spec fn calls_off(steps: Seq<CancelStep>, number: nat) -> bool {
    exists|i: int| 0 <= i < steps.len() && step_calls_off(#[trigger] steps[i], number)
}

/// A token is called off exactly if it was before, or it or a copy of it is
/// called off, by itself or with a handle that it is registered with. It then
/// stays so, and what is done to other tokens does not touch it.
pub proof fn law_tokens_share_their_state(states: Seq<bool>, steps: Seq<CancelStep>, number: nat)
    requires
        number < states.len(),
    ensures
        off(after_cancel_steps(states, steps), number) <==> off(states, number) || calls_off(
            steps,
            number,
        ),
        after_cancel_steps(states, steps).len() >= states.len(),
    decreases steps.len(),
{
    if steps.len() > 0 {
        let front = steps.drop_last();
        law_tokens_share_their_state(states, front, number);
        if step_calls_off(steps.last(), number) {
            assert(step_calls_off(steps[steps.len() - 1], number));
        }
        if calls_off(front, number) {
            let i = choose|i: int|
                0 <= i < front.len() && step_calls_off(#[trigger] front[i], number);
            assert(steps[i] == front[i]);
        }
        if calls_off(steps, number) {
            let i = choose|i: int|
                0 <= i < steps.len() && step_calls_off(#[trigger] steps[i], number);
            if i < front.len() {
                assert(front[i] == steps[i]);
            }
        }
    }
}

/// To call off what has been called off changes nothing.
pub proof fn law_calling_off_again_changes_nothing(states: Seq<bool>, number: nat)
    requires
        off(states, number),
    ensures
        after_cancel_step(states, CancelStep::Cancel { number }) == states,
{
    assert(after_cancel_step(states, CancelStep::Cancel { number }) =~= states);
}

/// Where the token has been called off by the time the race is over, the task
/// is cancelled, though what was compiled may be there.
pub proof fn law_cancellation_wins_the_race(compiled: bool)
    ensures
        next_task_stage(TaskStage::Racing, TaskReport::Raced { cancelled: true, compiled })
            == TaskStage::Ended(TaskOutcome::Cancelled),
{
}

/// A service has finished every task that was submitted once nothing waits or
/// runs.
pub proof fn law_idle_services_are_through(s: ServiceView)
    requires
        s.sound(),
    ensures
        s.queue_len == 0 && s.waiting == 0 && s.in_flight == 0 <==> s.submitted == s.finished,
{
}

/// How many steps lie before a service with no new tasks.
pub open spec fn steps_left(s: ServiceView) -> nat {
    3 * s.queue_len + 2 * s.waiting + s.in_flight
}

/// A service on which tasks may run works off what was submitted: as long as
/// a task is not finished, one can be taken, begun or finished, and each of
/// these steps leaves the service sound and brings it nearer to the end.
pub proof fn law_services_work_off_their_tasks(s: ServiceView)
    requires
        s.sound(),
        s.limit > 0,
    ensures
        s.submitted > s.finished ==> s.can_take() || s.can_begin() || s.can_finish(),
        s.can_take() ==> s.after_take().sound() && steps_left(s.after_take()) < steps_left(s),
        s.can_begin() ==> s.after_begin().sound() && steps_left(s.after_begin()) < steps_left(s),
        s.can_finish() ==> s.after_finish().sound() && steps_left(s.after_finish()) < steps_left(s),
{
}

} // verus!
