//! What the calls of a compile service and of cancellation tokens come to.

use crate::precompile_worker::{
    advance_task, submit_result, CancelHandle, CancelStates, CancellationToken, CompileEvent,
    CompileTask, PrecompileService, ServiceView, SubmitError, TaskAction, TaskOutcome, TaskReport,
    TaskStage,
};
use vstd::prelude::*;

verus! {

// ---------------------------------------------------------------------------
// The service
// ---------------------------------------------------------------------------
/// The counts of a service that change as tasks go through it.
pub open spec fn counts(s: ServiceView, queue: int, waiting: int, running: int) -> bool {
    s.queue_len == queue && s.waiting == waiting && s.in_flight == running
}

/// A service begins with the limit that it is given, nothing to do, and open
/// for tasks.
pub proof fn law_services_begin_empty(limit: usize, s: PrecompileService)
    requires
        call_ensures(PrecompileService::new, (limit,), s),
    ensures
        s@.limit == limit,
        counts(s@, 0, 0, 0),
        s@.submitted == 0,
        s@.finished == 0,
        s@.open,
{
}

/// A task is accepted exactly as long as the service is open, and then waits in
/// the queue; nothing else changes.
pub proof fn law_open_services_accept(s: &mut PrecompileService, r: bool)
    requires
        call_ensures(PrecompileService::submit, (s,), r),
    ensures
        ({
            let (a, b) = (old(s)@, final(s)@);
            &&& r <==> a.open
            &&& counts(
                b,
                a.queue_len + if r {
                    1int
                } else {
                    0
                },
                a.waiting as int,
                a.in_flight as int,
            )
            &&& b.submitted == a.submitted + if r {
                1int
            } else {
                0
            }
            &&& b.finished == a.finished && b.limit == a.limit && b.open == a.open
        }),
{
}

/// A task is taken from the queue exactly where there is one and none waits for
/// a place already; nothing else changes.
pub proof fn law_one_task_waits_for_a_place(s: &mut PrecompileService, r: bool)
    requires
        call_ensures(PrecompileService::take, (s,), r),
    ensures
        ({
            let (a, b) = (old(s)@, final(s)@);
            &&& r <==> a.queue_len > 0 && a.waiting == 0
            &&& r ==> counts(b, a.queue_len - 1, 1, a.in_flight as int)
            &&& !r ==> counts(b, a.queue_len as int, a.waiting as int, a.in_flight as int)
            &&& b.submitted == a.submitted && b.finished == a.finished
            &&& b.limit == a.limit && b.open == a.open
        }),
{
}

/// A task that waits begins exactly where fewer tasks run than the limit of the
/// service allows, and then runs; nothing else changes.
pub proof fn law_tasks_begin_below_the_limit(s: &mut PrecompileService, r: bool)
    requires
        call_ensures(PrecompileService::begin, (s,), r),
        old(s)@.waiting <= 1,
    ensures
        ({
            let (a, b) = (old(s)@, final(s)@);
            &&& r <==> a.waiting > 0 && a.in_flight < a.limit
            &&& r ==> counts(b, a.queue_len as int, 0, (a.in_flight + 1) as int)
            &&& !r ==> counts(b, a.queue_len as int, a.waiting as int, a.in_flight as int)
            &&& b.submitted == a.submitted && b.finished == a.finished
            &&& b.limit == a.limit && b.open == a.open
        }),
{
}

/// A task finishes exactly where one runs, and gives back its place; nothing
/// else changes.
pub proof fn law_running_tasks_finish(s: &mut PrecompileService, r: bool)
    requires
        call_ensures(PrecompileService::finish, (s,), r),
    ensures
        ({
            let (a, b) = (old(s)@, final(s)@);
            &&& r <==> a.in_flight > 0
            &&& r ==> counts(b, a.queue_len as int, a.waiting as int, a.in_flight - 1)
            &&& !r ==> counts(b, a.queue_len as int, a.waiting as int, a.in_flight as int)
            &&& b.finished == a.finished + if r {
                1int
            } else {
                0
            }
            &&& b.submitted == a.submitted && b.limit == a.limit && b.open == a.open
        }),
{
}

/// A shutdown closes the service, and leaves its tasks to be worked off.
pub proof fn law_shutdown_closes(s: &mut PrecompileService, r: ())
    requires
        call_ensures(PrecompileService::shutdown, (s,), r),
    ensures
        ({
            let (a, b) = (old(s)@, final(s)@);
            &&& !b.open
            &&& counts(b, a.queue_len as int, a.waiting as int, a.in_flight as int)
            &&& b.submitted == a.submitted && b.finished == a.finished && b.limit == a.limit
        }),
{
}

/// A service is idle exactly where it is closed and nothing waits or runs; its
/// metrics are the tasks in the queue and those that run.
pub proof fn law_metrics_tell_the_counts(s: &PrecompileService, idle: bool, m: (usize, usize))
    requires
        s@.submitted == s@.queue_len + s@.waiting + s@.in_flight + s@.finished,
        call_ensures(PrecompileService::is_idle, (s,), idle),
        call_ensures(PrecompileService::metrics_snapshot, (s,), m),
    ensures
        idle <==> !s@.open && counts(s@, 0, 0, 0),
        m.0 == s@.queue_len,
        m.1 == s@.in_flight,
{
}

/// A service after `k` tasks were taken from the queue and begun, one after
/// the other.
pub open spec fn after_rounds(s: ServiceView, k: nat) -> ServiceView
    decreases k,
{
    if k == 0 {
        s
    } else {
        after_rounds(s, (k - 1) as nat).after_take().after_begin()
    }
}

/// As many tasks run at once as the limit allows: with that many in the queue,
/// each of them can be taken and begun, one after the other, and in the end
/// they all run.
pub proof fn law_all_places_can_be_filled(s: ServiceView, k: nat)
    requires
        s.sound(),
        s.waiting == 0,
        k <= s.queue_len,
        s.in_flight + k <= s.limit,
    ensures
        counts(after_rounds(s, k), s.queue_len - k, 0, (s.in_flight + k) as int),
        after_rounds(s, k).limit == s.limit,
        forall|j: nat|
            j < k ==> {
                &&& (#[trigger] after_rounds(s, j)).can_take()
                &&& after_rounds(s, j).after_take().can_begin()
            },
    decreases k,
{
    if k > 0 {
        law_all_places_can_be_filled(s, (k - 1) as nat);
    }
}

// ---------------------------------------------------------------------------
// Tasks
// ---------------------------------------------------------------------------
/// A task that is admitted races, and, where someone waits for its start, they
/// are told before. Its race ends it as cancelled where the token was called
/// off, whether or not there is anything compiled; else as failed where there
/// is nothing; else it is written, and that ends it.
pub proof fn law_tasks_end_as_reported(
    stage: TaskStage,
    report: TaskReport,
    started: bool,
    r: (TaskStage, Vec<TaskAction>),
)
    requires
        call_ensures(advance_task, (stage, report, started), r),
    ensures
        stage == TaskStage::Admitted && report == TaskReport::Running ==> {
            &&& r.0 == TaskStage::Racing
            &&& r.1@.len() == if started {
                3int
            } else {
                2
            }
            &&& r.1@[0] == TaskAction::Record(CompileEvent::Start)
            &&& started ==> r.1@[1] == TaskAction::SignalStarted
            &&& r.1@.last() == TaskAction::Race
        },
        stage == TaskStage::Racing ==> (report matches TaskReport::Raced { cancelled, compiled }
            ==> {
            &&& cancelled ==> r.0 == TaskStage::Ended(TaskOutcome::Cancelled)
            &&& !cancelled && compiled ==> r.0 == TaskStage::Writing && r.1@.len() == 1 && r.1@[0]
                == TaskAction::Write
            &&& !cancelled && !compiled ==> r.0 == TaskStage::Ended(TaskOutcome::CompileFailed)
        }),
        stage == TaskStage::Writing ==> (report matches TaskReport::Written { ok } ==> {
            &&& ok ==> r.0 == TaskStage::Ended(TaskOutcome::Done)
            &&& !ok ==> r.0 == TaskStage::Ended(TaskOutcome::WriteFailed)
        }),
        stage is Ended ==> r.0 == stage && r.1@.len() == 0,
{
}

/// A task that ends is answered with what became of it and then gives back its
/// place, in that order and last; before that the profiler is told where it is
/// done or cancelled, and of that alone.
pub proof fn law_ends_are_answered(
    stage: TaskStage,
    report: TaskReport,
    started: bool,
    r: (TaskStage, Vec<TaskAction>),
)
    requires
        call_ensures(advance_task, (stage, report, started), r),
        !(stage is Ended),
    ensures
        r.0 matches TaskStage::Ended(outcome) ==> {
            let n = r.1@.len() as int;
            let told = outcome == TaskOutcome::Done || outcome == TaskOutcome::Cancelled;
            &&& n == if told {
                3int
            } else {
                2
            }
            &&& r.1@[n - 2] == TaskAction::Respond(outcome)
            &&& r.1@[n - 1] == TaskAction::Release
            &&& outcome == TaskOutcome::Done ==> r.1@[0] == TaskAction::Record(CompileEvent::Done)
            &&& outcome == TaskOutcome::Cancelled ==> r.1@[0] == TaskAction::Record(
                CompileEvent::Cancelled,
            )
        },
        r.0 == stage ==> r.1@.len() == 0,
{
}

/// A submission succeeds exactly where the task was sent and the answer is that
/// it is done; each failure tells which of these was not so.
pub proof fn law_submissions_succeed_when_done(
    sent: bool,
    answer: Option<TaskOutcome>,
    r: Result<(), SubmitError>,
)
    requires
        call_ensures(submit_result, (sent, answer), r),
    ensures
        r is Ok <==> sent && answer == Some(TaskOutcome::Done),
        !sent <==> r == Err::<(), SubmitError>(SubmitError::Send),
        sent && answer is None <==> r == Err::<(), SubmitError>(SubmitError::Response),
        sent && answer is Some && answer->0 != TaskOutcome::Done ==> r == Err::<(), SubmitError>(
            SubmitError::Task(answer->0),
        ),
{
}

// ---------------------------------------------------------------------------
// Tokens
// ---------------------------------------------------------------------------
/// A new token is not called off, and is none of those that there are.
pub proof fn law_new_tokens_are_fresh(
    states: &mut CancelStates,
    token: CancellationToken,
    other: &CancellationToken,
    r: bool,
    before: bool,
    after: bool,
)
    requires
        call_ensures(CancellationToken::new, (states,), token),
        other@ < old(states)@.len(),
        call_ensures(CancellationToken::is_cancelled, (&token, &*final(states)), r),
        call_ensures(CancellationToken::is_cancelled, (other, &*old(states)), before),
        call_ensures(CancellationToken::is_cancelled, (other, &*final(states)), after),
    ensures
        !r,
        token@ != other@,
        after == before,
{
}

/// Calling a token off calls off the token and every copy of it, and no other;
/// those who wait are told the first time alone.
pub proof fn law_copies_are_called_off_together(
    token: &CancellationToken,
    states: &mut CancelStates,
    first: bool,
    other: &CancellationToken,
    before: bool,
    after: bool,
)
    requires
        token@ < old(states)@.len(),
        other@ < old(states)@.len(),
        call_ensures(CancellationToken::cancel, (token, states), first),
        call_ensures(CancellationToken::is_cancelled, (other, &*old(states)), before),
        call_ensures(CancellationToken::is_cancelled, (other, &*final(states)), after),
    ensures
        after <==> before || other@ == token@,
        other@ == token@ ==> first == !before,
{
}

/// A handle calls off the tokens that were registered with it, and no other,
/// and names those that were not called off before.
pub proof fn law_handles_call_off_what_is_registered(
    handle: &CancelHandle,
    states: &mut CancelStates,
    woken: Vec<CancellationToken>,
    token: &CancellationToken,
    before: bool,
    after: bool,
)
    requires
        token@ < old(states)@.len(),
        call_ensures(CancelHandle::cancel_all, (handle, states), woken),
        call_ensures(CancellationToken::is_cancelled, (token, &*old(states)), before),
        call_ensures(CancellationToken::is_cancelled, (token, &*final(states)), after),
    ensures
        after <==> before || handle.registered(token@),
        woken@.contains(*token) <==> !before && handle.registered(token@),
{
}

/// Exactly the tokens that were registered are registered.
pub proof fn law_registered_tokens_stay(
    handle: &mut CancelHandle,
    token: &CancellationToken,
    r: (),
    empty: CancelHandle,
    number: nat,
)
    requires
        call_ensures(CancelHandle::register, (handle, token), r),
        call_ensures(CancelHandle::new, (), empty),
    ensures
        !empty.registered(number),
        final(handle).registered(number) <==> old(handle).registered(number) || number == token@,
{
    assert(final(handle).numbers().contains(number) <==> final(handle).registered(number));
    assert(old(handle).numbers().contains(number) <==> old(handle).registered(number));
}

/// A task that is made with its start to be told holds what it is made of, and
/// the token that comes with it.
pub proof fn law_tasks_hold_their_token(
    fingerprint: String,
    source: Vec<u8>,
    states: &mut CancelStates,
    r: (CompileTask, CancellationToken),
    copy: CompileTask,
)
    requires
        call_ensures(CompileTask::with_started, (fingerprint, source, states), r),
        call_ensures(<CompileTask as Clone>::clone, (&r.0,), copy),
    ensures
        r.0.fingerprint == fingerprint,
        r.0.source == source,
        r.0.started,
        r.0.cancel@ == r.1@,
        copy.fingerprint@ == fingerprint@,
        copy.source@ == source@,
        copy.started,
        copy.cancel@ == r.1@,
{
}

} // verus!
