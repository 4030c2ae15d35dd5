//! What holds of a whole run of the task machine: it ends, it ends once, and
//! it keeps to the sudo discipline from the first event to the last.
use vstd::prelude::*;

use crate::catalog::Task;
use crate::runner::tasks_privileged;
use crate::session::{
    after_sudo, bootstrap, cache_error, expects, finish, fresh_state, next, phase_fits, start_tasks, RequestView,
    RunState, RunnerEvent, RunnerPhase, Transition,
};
use crate::system::PackageManager;
use crate::text::views;

verus! {

/// How many more steps a run in `phase` can take at most, for `n` tasks.
pub open spec fn rank(phase: RunnerPhase, n: int) -> int {
    match phase {
        RunnerPhase::Finished => 0,
        RunnerPhase::DroppingSudo => 1,
        RunnerPhase::Running { index } => 1 + 2 * (n - index),
        RunnerPhase::Resolving { index } => 2 + 2 * (n - index),
        RunnerPhase::RecheckingFlatpak => 2 * n + 3,
        RunnerPhase::Bootstrapping => 2 * n + 4,
        RunnerPhase::CheckingNala => 2 * n + 5,
        RunnerPhase::DetectingManager => 2 * n + 6,
        RunnerPhase::CheckingFlatpak => 2 * n + 7,
        RunnerPhase::CachingSudo => 2 * n + 8,
        RunnerPhase::CheckingPrivileges => 2 * n + 9,
        RunnerPhase::Start => 2 * n + 10,
    }
}

/// Whether a machine in `phase` waits for the answer to `q`.
pub open spec fn awaits(phase: RunnerPhase, q: RequestView) -> bool {
    match phase {
        RunnerPhase::CheckingPrivileges | RunnerPhase::CheckingFlatpak | RunnerPhase::CheckingNala
        | RunnerPhase::RecheckingFlatpak => q is CommandExists,
        RunnerPhase::CachingSudo => q is CacheSudo,
        RunnerPhase::DetectingManager => q is DetectPackageManager,
        RunnerPhase::Bootstrapping => q is RunSudo,
        RunnerPhase::Resolving { .. } => q is ResolveScript,
        RunnerPhase::Running { .. } => q is Spawn,
        RunnerPhase::DroppingSudo => q is DropSudo,
        RunnerPhase::Start | RunnerPhase::Finished => false,
    }
}

/// Whether `e` is an answer to `q`: a spawned task's process never has its
/// stdin written, so writing to it cannot have failed.
pub open spec fn answers(q: RequestView, e: RunnerEvent) -> bool {
    match q {
        RequestView::CommandExists(_) => e is Exists,
        RequestView::CacheSudo | RequestView::RunSudo(_) => e is Ran,
        RequestView::DetectPackageManager => e is PackageManagerFound,
        RequestView::ResolveScript(_) => e is Resolved,
        RequestView::Spawn(_, _) => e matches RunnerEvent::Ran { run } && !(run is StdinFailed),
        RequestView::DropSudo => e is SudoDropped,
    }
}

/// A machine takes every answer to the request it waits on.
pub proof fn lemma_answers_are_expected(phase: RunnerPhase, q: RequestView, e: RunnerEvent)
    requires
        awaits(phase, q),
        answers(q, e),
    ensures
        expects(phase, e),
{
}

/// Whether a transition leaves the machine in a state that fits the tasks,
/// over exactly when it has finished, and otherwise waiting on the answer to
/// a request.
pub open spec fn well_placed(t: Transition, tasks: Seq<Task>) -> bool {
    &&& phase_fits(t.state.phase, tasks)
    &&& rank(t.state.phase, tasks.len() as int) >= 0
    &&& t.done <==> t.state.phase == RunnerPhase::Finished
    &&& !t.done ==> (t.request matches Some(q) && awaits(t.state.phase, q))
}

proof fn lemma_finish_placed(s: RunState, tasks: Seq<Task>)
    ensures
        well_placed(finish(s), tasks),
        rank(finish(s).state.phase, tasks.len() as int) <= 1,
{
}

/// Going through the tasks from `i` either waits on the resolution of a
/// later task's script, or ends the run.
proof fn lemma_start_tasks_placed(s: RunState, tasks: Seq<Task>, i: int)
    requires
        0 <= i <= tasks.len(),
        tasks.len() <= usize::MAX,
    ensures
        well_placed(start_tasks(s, tasks, i), tasks),
        rank(start_tasks(s, tasks, i).state.phase, tasks.len() as int) <= 2 + 2 * (tasks.len() - i),
    decreases tasks.len() - i,
{
    lemma_finish_placed(s, tasks);
    if i < tasks.len() {
        lemma_start_tasks_placed(s, tasks, i + 1);
        assert(views(tasks[i].command@).len() == tasks[i].command@.len());
    }
}

proof fn lemma_after_sudo_placed(s: RunState, tasks: Seq<Task>)
    requires
        tasks.len() <= usize::MAX,
    ensures
        well_placed(after_sudo(s, tasks), tasks),
        rank(after_sudo(s, tasks).state.phase, tasks.len() as int) <= 2 * tasks.len() + 7,
{
    lemma_start_tasks_placed(s, tasks, 0);
}

proof fn lemma_bootstrap_placed(s: RunState, tasks: Seq<Task>, pm: PackageManager, nala: bool)
    requires
        tasks.len() <= usize::MAX,
    ensures
        well_placed(bootstrap(s, tasks, pm, nala), tasks),
        rank(bootstrap(s, tasks, pm, nala).state.phase, tasks.len() as int) <= 2 * tasks.len() + 4,
{
    lemma_start_tasks_placed(s, tasks, 0);
}

/// Each step that a machine expects brings it strictly closer to the end,
/// keeps its state one that fits the tasks, ends the run exactly when it
/// finishes, and otherwise leaves it waiting on the answer to a request.
pub proof fn lemma_step_progress(s: RunState, tasks: Seq<Task>, e: RunnerEvent)
    requires
        tasks.len() <= usize::MAX,
        expects(s.phase, e),
        phase_fits(s.phase, tasks),
    ensures
        well_placed(next(s, tasks, e), tasks),
        rank(next(s, tasks, e).state.phase, tasks.len() as int) < rank(s.phase, tasks.len() as int),
{
    match (s.phase, e) {
        (RunnerPhase::CheckingPrivileges, _) => {
            let quiet = RunState { phase: s.phase, needs_sudo: false, password: Seq::empty() };
            lemma_after_sudo_placed(quiet, tasks);
        },
        (RunnerPhase::CachingSudo, _) => {
            lemma_after_sudo_placed(s, tasks);
        },
        (RunnerPhase::CheckingFlatpak, _) => {
            lemma_start_tasks_placed(s, tasks, 0);
        },
        (RunnerPhase::DetectingManager, RunnerEvent::PackageManagerFound { manager }) => {
            lemma_bootstrap_placed(s, tasks, manager, false);
        },
        (RunnerPhase::CheckingNala, RunnerEvent::Exists { present }) => {
            lemma_bootstrap_placed(s, tasks, PackageManager::Apt, present);
        },
        (RunnerPhase::Bootstrapping, _) => {
            lemma_start_tasks_placed(s, tasks, 0);
        },
        (RunnerPhase::RecheckingFlatpak, _) => {
            lemma_start_tasks_placed(s, tasks, 0);
        },
        (RunnerPhase::Resolving { index }, _) => {
            lemma_start_tasks_placed(s, tasks, index + 1);
        },
        (RunnerPhase::Running { index }, _) => {
            lemma_start_tasks_placed(s, tasks, index + 1);
        },
        _ => {},
    }
}

/// The state after the machine took `events` one by one from `s0`.
pub open spec fn state_after(s0: RunState, tasks: Seq<Task>, events: Seq<RunnerEvent>) -> RunState
    decreases events.len(),
{
    if events.len() == 0 {
        s0
    } else {
        next(state_after(s0, tasks, events.drop_last()), tasks, events.last()).state
    }
}

/// What the machine did with the event at index `k` of `events`.
pub open spec fn step_at(s0: RunState, tasks: Seq<Task>, events: Seq<RunnerEvent>, k: int) -> Transition {
    next(state_after(s0, tasks, events.take(k)), tasks, events[k])
}

/// Whether each of `events` came when the machine expected one of its kind.
pub open spec fn is_run(s0: RunState, tasks: Seq<Task>, events: Seq<RunnerEvent>) -> bool
    decreases events.len(),
{
    events.len() == 0 || (is_run(s0, tasks, events.drop_last()) && expects(
        state_after(s0, tasks, events.drop_last()).phase,
        events.last(),
    ))
}

proof fn lemma_step_at_prefix(s0: RunState, tasks: Seq<Task>, events: Seq<RunnerEvent>, k: int)
    requires
        0 <= k < events.len() - 1,
    ensures
        step_at(s0, tasks, events, k) == step_at(s0, tasks, events.drop_last(), k),
{
    assert(events.take(k) =~= events.drop_last().take(k));
}

proof fn lemma_step_at_last(s0: RunState, tasks: Seq<Task>, events: Seq<RunnerEvent>)
    requires
        events.len() > 0,
    ensures
        step_at(s0, tasks, events, events.len() - 1) == next(
            state_after(s0, tasks, events.drop_last()),
            tasks,
            events.last(),
        ),
        step_at(s0, tasks, events, events.len() - 1).state == state_after(s0, tasks, events),
{
    assert(events.take(events.len() - 1) =~= events.drop_last());
}

/// Every run ends. From a state that fits its tasks, a machine takes at
/// most `rank` of that state events (from the start, twice the number of
/// tasks plus ten); after each step it has either finished, which is exactly
/// when the step says the run is over, or waits on the answer to a request;
/// and only the last event of a run can end it, so the run is over once.
pub proof fn lemma_run_ends(s0: RunState, tasks: Seq<Task>, events: Seq<RunnerEvent>)
    requires
        tasks.len() <= usize::MAX,
        phase_fits(s0.phase, tasks),
        is_run(s0, tasks, events),
    ensures
        events.len() <= rank(s0.phase, tasks.len() as int),
        rank(state_after(s0, tasks, events).phase, tasks.len() as int) <= rank(s0.phase, tasks.len() as int)
            - events.len(),
        phase_fits(state_after(s0, tasks, events).phase, tasks),
        forall|k: int| 0 <= k < events.len() ==> well_placed(#[trigger] step_at(s0, tasks, events, k), tasks),
        forall|k: int| 0 <= k < events.len() - 1 ==> !(#[trigger] step_at(s0, tasks, events, k)).done,
    decreases events.len(),
{
    let n = tasks.len() as int;
    if events.len() > 0 {
        let pre = events.drop_last();
        lemma_run_ends(s0, tasks, pre);
        let sp = state_after(s0, tasks, pre);
        lemma_step_progress(sp, tasks, events.last());
        lemma_step_at_last(s0, tasks, events);
        assert forall|k: int| 0 <= k < events.len() implies well_placed(
            #[trigger] step_at(s0, tasks, events, k),
            tasks,
        ) by {
            if k < events.len() - 1 {
                lemma_step_at_prefix(s0, tasks, events, k);
            }
        }
        assert forall|k: int| 0 <= k < events.len() - 1 implies !(#[trigger] step_at(
            s0,
            tasks,
            events,
            k,
        )).done by {
            lemma_step_at_prefix(s0, tasks, events, k);
            if k == events.len() - 2 {
                lemma_step_at_last(s0, tasks, pre);
            }
        }
    }
}

/// What a run has done about sudo so far.
pub struct SudoTrack {
    /// Whether the tasks were found to need sudo.
    pub need: bool,
    /// Whether the run asked for the credentials to be cached.
    pub asked: bool,
    /// Whether caching them succeeded.
    pub cached: bool,
    /// Whether the run asked for them to be dropped.
    pub dropped: bool,
}

/// Nothing done about sudo yet.
pub open spec fn no_sudo_yet() -> SudoTrack {
    SudoTrack { need: false, asked: false, cached: false, dropped: false }
}

/// The record after the machine in `s` took `e`.
pub open spec fn track_step(tr: SudoTrack, s: RunState, tasks: Seq<Task>, e: RunnerEvent) -> SudoTrack {
    let t = next(s, tasks, e);
    SudoTrack {
        need: match (s.phase, e) {
            (RunnerPhase::CheckingPrivileges, RunnerEvent::Exists { present }) => tasks_privileged(tasks, present),
            _ => tr.need,
        },
        asked: tr.asked || t.request == Some(RequestView::CacheSudo),
        cached: tr.cached || (s.phase == RunnerPhase::CachingSudo && (e matches RunnerEvent::Ran { run }
            && cache_error(run) is None)),
        dropped: tr.dropped || t.request == Some(RequestView::DropSudo),
    }
}

/// The record after the machine took `events` one by one from `s0`.
pub open spec fn track_after(s0: RunState, tasks: Seq<Task>, events: Seq<RunnerEvent>) -> SudoTrack
    decreases events.len(),
{
    if events.len() == 0 {
        no_sudo_yet()
    } else {
        track_step(
            track_after(s0, tasks, events.drop_last()),
            state_after(s0, tasks, events.drop_last()),
            tasks,
            events.last(),
        )
    }
}

/// A run that has not decided about sudo yet.
pub open spec fn undecided(phase: RunnerPhase) -> bool {
    phase == RunnerPhase::Start || phase == RunnerPhase::CheckingPrivileges
}

/// How the record of a run started with password `p0` relates to its state.
pub open spec fn sudo_inv(s: RunState, tr: SudoTrack, p0: Seq<char>) -> bool {
    &&& tr.cached ==> tr.asked
    &&& tr.dropped ==> tr.cached
    &&& tr.asked ==> s.needs_sudo
    &&& undecided(s.phase) ==> !tr.need && !tr.asked && !s.needs_sudo && s.password == p0
    &&& !undecided(s.phase) ==> s.needs_sudo == tr.need && tr.asked == (tr.need && p0.len() > 0)
    &&& s.phase == RunnerPhase::CachingSudo ==> tr.asked && !tr.cached
    &&& (s.needs_sudo && !undecided(s.phase) && s.phase != RunnerPhase::CachingSudo && s.phase
        != RunnerPhase::Finished) ==> tr.cached
    &&& s.phase == RunnerPhase::DroppingSudo ==> tr.dropped
    &&& tr.dropped ==> (s.phase == RunnerPhase::DroppingSudo || s.phase == RunnerPhase::Finished)
    &&& s.phase == RunnerPhase::Finished ==> tr.dropped == tr.cached
}

/// What a transition that neither decides about sudo nor starts a task
/// looks like from `s`.
pub open spec fn keeps_sudo(t: Transition, s: RunState) -> bool {
    &&& !(t.state.phase is Running)
    &&& t.state.needs_sudo == s.needs_sudo
    &&& (t.request == Some(RequestView::DropSudo)) == (t.state.phase == RunnerPhase::DroppingSudo)
    &&& t.state.phase == RunnerPhase::DroppingSudo ==> s.needs_sudo
    &&& t.state.phase == RunnerPhase::Finished ==> !s.needs_sudo
    &&& t.request != Some(RequestView::CacheSudo)
    &&& !undecided(t.state.phase) && t.state.phase != RunnerPhase::CachingSudo
}

proof fn lemma_start_tasks_keeps_sudo(s: RunState, tasks: Seq<Task>, i: int)
    ensures
        keeps_sudo(start_tasks(s, tasks, i), s),
    decreases tasks.len() - i,
{
    if 0 <= i < tasks.len() {
        lemma_start_tasks_keeps_sudo(s, tasks, i + 1);
    }
}

proof fn lemma_after_sudo_keeps_sudo(s: RunState, tasks: Seq<Task>)
    ensures
        keeps_sudo(after_sudo(s, tasks), s),
{
    lemma_start_tasks_keeps_sudo(s, tasks, 0);
}

proof fn lemma_bootstrap_keeps_sudo(s: RunState, tasks: Seq<Task>, pm: PackageManager, nala: bool)
    ensures
        keeps_sudo(bootstrap(s, tasks, pm, nala), s),
{
    lemma_start_tasks_keeps_sudo(s, tasks, 0);
}

/// One expected step keeps the record in line with the state; credentials
/// are asked for at most once, and dropped at most once and only after
/// caching them succeeded.
proof fn lemma_track_step(s: RunState, tr: SudoTrack, p0: Seq<char>, tasks: Seq<Task>, e: RunnerEvent)
    requires
        sudo_inv(s, tr, p0),
        expects(s.phase, e),
    ensures
        sudo_inv(next(s, tasks, e).state, track_step(tr, s, tasks, e), p0),
        next(s, tasks, e).request == Some(RequestView::CacheSudo) ==> !tr.asked,
        next(s, tasks, e).request == Some(RequestView::DropSudo) ==> track_step(tr, s, tasks, e).cached
            && !tr.dropped,
{
    match (s.phase, e) {
        (RunnerPhase::CheckingPrivileges, _) => {
            let quiet = RunState { phase: s.phase, needs_sudo: false, password: Seq::empty() };
            lemma_after_sudo_keeps_sudo(quiet, tasks);
        },
        (RunnerPhase::CachingSudo, _) => {
            lemma_after_sudo_keeps_sudo(s, tasks);
        },
        (RunnerPhase::CheckingFlatpak, _) => {
            lemma_start_tasks_keeps_sudo(s, tasks, 0);
        },
        (RunnerPhase::DetectingManager, RunnerEvent::PackageManagerFound { manager }) => {
            lemma_bootstrap_keeps_sudo(s, tasks, manager, false);
        },
        (RunnerPhase::CheckingNala, RunnerEvent::Exists { present }) => {
            lemma_bootstrap_keeps_sudo(s, tasks, PackageManager::Apt, present);
        },
        (RunnerPhase::Bootstrapping, _) => {
            lemma_start_tasks_keeps_sudo(s, tasks, 0);
        },
        (RunnerPhase::RecheckingFlatpak, _) => {
            lemma_start_tasks_keeps_sudo(s, tasks, 0);
        },
        (RunnerPhase::Resolving { index }, _) => {
            lemma_start_tasks_keeps_sudo(s, tasks, index + 1);
        },
        (RunnerPhase::Running { index }, _) => {
            lemma_start_tasks_keeps_sudo(s, tasks, index + 1);
        },
        _ => {},
    }
}

proof fn lemma_is_run_prefix(s0: RunState, tasks: Seq<Task>, events: Seq<RunnerEvent>, k: int)
    requires
        is_run(s0, tasks, events),
        0 <= k <= events.len(),
    ensures
        is_run(s0, tasks, events.take(k)),
    decreases events.len(),
{
    if k == events.len() {
        assert(events.take(k) =~= events);
    } else {
        lemma_is_run_prefix(s0, tasks, events.drop_last(), k);
        assert(events.take(k) =~= events.drop_last().take(k));
    }
}

proof fn lemma_run_inv(p: Seq<char>, tasks: Seq<Task>, events: Seq<RunnerEvent>)
    requires
        is_run(fresh_state(p), tasks, events),
    ensures
        sudo_inv(state_after(fresh_state(p), tasks, events), track_after(fresh_state(p), tasks, events), p),
    decreases events.len(),
{
    if events.len() > 0 {
        let pre = events.drop_last();
        lemma_run_inv(p, tasks, pre);
        lemma_track_step(
            state_after(fresh_state(p), tasks, pre),
            track_after(fresh_state(p), tasks, pre),
            p,
            tasks,
            events.last(),
        );
    }
}

/// The step at index `k` and the records around it.
proof fn lemma_step_at_track(p: Seq<char>, tasks: Seq<Task>, events: Seq<RunnerEvent>, k: int)
    requires
        is_run(fresh_state(p), tasks, events),
        0 <= k < events.len(),
    ensures
        expects(state_after(fresh_state(p), tasks, events.take(k)).phase, events[k]),
        sudo_inv(
            state_after(fresh_state(p), tasks, events.take(k)),
            track_after(fresh_state(p), tasks, events.take(k)),
            p,
        ),
        track_after(fresh_state(p), tasks, events.take(k + 1)) == track_step(
            track_after(fresh_state(p), tasks, events.take(k)),
            state_after(fresh_state(p), tasks, events.take(k)),
            tasks,
            events[k],
        ),
{
    lemma_is_run_prefix(fresh_state(p), tasks, events, k + 1);
    assert(events.take(k + 1).drop_last() =~= events.take(k));
    lemma_is_run_prefix(fresh_state(p), tasks, events, k);
    lemma_run_inv(p, tasks, events.take(k));
}

/// The sudo discipline of a whole run started with password `p`: caching
/// the credentials (`sudo -S -v`, the password going to its stdin) is asked
/// for at most once; while the run uses sudo, no task process is started
/// before caching succeeded; dropping them (`sudo -k`) is asked for at most
/// once and only after caching succeeded. Once the run is over, caching was
/// asked for exactly when the tasks need sudo and a password was given, and
/// the credentials were dropped exactly when caching them succeeded; so a
/// run whose tasks need no sudo asks for neither.
pub proof fn lemma_run_sudo_discipline(p: Seq<char>, tasks: Seq<Task>, events: Seq<RunnerEvent>)
    requires
        is_run(fresh_state(p), tasks, events),
    ensures
        forall|k: int|
            0 <= k < events.len() && (#[trigger] step_at(fresh_state(p), tasks, events, k)).request == Some(
                RequestView::CacheSudo,
            ) ==> !track_after(fresh_state(p), tasks, events.take(k)).asked,
        forall|k: int|
            0 <= k < events.len() && (#[trigger] step_at(fresh_state(p), tasks, events, k)).request is Some
                && step_at(fresh_state(p), tasks, events, k).request.unwrap() is Spawn && step_at(
                fresh_state(p),
                tasks,
                events,
                k,
            ).state.needs_sudo ==> track_after(
                fresh_state(p),
                tasks,
                events.take(k),
            ).cached,
        forall|k: int|
            0 <= k < events.len() && (#[trigger] step_at(fresh_state(p), tasks, events, k)).request == Some(
                RequestView::DropSudo,
            ) ==> track_after(fresh_state(p), tasks, events.take(k + 1)).cached && !track_after(
                fresh_state(p),
                tasks,
                events.take(k),
            ).dropped,
        state_after(fresh_state(p), tasks, events).phase == RunnerPhase::Finished ==> ({
            let tr = track_after(fresh_state(p), tasks, events);
            &&& state_after(fresh_state(p), tasks, events).needs_sudo == tr.need
            &&& tr.asked == (tr.need && p.len() > 0)
            &&& tr.dropped == tr.cached
            &&& !tr.need ==> !tr.asked && !tr.cached && !tr.dropped
        }),
{
    let s0 = fresh_state(p);
    lemma_run_inv(p, tasks, events);
    assert forall|k: int|
        0 <= k < events.len() && (#[trigger] step_at(s0, tasks, events, k)).request == Some(
            RequestView::CacheSudo,
        ) implies !track_after(s0, tasks, events.take(k)).asked by {
        lemma_step_at_track(p, tasks, events, k);
        lemma_track_step(
            state_after(s0, tasks, events.take(k)),
            track_after(s0, tasks, events.take(k)),
            p,
            tasks,
            events[k],
        );
    }
    assert forall|k: int|
        0 <= k < events.len() && (#[trigger] step_at(s0, tasks, events, k)).request is Some && step_at(
            s0,
            tasks,
            events,
            k,
        ).request.unwrap() is Spawn && step_at(s0, tasks, events, k).state.needs_sudo implies track_after(
            s0,
            tasks,
            events.take(k),
        ).cached by {
        lemma_step_at_track(p, tasks, events, k);
        crate::session::lemma_spawn_only_checked_commands(
            state_after(s0, tasks, events.take(k)),
            tasks,
            events[k],
        );
    }
    assert forall|k: int|
        0 <= k < events.len() && (#[trigger] step_at(s0, tasks, events, k)).request == Some(
            RequestView::DropSudo,
        ) implies track_after(s0, tasks, events.take(k + 1)).cached && !track_after(
            s0,
            tasks,
            events.take(k),
        ).dropped by {
        lemma_step_at_track(p, tasks, events, k);
        lemma_track_step(
            state_after(s0, tasks, events.take(k)),
            track_after(s0, tasks, events.take(k)),
            p,
            tasks,
            events[k],
        );
    }
}

/// Once a run has decided about sudo, it never goes back to deciding, and
/// it starts a task only right after that task's script was resolved.
proof fn lemma_step_shape(s: RunState, tasks: Seq<Task>, e: RunnerEvent)
    requires
        expects(s.phase, e),
    ensures
        !undecided(s.phase) ==> !undecided(next(s, tasks, e).state.phase),
        next(s, tasks, e).state.phase matches RunnerPhase::Running { index } ==> s.phase
            == (RunnerPhase::Resolving { index }),
        s.phase == RunnerPhase::Start ==> next(s, tasks, e).state.phase == RunnerPhase::CheckingPrivileges,
{
    match (s.phase, e) {
        (RunnerPhase::CheckingPrivileges, _) => {
            let quiet = RunState { phase: s.phase, needs_sudo: false, password: Seq::empty() };
            lemma_after_sudo_keeps_sudo(quiet, tasks);
        },
        (RunnerPhase::CachingSudo, _) => {
            lemma_after_sudo_keeps_sudo(s, tasks);
        },
        (RunnerPhase::CheckingFlatpak, _) => {
            lemma_start_tasks_keeps_sudo(s, tasks, 0);
        },
        (RunnerPhase::DetectingManager, RunnerEvent::PackageManagerFound { manager }) => {
            lemma_bootstrap_keeps_sudo(s, tasks, manager, false);
        },
        (RunnerPhase::CheckingNala, RunnerEvent::Exists { present }) => {
            lemma_bootstrap_keeps_sudo(s, tasks, PackageManager::Apt, present);
        },
        (RunnerPhase::Bootstrapping, _) => {
            lemma_start_tasks_keeps_sudo(s, tasks, 0);
        },
        (RunnerPhase::RecheckingFlatpak, _) => {
            lemma_start_tasks_keeps_sudo(s, tasks, 0);
        },
        (RunnerPhase::Resolving { index }, _) => {
            lemma_start_tasks_keeps_sudo(s, tasks, index + 1);
        },
        (RunnerPhase::Running { index }, _) => {
            lemma_start_tasks_keeps_sudo(s, tasks, index + 1);
        },
        _ => {},
    }
}

/// A run opens with `Begin` and the answer whether `flatpak` is on PATH;
/// from then on it has decided about sudo, by what the tasks need given
/// that answer.
proof fn lemma_first_check(p: Seq<char>, tasks: Seq<Task>, events: Seq<RunnerEvent>)
    requires
        is_run(fresh_state(p), tasks, events),
    ensures
        events.len() == 0 ==> state_after(fresh_state(p), tasks, events).phase == RunnerPhase::Start,
        events.len() == 1 ==> state_after(fresh_state(p), tasks, events).phase == RunnerPhase::CheckingPrivileges,
        events.len() >= 2 ==> {
            &&& events[1] is Exists
            &&& !undecided(state_after(fresh_state(p), tasks, events).phase)
            &&& track_after(fresh_state(p), tasks, events).need == tasks_privileged(tasks, events[1]->present)
        },
    decreases events.len(),
{
    let s0 = fresh_state(p);
    if events.len() > 0 {
        let pre = events.drop_last();
        lemma_first_check(p, tasks, pre);
        lemma_step_shape(state_after(s0, tasks, pre), tasks, events.last());
        if events.len() == 2 {
            assert(events.last() == events[1]);
        } else if events.len() > 2 {
            assert(pre[1] == events[1]);
        }
    }
}

proof fn lemma_privileged_task_at(p: Seq<char>, tasks: Seq<Task>, events: Seq<RunnerEvent>, k: int)
    requires
        tasks.len() <= usize::MAX,
        is_run(fresh_state(p), tasks, events),
        0 <= k < events.len(),
        step_at(fresh_state(p), tasks, events, k).state.phase is Running,
        crate::runner::needs_privileges(
            views(tasks[step_at(fresh_state(p), tasks, events, k).state.phase->Running_index as int].command@),
            events[1]->present,
        ),
    ensures
        track_after(fresh_state(p), tasks, events.take(k)).cached,
{
    let s0 = fresh_state(p);
    lemma_step_at_track(p, tasks, events, k);
    let sk = state_after(s0, tasks, events.take(k));
    lemma_step_shape(sk, tasks, events[k]);
    lemma_is_run_prefix(s0, tasks, events, k);
    lemma_first_check(p, tasks, events.take(k));
    let index = step_at(s0, tasks, events, k).state.phase->Running_index;
    assert(sk.phase == RunnerPhase::Resolving { index });
    assert(events.take(k)[1] == events[1]);
    assert(tasks_privileged(tasks, events[1]->present)) by {
        assert(0 <= index < tasks.len()) by {
            lemma_run_ends(s0, tasks, events.take(k));
        }
    }
}

/// No task that needs sudo is started before caching the credentials
/// succeeded: whether a task needs sudo is judged, as the run judges it, by
/// whether `flatpak` was on PATH when the run began (the answer to its
/// second event).
pub proof fn lemma_privileged_tasks_wait_for_sudo(p: Seq<char>, tasks: Seq<Task>, events: Seq<RunnerEvent>)
    requires
        tasks.len() <= usize::MAX,
        is_run(fresh_state(p), tasks, events),
    ensures
        forall|k: int|
            0 <= k < events.len() && (#[trigger] step_at(fresh_state(p), tasks, events, k)).state.phase
                is Running && crate::runner::needs_privileges(
                views(tasks[step_at(fresh_state(p), tasks, events, k).state.phase->Running_index as int].command@),
                events[1]->present,
            ) ==> track_after(fresh_state(p), tasks, events.take(k)).cached,
{
    assert forall|k: int|
        0 <= k < events.len() && (#[trigger] step_at(fresh_state(p), tasks, events, k)).state.phase is Running
            && crate::runner::needs_privileges(
            views(tasks[step_at(fresh_state(p), tasks, events, k).state.phase->Running_index as int].command@),
            events[1]->present,
        ) implies track_after(fresh_state(p), tasks, events.take(k)).cached by {
        lemma_privileged_task_at(p, tasks, events, k);
    }
}

} // verus!
