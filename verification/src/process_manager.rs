//! The life of the server process. What is known of the process and what is
//! decided about it is here; the process itself, the waiting and the connecting
//! are the caller's, who reports what came of them.
//!
//! Points in time are nanoseconds since some fixed moment.
use std::collections::VecDeque;

use vstd::prelude::*;

use crate::lines::{join_strings, joined, strings};
use crate::number::{decimal, decimal_string, push_decimal};
use crate::replace_lines_tool::opt_str_view;
use crate::search::{contains, replace_chars, replaced, replacing_what_is_absent_changes_nothing};
use crate::text::{chars_of, same_str, string_of, trim_end, trim_end_chars};

verus! {

/// How many of the last lines that the server wrote to its standard error are
/// kept.
pub const STDERR_TAIL_CAPACITY: usize = 100;

/// How often a starting server is tried.
pub const MAX_START_ATTEMPTS: u32 = 15;

/// How long the first wait between two tries is, in milliseconds.
pub const BASE_DELAY_MS: u64 = 100;

/// How long the longest wait between two tries is, in milliseconds.
pub const MAX_DELAY_MS: u64 = 5000;

/// How long a server is watched after it accepted a connection, in milliseconds.
pub const SETTLE_MS: u64 = 500;

/// How long the server's last words are waited for, in milliseconds.
pub const STDERR_GRACE_MS: u64 = 100;

/// How long a server that is stopped is given to end by itself, in nanoseconds.
pub const STOP_TIMEOUT_NANOS: u128 = 5_000_000_000;

/// How long a server is waited for at most, from when it is stopped, in
/// nanoseconds.
pub const KILL_TIMEOUT_NANOS: u128 = 10_000_000_000;

/// How long the wait between two looks at a server that is stopped is, in
/// milliseconds.
pub const STOP_POLL_MS: u64 = 200;

/// How long the wait between two looks at an idle server is, in milliseconds.
pub const IDLE_POLL_MS: u64 = 30_000;

/// What the server process is doing.
#[derive(Clone, Copy, Debug, PartialEq, Eq, Structural)]
pub enum ProcessState {
    Stopped,
    Starting,
    Running,
    Stopping,
}

/// What the server process told when it was asked whether it has exited.
#[derive(Debug)]
pub enum ChildPoll {
    Alive,
    Exited,
    /// It could not be asked; why.
    Failed(String),
}

/// What a [`ChildPoll`] holds.
pub enum PollView {
    Alive,
    Exited,
    Failed(Seq<char>),
}

impl View for ChildPoll {
    type V = PollView;

    open spec fn view(&self) -> PollView {
        match *self {
            ChildPoll::Alive => PollView::Alive,
            ChildPoll::Exited => PollView::Exited,
            ChildPoll::Failed(why) => PollView::Failed(why@),
        }
    }
}

/// Why a server did not start.
#[derive(Clone, Copy, Debug, PartialEq, Eq, Structural)]
pub enum StartFailure {
    /// It exited before it accepted a connection.
    ExitedBeforeConnecting,
    /// It exited right after it accepted a connection.
    ExitedAfterConnecting,
    /// It never accepted a connection.
    Unhealthy,
}

/// How far a start has come.
#[derive(Clone, Copy, Debug, PartialEq, Eq, Structural)]
pub enum StartPhase {
    /// The process is asked whether it is alive.
    Checking,
    /// A connection to it is tried.
    Connecting,
    /// It accepted a connection, and is given a moment.
    Settling,
    /// It is asked once more whether it is alive.
    Confirming,
    /// It accepted no connection, and is given time.
    BackingOff,
    /// It exited, and is left alone for a while before it is started again.
    Recovering,
    /// It is started again.
    Respawning,
    /// It was started again while it was being stopped, and is killed.
    Discarding,
    /// It is killed.
    Killing,
    /// Its last words are waited for.
    Reporting(StartFailure),
    /// The start is over.
    Done,
}

/// A start under way: which attempt it is at, counted from 0, and how far that
/// has come.
#[derive(Clone, Copy, Debug, PartialEq, Eq, Structural)]
pub struct StartRun {
    pub attempt: u32,
    pub phase: StartPhase,
}

/// What came of the last thing that a start asked for.
#[derive(Debug)]
pub enum StartEvent {
    ChildPolled(ChildPoll),
    Connected(bool),
    Slept,
    Killed,
    Respawned,
    /// The process could not be started again; why.
    RespawnFailed(String),
}

/// What a [`StartEvent`] holds.
pub enum StartEventView {
    ChildPolled(PollView),
    Connected(bool),
    Slept,
    Killed,
    Respawned,
    RespawnFailed(Seq<char>),
}

impl View for StartEvent {
    type V = StartEventView;

    open spec fn view(&self) -> StartEventView {
        match *self {
            StartEvent::ChildPolled(poll) => StartEventView::ChildPolled(poll@),
            StartEvent::Connected(yes) => StartEventView::Connected(yes),
            StartEvent::Slept => StartEventView::Slept,
            StartEvent::Killed => StartEventView::Killed,
            StartEvent::Respawned => StartEventView::Respawned,
            StartEvent::RespawnFailed(why) => StartEventView::RespawnFailed(why@),
        }
    }
}

/// What a start asks for next.
#[derive(Debug)]
pub enum StartAction {
    PollChild,
    Connect,
    /// Wait, for so many milliseconds.
    Sleep(u64),
    KillChild,
    /// Start the process again, as it was started.
    Respawn,
    /// The server runs, on this port.
    Succeed(u16),
    /// The server does not run; why.
    Fail(String),
}

/// What a [`StartAction`] holds.
pub enum StartActionView {
    PollChild,
    Connect,
    Sleep(u64),
    KillChild,
    Respawn,
    Succeed(u16),
    Fail(Seq<char>),
}

impl View for StartAction {
    type V = StartActionView;

    open spec fn view(&self) -> StartActionView {
        match *self {
            StartAction::PollChild => StartActionView::PollChild,
            StartAction::Connect => StartActionView::Connect,
            StartAction::Sleep(ms) => StartActionView::Sleep(ms),
            StartAction::KillChild => StartActionView::KillChild,
            StartAction::Respawn => StartActionView::Respawn,
            StartAction::Succeed(port) => StartActionView::Succeed(port),
            StartAction::Fail(why) => StartActionView::Fail(why@),
        }
    }
}

/// What has to be done so that a model can be asked.
#[derive(Clone, Copy, Debug, PartialEq, Eq, Structural)]
pub enum EnsureAction {
    /// Nothing: the server runs with the model.
    Reuse,
    /// Start the server.
    Start,
    /// Stop the server, which runs with another model, and start it.
    Restart,
}

/// What is to be done about an idle server.
#[derive(Clone, Copy, Debug, PartialEq, Eq, Structural)]
pub enum IdleAction {
    /// Stop it.
    Stop,
    /// Watch it no longer: it does not run.
    Quit,
    /// Look again later.
    Wait,
}

/// How far a stop has come.
#[derive(Clone, Copy, Debug, PartialEq, Eq, Structural)]
pub enum StopPhase {
    /// There is a process, which nothing was done about yet.
    Asking,
    /// The process was asked to end, and is given time.
    Ending,
    /// The process was killed.
    Killing,
    /// There is no process.
    Gone,
    /// The stop is over.
    Done,
}

/// A stop under way.
#[derive(Clone, Copy, Debug, PartialEq, Eq, Structural)]
pub struct StopRun {
    pub phase: StopPhase,
}

/// What a stop asks for next.
#[derive(Clone, Copy, Debug, PartialEq, Eq, Structural)]
pub enum StopAction {
    /// Ask the process to end (`SIGTERM`).
    Terminate,
    /// Wait, for so many milliseconds.
    Wait(u64),
    /// Kill the process (`SIGKILL`).
    Kill,
    /// Nothing: the stop is over.
    Done,
}

/// How far a watch of the server has come.
#[derive(Clone, Copy, Debug, PartialEq, Eq, Structural)]
pub enum WatchPhase {
    /// The server is left alone for a while.
    Waiting,
    /// The server has exited, which is reported.
    Reporting,
    /// The watch is over.
    Done,
}

/// A watch of the server: after how many seconds without use it is stopped, never
/// where there is none, and how far the watch has come.
#[derive(Clone, Copy, Debug, PartialEq, Eq, Structural)]
pub struct IdleWatch {
    pub idle_timeout_seconds: Option<u64>,
    pub phase: WatchPhase,
}

/// What a watch asks for next.
#[derive(Clone, Copy, Debug, PartialEq, Eq, Structural)]
pub enum WatchAction {
    /// Wait, for so many milliseconds.
    Sleep(u64),
    /// Carry this stop through: the watch is over.
    Stop(StopRun),
    /// Tell that the server has exited.
    ReportExit,
    /// Start the server again, with its model: the watch is over.
    Restart,
    /// Nothing: the watch is over.
    Quit,
}

/// What is known of the server process.
pub struct ProcessManager {
    state: ProcessState,
    has_child: bool,
    port: u16,
    last_used: u128,
    model: Option<String>,
    stderr_tail: VecDeque<String>,
}

/// What a [`ProcessManager`] holds: what the process is doing, whether there is
/// one, the port that it listens on, when it was last used, the model that it
/// was started with, and the last lines that it wrote to its standard error.
pub struct ManagerView {
    pub state: ProcessState,
    pub has_child: bool,
    pub port: u16,
    pub last_used: u128,
    pub model: Option<Seq<char>>,
    pub tail: Seq<Seq<char>>,
}

impl View for ProcessManager {
    type V = ManagerView;

    closed spec fn view(&self) -> ManagerView {
        ManagerView {
            state: self.state,
            has_child: self.has_child,
            port: self.port,
            last_used: self.last_used,
            model: match self.model {
                Some(model) => Some(model@),
                None => None,
            },
            tail: strings(self.stderr_tail@),
        }
    }
}

/// A manager of a server that was not started yet.
pub open spec fn fresh(port: u16, now: u128) -> ManagerView {
    ManagerView {
        state: ProcessState::Stopped,
        has_child: false,
        port,
        last_used: now,
        model: None,
        tail: Seq::empty(),
    }
}

/// A manager whose server process was just spawned.
pub open spec fn spawned(m: ManagerView, now: u128, model: Option<Seq<char>>) -> ManagerView {
    ManagerView {
        state: ProcessState::Starting,
        has_child: true,
        last_used: now,
        model,
        tail: Seq::empty(),
        ..m
    }
}

/// Whether the server runs, `poll` being what its process told.
pub open spec fn runs(m: ManagerView, poll: PollView) -> bool {
    m.state == ProcessState::Running && m.has_child && poll is Alive
}

/// What has to be done so that `model` can be asked.
pub open spec fn ensure_decision(m: ManagerView, poll: PollView, model: Seq<char>) -> EnsureAction {
    if !runs(m, poll) {
        EnsureAction::Start
    } else if m.model == Some(model) {
        EnsureAction::Reuse
    } else {
        EnsureAction::Restart
    }
}

/// A server that runs with a model serves that model without another start, and
/// is restarted for any other.
pub proof fn a_running_server_is_reused_for_its_model_alone(
    m: ManagerView,
    now: u128,
    started: Seq<char>,
    wanted: Seq<char>,
)
    ensures
        ({
            let running = in_state(spawned(m, now, Some(started)), ProcessState::Running);
            ensure_decision(running, PollView::Alive, wanted) == (if wanted == started {
                EnsureAction::Reuse
            } else {
                EnsureAction::Restart
            })
        }),
{
}

/// A server whose process has exited is started again for the next request,
/// whatever model that is for.
pub proof fn a_server_that_exited_is_started_for_the_next_request(
    m: ManagerView,
    model: Seq<char>,
)
    ensures
        ensure_decision(m, PollView::Exited, model) == EnsureAction::Start,
{
}

/// `base` doubled `n` times.
pub open spec fn doubled(base: nat, n: nat) -> nat
    decreases n,
{
    if n == 0 {
        base
    } else {
        2 * doubled(base, (n - 1) as nat)
    }
}

/// How long to wait behind the attempt `attempt`, in milliseconds: twice as long
/// as behind the one before, up to the longest wait.
pub open spec fn delay_after(attempt: u32) -> nat {
    let ms = doubled(BASE_DELAY_MS as nat, attempt as nat);
    if ms < MAX_DELAY_MS {
        ms
    } else {
        MAX_DELAY_MS as nat
    }
}

/// `message`, and the server's last words behind it, if there are any.
pub open spec fn with_last_words(message: Seq<char>, words: Seq<char>) -> Seq<char> {
    if words.len() > 0 {
        message + ": "@ + words
    } else {
        message
    }
}

/// What is answered where a start failed.
pub open spec fn failure_message(failure: StartFailure, words: Seq<char>) -> Seq<char> {
    match failure {
        StartFailure::ExitedBeforeConnecting => with_last_words(
            "Server process exited unexpectedly during startup"@,
            words,
        ),
        StartFailure::ExitedAfterConnecting => with_last_words(
            "Server process exited during startup"@,
            words,
        ),
        StartFailure::Unhealthy => with_last_words(
            "Server did not become healthy after "@ + decimal(MAX_START_ATTEMPTS as nat)
                + " attempts"@,
            words,
        ),
    }
}

/// The last words of the server: the lines kept, with line feeds between them.
pub open spec fn last_words(m: ManagerView) -> Seq<char> {
    joined(m.tail, "\n"@)
}

/// Whether `event` is what a start at `phase` waits for.
pub open spec fn awaits(phase: StartPhase, event: StartEventView) -> bool {
    match phase {
        StartPhase::Checking | StartPhase::Confirming => event is ChildPolled,
        StartPhase::Connecting => event is Connected,
        StartPhase::Settling | StartPhase::BackingOff | StartPhase::Recovering
        | StartPhase::Reporting(_) => event is Slept,
        StartPhase::Respawning => event is Respawned || event is RespawnFailed,
        StartPhase::Killing | StartPhase::Discarding => event is Killed,
        StartPhase::Done => false,
    }
}

/// A step of a start: the manager, the start and what it asks for, all after the
/// step.
pub struct StartStep {
    pub manager: ManagerView,
    pub run: StartRun,
    pub action: StartActionView,
}

/// `m` in the state `state`.
pub open spec fn in_state(m: ManagerView, state: ProcessState) -> ManagerView {
    ManagerView { state, ..m }
}

/// `m` in the state `state`, and without a process.
pub open spec fn bereft(m: ManagerView, state: ProcessState) -> ManagerView {
    ManagerView { state, has_child: false, ..m }
}

/// What is answered where the server was stopped while it started.
pub open spec fn cancelled(m: ManagerView, run: StartRun) -> StartStep {
    StartStep {
        manager: m,
        run: StartRun { phase: StartPhase::Done, ..run },
        action: StartActionView::Fail("Server start was cancelled"@),
    }
}

/// What a start comes to when the process has exited: it is started again after a
/// while, as long as there are attempts left; else the start fails.
pub open spec fn crashed(m: ManagerView, run: StartRun, failure: StartFailure) -> StartStep {
    if run.attempt + 1 < MAX_START_ATTEMPTS {
        StartStep {
            manager: bereft(m, m.state),
            run: StartRun { phase: StartPhase::Recovering, ..run },
            action: StartActionView::Sleep(delay_after(run.attempt) as u64),
        }
    } else {
        StartStep {
            manager: bereft(m, ProcessState::Stopped),
            run: StartRun { phase: StartPhase::Reporting(failure), ..run },
            action: StartActionView::Sleep(STDERR_GRACE_MS),
        }
    }
}

/// What a start comes to when `event` happens.
pub open spec fn start_step(m: ManagerView, run: StartRun, event: StartEventView) -> StartStep {
    let at = |phase: StartPhase| StartRun { phase, ..run };
    match (run.phase, event) {
        (StartPhase::Checking, StartEventView::ChildPolled(poll)) => {
            if m.state != ProcessState::Starting {
                cancelled(m, run)
            } else if m.has_child && poll is Exited {
                crashed(m, run, StartFailure::ExitedBeforeConnecting)
            } else if m.has_child && poll is Failed {
                StartStep {
                    manager: m,
                    run: at(StartPhase::Done),
                    action: StartActionView::Fail(poll->Failed_0),
                }
            } else {
                StartStep {
                    manager: m,
                    run: at(StartPhase::Connecting),
                    action: StartActionView::Connect,
                }
            }
        },
        (StartPhase::Connecting, StartEventView::Connected(yes)) => {
            if yes {
                StartStep {
                    manager: m,
                    run: at(StartPhase::Settling),
                    action: StartActionView::Sleep(SETTLE_MS),
                }
            } else {
                StartStep {
                    manager: m,
                    run: at(StartPhase::BackingOff),
                    action: StartActionView::Sleep(delay_after(run.attempt) as u64),
                }
            }
        },
        (StartPhase::Settling, StartEventView::Slept) => StartStep {
            manager: m,
            run: at(StartPhase::Confirming),
            action: StartActionView::PollChild,
        },
        (StartPhase::Confirming, StartEventView::ChildPolled(poll)) => {
            if m.has_child && poll is Exited {
                crashed(m, run, StartFailure::ExitedAfterConnecting)
            } else if m.has_child && poll is Failed {
                StartStep {
                    manager: m,
                    run: at(StartPhase::Done),
                    action: StartActionView::Fail(poll->Failed_0),
                }
            } else {
                StartStep {
                    manager: in_state(m, ProcessState::Running),
                    run: at(StartPhase::Done),
                    action: StartActionView::Succeed(m.port),
                }
            }
        },
        (StartPhase::BackingOff, StartEventView::Slept) => {
            if run.attempt + 1 < MAX_START_ATTEMPTS {
                StartStep {
                    manager: m,
                    run: StartRun {
                        attempt: (run.attempt + 1) as u32,
                        phase: StartPhase::Checking,
                    },
                    action: StartActionView::PollChild,
                }
            } else {
                StartStep {
                    manager: bereft(m, ProcessState::Stopping),
                    run: at(StartPhase::Killing),
                    action: StartActionView::KillChild,
                }
            }
        },
        (StartPhase::Recovering, StartEventView::Slept) => {
            if m.state != ProcessState::Starting {
                cancelled(m, run)
            } else {
                StartStep {
                    manager: m,
                    run: at(StartPhase::Respawning),
                    action: StartActionView::Respawn,
                }
            }
        },
        (StartPhase::Respawning, StartEventView::Respawned) => {
            if m.state != ProcessState::Starting {
                StartStep {
                    manager: m,
                    run: at(StartPhase::Discarding),
                    action: StartActionView::KillChild,
                }
            } else {
                StartStep {
                    manager: ManagerView { has_child: true, ..m },
                    run: StartRun {
                        attempt: (run.attempt + 1) as u32,
                        phase: StartPhase::Checking,
                    },
                    action: StartActionView::PollChild,
                }
            }
        },
        (StartPhase::Respawning, StartEventView::RespawnFailed(why)) => StartStep {
            manager: if m.state == ProcessState::Starting {
                in_state(m, ProcessState::Stopped)
            } else {
                m
            },
            run: at(StartPhase::Done),
            action: StartActionView::Fail(why),
        },
        (StartPhase::Discarding, StartEventView::Killed) => cancelled(m, run),
        (StartPhase::Killing, StartEventView::Killed) => StartStep {
            manager: m,
            run: at(StartPhase::Reporting(StartFailure::Unhealthy)),
            action: StartActionView::Sleep(STDERR_GRACE_MS),
        },
        (StartPhase::Reporting(failure), StartEventView::Slept) => StartStep {
            manager: if failure == StartFailure::Unhealthy {
                in_state(m, ProcessState::Stopped)
            } else {
                m
            },
            run: at(StartPhase::Done),
            action: StartActionView::Fail(failure_message(failure, last_words(m))),
        },
        _ => StartStep {
            manager: m,
            run: at(StartPhase::Done),
            action: StartActionView::Fail(Seq::empty()),
        },
    }
}

/// Whether a start is as starts come to be: no attempt beyond the last, and one is
/// left where the process is started again.
pub open spec fn is_start(run: StartRun) -> bool {
    &&& run.attempt < MAX_START_ATTEMPTS
    &&& run.phase is Recovering || run.phase is Respawning ==> run.attempt + 1
        < MAX_START_ATTEMPTS
}

/// How many steps a start is at most away from its end.
pub open spec fn steps_left(run: StartRun) -> int {
    12 * (MAX_START_ATTEMPTS - run.attempt) + match run.phase {
        StartPhase::Checking => 10int,
        StartPhase::Connecting => 9,
        StartPhase::Settling => 8,
        StartPhase::Confirming => 7,
        StartPhase::BackingOff => 6,
        StartPhase::Recovering => 5,
        StartPhase::Respawning => 4,
        StartPhase::Discarding => 3,
        StartPhase::Killing => 2,
        StartPhase::Reporting(_) => 1,
        StartPhase::Done => 0,
    }
}

/// Every start comes to an end, whatever happens: each step brings it nearer,
/// and no attempt beyond the last is begun.
pub proof fn every_start_ends(m: ManagerView, run: StartRun, event: StartEventView)
    requires
        is_start(run),
        awaits(run.phase, event),
    ensures
        ({
            let step = start_step(m, run, event);
            &&& is_start(step.run)
            &&& 0 < steps_left(step.run) < steps_left(run)
        }),
{
}

/// What a start meets at one of its steps: the manager as it is then, whatever
/// else happened to it in between, and the event.
pub struct Encounter {
    pub manager: ManagerView,
    pub event: StartEventView,
}

/// Whether a start at `run` waits for each of the events that it meets.
pub open spec fn is_history(run: StartRun, met: Seq<Encounter>) -> bool
    decreases met.len(),
{
    met.len() > 0 ==> {
        let now = met.first();
        &&& awaits(run.phase, now.event)
        &&& is_history(start_step(now.manager, run, now.event).run, met.drop_first())
    }
}

/// How often a start at `run` asks for a connection while it meets `met`.
pub open spec fn connections(run: StartRun, met: Seq<Encounter>) -> nat
    decreases met.len(),
{
    if met.len() == 0 {
        0
    } else {
        let step = start_step(met.first().manager, run, met.first().event);
        connections(step.run, met.drop_first()) + (if step.action is Connect {
            1nat
        } else {
            0
        })
    }
}

/// No start takes forever, and none asks for more connections than there are
/// attempts, whatever it meets.
pub proof fn no_start_takes_forever(run: StartRun, met: Seq<Encounter>)
    requires
        is_start(run),
        is_history(run, met),
    ensures
        met.len() < steps_left(run),
        connections(run, met) <= MAX_START_ATTEMPTS - run.attempt,
        !(run.phase is Checking) ==> connections(run, met) <= MAX_START_ATTEMPTS - run.attempt - 1,
    decreases met.len(),
{
    if met.len() > 0 {
        let now = met.first();
        every_start_ends(now.manager, run, now.event);
        no_start_takes_forever(start_step(now.manager, run, now.event).run, met.drop_first());
    }
}

/// A start is over exactly when it has succeeded or failed; until then it asks
/// for something that the next event answers.
pub proof fn a_start_is_over_when_it_answers(m: ManagerView, run: StartRun, event: StartEventView)
    requires
        awaits(run.phase, event),
    ensures
        ({
            let step = start_step(m, run, event);
            &&& step.run.phase is Done <==> step.action is Succeed || step.action is Fail
            &&& step.action is PollChild ==> forall|poll: PollView|
                awaits(step.run.phase, StartEventView::ChildPolled(poll))
            &&& step.action is Connect ==> forall|yes: bool|
                awaits(step.run.phase, StartEventView::Connected(yes))
            &&& step.action is Sleep ==> awaits(step.run.phase, StartEventView::Slept)
            &&& step.action is KillChild ==> awaits(step.run.phase, StartEventView::Killed)
            &&& step.action is Respawn ==> awaits(step.run.phase, StartEventView::Respawned)
                && forall|why: Seq<char>|
                awaits(step.run.phase, StartEventView::RespawnFailed(why))
        }),
{
}

/// A server that exits while it starts is started again, after a wait that grows
/// with the attempts, until there are none left: the start then goes on with the
/// next attempt, with the new process.
pub proof fn a_crashed_server_is_started_again(m: ManagerView, run: StartRun)
    requires
        run.phase is Checking || run.phase is Confirming,
        run.attempt + 1 < MAX_START_ATTEMPTS,
        m.state == ProcessState::Starting,
        m.has_child,
    ensures
        ({
            let exited = start_step(m, run, StartEventView::ChildPolled(PollView::Exited));
            let rested = start_step(exited.manager, exited.run, StartEventView::Slept);
            let again = start_step(rested.manager, rested.run, StartEventView::Respawned);
            &&& exited.action == StartActionView::Sleep(delay_after(run.attempt) as u64)
            &&& !exited.manager.has_child
            &&& rested.action is Respawn
            &&& again.manager == m
            &&& again.run == (StartRun {
                attempt: (run.attempt + 1) as u32,
                phase: StartPhase::Checking,
            })
            &&& again.action is PollChild
        }),
{
}

/// A process that was started again while the server was being stopped is killed,
/// and the start is cancelled.
pub proof fn a_stopped_server_is_not_started_again(m: ManagerView, run: StartRun)
    requires
        m.state != ProcessState::Starting,
        run.phase is Recovering || run.phase is Respawning,
    ensures
        run.phase is Recovering ==> start_step(m, run, StartEventView::Slept) == cancelled(m, run),
        run.phase is Respawning ==> ({
            let step = start_step(m, run, StartEventView::Respawned);
            &&& step.manager == m
            &&& step.action is KillChild
            &&& start_step(m, step.run, StartEventView::Killed) == cancelled(m, step.run)
        }),
{
}

/// A start that succeeds leaves the server running on the manager's port. One
/// that fails leaves its state as it was, or stopped.
pub proof fn a_successful_start_runs(m: ManagerView, run: StartRun, event: StartEventView)
    requires
        awaits(run.phase, event),
    ensures
        ({
            let step = start_step(m, run, event);
            &&& step.action is Succeed ==> step.manager.state == ProcessState::Running
                && step.action == StartActionView::Succeed(m.port)
            &&& step.action is Fail ==> step.manager.state == m.state || step.manager.state
                == ProcessState::Stopped
        }),
{
}

/// A start whose server is being stopped, or was, is cancelled when it looks
/// after its process again, and leaves everything as it is.
pub proof fn stopping_cancels_a_start(m: ManagerView, run: StartRun, poll: PollView)
    requires
        run.phase is Checking,
        m.state != ProcessState::Starting,
    ensures
        ({
            let step = start_step(m, run, StartEventView::ChildPolled(poll));
            &&& step.manager == m
            &&& step.action == StartActionView::Fail("Server start was cancelled"@)
        }),
{
}

/// Once it is being stopped, a server does not run, whatever its process tells.
pub proof fn a_server_being_stopped_does_not_run(m: ManagerView, poll: PollView)
    ensures
        !runs(bereft(m, ProcessState::Stopping), poll),
{
}

/// A server that is used is not stopped for being idle: not before it has been
/// left alone for longer than the timeout.
pub proof fn a_used_server_is_left_running(
    m: ManagerView,
    used: u128,
    now: u128,
    idle_timeout_seconds: u64,
)
    requires
        now - used <= idle_timeout_seconds * 1_000_000_000,
    ensures
        idle_decision(ManagerView { last_used: used, ..m }, now, idle_timeout_seconds)
            != IdleAction::Stop,
{
}

/// Each wait between two attempts is twice as long as the one before, up to the
/// longest; the first is the shortest.
pub proof fn delays_double_up_to_the_longest(attempt: u32)
    requires
        attempt < u32::MAX,
    ensures
        delay_after(0) == BASE_DELAY_MS,
        BASE_DELAY_MS <= delay_after(attempt) <= MAX_DELAY_MS,
        delay_after((attempt + 1) as u32) == (if 2 * delay_after(attempt) < MAX_DELAY_MS {
            2 * delay_after(attempt)
        } else {
            MAX_DELAY_MS as nat
        }),
{
    lemma_doubled_grows(BASE_DELAY_MS as nat, 0, attempt as nat);
}

proof fn lemma_doubled_grows(base: nat, few: nat, many: nat)
    requires
        few <= many,
    ensures
        doubled(base, few) <= doubled(base, many),
    decreases many - few,
{
    if few < many {
        lemma_doubled_grows(base, few, (many - 1) as nat);
    }
}

/// The lines kept after one more was written: at most
/// [`STDERR_TAIL_CAPACITY`], the oldest leaving first.
pub open spec fn kept_with(tail: Seq<Seq<char>>, line: Seq<char>) -> Seq<Seq<char>> {
    if tail.len() >= STDERR_TAIL_CAPACITY {
        tail.drop_first().push(trim_end(line))
    } else {
        tail.push(trim_end(line))
    }
}

/// Never more lines are kept than there is room for.
pub proof fn the_tail_stays_bounded(tail: Seq<Seq<char>>, line: Seq<char>)
    requires
        tail.len() <= STDERR_TAIL_CAPACITY,
    ensures
        kept_with(tail, line).len() <= STDERR_TAIL_CAPACITY,
{
}

/// The lines kept after all of `lines` were written.
pub open spec fn kept_with_all(tail: Seq<Seq<char>>, lines: Seq<Seq<char>>) -> Seq<Seq<char>>
    decreases lines.len(),
{
    if lines.len() == 0 {
        tail
    } else {
        kept_with(kept_with_all(tail, lines.drop_last()), lines.last())
    }
}

/// The lines kept are the last ones written since the start, without the white
/// space at their ends: all of them up to the capacity.
pub proof fn the_last_lines_are_kept(lines: Seq<Seq<char>>)
    ensures
        ({
            let kept = kept_with_all(Seq::empty(), lines);
            let n = if lines.len() < STDERR_TAIL_CAPACITY {
                lines.len() as int
            } else {
                STDERR_TAIL_CAPACITY as int
            };
            &&& kept.len() == n
            &&& forall|i: int|
                0 <= i < n ==> #[trigger] kept[i] == trim_end(lines[lines.len() - n + i])
        }),
    decreases lines.len(),
{
    if lines.len() > 0 {
        the_last_lines_are_kept(lines.drop_last());
        let before = kept_with_all(Seq::empty(), lines.drop_last());
        let kept = kept_with_all(Seq::empty(), lines);
        let n = kept.len() as int;
        assert forall|i: int| 0 <= i < n implies #[trigger] kept[i] == trim_end(
            lines[lines.len() - n + i],
        ) by {
            if i < n - 1 {
                if before.len() >= STDERR_TAIL_CAPACITY {
                    assert(kept[i] == before[i + 1]);
                } else {
                    assert(kept[i] == before[i]);
                }
            }
        }
    }
}

/// An argument for the server, with the port and the model filled in.
pub open spec fn filled_in(argument: Seq<char>, port: u16, model: Option<Seq<char>>) -> Seq<char> {
    replaced(
        replaced(argument, "{port}"@, decimal(port as nat)),
        "{model}"@,
        match model {
            Some(model) => model,
            None => Seq::empty(),
        },
    )
}

/// An argument that mentions neither the port nor the model is passed as it is.
pub proof fn plain_arguments_are_passed_unchanged(
    argument: Seq<char>,
    port: u16,
    model: Option<Seq<char>>,
)
    requires
        !contains(argument, "{port}"@),
        !contains(argument, "{model}"@),
    ensures
        filled_in(argument, port, model) == argument,
{
    let name = match model {
        Some(model) => model,
        None => Seq::empty(),
    };
    replacing_what_is_absent_changes_nothing(argument, "{port}"@, decimal(port as nat));
    replacing_what_is_absent_changes_nothing(argument, "{model}"@, name);
}

/// A step of a stop: the manager, the stop and what it asks for, all after the
/// step.
pub struct StopStep {
    pub manager: ManagerView,
    pub run: StopRun,
    pub action: StopAction,
}

/// `m` once its server has stopped.
pub open spec fn stopped_at(m: ManagerView, now: u128) -> ManagerView {
    ManagerView { state: ProcessState::Stopped, last_used: now, ..m }
}

/// The stop of a server that has a process, as `has_child` tells.
pub open spec fn stop_of(has_child: bool) -> StopRun {
    StopRun {
        phase: if has_child {
            StopPhase::Asking
        } else {
            StopPhase::Gone
        },
    }
}

/// What a stop comes to, `elapsed` after it began, `poll` being what the process
/// told. The process is first asked to end. It is killed where it lives on for too
/// long, or cannot be asked whether it does.
pub open spec fn stop_step(
    m: ManagerView,
    run: StopRun,
    elapsed: u128,
    poll: PollView,
    now: u128,
) -> StopStep {
    let over = StopStep {
        manager: stopped_at(m, now),
        run: StopRun { phase: StopPhase::Done },
        action: StopAction::Done,
    };
    let kill = StopStep {
        manager: m,
        run: StopRun { phase: StopPhase::Killing },
        action: StopAction::Kill,
    };
    let wait = StopStep { manager: m, run, action: StopAction::Wait(STOP_POLL_MS) };
    match (run.phase, poll) {
        (StopPhase::Asking, PollView::Alive) => StopStep {
            manager: m,
            run: StopRun { phase: StopPhase::Ending },
            action: StopAction::Terminate,
        },
        (StopPhase::Ending, PollView::Alive) => if elapsed < STOP_TIMEOUT_NANOS {
            wait
        } else {
            kill
        },
        (StopPhase::Asking | StopPhase::Ending, PollView::Failed(_)) => kill,
        (StopPhase::Asking | StopPhase::Ending, PollView::Exited) => over,
        (StopPhase::Killing, PollView::Alive) => if elapsed < KILL_TIMEOUT_NANOS {
            wait
        } else {
            over
        },
        (StopPhase::Killing | StopPhase::Gone, _) => over,
        (StopPhase::Done, _) => StopStep { manager: m, run, action: StopAction::Done },
    }
}

/// A server that runs is asked to end before anything else, and is killed only
/// where it has not exited: it lives on for longer than it is given, or cannot be
/// asked whether it does.
pub proof fn a_server_is_asked_to_end_before_it_is_killed(
    m: ManagerView,
    run: StopRun,
    elapsed: u128,
    poll: PollView,
    now: u128,
)
    ensures
        stop_step(m, stop_of(true), elapsed, PollView::Alive, now).action is Terminate,
        ({
            let step = stop_step(m, run, elapsed, poll, now);
            step.action is Kill ==> !(poll is Exited) && (poll is Failed || (run.phase is Ending
                && elapsed >= STOP_TIMEOUT_NANOS))
        }),
{
}

/// How many steps a stop is at most away from its end once its time is over.
pub open spec fn stop_steps_left(run: StopRun) -> int {
    match run.phase {
        StopPhase::Asking => 3,
        StopPhase::Ending => 2,
        StopPhase::Killing => 1,
        StopPhase::Gone => 1,
        StopPhase::Done => 0,
    }
}

/// Every stop comes to an end, whatever the process does: once its time is over,
/// each step brings it nearer. It is over exactly when it says so, and then the
/// server is stopped.
pub proof fn every_stop_ends(
    m: ManagerView,
    run: StopRun,
    elapsed: u128,
    poll: PollView,
    now: u128,
)
    requires
        !(run.phase is Done),
    ensures
        ({
            let step = stop_step(m, run, elapsed, poll, now);
            &&& elapsed >= KILL_TIMEOUT_NANOS ==> stop_steps_left(step.run) < stop_steps_left(run)
            &&& step.run.phase is Done <==> step.action is Done
            &&& step.action is Done ==> step.manager == stopped_at(m, now)
            &&& !(step.action is Done) ==> step.manager == m
        }),
{
}

/// How long the server has not been used.
pub open spec fn idle_time(m: ManagerView, now: u128) -> int {
    if now > m.last_used {
        now - m.last_used
    } else {
        0
    }
}

/// What is to be done about a server that may be idle.
pub open spec fn idle_decision(m: ManagerView, now: u128, idle_timeout_seconds: u64) -> IdleAction {
    if m.state != ProcessState::Running {
        IdleAction::Quit
    } else if idle_time(m, now) > idle_timeout_seconds * 1_000_000_000 {
        IdleAction::Stop
    } else {
        IdleAction::Wait
    }
}

/// A step of a watch: the manager, the watch and what it asks for, all after the
/// step.
pub struct WatchStep {
    pub manager: ManagerView,
    pub watch: IdleWatch,
    pub action: WatchAction,
}

/// What a watch finds: whether the server is idle, where it is stopped then.
pub open spec fn watch_decision(
    m: ManagerView,
    now: u128,
    idle_timeout_seconds: Option<u64>,
) -> IdleAction {
    match idle_timeout_seconds {
        Some(seconds) => idle_decision(m, now, seconds),
        None => if m.state != ProcessState::Running {
            IdleAction::Quit
        } else {
            IdleAction::Wait
        },
    }
}

/// What a watch comes to when what it asked for is done, `poll` being what the
/// process told.
pub open spec fn watch_step(
    m: ManagerView,
    watch: IdleWatch,
    poll: PollView,
    now: u128,
) -> WatchStep {
    let at = |phase: WatchPhase| IdleWatch { phase, ..watch };
    let quit = WatchStep {
        manager: m,
        watch: at(WatchPhase::Done),
        action: WatchAction::Quit,
    };
    match watch.phase {
        WatchPhase::Waiting => match watch_decision(m, now, watch.idle_timeout_seconds) {
            IdleAction::Wait => if m.has_child && poll is Exited {
                WatchStep {
                    manager: bereft(m, ProcessState::Stopped),
                    watch: at(WatchPhase::Reporting),
                    action: WatchAction::ReportExit,
                }
            } else {
                WatchStep { manager: m, watch, action: WatchAction::Sleep(IDLE_POLL_MS) }
            },
            IdleAction::Quit => quit,
            IdleAction::Stop => WatchStep {
                manager: bereft(m, ProcessState::Stopping),
                watch: at(WatchPhase::Done),
                action: WatchAction::Stop(stop_of(m.has_child)),
            },
        },
        WatchPhase::Reporting => if m.state == ProcessState::Stopped {
            WatchStep {
                manager: m,
                watch: at(WatchPhase::Done),
                action: WatchAction::Restart,
            }
        } else {
            quit
        },
        WatchPhase::Done => quit,
    }
}

/// A watch leaves a server alone that is not idle and has not exited. It has it
/// stopped exactly where it runs and was not used for longer than the timeout, and
/// never where there is none.
pub proof fn only_idle_servers_are_stopped(
    m: ManagerView,
    watch: IdleWatch,
    poll: PollView,
    now: u128,
)
    requires
        watch.phase is Waiting,
    ensures
        ({
            let step = watch_step(m, watch, poll, now);
            let is_idle = m.state == ProcessState::Running && watch.idle_timeout_seconds is Some
                && idle_time(m, now) > watch.idle_timeout_seconds->0 * 1_000_000_000;
            &&& !is_idle && !(poll is Exited) ==> step.manager == m
            &&& step.action is Stop <==> is_idle
        }),
{
}

/// A running server whose process has exited is reported and started again, with
/// its model, unless it is idle: with a watch for an exit alone, always.
pub proof fn a_watched_server_that_exits_is_started_again(
    m: ManagerView,
    watch: IdleWatch,
    now: u128,
    poll: PollView,
    later: u128,
)
    requires
        watch.phase is Waiting,
        m.state == ProcessState::Running,
        m.has_child,
        watch.idle_timeout_seconds is Some ==> idle_time(m, now)
            <= watch.idle_timeout_seconds->0 * 1_000_000_000,
    ensures
        ({
            let exited = watch_step(m, watch, PollView::Exited, now);
            let reported = watch_step(exited.manager, exited.watch, poll, later);
            &&& exited.action is ReportExit
            &&& exited.manager == bereft(m, ProcessState::Stopped)
            &&& reported.action is Restart
            &&& reported.manager == exited.manager
            &&& reported.manager.model == m.model
        }),
{
}

impl ProcessManager {
    /// The manager of a server on `port` that was not started yet.
    pub fn new(port: u16, now: u128) -> (manager: Self)
        ensures
            manager@ == fresh(port, now),
    {
        let manager = ProcessManager {
            state: ProcessState::Stopped,
            has_child: false,
            port,
            last_used: now,
            model: None,
            stderr_tail: VecDeque::with_capacity(STDERR_TAIL_CAPACITY),
        };
        assert(manager@.tail =~= Seq::empty());
        manager
    }

    /// The port of the server.
    pub fn port(&self) -> (port: u16)
        ensures
            port == self@.port,
    {
        self.port
    }

    /// Whether the server runs, `poll` being what its process told.
    pub fn is_running(&self, poll: &ChildPoll) -> (yes: bool)
        ensures
            yes == runs(self@, poll@),
    {
        let alive = match poll {
            ChildPoll::Alive => true,
            _ => false,
        };
        self.state == ProcessState::Running && self.has_child && alive
    }

    /// Whether the server is being started.
    pub fn is_starting(&self) -> (yes: bool)
        ensures
            yes == (self@.state == ProcessState::Starting),
    {
        self.state == ProcessState::Starting
    }

    /// The model that the server was started with.
    pub fn current_model(&self) -> (model: Option<String>)
        ensures
            match model {
                Some(model) => self@.model == Some(model@),
                None => self@.model is None,
            },
    {
        match &self.model {
            Some(model) => Some(model.clone()),
            None => None,
        }
    }

    /// Notes that the server is used.
    pub fn touch(&mut self, now: u128)
        ensures
            final(self)@ == (ManagerView { last_used: now, ..old(self)@ }),
    {
        self.last_used = now;
    }

    /// What has to be done so that `model` can be asked, `poll` being what the
    /// process told.
    pub fn ensure_model(&self, poll: &ChildPoll, model: &str) -> (action: EnsureAction)
        ensures
            action == ensure_decision(self@, poll@, model@),
    {
        if !self.is_running(poll) {
            return EnsureAction::Start;
        }
        match &self.model {
            Some(current) => if same_str(current.as_str(), model) {
                EnsureAction::Reuse
            } else {
                EnsureAction::Restart
            },
            None => EnsureAction::Restart,
        }
    }

    /// The arguments to start the server with.
    pub fn start_args(&self, server_args: &Vec<String>, model: Option<&str>) -> (args: Vec<String>)
        ensures
            strings(args@) == strings(server_args@).map_values(
                |argument: Seq<char>| filled_in(argument, self@.port, opt_str_view(model)),
            ),
    {
        let port = chars_of(decimal_string(self.port as u128).as_str());
        let name: Vec<char> = match model {
            Some(model) => chars_of(model),
            None => Vec::new(),
        };
        let mut args: Vec<String> = Vec::new();
        let mut i: usize = 0;
        while i < server_args.len()
            invariant
                i <= server_args@.len(),
                args@.len() == i,
                port@ == decimal(self@.port as nat),
                name@ == (match opt_str_view(model) {
                    Some(model) => model,
                    None => Seq::empty(),
                }),
                forall|k: int|
                    0 <= k < i ==> (#[trigger] args@[k])@ == filled_in(
                        server_args@[k]@,
                        self@.port,
                        opt_str_view(model),
                    ),
            decreases server_args@.len() - i,
        {
            let with_port = replace_chars(
                &chars_of(server_args[i].as_str()),
                &chars_of("{port}"),
                &port,
            );
            let with_both = replace_chars(&with_port, &chars_of("{model}"), &name);
            args.push(string_of(&with_both));
            i += 1;
        }
        assert(strings(args@) =~= strings(server_args@).map_values(
            |argument: Seq<char>| filled_in(argument, self@.port, opt_str_view(model)),
        ));
        args
    }

    /// Where the server accepts connections.
    pub fn address(&self) -> (address: String)
        ensures
            address@ == "127.0.0.1:"@ + decimal(self@.port as nat),
    {
        let mut address = "127.0.0.1:".to_owned();
        push_decimal(&mut address, self.port as u128);
        address
    }

    /// Notes that the server's process was spawned, with `model`, and begins the
    /// start: the process is to be asked whether it is alive.
    pub fn start(&mut self, model: Option<&str>, now: u128) -> (run: StartRun)
        ensures
            final(self)@ == spawned(old(self)@, now, opt_str_view(model)),
            run == (StartRun { attempt: 0, phase: StartPhase::Checking }),
    {
        self.stderr_tail.clear();
        self.state = ProcessState::Starting;
        self.has_child = true;
        self.last_used = now;
        self.model = match model {
            Some(model) => Some(model.to_owned()),
            None => None,
        };
        assert(self@.tail =~= Seq::empty());
        StartRun { attempt: 0, phase: StartPhase::Checking }
    }

    /// Takes the start `run` a step further, `event` being what came of the last
    /// thing that it asked for.
    pub fn advance_start(&mut self, run: &mut StartRun, event: StartEvent) -> (action: StartAction)
        requires
            is_start(*old(run)),
            awaits(old(run).phase, event@),
        ensures
            ({
                let step = start_step(old(self)@, *old(run), event@);
                &&& final(self)@ == step.manager
                &&& *final(run) == step.run
                &&& action@ == step.action
            }),
            is_start(*final(run)),
    {
        match (run.phase, event) {
            (StartPhase::Checking, StartEvent::ChildPolled(poll)) => {
                if self.state != ProcessState::Starting {
                    run.phase = StartPhase::Done;
                    return StartAction::Fail("Server start was cancelled".to_owned());
                }
                match self.take_poll(poll) {
                    ChildPoll::Exited => self.recover(run, StartFailure::ExitedBeforeConnecting),
                    ChildPoll::Failed(why) => {
                        run.phase = StartPhase::Done;
                        StartAction::Fail(why)
                    },
                    ChildPoll::Alive => {
                        run.phase = StartPhase::Connecting;
                        StartAction::Connect
                    },
                }
            },
            (StartPhase::Connecting, StartEvent::Connected(yes)) => {
                if yes {
                    run.phase = StartPhase::Settling;
                    StartAction::Sleep(SETTLE_MS)
                } else {
                    run.phase = StartPhase::BackingOff;
                    StartAction::Sleep(start_delay(run.attempt))
                }
            },
            (StartPhase::Settling, StartEvent::Slept) => {
                run.phase = StartPhase::Confirming;
                StartAction::PollChild
            },
            (StartPhase::Confirming, StartEvent::ChildPolled(poll)) => {
                match self.take_poll(poll) {
                    ChildPoll::Exited => self.recover(run, StartFailure::ExitedAfterConnecting),
                    ChildPoll::Failed(why) => {
                        run.phase = StartPhase::Done;
                        StartAction::Fail(why)
                    },
                    ChildPoll::Alive => {
                        self.state = ProcessState::Running;
                        run.phase = StartPhase::Done;
                        StartAction::Succeed(self.port)
                    },
                }
            },
            (StartPhase::BackingOff, StartEvent::Slept) => {
                if run.attempt + 1 < MAX_START_ATTEMPTS {
                    run.attempt = run.attempt + 1;
                    run.phase = StartPhase::Checking;
                    StartAction::PollChild
                } else {
                    self.state = ProcessState::Stopping;
                    self.has_child = false;
                    run.phase = StartPhase::Killing;
                    StartAction::KillChild
                }
            },
            (StartPhase::Recovering, StartEvent::Slept) => {
                if self.state != ProcessState::Starting {
                    run.phase = StartPhase::Done;
                    return StartAction::Fail("Server start was cancelled".to_owned());
                }
                run.phase = StartPhase::Respawning;
                StartAction::Respawn
            },
            (StartPhase::Respawning, StartEvent::Respawned) => {
                if self.state != ProcessState::Starting {
                    run.phase = StartPhase::Discarding;
                    return StartAction::KillChild;
                }
                self.has_child = true;
                run.attempt = run.attempt + 1;
                run.phase = StartPhase::Checking;
                StartAction::PollChild
            },
            (StartPhase::Respawning, StartEvent::RespawnFailed(why)) => {
                if self.state == ProcessState::Starting {
                    self.state = ProcessState::Stopped;
                }
                run.phase = StartPhase::Done;
                StartAction::Fail(why)
            },
            (StartPhase::Discarding, StartEvent::Killed) => {
                run.phase = StartPhase::Done;
                StartAction::Fail("Server start was cancelled".to_owned())
            },
            (StartPhase::Killing, StartEvent::Killed) => {
                run.phase = StartPhase::Reporting(StartFailure::Unhealthy);
                StartAction::Sleep(STDERR_GRACE_MS)
            },
            (StartPhase::Reporting(failure), StartEvent::Slept) => {
                let words = self.read_stderr();
                if failure == StartFailure::Unhealthy {
                    self.state = ProcessState::Stopped;
                }
                run.phase = StartPhase::Done;
                StartAction::Fail(failure_text(failure, words.as_str()))
            },
            _ => {
                run.phase = StartPhase::Done;
                StartAction::Fail(String::new())
            },
        }
    }

    /// Takes the start `run` a step further where its process has exited.
    fn recover(&mut self, run: &mut StartRun, failure: StartFailure) -> (action: StartAction)
        requires
            is_start(*old(run)),
        ensures
            ({
                let step = crashed(old(self)@, *old(run), failure);
                &&& final(self)@ == step.manager
                &&& *final(run) == step.run
                &&& action@ == step.action
            }),
    {
        self.has_child = false;
        if run.attempt + 1 < MAX_START_ATTEMPTS {
            run.phase = StartPhase::Recovering;
            StartAction::Sleep(start_delay(run.attempt))
        } else {
            self.state = ProcessState::Stopped;
            run.phase = StartPhase::Reporting(failure);
            StartAction::Sleep(STDERR_GRACE_MS)
        }
    }

    /// What the process told, if there is one; where there is none, nothing is
    /// wrong with it.
    fn take_poll(&self, poll: ChildPoll) -> (told: ChildPoll)
        ensures
            told@ == (if self@.has_child {
                poll@
            } else {
                PollView::Alive
            }),
    {
        if self.has_child {
            poll
        } else {
            ChildPoll::Alive
        }
    }

    /// Begins to stop the server. The process, if there is one, is then the
    /// caller's.
    pub fn stop(&mut self) -> (run: StopRun)
        ensures
            final(self)@ == bereft(old(self)@, ProcessState::Stopping),
            run == stop_of(old(self)@.has_child),
    {
        let phase = if self.has_child {
            StopPhase::Asking
        } else {
            StopPhase::Gone
        };
        self.state = ProcessState::Stopping;
        self.has_child = false;
        StopRun { phase }
    }

    /// Takes the stop `run` a step further, `elapsed` nanoseconds after it began,
    /// `poll` being what the process told, and once what it asked for is done.
    pub fn advance_stop(
        &mut self,
        run: &mut StopRun,
        elapsed: u128,
        poll: &ChildPoll,
        now: u128,
    ) -> (action: StopAction)
        ensures
            ({
                let step = stop_step(old(self)@, *old(run), elapsed, poll@, now);
                &&& final(self)@ == step.manager
                &&& *final(run) == step.run
                &&& action == step.action
            }),
    {
        match (run.phase, poll) {
            (StopPhase::Asking, ChildPoll::Alive) => {
                run.phase = StopPhase::Ending;
                StopAction::Terminate
            },
            (StopPhase::Ending, ChildPoll::Alive) => {
                if elapsed < STOP_TIMEOUT_NANOS {
                    StopAction::Wait(STOP_POLL_MS)
                } else {
                    run.phase = StopPhase::Killing;
                    StopAction::Kill
                }
            },
            (StopPhase::Asking, ChildPoll::Failed(_)) | (
                StopPhase::Ending,
                ChildPoll::Failed(_),
            ) => {
                run.phase = StopPhase::Killing;
                StopAction::Kill
            },
            (StopPhase::Killing, ChildPoll::Alive) => {
                if elapsed < KILL_TIMEOUT_NANOS {
                    StopAction::Wait(STOP_POLL_MS)
                } else {
                    self.stopped(now);
                    run.phase = StopPhase::Done;
                    StopAction::Done
                }
            },
            (StopPhase::Done, _) => StopAction::Done,
            _ => {
                self.stopped(now);
                run.phase = StopPhase::Done;
                StopAction::Done
            },
        }
    }

    /// Notes that the server has stopped.
    fn stopped(&mut self, now: u128)
        ensures
            final(self)@ == stopped_at(old(self)@, now),
    {
        self.state = ProcessState::Stopped;
        self.last_used = now;
    }

    /// Gives the process, if there is one, to the caller to be killed.
    pub fn take_child(&mut self) -> (kill: bool)
        ensures
            final(self)@ == bereft(old(self)@, old(self)@.state),
            kill == old(self)@.has_child,
    {
        let kill = self.has_child;
        self.has_child = false;
        kill
    }

    /// What is to be done about a server that has not been used for a while.
    pub fn check_idle(&self, now: u128, idle_timeout_seconds: u64) -> (action: IdleAction)
        ensures
            action == idle_decision(self@, now, idle_timeout_seconds),
    {
        if self.state != ProcessState::Running {
            return IdleAction::Quit;
        }
        let idle: u128 = if now > self.last_used {
            now - self.last_used
        } else {
            0
        };
        if idle > idle_timeout_seconds as u128 * 1_000_000_000 {
            IdleAction::Stop
        } else {
            IdleAction::Wait
        }
    }

    /// Begins to watch the server, which is stopped once it was not used for
    /// longer than `idle_timeout_seconds`. It is left alone for
    /// [`IDLE_POLL_MS`] first.
    pub fn spawn_idle_watcher(&self, idle_timeout_seconds: u64) -> (watch: IdleWatch)
        ensures
            watch == (IdleWatch {
                idle_timeout_seconds: Some(idle_timeout_seconds),
                phase: WatchPhase::Waiting,
            }),
    {
        IdleWatch {
            idle_timeout_seconds: Some(idle_timeout_seconds),
            phase: WatchPhase::Waiting,
        }
    }

    /// Begins to watch the server for an exit alone: it is started again then, and
    /// never stopped for being idle. It is left alone for [`IDLE_POLL_MS`] first.
    pub fn spawn_exit_watcher(&self) -> (watch: IdleWatch)
        ensures
            watch == (IdleWatch { idle_timeout_seconds: None, phase: WatchPhase::Waiting }),
    {
        IdleWatch { idle_timeout_seconds: None, phase: WatchPhase::Waiting }
    }

    /// Takes the watch `watch` a step further, once what it asked for is done,
    /// `poll` being what the process told. Where it asks for a stop, the process,
    /// if there is one, is then the caller's.
    pub fn advance_watch(&mut self, watch: &mut IdleWatch, poll: &ChildPoll, now: u128) -> (action:
        WatchAction)
        ensures
            ({
                let step = watch_step(old(self)@, *old(watch), poll@, now);
                &&& final(self)@ == step.manager
                &&& *final(watch) == step.watch
                &&& action == step.action
            }),
    {
        match watch.phase {
            WatchPhase::Waiting => {
                let found = match watch.idle_timeout_seconds {
                    Some(seconds) => self.check_idle(now, seconds),
                    None => if self.state != ProcessState::Running {
                        IdleAction::Quit
                    } else {
                        IdleAction::Wait
                    },
                };
                match found {
                    IdleAction::Wait => {
                        let exited = match poll {
                            ChildPoll::Exited => true,
                            _ => false,
                        };
                        if self.has_child && exited {
                            self.state = ProcessState::Stopped;
                            self.has_child = false;
                            watch.phase = WatchPhase::Reporting;
                            WatchAction::ReportExit
                        } else {
                            WatchAction::Sleep(IDLE_POLL_MS)
                        }
                    },
                    IdleAction::Quit => {
                        watch.phase = WatchPhase::Done;
                        WatchAction::Quit
                    },
                    IdleAction::Stop => {
                        watch.phase = WatchPhase::Done;
                        WatchAction::Stop(self.stop())
                    },
                }
            },
            WatchPhase::Reporting => {
                watch.phase = WatchPhase::Done;
                if self.state == ProcessState::Stopped {
                    WatchAction::Restart
                } else {
                    WatchAction::Quit
                }
            },
            WatchPhase::Done => WatchAction::Quit,
        }
    }

    /// The last lines that the server wrote to its standard error.
    pub fn read_stderr(&self) -> (words: String)
        ensures
            words@ == last_words(self@),
    {
        let mut kept: Vec<String> = Vec::new();
        let mut i: usize = 0;
        while i < self.stderr_tail.len()
            invariant
                i <= self.stderr_tail@.len(),
                kept@.len() == i,
                forall|k: int| 0 <= k < i ==> (#[trigger] kept@[k])@ == self.stderr_tail@[k]@,
            decreases self.stderr_tail@.len() - i,
        {
            kept.push(self.stderr_tail[i].clone());
            i += 1;
        }
        assert(strings(kept@) =~= self@.tail);
        join_strings(&kept, "\n")
    }

    /// Takes what was read from an output of the server: `read` bytes, which make
    /// up `line`, or `None` where reading failed. A line of the standard error is
    /// retained. Tells whether there may be more to read.
    pub fn drain_pipe(&mut self, read: Option<usize>, line: &str, retain: bool) -> (more: bool)
        ensures
            more == (read is Some && read->0 > 0),
            more && retain ==> final(self)@ == (ManagerView {
                tail: kept_with(old(self)@.tail, line@),
                ..old(self)@
            }),
            !(more && retain) ==> final(self)@ == old(self)@,
    {
        match read {
            Some(n) => {
                if n == 0 {
                    return false;
                }
            },
            None => {
                return false;
            },
        }
        if retain {
            let chars = chars_of(line);
            let trimmed = string_of(trim_end_chars(&chars));
            let ghost before = self.stderr_tail@;
            if self.stderr_tail.len() >= STDERR_TAIL_CAPACITY {
                let _ = self.stderr_tail.pop_front();
            }
            self.stderr_tail.push_back(trimmed);
            assert(self@.tail =~= kept_with(strings(before), line@));
        }
        true
    }
}

/// How long to wait behind the attempt `attempt`, in milliseconds.
pub fn start_delay(attempt: u32) -> (ms: u64)
    ensures
        ms == delay_after(attempt),
{
    let mut ms: u64 = BASE_DELAY_MS;
    let mut i: u32 = 0;
    while i < attempt && ms < MAX_DELAY_MS
        invariant
            i <= attempt,
            ms < 2 * MAX_DELAY_MS,
            ms == doubled(BASE_DELAY_MS as nat, i as nat),
        decreases attempt - i,
    {
        ms = 2 * ms;
        i += 1;
    }
    proof {
        lemma_doubled_grows(BASE_DELAY_MS as nat, i as nat, attempt as nat);
    }
    if ms < MAX_DELAY_MS {
        ms
    } else {
        MAX_DELAY_MS
    }
}

/// What is answered where a start failed.
fn failure_text(failure: StartFailure, words: &str) -> (text: String)
    ensures
        text@ == failure_message(failure, words@),
{
    let mut text = match failure {
        StartFailure::ExitedBeforeConnecting => {
            "Server process exited unexpectedly during startup".to_owned()
        },
        StartFailure::ExitedAfterConnecting => "Server process exited during startup".to_owned(),
        StartFailure::Unhealthy => {
            let mut text = "Server did not become healthy after ".to_owned();
            push_decimal(&mut text, MAX_START_ATTEMPTS as u128);
            text.append(" attempts");
            text
        },
    };
    if !words.is_empty() {
        text.append(": ");
        text.append(words);
    }
    text
}

/// What is answered where the server's process could not be spawned.
pub open spec fn spawn_failure(binary: Seq<char>, args: Seq<Seq<char>>) -> Seq<char> {
    "failed to spawn "@ + binary + " "@ + joined(args, " "@)
}

/// What is answered where the server's process could not be spawned.
pub fn spawn_error(binary: &str, args: &Vec<String>) -> (text: String)
    ensures
        text@ == spawn_failure(binary@, strings(args@)),
{
    let mut text = "failed to spawn ".to_owned();
    text.append(binary);
    text.append(" ");
    text.append(join_strings(args, " ").as_str());
    text
}

/// The name of the thread that reads the output of the server called `label`.
pub fn drainer_name(label: &str) -> (name: String)
    ensures
        name@ == "mlx-"@ + label@ + "-drainer"@,
{
    let mut name = "mlx-".to_owned();
    name.append(label);
    name.append("-drainer");
    name
}

/// The places where a program called `name` may be, for a user whose home is
/// `home`.
pub open spec fn candidates(name: Seq<char>, home: Seq<char>) -> Seq<Seq<char>> {
    seq![
        home + "/.local/bin/"@ + name,
        home + "/miniforge3/bin/"@ + name,
        home + "/miniconda3/bin/"@ + name,
        home + "/anaconda3/bin/"@ + name,
        "/opt/homebrew/bin/"@ + name,
        "/usr/local/bin/"@ + name,
    ]
}

/// The first of `candidates`, from `from` on, that exists; `name` where none
/// does.
pub open spec fn first_existing(
    candidates: Seq<Seq<char>>,
    exists: Seq<bool>,
    name: Seq<char>,
    from: int,
) -> Seq<char>
    decreases candidates.len() - from,
{
    if from < 0 || from >= candidates.len() {
        name
    } else if exists[from] {
        candidates[from]
    } else {
        first_existing(candidates, exists, name, from + 1)
    }
}

fn candidate(home: &str, dir: &str, name: &str) -> (path: String)
    ensures
        path@ == home@ + dir@ + name@,
{
    let mut path = home.to_owned();
    path.append(dir);
    path.append(name);
    path
}

/// The places where a program called `name` may be, for a user whose home is
/// `home`.
pub fn binary_candidates(name: &str, home: &str) -> (paths: Vec<String>)
    ensures
        strings(paths@) == candidates(name@, home@),
{
    let mut paths: Vec<String> = Vec::new();
    paths.push(candidate(home, "/.local/bin/", name));
    paths.push(candidate(home, "/miniforge3/bin/", name));
    paths.push(candidate(home, "/miniconda3/bin/", name));
    paths.push(candidate(home, "/anaconda3/bin/", name));
    let mut homebrew = "/opt/homebrew/bin/".to_owned();
    homebrew.append(name);
    paths.push(homebrew);
    let mut local = "/usr/local/bin/".to_owned();
    local.append(name);
    paths.push(local);
    assert(strings(paths@) =~= candidates(name@, home@));
    paths
}

/// The program to run for `name`: a name with a slash stands for itself, any
/// other for the first of its candidates that exists, as `exists` tells of each,
/// and else for itself, to be found by the system.
pub fn resolve_binary(name: &str, home: &str, exists: &Vec<bool>) -> (binary: String)
    requires
        exists@.len() == candidates(name@, home@).len(),
    ensures
        binary@ == (if name@.contains('/') {
            name@
        } else {
            first_existing(candidates(name@, home@), exists@, name@, 0)
        }),
{
    let chars = chars_of(name);
    let mut k: usize = 0;
    while k < chars.len()
        invariant
            k <= chars@.len(),
            chars@ == name@,
            forall|j: int| 0 <= j < k ==> chars@[j] != '/',
        decreases chars@.len() - k,
    {
        if chars[k] == '/' {
            assert(name@[k as int] == '/');
            return name.to_owned();
        }
        k += 1;
    }
    let paths = binary_candidates(name, home);
    let ghost all = candidates(name@, home@);
    let mut i: usize = 0;
    while i < paths.len()
        invariant
            i <= paths@.len(),
            strings(paths@) == all,
            exists@.len() == all.len(),
            !name@.contains('/'),
            all == candidates(name@, home@),
            first_existing(all, exists@, name@, 0) == first_existing(
                all,
                exists@,
                name@,
                i as int,
            ),
        decreases paths@.len() - i,
    {
        if exists[i] {
            assert(all[i as int] == paths@[i as int]@);
            return paths[i].clone();
        }
        i += 1;
    }
    name.to_owned()
}

/// How often a start is tried, how long is waited for what, and how many lines are
/// kept.
pub proof fn the_limits_are_these()
    ensures
        STDERR_TAIL_CAPACITY == 100,
        MAX_START_ATTEMPTS == 15,
        BASE_DELAY_MS == 100,
        MAX_DELAY_MS == 5000,
        SETTLE_MS == 500,
        STDERR_GRACE_MS == 100,
        STOP_TIMEOUT_NANOS == 5_000_000_000,
        KILL_TIMEOUT_NANOS == 10_000_000_000,
        STOP_POLL_MS == 200,
        IDLE_POLL_MS == 30_000,
{
}

/// A server that was not started yet is stopped; one that was just spawned is
/// starting, with its model and without words of an earlier one. It keeps its port.
pub proof fn a_spawned_server_is_starting(
    m: ManagerView,
    port: u16,
    now: u128,
    model: Option<Seq<char>>,
)
    ensures
        fresh(port, now) == (ManagerView {
            state: ProcessState::Stopped,
            has_child: false,
            port,
            last_used: now,
            model: None,
            tail: Seq::empty(),
        }),
        spawned(m, now, model) == (ManagerView {
            state: ProcessState::Starting,
            has_child: true,
            port: m.port,
            last_used: now,
            model,
            tail: Seq::empty(),
        }),
{
}

/// A server runs exactly where it came to run, has a process, and that process is
/// alive. One that does not run is started for the next request, whatever for; one
/// that runs serves its model, and is started anew for any other.
pub proof fn only_a_live_server_is_reused(m: ManagerView, poll: PollView, model: Seq<char>)
    ensures
        runs(m, poll) <==> m.state == ProcessState::Running && m.has_child && poll
            == PollView::Alive,
        !runs(m, poll) <==> ensure_decision(m, poll, model) == EnsureAction::Start,
        runs(m, poll) && m.model is Some && m.model->0 == model <==> ensure_decision(
            m,
            poll,
            model,
        ) == EnsureAction::Reuse,
{
}

/// A start whose process lives and accepts a connection gives it a moment and looks
/// at it once more; where it still lives, the server runs, and nothing else of it has
/// changed.
pub proof fn a_server_that_answers_is_started(m: ManagerView, run: StartRun)
    requires
        run.phase is Checking,
        m.state == ProcessState::Starting,
    ensures
        ({
            let alive = StartEventView::ChildPolled(PollView::Alive);
            let checked = start_step(m, run, alive);
            let answered = start_step(checked.manager, checked.run, StartEventView::Connected(true));
            let rested = start_step(answered.manager, answered.run, StartEventView::Slept);
            let done = start_step(rested.manager, rested.run, alive);
            &&& checked.action is Connect
            &&& checked.manager == m
            &&& answered.action == StartActionView::Sleep(500)
            &&& answered.manager == m
            &&& rested.action is PollChild
            &&& rested.manager == m
            &&& done.action == StartActionView::Succeed(m.port)
            &&& done.manager == (ManagerView { state: ProcessState::Running, ..m })
            &&& done.run.attempt == run.attempt
        }),
{
}

/// A start whose process lives but accepts no connection waits, and begins the next
/// attempt. Behind the last one the process is killed, the server is stopped, and the
/// answer tells the number of attempts and the server's last words.
pub proof fn a_server_that_does_not_answer_is_given_up(m: ManagerView, run: StartRun)
    requires
        run.phase is Checking,
        run.attempt < 15,
        m.state == ProcessState::Starting,
    ensures
        ({
            let alive = StartEventView::ChildPolled(PollView::Alive);
            let checked = start_step(m, run, alive);
            let refused = start_step(checked.manager, checked.run, StartEventView::Connected(false));
            let rested = start_step(refused.manager, refused.run, StartEventView::Slept);
            let killed = start_step(rested.manager, rested.run, StartEventView::Killed);
            let done = start_step(killed.manager, killed.run, StartEventView::Slept);
            let message = "Server did not become healthy after "@ + decimal(15) + " attempts"@;
            &&& checked.action is Connect
            &&& refused.action == StartActionView::Sleep(delay_after(run.attempt) as u64)
            &&& refused.manager == m
            &&& run.attempt < 14 ==> {
                &&& rested.action is PollChild
                &&& rested.manager == m
                &&& rested.run == (StartRun {
                    attempt: (run.attempt + 1) as u32,
                    phase: StartPhase::Checking,
                })
            }
            &&& run.attempt == 14 ==> {
                &&& rested.action is KillChild
                &&& rested.manager == (ManagerView {
                    state: ProcessState::Stopping,
                    has_child: false,
                    ..m
                })
                &&& killed.action == StartActionView::Sleep(100)
                &&& killed.manager == rested.manager
                &&& done.manager == (ManagerView {
                    state: ProcessState::Stopped,
                    has_child: false,
                    ..m
                })
                &&& done.action == StartActionView::Fail(
                    if joined(m.tail, "\n"@).len() > 0 {
                        message + ": "@ + joined(m.tail, "\n"@)
                    } else {
                        message
                    },
                )
            }
        }),
{
}

/// A server that exits at the last attempt is stopped. The answer tells whether it
/// exited before or behind its first connection, and its last words.
pub proof fn a_server_that_keeps_exiting_is_given_up(m: ManagerView, run: StartRun)
    requires
        run.phase is Checking || run.phase is Confirming,
        run.attempt == 14,
        m.state == ProcessState::Starting,
        m.has_child,
    ensures
        ({
            let exited = start_step(m, run, StartEventView::ChildPolled(PollView::Exited));
            let done = start_step(exited.manager, exited.run, StartEventView::Slept);
            let message = if run.phase is Checking {
                "Server process exited unexpectedly during startup"@
            } else {
                "Server process exited during startup"@
            };
            &&& exited.action == StartActionView::Sleep(100)
            &&& exited.manager == (ManagerView {
                state: ProcessState::Stopped,
                has_child: false,
                ..m
            })
            &&& done.manager == exited.manager
            &&& done.action == StartActionView::Fail(
                if joined(m.tail, "\n"@).len() > 0 {
                    message + ": "@ + joined(m.tail, "\n"@)
                } else {
                    message
                },
            )
        }),
{
}

/// A start that cannot ask its process, or cannot start it again, fails with the
/// reason for that. One whose process is gone goes on as if it lived: the connection
/// will tell.
pub proof fn a_start_fails_for_the_reason_told(
    m: ManagerView,
    run: StartRun,
    why: Seq<char>,
    poll: PollView,
)
    requires
        m.state == ProcessState::Starting,
    ensures
        m.has_child && (run.phase is Checking || run.phase is Confirming) ==> {
            let step = start_step(m, run, StartEventView::ChildPolled(PollView::Failed(why)));
            &&& step.action == StartActionView::Fail(why)
            &&& step.manager == m
        },
        run.phase is Respawning ==> {
            let step = start_step(m, run, StartEventView::RespawnFailed(why));
            &&& step.action == StartActionView::Fail(why)
            &&& step.manager == (ManagerView { state: ProcessState::Stopped, ..m })
        },
        !m.has_child && (run.phase is Checking || run.phase is Confirming) ==> start_step(
            m,
            run,
            StartEventView::ChildPolled(poll),
        ) == start_step(m, run, StartEventView::ChildPolled(PollView::Alive)),
{
}

/// A start that is cancelled leaves everything as it is, and says that it was. What
/// came of starting its process again is then of no account.
pub proof fn a_cancelled_start_says_so(m: ManagerView, run: StartRun, why: Seq<char>)
    ensures
        cancelled(m, run).manager == m,
        cancelled(m, run).run == (StartRun { attempt: run.attempt, phase: StartPhase::Done }),
        cancelled(m, run).action == StartActionView::Fail("Server start was cancelled"@),
        m.state != ProcessState::Starting && run.phase is Respawning ==> {
            let step = start_step(m, run, StartEventView::RespawnFailed(why));
            step.manager == m && step.action == StartActionView::Fail(why)
        },
{
}

/// A stop asks a live process to end and gives it five seconds; then it kills it, and
/// waits for it until ten have gone. A process that cannot be asked is killed. Once it
/// has exited, or where there was none, the server is stopped, as of now, and nothing
/// else of it has changed.
pub proof fn a_stop_goes_from_asking_to_killing(
    m: ManagerView,
    elapsed: u128,
    why: Seq<char>,
    poll: PollView,
    now: u128,
)
    ensures
        ({
            let at = |phase: StopPhase, told: PollView|
                stop_step(m, StopRun { phase }, elapsed, told, now);
            let over = ManagerView { state: ProcessState::Stopped, last_used: now, ..m };
            let asked = at(StopPhase::Asking, PollView::Alive);
            let ending = at(StopPhase::Ending, PollView::Alive);
            let killing = at(StopPhase::Killing, PollView::Alive);
            &&& stop_of(true).phase is Asking
            &&& stop_of(false).phase is Gone
            &&& asked.action is Terminate && asked.run.phase is Ending && asked.manager == m
            &&& ending.manager == m
            &&& elapsed < 5_000_000_000 ==> ending.action == StopAction::Wait(200)
                && ending.run.phase is Ending
            &&& elapsed >= 5_000_000_000 ==> ending.action is Kill && ending.run.phase is Killing
            &&& elapsed < 10_000_000_000 ==> killing.action == StopAction::Wait(200)
                && killing.run.phase is Killing && killing.manager == m
            &&& elapsed >= 10_000_000_000 ==> killing.action is Done && killing.manager == over
            &&& at(StopPhase::Asking, PollView::Failed(why)).action is Kill
            &&& at(StopPhase::Ending, PollView::Failed(why)).action is Kill
            &&& at(StopPhase::Asking, PollView::Exited).action is Done
            &&& at(StopPhase::Asking, PollView::Exited).manager == over
            &&& at(StopPhase::Ending, PollView::Exited).action is Done
            &&& at(StopPhase::Ending, PollView::Exited).manager == over
            &&& !(poll is Alive) ==> at(StopPhase::Killing, poll).action is Done && at(
                StopPhase::Killing,
                poll,
            ).manager == over
            &&& at(StopPhase::Gone, poll).action is Done && at(StopPhase::Gone, poll).manager
                == over
            &&& at(StopPhase::Done, poll).action is Done && at(StopPhase::Done, poll).manager == m
        }),
{
}

/// A watch looks every thirty seconds. A running server that was last used longer ago
/// than the timeout is stopped, and asked to end where it has a process; one that does
/// not run is watched no longer; any other is left alone, unless it has exited.
pub proof fn a_watch_goes_by_the_last_use(
    m: ManagerView,
    watch: IdleWatch,
    poll: PollView,
    now: u128,
    seconds: u64,
)
    requires
        watch.phase is Waiting,
    ensures
        ({
            let step = watch_step(m, watch, poll, now);
            let timed = watch.idle_timeout_seconds == Some(seconds);
            let is_idle = timed && now - m.last_used > seconds * 1_000_000_000;
            let is_used = timed && now - m.last_used <= seconds * 1_000_000_000
                || watch.idle_timeout_seconds is None;
            &&& m.state != ProcessState::Running ==> step.action is Quit && step.manager == m
                && step.watch.phase is Done
            &&& m.state == ProcessState::Running && is_idle ==> {
                &&& step.action is Stop
                &&& step.action->Stop_0.phase == (if m.has_child {
                    StopPhase::Asking
                } else {
                    StopPhase::Gone
                })
                &&& step.manager == (ManagerView {
                    state: ProcessState::Stopping,
                    has_child: false,
                    ..m
                })
                &&& step.watch.phase is Done
            }
            &&& m.state == ProcessState::Running && is_used && !(m.has_child && poll is Exited) ==> {
                &&& step.action == WatchAction::Sleep(30_000)
                &&& step.manager == m
                &&& step.watch == watch
            }
            &&& m.state == ProcessState::Running && is_used && m.has_child && poll is Exited ==> {
                &&& step.action is ReportExit
                &&& step.manager == (ManagerView {
                    state: ProcessState::Stopped,
                    has_child: false,
                    ..m
                })
                &&& step.watch.phase is Reporting
            }
        }),
{
}

/// A server is idle once it was last used longer ago than the timeout.
pub proof fn idleness_goes_by_the_last_use(m: ManagerView, now: u128, seconds: u64)
    ensures
        idle_decision(m, now, seconds) == (if m.state != ProcessState::Running {
            IdleAction::Quit
        } else if now - m.last_used > seconds * 1_000_000_000 {
            IdleAction::Stop
        } else {
            IdleAction::Wait
        }),
{
}

/// A server whose exit was reported is started again, unless somebody else has begun
/// to; a watch that is over does nothing.
pub proof fn a_reported_exit_is_followed_by_a_start(
    m: ManagerView,
    watch: IdleWatch,
    poll: PollView,
    now: u128,
)
    ensures
        !(watch.phase is Waiting) ==> {
            let step = watch_step(m, watch, poll, now);
            &&& step.manager == m
            &&& step.watch.phase is Done
            &&& step.action is Restart <==> watch.phase is Reporting && m.state
                == ProcessState::Stopped
            &&& !(step.action is Restart) ==> step.action is Quit
        },
{
}

/// In an argument the port is put wherever `{port}` stands, and the model wherever
/// `{model}` does, nothing where there is none. The last words of a server are the
/// lines kept, with line feeds between them.
pub proof fn arguments_are_filled_in(
    argument: Seq<char>,
    port: u16,
    model: Seq<char>,
    m: ManagerView,
)
    ensures
        filled_in(argument, port, Some(model)) == replaced(
            replaced(argument, "{port}"@, decimal(port as nat)),
            "{model}"@,
            model,
        ),
        filled_in(argument, port, None) == filled_in(argument, port, Some(Seq::empty())),
        last_words(m) == joined(m.tail, "\n"@),
{
}

/// The waits between the attempts are 100, 200, 400 milliseconds and so on, and five
/// seconds at most.
pub proof fn the_waits_are_these(attempt: u32)
    ensures
        delay_after(0) == 100,
        delay_after(1) == 200,
        delay_after(2) == 400,
        delay_after(3) == 800,
        delay_after(4) == 1600,
        delay_after(5) == 3200,
        attempt >= 6 ==> delay_after(attempt) == 5000,
{
    reveal_with_fuel(doubled, 8);
    assert(doubled(100, 6) == 6400);
    if attempt >= 6 {
        lemma_doubled_grows(100, 6, attempt as nat);
    }
}

/// A program is looked for in these places, in this order; the first that exists is
/// it. Where none does, it goes by its name.
pub proof fn the_first_place_that_exists_is_taken(
    name: Seq<char>,
    home: Seq<char>,
    found: Seq<bool>,
    i: int,
    binary: Seq<char>,
    args: Seq<Seq<char>>,
)
    requires
        found.len() == 6,
        0 <= i <= 6,
        forall|k: int| 0 <= k < i ==> !#[trigger] found[k],
    ensures
        ({
            let places = candidates(name, home);
            &&& places.len() == 6
            &&& places[0] == home + "/.local/bin/"@ + name
            &&& places[1] == home + "/miniforge3/bin/"@ + name
            &&& places[2] == home + "/miniconda3/bin/"@ + name
            &&& places[3] == home + "/anaconda3/bin/"@ + name
            &&& places[4] == "/opt/homebrew/bin/"@ + name
            &&& places[5] == "/usr/local/bin/"@ + name
            &&& i < 6 && found[i] ==> first_existing(places, found, name, 0) == places[i]
            &&& i == 6 ==> first_existing(places, found, name, 0) == name
        }),
        spawn_failure(binary, args) == "failed to spawn "@ + binary + " "@ + joined(args, " "@),
{
    lemma_first_existing(candidates(name, home), found, name, 0, i);
}

proof fn lemma_first_existing(
    places: Seq<Seq<char>>,
    found: Seq<bool>,
    name: Seq<char>,
    from: int,
    i: int,
)
    requires
        found.len() == places.len(),
        0 <= from <= i <= places.len(),
        forall|k: int| from <= k < i ==> !#[trigger] found[k],
    ensures
        i < places.len() && found[i] ==> first_existing(places, found, name, from) == places[i],
        i == places.len() ==> first_existing(places, found, name, from) == name,
    decreases i - from,
{
    if from < i {
        lemma_first_existing(places, found, name, from + 1, i);
    }
}

/// What is told of what happened and of what is asked for is what they hold.
pub proof fn events_and_actions_hold_what_there_is(
    poll: ChildPoll,
    event: StartEvent,
    action: StartAction,
)
    ensures
        poll is Alive <==> poll@ is Alive,
        poll is Exited <==> poll@ is Exited,
        poll is Failed ==> poll@ == PollView::Failed(poll->Failed_0@),
        event is ChildPolled ==> event@ == StartEventView::ChildPolled(event->ChildPolled_0@),
        event is Connected ==> event@ == StartEventView::Connected(event->Connected_0),
        event is Slept ==> event@ is Slept,
        event is Killed ==> event@ is Killed,
        event is Respawned ==> event@ is Respawned,
        event is RespawnFailed ==> event@ == StartEventView::RespawnFailed(
            event->RespawnFailed_0@,
        ),
        action is PollChild <==> action@ is PollChild,
        action is Connect <==> action@ is Connect,
        action is Sleep ==> action@ == StartActionView::Sleep(action->Sleep_0),
        action is KillChild <==> action@ is KillChild,
        action is Respawn <==> action@ is Respawn,
        action is Succeed ==> action@ == StartActionView::Succeed(action->Succeed_0),
        action is Fail ==> action@ == StartActionView::Fail(action->Fail_0@),
{
}

} // verus!
