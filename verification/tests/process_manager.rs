use local_mlx::process_manager::{
    binary_candidates, drainer_name, resolve_binary, spawn_error, start_delay, ChildPoll,
    EnsureAction, IdleAction, ProcessManager, StartAction, StartEvent, StartPhase, StartRun,
    StopAction, StopPhase, StopRun, WatchAction, WatchPhase, IDLE_POLL_MS, MAX_START_ATTEMPTS,
    STDERR_TAIL_CAPACITY,
};

const SECOND: u128 = 1_000_000_000;

fn strings(list: &[&str]) -> Vec<String> {
    list.iter().map(|s| s.to_string()).collect()
}

fn alive() -> StartEvent {
    StartEvent::ChildPolled(ChildPoll::Alive)
}

fn starting() -> (ProcessManager, StartRun) {
    let mut manager = ProcessManager::new(8080, 0);
    let run = manager.start(Some("m"), 5);
    (manager, run)
}

/// A manager whose server runs with the model `m`.
fn running() -> ProcessManager {
    let (mut manager, mut run) = starting();
    manager.advance_start(&mut run, alive());
    manager.advance_start(&mut run, StartEvent::Connected(true));
    manager.advance_start(&mut run, StartEvent::Slept);
    let action = manager.advance_start(&mut run, alive());
    assert!(matches!(action, StartAction::Succeed(8080)));
    manager
}

/// Drives a start to its end, with a process that always tells `poll` and accepts
/// connections as `connects` tells; how often it was spawned again, how often a
/// connection was tried, how long was waited, and why it failed.
fn drive(
    manager: &mut ProcessManager,
    run: &mut StartRun,
    poll: fn() -> ChildPoll,
    connects: bool,
) -> (u32, u32, u64, String) {
    let (mut spawned, mut connected, mut waited) = (0, 0, 0);
    let mut action = StartAction::PollChild;
    loop {
        let event = match action {
            StartAction::PollChild => StartEvent::ChildPolled(poll()),
            StartAction::Connect => {
                connected += 1;
                StartEvent::Connected(connects)
            }
            StartAction::Sleep(ms) => {
                waited += ms;
                StartEvent::Slept
            }
            StartAction::KillChild => StartEvent::Killed,
            StartAction::Respawn => {
                spawned += 1;
                StartEvent::Respawned
            }
            StartAction::Succeed(_) => panic!(),
            StartAction::Fail(why) => return (spawned, connected, waited, why),
        };
        action = manager.advance_start(run, event);
    }
}

/// The waits between the attempts, up to the last but `but`.
fn waits(but: u32) -> u64 {
    (0..MAX_START_ATTEMPTS - but).map(start_delay).sum()
}

fn failure(action: StartAction) -> String {
    match action {
        StartAction::Fail(why) => why,
        other => panic!("{:?}", other),
    }
}

#[test]
fn a_new_manager_runs_nothing() {
    let manager = ProcessManager::new(4711, 9);
    assert_eq!(manager.port(), 4711);
    assert_eq!(manager.address(), "127.0.0.1:4711");
    assert!(!manager.is_running(&ChildPoll::Alive));
    assert!(!manager.is_starting());
    assert_eq!(manager.current_model(), None);
    assert_eq!(manager.read_stderr(), "");
    assert_eq!(manager.check_idle(SECOND, 0), IdleAction::Quit);
}

#[test]
fn a_server_that_answers_runs() {
    let (mut manager, mut run) = starting();
    assert_eq!(
        run,
        StartRun {
            attempt: 0,
            phase: StartPhase::Checking
        }
    );
    assert!(manager.is_starting());
    assert!(!manager.is_running(&ChildPoll::Alive));
    assert!(matches!(
        manager.advance_start(&mut run, alive()),
        StartAction::Connect
    ));
    assert!(matches!(
        manager.advance_start(&mut run, StartEvent::Connected(false)),
        StartAction::Sleep(100)
    ));
    assert!(matches!(
        manager.advance_start(&mut run, StartEvent::Slept),
        StartAction::PollChild
    ));
    assert_eq!(run.attempt, 1);
    manager.advance_start(&mut run, alive());
    assert!(matches!(
        manager.advance_start(&mut run, StartEvent::Connected(true)),
        StartAction::Sleep(500)
    ));
    assert!(matches!(
        manager.advance_start(&mut run, StartEvent::Slept),
        StartAction::PollChild
    ));
    assert!(matches!(
        manager.advance_start(&mut run, alive()),
        StartAction::Succeed(8080)
    ));
    assert_eq!(run.phase, StartPhase::Done);
    assert!(manager.is_running(&ChildPoll::Alive));
    assert!(!manager.is_running(&ChildPoll::Exited));
    assert!(!manager.is_running(&ChildPoll::Failed("?".to_string())));
    assert!(!manager.is_starting());
    assert_eq!(manager.current_model().as_deref(), Some("m"));
}

#[test]
fn a_server_that_keeps_exiting_fails_with_its_last_words() {
    let (mut manager, mut run) = starting();
    assert!(manager.drain_pipe(Some(6), "oops \n", true));
    assert!(manager.drain_pipe(Some(4), "bye\n", true));
    assert!(manager.drain_pipe(Some(4), "out\n", false));
    let (spawned, connected, waited, why) =
        drive(&mut manager, &mut run, || ChildPoll::Exited, false);
    assert_eq!(spawned, MAX_START_ATTEMPTS - 1);
    assert_eq!(connected, 0);
    assert_eq!(waited, waits(1) + 100);
    assert_eq!(
        why,
        "Server process exited unexpectedly during startup: oops\nbye"
    );
    assert!(!manager.is_starting());
    assert_eq!(manager.stop().phase, StopPhase::Gone);
}

#[test]
fn a_server_that_exits_is_started_again() {
    let (mut manager, mut run) = starting();
    let exited = || StartEvent::ChildPolled(ChildPoll::Exited);
    assert!(matches!(
        manager.advance_start(&mut run, exited()),
        StartAction::Sleep(100)
    ));
    assert!(manager.is_starting());
    assert!(matches!(
        manager.advance_start(&mut run, StartEvent::Slept),
        StartAction::Respawn
    ));
    assert!(matches!(
        manager.advance_start(&mut run, StartEvent::Respawned),
        StartAction::PollChild
    ));
    assert_eq!(run.attempt, 1);
    manager.advance_start(&mut run, alive());
    manager.advance_start(&mut run, StartEvent::Connected(true));
    manager.advance_start(&mut run, StartEvent::Slept);
    // It exits right after it answers.
    assert!(matches!(
        manager.advance_start(&mut run, exited()),
        StartAction::Sleep(200)
    ));
    manager.advance_start(&mut run, StartEvent::Slept);
    manager.advance_start(&mut run, StartEvent::Respawned);
    manager.advance_start(&mut run, alive());
    manager.advance_start(&mut run, StartEvent::Connected(true));
    manager.advance_start(&mut run, StartEvent::Slept);
    assert!(matches!(
        manager.advance_start(&mut run, alive()),
        StartAction::Succeed(8080)
    ));
    assert!(manager.is_running(&ChildPoll::Alive));
}

#[test]
fn a_server_that_cannot_be_started_again_fails() {
    let (mut manager, mut run) = starting();
    manager.advance_start(&mut run, StartEvent::ChildPolled(ChildPoll::Exited));
    manager.advance_start(&mut run, StartEvent::Slept);
    assert_eq!(
        failure(manager.advance_start(&mut run, StartEvent::RespawnFailed("gone".to_string()))),
        "gone"
    );
    assert!(!manager.is_starting());
}

#[test]
fn a_server_that_is_stopped_is_not_started_again() {
    let (mut manager, mut run) = starting();
    manager.advance_start(&mut run, StartEvent::ChildPolled(ChildPoll::Exited));
    manager.stop();
    assert_eq!(
        failure(manager.advance_start(&mut run, StartEvent::Slept)),
        "Server start was cancelled"
    );
    let (mut manager, mut run) = starting();
    manager.advance_start(&mut run, StartEvent::ChildPolled(ChildPoll::Exited));
    manager.advance_start(&mut run, StartEvent::Slept);
    manager.stop();
    assert!(matches!(
        manager.advance_start(&mut run, StartEvent::Respawned),
        StartAction::KillChild
    ));
    assert_eq!(
        failure(manager.advance_start(&mut run, StartEvent::Killed)),
        "Server start was cancelled"
    );
}

#[test]
fn a_server_that_keeps_exiting_right_after_it_answers_fails() {
    let (mut manager, mut run) = starting();
    run.attempt = MAX_START_ATTEMPTS - 1;
    manager.advance_start(&mut run, alive());
    manager.advance_start(&mut run, StartEvent::Connected(true));
    manager.advance_start(&mut run, StartEvent::Slept);
    assert!(matches!(
        manager.advance_start(&mut run, StartEvent::ChildPolled(ChildPoll::Exited)),
        StartAction::Sleep(100)
    ));
    assert_eq!(
        failure(manager.advance_start(&mut run, StartEvent::Slept)),
        "Server process exited during startup"
    );
    assert!(!manager.is_running(&ChildPoll::Alive));
}

#[test]
fn a_server_that_cannot_be_asked_fails() {
    let (mut manager, mut run) = starting();
    let failed = || StartEvent::ChildPolled(ChildPoll::Failed("no such process".to_string()));
    assert_eq!(
        failure(manager.advance_start(&mut run, failed())),
        "no such process"
    );
    assert!(manager.is_starting());
    let mut run = manager.start(None, 7);
    manager.advance_start(&mut run, alive());
    manager.advance_start(&mut run, StartEvent::Connected(true));
    manager.advance_start(&mut run, StartEvent::Slept);
    assert_eq!(
        failure(manager.advance_start(&mut run, failed())),
        "no such process"
    );
}

#[test]
fn a_server_that_never_answers_is_given_up() {
    let (mut manager, mut run) = starting();
    manager.drain_pipe(Some(8), "loading\n", true);
    let (spawned, connected, waited, why) =
        drive(&mut manager, &mut run, || ChildPoll::Alive, false);
    assert_eq!(
        why,
        "Server did not become healthy after 15 attempts: loading"
    );
    assert_eq!(spawned, 0);
    assert_eq!(connected, MAX_START_ATTEMPTS);
    assert_eq!(waited, waits(0) + 100);
    assert_eq!(
        waits(0),
        100 + 200 + 400 + 800 + 1600 + 3200 + 9 * 5000
    );
    assert_eq!(run.phase, StartPhase::Done);
    assert!(!manager.is_starting());
    assert_eq!(manager.stop().phase, StopPhase::Gone);
}

#[test]
fn a_start_that_is_stopped_is_cancelled() {
    let (mut manager, mut run) = starting();
    assert_eq!(manager.stop().phase, StopPhase::Asking);
    assert_eq!(
        failure(manager.advance_start(&mut run, StartEvent::ChildPolled(ChildPoll::Exited))),
        "Server start was cancelled"
    );
    assert!(!manager.is_running(&ChildPoll::Alive));
    assert!(!manager.is_starting());
}

#[test]
fn waits_double_up_to_the_longest() {
    let waits: Vec<u64> = (0..8).map(start_delay).collect();
    assert_eq!(waits, [100, 200, 400, 800, 1600, 3200, 5000, 5000]);
    assert_eq!(start_delay(u32::MAX), 5000);
}

#[test]
fn a_stopped_server_does_not_run() {
    let mut manager = running();
    let mut stop = manager.stop();
    assert!(!manager.is_running(&ChildPoll::Alive));
    let mut step = |elapsed: u128, poll: ChildPoll| {
        manager.advance_stop(&mut stop, elapsed, &poll, 7)
    };
    assert_eq!(step(0, ChildPoll::Alive), StopAction::Terminate);
    assert_eq!(step(0, ChildPoll::Alive), StopAction::Wait(200));
    assert_eq!(step(5 * SECOND - 1, ChildPoll::Alive), StopAction::Wait(200));
    assert_eq!(step(6 * SECOND, ChildPoll::Exited), StopAction::Done);
    assert_eq!(step(6 * SECOND, ChildPoll::Alive), StopAction::Done);
    assert_eq!(stop.phase, StopPhase::Done);
    assert!(!manager.is_running(&ChildPoll::Alive));
    assert_eq!(manager.stop().phase, StopPhase::Gone);
}

#[test]
fn a_server_that_lives_on_is_killed() {
    let mut manager = running();
    let mut stop = manager.stop();
    let mut step = |elapsed: u128, poll: ChildPoll| {
        manager.advance_stop(&mut stop, elapsed, &poll, 7)
    };
    assert_eq!(step(0, ChildPoll::Alive), StopAction::Terminate);
    assert_eq!(step(5 * SECOND, ChildPoll::Alive), StopAction::Kill);
    assert_eq!(step(5 * SECOND, ChildPoll::Alive), StopAction::Wait(200));
    assert_eq!(step(10 * SECOND, ChildPoll::Alive), StopAction::Done);
    // One that cannot be asked whether it lives is killed, and not waited for.
    let mut manager = running();
    let mut stop = manager.stop();
    let failed = || ChildPoll::Failed(String::new());
    assert_eq!(
        manager.advance_stop(&mut stop, 0, &failed(), 7),
        StopAction::Kill
    );
    assert_eq!(
        manager.advance_stop(&mut stop, 0, &failed(), 7),
        StopAction::Done
    );
    // One that has exited is left alone.
    let mut manager = running();
    let mut stop = manager.stop();
    assert_eq!(
        manager.advance_stop(&mut stop, 0, &ChildPoll::Exited, 7),
        StopAction::Done
    );
}

#[test]
fn the_process_is_given_away_once() {
    let mut manager = running();
    assert!(manager.take_child());
    assert!(!manager.take_child());
    assert!(!manager.is_running(&ChildPoll::Alive));
}

#[test]
fn an_idle_server_is_stopped_and_a_used_one_is_not() {
    let mut manager = running();
    manager.touch(10 * SECOND);
    assert_eq!(manager.check_idle(310 * SECOND, 300), IdleAction::Wait);
    assert_eq!(manager.check_idle(310 * SECOND + 1, 300), IdleAction::Stop);
    assert_eq!(manager.check_idle(0, 0), IdleAction::Wait);
    manager.touch(310 * SECOND);
    assert_eq!(manager.check_idle(310 * SECOND + 1, 300), IdleAction::Wait);
    manager.stop();
    assert_eq!(manager.check_idle(900 * SECOND, 300), IdleAction::Quit);
    assert_eq!(IDLE_POLL_MS, 30_000);
}

#[test]
fn a_watched_server_is_stopped_once_it_is_idle() {
    let mut manager = running();
    manager.touch(0);
    let mut watch = manager.spawn_idle_watcher(60);
    assert_eq!(watch.phase, WatchPhase::Waiting);
    assert_eq!(
        manager.advance_watch(&mut watch, &ChildPoll::Alive, 30 * SECOND),
        WatchAction::Sleep(30_000)
    );
    manager.touch(31 * SECOND);
    assert_eq!(
        manager.advance_watch(&mut watch, &ChildPoll::Alive, 90 * SECOND),
        WatchAction::Sleep(30_000)
    );
    assert!(manager.is_running(&ChildPoll::Alive));
    assert_eq!(
        manager.advance_watch(&mut watch, &ChildPoll::Alive, 120 * SECOND),
        WatchAction::Stop(StopRun {
            phase: StopPhase::Asking
        })
    );
    assert!(!manager.is_running(&ChildPoll::Alive));
    assert_eq!(watch.phase, WatchPhase::Done);
    assert_eq!(
        manager.advance_watch(&mut watch, &ChildPoll::Alive, 999 * SECOND),
        WatchAction::Quit
    );
}

#[test]
fn a_watched_server_that_exits_is_started_again() {
    let mut manager = running();
    manager.touch(0);
    let mut watch = manager.spawn_idle_watcher(60);
    let failed = ChildPoll::Failed(String::new());
    assert_eq!(
        manager.advance_watch(&mut watch, &failed, 30 * SECOND),
        WatchAction::Sleep(30_000)
    );
    assert_eq!(
        manager.advance_watch(&mut watch, &ChildPoll::Exited, 60 * SECOND),
        WatchAction::ReportExit
    );
    assert_eq!(watch.phase, WatchPhase::Reporting);
    assert_eq!(
        manager.advance_watch(&mut watch, &ChildPoll::Exited, 60 * SECOND),
        WatchAction::Restart
    );
    assert_eq!(watch.phase, WatchPhase::Done);
    assert!(!manager.is_running(&ChildPoll::Alive));
    assert_eq!(manager.current_model().as_deref(), Some("m"));
    // One that is idle is not.
    let mut manager = running();
    manager.touch(0);
    let mut watch = manager.spawn_idle_watcher(60);
    assert!(matches!(
        manager.advance_watch(&mut watch, &ChildPoll::Exited, 61 * SECOND),
        WatchAction::Stop(_)
    ));
}

#[test]
fn a_stopped_server_is_watched_no_longer() {
    let mut manager = running();
    let mut watch = manager.spawn_idle_watcher(60);
    manager.stop();
    assert_eq!(
        manager.advance_watch(&mut watch, &ChildPoll::Alive, 999 * SECOND),
        WatchAction::Quit
    );
    // A server whose process was given away has nothing to kill.
    let mut manager = running();
    let mut watch = manager.spawn_idle_watcher(60);
    manager.take_child();
    assert_eq!(
        manager.advance_watch(&mut watch, &ChildPoll::Alive, 999 * SECOND),
        WatchAction::Stop(StopRun {
            phase: StopPhase::Gone
        })
    );
    assert_eq!(manager.check_idle(999 * SECOND, 0), IdleAction::Quit);
}

#[test]
fn a_running_server_is_reused_only_for_its_model() {
    let manager = running();
    assert_eq!(
        manager.ensure_model(&ChildPoll::Alive, "m"),
        EnsureAction::Reuse
    );
    assert_eq!(
        manager.ensure_model(&ChildPoll::Alive, "other"),
        EnsureAction::Restart
    );
    assert_eq!(
        manager.ensure_model(&ChildPoll::Exited, "m"),
        EnsureAction::Start
    );
    assert_eq!(
        ProcessManager::new(1, 0).ensure_model(&ChildPoll::Alive, "m"),
        EnsureAction::Start
    );
}

#[test]
fn the_last_lines_are_retained() {
    let (mut manager, _) = starting();
    for i in 0..STDERR_TAIL_CAPACITY + 5 {
        let line = format!("line {} \t\r\n", i);
        assert!(manager.drain_pipe(Some(line.len()), &line, true));
    }
    let kept = manager.read_stderr();
    let kept: Vec<&str> = kept.split('\n').collect();
    assert_eq!(kept.len(), 100);
    assert_eq!(kept[0], "line 5");
    assert_eq!(kept[99], "line 104");
    assert!(!manager.drain_pipe(Some(0), "", true));
    assert!(!manager.drain_pipe(None, "half", true));
    assert!(manager.read_stderr().ends_with("line 104"));
    manager.start(None, 1);
    assert_eq!(manager.read_stderr(), "");
    assert_eq!(manager.current_model(), None);
}

#[test]
fn arguments_are_filled_in() {
    let manager = ProcessManager::new(8080, 0);
    let args = strings(&["serve", "{model}", "--port={port}", "{port}{port}", "{x}"]);
    assert_eq!(
        manager.start_args(&args, Some("org/name")),
        ["serve", "org/name", "--port=8080", "80808080", "{x}"]
    );
    assert_eq!(manager.start_args(&args, None)[1], "");
    assert_eq!(
        spawn_error("bin", &strings(&["a", "b"])),
        "failed to spawn bin a b"
    );
    assert_eq!(drainer_name("stderr"), "mlx-stderr-drainer");
}

#[test]
fn programs_are_looked_for_where_they_are_usually_installed() {
    assert_eq!(
        binary_candidates("s", "/home/u"),
        [
            "/home/u/.local/bin/s",
            "/home/u/miniforge3/bin/s",
            "/home/u/miniconda3/bin/s",
            "/home/u/anaconda3/bin/s",
            "/opt/homebrew/bin/s",
            "/usr/local/bin/s"
        ]
    );
    let none = vec![false; 6];
    let mut some = vec![false; 6];
    some[2] = true;
    some[4] = true;
    assert_eq!(resolve_binary("s", "/home/u", &none), "s");
    assert_eq!(
        resolve_binary("s", "/home/u", &some),
        "/home/u/miniconda3/bin/s"
    );
    assert_eq!(resolve_binary("./s", "/home/u", &some), "./s");
    assert_eq!(resolve_binary("/a/b", "", &vec![true; 6]), "/a/b");
}

#[test]
fn a_server_watched_for_an_exit_alone_is_never_idle() {
    let mut manager = running();
    manager.touch(0);
    let mut watch = manager.spawn_exit_watcher();
    assert_eq!(watch.phase, WatchPhase::Waiting);
    assert_eq!(watch.idle_timeout_seconds, None);
    assert_eq!(
        manager.advance_watch(&mut watch, &ChildPoll::Alive, 99_999 * SECOND),
        WatchAction::Sleep(30_000)
    );
    assert_eq!(
        manager.advance_watch(&mut watch, &ChildPoll::Exited, 99_999 * SECOND),
        WatchAction::ReportExit
    );
    assert_eq!(
        manager.advance_watch(&mut watch, &ChildPoll::Exited, 99_999 * SECOND),
        WatchAction::Restart
    );
    assert_eq!(manager.current_model().as_deref(), Some("m"));
    assert_eq!(
        manager.advance_watch(&mut watch, &ChildPoll::Exited, 99_999 * SECOND),
        WatchAction::Quit
    );
    // One that was stopped is not started again.
    let mut manager = running();
    let mut watch = manager.spawn_exit_watcher();
    manager.stop();
    assert_eq!(
        manager.advance_watch(&mut watch, &ChildPoll::Exited, 60 * SECOND),
        WatchAction::Quit
    );
}

#[test]
fn a_server_that_is_started_meanwhile_is_not_started_twice() {
    let mut manager = running();
    let mut watch = manager.spawn_exit_watcher();
    assert_eq!(
        manager.advance_watch(&mut watch, &ChildPoll::Exited, 30 * SECOND),
        WatchAction::ReportExit
    );
    manager.start(Some("m"), 31 * SECOND);
    assert_eq!(
        manager.advance_watch(&mut watch, &ChildPoll::Alive, 32 * SECOND),
        WatchAction::Quit
    );
    assert_eq!(watch.phase, WatchPhase::Done);
}
