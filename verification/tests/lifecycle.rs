//! The three passes on concrete records and runtimes.
use std::cell::{Cell, RefCell};

use agent_lifecycle::reclaim::Reclaimer;
use agent_lifecycle::runtimes::ManagedAgentRuntimes;
use agent_lifecycle::stale::{
    kill_stale_tracked_processes, kill_stale_tracked_processes_with, mark_stopped, reclaim_stale,
    stale_pid, stale_pids,
};
use agent_lifecycle::sweep::live_root_sweep_inputs;
use agent_lifecycle::sync::{
    record_exit, record_loss, settle, sync_managed_agent_processes, wants_log, Settlement,
};
use agent_lifecycle::types::{
    AgentLogError, BackendKind, ChildState, ExitStatus, ManagedAgentChild,
    ManagedAgentPairRuntime, ManagedAgentRecord, ManagedAgentRuntimeKey,
};

fn key(pubkey: &str, relay_url: &str) -> ManagedAgentRuntimeKey {
    ManagedAgentRuntimeKey {
        pubkey: pubkey.to_string(),
        relay_url: relay_url.to_string(),
    }
}

fn status(code: Option<i32>, description: &str) -> ExitStatus {
    ExitStatus {
        code,
        description: description.to_string(),
    }
}

fn runtime(pid: u32, nonce: &str, state: ChildState) -> ManagedAgentPairRuntime {
    ManagedAgentPairRuntime {
        child: ManagedAgentChild { pid, state },
        start_nonce: nonce.to_string(),
        reaped_exit_status: None,
        log_error: None,
    }
}

fn record(pubkey: &str, runtime_pid: Option<u32>) -> ManagedAgentRecord {
    ManagedAgentRecord {
        pubkey: pubkey.to_string(),
        backend: BackendKind::Local,
        runtime_pid,
        updated_at: "before".to_string(),
        last_stopped_at: None,
        last_exit_code: None,
        last_error: None,
        last_error_code: None,
    }
}

/// A clock whose readings are `t1`, `t2` and so on.
struct Ticks(Cell<u32>);

impl Ticks {
    fn new() -> Self {
        Ticks(Cell::new(0))
    }

    fn read(&self) -> String {
        self.0.set(self.0.get() + 1);
        format!("t{}", self.0.get())
    }
}

#[test]
fn the_map_holds_one_runtime_per_key() {
    let mut runtimes = ManagedAgentRuntimes::new();
    assert!(runtimes.is_empty());
    assert!(runtimes
        .insert(key("a", "r1"), runtime(1, "n1", ChildState::Live))
        .is_none());
    assert!(runtimes
        .insert(key("a", "r2"), runtime(2, "n2", ChildState::Live))
        .is_none());
    let replaced = runtimes.insert(key("a", "r1"), runtime(3, "n3", ChildState::Live));
    assert_eq!(replaced.expect("replaced").child.pid, 1);
    assert_eq!(runtimes.len(), 2);
    assert_eq!(runtimes.get(&key("a", "r1")).expect("entry").child.pid, 3);
    assert_eq!(runtimes.get(&key("a", "r2")).expect("entry").child.pid, 2);
    assert!(runtimes.get(&key("b", "r1")).is_none());
    assert!(key("a", "r1").same(&key("a", "r1")));
    assert!(!key("a", "r1").same(&key("a", "r2")));
}

#[test]
fn a_zero_exit_code_alone_is_success() {
    assert!(status(Some(0), "exit status: 0").success());
    assert!(!status(Some(1), "exit status: 1").success());
    assert!(!status(None, "signal: 9 (SIGKILL)").success());
    assert_eq!(
        status(Some(7), "exit status: 7").clone(),
        status(Some(7), "exit status: 7")
    );
}

#[test]
fn only_untracked_local_records_with_a_pid_are_stale() {
    let mut runtimes = ManagedAgentRuntimes::new();
    runtimes.insert(key("a", "r1"), runtime(1, "n1", ChildState::Live));
    assert_eq!(stale_pid(&record("b", Some(20)), &runtimes), Some(20));
    assert_eq!(stale_pid(&record("b", None), &runtimes), None);
    assert_eq!(stale_pid(&record("a", Some(10)), &runtimes), None);
    let mut elsewhere = record("b", Some(20));
    elsewhere.backend = BackendKind::Remote;
    assert_eq!(stale_pid(&elsewhere, &runtimes), None);
}

#[test]
fn stale_processes_are_killed_only_with_the_marker() {
    let mut runtimes = ManagedAgentRuntimes::new();
    runtimes.insert(key("run", "r1"), runtime(1, "n1", ChildState::Live));
    let mut remote = record("remote", Some(40));
    remote.backend = BackendKind::Remote;
    let mut records = vec![
        record("run", Some(10)),
        record("marked", Some(20)),
        record("foreign", Some(30)),
        remote,
        record("idle", None),
        record("stubborn", Some(50)),
    ];
    let before = records.clone();
    let clock = Ticks::new();
    let probed = RefCell::new(Vec::new());
    let mut killed = Vec::new();
    let changed = kill_stale_tracked_processes_with(
        &mut records,
        &runtimes,
        |pid| {
            probed.borrow_mut().push(pid);
            pid != 30
        },
        |pid| {
            killed.push(pid);
            if pid == 50 {
                Err("no such process".to_string())
            } else {
                Ok(())
            }
        },
        || clock.read(),
    );
    assert!(changed);
    assert_eq!(*probed.borrow(), vec![20, 30, 50]);
    assert_eq!(killed, vec![20, 50]);
    for i in [0, 3, 4] {
        assert_eq!(records[i], before[i]);
    }
    for (i, stopped_at, updated_at) in [(1, "t1", "t2"), (2, "t3", "t4"), (5, "t5", "t6")] {
        let mut expected = before[i].clone();
        expected.runtime_pid = None;
        expected.last_stopped_at = Some(stopped_at.to_string());
        expected.updated_at = updated_at.to_string();
        assert_eq!(records[i], expected);
    }

    // A second pass finds nothing left to do.
    let after = records.clone();
    let changed = kill_stale_tracked_processes_with(
        &mut records,
        &runtimes,
        |_| panic!("nothing is stale"),
        |_| panic!("nothing is stale"),
        || panic!("nothing is stale"),
    );
    assert!(!changed);
    assert_eq!(records, after);
}

#[test]
fn stale_pids_come_in_record_order() {
    let mut runtimes = ManagedAgentRuntimes::new();
    runtimes.insert(key("run", "r1"), runtime(1, "n1", ChildState::Live));
    let mut remote = record("remote", Some(40));
    remote.backend = BackendKind::Remote;
    let records = vec![
        record("c", Some(30)),
        record("run", Some(10)),
        record("a", Some(20)),
        remote,
        record("idle", None),
        record("b", Some(30)),
    ];
    assert_eq!(stale_pids(&records, &runtimes), vec![30, 20, 30]);
    assert_eq!(stale_pids(&records[..2], &runtimes), vec![30]);
    assert_eq!(stale_pids(&records[2..], &runtimes), vec![20, 30]);
    assert!(stale_pids(&[], &runtimes).is_empty());
}

#[test]
fn each_stale_pid_is_probed_once_and_then_killed() {
    let runtimes = ManagedAgentRuntimes::new();
    let mut records = vec![
        record("c", Some(30)),
        record("a", Some(20)),
        record("b", Some(30)),
    ];
    let calls = RefCell::new(Vec::new());
    let first_probe_of_30 = Cell::new(true);
    kill_stale_tracked_processes_with(
        &mut records,
        &runtimes,
        |pid| {
            calls.borrow_mut().push(format!("probe {pid}"));
            pid == 30 && first_probe_of_30.replace(false)
        },
        |pid| {
            calls.borrow_mut().push(format!("kill {pid}"));
            Ok(())
        },
        || {
            calls.borrow_mut().push("now".to_string());
            "t".to_string()
        },
    );
    assert_eq!(
        *calls.borrow(),
        vec![
            "probe 30", "kill 30", "now", "now", "probe 20", "now", "now", "probe 30", "now",
            "now",
        ]
    );
}

#[test]
fn a_failing_kill_ends_neither_the_pass_nor_the_clearing() {
    let runtimes = ManagedAgentRuntimes::new();
    let mut records = vec![record("a", Some(41)), record("b", None), record("c", Some(43))];
    let before = records.clone();
    let killed = RefCell::new(Vec::new());
    let mut by = Reclaimer::new(
        |_| true,
        |pid| {
            killed.borrow_mut().push(pid);
            Err("boom".to_string())
        },
    );
    assert!(reclaim_stale(&mut records, &runtimes, &mut by, || "t".to_string()));
    assert_eq!(*killed.borrow(), vec![41, 43]);
    assert_eq!(records[0].runtime_pid, None);
    assert_eq!(records[1], before[1]);
    assert_eq!(records[2].runtime_pid, None);

    // What the reclaimer holds is called directly, too.
    assert!(by.probe(7));
    by.end(7);
    assert_eq!(*killed.borrow(), vec![41, 43, 7]);
}

#[test]
fn a_pass_over_two_lists_makes_the_calls_of_both() {
    let runtimes = ManagedAgentRuntimes::new();
    let pass = |records: &mut [ManagedAgentRecord]| {
        let calls = RefCell::new(Vec::new());
        let changed = kill_stale_tracked_processes_with(
            records,
            &runtimes,
            |pid| {
                calls.borrow_mut().push(("probe", pid));
                pid % 2 == 1
            },
            |pid| {
                calls.borrow_mut().push(("kill", pid));
                Ok(())
            },
            || "t".to_string(),
        );
        (changed, calls.into_inner())
    };
    let all = vec![
        record("a", Some(41)),
        record("b", None),
        record("c", Some(42)),
        record("d", Some(43)),
        record("e", Some(41)),
    ];
    for at in 0..=all.len() {
        let mut whole = all.clone();
        let (mut first, mut second) = (all[..at].to_vec(), all[at..].to_vec());
        let (changed, calls) = pass(&mut whole);
        let (changed_first, calls_first) = pass(&mut first);
        let (changed_second, calls_second) = pass(&mut second);
        assert_eq!(changed, changed_first || changed_second);
        assert_eq!(whole, [first, second].concat());
        assert_eq!(calls, [calls_first, calls_second].concat());
        assert_eq!(
            calls,
            vec![
                ("probe", 41),
                ("kill", 41),
                ("probe", 42),
                ("probe", 43),
                ("kill", 43),
                ("probe", 41),
                ("kill", 41),
            ]
        );
    }
}

#[test]
fn the_instance_form_makes_the_calls_of_the_injectable_form() {
    let runtimes = ManagedAgentRuntimes::new();
    let mut records = vec![record("a", Some(41)), record("b", Some(42)), record("c", Some(43))];
    let mut same_records = records.clone();
    let calls = RefCell::new(Vec::new());
    let same_calls = RefCell::new(Vec::new());
    let probe = |pid: u32, instance: &str| instance == "instance-1" && pid != 42;
    let changed = kill_stale_tracked_processes(
        &mut records,
        &runtimes,
        "instance-1",
        |pid, instance| {
            calls.borrow_mut().push(("probe", pid));
            probe(pid, instance)
        },
        |pid| {
            calls.borrow_mut().push(("kill", pid));
            Ok(())
        },
        || "t".to_string(),
    );
    let same_changed = kill_stale_tracked_processes_with(
        &mut same_records,
        &runtimes,
        |pid| {
            same_calls.borrow_mut().push(("probe", pid));
            probe(pid, "instance-1")
        },
        |pid| {
            same_calls.borrow_mut().push(("kill", pid));
            Ok(())
        },
        || "t".to_string(),
    );
    assert_eq!(changed, same_changed);
    assert_eq!(records, same_records);
    assert_eq!(*calls.borrow(), *same_calls.borrow());
    assert_eq!(
        *calls.borrow(),
        vec![("probe", 41), ("kill", 41), ("probe", 42), ("probe", 43), ("kill", 43)]
    );
}

#[test]
fn the_marker_probe_gets_the_instance() {
    let runtimes = ManagedAgentRuntimes::new();
    let mut records = vec![record("a", Some(20)), record("b", Some(21))];
    let mut killed = Vec::new();
    let changed = kill_stale_tracked_processes(
        &mut records,
        &runtimes,
        "instance-1",
        |pid, instance| pid == 21 && instance == "instance-1",
        |pid| {
            killed.push(pid);
            Ok(())
        },
        || "t".to_string(),
    );
    assert!(changed);
    assert_eq!(killed, vec![21]);
    assert!(records.iter().all(|r| r.runtime_pid.is_none()));
    assert!(!kill_stale_tracked_processes(
        &mut [],
        &runtimes,
        "instance-1",
        |_, _| true,
        |_| Ok(()),
        || "t".to_string(),
    ));
}

#[test]
fn a_stopped_record_has_no_pid() {
    let mut r = record("a", Some(20));
    mark_stopped(&mut r, "s".to_string(), "u".to_string());
    assert_eq!(r.runtime_pid, None);
    assert_eq!(r.last_stopped_at.as_deref(), Some("s"));
    assert_eq!(r.updated_at, "u");
}

#[test]
fn sweep_inputs_hold_live_roots_only() {
    let mut runtimes = ManagedAgentRuntimes::new();
    runtimes.insert(key("a", "r1"), runtime(1, "shared", ChildState::Live));
    runtimes.insert(
        key("b", "r1"),
        runtime(
            2,
            "dead",
            ChildState::Exited(status(Some(3), "exit status: 3")),
        ),
    );
    runtimes.insert(
        key("c", "r1"),
        runtime(3, "gone", ChildState::Unavailable("ECHILD".to_string())),
    );
    runtimes.insert(key("d", "r1"), runtime(4, "shared", ChildState::Live));
    let (skip_pids, nonces) = live_root_sweep_inputs(&mut runtimes);
    assert_eq!(skip_pids, vec![1, 4]);
    assert_eq!(nonces.len(), 1);
    assert!(nonces.contains("shared"));
    assert!(!nonces.contains("dead"));
    assert!(!nonces.contains("gone"));
    assert_eq!(
        runtimes
            .get(&key("b", "r1"))
            .expect("entry")
            .reaped_exit_status,
        Some(status(Some(3), "exit status: 3"))
    );
    assert!(runtimes
        .get(&key("c", "r1"))
        .expect("entry")
        .reaped_exit_status
        .is_none());

    // A second sweep finds and leaves the same.
    let (again, nonces_again) = live_root_sweep_inputs(&mut runtimes);
    assert_eq!(again, skip_pids);
    assert_eq!(nonces_again.len(), 1);
    assert_eq!(runtimes.len(), 4);
}

#[test]
fn a_cached_status_is_not_overwritten() {
    let mut runtimes = ManagedAgentRuntimes::new();
    let mut dead = runtime(
        2,
        "dead",
        ChildState::Exited(status(Some(9), "exit status: 9")),
    );
    dead.reaped_exit_status = Some(status(Some(3), "exit status: 3"));
    runtimes.insert(key("b", "r1"), dead);
    let _ = live_root_sweep_inputs(&mut runtimes);
    assert_eq!(
        runtimes
            .get(&key("b", "r1"))
            .expect("entry")
            .reaped_exit_status,
        Some(status(Some(3), "exit status: 3"))
    );
}

#[test]
fn the_probe_settles_a_runtime_before_the_cache() {
    let mut r = runtime(1, "n", ChildState::Live);
    r.reaped_exit_status = Some(status(Some(3), "exit status: 3"));
    assert!(matches!(settle(&r), Settlement::Live));
    r.child.state = ChildState::Exited(status(Some(1), "exit status: 1"));
    assert!(matches!(settle(&r), Settlement::Exited(s) if s.code == Some(1)));
    r.child.state = ChildState::Unavailable("ECHILD".to_string());
    assert!(matches!(settle(&r), Settlement::Exited(s) if s.code == Some(3)));
    r.reaped_exit_status = None;
    assert!(matches!(settle(&r), Settlement::Lost(e) if e == "ECHILD"));
}

#[test]
fn sync_records_each_kind_of_end() {
    let mut runtimes = ManagedAgentRuntimes::new();
    runtimes.insert(key("live", "r1"), runtime(1, "n1", ChildState::Live));
    runtimes.insert(
        key("done", "r1"),
        runtime(
            2,
            "n2",
            ChildState::Exited(status(Some(0), "exit status: 0")),
        ),
    );
    let mut logged = runtime(
        3,
        "n3",
        ChildState::Exited(status(Some(1), "exit status: 1")),
    );
    logged.log_error = Some(AgentLogError {
        message: "model not found".to_string(),
        code: Some(-32000),
    });
    runtimes.insert(key("logged", "r1"), logged);
    runtimes.insert(
        key("silent", "r1"),
        runtime(4, "n4", ChildState::Exited(status(None, "signal: 9 (SIGKILL)"))),
    );
    runtimes.insert(
        key("lost", "r1"),
        runtime(5, "n5", ChildState::Unavailable("ECHILD".to_string())),
    );
    runtimes.insert(
        key("unknown", "r1"),
        runtime(6, "n6", ChildState::Exited(status(Some(2), "exit status: 2"))),
    );
    let mut stained = record("done", None);
    stained.last_error = Some("old".to_string());
    stained.last_error_code = Some(5);
    let mut lost = record("lost", None);
    lost.last_error_code = Some(5);
    lost.last_exit_code = Some(4);
    let mut records = vec![
        record("live", None),
        stained,
        record("logged", None),
        record("silent", None),
        lost,
        record("bystander", None),
    ];
    let before = records.clone();
    let clock = Ticks::new();
    let (changed, exited) =
        sync_managed_agent_processes(&mut records, &mut runtimes, "instance", || clock.read());
    assert!(changed);
    assert_eq!(exited, vec!["done", "logged", "silent", "lost", "unknown"]);
    assert_eq!(runtimes.len(), 1);
    assert!(runtimes.get(&key("live", "r1")).is_some());

    assert_eq!(records[0], before[0]);
    assert_eq!(records[5], before[5]);

    assert_eq!(records[1].updated_at, "t1");
    assert_eq!(records[1].last_stopped_at.as_deref(), Some("t2"));
    assert_eq!(records[1].last_exit_code, Some(0));
    assert_eq!(records[1].last_error, None);
    assert_eq!(records[1].last_error_code, None);

    assert_eq!(records[2].last_exit_code, Some(1));
    assert_eq!(records[2].last_error.as_deref(), Some("model not found"));
    assert_eq!(records[2].last_error_code, Some(-32000));

    assert_eq!(records[3].last_exit_code, None);
    assert_eq!(
        records[3].last_error.as_deref(),
        Some("harness exited with status signal: 9 (SIGKILL)")
    );
    assert_eq!(records[3].last_error_code, None);

    assert_eq!(records[4].updated_at, "t7");
    assert_eq!(records[4].last_stopped_at, None);
    assert_eq!(records[4].last_exit_code, Some(4));
    assert_eq!(
        records[4].last_error.as_deref(),
        Some("failed to inspect process state: ECHILD")
    );
    assert_eq!(records[4].last_error_code, None);

    // What is left is alive, so a second sync changes nothing.
    let after = records.clone();
    let (changed, exited) =
        sync_managed_agent_processes(&mut records, &mut runtimes, "instance", || clock.read());
    assert!(!changed);
    assert!(exited.is_empty());
    assert_eq!(records, after);
    assert_eq!(runtimes.len(), 1);
}

#[test]
fn sync_drops_legacy_pids() {
    let mut runtimes = ManagedAgentRuntimes::new();
    let mut records = vec![record("a", Some(10)), record("b", None), record("c", Some(30))];
    let before = records.clone();
    let clock = Ticks::new();
    let (changed, exited) =
        sync_managed_agent_processes(&mut records, &mut runtimes, "instance", || clock.read());
    assert!(changed);
    assert!(exited.is_empty());
    assert_eq!(records[0].runtime_pid, None);
    assert_eq!(records[0].updated_at, "t1");
    assert_eq!(records[0].last_stopped_at, None);
    assert_eq!(records[1], before[1]);
    assert_eq!(records[2].runtime_pid, None);
    assert_eq!(records[2].updated_at, "t2");

    // Nothing is left to reclaim.
    assert!(records.iter().all(|r| stale_pid(r, &runtimes).is_none()));
}

#[test]
fn the_last_runtime_of_an_agent_decides_its_first_record() {
    let mut runtimes = ManagedAgentRuntimes::new();
    runtimes.insert(
        key("a", "r1"),
        runtime(1, "n1", ChildState::Exited(status(Some(1), "exit status: 1"))),
    );
    runtimes.insert(
        key("a", "r2"),
        runtime(2, "n2", ChildState::Exited(status(Some(0), "exit status: 0"))),
    );
    let mut records = vec![record("b", None), record("a", None), record("a", None)];
    let before = records.clone();
    let (changed, exited) =
        sync_managed_agent_processes(&mut records, &mut runtimes, "instance", || "t".to_string());
    assert!(changed);
    assert_eq!(exited, vec!["a", "a"]);
    assert!(runtimes.is_empty());
    assert_eq!(records[0], before[0]);
    assert_eq!(records[2], before[2]);
    assert_eq!(records[1].last_exit_code, Some(0));
    assert_eq!(records[1].last_error, None);
}

#[test]
fn a_sweep_before_a_sync_changes_nothing_for_it() {
    let map = || {
        let mut runtimes = ManagedAgentRuntimes::new();
        runtimes.insert(key("live", "r1"), runtime(1, "n1", ChildState::Live));
        runtimes.insert(
            key("a", "r1"),
            runtime(2, "n2", ChildState::Exited(status(Some(6), "exit status: 6"))),
        );
        runtimes
    };
    let mut plain = map();
    let mut swept = map();
    let (pids, _) = live_root_sweep_inputs(&mut swept);
    let mut plain_records = vec![record("a", None)];
    let mut swept_records = plain_records.clone();
    let first = sync_managed_agent_processes(&mut plain_records, &mut plain, "instance", || {
        "t".to_string()
    });
    let second = sync_managed_agent_processes(&mut swept_records, &mut swept, "instance", || {
        "t".to_string()
    });
    assert_eq!(first, second);
    assert_eq!(plain_records, swept_records);
    assert_eq!(plain.len(), swept.len());

    // Nor does the sync change anything for a sweep.
    let (pids_after, _) = live_root_sweep_inputs(&mut plain);
    assert_eq!(pids_after, pids);
}

#[test]
fn a_log_is_wanted_after_a_failure_on_record() {
    let records = vec![record("a", None)];
    let failed = runtime(1, "n", ChildState::Exited(status(Some(1), "exit status: 1")));
    assert!(wants_log(&records, &key("a", "r"), &failed));
    assert!(!wants_log(&records, &key("b", "r"), &failed));
    let done = runtime(1, "n", ChildState::Exited(status(Some(0), "exit status: 0")));
    assert!(!wants_log(&records, &key("a", "r"), &done));
    assert!(!wants_log(
        &records,
        &key("a", "r"),
        &runtime(1, "n", ChildState::Live)
    ));
    assert!(!wants_log(
        &records,
        &key("a", "r"),
        &runtime(1, "n", ChildState::Unavailable("ECHILD".to_string()))
    ));
}

#[test]
fn ends_are_noted_in_a_record() {
    let mut r = record("a", Some(1));
    record_exit(
        &mut r,
        &status(Some(2), "exit status: 2"),
        &None,
        "u".to_string(),
        "s".to_string(),
    );
    assert_eq!(r.runtime_pid, Some(1));
    assert_eq!(r.updated_at, "u");
    assert_eq!(r.last_stopped_at.as_deref(), Some("s"));
    assert_eq!(
        r.last_error.as_deref(),
        Some("harness exited with status exit status: 2")
    );
    record_loss(&mut r, "ECHILD", "v".to_string());
    assert_eq!(r.updated_at, "v");
    assert_eq!(r.last_exit_code, Some(2));
    assert_eq!(
        r.last_error.as_deref(),
        Some("failed to inspect process state: ECHILD")
    );
}
