//! Generation-aware ownership: what a dead or live root means for the sweep
//! inputs, and what a background reap leaves for a later sync.
use agent_lifecycle::runtimes::ManagedAgentRuntimes;
use agent_lifecycle::sweep::live_root_sweep_inputs;
use agent_lifecycle::sync::sync_managed_agent_processes;
use agent_lifecycle::types::{
    BackendKind, ChildState, ExitStatus, ManagedAgentChild, ManagedAgentPairRuntime,
    ManagedAgentRecord, ManagedAgentRuntimeKey,
};

const ROOT_PID: u32 = 4242;

fn key() -> ManagedAgentRuntimeKey {
    ManagedAgentRuntimeKey {
        pubkey: "cc".repeat(32),
        relay_url: "wss://relay.example".to_string(),
    }
}

fn exited_ok() -> ExitStatus {
    ExitStatus {
        code: Some(0),
        description: "exit status: 0".to_string(),
    }
}

fn runtime(
    nonce: &str,
    state: ChildState,
    reaped_exit_status: Option<ExitStatus>,
) -> ManagedAgentPairRuntime {
    ManagedAgentPairRuntime {
        child: ManagedAgentChild {
            pid: ROOT_PID,
            state,
        },
        start_nonce: nonce.to_string(),
        reaped_exit_status,
        log_error: None,
    }
}

fn runtimes_with(runtime: ManagedAgentPairRuntime) -> ManagedAgentRuntimes {
    let mut runtimes = ManagedAgentRuntimes::new();
    assert!(runtimes.insert(key(), runtime).is_none());
    runtimes
}

/// The status that the map has cached for the root.
fn cached(runtimes: &ManagedAgentRuntimes) -> Option<ExitStatus> {
    runtimes
        .get(&key())
        .expect("runtime entry")
        .reaped_exit_status
        .clone()
}

fn no_child() -> ChildState {
    ChildState::Unavailable("No child processes (os error 10)".to_string())
}

#[test]
fn dead_root_stale_nonce_becomes_reclaimable_without_foreground_sync() {
    let nonce = "generation-1";
    let mut runtimes = runtimes_with(runtime(nonce, ChildState::Exited(exited_ok()), None));

    // Tick 1: the dead root's nonce is not trusted, nor its pid skipped.
    let (skip_pids, tracked_nonces) = live_root_sweep_inputs(&mut runtimes);
    assert!(
        !tracked_nonces.contains(nonce),
        "dead root's stale nonce must not be trusted without a live root"
    );
    assert!(!skip_pids.contains(&ROOT_PID));

    // Tick 2: still no foreground sync; the entry is still in the map.
    let reaped = cached(&runtimes);
    assert_eq!(reaped, Some(exited_ok()));
    assert!(runtimes
        .insert(key(), runtime(nonce, no_child(), reaped))
        .is_some());
    let (skip_pids, tracked_nonces) = live_root_sweep_inputs(&mut runtimes);
    assert!(
        !tracked_nonces.contains(nonce),
        "stale nonce must not resurface on later ticks"
    );
    assert!(!skip_pids.contains(&ROOT_PID));
    assert_eq!(runtimes.len(), 1);
}

#[test]
fn live_root_keeps_protecting_detached_descendant_across_sweep_ticks() {
    let nonce = "generation-1";
    let mut runtimes = runtimes_with(runtime(nonce, ChildState::Live, None));
    for _tick in 0..2 {
        let (skip_pids, tracked_nonces) = live_root_sweep_inputs(&mut runtimes);
        assert!(
            skip_pids.contains(&ROOT_PID),
            "live root pid must enter the skip list: {skip_pids:?}"
        );
        assert!(
            tracked_nonces.contains(nonce),
            "live root's nonce must be trusted"
        );
        assert!(cached(&runtimes).is_none());
    }
}

#[test]
fn already_reaped_root_is_not_trusted_by_sweep_inputs() {
    let nonce = "generation-1";
    let mut runtimes = runtimes_with(runtime(nonce, no_child(), None));
    let (skip_pids, tracked_nonces) = live_root_sweep_inputs(&mut runtimes);
    assert!(
        !tracked_nonces.contains(nonce),
        "an already-reaped (or PID-reused) root must not keep its nonce trusted"
    );
    assert!(!skip_pids.contains(&ROOT_PID));
    assert!(cached(&runtimes).is_none());
}

#[test]
fn background_reap_preserves_real_exit_status_for_foreground_sync() {
    let nonce = "generation-1";
    let mut runtimes = runtimes_with(runtime(nonce, ChildState::Exited(exited_ok()), None));

    // The background sweep reaps the dead root and caches its exit status.
    let (_skip_pids, _tracked_nonces) = live_root_sweep_inputs(&mut runtimes);

    // The foreground sync probes again and finds no child.
    let reaped = cached(&runtimes);
    assert!(runtimes
        .insert(key(), runtime(nonce, no_child(), reaped))
        .is_some());
    let mut records = vec![ManagedAgentRecord {
        pubkey: key().pubkey,
        backend: BackendKind::Local,
        runtime_pid: None,
        updated_at: "2024-01-01T00:00:00Z".to_string(),
        last_stopped_at: None,
        last_exit_code: None,
        last_error: None,
        last_error_code: None,
    }];
    let (changed, exited) =
        sync_managed_agent_processes(&mut records, &mut runtimes, "buzz-test-instance", || {
            "2024-01-02T00:00:00Z".to_string()
        });
    assert!(
        changed && exited.len() == 1,
        "sync must process the background-reaped root: {exited:?}"
    );
    assert_eq!(exited, vec![key().pubkey]);
    assert!(runtimes.is_empty(), "sync must remove the exited runtime");
    assert!(records[0].last_stopped_at.is_some());
    assert_eq!(records[0].last_exit_code, Some(0));
    assert!(
        records[0].last_error.is_none(),
        "real exit status must not be reported as an inspect error: {:?}",
        records[0].last_error
    );
}
