//! The inputs of the periodic orphan sweep.
use vstd::prelude::*;
use vstd::hash_set::StringHashSet;
use crate::runtimes::{lemma_filter_grows, ManagedAgentRuntimes, RuntimeEntry};
use crate::types::{ChildState, ManagedAgentPairRuntime};

verus! {

/// Whether the root of an entry was alive when it was probed.
pub open spec fn live(entry: RuntimeEntry) -> bool {
    entry.1.child.state is Live
}

/// The PIDs of the live roots, in the order of the walk.
pub open spec fn live_pids(entries: Seq<RuntimeEntry>) -> Seq<u32> {
    entries.filter(|e: RuntimeEntry| live(e)).map_values(|e: RuntimeEntry| e.1.child.pid)
}

/// The nonces of the live roots.
pub open spec fn live_nonces(entries: Seq<RuntimeEntry>) -> Set<Seq<char>> {
    Set::new(
        |nonce: Seq<char>|
            exists|i: int|
                0 <= i < entries.len() && live(#[trigger] entries[i])
                    && entries[i].1.start_nonce@ == nonce,
    )
}

/// A runtime after a sweep: the exit status of a root that ended is cached,
/// unless an earlier one is.
pub open spec fn swept(runtime: ManagedAgentPairRuntime) -> ManagedAgentPairRuntime {
    match (runtime.child.state, runtime.reaped_exit_status) {
        (ChildState::Exited(status), None) => ManagedAgentPairRuntime {
            reaped_exit_status: Some(status),
            ..runtime
        },
        _ => runtime,
    }
}

/// The runtime map after a sweep.
pub open spec fn swept_entries(entries: Seq<RuntimeEntry>) -> Seq<RuntimeEntry> {
    entries.map_values(|e: RuntimeEntry| (e.0, swept(e.1)))
}

/// Collects the inputs of the orphan sweep: the root PIDs to skip and the
/// generation nonces to trust.
///
/// Only a root that its probe found alive contributes; whatever else the map
/// still holds of a dead one is not trusted. A root that ended is reaped by its
/// probe, so its exit status is cached for [`crate::sync::sync_managed_agent_processes`].
pub fn live_root_sweep_inputs(runtimes: &mut ManagedAgentRuntimes) -> (inputs: (
    Vec<u32>,
    StringHashSet,
))
    ensures
        inputs.0@ == live_pids(old(runtimes)@),
        inputs.1@ == live_nonces(old(runtimes)@),
        final(runtimes)@ == swept_entries(old(runtimes)@),
        old(runtimes).wf() ==> final(runtimes).wf(),
{
    let ghost entries = runtimes@;
    let ghost alive = |e: RuntimeEntry| live(e);
    let mut skip_pids: Vec<u32> = Vec::new();
    let mut tracked_nonces = StringHashSet::new();
    let mut i: usize = 0;
    assert(entries.take(0).filter(alive) =~= Seq::<RuntimeEntry>::empty());
    while i < runtimes.len()
        invariant
            i <= entries.len(),
            runtimes@.len() == entries.len(),
            alive == (|e: RuntimeEntry| live(e)),
            forall|k: int| 0 <= k < i ==> #[trigger] runtimes@[k] == swept_entries(entries)[k],
            forall|k: int| i <= k < entries.len() ==> #[trigger] runtimes@[k] == entries[k],
            skip_pids@ == live_pids(entries.take(i as int)),
            tracked_nonces@ == live_nonces(entries.take(i as int)),
        decreases entries.len() - i,
    {
        let ghost entry = entries[i as int];
        let ghost before = entries.take(i as int);
        proof {
            assert(entries.take(i + 1) =~= before.push(entry));
            lemma_filter_grows(before, entry, alive);
            assert(live_pids(before.push(entry)) =~= if alive(entry) {
                live_pids(before).push(entry.1.child.pid)
            } else {
                live_pids(before)
            });
            lemma_live_nonces_push(before, entry);
        }
        let mut reaped = None;
        {
            let runtime = &runtimes.entry(i).1;
            match &runtime.child.state {
                ChildState::Exited(status) => {
                    if runtime.reaped_exit_status.is_none() {
                        reaped = Some(status.clone());
                    }
                },
                ChildState::Live => {
                    skip_pids.push(runtime.child.pid);
                    tracked_nonces.insert(runtime.start_nonce.clone());
                },
                ChildState::Unavailable(_) => {},
            }
        }
        if let Some(status) = reaped {
            runtimes.cache_exit_status(i, status);
        }
        i += 1;
    }
    proof {
        assert(entries.take(i as int) =~= entries);
    }
    (skip_pids, tracked_nonces)
}

/// One more entry adds its nonce exactly when its root is alive.
proof fn lemma_live_nonces_push(entries: Seq<RuntimeEntry>, entry: RuntimeEntry)
    ensures
        live_nonces(entries.push(entry)) == if live(entry) {
            live_nonces(entries).insert(entry.1.start_nonce@)
        } else {
            live_nonces(entries)
        },
{
    let grown = entries.push(entry);
    let expected = if live(entry) {
        live_nonces(entries).insert(entry.1.start_nonce@)
    } else {
        live_nonces(entries)
    };
    assert forall|nonce: Seq<char>| live_nonces(grown).contains(nonce) == expected.contains(
        nonce,
    ) by {
        if live_nonces(entries).contains(nonce) {
            let i = choose|i: int|
                0 <= i < entries.len() && live(#[trigger] entries[i])
                    && entries[i].1.start_nonce@ == nonce;
            assert(grown[i] == entries[i]);
        }
        if live(entry) && nonce == entry.1.start_nonce@ {
            assert(grown[entries.len() as int] == entry);
        }
        if live_nonces(grown).contains(nonce) {
            let i = choose|i: int|
                0 <= i < grown.len() && live(#[trigger] grown[i]) && grown[i].1.start_nonce@
                    == nonce;
            assert(i < entries.len() ==> entries[i] == grown[i]);
        }
    }
}

} // verus!
