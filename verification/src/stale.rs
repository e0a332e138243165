//! Killing agent processes that an earlier session left behind.
use vstd::prelude::*;
use crate::laws::law_kill_list_joins;
use crate::reclaim::{killed, lemma_pass_calls_grow, pass_calls, reclaimed, says, Reclaimer};
use crate::runtimes::{lemma_filter_grows, ManagedAgentRuntimes, RuntimeEntry};
use crate::types::{contents, reading, BackendKind, ManagedAgentRecord, RecordView};

verus! {

/// Whether this session runs an agent, on whatever relay.
pub open spec fn has_runtime(entries: Seq<RuntimeEntry>, pubkey: Seq<char>) -> bool {
    exists|j: int| 0 <= j < entries.len() && (#[trigger] entries[j]).0.pubkey@ == pubkey
}

/// The PID that a record keeps from an earlier session: that of a local agent
/// which this session does not run.
pub open spec fn stale(record: RecordView, entries: Seq<RuntimeEntry>) -> Option<u32> {
    if record.backend == BackendKind::Local && !has_runtime(entries, record.pubkey) {
        record.runtime_pid
    } else {
        None
    }
}

/// The PIDs that the records keep from an earlier session, in the order of the
/// records.
pub open spec fn stale_list(records: Seq<RecordView>, entries: Seq<RuntimeEntry>) -> Seq<u32> {
    records.filter(|r: RecordView| stale(r, entries) is Some).map_values(
        |r: RecordView| stale(r, entries)->0,
    )
}

/// A record after its process is gone.
pub open spec fn stopped(
    record: RecordView,
    stopped_at: Seq<char>,
    updated_at: Seq<char>,
) -> RecordView {
    RecordView { runtime_pid: None, last_stopped_at: Some(stopped_at), updated_at, ..record }
}

/// Whether a record is what the pass makes of another: stopped at clock
/// readings where it was stale, and as it was otherwise.
pub open spec fn cleared<N: Fn() -> String>(
    before: RecordView,
    after: RecordView,
    entries: Seq<RuntimeEntry>,
    now: N,
) -> bool {
    if stale(before, entries) is Some {
        exists|stopped_at: Seq<char>, updated_at: Seq<char>|
            #![trigger stopped(before, stopped_at, updated_at)]
            reading(now, stopped_at) && reading(now, updated_at) && after == stopped(
                before,
                stopped_at,
                updated_at,
            )
    } else {
        after == before
    }
}

/// Whether this session runs the agent with this public key.
fn is_running(runtimes: &ManagedAgentRuntimes, pubkey: &String) -> (b: bool)
    ensures
        b == has_runtime(runtimes@, pubkey@),
{
    let mut j: usize = 0;
    while j < runtimes.len()
        invariant
            j <= runtimes@.len(),
            forall|k: int| 0 <= k < j ==> (#[trigger] runtimes@[k]).0.pubkey@ != pubkey@,
        decreases runtimes@.len() - j,
    {
        if runtimes.entry(j).0.pubkey == *pubkey {
            return true;
        }
        j += 1;
    }
    false
}

/// The PID to reclaim on account of a record, if there is one.
pub fn stale_pid(record: &ManagedAgentRecord, runtimes: &ManagedAgentRuntimes) -> (pid: Option<u32>)
    ensures
        pid == stale(record@, runtimes@),
        pid is Some ==> {
            &&& pid == record.runtime_pid
            &&& record.backend == BackendKind::Local
            &&& forall|j: int|
                0 <= j < runtimes@.len() ==> (#[trigger] runtimes@[j]).0.pubkey@ != record.pubkey@
        },
        pid is None ==> {
            ||| record.runtime_pid is None
            ||| record.backend != BackendKind::Local
            ||| exists|j: int|
                0 <= j < runtimes@.len() && (#[trigger] runtimes@[j]).0.pubkey@ == record.pubkey@
        },
{
    if record.backend != BackendKind::Local {
        return None;
    }
    if is_running(runtimes, &record.pubkey) {
        return None;
    }
    record.runtime_pid
}

/// The PIDs to reclaim on account of the records, in their order: each record has
/// at most one, and a PID that several records keep comes once for each.
pub fn stale_pids(records: &[ManagedAgentRecord], runtimes: &ManagedAgentRuntimes) -> (pids: Vec<
    u32,
>)
    ensures
        pids@ == stale_list(contents(records@), runtimes@),
{
    let ghost all = contents(records@);
    let mut pids: Vec<u32> = Vec::new();
    let mut i: usize = 0;
    while i < records.len()
        invariant
            i <= records@.len(),
            all == contents(records@),
            pids@ == stale_list(all.take(i as int), runtimes@),
        decreases records@.len() - i,
    {
        proof {
            lemma_stale_list_grows(all, runtimes@, i as int);
        }
        if let Some(pid) = stale_pid(&records[i], runtimes) {
            pids.push(pid);
        }
        i += 1;
    }
    assert(all.take(i as int) =~= all);
    pids
}

/// One more record adds its stale PID, if it has one.
proof fn lemma_stale_list_grows(records: Seq<RecordView>, entries: Seq<RuntimeEntry>, i: int)
    requires
        0 <= i < records.len(),
    ensures
        stale_list(records.take(i + 1), entries) == match stale(records[i], entries) {
            Some(pid) => stale_list(records.take(i), entries).push(pid),
            None => stale_list(records.take(i), entries),
        },
{
    let is_stale = |r: RecordView| stale(r, entries) is Some;
    assert(records.take(i + 1) =~= records.take(i).push(records[i]));
    lemma_filter_grows(records.take(i), records[i], is_stale);
}

/// The stale PID of a record stands in the list behind those of the records before.
proof fn lemma_stale_list_at(records: Seq<RecordView>, entries: Seq<RuntimeEntry>, i: int)
    requires
        0 <= i < records.len(),
        stale(records[i], entries) is Some,
    ensures
        stale_list(records.take(i), entries).len() < stale_list(records, entries).len(),
        stale_list(records, entries)[stale_list(records.take(i), entries).len() as int]
            == stale(records[i], entries)->0,
{
    lemma_stale_list_grows(records, entries, i);
    law_kill_list_joins(records.take(i + 1), records.skip(i + 1), entries);
    assert(records.take(i + 1) + records.skip(i + 1) =~= records);
}

/// Notes in a record that its process is gone.
pub fn mark_stopped(record: &mut ManagedAgentRecord, stopped_at: String, updated_at: String)
    ensures
        final(record)@ == stopped(old(record)@, stopped_at@, updated_at@),
        final(record).runtime_pid is None,
        final(record).last_stopped_at == Some(stopped_at),
        final(record).updated_at == updated_at,
        final(record).pubkey == old(record).pubkey,
        final(record).backend == old(record).backend,
        final(record).last_exit_code == old(record).last_exit_code,
        final(record).last_error == old(record).last_error,
        final(record).last_error_code == old(record).last_error_code,
{
    record.runtime_pid = None;
    record.last_stopped_at = Some(stopped_at);
    record.updated_at = updated_at;
}

/// Works through the stale PIDs of the records: the pass behind
/// [`kill_stale_tracked_processes_with`].
///
/// Each PID of [`stale_pids`] is probed once, in that order, and killed once,
/// directly after a yes. Then its record is cleared. No other call is made.
pub fn reclaim_stale<M: Fn(u32) -> bool, K: FnMut(u32) -> Result<(), String>>(
    records: &mut [ManagedAgentRecord],
    runtimes: &ManagedAgentRuntimes,
    by: &mut Reclaimer<M, K>,
    now: impl Fn() -> String,
) -> (changed: bool)
    requires
        call_requires(now, ()),
        forall|i: int|
            0 <= i < old(records)@.len() ==> (stale((#[trigger] old(records)@[i])@, runtimes@) matches Some(pid)
                ==> {
                &&& call_requires(old(by).marker(), (pid,))
                &&& call_ensures(old(by).marker(), (pid,), true) ==> call_requires(old(by).killer(), (pid,))
            }),
    ensures
        final(by).marker() == old(by).marker(),
        final(by).killer() == old(by).killer(),
        final(records)@.len() == old(records)@.len(),
        forall|i: int|
            0 <= i < old(records)@.len() ==> cleared(
                (#[trigger] old(records)@[i])@,
                final(records)@[i]@,
                runtimes@,
                now,
            ),
        forall|i: int|
            0 <= i < old(records)@.len() ==> (stale((#[trigger] old(records)@[i])@, runtimes@) matches Some(pid)
                ==> {
                ||| call_ensures(old(by).marker(), (pid,), false)
                ||| call_ensures(old(by).marker(), (pid,), true) && killed(old(by).killer(), pid)
            }),
        exists|answers: Seq<bool>| #[trigger]
            reclaimed(
                says(old(by).marker()),
                old(by).killer(),
                stale_list(contents(old(records)@), runtimes@),
                answers,
            ) && final(by).log() == old(by).log() + pass_calls(
                stale_list(contents(old(records)@), runtimes@),
                answers,
            ),
        changed == exists|i: int|
            0 <= i < old(records)@.len() && stale((#[trigger] old(records)@[i])@, runtimes@) is Some,
{
    let ghost before = contents(records@);
    let ghost marker = by.marker();
    let ghost killer = by.killer();
    let ghost mut answers: Seq<bool> = Seq::empty();
    let pids = stale_pids(records, runtimes);
    let mut n: usize = 0;
    let mut changed = false;
    let mut i: usize = 0;
    while i < records.len()
        invariant
            i <= records@.len(),
            records@.len() == old(records)@.len(),
            before == contents(old(records)@),
            pids@ == stale_list(before, runtimes@),
            n <= pids@.len(),
            n == stale_list(before.take(i as int), runtimes@).len(),
            marker == old(by).marker(),
            killer == old(by).killer(),
            by.marker() == marker,
            by.killer() == killer,
            reclaimed(says(marker), killer, pids@.take(n as int), answers),
            by.log() == old(by).log() + pass_calls(pids@.take(n as int), answers),
            call_requires(now, ()),
            forall|k: int|
                0 <= k < old(records)@.len() ==> (stale((#[trigger] old(records)@[k])@, runtimes@) matches Some(
                    pid,
                ) ==> {
                    &&& call_requires(marker, (pid,))
                    &&& call_ensures(marker, (pid,), true) ==> call_requires(killer, (pid,))
                }),
            forall|k: int| i <= k < records@.len() ==> #[trigger] records@[k] == old(records)@[k],
            forall|k: int|
                0 <= k < i ==> cleared(
                    (#[trigger] old(records)@[k])@,
                    records@[k]@,
                    runtimes@,
                    now,
                ),
            forall|k: int|
                0 <= k < i ==> (stale((#[trigger] old(records)@[k])@, runtimes@) matches Some(pid) ==> {
                    ||| call_ensures(marker, (pid,), false)
                    ||| call_ensures(marker, (pid,), true) && killed(killer, pid)
                }),
            changed == exists|k: int|
                0 <= k < i && stale((#[trigger] old(records)@[k])@, runtimes@) is Some,
        decreases records@.len() - i,
    {
        proof {
            lemma_stale_list_grows(before, runtimes@, i as int);
        }
        if stale_pid(&records[i], runtimes).is_some() {
            proof {
                lemma_stale_list_at(before, runtimes@, i as int);
            }
            let pid: u32 = pids[n];
            // The marker alone proves ownership: custom harnesses have arbitrary binary names.
            let marked = by.probe(pid);
            if marked {
                by.end(pid);
            }
            proof {
                let done = pids@.take(n as int);
                assert(pids@.take(n + 1) =~= done.push(pid));
                lemma_pass_calls_grow(done, answers, pid, marked);
                answers = answers.push(marked);
                assert(by.log() =~= old(by).log() + pass_calls(pids@.take(n + 1), answers));
            }
            n += 1;
            let stopped_at = now();
            let updated_at = now();
            mark_stopped(&mut records[i], stopped_at, updated_at);
            changed = true;
        }
        i += 1;
    }
    proof {
        assert(before.take(i as int) =~= before);
        assert(pids@.take(n as int) =~= pids@);
    }
    changed
}

/// Kills stale agent processes of an earlier session: those of local agents
/// whose PID is on record while no runtime of this session has their public key.
///
/// `has_marker(pid)` tells whether the process carries this instance's marker,
/// `kill(pid)` terminates it, `now()` reads the clock. A process is killed
/// exactly when its marker is found: only a stale PID is probed, and only a PID
/// whose probe said yes is killed. The calls are those of [`reclaim_stale`], whose
/// contract states their number and order; what is handed in here keeps no log.
/// Returns whether any record was modified.
pub fn kill_stale_tracked_processes_with(
    records: &mut [ManagedAgentRecord],
    runtimes: &ManagedAgentRuntimes,
    has_marker: impl Fn(u32) -> bool,
    kill: impl FnMut(u32) -> Result<(), String>,
    now: impl Fn() -> String,
) -> (changed: bool)
    requires
        call_requires(now, ()),
        forall|i: int|
            0 <= i < old(records)@.len() ==> (stale((#[trigger] old(records)@[i])@, runtimes@) matches Some(pid)
                ==> {
                &&& call_requires(has_marker, (pid,))
                &&& call_ensures(has_marker, (pid,), true) ==> call_requires(kill, (pid,))
            }),
    ensures
        final(records)@.len() == old(records)@.len(),
        forall|i: int|
            0 <= i < old(records)@.len() ==> cleared(
                (#[trigger] old(records)@[i])@,
                final(records)@[i]@,
                runtimes@,
                now,
            ),
        forall|i: int|
            0 <= i < old(records)@.len() ==> (stale((#[trigger] old(records)@[i])@, runtimes@) matches Some(pid)
                ==> {
                ||| call_ensures(has_marker, (pid,), false)
                ||| call_ensures(has_marker, (pid,), true) && killed(kill, pid)
            }),
        exists|answers: Seq<bool>| #[trigger]
            reclaimed(
                says(has_marker),
                kill,
                stale_list(contents(old(records)@), runtimes@),
                answers,
            ),
        changed == exists|i: int|
            0 <= i < old(records)@.len() && stale((#[trigger] old(records)@[i])@, runtimes@) is Some,
{
    let mut by = Reclaimer::new(has_marker, kill);
    reclaim_stale(records, runtimes, &mut by, now)
}

/// What the probe may answer for an instance.
pub open spec fn says_of<'a, P: Fn(u32, &'a str) -> bool>(probe: P, instance_id: &'a str) -> spec_fn(
    u32,
    bool,
) -> bool {
    |pid: u32, marked: bool| call_ensures(probe, (pid, instance_id), marked)
}

/// Kills stale agent processes of an earlier session that carry the marker of
/// the instance `instance_id`, as [`kill_stale_tracked_processes_with`] does.
///
/// `process_has_buzz_marker(pid, instance_id)` probes a process for the marker
/// of an instance, `terminate_process(pid)` ends it.
pub fn kill_stale_tracked_processes(
    records: &mut [ManagedAgentRecord],
    runtimes: &ManagedAgentRuntimes,
    instance_id: &str,
    process_has_buzz_marker: impl Fn(u32, &str) -> bool,
    terminate_process: impl FnMut(u32) -> Result<(), String>,
    now: impl Fn() -> String,
) -> (changed: bool)
    requires
        call_requires(now, ()),
        forall|i: int|
            0 <= i < old(records)@.len() ==> (stale((#[trigger] old(records)@[i])@, runtimes@) matches Some(pid)
                ==> {
                &&& call_requires(process_has_buzz_marker, (pid, instance_id))
                &&& call_ensures(process_has_buzz_marker, (pid, instance_id), true) ==> call_requires(terminate_process, (pid,))
            }),
    ensures
        final(records)@.len() == old(records)@.len(),
        forall|i: int|
            0 <= i < old(records)@.len() ==> cleared(
                (#[trigger] old(records)@[i])@,
                final(records)@[i]@,
                runtimes@,
                now,
            ),
        forall|i: int|
            0 <= i < old(records)@.len() ==> (stale((#[trigger] old(records)@[i])@, runtimes@) matches Some(pid)
                ==> {
                ||| call_ensures(process_has_buzz_marker, (pid, instance_id), false)
                ||| call_ensures(process_has_buzz_marker, (pid, instance_id), true) && killed(terminate_process, pid)
            }),
        exists|answers: Seq<bool>| #[trigger]
            reclaimed(
                says_of(process_has_buzz_marker, instance_id),
                terminate_process,
                stale_list(contents(old(records)@), runtimes@),
                answers,
            ),
        changed == exists|i: int|
            0 <= i < old(records)@.len() && stale((#[trigger] old(records)@[i])@, runtimes@) is Some,
{
    let ghost pids = stale_list(contents(records@), runtimes@);
    let mut by = Reclaimer::new(
        |pid: u32| -> (b: bool)
            requires
                call_requires(process_has_buzz_marker, (pid, instance_id)),
            ensures
                call_ensures(process_has_buzz_marker, (pid, instance_id), b)
            { process_has_buzz_marker(pid, instance_id) },
        terminate_process,
    );
    let changed = reclaim_stale(records, runtimes, &mut by, now);
    proof {
        let answers = choose|answers: Seq<bool>| #[trigger]
            reclaimed(says(by.marker()), by.killer(), pids, answers);
        assert forall|k: int| 0 <= k < pids.len() implies says_of(
            process_has_buzz_marker,
            instance_id,
        )(pids[k], #[trigger] answers[k]) by {
            assert(says(by.marker())(pids[k], answers[k]));
        }
        assert(reclaimed(
            says_of(process_has_buzz_marker, instance_id),
            terminate_process,
            pids,
            answers,
        ));
    }
    changed
}

} // verus!
