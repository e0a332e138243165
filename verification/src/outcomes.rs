//! What each pass comes to, told by nothing but the records, the keys, the probe
//! findings and the calls that it is given.
use vstd::prelude::*;
use crate::laws::{law_each_pid_is_probed_once, law_last_settlement_decides};
use crate::laws::{lemma_first_carries, lemma_live_settles_nothing, lemma_unconcerned};
use crate::reclaim::{pass_calls, probed_pids, reclaimed, says, Call};
use crate::runtimes::{distinct_keys, has_key, lemma_filter_grows};
use crate::runtimes::{ManagedAgentRuntimes, RuntimeEntry};
use crate::stale::{cleared, says_of, stale, stale_list};
use crate::sweep::{live, live_nonces, live_pids, swept_entries};
use crate::sync::{exited_pubkeys, first_of, lemma_settle_all_keeps, log_wanted, on_record};
use crate::sync::{readings_of, remaining, retire_all, settle_all, settled, settlement};
use crate::sync::{settled_by_clock, sync_changes, synced, Reading};
use crate::types::{contents, reading, same_key, texts, BackendKind, ChildState, ExitStatus};
use crate::types::{ManagedAgentRecord, ManagedAgentRuntimeKey, RecordView};

verus! {

// Views.

/// The contents of a record are its fields, text for text.
pub proof fn law_view_shows_every_field(record: ManagedAgentRecord)
    ensures
        record@.pubkey == record.pubkey@,
        record@.backend == record.backend,
        record@.runtime_pid == record.runtime_pid,
        record@.updated_at == record.updated_at@,
        record.last_stopped_at is None <==> record@.last_stopped_at is None,
        record.last_stopped_at matches Some(s) ==> record@.last_stopped_at == Some(s@),
        record@.last_exit_code == record.last_exit_code,
        record.last_error is None <==> record@.last_error is None,
        record.last_error matches Some(s) ==> record@.last_error == Some(s@),
        record@.last_error_code == record.last_error_code,
{
}

/// The contents of a list of records, and the texts of a list of strings, are those
/// of its items, each in its place.
pub proof fn law_lists_show_every_item(
    records: Seq<ManagedAgentRecord>,
    strings: Seq<String>,
    i: int,
)
    ensures
        contents(records).len() == records.len(),
        0 <= i < records.len() ==> contents(records)[i] == records[i]@,
        texts(strings).len() == strings.len(),
        0 <= i < strings.len() ==> texts(strings)[i] == strings[i]@,
{
}

/// Two keys are the same exactly when they name the same agent and the same relay,
/// and keys are distinct, or on a map, accordingly.
pub proof fn law_keys_are_agent_and_relay(
    a: ManagedAgentRuntimeKey,
    b: ManagedAgentRuntimeKey,
    entries: Seq<RuntimeEntry>,
)
    ensures
        same_key(a, b) <==> a.pubkey@ == b.pubkey@ && a.relay_url@ == b.relay_url@,
        has_key(entries, a) <==> exists|i: int|
            0 <= i < entries.len() && (#[trigger] entries[i]).0.pubkey@ == a.pubkey@
                && entries[i].0.relay_url@ == a.relay_url@,
        distinct_keys(entries) <==> forall|i: int, j: int|
            0 <= i < j < entries.len() ==> (#[trigger] entries[i]).0.pubkey@ != (
            #[trigger] entries[j]).0.pubkey@ || entries[i].0.relay_url@ != entries[j].0.relay_url@,
{
    if has_key(entries, a) {
        let i = choose|i: int| 0 <= i < entries.len() && same_key(#[trigger] entries[i].0, a);
        assert(entries[i].0.pubkey@ == a.pubkey@ && entries[i].0.relay_url@ == a.relay_url@);
    }
    if exists|i: int|
        0 <= i < entries.len() && (#[trigger] entries[i]).0.pubkey@ == a.pubkey@
            && entries[i].0.relay_url@ == a.relay_url@ {
        let i = choose|i: int|
            0 <= i < entries.len() && (#[trigger] entries[i]).0.pubkey@ == a.pubkey@
                && entries[i].0.relay_url@ == a.relay_url@;
        assert(same_key(entries[i].0, a));
    }
    if distinct_keys(entries) {
        assert forall|i: int, j: int| 0 <= i < j < entries.len() implies (
        #[trigger] entries[i]).0.pubkey@ != (#[trigger] entries[j]).0.pubkey@
            || entries[i].0.relay_url@ != entries[j].0.relay_url@ by {
            assert(!same_key(entries[i].0, entries[j].0));
        }
    }
}

/// A map is well formed exactly when no two of its entries name the same agent and
/// the same relay.
pub proof fn law_map_holds_one_runtime_per_key(map: ManagedAgentRuntimes)
    ensures
        map.wf() <==> forall|i: int, j: int|
            0 <= i < j < map@.len() ==> (#[trigger] map@[i]).0.pubkey@ != (
            #[trigger] map@[j]).0.pubkey@ || map@[i].0.relay_url@ != map@[j].0.relay_url@,
{
    if map@.len() > 0 {
        law_keys_are_agent_and_relay(map@[0].0, map@[0].0, map@);
    }
}

// The kill pass.

/// A local agent that no key of the map names is stale with the very PID on its
/// record.
pub proof fn law_stale_pid_is_the_one_on_record(record: RecordView, entries: Seq<RuntimeEntry>)
    requires
        record.backend == BackendKind::Local,
        forall|j: int| 0 <= j < entries.len() ==> (#[trigger] entries[j]).0.pubkey@ != record.pubkey,
    ensures
        stale(record, entries) == record.runtime_pid,
{
}

/// An agent that a key of the map names is not stale, whatever the runtime under
/// that key is, and neither is one that runs elsewhere.
pub proof fn law_a_key_in_the_map_protects(
    record: RecordView,
    entries: Seq<RuntimeEntry>,
    j: int,
)
    requires
        record.backend != BackendKind::Local || 0 <= j < entries.len() && entries[j].0.pubkey@
            == record.pubkey,
    ensures
        stale(record, entries) is None,
{
}

/// Only the keys of the map bear on what is stale: two maps with the same keys agree,
/// whatever their runtimes are.
pub proof fn law_stale_goes_by_keys(
    record: RecordView,
    entries: Seq<RuntimeEntry>,
    others: Seq<RuntimeEntry>,
)
    requires
        entries.len() == others.len(),
        forall|j: int|
            0 <= j < entries.len() ==> (#[trigger] entries[j]).0.pubkey@ == (
            #[trigger] others[j]).0.pubkey@,
    ensures
        stale(record, entries) == stale(record, others),
{
    if exists|j: int| 0 <= j < entries.len() && (#[trigger] entries[j]).0.pubkey@
        == record.pubkey {
        let j = choose|j: int|
            0 <= j < entries.len() && (#[trigger] entries[j]).0.pubkey@ == record.pubkey;
        law_a_key_in_the_map_protects(record, entries, j);
        law_a_key_in_the_map_protects(record, others, j);
    } else if record.backend == BackendKind::Local {
        assert forall|j: int| 0 <= j < others.len() implies (#[trigger] others[j]).0.pubkey@
            != record.pubkey by {
            assert(entries[j].0.pubkey@ == others[j].0.pubkey@);
        }
        law_stale_pid_is_the_one_on_record(record, entries);
        law_stale_pid_is_the_one_on_record(record, others);
    } else {
        law_a_key_in_the_map_protects(record, entries, 0);
        law_a_key_in_the_map_protects(record, others, 0);
    }
}

/// A kill pass probes, in the order of the records, the PIDs on record of the local
/// agents that no key of the map names: each of those PIDs, as it stands, and no
/// other.
pub proof fn law_pass_probes_the_pids_on_record(
    records: Seq<RecordView>,
    entries: Seq<RuntimeEntry>,
    answers: Seq<bool>,
)
    ensures
        stale_list(records, entries) == records.filter(
            |r: RecordView|
                r.backend == BackendKind::Local && r.runtime_pid is Some && forall|j: int|
                    0 <= j < entries.len() ==> (#[trigger] entries[j]).0.pubkey@ != r.pubkey,
        ).map_values(|r: RecordView| r.runtime_pid->0),
        answers.len() == stale_list(records, entries).len() ==> probed_pids(
            pass_calls(stale_list(records, entries), answers),
        ) == stale_list(records, entries),
{
    let is_stale = |r: RecordView| stale(r, entries) is Some;
    let on_file = |r: RecordView|
        r.backend == BackendKind::Local && r.runtime_pid is Some && forall|j: int|
            0 <= j < entries.len() ==> (#[trigger] entries[j]).0.pubkey@ != r.pubkey;
    assert forall|r: RecordView| (#[trigger] stale(r, entries) is Some) == on_file(r) && (stale(
        r,
        entries,
    ) is Some ==> stale(r, entries) == r.runtime_pid) by {
        lemma_stale_cases(r, entries);
    }
    assert(is_stale =~= on_file);
    let kept = records.filter(is_stale);
    assert forall|k: int| 0 <= k < kept.len() implies stale(#[trigger] kept[k], entries)
        == kept[k].runtime_pid by {
        assert(is_stale(kept[k]));
    }
    assert(stale_list(records, entries) =~= records.filter(on_file).map_values(
        |r: RecordView| r.runtime_pid->0,
    ));
    if answers.len() == stale_list(records, entries).len() {
        law_each_pid_is_probed_once(stale_list(records, entries), answers);
    }
}

/// A record is stale with its own PID or not at all.
proof fn lemma_stale_cases(r: RecordView, entries: Seq<RuntimeEntry>)
    ensures
        stale(r, entries) is Some <==> r.backend == BackendKind::Local && r.runtime_pid is Some
            && forall|j: int|
            0 <= j < entries.len() ==> (#[trigger] entries[j]).0.pubkey@ != r.pubkey,
        stale(r, entries) is Some ==> stale(r, entries) == r.runtime_pid,
{
    if exists|j: int| 0 <= j < entries.len() && (#[trigger] entries[j]).0.pubkey@ == r.pubkey {
        let j = choose|j: int|
            0 <= j < entries.len() && (#[trigger] entries[j]).0.pubkey@ == r.pubkey;
        law_a_key_in_the_map_protects(r, entries, j);
    } else if r.backend == BackendKind::Local {
        law_stale_pid_is_the_one_on_record(r, entries);
    } else {
        law_a_key_in_the_map_protects(r, entries, 0);
    }
}

/// The calls of a kill pass, place by place: the probe of a PID stands behind the
/// probes of all PIDs before it and one kill for each yes among their answers, its
/// own kill, after a yes, stands next, and there is no other call.
pub proof fn law_calls_stand_in_list_order(pids: Seq<u32>, answers: Seq<bool>, k: int)
    requires
        answers.len() == pids.len(),
    ensures
        ({
            let calls = pass_calls(pids, answers);
            let q = k + answers.take(k).filter(|b: bool| b).len();
            &&& calls.len() == pids.len() + answers.filter(|b: bool| b).len()
            &&& 0 <= k < pids.len() ==> {
                &&& q < calls.len()
                &&& calls[q] == Call::Probe(pids[k], answers[k])
                &&& answers[k] ==> q + 1 < calls.len() && calls[q + 1] == Call::Kill(pids[k])
            }
        }),
    decreases pids.len(),
{
    let yes = |b: bool| b;
    if pids.len() > 0 {
        let shorter = answers.drop_last();
        law_calls_stand_in_list_order(pids.drop_last(), shorter, k);
        lemma_filter_grows(shorter, answers.last(), yes);
        assert(answers =~= shorter.push(answers.last()));
        if 0 <= k < pids.len() - 1 {
            assert(shorter.take(k) =~= answers.take(k));
        } else if k == pids.len() - 1 {
            assert(shorter =~= answers.take(k));
        }
    }
}

/// The answers of a kill pass are the probe's own, one for each PID of the list, and
/// where one is a yes, the kill was called on that very PID.
pub proof fn law_answers_and_kills_are_calls<
    M: Fn(u32) -> bool,
    K: FnMut(u32) -> Result<(), String>,
>(has_marker: M, kill: K, pids: Seq<u32>, answers: Seq<bool>, k: int)
    requires
        reclaimed(says(has_marker), kill, pids, answers),
        0 <= k < pids.len(),
    ensures
        answers.len() == pids.len(),
        call_ensures(has_marker, (pids[k],), answers[k]),
        answers[k] ==> exists|outcome: Result<(), String>|
            call_ensures(kill, (pids[k],), outcome),
{
    assert(says(has_marker)(pids[k], answers[k]));
}

/// So are those of the form that takes an instance: the probe is asked about that
/// instance.
pub proof fn law_instance_answers_and_kills_are_calls<
    'a,
    P: Fn(u32, &'a str) -> bool,
    K: FnMut(u32) -> Result<(), String>,
>(probe: P, instance_id: &'a str, kill: K, pids: Seq<u32>, answers: Seq<bool>, k: int)
    requires
        reclaimed(says_of(probe, instance_id), kill, pids, answers),
        0 <= k < pids.len(),
    ensures
        answers.len() == pids.len(),
        call_ensures(probe, (pids[k], instance_id), answers[k]),
        answers[k] ==> exists|outcome: Result<(), String>|
            call_ensures(kill, (pids[k],), outcome),
{
    assert(says_of(probe, instance_id)(pids[k], answers[k]));
}

/// A kill pass clears the record of a local agent that has a PID on it and that no
/// key of the map names: the PID goes, the stop time and the date are what the clock
/// gave, and the rest stays. Every other record stays whole.
pub proof fn law_kill_clears_the_record<N: Fn() -> String>(
    before: RecordView,
    after: RecordView,
    entries: Seq<RuntimeEntry>,
    now: N,
)
    requires
        cleared(before, after, entries, now),
    ensures
        before.backend == BackendKind::Local && before.runtime_pid is Some && (forall|j: int|
            0 <= j < entries.len() ==> (#[trigger] entries[j]).0.pubkey@ != before.pubkey) ==> {
            &&& after.pubkey == before.pubkey
            &&& after.backend == before.backend
            &&& after.runtime_pid is None
            &&& after.last_exit_code == before.last_exit_code
            &&& after.last_error == before.last_error
            &&& after.last_error_code == before.last_error_code
            &&& exists|s: String| #[trigger]
                call_ensures(now, (), s) && after.last_stopped_at == Some(s@)
            &&& exists|s: String| #[trigger] call_ensures(now, (), s) && after.updated_at == s@
        },
        before.backend != BackendKind::Local || before.runtime_pid is None || (exists|j: int|
            0 <= j < entries.len() && (#[trigger] entries[j]).0.pubkey@ == before.pubkey)
            ==> after == before,
{
    lemma_stale_cases(before, entries);
}

// The sweep.

/// A root counts as live exactly when its probe found the process running, and is
/// settled by a sync exactly when it did not, whatever else its entry holds.
pub proof fn law_the_probe_decides(entry: RuntimeEntry)
    ensures
        live(entry) <==> entry.1.child.state is Live,
        settled(entry) <==> !(entry.1.child.state is Live),
{
}

/// A sweep skips the PIDs of the roots whose probe found the process running, in the
/// order of the map, and trusts their nonces: of all of them, and of no other.
pub proof fn law_sweep_inputs_are_the_running_roots(
    entries: Seq<RuntimeEntry>,
    nonce: Seq<char>,
)
    ensures
        live_pids(entries) == entries.filter(
            |e: RuntimeEntry| e.1.child.state is Live,
        ).map_values(|e: RuntimeEntry| e.1.child.pid),
        live_nonces(entries).contains(nonce) <==> exists|i: int|
            0 <= i < entries.len() && (#[trigger] entries[i]).1.child.state is Live
                && entries[i].1.start_nonce@ == nonce,
{
    let alive = |e: RuntimeEntry| live(e);
    let running = |e: RuntimeEntry| e.1.child.state is Live;
    assert forall|e: RuntimeEntry| #[trigger] live(e) == e.1.child.state is Live by {
        law_the_probe_decides(e);
    }
    assert(alive =~= running);
    assert(live_pids(entries) =~= entries.filter(running).map_values(
        |e: RuntimeEntry| e.1.child.pid,
    ));
    if live_nonces(entries).contains(nonce) {
        let i = choose|i: int|
            0 <= i < entries.len() && live(#[trigger] entries[i]) && entries[i].1.start_nonce@
                == nonce;
        assert(entries[i].1.child.state is Live);
    }
    if exists|i: int|
        0 <= i < entries.len() && (#[trigger] entries[i]).1.child.state is Live
            && entries[i].1.start_nonce@ == nonce {
        let i = choose|i: int|
            0 <= i < entries.len() && (#[trigger] entries[i]).1.child.state is Live
                && entries[i].1.start_nonce@ == nonce;
        assert(live(entries[i]));
    }
}

/// A sweep keeps every entry in its place, with its key, its root, its nonce and its
/// log. A status that is cached stays; else that of a root that ended is cached, and
/// none of any other.
pub proof fn law_sweep_caches_the_status_seen(entries: Seq<RuntimeEntry>, i: int)
    requires
        0 <= i < entries.len(),
    ensures
        ({
            let after = swept_entries(entries)[i];
            &&& swept_entries(entries).len() == entries.len()
            &&& after.0 == entries[i].0
            &&& after.1.child == entries[i].1.child
            &&& after.1.start_nonce == entries[i].1.start_nonce
            &&& after.1.log_error == entries[i].1.log_error
            &&& entries[i].1.reaped_exit_status is Some ==> after.1.reaped_exit_status
                == entries[i].1.reaped_exit_status
            &&& entries[i].1.reaped_exit_status is None ==> match entries[i].1.child.state {
                ChildState::Exited(status) => after.1.reaped_exit_status == Some(status),
                _ => after.1.reaped_exit_status is None,
            }
        }),
{
}

// The sync.

/// A sync keeps, in their order, the entries whose probe found the process running,
/// and reports, in the order of the map, the agents of all others.
pub proof fn law_sync_parts_the_map_by_the_probe(entries: Seq<RuntimeEntry>)
    ensures
        remaining(entries) == entries.filter(|e: RuntimeEntry| e.1.child.state is Live),
        exited_pubkeys(entries) == entries.filter(
            |e: RuntimeEntry| !(e.1.child.state is Live),
        ).map_values(|e: RuntimeEntry| e.0.pubkey@),
{
    let stays = |e: RuntimeEntry| !settled(e);
    let gone = |e: RuntimeEntry| settled(e);
    let running = |e: RuntimeEntry| e.1.child.state is Live;
    let ended = |e: RuntimeEntry| !(e.1.child.state is Live);
    assert forall|e: RuntimeEntry| #[trigger] settled(e) == !(e.1.child.state is Live) by {
        law_the_probe_decides(e);
    }
    assert(stays =~= running);
    assert(gone =~= ended);
    assert(exited_pubkeys(entries) =~= entries.filter(ended).map_values(
        |e: RuntimeEntry| e.0.pubkey@,
    ));
}

/// A sync says that something was modified exactly when some probe, anywhere in the
/// map, did not find the process running, or some record has a legacy PID. So it does
/// whenever it reports an agent, takes an entry out, or leaves a record that is not
/// as it was.
pub proof fn law_sync_owns_up_to_changes<N: Fn() -> String>(
    before: Seq<RecordView>,
    after: Seq<RecordView>,
    entries: Seq<RuntimeEntry>,
    now: N,
)
    requires
        synced(before, after, entries, now),
    ensures
        sync_changes(before, entries) <==> {
            ||| exists|j: int|
                0 <= j < entries.len() && !((#[trigger] entries[j]).1.child.state is Live)
            ||| exists|i: int| 0 <= i < before.len() && (#[trigger] before[i]).runtime_pid is Some
        },
        exited_pubkeys(entries).len() > 0 ==> sync_changes(before, entries),
        remaining(entries) != entries ==> sync_changes(before, entries),
        after != before ==> sync_changes(before, entries),
{
    let gone = |e: RuntimeEntry| settled(e);
    assert forall|j: int| 0 <= j < entries.len() implies settled(#[trigger] entries[j]) == !(
    entries[j].1.child.state is Live) by {
        law_the_probe_decides(entries[j]);
    }
    if exists|j: int| 0 <= j < entries.len() && !((#[trigger] entries[j]).1.child.state is Live) {
        let j = choose|j: int|
            0 <= j < entries.len() && !((#[trigger] entries[j]).1.child.state is Live);
        assert(settled(entries[j]));
        assert(sync_changes(before, entries));
    } else {
        lemma_all_live_stay(entries);
        assert forall|j: int| 0 <= j < entries.len() implies !settled(#[trigger] entries[j]) by {}
        if !(exists|i: int| 0 <= i < before.len() && (#[trigger] before[i]).runtime_pid is Some) {
            let (settled_at, retired_at) = choose|
                settled_at: Seq<Reading>,
                retired_at: Seq<Seq<char>>,
            |
                #[trigger] readings_of(now, before, entries, settled_at, retired_at) && after
                    == retire_all(
                    settle_all(before, entries, settled_at, entries.len()),
                    retired_at,
                );
            lemma_live_settles_nothing(before, entries, settled_at, entries.len());
            assert(after =~= before);
        }
    }
}

/// With live roots only, a sync takes nothing out and reports nobody.
proof fn lemma_all_live_stay(entries: Seq<RuntimeEntry>)
    requires
        forall|j: int| 0 <= j < entries.len() ==> (#[trigger] entries[j]).1.child.state is Live,
    ensures
        remaining(entries) == entries,
        exited_pubkeys(entries).len() == 0,
    decreases entries.len(),
{
    reveal(Seq::filter);
    if entries.len() > 0 {
        lemma_all_live_stay(entries.drop_last());
        law_the_probe_decides(entries.last());
        assert(entries =~= entries.drop_last().push(entries.last()));
    } else {
        assert(remaining(entries) =~= entries);
    }
}

/// A sync keeps every record in its place, with its agent and its backend, and leaves
/// no legacy PID.
pub proof fn law_sync_keeps_records_in_place<N: Fn() -> String>(
    before: Seq<RecordView>,
    after: Seq<RecordView>,
    entries: Seq<RuntimeEntry>,
    now: N,
    i: int,
)
    requires
        synced(before, after, entries, now),
        0 <= i < before.len(),
    ensures
        after.len() == before.len(),
        after[i].pubkey == before[i].pubkey,
        after[i].backend == before[i].backend,
        after[i].runtime_pid is None,
{
    let (settled_at, retired_at) = choose|settled_at: Seq<Reading>, retired_at: Seq<Seq<char>>|
        #[trigger] readings_of(now, before, entries, settled_at, retired_at) && after == retire_all(
            settle_all(before, entries, settled_at, entries.len()),
            retired_at,
        );
    lemma_settle_all_keeps(before, entries, settled_at, entries.len());
}

/// A record keeps what it says of exits and errors where every root of its agent
/// runs, or where an earlier record is of the same agent. It keeps its date too,
/// unless a legacy PID goes: then the clock gives the date.
pub proof fn law_sync_leaves_the_rest_alone<N: Fn() -> String>(
    before: Seq<RecordView>,
    after: Seq<RecordView>,
    entries: Seq<RuntimeEntry>,
    now: N,
    i: int,
)
    requires
        synced(before, after, entries, now),
        0 <= i < before.len(),
        (forall|j: int|
            0 <= j < entries.len() && (#[trigger] entries[j]).0.pubkey@ == before[i].pubkey
                ==> entries[j].1.child.state is Live) || (exists|k: int|
            0 <= k < i && (#[trigger] before[k]).pubkey == before[i].pubkey),
    ensures
        after[i].last_stopped_at == before[i].last_stopped_at,
        after[i].last_exit_code == before[i].last_exit_code,
        after[i].last_error == before[i].last_error,
        after[i].last_error_code == before[i].last_error_code,
        before[i].runtime_pid is None ==> after[i].updated_at == before[i].updated_at,
        before[i].runtime_pid is Some ==> exists|s: String| #[trigger]
            call_ensures(now, (), s) && after[i].updated_at == s@,
{
    let (settled_at, retired_at) = choose|settled_at: Seq<Reading>, retired_at: Seq<Seq<char>>|
        #[trigger] readings_of(now, before, entries, settled_at, retired_at) && after == retire_all(
            settle_all(before, entries, settled_at, entries.len()),
            retired_at,
        );
    lemma_settle_all_keeps(before, entries, settled_at, entries.len());
    assert forall|j: int|
        0 <= j < entries.len() && settled(#[trigger] entries[j]) implies !first_of(
        before,
        entries[j].0.pubkey@,
        i,
    ) by {
        law_the_probe_decides(entries[j]);
    }
    lemma_unconcerned(before, entries, settled_at, 0, entries.len(), i);
    if before[i].runtime_pid is Some {
        assert(reading(now, retired_at[i]));
    }
}

/// The first record of an agent tells how the last of its roots to go has ended,
/// where that was seen, by the probe or by an earlier sweep. It has the exit code, a
/// stop time and a date off the clock. After exit code zero it has no error. After
/// any other end it has the message and the code of the log's error, with or without
/// a code, and where the log has none, the status in words and no code.
pub proof fn law_sync_tells_the_end<N: Fn() -> String>(
    before: Seq<RecordView>,
    after: Seq<RecordView>,
    entries: Seq<RuntimeEntry>,
    now: N,
    i: int,
    j: int,
    status: ExitStatus,
)
    requires
        synced(before, after, entries, now),
        0 <= i < before.len(),
        0 <= j < entries.len(),
        entries[j].0.pubkey@ == before[i].pubkey,
        forall|k: int| 0 <= k < i ==> (#[trigger] before[k]).pubkey != before[i].pubkey,
        entries[j].1.child.state == ChildState::Exited(status) || (
        entries[j].1.child.state is Unavailable && entries[j].1.reaped_exit_status == Some(status)),
        forall|k: int|
            j < k < entries.len() && (#[trigger] entries[k]).0.pubkey@ == before[i].pubkey
                ==> entries[k].1.child.state is Live,
    ensures
        after[i].last_exit_code == status.code,
        exists|s: String| #[trigger]
            call_ensures(now, (), s) && after[i].last_stopped_at == Some(s@),
        exists|s: String| #[trigger] call_ensures(now, (), s) && after[i].updated_at == s@,
        status.code == Some(0i32) ==> after[i].last_error is None && after[i].last_error_code is None,
        status.code != Some(0i32) ==> match entries[j].1.log_error {
            Some(e) => after[i].last_error == Some(e.message@) && after[i].last_error_code
                == e.code,
            None => after[i].last_error == Some(
                "harness exited with status "@ + status.description@,
            ) && after[i].last_error_code is None,
        },
{
    let (settled_at, retired_at) = choose|settled_at: Seq<Reading>, retired_at: Seq<Seq<char>>|
        #[trigger] readings_of(now, before, entries, settled_at, retired_at) && after == retire_all(
            settle_all(before, entries, settled_at, entries.len()),
            retired_at,
        );
    lemma_decided_by(before, entries, i, j);
    law_last_settlement_decides(before, entries, settled_at, retired_at, i, j);
    assert(on_record(before, entries[j].0.pubkey@));
    assert(settled_by_clock(now, before, entries[j], settled_at[j]));
    assert(reading(now, settled_at[j].stopped_at));
    if before[i].runtime_pid is Some {
        assert(reading(now, retired_at[i]));
    }
}

/// Where nobody saw the last root of an agent go, its first record has the probe's
/// error, no error code, and a date off the clock.
pub proof fn law_sync_tells_the_loss<N: Fn() -> String>(
    before: Seq<RecordView>,
    after: Seq<RecordView>,
    entries: Seq<RuntimeEntry>,
    now: N,
    i: int,
    j: int,
    error: String,
)
    requires
        synced(before, after, entries, now),
        0 <= i < before.len(),
        0 <= j < entries.len(),
        entries[j].0.pubkey@ == before[i].pubkey,
        forall|k: int| 0 <= k < i ==> (#[trigger] before[k]).pubkey != before[i].pubkey,
        entries[j].1.child.state == ChildState::Unavailable(error),
        entries[j].1.reaped_exit_status is None,
        forall|k: int|
            j < k < entries.len() && (#[trigger] entries[k]).0.pubkey@ == before[i].pubkey
                ==> entries[k].1.child.state is Live,
    ensures
        after[i].last_error == Some("failed to inspect process state: "@ + error@),
        after[i].last_error_code is None,
        exists|s: String| #[trigger] call_ensures(now, (), s) && after[i].updated_at == s@,
{
    let (settled_at, retired_at) = choose|settled_at: Seq<Reading>, retired_at: Seq<Seq<char>>|
        #[trigger] readings_of(now, before, entries, settled_at, retired_at) && after == retire_all(
            settle_all(before, entries, settled_at, entries.len()),
            retired_at,
        );
    lemma_decided_by(before, entries, i, j);
    law_last_settlement_decides(before, entries, settled_at, retired_at, i, j);
    assert(on_record(before, entries[j].0.pubkey@));
    assert(settled_by_clock(now, before, entries[j], settled_at[j]));
    if before[i].runtime_pid is Some {
        assert(reading(now, retired_at[i]));
    }
}

/// The last root of an agent that is gone is the last one to be settled.
proof fn lemma_decided_by(records: Seq<RecordView>, entries: Seq<RuntimeEntry>, i: int, j: int)
    requires
        0 <= i < records.len(),
        0 <= j < entries.len(),
        entries[j].0.pubkey@ == records[i].pubkey,
        forall|k: int| 0 <= k < i ==> (#[trigger] records[k]).pubkey != records[i].pubkey,
        !(entries[j].1.child.state is Live),
        forall|k: int|
            j < k < entries.len() && (#[trigger] entries[k]).0.pubkey@ == records[i].pubkey
                ==> entries[k].1.child.state is Live,
    ensures
        settled(entries[j]),
        first_of(records, entries[j].0.pubkey@, i),
        forall|k: int|
            j < k < entries.len() && settled(#[trigger] entries[k]) ==> entries[k].0.pubkey@
                != entries[j].0.pubkey@,
{
    law_the_probe_decides(entries[j]);
    assert forall|k: int| j < k < entries.len() && settled(#[trigger] entries[k]) implies
        entries[k].0.pubkey@ != entries[j].0.pubkey@ by {
        law_the_probe_decides(entries[k]);
    }
}

/// The exit code and the stop time of an agent's first record are those of the last
/// of its roots that was seen to end, though roots that nobody saw go come after it.
pub proof fn law_sync_keeps_the_last_exit_seen<N: Fn() -> String>(
    before: Seq<RecordView>,
    after: Seq<RecordView>,
    entries: Seq<RuntimeEntry>,
    now: N,
    i: int,
    j: int,
    status: ExitStatus,
)
    requires
        synced(before, after, entries, now),
        0 <= i < before.len(),
        0 <= j < entries.len(),
        entries[j].0.pubkey@ == before[i].pubkey,
        forall|k: int| 0 <= k < i ==> (#[trigger] before[k]).pubkey != before[i].pubkey,
        entries[j].1.child.state == ChildState::Exited(status) || (
        entries[j].1.child.state is Unavailable && entries[j].1.reaped_exit_status == Some(status)),
        forall|k: int|
            j < k < entries.len() && (#[trigger] entries[k]).0.pubkey@ == before[i].pubkey
                ==> entries[k].1.child.state is Live || (entries[k].1.child.state is Unavailable
                && entries[k].1.reaped_exit_status is None),
    ensures
        after[i].last_exit_code == status.code,
        exists|s: String| #[trigger]
            call_ensures(now, (), s) && after[i].last_stopped_at == Some(s@),
{
    let (settled_at, retired_at) = choose|settled_at: Seq<Reading>, retired_at: Seq<Seq<char>>|
        #[trigger] readings_of(now, before, entries, settled_at, retired_at) && after == retire_all(
            settle_all(before, entries, settled_at, entries.len()),
            retired_at,
        );
    let earlier = settle_all(before, entries, settled_at, j as nat);
    lemma_settle_all_keeps(before, entries, settled_at, j as nat);
    lemma_settle_all_keeps(before, entries, settled_at, entries.len());
    lemma_first_carries(earlier, before, entries[j].0.pubkey@, i);
    lemma_exit_kept(before, entries, settled_at, (j + 1) as nat, entries.len(), i);
    assert(on_record(before, entries[j].0.pubkey@));
    assert(settled_by_clock(now, before, entries[j], settled_at[j]));
    assert(reading(now, settled_at[j].stopped_at));
}

/// Where no root of an agent was seen to end, its records keep their exit code and
/// stop time.
pub proof fn law_sync_invents_no_exit<N: Fn() -> String>(
    before: Seq<RecordView>,
    after: Seq<RecordView>,
    entries: Seq<RuntimeEntry>,
    now: N,
    i: int,
)
    requires
        synced(before, after, entries, now),
        0 <= i < before.len(),
        forall|k: int|
            0 <= k < entries.len() && (#[trigger] entries[k]).0.pubkey@ == before[i].pubkey
                ==> entries[k].1.child.state is Live || (entries[k].1.child.state is Unavailable
                && entries[k].1.reaped_exit_status is None),
    ensures
        after[i].last_exit_code == before[i].last_exit_code,
        after[i].last_stopped_at == before[i].last_stopped_at,
{
    let (settled_at, retired_at) = choose|settled_at: Seq<Reading>, retired_at: Seq<Seq<char>>|
        #[trigger] readings_of(now, before, entries, settled_at, retired_at) && after == retire_all(
            settle_all(before, entries, settled_at, entries.len()),
            retired_at,
        );
    lemma_settle_all_keeps(before, entries, settled_at, entries.len());
    lemma_exit_kept(before, entries, settled_at, 0, entries.len(), i);
}

/// Roots from `m` up to `n` that were not seen to end leave the exit code and the
/// stop time of their agent's records alone.
proof fn lemma_exit_kept(
    records: Seq<RecordView>,
    entries: Seq<RuntimeEntry>,
    at: Seq<Reading>,
    m: nat,
    n: nat,
    i: int,
)
    requires
        m <= n <= entries.len(),
        0 <= i < records.len(),
        forall|k: int|
            m <= k < n && (#[trigger] entries[k]).0.pubkey@ == records[i].pubkey
                ==> entries[k].1.child.state is Live || (entries[k].1.child.state is Unavailable
                && entries[k].1.reaped_exit_status is None),
    ensures
        settle_all(records, entries, at, n)[i].last_exit_code == settle_all(
            records,
            entries,
            at,
            m,
        )[i].last_exit_code,
        settle_all(records, entries, at, n)[i].last_stopped_at == settle_all(
            records,
            entries,
            at,
            m,
        )[i].last_stopped_at,
    decreases n,
{
    if n > m {
        lemma_exit_kept(records, entries, at, m, (n - 1) as nat, i);
        lemma_settle_all_keeps(records, entries, at, (n - 1) as nat);
        assert(entries[n - 1].0.pubkey@ == records[i].pubkey ==> !(settlement(
            entries[n - 1].1,
        ) is Exited));
    }
}

/// The log of a runtime is wanted exactly when its root was seen to end, by the probe
/// or by an earlier sweep, with anything but exit code zero, and its agent has a
/// record.
pub proof fn law_log_is_wanted_after_a_failure(records: Seq<RecordView>, entry: RuntimeEntry)
    ensures
        log_wanted(records, entry) <==> {
            &&& match (entry.1.child.state, entry.1.reaped_exit_status) {
                (ChildState::Exited(status), _) => status.code != Some(0i32),
                (ChildState::Unavailable(_), Some(status)) => status.code != Some(0i32),
                _ => false,
            }
            &&& exists|i: int|
                0 <= i < records.len() && (#[trigger] records[i]).pubkey == entry.0.pubkey@
        },
{
}

} // verus!
