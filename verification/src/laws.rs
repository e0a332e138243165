//! What holds of the passes together.
use vstd::prelude::*;
use crate::reclaim::{answered, calls_for, killed_pids, lemma_pass_calls_grow, pass_calls};
use crate::reclaim::{probed_pids, says, Call};
use crate::runtimes::{distinct_keys, has_key, lemma_filter_grows, RuntimeEntry};
use crate::stale::{cleared, has_runtime, says_of, stale, stale_list};
use crate::sweep::{live, live_nonces, live_pids, swept, swept_entries};
use crate::sync::{after_settlement, exit_error, exit_error_code, exited_pubkeys, first_of};
use crate::sync::{lemma_settle_all_keeps, log_wanted, on_record, remaining, retire_all, retired};
use crate::sync::{settle_all, settle_one, settled, settlement, sync_changes};
use crate::sync::{Reading, Settlement};
use crate::types::{AgentLogError, BackendKind, ChildState, ExitStatus};
use crate::types::{ManagedAgentChild, ManagedAgentPairRuntime, RecordView};
use crate::types::{reading, same_key};

verus! {

/// A runtime whose root was probed anew.
pub open spec fn reprobed(
    runtime: ManagedAgentPairRuntime,
    state: ChildState,
) -> ManagedAgentPairRuntime {
    ManagedAgentPairRuntime { child: ManagedAgentChild { state, ..runtime.child }, ..runtime }
}

/// A runtime with another finding in its log.
pub open spec fn relogged(
    runtime: ManagedAgentPairRuntime,
    log_error: Option<AgentLogError>,
) -> ManagedAgentPairRuntime {
    ManagedAgentPairRuntime { log_error, ..runtime }
}

/// A generation is trusted, and a PID skipped, exactly while a live root stands
/// for it: nothing else that the map holds confers liveness.
pub proof fn law_trust_follows_live_roots(entries: Seq<RuntimeEntry>, nonce: Seq<char>, pid: u32)
    ensures
        live_nonces(entries).contains(nonce) <==> exists|i: int|
            0 <= i < entries.len() && live(#[trigger] entries[i]) && entries[i].1.start_nonce@
                == nonce,
        live_pids(entries).contains(pid) <==> exists|i: int|
            0 <= i < entries.len() && live(#[trigger] entries[i]) && entries[i].1.child.pid == pid,
{
    let alive = |e: RuntimeEntry| live(e);
    let roots = entries.filter(alive);
    if live_pids(entries).contains(pid) {
        let k = choose|k: int| 0 <= k < live_pids(entries).len() && live_pids(entries)[k] == pid;
        entries.lemma_filter_contains_rev(alive, roots[k]);
        let i = choose|i: int| 0 <= i < entries.len() && entries[i] == roots[k];
        assert(live(entries[i]) && entries[i].1.child.pid == pid);
    }
    if exists|i: int|
        0 <= i < entries.len() && live(#[trigger] entries[i]) && entries[i].1.child.pid == pid {
        let i = choose|i: int|
            0 <= i < entries.len() && live(#[trigger] entries[i]) && entries[i].1.child.pid == pid;
        assert(roots.contains(entries[i]));
        let k = choose|k: int| 0 <= k < roots.len() && roots[k] == entries[i];
        assert(live_pids(entries)[k] == pid);
    }
}

/// The exit status that the first sweep to see a root dead has cached outlives
/// every later sweep, whatever its probe finds.
pub proof fn law_cached_status_is_kept(runtime: ManagedAgentPairRuntime, later: ChildState)
    requires
        runtime.reaped_exit_status is Some,
    ensures
        swept(reprobed(runtime, later)).reaped_exit_status == runtime.reaped_exit_status,
{
}

/// A root that a background sweep reaped is settled with its real exit status,
/// though a later probe of it fails.
pub proof fn law_background_reap_keeps_status(
    runtime: ManagedAgentPairRuntime,
    status: ExitStatus,
    error: String,
)
    requires
        runtime.child.state == ChildState::Exited(status),
        runtime.reaped_exit_status is None,
    ensures
        settlement(reprobed(swept(runtime), ChildState::Unavailable(error)))
            == Settlement::Exited(status),
{
}

/// A sweep changes neither what a sweep finds nor what it leaves behind.
pub proof fn law_sweep_is_idempotent(entries: Seq<RuntimeEntry>)
    ensures
        swept_entries(swept_entries(entries)) == swept_entries(entries),
        live_pids(swept_entries(entries)) == live_pids(entries),
        live_nonces(swept_entries(entries)) == live_nonces(entries),
{
    assert(live_nonces(swept_entries(entries)) =~= live_nonces(entries)) by {
        let after = swept_entries(entries);
        assert forall|nonce: Seq<char>| live_nonces(after).contains(nonce) == live_nonces(
            entries,
        ).contains(nonce) by {
            if live_nonces(after).contains(nonce) {
                let i = choose|i: int|
                    0 <= i < after.len() && live(#[trigger] after[i]) && after[i].1.start_nonce@
                        == nonce;
                assert(live(entries[i]));
            }
            if live_nonces(entries).contains(nonce) {
                let i = choose|i: int|
                    0 <= i < entries.len() && live(#[trigger] entries[i])
                        && entries[i].1.start_nonce@ == nonce;
                assert(live(after[i]));
            }
        }
    }
    lemma_live_part_survives_sweep(entries);
}

/// A sweep leaves the live entries as they are.
proof fn lemma_live_part_survives_sweep(entries: Seq<RuntimeEntry>)
    ensures
        swept_entries(entries).filter(|e: RuntimeEntry| live(e)) == entries.filter(
            |e: RuntimeEntry| live(e),
        ),
    decreases entries.len(),
{
    let alive = |e: RuntimeEntry| live(e);
    reveal(Seq::filter);
    if entries.len() > 0 {
        let shorter = entries.drop_last();
        lemma_live_part_survives_sweep(shorter);
        assert(swept_entries(entries).drop_last() =~= swept_entries(shorter));
    }
}

/// What is settled is what is not alive: a sync keeps exactly the live roots.
pub proof fn law_sync_keeps_live_roots(entries: Seq<RuntimeEntry>)
    ensures
        remaining(entries) == entries.filter(|e: RuntimeEntry| live(e)),
{
    assert((|e: RuntimeEntry| !settled(e)) =~= (|e: RuntimeEntry| live(e)));
}

/// A sync in between changes nothing for the sweep: the roots that it takes out
/// contribute nothing.
pub proof fn law_sync_preserves_sweep_inputs(entries: Seq<RuntimeEntry>)
    ensures
        live_pids(remaining(entries)) == live_pids(entries),
        live_nonces(remaining(entries)) == live_nonces(entries),
{
    let alive = |e: RuntimeEntry| live(e);
    law_sync_keeps_live_roots(entries);
    lemma_filter_twice(entries, alive);
    let kept = remaining(entries);
    assert forall|nonce: Seq<char>| live_nonces(kept).contains(nonce) == live_nonces(
        entries,
    ).contains(nonce) by {
        if live_nonces(kept).contains(nonce) {
            let i = choose|i: int|
                0 <= i < kept.len() && live(#[trigger] kept[i]) && kept[i].1.start_nonce@ == nonce;
            entries.lemma_filter_contains_rev(alive, kept[i]);
            let k = choose|k: int| 0 <= k < entries.len() && entries[k] == kept[i];
            assert(live(entries[k]));
        }
        if live_nonces(entries).contains(nonce) {
            let i = choose|i: int|
                0 <= i < entries.len() && live(#[trigger] entries[i]) && entries[i].1.start_nonce@
                    == nonce;
            assert(kept.contains(entries[i]));
            let k = choose|k: int| 0 <= k < kept.len() && kept[k] == entries[i];
            assert(live(kept[k]));
        }
    }
}

/// Filtering again takes nothing out.
proof fn lemma_filter_twice(entries: Seq<RuntimeEntry>, keep: spec_fn(RuntimeEntry) -> bool)
    ensures
        entries.filter(keep).filter(keep) == entries.filter(keep),
    decreases entries.len(),
{
    reveal(Seq::filter);
    if entries.len() > 0 {
        let shorter = entries.drop_last();
        lemma_filter_twice(shorter, keep);
        if keep(entries.last()) {
            lemma_filter_grows(shorter.filter(keep), entries.last(), keep);
        }
    }
}

/// A sweep in between changes nothing for a sync that meets the same probes.
pub proof fn law_sweep_preserves_sync(
    records: Seq<RecordView>,
    entries: Seq<RuntimeEntry>,
    at: Seq<Reading>,
)
    ensures
        settle_all(records, swept_entries(entries), at, entries.len()) == settle_all(
            records,
            entries,
            at,
            entries.len(),
        ),
        exited_pubkeys(swept_entries(entries)) == exited_pubkeys(entries),
        remaining(swept_entries(entries)) == remaining(entries),
        sync_changes(records, swept_entries(entries)) == sync_changes(records, entries),
{
    let after = swept_entries(entries);
    lemma_swept_settles_alike(records, entries, at, entries.len());
    lemma_swept_exits_alike(entries);
    law_sync_keeps_live_roots(entries);
    law_sync_keeps_live_roots(after);
    lemma_live_part_survives_sweep(entries);
    assert forall|j: int| 0 <= j < entries.len() implies settled(#[trigger] after[j]) == settled(
        entries[j],
    ) by {}
    if exists|j: int| 0 <= j < entries.len() && settled(#[trigger] entries[j]) {
        let j = choose|j: int| 0 <= j < entries.len() && settled(#[trigger] entries[j]);
        assert(settled(after[j]));
    }
    if exists|j: int| 0 <= j < after.len() && settled(#[trigger] after[j]) {
        let j = choose|j: int| 0 <= j < after.len() && settled(#[trigger] after[j]);
        assert(settled(entries[j]));
    }
}

/// Sweeping first makes no difference to the records.
proof fn lemma_swept_settles_alike(
    records: Seq<RecordView>,
    entries: Seq<RuntimeEntry>,
    at: Seq<Reading>,
    n: nat,
)
    requires
        n <= entries.len(),
    ensures
        settle_all(records, swept_entries(entries), at, n) == settle_all(records, entries, at, n),
    decreases n,
{
    if n > 0 {
        lemma_swept_settles_alike(records, entries, at, (n - 1) as nat);
        let middle = settle_all(records, entries, at, (n - 1) as nat);
        assert(settle_one(middle, swept_entries(entries)[n - 1], at[n - 1]) =~= settle_one(
            middle,
            entries[n - 1],
            at[n - 1],
        ));
    }
}

/// Sweeping first makes no difference to what is reported.
proof fn lemma_swept_exits_alike(entries: Seq<RuntimeEntry>)
    ensures
        exited_pubkeys(swept_entries(entries)) == exited_pubkeys(entries),
    decreases entries.len(),
{
    let gone = |e: RuntimeEntry| settled(e);
    if entries.len() > 0 {
        let shorter = entries.drop_last();
        let last = entries.last();
        let after = swept_entries(shorter);
        let after_last = (last.0, swept(last.1));
        lemma_swept_exits_alike(shorter);
        assert(shorter.push(last) =~= entries);
        assert(after.push(after_last) =~= swept_entries(entries));
        lemma_filter_grows(shorter, last, gone);
        lemma_filter_grows(after, after_last, gone);
        if gone(last) {
            assert(exited_pubkeys(swept_entries(entries)) =~= exited_pubkeys(after).push(
                last.0.pubkey@,
            ));
        }
    }
}

/// An agent that runs elsewhere, or that this session runs, is left alone: no
/// process is reclaimed on its account and its record stays as it is.
pub proof fn law_kill_spares_others<N: Fn() -> String>(
    before: RecordView,
    after: RecordView,
    entries: Seq<RuntimeEntry>,
    now: N,
)
    requires
        before.backend != BackendKind::Local || has_runtime(entries, before.pubkey),
        cleared(before, after, entries, now),
    ensures
        stale(before, entries) is None,
        after == before,
{
}

/// A kill pass leaves no stale record behind, whatever became of the process,
/// and a second pass changes nothing.
pub proof fn law_kill_is_final<N: Fn() -> String, M: Fn() -> String>(
    before: RecordView,
    after: RecordView,
    again: RecordView,
    entries: Seq<RuntimeEntry>,
    now: N,
    later: M,
)
    requires
        cleared(before, after, entries, now),
        cleared(after, again, entries, later),
    ensures
        stale(after, entries) is None,
        again == after,
{
}

/// The stale PIDs of two lists of records, one behind the other, are those of the
/// first and then those of the second.
pub proof fn law_kill_list_joins(
    a: Seq<RecordView>,
    b: Seq<RecordView>,
    entries: Seq<RuntimeEntry>,
)
    ensures
        stale_list(a + b, entries) == stale_list(a, entries) + stale_list(b, entries),
{
    Seq::filter_distributes_over_add(a, b, |r: RecordView| stale(r, entries) is Some);
    assert(stale_list(a + b, entries) =~= stale_list(a, entries) + stale_list(b, entries));
}

/// A PID is on the list of a kill pass exactly when some record is stale with it.
pub proof fn law_kill_list_is_what_is_stale(
    records: Seq<RecordView>,
    entries: Seq<RuntimeEntry>,
    pid: u32,
)
    ensures
        stale_list(records, entries).contains(pid) <==> exists|i: int|
            0 <= i < records.len() && stale(#[trigger] records[i], entries) == Some(pid),
{
    let is_stale = |r: RecordView| stale(r, entries) is Some;
    let kept = records.filter(is_stale);
    let list = stale_list(records, entries);
    if list.contains(pid) {
        let k = choose|k: int| 0 <= k < list.len() && list[k] == pid;
        records.lemma_filter_contains_rev(is_stale, kept[k]);
        let i = choose|i: int| 0 <= i < records.len() && records[i] == kept[k];
        assert(stale(records[i], entries) == Some(pid));
    }
    if exists|i: int| 0 <= i < records.len() && stale(#[trigger] records[i], entries) == Some(pid) {
        let i = choose|i: int|
            0 <= i < records.len() && stale(#[trigger] records[i], entries) == Some(pid);
        assert(kept.contains(records[i]));
        let k = choose|k: int| 0 <= k < kept.len() && kept[k] == records[i];
        assert(list[k] == pid);
    }
}

/// A kill pass probes every PID of its list once, in the order of the list.
pub proof fn law_each_pid_is_probed_once(pids: Seq<u32>, answers: Seq<bool>)
    requires
        answers.len() == pids.len(),
    ensures
        probed_pids(pass_calls(pids, answers)) == pids,
    decreases pids.len(),
{
    let is_probe = |c: Call| c is Probe;
    if pids.len() == 0 {
        assert(probed_pids(pass_calls(pids, answers)) =~= pids);
    } else {
        let before = pass_calls(pids.drop_last(), answers.drop_last());
        let added = calls_for(pids.last(), answers.last());
        law_each_pid_is_probed_once(pids.drop_last(), answers.drop_last());
        Seq::filter_distributes_over_add(before, added, is_probe);
        lemma_calls_for(pids.last(), answers.last());
        assert(probed_pids(before + added) =~= probed_pids(before) + probed_pids(added));
        assert(pids =~= pids.drop_last().push(pids.last()));
    }
}

/// A kill pass kills, in the order of its list, the PIDs whose probe said yes, each
/// as often as it is on the list: where the marker is a matter of the process alone,
/// the marked ones.
pub proof fn law_kills_are_the_marked(
    pids: Seq<u32>,
    answers: Seq<bool>,
    marked: spec_fn(u32) -> bool,
)
    requires
        answers.len() == pids.len(),
        forall|k: int| 0 <= k < pids.len() ==> #[trigger] answers[k] == marked(pids[k]),
    ensures
        killed_pids(pass_calls(pids, answers)) == pids.filter(marked),
    decreases pids.len(),
{
    let is_kill = |c: Call| c is Kill;
    if pids.len() == 0 {
        assert(killed_pids(pass_calls(pids, answers)) =~= pids.filter(marked));
    } else {
        let before = pass_calls(pids.drop_last(), answers.drop_last());
        let added = calls_for(pids.last(), answers.last());
        assert forall|k: int| 0 <= k < pids.len() - 1 implies #[trigger] answers.drop_last()[k]
            == marked(pids.drop_last()[k]) by {
            assert(answers[k] == marked(pids[k]));
        }
        law_kills_are_the_marked(pids.drop_last(), answers.drop_last(), marked);
        Seq::filter_distributes_over_add(before, added, is_kill);
        lemma_calls_for(pids.last(), answers.last());
        assert(killed_pids(before + added) =~= killed_pids(before) + killed_pids(added));
        lemma_filter_grows(pids.drop_last(), pids.last(), marked);
        assert(pids =~= pids.drop_last().push(pids.last()));
        assert(answers[pids.len() - 1] == marked(pids.last()));
    }
}

/// What the calls on one PID probe and kill.
proof fn lemma_calls_for(pid: u32, marked: bool)
    ensures
        probed_pids(calls_for(pid, marked)) == seq![pid],
        killed_pids(calls_for(pid, marked)) == (if marked {
            seq![pid]
        } else {
            Seq::empty()
        }),
{
    let is_probe = |c: Call| c is Probe;
    let is_kill = |c: Call| c is Kill;
    let none = Seq::<Call>::empty();
    let probe = Call::Probe(pid, marked);
    lemma_filter_grows(none, probe, is_probe);
    lemma_filter_grows(none, probe, is_kill);
    lemma_filter_grows(none.push(probe), Call::Kill(pid), is_probe);
    lemma_filter_grows(none.push(probe), Call::Kill(pid), is_kill);
    assert(calls_for(pid, marked) =~= if marked {
        none.push(probe).push(Call::Kill(pid))
    } else {
        none.push(probe)
    });
    assert(probed_pids(calls_for(pid, marked)) =~= seq![pid]);
}

/// A kill pass kills a process directly after the probe of it that said yes, and
/// after every such probe.
pub proof fn law_kill_follows_its_own_yes(pids: Seq<u32>, answers: Seq<bool>, q: int, pid: u32)
    requires
        0 <= q < pass_calls(pids, answers).len(),
    ensures
        ({
            let calls = pass_calls(pids, answers);
            &&& calls[q] == Call::Kill(pid) ==> q > 0 && calls[q - 1] == Call::Probe(pid, true)
            &&& calls[q] == Call::Probe(pid, true) ==> q + 1 < calls.len() && calls[q + 1]
                == Call::Kill(pid)
        }),
    decreases pids.len(),
{
    if pids.len() > 0 {
        let before = pass_calls(pids.drop_last(), answers.drop_last());
        if q < before.len() {
            law_kill_follows_its_own_yes(pids.drop_last(), answers.drop_last(), q, pid);
        }
    }
}

/// Whether a probe answers alike whenever it is asked the same.
pub open spec fn decided(says: spec_fn(u32, bool) -> bool) -> bool {
    forall|pid: u32, x: bool, y: bool| #[trigger] says(pid, x) && #[trigger] says(pid, y) ==> x == y
}

/// Whether a clock stands still.
pub open spec fn still<N: Fn() -> String>(now: N) -> bool {
    forall|x: Seq<char>, y: Seq<char>| #[trigger]
        reading(now, x) && #[trigger] reading(now, y) ==> x == y
}

/// A kill pass over two lists of records, one behind the other, does what a pass
/// over each does: it reports a change exactly when one of them does, leaves what
/// they leave, and makes the calls of the first and then those of the second. So it
/// is where the probe's answers and the clock do not shift between the passes.
pub proof fn law_kill_pass_joins<N: Fn() -> String>(
    a: Seq<RecordView>,
    b: Seq<RecordView>,
    after_a: Seq<RecordView>,
    after_b: Seq<RecordView>,
    after: Seq<RecordView>,
    entries: Seq<RuntimeEntry>,
    now: N,
    says: spec_fn(u32, bool) -> bool,
    answers_a: Seq<bool>,
    answers_b: Seq<bool>,
    answers: Seq<bool>,
)
    requires
        still(now),
        decided(says),
        after_a.len() == a.len(),
        after_b.len() == b.len(),
        after.len() == a.len() + b.len(),
        forall|i: int| 0 <= i < a.len() ==> cleared(#[trigger] a[i], after_a[i], entries, now),
        forall|i: int| 0 <= i < b.len() ==> cleared(#[trigger] b[i], after_b[i], entries, now),
        forall|i: int|
            0 <= i < after.len() ==> cleared(#[trigger] (a + b)[i], after[i], entries, now),
        answered(says, stale_list(a, entries), answers_a),
        answered(says, stale_list(b, entries), answers_b),
        answered(says, stale_list(a + b, entries), answers),
    ensures
        after == after_a + after_b,
        (exists|i: int| 0 <= i < after.len() && stale(#[trigger] (a + b)[i], entries) is Some) <==> {
            ||| exists|i: int| 0 <= i < a.len() && stale(#[trigger] a[i], entries) is Some
            ||| exists|i: int| 0 <= i < b.len() && stale(#[trigger] b[i], entries) is Some
        },
        pass_calls(stale_list(a + b, entries), answers) == pass_calls(
            stale_list(a, entries),
            answers_a,
        ) + pass_calls(stale_list(b, entries), answers_b),
        killed_pids(pass_calls(stale_list(a + b, entries), answers)) == killed_pids(
            pass_calls(stale_list(a, entries), answers_a),
        ) + killed_pids(pass_calls(stale_list(b, entries), answers_b)),
{
    let list_a = stale_list(a, entries);
    let list_b = stale_list(b, entries);
    let is_kill = |c: Call| c is Kill;
    law_kill_list_joins(a, b, entries);
    assert forall|i: int| 0 <= i < after.len() implies #[trigger] after[i] == (after_a
        + after_b)[i] by {
        let record = (a + b)[i];
        if i < a.len() {
            assert(record == a[i]);
            lemma_cleared_alike(record, after[i], after_a[i], entries, now);
        } else {
            assert(record == b[i - a.len()]);
            lemma_cleared_alike(record, after[i], after_b[i - a.len()], entries, now);
        }
    }
    assert(after =~= after_a + after_b);
    assert forall|i: int| 0 <= i < a.len() implies #[trigger] a[i] == (a + b)[i] by {}
    assert forall|i: int| 0 <= i < b.len() implies #[trigger] b[i] == (a + b)[i + a.len()] by {}
    assert(answered(says, list_a + list_b, answers_a + answers_b)) by {
        assert forall|k: int| 0 <= k < (list_a + list_b).len() implies says(
            (list_a + list_b)[k],
            #[trigger] (answers_a + answers_b)[k],
        ) by {
            if k < list_a.len() {
                assert(says(list_a[k], answers_a[k]));
            } else {
                assert(says(list_b[k - list_a.len()], answers_b[k - list_a.len()]));
            }
        }
    }
    lemma_answers_alike(says, list_a + list_b, answers, answers_a + answers_b);
    lemma_pass_calls_join(list_a, answers_a, list_b, answers_b);
    let calls_a = pass_calls(list_a, answers_a);
    let calls_b = pass_calls(list_b, answers_b);
    Seq::filter_distributes_over_add(calls_a, calls_b, is_kill);
    assert(killed_pids(calls_a + calls_b) =~= killed_pids(calls_a) + killed_pids(calls_b));
}

/// With a clock that stands still, a record comes to one end only.
proof fn lemma_cleared_alike<N: Fn() -> String>(
    before: RecordView,
    x: RecordView,
    y: RecordView,
    entries: Seq<RuntimeEntry>,
    now: N,
)
    requires
        still(now),
        cleared(before, x, entries, now),
        cleared(before, y, entries, now),
    ensures
        x == y,
{
}

/// A probe that answers alike gives one list of answers only.
proof fn lemma_answers_alike(
    says: spec_fn(u32, bool) -> bool,
    pids: Seq<u32>,
    x: Seq<bool>,
    y: Seq<bool>,
)
    requires
        decided(says),
        answered(says, pids, x),
        answered(says, pids, y),
    ensures
        x == y,
{
    assert forall|k: int| 0 <= k < pids.len() implies #[trigger] x[k] == y[k] by {
        assert(says(pids[k], x[k]) && says(pids[k], y[k]));
    }
    assert(x =~= y);
}

/// The calls on two lists of PIDs, one behind the other.
proof fn lemma_pass_calls_join(
    pids_a: Seq<u32>,
    answers_a: Seq<bool>,
    pids_b: Seq<u32>,
    answers_b: Seq<bool>,
)
    requires
        answers_a.len() == pids_a.len(),
        answers_b.len() == pids_b.len(),
    ensures
        pass_calls(pids_a + pids_b, answers_a + answers_b) == pass_calls(pids_a, answers_a)
            + pass_calls(pids_b, answers_b),
    decreases pids_b.len(),
{
    if pids_b.len() == 0 {
        assert(pids_a + pids_b =~= pids_a);
        assert(answers_a + answers_b =~= answers_a);
    } else {
        let pids = pids_a + pids_b.drop_last();
        let answers = answers_a + answers_b.drop_last();
        lemma_pass_calls_join(pids_a, answers_a, pids_b.drop_last(), answers_b.drop_last());
        lemma_pass_calls_grow(pids, answers, pids_b.last(), answers_b.last());
        assert(pids.push(pids_b.last()) =~= pids_a + pids_b);
        assert(answers.push(answers_b.last()) =~= answers_a + answers_b);
    }
    assert(pass_calls(pids_a + pids_b, answers_a + answers_b) =~= pass_calls(pids_a, answers_a)
        + pass_calls(pids_b, answers_b));
}

/// The form of the kill pass that takes an instance leaves the records and makes
/// the calls, in number and order, of the form that takes that instance's probe: so
/// it is where the answers and the clock do not shift between the passes.
pub proof fn law_instance_form_agrees<
    'a,
    M: Fn(u32) -> bool,
    P: Fn(u32, &'a str) -> bool,
    N: Fn() -> String,
>(
    has_marker: M,
    probe: P,
    instance_id: &'a str,
    before: Seq<RecordView>,
    after: Seq<RecordView>,
    after_instance: Seq<RecordView>,
    entries: Seq<RuntimeEntry>,
    now: N,
    answers: Seq<bool>,
    answers_instance: Seq<bool>,
)
    requires
        still(now),
        decided(says_of(probe, instance_id)),
        forall|pid: u32, b: bool| #[trigger]
            call_ensures(has_marker, (pid,), b) ==> call_ensures(probe, (pid, instance_id), b),
        after.len() == before.len(),
        after_instance.len() == before.len(),
        forall|i: int|
            0 <= i < before.len() ==> cleared(#[trigger] before[i], after[i], entries, now),
        forall|i: int|
            0 <= i < before.len() ==> cleared(
                #[trigger] before[i],
                after_instance[i],
                entries,
                now,
            ),
        answered(says(has_marker), stale_list(before, entries), answers),
        answered(says_of(probe, instance_id), stale_list(before, entries), answers_instance),
    ensures
        after_instance == after,
        pass_calls(stale_list(before, entries), answers_instance) == pass_calls(
            stale_list(before, entries),
            answers,
        ),
{
    let list = stale_list(before, entries);
    assert forall|i: int| 0 <= i < before.len() implies #[trigger] after_instance[i]
        == after[i] by {
        lemma_cleared_alike(before[i], after_instance[i], after[i], entries, now);
    }
    assert(after_instance =~= after);
    assert forall|k: int| 0 <= k < list.len() implies says_of(probe, instance_id)(
        list[k],
        #[trigger] answers[k],
    ) by {
        assert(says(has_marker)(list[k], answers[k]));
    }
    lemma_answers_alike(says_of(probe, instance_id), list, answers_instance, answers);
}

/// A kill pass keeps a record's agent, its backend and what is known of its last exit.
pub proof fn law_kill_keeps_identity<N: Fn() -> String>(
    before: RecordView,
    after: RecordView,
    entries: Seq<RuntimeEntry>,
    now: N,
)
    requires
        cleared(before, after, entries, now),
    ensures
        after.pubkey == before.pubkey,
        after.backend == before.backend,
        after.last_exit_code == before.last_exit_code,
        after.last_error == before.last_error,
        after.last_error_code == before.last_error_code,
{
}

/// A sync keeps every record in its place, with its agent and its backend, and
/// leaves no legacy PID, so that no record is stale against any runtime map.
pub proof fn law_sync_leaves_nothing_stale(
    records: Seq<RecordView>,
    entries: Seq<RuntimeEntry>,
    settled_at: Seq<Reading>,
    retired_at: Seq<Seq<char>>,
    i: int,
    others: Seq<RuntimeEntry>,
)
    requires
        0 <= i < records.len(),
    ensures
        ({
            let after = retire_all(
                settle_all(records, entries, settled_at, entries.len()),
                retired_at,
            );
            &&& after.len() == records.len()
            &&& after[i].pubkey == records[i].pubkey
            &&& after[i].backend == records[i].backend
            &&& after[i].runtime_pid is None
            &&& stale(after[i], others) is None
        }),
{
    lemma_settle_all_keeps(records, entries, settled_at, entries.len());
}

/// A sync of what a sync left behind changes nothing, while the roots left in
/// the map stay alive.
pub proof fn law_sync_is_final(
    records: Seq<RecordView>,
    entries: Seq<RuntimeEntry>,
    settled_at: Seq<Reading>,
    retired_at: Seq<Seq<char>>,
    settled_again_at: Seq<Reading>,
    retired_again_at: Seq<Seq<char>>,
)
    ensures
        ({
            let after = retire_all(
                settle_all(records, entries, settled_at, entries.len()),
                retired_at,
            );
            let left = remaining(entries);
            &&& !sync_changes(after, left)
            &&& exited_pubkeys(left) == Seq::<Seq<char>>::empty()
            &&& remaining(left) == left
            &&& retire_all(
                settle_all(after, left, settled_again_at, left.len()),
                retired_again_at,
            ) == after
        }),
{
    let stays = |e: RuntimeEntry| !settled(e);
    let gone = |e: RuntimeEntry| settled(e);
    let after = retire_all(settle_all(records, entries, settled_at, entries.len()), retired_at);
    let left = remaining(entries);
    lemma_filter_twice(entries, stays);
    assert forall|j: int| 0 <= j < left.len() implies !settled(#[trigger] left[j]) by {}
    assert(exited_pubkeys(left).len() == 0) by {
        if left.filter(gone).len() > 0 {
            let e = left.filter(gone)[0];
            left.lemma_filter_contains_rev(gone, e);
        }
    }
    lemma_live_settles_nothing(after, left, settled_again_at, left.len());
}

/// Live roots leave the records alone.
pub proof fn lemma_live_settles_nothing(
    records: Seq<RecordView>,
    entries: Seq<RuntimeEntry>,
    at: Seq<Reading>,
    n: nat,
)
    requires
        n <= entries.len(),
        forall|j: int| 0 <= j < n ==> !settled(#[trigger] entries[j]),
    ensures
        settle_all(records, entries, at, n) == records,
    decreases n,
{
    if n > 0 {
        lemma_live_settles_nothing(records, entries, at, (n - 1) as nat);
    }
}

/// A record that no settled runtime concerns loses its legacy PID, if it has
/// one, and is otherwise as it was: a runtime concerns the first record of its
/// agent.
pub proof fn law_sync_spares_others(
    records: Seq<RecordView>,
    entries: Seq<RuntimeEntry>,
    settled_at: Seq<Reading>,
    retired_at: Seq<Seq<char>>,
    i: int,
)
    requires
        0 <= i < records.len(),
        forall|j: int|
            0 <= j < entries.len() && settled(#[trigger] entries[j]) ==> !first_of(
                records,
                entries[j].0.pubkey@,
                i,
            ),
    ensures
        retire_all(
            settle_all(records, entries, settled_at, entries.len()),
            retired_at,
        )[i] == retired(records[i], retired_at[i]),
        records[i].runtime_pid is None ==> retired(records[i], retired_at[i]) == records[i],
{
    lemma_settle_all_keeps(records, entries, settled_at, entries.len());
    lemma_unconcerned(records, entries, settled_at, 0, entries.len(), i);
}

/// Runtimes from `m` up to `n` that do not concern a record leave it as it is.
pub proof fn lemma_unconcerned(
    records: Seq<RecordView>,
    entries: Seq<RuntimeEntry>,
    at: Seq<Reading>,
    m: nat,
    n: nat,
    i: int,
)
    requires
        m <= n <= entries.len(),
        0 <= i < records.len(),
        forall|j: int|
            m <= j < n && settled(#[trigger] entries[j]) ==> !first_of(
                records,
                entries[j].0.pubkey@,
                i,
            ),
    ensures
        settle_all(records, entries, at, n)[i] == settle_all(records, entries, at, m)[i],
    decreases n,
{
    if n > m {
        let before = settle_all(records, entries, at, (n - 1) as nat);
        let entry = entries[n - 1];
        lemma_unconcerned(records, entries, at, m, (n - 1) as nat, i);
        lemma_settle_all_keeps(records, entries, at, (n - 1) as nat);
        if settled(entry) {
            lemma_first_carries(before, records, entry.0.pubkey@, i);
        }
    }
}

/// Being an agent's first record is a matter of the records' public keys.
pub proof fn lemma_first_carries(
    a: Seq<RecordView>,
    b: Seq<RecordView>,
    pubkey: Seq<char>,
    i: int,
)
    requires
        a.len() == b.len(),
        forall|k: int| 0 <= k < a.len() ==> (#[trigger] a[k]).pubkey == b[k].pubkey,
    ensures
        first_of(a, pubkey, i) == first_of(b, pubkey, i),
{
    if first_of(a, pubkey, i) {
        assert forall|k: int| 0 <= k < i implies (#[trigger] b[k]).pubkey != pubkey by {
            assert(a[k].pubkey == b[k].pubkey);
        }
    }
    if first_of(b, pubkey, i) {
        assert forall|k: int| 0 <= k < i implies (#[trigger] a[k]).pubkey != pubkey by {}
    }
}

/// The last runtime of an agent to be settled decides what its record says of
/// the error, and of the exit where it was seen; where it was not, the exit code and
/// the stop time are those of before. The record is dated by it too, or by the
/// dropping of a legacy PID, which comes later.
pub proof fn law_last_settlement_decides(
    records: Seq<RecordView>,
    entries: Seq<RuntimeEntry>,
    settled_at: Seq<Reading>,
    retired_at: Seq<Seq<char>>,
    i: int,
    j: int,
)
    requires
        0 <= j < entries.len(),
        settled(entries[j]),
        first_of(records, entries[j].0.pubkey@, i),
        forall|k: int|
            j < k < entries.len() && settled(#[trigger] entries[k]) ==> entries[k].0.pubkey@
                != entries[j].0.pubkey@,
    ensures
        ({
            let after = retire_all(
                settle_all(records, entries, settled_at, entries.len()),
                retired_at,
            )[i];
            &&& after.updated_at == if records[i].runtime_pid is Some {
                retired_at[i]
            } else {
                settled_at[j].updated_at
            }
            &&& match settlement(entries[j].1) {
                Settlement::Live => false,
                Settlement::Exited(status) => {
                    &&& after.last_exit_code == status.code
                    &&& after.last_stopped_at == Some(settled_at[j].stopped_at)
                    &&& after.last_error == exit_error(status, entries[j].1.log_error)
                    &&& after.last_error_code == exit_error_code(status, entries[j].1.log_error)
                },
                Settlement::Lost(error) => {
                    &&& after.last_error == Some("failed to inspect process state: "@ + error@)
                    &&& after.last_error_code is None
                    &&& after.last_exit_code == settle_all(
                        records,
                        entries,
                        settled_at,
                        j as nat,
                    )[i].last_exit_code
                    &&& after.last_stopped_at == settle_all(
                        records,
                        entries,
                        settled_at,
                        j as nat,
                    )[i].last_stopped_at
                },
            }
        }),
{
    let n = (j + 1) as nat;
    let before = settle_all(records, entries, settled_at, j as nat);
    lemma_settle_all_keeps(records, entries, settled_at, j as nat);
    lemma_settle_all_keeps(records, entries, settled_at, entries.len());
    assert(settle_all(records, entries, settled_at, n)[i] == after_settlement(
        before[i],
        entries[j].1,
        settled_at[j],
    ));
    lemma_unconcerned(records, entries, settled_at, n, entries.len(), i);
}

/// A map that was swept, as a later pass finds it: every root probed anew, and
/// every log read as far as that pass wants it.
pub open spec fn after_sweep(
    entries: Seq<RuntimeEntry>,
    states: Seq<ChildState>,
    logs: Seq<Option<AgentLogError>>,
) -> Seq<RuntimeEntry> {
    Seq::new(
        entries.len(),
        |k: int|
            (entries[k].0, relogged(reprobed(swept(entries[k].1), states[k]), logs[k])),
    )
}

/// A root that died is reaped by the background sweep, and the sync that comes
/// later, whether its probe of that root fails or repeats the exit, writes the
/// real exit status into the agent's record, not an error of the probe.
///
/// `states` and `logs` are what the later pass finds of all runtimes.
pub proof fn law_background_reap_reaches_record(
    records: Seq<RecordView>,
    entries: Seq<RuntimeEntry>,
    states: Seq<ChildState>,
    logs: Seq<Option<AgentLogError>>,
    settled_at: Seq<Reading>,
    retired_at: Seq<Seq<char>>,
    i: int,
    j: int,
    status: ExitStatus,
)
    requires
        0 <= j < entries.len(),
        entries[j].1.child.state == ChildState::Exited(status),
        entries[j].1.reaped_exit_status is None,
        states[j] is Unavailable || states[j] == ChildState::Exited(status),
        first_of(records, entries[j].0.pubkey@, i),
        forall|k: int|
            j < k < entries.len() && settled(#[trigger] after_sweep(entries, states, logs)[k])
                ==> entries[k].0.pubkey@ != entries[j].0.pubkey@,
    ensures
        ({
            let later = after_sweep(entries, states, logs);
            let after = retire_all(
                settle_all(records, later, settled_at, later.len()),
                retired_at,
            )[i];
            &&& after.last_exit_code == status.code
            &&& after.last_stopped_at == Some(settled_at[j].stopped_at)
            &&& after.last_error == exit_error(status, logs[j])
            &&& after.last_error_code == exit_error_code(status, logs[j])
            &&& status.is_success() ==> after.last_error is None
        }),
{
    let later = after_sweep(entries, states, logs);
    law_last_settlement_decides(records, later, settled_at, retired_at, i, j);
}

/// Every runtime is either kept or reported, and an agent is reported exactly
/// when one of its runtimes was settled.
pub proof fn law_sync_reports_what_it_removes(entries: Seq<RuntimeEntry>, pubkey: Seq<char>)
    ensures
        exited_pubkeys(entries).len() + remaining(entries).len() == entries.len(),
        exited_pubkeys(entries).contains(pubkey) <==> exists|j: int|
            0 <= j < entries.len() && settled(#[trigger] entries[j]) && entries[j].0.pubkey@
                == pubkey,
{
    let gone = |e: RuntimeEntry| settled(e);
    let out = entries.filter(gone);
    lemma_split(entries);
    if exited_pubkeys(entries).contains(pubkey) {
        let k = choose|k: int|
            0 <= k < exited_pubkeys(entries).len() && exited_pubkeys(entries)[k] == pubkey;
        entries.lemma_filter_contains_rev(gone, out[k]);
        let j = choose|j: int| 0 <= j < entries.len() && entries[j] == out[k];
        assert(settled(entries[j]) && entries[j].0.pubkey@ == pubkey);
    }
    if exists|j: int|
        0 <= j < entries.len() && settled(#[trigger] entries[j]) && entries[j].0.pubkey@
            == pubkey {
        let j = choose|j: int|
            0 <= j < entries.len() && settled(#[trigger] entries[j]) && entries[j].0.pubkey@
                == pubkey;
        assert(out.contains(entries[j]));
        let k = choose|k: int| 0 <= k < out.len() && out[k] == entries[j];
        assert(exited_pubkeys(entries)[k] == pubkey);
    }
}

/// Every entry is either kept or reported.
proof fn lemma_split(entries: Seq<RuntimeEntry>)
    ensures
        exited_pubkeys(entries).len() + remaining(entries).len() == entries.len(),
    decreases entries.len(),
{
    reveal(Seq::filter);
    if entries.len() > 0 {
        lemma_split(entries.drop_last());
    }
}

/// In a map with distinct keys, the key of a settled runtime is gone after a
/// sync, and that of a live one is still there.
pub proof fn law_sync_removes_by_key(entries: Seq<RuntimeEntry>, j: int)
    requires
        distinct_keys(entries),
        0 <= j < entries.len(),
    ensures
        has_key(remaining(entries), entries[j].0) == !settled(entries[j]),
{
    let stays = |e: RuntimeEntry| !settled(e);
    let left = remaining(entries);
    if !settled(entries[j]) {
        assert(left.contains(entries[j]));
        let k = choose|k: int| 0 <= k < left.len() && left[k] == entries[j];
        assert(same_key(left[k].0, entries[j].0));
    }
    if has_key(left, entries[j].0) {
        let k = choose|k: int| 0 <= k < left.len() && same_key(#[trigger] left[k].0, entries[j].0);
        entries.lemma_filter_contains_rev(stays, left[k]);
        let m = choose|m: int| 0 <= m < entries.len() && entries[m] == left[k];
        assert(m == j);
    }
}

/// A log that a sync does not want need not be read: whatever it holds, the
/// records come out the same.
pub proof fn law_unwanted_log_is_irrelevant(
    records: Seq<RecordView>,
    entries: Seq<RuntimeEntry>,
    at: Seq<Reading>,
    j: int,
    log_error: Option<AgentLogError>,
)
    requires
        0 <= j < entries.len(),
        !log_wanted(records, entries[j]),
    ensures
        ({
            let other = entries.update(j, (entries[j].0, relogged(entries[j].1, log_error)));
            settle_all(records, other, at, entries.len()) == settle_all(
                records,
                entries,
                at,
                entries.len(),
            )
        }),
{
    lemma_unwanted_log(records, entries, at, j, log_error, entries.len());
}

/// A log that is not wanted bears on no step of the sync.
proof fn lemma_unwanted_log(
    records: Seq<RecordView>,
    entries: Seq<RuntimeEntry>,
    at: Seq<Reading>,
    j: int,
    log_error: Option<AgentLogError>,
    n: nat,
)
    requires
        0 <= j < entries.len(),
        n <= entries.len(),
        !log_wanted(records, entries[j]),
    ensures
        settle_all(
            records,
            entries.update(j, (entries[j].0, relogged(entries[j].1, log_error))),
            at,
            n,
        ) == settle_all(records, entries, at, n),
    decreases n,
{
    let other = entries.update(j, (entries[j].0, relogged(entries[j].1, log_error)));
    if n > 0 {
        lemma_unwanted_log(records, entries, at, j, log_error, (n - 1) as nat);
        if n - 1 == j {
            let before = settle_all(records, entries, at, (n - 1) as nat);
            lemma_settle_all_keeps(records, entries, at, (n - 1) as nat);
            assert forall|i: int| 0 <= i < before.len() implies settle_one(
                before,
                other[j],
                at[j],
            )[i] == settle_one(before, entries[j], at[j])[i] by {
                assert(first_of(before, entries[j].0.pubkey@, i) ==> on_record(
                    records,
                    entries[j].0.pubkey@,
                ));
            }
        }
    }
}

} // verus!
