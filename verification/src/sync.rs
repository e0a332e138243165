//! Syncing exited roots into the agent records.
use vstd::prelude::*;
use crate::runtimes::{ManagedAgentRuntimes, RuntimeEntry};
use crate::runtimes::{distinct_keys, lemma_filter_grows};
use crate::types::{AgentLogError, ChildState, ExitStatus, ManagedAgentPairRuntime};
use crate::types::{ManagedAgentRecord, ManagedAgentRuntimeKey, RecordView};
use crate::types::{contents, reading, same_key, texts};

verus! {

/// What a sync makes of a runtime.
#[derive(Debug)]
pub enum Settlement {
    /// The root runs; nothing is due.
    Live,
    /// The root ended with this status.
    Exited(ExitStatus),
    /// The root is gone and nobody saw it end. Holds the probe's error.
    Lost(String),
}

/// The probe decides; where it failed because a background sweep had reaped the
/// root before, the status cached then is authoritative.
pub open spec fn settlement(runtime: ManagedAgentPairRuntime) -> Settlement {
    match runtime.child.state {
        ChildState::Live => Settlement::Live,
        ChildState::Exited(status) => Settlement::Exited(status),
        ChildState::Unavailable(error) => match runtime.reaped_exit_status {
            Some(status) => Settlement::Exited(status),
            None => Settlement::Lost(error),
        },
    }
}

/// Whether a sync takes an entry out of the map.
pub open spec fn settled(entry: RuntimeEntry) -> bool {
    settlement(entry.1) !is Live
}

/// The clock readings at hand when a runtime is settled.
pub struct Reading {
    pub updated_at: Seq<char>,
    pub stopped_at: Seq<char>,
}

/// The error that an exit leaves in a record: none after a success, else the
/// one that the log reports, else the status in words.
pub open spec fn exit_error(status: ExitStatus, log_error: Option<AgentLogError>) -> Option<
    Seq<char>,
> {
    if status.is_success() {
        None
    } else {
        match log_error {
            Some(e) => Some(e.message@),
            None => Some("harness exited with status "@ + status.description@),
        }
    }
}

/// The error code that an exit leaves in a record: that of the log's error.
pub open spec fn exit_error_code(status: ExitStatus, log_error: Option<AgentLogError>) -> Option<
    i64,
> {
    if status.is_success() {
        None
    } else {
        match log_error {
            Some(e) => e.code,
            None => None,
        }
    }
}

/// A record after its root ended.
pub open spec fn after_exit(
    record: RecordView,
    status: ExitStatus,
    log_error: Option<AgentLogError>,
    at: Reading,
) -> RecordView {
    RecordView {
        updated_at: at.updated_at,
        last_stopped_at: Some(at.stopped_at),
        last_exit_code: status.code,
        last_error: exit_error(status, log_error),
        last_error_code: exit_error_code(status, log_error),
        ..record
    }
}

/// A record after its root was lost.
pub open spec fn after_loss(
    record: RecordView,
    error: Seq<char>,
    updated_at: Seq<char>,
) -> RecordView {
    RecordView {
        updated_at,
        last_error: Some("failed to inspect process state: "@ + error),
        last_error_code: None,
        ..record
    }
}

/// A record after a runtime of its agent was settled.
pub open spec fn after_settlement(
    record: RecordView,
    runtime: ManagedAgentPairRuntime,
    at: Reading,
) -> RecordView {
    match settlement(runtime) {
        Settlement::Live => record,
        Settlement::Exited(status) => after_exit(record, status, runtime.log_error, at),
        Settlement::Lost(error) => after_loss(record, error@, at.updated_at),
    }
}

/// Whether the record at `i` is the first one of an agent.
pub open spec fn first_of(records: Seq<RecordView>, pubkey: Seq<char>, i: int) -> bool {
    &&& 0 <= i < records.len()
    &&& records[i].pubkey == pubkey
    &&& forall|k: int| 0 <= k < i ==> (#[trigger] records[k]).pubkey != pubkey
}

/// The records after one runtime was settled: the first record of its agent
/// takes the outcome.
pub open spec fn settle_one(
    records: Seq<RecordView>,
    entry: RuntimeEntry,
    at: Reading,
) -> Seq<RecordView> {
    Seq::new(
        records.len(),
        |i: int|
            if first_of(records, entry.0.pubkey@, i) {
                after_settlement(records[i], entry.1, at)
            } else {
                records[i]
            },
    )
}

/// The records after the first `n` runtimes were settled, in the order of the walk.
pub open spec fn settle_all(
    records: Seq<RecordView>,
    entries: Seq<RuntimeEntry>,
    at: Seq<Reading>,
    n: nat,
) -> Seq<RecordView>
    decreases n,
{
    if n == 0 {
        records
    } else {
        settle_one(
            settle_all(records, entries, at, (n - 1) as nat),
            entries[n - 1],
            at[n - 1],
        )
    }
}

/// A record after its legacy PID was dropped.
pub open spec fn retired(record: RecordView, updated_at: Seq<char>) -> RecordView {
    if record.runtime_pid is Some {
        RecordView { runtime_pid: None, updated_at, ..record }
    } else {
        record
    }
}

/// The records after all legacy PIDs were dropped.
pub open spec fn retire_all(records: Seq<RecordView>, at: Seq<Seq<char>>) -> Seq<RecordView> {
    Seq::new(records.len(), |i: int| retired(records[i], at[i]))
}

/// The public keys of the settled runtimes, in the order of the walk.
pub open spec fn exited_pubkeys(entries: Seq<RuntimeEntry>) -> Seq<Seq<char>> {
    entries.filter(|e: RuntimeEntry| settled(e)).map_values(|e: RuntimeEntry| e.0.pubkey@)
}

/// What is left of the map after a sync.
pub open spec fn remaining(entries: Seq<RuntimeEntry>) -> Seq<RuntimeEntry> {
    entries.filter(|e: RuntimeEntry| !settled(e))
}

/// Whether a sync modifies anything.
pub open spec fn sync_changes(records: Seq<RecordView>, entries: Seq<RuntimeEntry>) -> bool {
    ||| exists|j: int| 0 <= j < entries.len() && settled(#[trigger] entries[j])
    ||| exists|i: int| 0 <= i < records.len() && (#[trigger] records[i]).runtime_pid is Some
}

/// Whether an agent has a record.
pub open spec fn on_record(records: Seq<RecordView>, pubkey: Seq<char>) -> bool {
    exists|i: int| 0 <= i < records.len() && (#[trigger] records[i]).pubkey == pubkey
}

/// Whether what a sync writes for an entry comes from the clock.
pub open spec fn settled_by_clock<N: Fn() -> String>(
    now: N,
    records: Seq<RecordView>,
    entry: RuntimeEntry,
    at: Reading,
) -> bool {
    settled(entry) && on_record(records, entry.0.pubkey@) ==> {
        &&& reading(now, at.updated_at)
        &&& settlement(entry.1) is Exited ==> reading(now, at.stopped_at)
    }
}

/// Whether every reading that a sync uses comes from the clock.
pub open spec fn readings_of<N: Fn() -> String>(
    now: N,
    records: Seq<RecordView>,
    entries: Seq<RuntimeEntry>,
    settled_at: Seq<Reading>,
    retired_at: Seq<Seq<char>>,
) -> bool {
    &&& settled_at.len() == entries.len()
    &&& retired_at.len() == records.len()
    &&& forall|j: int|
        0 <= j < entries.len() ==> settled_by_clock(
            now,
            records,
            #[trigger] entries[j],
            settled_at[j],
        )
    &&& forall|i: int|
        0 <= i < records.len() && (#[trigger] records[i]).runtime_pid is Some ==> reading(
            now,
            retired_at[i],
        )
}

/// Whether records are what a sync makes of others, at some readings of the clock.
pub open spec fn synced<N: Fn() -> String>(
    before: Seq<RecordView>,
    after: Seq<RecordView>,
    entries: Seq<RuntimeEntry>,
    now: N,
) -> bool {
    exists|settled_at: Seq<Reading>, retired_at: Seq<Seq<char>>|
        #[trigger] readings_of(now, before, entries, settled_at, retired_at) && after == retire_all(
            settle_all(before, entries, settled_at, entries.len()),
            retired_at,
        )
}

/// What a sync makes of a runtime.
pub fn settle(runtime: &ManagedAgentPairRuntime) -> (outcome: Settlement)
    ensures
        outcome == settlement(*runtime),
        match runtime.child.state {
            ChildState::Live => outcome is Live,
            ChildState::Exited(status) => outcome == Settlement::Exited(status),
            ChildState::Unavailable(error) => match runtime.reaped_exit_status {
                Some(status) => outcome == Settlement::Exited(status),
                None => outcome == Settlement::Lost(error),
            },
        },
{
    match &runtime.child.state {
        ChildState::Live => Settlement::Live,
        ChildState::Exited(status) => Settlement::Exited(status.clone()),
        ChildState::Unavailable(error) => match &runtime.reaped_exit_status {
            Some(status) => Settlement::Exited(status.clone()),
            None => Settlement::Lost(error.clone()),
        },
    }
}

/// Notes in a record that its root ended.
pub fn record_exit(
    record: &mut ManagedAgentRecord,
    status: &ExitStatus,
    log_error: &Option<AgentLogError>,
    updated_at: String,
    stopped_at: String,
)
    ensures
        final(record)@ == after_exit(
            old(record)@,
            *status,
            *log_error,
            (Reading { updated_at: updated_at@, stopped_at: stopped_at@ }),
        ),
        final(record).pubkey == old(record).pubkey,
        final(record).backend == old(record).backend,
        final(record).runtime_pid == old(record).runtime_pid,
        final(record).updated_at == updated_at,
        final(record).last_stopped_at == Some(stopped_at),
        final(record).last_exit_code == status.code,
        status.code == Some(0i32) ==> final(record).last_error is None,
        status.code == Some(0i32) ==> final(record).last_error_code is None,
        status.code != Some(0i32) ==> final(record).last_error is Some,
        status.code != Some(0i32) ==> match *log_error {
            Some(e) => {
                &&& final(record).last_error->0@ == e.message@
                &&& final(record).last_error_code == e.code
            },
            None => {
                &&& final(record).last_error->0@ == "harness exited with status "@
                    + status.description@
                &&& final(record).last_error_code is None
            },
        },
{
    record.updated_at = updated_at;
    record.last_stopped_at = Some(stopped_at);
    record.last_exit_code = status.code;
    if status.success() {
        record.last_error = None;
        record.last_error_code = None;
    } else {
        match log_error {
            Some(e) => {
                record.last_error = Some(e.message.clone());
                record.last_error_code = e.code;
            },
            None => {
                record.last_error = Some(
                    "harness exited with status ".to_owned().concat(status.description.as_str()),
                );
                record.last_error_code = None;
            },
        }
    }
}

/// Notes in a record that its root was lost.
pub fn record_loss(record: &mut ManagedAgentRecord, error: &str, updated_at: String)
    ensures
        final(record)@ == after_loss(old(record)@, error@, updated_at@),
        final(record).pubkey == old(record).pubkey,
        final(record).backend == old(record).backend,
        final(record).runtime_pid == old(record).runtime_pid,
        final(record).updated_at == updated_at,
        final(record).last_stopped_at == old(record).last_stopped_at,
        final(record).last_exit_code == old(record).last_exit_code,
        final(record).last_error is Some,
        final(record).last_error->0@ == "failed to inspect process state: "@ + error@,
        final(record).last_error_code is None,
{
    record.updated_at = updated_at;
    record.last_error = Some("failed to inspect process state: ".to_owned().concat(error));
    record.last_error_code = None;
}

/// The first record of an agent.
fn find_record(records: &[ManagedAgentRecord], pubkey: &String) -> (at: Option<usize>)
    ensures
        match at {
            Some(i) => first_of(contents(records@), pubkey@, i as int),
            None => !on_record(contents(records@), pubkey@),
        },
{
    let mut i: usize = 0;
    while i < records.len()
        invariant
            i <= records@.len(),
            forall|k: int|
                0 <= k < i ==> (#[trigger] contents(records@)[k]).pubkey != pubkey@,
        decreases records@.len() - i,
    {
        if records[i].pubkey == *pubkey {
            return Some(i);
        }
        i += 1;
    }
    None
}

/// Whether the log of a runtime is read: after a root ended badly whose agent
/// has a record to take the error.
pub open spec fn log_wanted(records: Seq<RecordView>, entry: RuntimeEntry) -> bool {
    &&& settlement(entry.1) matches Settlement::Exited(status) && !status.is_success()
    &&& on_record(records, entry.0.pubkey@)
}

/// Whether a sync of these records needs the `log_error` of a runtime.
pub fn wants_log(
    records: &[ManagedAgentRecord],
    key: &ManagedAgentRuntimeKey,
    runtime: &ManagedAgentPairRuntime,
) -> (b: bool)
    ensures
        b == log_wanted(contents(records@), (*key, *runtime)),
{
    match settle(runtime) {
        Settlement::Exited(status) => !status.success() && find_record(
            records,
            &key.pubkey,
        ).is_some(),
        _ => false,
    }
}

/// Settles every runtime of the map in the records. Returns the public keys of
/// those that are to be taken out.
fn settle_runtimes(
    records: &mut [ManagedAgentRecord],
    runtimes: &ManagedAgentRuntimes,
    now: &impl Fn() -> String,
) -> (outcome: (Vec<String>, Ghost<Seq<Reading>>))
    requires
        call_requires(now, ()),
    ensures
        texts(outcome.0@) == exited_pubkeys(runtimes@),
        outcome.1@.len() == runtimes@.len(),
        contents(final(records)@) == settle_all(
            contents(old(records)@),
            runtimes@,
            outcome.1@,
            runtimes@.len(),
        ),
        forall|j: int|
            0 <= j < runtimes@.len() ==> settled_by_clock(
                *now,
                contents(old(records)@),
                #[trigger] runtimes@[j],
                outcome.1@[j],
            ),
{
    let ghost before = contents(records@);
    let ghost entries = runtimes@;
    let ghost gone = |e: RuntimeEntry| settled(e);
    let ghost mut at: Seq<Reading> = Seq::empty();
    let mut exited: Vec<String> = Vec::new();
    let mut j: usize = 0;
    while j < runtimes.len()
        invariant
            j <= entries.len(),
            entries == runtimes@,
            call_requires(now, ()),
            gone == (|e: RuntimeEntry| settled(e)),
            at.len() == j,
            contents(records@) == settle_all(before, entries, at, j as nat),
            texts(exited@) == exited_pubkeys(entries.take(j as int)),
            forall|k: int|
                0 <= k < j ==> settled_by_clock(*now, before, #[trigger] entries[k], at[k]),
        decreases entries.len() - j,
    {
        let ghost entry = entries[j as int];
        let ghost current = contents(records@);
        let ghost exited_before = texts(exited@);
        let ghost mut reading_here = Reading { updated_at: Seq::empty(), stopped_at: Seq::empty() };
        proof {
            lemma_settle_all_keeps(before, entries, at, j as nat);
            lemma_same_agents(before, current, entry.0.pubkey@);
        }
        let (key, runtime) = runtimes.entry(j);
        match settle(runtime) {
            Settlement::Live => {},
            Settlement::Lost(error) => {
                if let Some(i) = find_record(records, &key.pubkey) {
                    let updated_at = now();
                    proof {
                        reading_here = Reading { updated_at: updated_at@, stopped_at: Seq::empty() };
                    }
                    record_loss(&mut records[i], error.as_str(), updated_at);
                }
                exited.push(key.pubkey.clone());
            },
            Settlement::Exited(status) => {
                if let Some(i) = find_record(records, &key.pubkey) {
                    let updated_at = now();
                    let stopped_at = now();
                    proof {
                        reading_here = Reading { updated_at: updated_at@, stopped_at: stopped_at@ };
                    }
                    record_exit(
                        &mut records[i],
                        &status,
                        &runtime.log_error,
                        updated_at,
                        stopped_at,
                    );
                }
                exited.push(key.pubkey.clone());
            },
        }
        proof {
            let grown = at.push(reading_here);
            lemma_settle_all_prefix(before, entries, at, grown, j as nat);
            assert(entries.take(j + 1) =~= entries.take(j as int).push(entry));
            lemma_filter_grows(entries.take(j as int), entry, gone);
            assert(texts(exited@) =~= if settled(entry) {
                exited_before.push(entry.0.pubkey@)
            } else {
                exited_before
            });
            assert forall|k: int| 0 <= k < j + 1 implies settled_by_clock(
                *now,
                before,
                #[trigger] entries[k],
                grown[k],
            ) by {}
            at = grown;
        }
        j += 1;
    }
    proof {
        assert(entries.take(j as int) =~= entries);
    }
    (exited, Ghost(at))
}

/// Drops every legacy PID from the records. Returns whether there was one.
fn retire_pids(records: &mut [ManagedAgentRecord], now: &impl Fn() -> String) -> (outcome: (
    bool,
    Ghost<Seq<Seq<char>>>,
))
    requires
        call_requires(now, ()),
    ensures
        outcome.0 == exists|i: int|
            0 <= i < old(records)@.len() && (#[trigger] contents(old(records)@)[i]).runtime_pid is Some,
        outcome.1@.len() == old(records)@.len(),
        contents(final(records)@) == retire_all(contents(old(records)@), outcome.1@),
        forall|i: int|
            0 <= i < old(records)@.len() && (#[trigger] contents(
                old(records)@,
            )[i]).runtime_pid is Some ==> reading(*now, outcome.1@[i]),
{
    let ghost before = contents(records@);
    let ghost mut at: Seq<Seq<char>> = Seq::empty();
    let mut changed = false;
    let mut i: usize = 0;
    while i < records.len()
        invariant
            i <= before.len(),
            before.len() == records@.len(),
            before == contents(old(records)@),
            call_requires(now, ()),
            at.len() == i,
            changed == exists|k: int| 0 <= k < i && (#[trigger] before[k]).runtime_pid is Some,
            forall|k: int|
                0 <= k < i ==> (#[trigger] records@[k])@ == retired(before[k], at[k]),
            forall|k: int| i <= k < before.len() ==> (#[trigger] records@[k])@ == before[k],
            forall|k: int|
                0 <= k < i && (#[trigger] before[k]).runtime_pid is Some ==> reading(*now, at[k]),
        decreases before.len() - i,
    {
        let ghost mut reading_here: Seq<char> = Seq::empty();
        if records[i].runtime_pid.is_some() {
            let updated_at = now();
            proof {
                reading_here = updated_at@;
            }
            records[i].runtime_pid = None;
            records[i].updated_at = updated_at;
            changed = true;
        }
        proof {
            at = at.push(reading_here);
        }
        i += 1;
    }
    (changed, Ghost(at))
}

/// Takes every settled runtime out of the map.
fn remove_settled(runtimes: &mut ManagedAgentRuntimes)
    ensures
        final(runtimes)@ == remaining(old(runtimes)@),
{
    let ghost entries = runtimes@;
    let ghost stays = |e: RuntimeEntry| !settled(e);
    let ghost mut seen: int = 0;
    let mut i: usize = 0;
    while i < runtimes.len()
        invariant
            0 <= seen <= entries.len(),
            stays == (|e: RuntimeEntry| !settled(e)),
            i == entries.take(seen).filter(stays).len(),
            runtimes@ == entries.take(seen).filter(stays) + entries.skip(seen),
        decreases entries.len() - seen,
    {
        let ghost entry = entries[seen];
        proof {
            assert(entries.take(seen + 1) =~= entries.take(seen).push(entry));
            lemma_filter_grows(entries.take(seen), entry, stays);
        }
        let live = match settle(&runtimes.entry(i).1) {
            Settlement::Live => true,
            _ => false,
        };
        if live {
            i += 1;
        } else {
            let _ = runtimes.remove_at(i);
        }
        proof {
            seen = seen + 1;
        }
    }
}

/// Syncs the roots that are gone into the records and takes them out of the map.
///
/// The first record of an agent takes what its runtime came to: the exit code
/// and, after a failure, the error of the log, or else the status in words; or
/// the probe's error where nobody saw the root end. Legacy PIDs are dropped from
/// all records. `now()` reads the clock. Returns whether anything was modified,
/// and the public keys of the runtimes taken out.
pub fn sync_managed_agent_processes(
    records: &mut [ManagedAgentRecord],
    runtimes: &mut ManagedAgentRuntimes,
    _instance_id: &str,
    now: impl Fn() -> String,
) -> (outcome: (bool, Vec<String>))
    requires
        call_requires(now, ()),
    ensures
        outcome.0 == sync_changes(contents(old(records)@), old(runtimes)@),
        texts(outcome.1@) == exited_pubkeys(old(runtimes)@),
        final(runtimes)@ == remaining(old(runtimes)@),
        old(runtimes).wf() ==> final(runtimes).wf(),
        synced(contents(old(records)@), contents(final(records)@), old(runtimes)@, now),
{
    let ghost before = contents(records@);
    let ghost entries = runtimes@;
    let (exited, Ghost(settled_at)) = settle_runtimes(records, runtimes, &now);
    let ghost middle = contents(records@);
    remove_settled(runtimes);
    let (had_pid, Ghost(retired_at)) = retire_pids(records, &now);
    proof {
        lemma_settle_all_keeps(before, entries, settled_at, entries.len());
        assert forall|i: int|
            0 <= i < before.len() && (#[trigger] before[i]).runtime_pid is Some implies reading(
            now,
            retired_at[i],
        ) by {
            assert(middle[i].runtime_pid == before[i].runtime_pid);
        }
        assert(readings_of(now, before, entries, settled_at, retired_at));
        lemma_exited_iff_settled(entries);
        lemma_remaining_distinct(entries);
        if exists|i: int| 0 <= i < before.len() && (#[trigger] before[i]).runtime_pid is Some {
            let i = choose|i: int|
                0 <= i < before.len() && (#[trigger] before[i]).runtime_pid is Some;
            assert(middle[i].runtime_pid is Some);
        }
    }
    (exited.len() > 0 || had_pid, exited)
}

/// Settling keeps every record in its place, with its agent, its backend and its
/// legacy PID.
pub proof fn lemma_settle_all_keeps(
    records: Seq<RecordView>,
    entries: Seq<RuntimeEntry>,
    at: Seq<Reading>,
    n: nat,
)
    ensures
        settle_all(records, entries, at, n).len() == records.len(),
        forall|i: int|
            0 <= i < records.len() ==> {
                let after = #[trigger] settle_all(records, entries, at, n)[i];
                &&& after.pubkey == records[i].pubkey
                &&& after.backend == records[i].backend
                &&& after.runtime_pid == records[i].runtime_pid
            },
    decreases n,
{
    if n > 0 {
        lemma_settle_all_keeps(records, entries, at, (n - 1) as nat);
    }
}

/// Only the first `n` readings bear on settling `n` runtimes.
proof fn lemma_settle_all_prefix(
    records: Seq<RecordView>,
    entries: Seq<RuntimeEntry>,
    a: Seq<Reading>,
    b: Seq<Reading>,
    n: nat,
)
    requires
        forall|k: int| 0 <= k < n ==> #[trigger] a[k] == b[k],
    ensures
        settle_all(records, entries, a, n) == settle_all(records, entries, b, n),
    decreases n,
{
    if n > 0 {
        lemma_settle_all_prefix(records, entries, a, b, (n - 1) as nat);
    }
}

/// Whether an agent has a record is a matter of the records' public keys.
proof fn lemma_same_agents(a: Seq<RecordView>, b: Seq<RecordView>, pubkey: Seq<char>)
    requires
        a.len() == b.len(),
        forall|i: int| 0 <= i < a.len() ==> (#[trigger] b[i]).pubkey == a[i].pubkey,
    ensures
        on_record(a, pubkey) == on_record(b, pubkey),
{
    if on_record(a, pubkey) {
        let i = choose|i: int| 0 <= i < a.len() && (#[trigger] a[i]).pubkey == pubkey;
        assert(b[i].pubkey == pubkey);
    }
}

/// A public key is reported exactly when some runtime is settled.
proof fn lemma_exited_iff_settled(entries: Seq<RuntimeEntry>)
    ensures
        exited_pubkeys(entries).len() > 0 <==> exists|j: int|
            0 <= j < entries.len() && settled(#[trigger] entries[j]),
{
    let gone = |e: RuntimeEntry| settled(e);
    if exited_pubkeys(entries).len() > 0 {
        let e = entries.filter(gone)[0];
        entries.lemma_filter_contains_rev(gone, e);
    }
    if exists|j: int| 0 <= j < entries.len() && settled(#[trigger] entries[j]) {
        let j = choose|j: int| 0 <= j < entries.len() && settled(#[trigger] entries[j]);
        assert(entries.filter(gone).contains(entries[j]));
    }
}

/// Taking entries out keeps the keys distinct.
proof fn lemma_remaining_distinct(entries: Seq<RuntimeEntry>)
    ensures
        distinct_keys(entries) ==> distinct_keys(remaining(entries)),
    decreases entries.len(),
{
    let stays = |e: RuntimeEntry| !settled(e);
    reveal(Seq::filter);
    if entries.len() > 0 {
        let shorter = entries.drop_last();
        lemma_remaining_distinct(shorter);
        if distinct_keys(entries) {
            let kept = shorter.filter(stays);
            assert forall|i: int| 0 <= i < kept.len() implies !same_key(
                #[trigger] kept[i].0,
                entries.last().0,
            ) by {
                shorter.lemma_filter_contains_rev(stays, kept[i]);
                let k = choose|k: int| 0 <= k < shorter.len() && shorter[k] == kept[i];
                assert(entries[k].0 == kept[i].0);
            }
        }
    }
}

} // verus!
