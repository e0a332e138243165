//! Probing and killing processes, with a log of every call.
use vstd::prelude::*;

verus! {

/// One call that was made on a process.
pub enum Call {
    /// The process was probed for the marker, and this was the answer.
    Probe(u32, bool),
    /// The process was killed.
    Kill(u32),
}

/// The calls that one PID comes to: a probe, and a kill directly after a yes.
pub open spec fn calls_for(pid: u32, marked: bool) -> Seq<Call> {
    if marked {
        seq![Call::Probe(pid, true), Call::Kill(pid)]
    } else {
        seq![Call::Probe(pid, false)]
    }
}

/// The calls that a list of PIDs comes to, one PID after the other.
pub open spec fn pass_calls(pids: Seq<u32>, answers: Seq<bool>) -> Seq<Call>
    decreases pids.len(),
{
    if pids.len() == 0 {
        Seq::empty()
    } else {
        pass_calls(pids.drop_last(), answers.drop_last()) + calls_for(pids.last(), answers.last())
    }
}

/// The PIDs that were probed, in the order of the calls.
pub open spec fn probed_pids(calls: Seq<Call>) -> Seq<u32> {
    calls.filter(|c: Call| c is Probe).map_values(|c: Call| c->Probe_0)
}

/// The PIDs that were killed, in the order of the calls.
pub open spec fn killed_pids(calls: Seq<Call>) -> Seq<u32> {
    calls.filter(|c: Call| c is Kill).map_values(|c: Call| c->Kill_0)
}

/// What a probe may answer.
pub open spec fn says<M: Fn(u32) -> bool>(has_marker: M) -> spec_fn(u32, bool) -> bool {
    |pid: u32, marked: bool| call_ensures(has_marker, (pid,), marked)
}

/// Whether a probe could give these answers to these PIDs.
pub open spec fn answered(
    says: spec_fn(u32, bool) -> bool,
    pids: Seq<u32>,
    answers: Seq<bool>,
) -> bool {
    &&& answers.len() == pids.len()
    &&& forall|k: int| 0 <= k < pids.len() ==> says(pids[k], #[trigger] answers[k])
}

/// Whether a call of `kill` on this process came back, with whatever outcome.
pub open spec fn killed<K: FnMut(u32) -> Result<(), String>>(kill: K, pid: u32) -> bool {
    exists|outcome: Result<(), String>| call_ensures(kill, (pid,), outcome)
}

/// Whether the PIDs were answered so, and those with a yes were killed.
pub open spec fn reclaimed<K: FnMut(u32) -> Result<(), String>>(
    says: spec_fn(u32, bool) -> bool,
    kill: K,
    pids: Seq<u32>,
    answers: Seq<bool>,
) -> bool {
    &&& answered(says, pids, answers)
    &&& forall|k: int| 0 <= k < pids.len() && #[trigger] answers[k] ==> killed(kill, pids[k])
}

/// Holds a marker probe and a kill, and the log of the calls made of them. Nothing
/// else can call them while it does.
pub struct Reclaimer<M, K> {
    has_marker: M,
    kill: K,
    calls: Ghost<Seq<Call>>,
}

impl<M: Fn(u32) -> bool, K: FnMut(u32) -> Result<(), String>> Reclaimer<M, K> {
    /// The marker probe.
    pub closed spec fn marker(&self) -> M {
        self.has_marker
    }

    /// The kill.
    pub closed spec fn killer(&self) -> K {
        self.kill
    }

    /// The calls made so far, in their order.
    pub closed spec fn log(&self) -> Seq<Call> {
        self.calls@
    }

    pub fn new(has_marker: M, kill: K) -> (by: Self)
        ensures
            by.marker() == has_marker,
            by.killer() == kill,
            by.log() == Seq::<Call>::empty(),
    {
        Reclaimer { has_marker, kill, calls: Ghost(Seq::empty()) }
    }

    /// Probes a process for the marker.
    pub fn probe(&mut self, pid: u32) -> (marked: bool)
        requires
            call_requires(old(self).marker(), (pid,)),
        ensures
            final(self).marker() == old(self).marker(),
            final(self).killer() == old(self).killer(),
            final(self).log() == old(self).log().push(Call::Probe(pid, marked)),
            says(old(self).marker())(pid, marked),
    {
        let marked = (self.has_marker)(pid);
        self.calls = Ghost(self.calls@.push(Call::Probe(pid, marked)));
        marked
    }

    /// Kills a process; how that goes is of no account.
    pub fn end(&mut self, pid: u32)
        requires
            call_requires(old(self).killer(), (pid,)),
        ensures
            final(self).marker() == old(self).marker(),
            final(self).killer() == old(self).killer(),
            final(self).log() == old(self).log().push(Call::Kill(pid)),
            killed(old(self).killer(), pid),
    {
        let _ = (self.kill)(pid);
        self.calls = Ghost(self.calls@.push(Call::Kill(pid)));
    }
}

/// One more PID adds its calls.
pub proof fn lemma_pass_calls_grow(pids: Seq<u32>, answers: Seq<bool>, pid: u32, marked: bool)
    ensures
        pass_calls(pids.push(pid), answers.push(marked)) == pass_calls(pids, answers) + calls_for(
            pid,
            marked,
        ),
{
    assert(pids.push(pid).drop_last() =~= pids);
    assert(answers.push(marked).drop_last() =~= answers);
}

} // verus!
