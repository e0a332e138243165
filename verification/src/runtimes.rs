//! The map of running agents.
use vstd::prelude::*;
use crate::types::{ExitStatus, ManagedAgentPairRuntime, ManagedAgentRuntimeKey};
use crate::types::same_key;

verus! {

/// One entry of the runtime map.
pub type RuntimeEntry = (ManagedAgentRuntimeKey, ManagedAgentPairRuntime);

/// The runtimes of this session by key, in the order in which they are walked.
#[derive(Debug)]
pub struct ManagedAgentRuntimes {
    entries: Vec<RuntimeEntry>,
}

impl View for ManagedAgentRuntimes {
    type V = Seq<RuntimeEntry>;

    closed spec fn view(&self) -> Seq<RuntimeEntry> {
        self.entries@
    }
}

/// No two entries share a key.
pub open spec fn distinct_keys(entries: Seq<RuntimeEntry>) -> bool {
    forall|i: int, j: int|
        0 <= i < j < entries.len() ==> !same_key(#[trigger] entries[i].0, #[trigger] entries[j].0)
}

/// Whether some entry has this key.
pub open spec fn has_key(entries: Seq<RuntimeEntry>, key: ManagedAgentRuntimeKey) -> bool {
    exists|i: int| 0 <= i < entries.len() && same_key(#[trigger] entries[i].0, key)
}

/// Filtering a sequence that grew by one item.
pub proof fn lemma_filter_grows<T>(items: Seq<T>, item: T, keep: spec_fn(T) -> bool)
    ensures
        items.push(item).filter(keep) == (if keep(item) {
            items.filter(keep).push(item)
        } else {
            items.filter(keep)
        }),
{
    reveal(Seq::filter);
    assert(items.push(item).drop_last() =~= items);
}

impl ManagedAgentRuntimes {
    /// A map holds at most one runtime per key.
    pub open spec fn wf(&self) -> bool {
        distinct_keys(self@)
    }

    pub fn new() -> (map: Self)
        ensures
            map.wf(),
            map@ == Seq::<RuntimeEntry>::empty(),
    {
        ManagedAgentRuntimes { entries: Vec::new() }
    }

    pub fn len(&self) -> (n: usize)
        ensures
            n == self@.len(),
    {
        self.entries.len()
    }

    pub fn is_empty(&self) -> (b: bool)
        ensures
            b == (self@.len() == 0),
    {
        self.entries.len() == 0
    }

    /// The position of the entry with this key.
    fn position(&self, key: &ManagedAgentRuntimeKey) -> (at: Option<usize>)
        ensures
            match at {
                Some(i) => i < self@.len() && same_key(self@[i as int].0, *key),
                None => !has_key(self@, *key),
            },
    {
        let mut i: usize = 0;
        while i < self.entries.len()
            invariant
                i <= self@.len(),
                forall|j: int| 0 <= j < i ==> !same_key(#[trigger] self@[j].0, *key),
            decreases self@.len() - i,
        {
            if self.entries[i].0.same(key) {
                return Some(i);
            }
            i += 1;
        }
        None
    }

    /// The runtime with this key.
    pub fn get(&self, key: &ManagedAgentRuntimeKey) -> (found: Option<&ManagedAgentPairRuntime>)
        ensures
            match found {
                Some(runtime) => exists|i: int|
                    0 <= i < self@.len() && same_key(#[trigger] self@[i].0, *key) && self@[i].1
                        == *runtime,
                None => !has_key(self@, *key),
            },
    {
        match self.position(key) {
            Some(i) => {
                Some(&self.entries[i].1)
            },
            None => None,
        }
    }

    /// Puts a runtime under a key: in the place of the one that had the key,
    /// which is handed back, or behind all others.
    pub fn insert(&mut self, key: ManagedAgentRuntimeKey, runtime: ManagedAgentPairRuntime) -> (replaced:
        Option<ManagedAgentPairRuntime>)
        requires
            old(self).wf(),
        ensures
            final(self).wf(),
            match replaced {
                Some(previous) => exists|i: int|
                    0 <= i < old(self)@.len() && same_key(#[trigger] old(self)@[i].0, key) && old(
                        self,
                    )@[i].1 == previous && final(self)@ == old(self)@.update(i, (key, runtime)),
                None => !has_key(old(self)@, key) && final(self)@ == old(self)@.push(
                    (key, runtime),
                ),
            },
    {
        match self.position(&key) {
            Some(i) => {
                self.entries.push((key, runtime));
                let (_, previous) = self.entries.swap_remove(i);
                Some(previous)
            },
            None => {
                self.entries.push((key, runtime));
                None
            },
        }
    }

    /// The entry at a position of the walk.
    pub(crate) fn entry(&self, i: usize) -> (entry: &RuntimeEntry)
        requires
            i < self@.len(),
        ensures
            *entry == self@[i as int],
    {
        &self.entries[i]
    }

    /// Caches the exit status of the runtime at a position of the walk.
    pub(crate) fn cache_exit_status(&mut self, i: usize, status: ExitStatus)
        requires
            i < old(self)@.len(),
        ensures
            final(self)@ == old(self)@.update(
                i as int,
                (
                    old(self)@[i as int].0,
                    (ManagedAgentPairRuntime {
                        reaped_exit_status: Some(status),
                        ..old(self)@[i as int].1
                    }),
                ),
            ),
    {
        self.entries[i].1.reaped_exit_status = Some(status);
    }

    /// Takes out the entry at a position of the walk.
    pub(crate) fn remove_at(&mut self, i: usize) -> (entry: RuntimeEntry)
        requires
            i < old(self)@.len(),
        ensures
            entry == old(self)@[i as int],
            final(self)@ == old(self)@.remove(i as int),
    {
        self.entries.remove(i)
    }
}

} // verus!
