//! What an action may touch while it runs: the memory slots, the history and
//! the completion flag.
use crate::history::{history_view, Execution, ExecutionView};
use crate::invocation::{opt_str_view, Invocation};
use crate::storage::{Storage, StorageView};
use vstd::prelude::*;

verus! {

/// The views of a list of slots.
pub open spec fn storages_view(v: Seq<Storage>) -> Seq<StorageView> {
    v.map_values(|s: Storage| s@)
}

/// Index of the first slot called `name`.
pub open spec fn storage_index(v: Seq<StorageView>, name: Seq<char>, from: int) -> Option<int>
    decreases v.len() - from,
{
    if from < 0 || from >= v.len() {
        None
    } else if v[from].name == name {
        Some(from)
    } else {
        storage_index(v, name, from + 1)
    }
}

/// The mutable part of a run, handed to every action.
pub struct RunContext {
    storages: Vec<Storage>,
    history: Vec<Execution>,
    complete: bool,
    impossible: bool,
    reason: Option<String>,
}

/// The abstract content of a [`RunContext`].
pub struct RunContextView {
    pub storages: Seq<StorageView>,
    pub history: Seq<ExecutionView>,
    pub complete: bool,
    pub impossible: bool,
    pub reason: Option<Seq<char>>,
}

impl View for RunContext {
    type V = RunContextView;

    closed spec fn view(&self) -> RunContextView {
        RunContextView {
            storages: storages_view(self.storages@),
            history: history_view(self.history@),
            complete: self.complete,
            impossible: self.impossible,
            reason: opt_str_view(self.reason),
        }
    }
}

impl RunContext {
    /// A fresh context over `storages`, with an empty history.
    pub fn new(storages: Vec<Storage>) -> (r: Self)
        ensures
            r@ == (RunContextView {
                storages: storages_view(storages@),
                history: Seq::empty(),
                complete: false,
                impossible: false,
                reason: None,
            }),
    {
        let r = RunContext {
            storages,
            history: Vec::new(),
            complete: false,
            impossible: false,
            reason: None,
        };
        assert(history_view(r.history@) =~= Seq::<ExecutionView>::empty());
        r
    }

    /// The slots, in creation order.
    pub fn storages(&self) -> (r: &Vec<Storage>)
        ensures
            storages_view(r@) == self@.storages,
    {
        &self.storages
    }

    /// The records appended so far, oldest first.
    pub fn history(&self) -> (r: &Vec<Execution>)
        ensures
            history_view(r@) == self@.history,
    {
        &self.history
    }

    fn find_storage(&self, name: &String) -> (r: Option<usize>)
        ensures
            match r {
                Some(i) => storage_index(self@.storages, name@, 0) == Some(i as int) && i
                    < self.storages@.len(),
                None => storage_index(self@.storages, name@, 0) is None,
            },
    {
        let mut i: usize = 0;
        while i < self.storages.len()
            invariant
                i <= self.storages@.len(),
                storage_index(self@.storages, name@, 0) == storage_index(
                    self@.storages,
                    name@,
                    i as int,
                ),
            decreases self.storages@.len() - i,
        {
            if self.storages[i].name_is(name) {
                return Some(i);
            }
            i = i + 1;
        }
        None
    }

    /// The slot called `name`, if the run has one.
    pub fn get_storage(&self, name: &String) -> (r: Option<&Storage>)
        ensures
            match storage_index(self@.storages, name@, 0) {
                Some(i) => r is Some && r->0@ == self@.storages[i],
                None => r is None,
            },
    {
        match self.find_storage(name) {
            Some(i) => Some(&self.storages[i]),
            None => None,
        }
    }

    /// Stores `value` in the slot called `name`; returns whether it exists.
    /// Only that slot changes.
    pub fn add_to_storage(&mut self, name: &String, value: &str) -> (r: bool)
        ensures
            final(self)@.history == old(self)@.history,
            final(self)@.complete == old(self)@.complete,
            final(self)@.impossible == old(self)@.impossible,
            final(self)@.reason == old(self)@.reason,
            final(self)@.storages.len() == old(self)@.storages.len(),
            match storage_index(old(self)@.storages, name@, 0) {
                Some(i) => r && final(self)@.storages[i].items == match old(
                    self,
                )@.storages[i].kind {
                    crate::storage::StorageKind::Single => seq![value@],
                    crate::storage::StorageKind::List => old(self)@.storages[i].items.push(value@),
                } && final(self)@.storages[i].name == old(self)@.storages[i].name
                    && final(self)@.storages[i].kind == old(self)@.storages[i].kind && forall|
                    j: int,
                | 0 <= j < old(self)@.storages.len() && j != i ==> final(self)@.storages[j]
                    == old(self)@.storages[j],
                None => !r && final(self)@ == old(self)@,
            },
    {
        match self.find_storage(name) {
            Some(i) => {
                let mut s = self.storages.remove(i);
                s.add(value);
                self.storages.insert(i, s);
                assert(forall|j: int|
                    0 <= j < self.storages@.len() && j != i ==> self.storages@[j]
                        == old(self).storages@[j]);
                true
            },
            None => false,
        }
    }

    /// Appends one record to the history.
    pub fn add_execution_to_history(
        &mut self,
        invocation: Invocation,
        result: Option<String>,
        error: Option<String>,
    )
        ensures
            final(self)@ == (RunContextView {
                history: old(self)@.history.push(
                    ExecutionView {
                        invocation: invocation@,
                        result: opt_str_view(result),
                        error: opt_str_view(error),
                    },
                ),
                ..old(self)@
            }),
    {
        let e = Execution::new(invocation, result, error);
        self.history.push(e);
        assert(history_view(self.history@) =~= history_view(old(self).history@).push(e@));
        assert(storages_view(self.storages@) =~= storages_view(old(self).storages@));
    }

    /// Takes the history out, leaving it empty.
    pub(crate) fn detach_history(&mut self) -> (r: Vec<Execution>)
        ensures
            history_view(r@) == old(self)@.history,
            final(self)@ == (RunContextView { history: Seq::empty(), ..old(self)@ }),
    {
        let mut earlier: Vec<Execution> = Vec::new();
        std::mem::swap(&mut earlier, &mut self.history);
        assert(history_view(self.history@) =~= Seq::<ExecutionView>::empty());
        earlier
    }

    /// Puts `earlier` back in front of the records appended since it was
    /// taken out, and keeps the run complete if it was.
    pub(crate) fn reattach_history(&mut self, earlier: Vec<Execution>, was_complete: bool)
        ensures
            final(self)@ == (RunContextView {
                history: history_view(earlier@) + old(self)@.history,
                complete: old(self)@.complete || was_complete,
                ..old(self)@
            }),
    {
        let mut all = earlier;
        let ghost e = all@;
        all.append(&mut self.history);
        self.history = all;
        assert(history_view(self.history@) =~= history_view(e) + history_view(old(self).history@));
        if was_complete {
            self.complete = true;
        }
    }

    /// Declares the task finished, or impossible, with an optional reason.
    /// The flag stays set for the rest of the run.
    pub fn on_complete(&mut self, impossible: bool, reason: Option<String>)
        ensures
            final(self)@ == (RunContextView {
                complete: true,
                impossible,
                reason: opt_str_view(reason),
                ..old(self)@
            }),
    {
        self.complete = true;
        self.impossible = impossible;
        self.reason = reason;
    }

    /// Whether the task was declared finished or impossible.
    pub fn is_complete(&self) -> (r: bool)
        ensures
            r == self@.complete,
    {
        self.complete
    }

    /// Whether the task was declared impossible.
    pub fn is_impossible(&self) -> (r: bool)
        ensures
            r == self@.impossible,
    {
        self.impossible
    }

    /// The reason given on completion, if any.
    pub fn reason(&self) -> (r: &Option<String>)
        ensures
            opt_str_view(*r) == self@.reason,
    {
        &self.reason
    }
}

} // verus!
