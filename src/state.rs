//! The run state: capability registry, memory slots, history, step budget and
//! completion, with the guarded dispatch of invocations.
use crate::attrs::same_entries;
use crate::context::{storages_view, RunContext, RunContextView};
use crate::invocation::{attrs_view, canonical, opt_attrs_view, AttrsModel, Invocation, InvocationView};
use crate::storage::{strs_view, Storage, StorageKind, StorageSpec};
use vstd::prelude::*;

verus! {

/// The behaviour of one capability. Implementations live with the
/// capabilities; the run state only calls them.
pub trait Action {
    /// Runs the capability on the given arguments. `Ok(None)` means that it
    /// succeeded with nothing to report.
    fn run(
        &self,
        ctx: &mut RunContext,
        attributes: &Option<Vec<(String, String)>>,
        payload: &Option<String>,
    ) -> Result<Option<String>, String>;
}

/// A registered capability: what the prompt says about it, and its behaviour.
pub struct ActionEntry<A> {
    pub name: String,
    pub description: String,
    pub example_payload: Option<String>,
    pub example_attributes: Option<Vec<(String, String)>>,
    pub behavior: A,
}

/// A named group of capabilities, with the slots they need.
pub struct Namespace<A> {
    pub name: String,
    pub description: String,
    pub actions: Vec<ActionEntry<A>>,
    pub storages: Option<Vec<StorageSpec>>,
}

/// What the task supplies to a run.
pub struct Task<A> {
    /// The user prompt, which is also the initial goal.
    pub prompt: String,
    pub system_prompt: String,
    pub guidance: Vec<String>,
    /// The registered namespaces to enable; all of them when absent.
    pub namespaces: Option<Vec<String>>,
    /// Namespaces of the task's own.
    pub functions: Vec<Namespace<A>>,
}

/// Whether a namespace called `name` is enabled by `using`.
pub open spec fn enabled(name: Seq<char>, using: Option<Seq<Seq<char>>>) -> bool {
    match using {
        None => true,
        Some(u) => u.contains(name),
    }
}

/// The registered namespaces that `using` enables, in registration order.
pub open spec fn select<A>(reg: Seq<Namespace<A>>, using: Option<Seq<Seq<char>>>) -> Seq<
    Namespace<A>,
>
    decreases reg.len(),
{
    if reg.len() == 0 {
        Seq::empty()
    } else {
        let r = select(reg.drop_last(), using);
        if enabled(reg.last().name@, using) {
            r.push(reg.last())
        } else {
            r
        }
    }
}

/// The slots that one namespace asks for.
pub open spec fn reqs_of<A>(ns: Namespace<A>) -> Seq<(Seq<char>, StorageKind)> {
    match ns.storages {
        Some(v) => v@.map_values(|s: StorageSpec| (s.name@, s.kind)),
        None => Seq::empty(),
    }
}

/// The slots that the namespaces ask for, in order, repeats included.
pub open spec fn requirements<A>(nss: Seq<Namespace<A>>) -> Seq<(Seq<char>, StorageKind)>
    decreases nss.len(),
{
    if nss.len() == 0 {
        Seq::empty()
    } else {
        requirements(nss.drop_last()) + reqs_of(nss.last())
    }
}

/// The slots to create: the first request for each name.
pub open spec fn slot_plan(reqs: Seq<(Seq<char>, StorageKind)>) -> Seq<(Seq<char>, StorageKind)>
    decreases reqs.len(),
{
    if reqs.len() == 0 {
        Seq::empty()
    } else {
        let p = slot_plan(reqs.drop_last());
        if exists|i: int| 0 <= i < p.len() && p[i].0 == reqs.last().0 {
            p
        } else {
            p.push(reqs.last())
        }
    }
}

proof fn lemma_slot_plan_unique(reqs: Seq<(Seq<char>, StorageKind)>)
    ensures
        forall|i: int, j: int|
            0 <= i < j < slot_plan(reqs).len() ==> (#[trigger] slot_plan(reqs)[i]).0 != (
            #[trigger] slot_plan(reqs)[j]).0,
    decreases reqs.len(),
{
    if reqs.len() > 0 {
        lemma_slot_plan_unique(reqs.drop_last());
        let p = slot_plan(reqs.drop_last());
        let x = reqs.last();
        if !(exists|i: int| 0 <= i < p.len() && p[i].0 == x.0) {
            let q = p.push(x);
            assert(slot_plan(reqs) == q);
            assert forall|i: int, j: int| 0 <= i < j < q.len() implies (#[trigger] q[i]).0 != (
            #[trigger] q[j]).0 by {
                if j < p.len() {
                    assert(q[i] == p[i] && q[j] == p[j]);
                } else {
                    assert(q[i] == p[i]);
                }
            }
        }
    }
}

/// The name of the slot that holds the current goal.
pub open spec fn goal_name() -> Seq<char> {
    seq!['g', 'o', 'a', 'l']
}

/// The abstract content of a [`State`].
pub struct StateView<A> {
    pub prompt: Seq<char>,
    pub system_prompt: Seq<char>,
    pub guidance: Seq<Seq<char>>,
    pub iteration: nat,
    pub max_iterations: nat,
    pub namespaces: Seq<Namespace<A>>,
    pub ctx: RunContextView,
}

/// The state of one run.
pub struct State<A> {
    prompt: String,
    system_prompt: String,
    guidance: Vec<String>,
    curr_iter: usize,
    max_iters: usize,
    namespaces: Vec<Namespace<A>>,
    ctx: RunContext,
}

impl<A> View for State<A> {
    type V = StateView<A>;

    closed spec fn view(&self) -> StateView<A> {
        StateView {
            prompt: self.prompt@,
            system_prompt: self.system_prompt@,
            guidance: strs_view(self.guidance@),
            iteration: self.curr_iter as nat,
            max_iterations: self.max_iters as nat,
            namespaces: self.namespaces@,
            ctx: self.ctx@,
        }
    }
}

fn names_contain(names: &Vec<String>, name: &String) -> (r: bool)
    ensures
        r == strs_view(names@).contains(name@),
{
    let mut i: usize = 0;
    while i < names.len()
        invariant
            i <= names@.len(),
            forall|j: int| 0 <= j < i ==> names@[j]@ != name@,
        decreases names@.len() - i,
    {
        if names[i] == *name {
            assert(strs_view(names@)[i as int] == name@);
            return true;
        }
        i = i + 1;
    }
    assert(!strs_view(names@).contains(name@)) by {
        if strs_view(names@).contains(name@) {
            let k = choose|k: int| 0 <= k < names@.len() && strs_view(names@)[k] == name@;
            assert(names@[k]@ == name@);
        }
    }
    false
}

fn select_exec<A>(registry: Vec<Namespace<A>>, using: &Option<Vec<String>>) -> (r: Vec<
    Namespace<A>,
>)
    ensures
        r@ == select(
            registry@,
            match using {
                Some(u) => Some(strs_view(u@)),
                None => None,
            },
        ),
{
    let ghost u = match using {
        Some(u) => Some(strs_view(u@)),
        None => None,
    };
    let ghost orig = registry@;
    let total = registry.len();
    let mut reg = registry;
    let mut kept: Vec<Namespace<A>> = Vec::new();
    let mut k: usize = 0;
    assert(orig.subrange(0, 0) =~= Seq::<Namespace<A>>::empty());
    assert(reg@ =~= orig.subrange(0, orig.len() as int));
    while reg.len() > 0
        invariant
            k + reg@.len() == orig.len(),
            orig.len() == total,
            reg@ == orig.subrange(k as int, orig.len() as int),
            kept@ == select(orig.subrange(0, k as int), u),
            u == match using {
                Some(u) => Some(strs_view(u@)),
                None => None,
            },
        decreases reg@.len(),
    {
        let ghost before = reg@;
        let ns = reg.remove(0);
        let keep = match using {
            Some(names) => names_contain(names, &ns.name),
            None => true,
        };
        proof {
            let next = orig.subrange(0, k + 1);
            assert(next.drop_last() =~= orig.subrange(0, k as int));
            assert(before[0] == orig[k as int]);
            assert(next.last() == ns);
        }
        if keep {
            kept.push(ns);
        }
        k = k + 1;
        assert(reg@ =~= orig.subrange(k as int, orig.len() as int));
    }
    assert(orig.subrange(0, k as int) =~= orig);
    kept
}

} // verus!

verus! {

/// The name and kind of each slot.
pub open spec fn slot_shapes(v: Seq<crate::storage::StorageView>) -> Seq<(Seq<char>, StorageKind)> {
    v.map_values(|s: crate::storage::StorageView| (s.name, s.kind))
}

proof fn lemma_requirements_step<A>(nss: Seq<Namespace<A>>, i: int)
    requires
        0 <= i < nss.len(),
    ensures
        requirements(nss.subrange(0, i + 1)) == requirements(nss.subrange(0, i)) + reqs_of(
            nss[i],
        ),
{
    assert(nss.subrange(0, i + 1).drop_last() =~= nss.subrange(0, i));
}

fn has_slot(out: &Vec<Storage>, name: &String) -> (r: bool)
    ensures
        r == exists|i: int|
            0 <= i < slot_shapes(storages_view(out@)).len() && slot_shapes(
                storages_view(out@),
            )[i].0 == name@,
{
    let mut i: usize = 0;
    while i < out.len()
        invariant
            i <= out@.len(),
            forall|j: int| 0 <= j < i ==> out@[j]@.name != name@,
        decreases out@.len() - i,
    {
        if out[i].name_is(name) {
            assert(slot_shapes(storages_view(out@))[i as int].0 == name@);
            return true;
        }
        i = i + 1;
    }
    assert forall|j: int| 0 <= j < slot_shapes(storages_view(out@)).len() implies slot_shapes(
        storages_view(out@),
    )[j].0 != name@ by {
        assert(out@[j]@.name != name@);
    }
    false
}

fn create_storages<A>(nss: &Vec<Namespace<A>>) -> (r: Vec<Storage>)
    ensures
        slot_shapes(storages_view(r@)) == slot_plan(requirements(nss@)),
        forall|i: int| 0 <= i < r@.len() ==> (#[trigger] r@[i])@.items.len() == 0,
{
    let mut out: Vec<Storage> = Vec::new();
    let mut i: usize = 0;
    assert(slot_shapes(storages_view(out@)) =~= slot_plan(requirements(nss@.subrange(0, 0))));
    while i < nss.len()
        invariant
            i <= nss@.len(),
            slot_shapes(storages_view(out@)) == slot_plan(requirements(nss@.subrange(0, i as int))),
            forall|k: int| 0 <= k < out@.len() ==> (#[trigger] out@[k])@.items.len() == 0,
        decreases nss@.len() - i,
    {
        let ghost base = requirements(nss@.subrange(0, i as int));
        let ghost all = reqs_of(nss@[i as int]);
        match &nss[i].storages {
            Some(specs) => {
                let mut j: usize = 0;
                assert(base + all.subrange(0, 0) =~= base);
                while j < specs.len()
                    invariant
                        j <= specs@.len(),
                        all == specs@.map_values(|s: StorageSpec| (s.name@, s.kind)),
                        slot_shapes(storages_view(out@)) == slot_plan(
                            base + all.subrange(0, j as int),
                        ),
                        forall|k: int| 0 <= k < out@.len() ==> (#[trigger] out@[k])@.items.len() == 0,
                                decreases specs@.len() - j,
                {
                    let ghost prev = base + all.subrange(0, j as int);
                    let ghost next = base + all.subrange(0, j + 1);
                    assert(next.drop_last() =~= prev);
                    assert(next.last() == (specs@[j as int].name@, specs@[j as int].kind));
                    if !has_slot(&out, &specs[j].name) {
                        let s = Storage::new(specs[j].name.as_str(), specs[j].kind);
                        let ghost old_shapes = slot_shapes(storages_view(out@));
                        out.push(s);
                        assert(slot_shapes(storages_view(out@)) =~= old_shapes.push(next.last()));
                    }
                    j = j + 1;
                }
                assert(all.subrange(0, j as int) =~= all);
            },
            None => {
                assert(base + all =~= base);
            },
        }
        proof {
            lemma_requirements_step(nss@, i as int);
        }
        i = i + 1;
    }
    assert(nss@.subrange(0, i as int) =~= nss@);
    out
}

} // verus!

verus! {

/// The step budget is exhausted.
#[derive(Clone, Copy, Debug, PartialEq, Eq, Structural)]
pub enum BudgetError {
    IterationBudgetExceeded,
}

/// The lower-case form of `s`, as Unicode defines it.
pub uninterp spec fn lower_of(s: Seq<char>) -> Seq<char>;

/// Relies on `str::to_lowercase`: the Unicode lower-case mapping of the
/// string, which depends on its characters alone.
#[verifier::external_body]
fn lowercase(s: &str) -> (r: String)
    ensures
        r@ == lower_of(s@),
{
    s.to_lowercase()
}

/// The names of the namespaces, in order.
pub open spec fn ns_names<A>(v: Seq<Namespace<A>>) -> Seq<Seq<char>> {
    v.map_values(|n: Namespace<A>| n.name@)
}

impl<A> State<A> {
    /// The invariants of a run: well-formed slots, and a step counter below a
    /// positive budget.
    pub open spec fn wf(&self) -> bool {
        self@.max_iterations > 0 ==> self@.iteration < self@.max_iterations
    }

    /// The task's system prompt.
    pub fn system_prompt(&self) -> (r: &String)
        ensures
            r@ == self@.system_prompt,
    {
        &self.system_prompt
    }

    /// The task's guidance lines.
    pub fn guidance(&self) -> (r: &Vec<String>)
        ensures
            strs_view(r@) == self@.guidance,
    {
        &self.guidance
    }

    /// Starts a run: enables the registered namespaces that the task asks for
    /// (all when it names none), adds the task's own, creates each slot that
    /// some namespace needs, and puts the task's prompt in the goal slot.
    pub fn new(task: Task<A>, registry: Vec<Namespace<A>>, max_iterations: usize) -> (r: Self)
        ensures
            r.wf(),
            r@.namespaces == select(
                registry@,
                match task.namespaces {
                    Some(u) => Some(strs_view(u@)),
                    None => None,
                },
            ) + task.functions@,
            r@.prompt == task.prompt@,
            r@.system_prompt == task.system_prompt@,
            r@.guidance == strs_view(task.guidance@),
            r@.iteration == 0,
            r@.max_iterations == max_iterations,
            r@.ctx.history.len() == 0,
            !r@.ctx.complete,
            slot_shapes(r@.ctx.storages) == slot_plan(requirements(r@.namespaces)),
            forall|i: int, j: int|
                0 <= i < j < r@.ctx.storages.len() ==> (#[trigger] r@.ctx.storages[i]).name != (
                #[trigger] r@.ctx.storages[j]).name,
            forall|i: int|
                0 <= i < r@.ctx.storages.len() ==> (#[trigger] r@.ctx.storages[i]).items == if r@.ctx.storages[i].name
                    == goal_name() {
                    seq![task.prompt@]
                } else {
                    Seq::empty()
                },
    {
        let Task { prompt, system_prompt, guidance, namespaces: using, functions } = task;
        let mut functions = functions;
        let mut namespaces = select_exec(registry, &using);
        namespaces.append(&mut functions);
        let mut storages = create_storages(&namespaces);
        proof {
            reveal_strlit("goal");
        }
        let goal = String::from_str("goal");
        assert(goal@ =~= goal_name());
        let mut i: usize = 0;
        while i < storages.len()
            invariant
                i <= storages@.len(),
                goal@ == goal_name(),
                slot_shapes(storages_view(storages@)) == slot_plan(requirements(namespaces@)),
                forall|k: int|
                    0 <= k < storages@.len() ==> (#[trigger] storages@[k])@.items == if k < i
                        && storages@[k]@.name == goal_name() {
                        seq![prompt@]
                    } else {
                        Seq::empty()
                    },
            decreases storages@.len() - i,
        {
            if storages[i].name_is(&goal) {
                let ghost before = storages@;
                let mut s = storages.remove(i);
                s.set_current(prompt.as_str());
                storages.insert(i, s);
                assert(slot_shapes(storages_view(storages@)) =~= slot_shapes(
                    storages_view(before),
                ));
            }
            i = i + 1;
        }
        proof {
            lemma_slot_plan_unique(requirements(namespaces@));
            let v = storages_view(storages@);
            assert forall|a: int, b: int| 0 <= a < b < v.len() implies (#[trigger] v[a]).name != (
            #[trigger] v[b]).name by {
                assert(slot_shapes(v)[a].0 == v[a].name);
                assert(slot_shapes(v)[b].0 == v[b].name);
            }
        }
        let ctx = RunContext::new(storages);
        State {
            prompt,
            system_prompt,
            guidance,
            curr_iter: 0,
            max_iters: max_iterations,
            namespaces,
            ctx,
        }
    }

    /// Moves to the next step. Fails, leaving the counter as it is, when a
    /// positive budget is set and the new count would reach it.
    pub fn on_next_iteration(&mut self) -> (r: Result<(), BudgetError>)
        requires
            old(self).wf(),
        ensures
            final(self).wf(),
            old(self)@.max_iterations > 0 && old(self)@.iteration + 1 >= old(self)@.max_iterations
                ==> r == Err::<(), BudgetError>(BudgetError::IterationBudgetExceeded) && final(self)@
                == old(self)@,
            !(old(self)@.max_iterations > 0 && old(self)@.iteration + 1
                >= old(self)@.max_iterations) ==> r is Ok && final(self)@ == (StateView {
                iteration: if old(self)@.iteration + 1 <= usize::MAX {
                    old(self)@.iteration + 1
                } else {
                    old(self)@.iteration
                },
                ..old(self)@
            }),
    {
        if self.max_iters > 0 && self.curr_iter + 1 >= self.max_iters {
            Err(BudgetError::IterationBudgetExceeded)
        } else {
            if self.curr_iter < usize::MAX {
                self.curr_iter = self.curr_iter + 1;
            }
            Ok(())
        }
    }

    /// The current step number, counted from zero.
    pub fn iteration(&self) -> (r: usize)
        ensures
            r == self@.iteration,
    {
        self.curr_iter
    }

    /// The step budget; zero means none.
    pub fn max_iterations(&self) -> (r: usize)
        ensures
            r == self@.max_iterations,
    {
        self.max_iters
    }

    /// Whether the task was declared finished or impossible.
    pub fn is_complete(&self) -> (r: bool)
        ensures
            r == self@.ctx.complete,
    {
        self.ctx.is_complete()
    }

    /// Declares the task finished, or impossible, with an optional reason.
    /// Both halt the run alike.
    pub fn on_complete(&mut self, impossible: bool, reason: Option<String>)
        ensures
            final(self)@ == (StateView {
                ctx: RunContextView {
                    complete: true,
                    impossible,
                    reason: crate::invocation::opt_str_view(reason),
                    ..old(self)@.ctx
                },
                ..old(self)@
            }),
    {
        self.ctx.on_complete(impossible, reason);
    }

    /// Appends one record to the history.
    pub fn add_execution_to_history(
        &mut self,
        invocation: Invocation,
        result: Option<String>,
        error: Option<String>,
    )
        ensures
            final(self)@ == (StateView {
                ctx: RunContextView {
                    history: old(self)@.ctx.history.push(
                        crate::history::ExecutionView {
                            invocation: invocation@,
                            result: crate::invocation::opt_str_view(result),
                            error: crate::invocation::opt_str_view(error),
                        },
                    ),
                    ..old(self)@.ctx
                },
                ..old(self)@
            }),
    {
        self.ctx.add_execution_to_history(invocation, result, error);
    }

    /// The part of the state that actions may touch.
    pub fn context(&self) -> (r: &RunContext)
        ensures
            r@ == self@.ctx,
    {
        &self.ctx
    }

    /// The enabled namespaces, in order.
    pub fn namespaces(&self) -> (r: &Vec<Namespace<A>>)
        ensures
            r@ == self@.namespaces,
    {
        &self.namespaces
    }

    /// The task's prompt.
    pub fn to_prompt(&self) -> (r: String)
        ensures
            r@ == self@.prompt,
    {
        self.prompt.clone()
    }

    /// The slot called `name`, if the run has one.
    pub fn get_storage(&self, name: &String) -> (r: Option<&Storage>)
        ensures
            match crate::context::storage_index(self@.ctx.storages, name@, 0) {
                Some(i) => r is Some && r->0@ == self@.ctx.storages[i],
                None => r is None,
            },
    {
        self.ctx.get_storage(name)
    }

    /// The last `max` records as a chat transcript.
    pub fn to_chat_history(&self, max: usize) -> (r: Vec<crate::history::Message>)
        ensures
            ({
                let h = self@.ctx.history;
                let start = crate::history::transcript_start(h.len(), max as nat);
                &&& r@.len() == 2 * (h.len() - start)
                &&& forall|j: int|
                    0 <= j < h.len() - start ==> {
                        &&& (#[trigger] r@[2 * j]).role == crate::history::ChatRole::Assistant
                        &&& r@[2 * j].content@ == crate::invocation::canonical(
                            h[start + j].invocation,
                        )
                        &&& r@[2 * j + 1].role == crate::history::ChatRole::User
                        &&& r@[2 * j + 1].content@ == crate::history::outcome_text(h[start + j])
                    }
            }),
    {
        crate::history::to_chat_history(self.ctx.history(), max)
    }

    /// The namespace names in lower case, in order.
    pub fn used_namespaces(&self) -> (r: Vec<String>)
        ensures
            strs_view(r@) == ns_names(self@.namespaces).map_values(|n: Seq<char>| lower_of(n)),
    {
        let mut out: Vec<String> = Vec::new();
        let mut i: usize = 0;
        while i < self.namespaces.len()
            invariant
                i <= self.namespaces@.len(),
                strs_view(out@) == ns_names(self.namespaces@).subrange(0, i as int).map_values(
                    |n: Seq<char>| lower_of(n),
                ),
            decreases self.namespaces@.len() - i,
        {
            let ghost prev = strs_view(out@);
            let l = lowercase(self.namespaces[i].name.as_str());
            let ghost lv = l@;
            out.push(l);
            assert(strs_view(out@) =~= prev.push(lv));
            assert(self.namespaces@[i as int].name@ == ns_names(self.namespaces@)[i as int]);
            assert(strs_view(out@) =~= ns_names(self.namespaces@).subrange(0, i + 1).map_values(
                |n: Seq<char>| lower_of(n),
            ));
            i = i + 1;
        }
        assert(ns_names(self.namespaces@).subrange(0, i as int) =~= ns_names(self.namespaces@));
        out
    }
}

} // verus!

verus! {

/// The error recorded when the model echoes a documented example.
pub const MISUSE_MESSAGE: &'static str =
    "do not use the example values but use the information you have to create new ones";

/// First index at or after `from` of an action called `name`.
pub open spec fn action_index<A>(acts: Seq<ActionEntry<A>>, name: Seq<char>, from: int) -> Option<
    int,
>
    decreases acts.len() - from,
{
    if from < 0 || from >= acts.len() {
        None
    } else if acts[from].name@ == name {
        Some(from)
    } else {
        action_index(acts, name, from + 1)
    }
}

/// The first action called `name`, by namespace then by action order:
/// its namespace index and its index in that namespace.
pub open spec fn find_action<A>(nss: Seq<Namespace<A>>, name: Seq<char>, from: int) -> Option<
    (int, int),
>
    decreases nss.len() - from,
{
    if from < 0 || from >= nss.len() {
        None
    } else {
        match action_index(nss[from].actions@, name, 0) {
            Some(j) => Some((from, j)),
            None => find_action(nss, name, from + 1),
        }
    }
}

/// Whether `inv` repeats the documented example of `e`: the same payload, or
/// the same attributes.
pub open spec fn is_example_misuse<A>(e: ActionEntry<A>, inv: InvocationView) -> bool {
    ||| (inv.payload is Some && crate::invocation::opt_str_view(e.example_payload) == inv.payload)
    ||| (match (inv.attributes, opt_attrs_view(e.example_attributes)) {
        (Some(a), Some(x)) => same_entries(a, x),
        _ => false,
    })
}

/// Whether `new` is what dispatching `inv` makes of `old`. An unknown action
/// name changes nothing. An invocation that repeats the action's documented
/// example appends the misuse record and changes nothing else. Otherwise the
/// action runs: the old history stays in front, the records that the action
/// appended follow, and the last record is this invocation, never with both a
/// result and an error; a complete run stays complete.
#[verifier::opaque]
pub open spec fn dispatched<A>(old: StateView<A>, inv: InvocationView, new: StateView<A>) -> bool {
    &&& new.namespaces == old.namespaces
    &&& new.iteration == old.iteration
    &&& new.max_iterations == old.max_iterations
    &&& new.prompt == old.prompt
    &&& new.system_prompt == old.system_prompt
    &&& new.guidance == old.guidance
    &&& match find_action(old.namespaces, inv.action, 0) {
        None => new == old,
        Some(p) => if is_example_misuse(old.namespaces[p.0].actions@[p.1], inv) {
            new.ctx == (RunContextView {
                history: old.ctx.history.push(
                    crate::history::ExecutionView {
                        invocation: inv,
                        result: None,
                        error: Some(MISUSE_MESSAGE@),
                    },
                ),
                ..old.ctx
            })
        } else {
            &&& new.ctx.history.len() > old.ctx.history.len()
            &&& new.ctx.history.subrange(0, old.ctx.history.len() as int) == old.ctx.history
            &&& new.ctx.history.last().invocation == inv
            &&& (new.ctx.history.last().error is Some ==> new.ctx.history.last().result is None)
            &&& (old.ctx.complete ==> new.ctx.complete)
        },
    }
}

/// What [`State::execute`] did with an invocation.
#[derive(Clone, Copy, Debug, PartialEq, Eq, Structural)]
pub enum Dispatch {
    /// No enabled action has that name; nothing was recorded.
    Ignored,
    /// The invocation repeated a documented example; an error was recorded
    /// and the action did not run.
    Rejected,
    /// The action ran and its outcome was recorded.
    Ran,
}

fn contains_pair(b: &Vec<(String, String)>, p: &(String, String)) -> (r: bool)
    ensures
        r == attrs_view(b@).contains((p.0@, p.1@)),
{
    let mut i: usize = 0;
    while i < b.len()
        invariant
            i <= b@.len(),
            forall|j: int| 0 <= j < i ==> attrs_view(b@)[j] != (p.0@, p.1@),
        decreases b@.len() - i,
    {
        if b[i].0 == p.0 && b[i].1 == p.1 {
            assert(attrs_view(b@)[i as int] == (p.0@, p.1@));
            return true;
        }
        i = i + 1;
    }
    false
}

fn all_contained(a: &Vec<(String, String)>, b: &Vec<(String, String)>) -> (r: bool)
    ensures
        r == forall|i: int|
            0 <= i < attrs_view(a@).len() ==> attrs_view(b@).contains(
                #[trigger] attrs_view(a@)[i],
            ),
{
    let mut i: usize = 0;
    while i < a.len()
        invariant
            i <= a@.len(),
            forall|k: int| 0 <= k < i ==> attrs_view(b@).contains(#[trigger] attrs_view(a@)[k]),
        decreases a@.len() - i,
    {
        if !contains_pair(b, &a[i]) {
            assert(attrs_view(a@)[i as int] == (a@[i as int].0@, a@[i as int].1@));
            return false;
        }
        i = i + 1;
    }
    true
}

/// Whether `inv` repeats the documented example of `e`.
pub fn example_misuse<A>(e: &ActionEntry<A>, inv: &Invocation) -> (r: bool)
    ensures
        r == is_example_misuse(*e, inv@),
{
    let payload_echo = match (inv.payload(), &e.example_payload) {
        (Some(p), Some(x)) => *p == *x,
        _ => false,
    };
    let attrs_echo = match (inv.attributes(), &e.example_attributes) {
        (Some(a), Some(x)) => all_contained(a, x) && all_contained(x, a),
        _ => false,
    };
    payload_echo || attrs_echo
}

impl<A> State<A> {
    fn find_action_exec(&self, inv: &Invocation) -> (r: Option<(usize, usize)>)
        ensures
            match r {
                Some(p) => find_action(self@.namespaces, inv@.action, 0) == Some(
                    (p.0 as int, p.1 as int),
                ) && p.0 < self@.namespaces.len() && p.1 < self@.namespaces[p.0 as int].actions@.len(),
                None => find_action(self@.namespaces, inv@.action, 0) is None,
            },
    {
        let mut i: usize = 0;
        while i < self.namespaces.len()
            invariant
                i <= self.namespaces@.len(),
                find_action(self@.namespaces, inv@.action, 0) == find_action(
                    self@.namespaces,
                    inv@.action,
                    i as int,
                ),
            decreases self.namespaces@.len() - i,
        {
            let acts = &self.namespaces[i].actions;
            let mut j: usize = 0;
            while j < acts.len()
                invariant
                    i < self.namespaces@.len(),
                    *acts == self.namespaces@[i as int].actions,
                    find_action(self@.namespaces, inv@.action, 0) == find_action(
                        self@.namespaces,
                        inv@.action,
                        i as int,
                    ),
                    j <= acts@.len(),
                    action_index(acts@, inv@.action, 0) == action_index(
                        acts@,
                        inv@.action,
                        j as int,
                    ),
                decreases acts@.len() - j,
            {
                if inv.action_is(&acts[j].name) {
                    assert(action_index(acts@, inv@.action, j as int) == Some(j as int));
                    return Some((i, j));
                }
                j = j + 1;
            }
            i = i + 1;
        }
        None
    }
}

} // verus!

verus! {

impl<A: Action> State<A> {
    /// Dispatches one invocation. An unknown action name is ignored. An
    /// invocation that repeats the action's documented example is rejected
    /// with an error record, without running the action. Otherwise the action
    /// runs and its outcome, success or error, is recorded. Nothing here
    /// aborts the run.
    pub fn execute(&mut self, invocation: Invocation) -> (r: Dispatch)
        requires
            old(self).wf(),
        ensures
            final(self).wf(),
            final(self)@.namespaces == old(self)@.namespaces,
            final(self)@.iteration == old(self)@.iteration,
            final(self)@.max_iterations == old(self)@.max_iterations,
            final(self)@.prompt == old(self)@.prompt,
            final(self)@.system_prompt == old(self)@.system_prompt,
            final(self)@.guidance == old(self)@.guidance,
            dispatched(old(self)@, invocation@, final(self)@),
            match find_action(old(self)@.namespaces, invocation@.action, 0) {
                None => r == Dispatch::Ignored,
                Some(p) => if is_example_misuse(
                    old(self)@.namespaces[p.0].actions@[p.1],
                    invocation@,
                ) {
                    r == Dispatch::Rejected
                } else {
                    r == Dispatch::Ran
                },
            },
    {
        reveal(dispatched);
        match self.find_action_exec(&invocation) {
            None => Dispatch::Ignored,
            Some((i, j)) => {
                if example_misuse(&self.namespaces[i].actions[j], &invocation) {
                    self.ctx.add_execution_to_history(
                        invocation,
                        None,
                        Some(String::from_str(MISUSE_MESSAGE)),
                    );
                    Dispatch::Rejected
                } else {
                    let was_complete = self.ctx.is_complete();
                    let earlier = self.ctx.detach_history();
                    let ret = self.namespaces[i].actions[j].behavior.run(
                        &mut self.ctx,
                        invocation.attributes(),
                        invocation.payload(),
                    );
                    self.ctx.reattach_history(earlier, was_complete);
                    let ghost mid = self.ctx@.history;
                    match ret {
                        Ok(result) => self.ctx.add_execution_to_history(invocation, result, None),
                        Err(e) => self.ctx.add_execution_to_history(invocation, None, Some(e)),
                    }
                    assert(self.ctx@.history.subrange(0, old(self)@.ctx.history.len() as int)
                        =~= old(self)@.ctx.history);
                    Dispatch::Ran
                }
            },
        }
    }
}

} // verus!

verus! {

/// Whether `executed` lists, in increasing order, the invocations of `invs`
/// that one step runs: each one whose canonical form differs from that of the
/// invocation run just before it, from the first on, stopping only where the
/// run has completed (`halted`).
#[verifier::opaque]
pub open spec fn step_schedule(
    invs: Seq<InvocationView>,
    executed: Seq<usize>,
    started_complete: bool,
    halted: bool,
) -> bool {
    &&& forall|k: int| 0 <= k < executed.len() ==> (#[trigger] executed[k]) < invs.len()
    &&& forall|a: int, b: int|
        0 <= a < b < executed.len() ==> (#[trigger] executed[a]) < (#[trigger] executed[b])
    &&& started_complete ==> executed.len() == 0
    &&& (!started_complete && invs.len() > 0) ==> executed.len() > 0 && executed[0] == 0
    &&& forall|k: int|
        0 < k < executed.len() ==> canonical(invs[#[trigger] executed[k] as int]) != canonical(
            invs[executed[k - 1] as int],
        )
    &&& forall|k: int, m: int|
        #![trigger executed[k], invs[m]]
        0 < k < executed.len() && executed[k - 1] < m < executed[k] ==> canonical(invs[m])
            == canonical(invs[executed[k - 1] as int])
    &&& executed.len() > 0 ==> forall|m: int|
        executed.last() < m < invs.len() ==> halted || canonical(#[trigger] invs[m]) == canonical(
            invs[executed.last() as int],
        )
}

/// Whether `t` lists the states of a step: `t[0]` before it, `t[k + 1]`
/// what dispatching the invocation `executed[k]` made of `t[k]`, the last one
/// after it; every state but the last is of a run not yet complete.
#[verifier::opaque]
pub open spec fn step_trace<A>(
    t: Seq<StateView<A>>,
    invs: Seq<InvocationView>,
    executed: Seq<usize>,
    before: StateView<A>,
    after: StateView<A>,
) -> bool {
    &&& t.len() == executed.len() + 1
    &&& t[0] == before
    &&& t.last() == after
    &&& forall|k: int|
        0 <= k < executed.len() ==> #[trigger] dispatched(
            t[k],
            invs[executed[k] as int],
            t[k + 1],
        ) && (k + 1 < executed.len() ==> !t[k + 1].ctx.complete)
}

proof fn lemma_trace_push<A>(
    t: Seq<StateView<A>>,
    invs: Seq<InvocationView>,
    executed: Seq<usize>,
    before: StateView<A>,
    mid: StateView<A>,
    i: usize,
    after: StateView<A>,
)
    requires
        step_trace(t, invs, executed, before, mid),
        !mid.ctx.complete,
        dispatched(mid, invs[i as int], after),
    ensures
        step_trace(t.push(after), invs, executed.push(i), before, after),
{
    reveal(step_trace);
    let t2 = t.push(after);
    let e2 = executed.push(i);
    assert forall|k: int| 0 <= k < e2.len() implies #[trigger] dispatched(
        t2[k],
        invs[e2[k] as int],
        t2[k + 1],
    ) && (k + 1 < e2.len() ==> !t2[k + 1].ctx.complete) by {
        if k < executed.len() {
            assert(e2[k] == executed[k]);
            assert(t2[k] == t[k]);
            assert(t2[k + 1] == t[k + 1]);
            assert(dispatched(t[k], invs[executed[k] as int], t[k + 1]));
        } else {
            assert(t2[k] == mid);
        }
    }
}

proof fn lemma_schedule_halt(invs: Seq<InvocationView>, ex: Seq<usize>, started: bool)
    requires
        step_schedule(invs, ex, started, false),
    ensures
        step_schedule(invs, ex, started, true),
{
    reveal(step_schedule);
}

proof fn lemma_schedule_skip(
    invs: Seq<InvocationView>,
    i: int,
    ex: Seq<usize>,
    started: bool,
    halted: bool,
)
    requires
        0 <= i < invs.len(),
        step_schedule(invs.subrange(0, i), ex, started, halted),
        ex.len() > 0,
        canonical(invs[i]) == canonical(invs[ex.last() as int]),
    ensures
        step_schedule(invs.subrange(0, i + 1), ex, started, halted),
{
    reveal(step_schedule);
    let p0 = invs.subrange(0, i);
    let p1 = invs.subrange(0, i + 1);
    assert forall|k: int| 0 <= k < ex.len() implies p1[#[trigger] ex[k] as int] == p0[ex[k] as int]
        by {}
    assert forall|m: int| 0 <= m < i implies #[trigger] p1[m] == p0[m] by {}
}

proof fn lemma_schedule_push(
    invs: Seq<InvocationView>,
    i: int,
    ex: Seq<usize>,
    started: bool,
    halted: bool,
)
    requires
        0 <= i < invs.len(),
        i <= usize::MAX,
        step_schedule(invs.subrange(0, i), ex, started, halted),
        !started,
        !halted,
        ex.len() == 0 ==> i == 0,
        ex.len() > 0 ==> canonical(invs[i]) != canonical(invs[ex.last() as int]),
    ensures
        step_schedule(invs.subrange(0, i + 1), ex.push(i as usize), started, halted),
{
    reveal(step_schedule);
    let p0 = invs.subrange(0, i);
    let p1 = invs.subrange(0, i + 1);
    let e = ex.push(i as usize);
    assert forall|m: int| 0 <= m < i implies #[trigger] p1[m] == p0[m] by {}
    assert forall|k: int| 0 < k < e.len() implies canonical(p1[#[trigger] e[k] as int]) != canonical(
        p1[e[k - 1] as int],
    ) by {
        if k < e.len() - 1 {
            assert(e[k] == ex[k] && e[k - 1] == ex[k - 1]);
        }
    }
    assert forall|k: int, m: int|
        #![trigger e[k], p1[m]]
        0 < k < e.len() && e[k - 1] < m < e[k] implies canonical(p1[m]) == canonical(
        p1[e[k - 1] as int],
    ) by {
        if k < e.len() - 1 {
            assert(e[k] == ex[k] && e[k - 1] == ex[k - 1]);
            assert(p0[m] == p1[m]);
        } else {
            assert(e[k - 1] == ex.last());
            assert(p0[m] == p1[m]);
            assert(p0[ex.last() as int] == p1[ex.last() as int]);
        }
    }
}

proof fn lemma_schedule_extend(
    invs: Seq<InvocationView>,
    i: int,
    executed: Seq<usize>,
    started: bool,
    halted: bool,
)
    requires
        0 <= i <= invs.len(),
        halted,
        step_schedule(invs.subrange(0, i), executed, started, halted),
        executed.len() == 0 ==> started,
    ensures
        step_schedule(invs, executed, started, halted),
{
    reveal(step_schedule);
    let pre = invs.subrange(0, i);
    assert forall|k: int| 0 < k < executed.len() implies canonical(
        invs[#[trigger] executed[k] as int],
    ) != canonical(invs[executed[k - 1] as int]) by {
        assert(executed[k] < i);
        assert(executed[k - 1] < i);
        assert(pre[executed[k] as int] == invs[executed[k] as int]);
        assert(pre[executed[k - 1] as int] == invs[executed[k - 1] as int]);
    }
    assert forall|k: int, m: int|
        #![trigger executed[k], invs[m]]
        0 < k < executed.len() && executed[k - 1] < m < executed[k] implies canonical(invs[m])
            == canonical(invs[executed[k - 1] as int]) by {
        assert(executed[k] < i);
        assert(pre[m] == invs[m]);
        assert(pre[executed[k - 1] as int] == invs[executed[k - 1] as int]);
    }
    if executed.len() > 0 {
        assert(executed[0] < i);
    }
}

/// What one step did with one parsed invocation.
#[derive(Clone, Copy, Debug, PartialEq, Eq, Structural)]
pub enum StepOutcome {
    /// The run was already complete; nothing was done.
    Halted,
    /// It repeated the invocation executed just before; nothing was done.
    Skipped,
    /// It was dispatched.
    Executed,
}

impl<A: Action> State<A> {
    /// Handles one parsed invocation of a step. `prev` holds the canonical
    /// form of the invocation executed just before in this step. Nothing is
    /// done once the run is complete, nor for an exact repeat of `prev`;
    /// otherwise the invocation is dispatched and becomes `prev`.
    pub fn process_one(&mut self, invocation: Invocation, prev: &mut Option<String>) -> (r:
        StepOutcome)
        requires
            old(self).wf(),
        ensures
            final(self).wf(),
            final(self)@.namespaces == old(self)@.namespaces,
            final(self)@.iteration == old(self)@.iteration,
            final(self)@.max_iterations == old(self)@.max_iterations,
            old(self)@.ctx.complete ==> r == StepOutcome::Halted && final(self)@ == old(self)@
                && *final(prev) == *old(prev),
            !old(self)@.ctx.complete && crate::invocation::opt_str_view(*old(prev)) == Some(
                canonical(invocation@),
            ) ==> r == StepOutcome::Skipped && final(self)@ == old(self)@ && *final(prev) == *old(
                prev,
            ),
            !old(self)@.ctx.complete && crate::invocation::opt_str_view(*old(prev)) != Some(
                canonical(invocation@),
            ) ==> r == StepOutcome::Executed && crate::invocation::opt_str_view(*final(prev))
                == Some(canonical(invocation@)) && dispatched(
                old(self)@,
                invocation@,
                final(self)@,
            ),
    {
        if self.is_complete() {
            return StepOutcome::Halted;
        }
        let text = invocation.to_structured_string().to_owned();
        let repeat = match prev {
            Some(p) => *p == text,
            None => false,
        };
        if repeat {
            StepOutcome::Skipped
        } else {
            *prev = Some(text);
            self.execute(invocation);
            StepOutcome::Executed
        }
    }

    /// Runs the invocations of one step in order. One whose canonical form
    /// equals that of the invocation executed just before it is skipped, and
    /// processing stops once the run is complete. Returns the indices of the
    /// invocations that were executed.
    #[verifier::rlimit(100)]
    pub fn process_invocations(&mut self, invocations: Vec<Invocation>) -> (r: Vec<usize>)
        requires
            old(self).wf(),
        ensures
            final(self).wf(),
            final(self)@.namespaces == old(self)@.namespaces,
            final(self)@.iteration == old(self)@.iteration,
            final(self)@.max_iterations == old(self)@.max_iterations,
            step_schedule(
                crate::parser::views(invocations@),
                r@,
                old(self)@.ctx.complete,
                final(self)@.ctx.complete,
            ),
            old(self)@.ctx.complete ==> final(self)@ == old(self)@,
            forall|i: usize|
                i < usize::MAX && i + 1 < invocations@.len() && canonical(
                    #[trigger] crate::parser::views(invocations@)[i as int],
                ) == canonical(crate::parser::views(invocations@)[i + 1]) ==> !(r@.contains(i)
                    && r@.contains((i + 1) as usize)),
            exists|t: Seq<StateView<A>>|
                step_trace(t, crate::parser::views(invocations@), r@, old(self)@, final(self)@),
    {
        let ghost invs = crate::parser::views(invocations@);
        let ghost started = self@.ctx.complete;
        let total = invocations.len();
        let mut rest = invocations;
        let mut executed: Vec<usize> = Vec::new();
        let mut prev: Option<String> = None;
        let mut i: usize = 0;
        let mut halted = false;
        let ghost mut trace: Seq<StateView<A>> = seq![self@];
        proof {
            reveal(step_schedule);
            reveal(step_trace);
            assert(step_trace(trace, invs, executed@, old(self)@, self@));
        }
        while i < total
            invariant_except_break
                !halted,
                rest@.len() == total - i,
                crate::parser::views(rest@) == invs.subrange(i as int, total as int),
            invariant
                self.wf(),
                self@.namespaces == old(self)@.namespaces,
                self@.iteration == old(self)@.iteration,
                self@.max_iterations == old(self)@.max_iterations,
                started == old(self)@.ctx.complete,
                invs.len() == total,
                i <= total,
                executed@.len() == 0 ==> i == 0 && prev is None && self@.ctx.complete == started,
                executed@.len() > 0 ==> prev is Some && prev->0@ == canonical(
                    invs[executed@.last() as int],
                ),
                halted ==> self@.ctx.complete,
                step_schedule(invs.subrange(0, i as int), executed@, started, halted),
                step_trace(trace, invs, executed@, old(self)@, self@),
                started ==> self@ == old(self)@ && executed@.len() == 0,
            ensures
                step_trace(trace, invs, executed@, old(self)@, self@),
                started ==> self@ == old(self)@ && executed@.len() == 0,
                i <= total,
                halted || i == total,
                halted ==> self@.ctx.complete,
                executed@.len() == 0 ==> self@.ctx.complete == started,
                step_schedule(invs.subrange(0, i as int), executed@, started, halted),
                self.wf(),
                self@.namespaces == old(self)@.namespaces,
                self@.iteration == old(self)@.iteration,
                self@.max_iterations == old(self)@.max_iterations,
            decreases total - i,
        {
            let ghost before = rest@;
            let inv = rest.remove(0);
            assert(before[0]@ == crate::parser::views(before)[0]);
            assert(inv@ == invs[i as int]);
            assert forall|k: int| 0 <= k < rest@.len() implies crate::parser::views(rest@)[k]
                == invs.subrange(i + 1, total as int)[k] by {
                assert(rest@[k] == before[k + 1]);
                assert(crate::parser::views(before)[k + 1] == invs.subrange(
                    i as int,
                    total as int,
                )[k + 1]);
            }
            assert(crate::parser::views(rest@) =~= invs.subrange(i + 1, total as int));
            let ghost ex0 = executed@;
            let ghost st0 = self@;
            let ghost tr0 = trace;
            match self.process_one(inv, &mut prev) {
                StepOutcome::Halted => {
                    proof {
                        lemma_schedule_halt(invs.subrange(0, i as int), executed@, started);
                    }
                    halted = true;
                    break;
                },
                StepOutcome::Skipped => {
                    proof {
                        lemma_schedule_skip(invs, i as int, executed@, started, halted);
                    }
                },
                StepOutcome::Executed => {
                    proof {
                        lemma_schedule_push(invs, i as int, executed@, started, halted);
                    }
                    executed.push(i);
                    proof {
                        assert(ex0.push(i) =~= executed@);
                        lemma_trace_push(tr0, invs, ex0, old(self)@, st0, i, self@);
                        trace = tr0.push(self@);
                    }
                },
            }
            i = i + 1;
        }
        proof {
            assert(step_trace(trace, invs, executed@, old(self)@, self@));
            if i == total {
                assert(invs.subrange(0, i as int) =~= invs);
            } else {
                lemma_schedule_extend(invs, i as int, executed@, started, halted);
            }
            let fin = self.ctx@.complete;
            assert forall|j: usize|
                j < usize::MAX && j + 1 < invs.len() && canonical(#[trigger] invs[j as int])
                    == canonical(invs[j + 1]) implies !(executed@.contains(j) && executed@.contains(
                (j + 1) as usize,
            )) by {
                lemma_repeat_runs_once(invs, executed@, started, fin, j);
            }
        }
        executed
    }
}

} // verus!

verus! {

/// Of two neighbouring invocations with the same canonical form, a step runs
/// at most one.
pub proof fn lemma_repeat_runs_once(
    invs: Seq<InvocationView>,
    executed: Seq<usize>,
    started_complete: bool,
    halted: bool,
    i: usize,
)
    requires
        step_schedule(invs, executed, started_complete, halted),
        i < usize::MAX,
        i + 1 < invs.len(),
        canonical(invs[i as int]) == canonical(invs[i + 1]),
    ensures
        !(executed.contains(i as usize) && executed.contains((i + 1) as usize)),
{
    reveal(step_schedule);
    let forms = invs.map_values(|v: InvocationView| canonical(v));
    assert forall|k: int| 0 < k < executed.len() implies forms[#[trigger] executed[k] as int]
        != forms[executed[k - 1] as int] by {
        assert(canonical(invs[executed[k] as int]) != canonical(invs[executed[k - 1] as int]));
    }
    lemma_neighbours(forms, executed, i);
}

proof fn lemma_neighbours(forms: Seq<Seq<char>>, executed: Seq<usize>, i: usize)
    requires
        forall|a: int, b: int|
            0 <= a < b < executed.len() ==> (#[trigger] executed[a]) < (#[trigger] executed[b]),
        forall|k: int|
            0 < k < executed.len() ==> forms[#[trigger] executed[k] as int] != forms[executed[k
                - 1] as int],
        i < usize::MAX,
        i + 1 < forms.len(),
        forms[i as int] == forms[i + 1],
    ensures
        !(executed.contains(i as usize) && executed.contains((i + 1) as usize)),
{
    if executed.contains(i as usize) && executed.contains((i + 1) as usize) {
        let a = choose|a: int| 0 <= a < executed.len() && executed[a] == i as usize;
        let b = choose|b: int| 0 <= b < executed.len() && executed[b] == (i + 1) as usize;
        if b < a {
            assert(executed[b] < executed[a]);
        }
        assert(a != b);
        if a + 1 < b {
            assert(executed[a] < executed[a + 1]);
            assert(executed[a + 1] < executed[b]);
        }
        assert(b == a + 1);
        assert(forms[executed[b] as int] != forms[executed[b - 1] as int]);
    }
}

} // verus!
