//! The texts a run hands to the model: the capability catalogue, the state
//! snapshot and the system prompt.
use crate::context::storages_view;
use crate::invocation::{canonical, opt_attrs_view, opt_str_view, render_canonical, InvocationView};
use crate::render::{append_decimal, decimal};
use crate::state::{ActionEntry, Namespace, State};
use crate::storage::{render_storage, strs_view, Storage, StorageKind, StorageView};
use vstd::prelude::*;

verus! {

/// The worked example of an action: its canonical form on the documented
/// example values.
pub open spec fn example_of<A>(e: ActionEntry<A>) -> Seq<char> {
    canonical(
        InvocationView {
            action: e.name@,
            attributes: opt_attrs_view(e.example_attributes),
            payload: opt_str_view(e.example_payload),
        },
    )
}

/// Each action's description and worked example.
pub open spec fn render_actions<A>(acts: Seq<ActionEntry<A>>) -> Seq<char>
    decreases acts.len(),
{
    if acts.len() == 0 {
        Seq::empty()
    } else {
        render_actions(acts.drop_last()) + acts.last().description@ + seq!['\n'] + example_of(
            acts.last(),
        ) + seq!['\n', '\n']
    }
}

/// A namespace's heading, its description when it has one, and its actions.
pub open spec fn render_namespace<A>(ns: Namespace<A>) -> Seq<char> {
    seq!['#', '#', ' '] + ns.name@ + seq!['\n', '\n'] + (if ns.description@.len() > 0 {
        ns.description@ + seq!['\n', '\n']
    } else {
        Seq::empty()
    }) + render_actions(ns.actions@)
}

/// The catalogue of every namespace, in order.
pub open spec fn render_namespaces<A>(nss: Seq<Namespace<A>>) -> Seq<char>
    decreases nss.len(),
{
    if nss.len() == 0 {
        Seq::empty()
    } else {
        render_namespaces(nss.drop_last()) + render_namespace(nss.last())
    }
}

/// The pieces joined with `sep` between consecutive ones.
pub open spec fn join(pieces: Seq<Seq<char>>, sep: Seq<char>) -> Seq<char>
    decreases pieces.len(),
{
    if pieces.len() == 0 {
        Seq::empty()
    } else if pieces.len() == 1 {
        pieces[0]
    } else {
        join(pieces.drop_last(), sep) + sep + pieces.last()
    }
}

/// The slots of kind `k`, in order.
pub open spec fn of_kind(v: Seq<StorageView>, k: StorageKind) -> Seq<StorageView>
    decreases v.len(),
{
    if v.len() == 0 {
        Seq::empty()
    } else if v.last().kind == k {
        of_kind(v.drop_last(), k).push(v.last())
    } else {
        of_kind(v.drop_last(), k)
    }
}

/// The slots in display order: single-valued ones first, each group in
/// creation order.
pub open spec fn display_order(v: Seq<StorageView>) -> Seq<StorageView> {
    of_kind(v, StorageKind::Single) + of_kind(v, StorageKind::List)
}

/// The text blocks of the slots.
pub open spec fn storage_blocks(v: Seq<StorageView>) -> Seq<Seq<char>> {
    v.map_values(|s: StorageView| render_storage(s))
}

/// The step banner: empty without a budget.
pub open spec fn banner(iteration: nat, max: nat) -> Seq<char> {
    if max > 0 {
        seq!['Y', 'o', 'u', ' ', 'a', 'r', 'e', ' ', 'c', 'u', 'r', 'r', 'e', 'n', 't', 'l', 'y', ' ',
        'a', 't', ' ', 's', 't', 'e', 'p', ' '] + decimal(iteration + 1) + seq![' ', 'o', 'f', ' ',
        'a', ' ', 'm', 'a', 'x', 'i', 'm', 'u', 'm', ' ', 'o', 'f', ' '] + decimal(max) + seq!['.']
    } else {
        Seq::empty()
    }
}

/// The guidance as a bullet list.
pub open spec fn guidance_lines(g: Seq<Seq<char>>) -> Seq<Seq<char>> {
    g.map_values(|s: Seq<char>| seq!['-', ' '] + s)
}

fn join_strings(pieces: &Vec<String>, sep: &str) -> (r: String)
    ensures
        r@ == join(strs_view(pieces@), sep@),
{
    let mut out = String::new();
    let mut i: usize = 0;
    while i < pieces.len()
        invariant
            i <= pieces@.len(),
            out@ == join(strs_view(pieces@).subrange(0, i as int), sep@),
        decreases pieces@.len() - i,
    {
        let ghost pre = strs_view(pieces@).subrange(0, i as int);
        let ghost next = strs_view(pieces@).subrange(0, i + 1);
        assert(next.drop_last() =~= pre);
        if i > 0 {
            out.append(sep);
        }
        out.append(pieces[i].as_str());
        assert(out@ =~= join(next, sep@));
        i = i + 1;
    }
    assert(strs_view(pieces@).subrange(0, i as int) =~= strs_view(pieces@));
    out
}

fn append_banner(out: &mut String, iteration: usize, max: usize)
    requires
        max > 0 ==> iteration < max,
    ensures
        final(out)@ == old(out)@ + banner(iteration as nat, max as nat),
{
    if max > 0 {
        proof {
            reveal_strlit("You are currently at step ");
            reveal_strlit(" of a maximum of ");
            reveal_strlit(".");
        }
        out.append("You are currently at step ");
        append_decimal(out, iteration + 1);
        out.append(" of a maximum of ");
        append_decimal(out, max);
        out.append(".");
        assert(final(out)@ =~= old(out)@ + banner(iteration as nat, max as nat));
    } else {
        assert(old(out)@ + banner(iteration as nat, max as nat) =~= old(out)@);
    }
}

fn blocks_of_kind(storages: &Vec<Storage>, k: StorageKind, blocks: &mut Vec<String>)
    ensures
        strs_view(final(blocks)@) == strs_view(old(blocks)@) + storage_blocks(
            of_kind(storages_view(storages@), k),
        ),
{
    let mut i: usize = 0;
    let ghost v = storages_view(storages@);
    while i < storages.len()
        invariant
            i <= storages@.len(),
            v == storages_view(storages@),
            strs_view(blocks@) == strs_view(old(blocks)@) + storage_blocks(
                of_kind(v.subrange(0, i as int), k),
            ),
        decreases storages@.len() - i,
    {
        let ghost next = v.subrange(0, i + 1);
        assert(next.drop_last() =~= v.subrange(0, i as int));
        let ghost before = strs_view(blocks@);
        if storages[i].kind() == k {
            let b = storages[i].to_structured_string();
            let ghost bv = b@;
            blocks.push(b);
            assert(strs_view(blocks@) =~= before.push(bv));
            assert(storage_blocks(of_kind(next, k)) =~= storage_blocks(
                of_kind(v.subrange(0, i as int), k),
            ).push(bv));
        }
        i = i + 1;
    }
    assert(v.subrange(0, i as int) =~= v);
}

impl<A> ActionEntry<A> {
    /// The worked example of the action, as the prompt shows it.
    pub fn structured_example(&self) -> (r: String)
        ensures
            r@ == example_of(*self),
    {
        render_canonical(self.name.as_str(), &self.example_attributes, &self.example_payload)
    }
}

impl<A> State<A> {
    /// Every enabled namespace: heading, description, and each action's
    /// description with a worked example.
    pub fn available_actions_to_string(&self) -> (r: String)
        ensures
            r@ == render_namespaces(self@.namespaces),
    {
        let nss = self.namespaces();
        let mut md = String::new();
        let mut i: usize = 0;
        while i < nss.len()
            invariant
                i <= nss@.len(),
                md@ == render_namespaces(nss@.subrange(0, i as int)),
            decreases nss@.len() - i,
        {
            proof {
                reveal_strlit("## ");
                reveal_strlit("\n\n");
                reveal_strlit("\n");
            }
            let ns = &nss[i];
            let ghost start = md@;
            md.append("## ");
            md.append(ns.name.as_str());
            md.append("\n\n");
            if !ns.description.as_str().is_empty() {
                md.append(ns.description.as_str());
                md.append("\n\n");
            }
            let ghost head = md@;
            assert(head =~= start + seq!['#', '#', ' '] + ns.name@ + seq!['\n', '\n'] + (if ns.description@.len() > 0 {
                ns.description@ + seq!['\n', '\n']
            } else {
                Seq::empty()
            }));
            let mut j: usize = 0;
            while j < ns.actions.len()
                invariant
                    j <= ns.actions@.len(),
                    md@ == head + render_actions(ns.actions@.subrange(0, j as int)),
                decreases ns.actions@.len() - j,
            {
                proof {
                    reveal_strlit("\n\n");
                    reveal_strlit("\n");
                }
                let e = &ns.actions[j];
                let ghost pre = md@;
                md.append(e.description.as_str());
                md.append("\n");
                let ex = e.structured_example();
                md.append(ex.as_str());
                md.append("\n\n");
                let ghost next = ns.actions@.subrange(0, j + 1);
                assert(next.drop_last() =~= ns.actions@.subrange(0, j as int));
                assert(md@ =~= head + render_actions(next));
                j = j + 1;
            }
            assert(ns.actions@.subrange(0, j as int) =~= ns.actions@);
            let ghost nexti = nss@.subrange(0, i + 1);
            assert(nexti.drop_last() =~= nss@.subrange(0, i as int));
            assert(md@ =~= render_namespaces(nexti));
            i = i + 1;
        }
        assert(nss@.subrange(0, i as int) =~= nss@);
        md
    }
}

} // verus!

verus! {

/// The state snapshot: the slots in display order, one per line group, then
/// the step banner.
pub open spec fn pretty<A>(s: crate::state::StateView<A>) -> Seq<char> {
    join(storage_blocks(display_order(s.ctx.storages)), seq!['\n']) + seq!['\n'] + banner(
        s.iteration,
        s.max_iterations,
    ) + if s.max_iterations > 0 {
        seq!['\n']
    } else {
        Seq::empty()
    }
}

/// The system prompt: the task's own, the slots, the guidance, the
/// capability catalogue and the step banner.
pub open spec fn system_prompt_text<A>(s: crate::state::StateView<A>) -> Seq<char> {
    s.system_prompt + seq!['\n', '\n'] + join(storage_blocks(s.ctx.storages), seq!['\n', '\n'])
        + seq!['\n', '\n', '#', '#', ' ', 'G', 'u', 'i', 'd', 'a', 'n', 'c', 'e', '\n', '\n'] + join(
        guidance_lines(s.guidance),
        seq!['\n'],
    ) + seq!['\n', '\n'] + render_namespaces(s.namespaces) + banner(
        s.iteration,
        s.max_iterations,
    )
}

impl<A> State<A> {
    /// A readable dump of the slots and the step banner, without the
    /// capability catalogue.
    pub fn to_pretty_string(&self) -> (r: String)
        requires
            self.wf(),
        ensures
            r@ == pretty(self@),
    {
        let storages = self.context().storages();
        let mut blocks: Vec<String> = Vec::new();
        assert(strs_view(blocks@) =~= Seq::<Seq<char>>::empty());
        blocks_of_kind(storages, StorageKind::Single, &mut blocks);
        blocks_of_kind(storages, StorageKind::List, &mut blocks);
        assert(storage_blocks(display_order(storages_view(storages@))) =~= Seq::<Seq<char>>::empty()
            + storage_blocks(of_kind(storages_view(storages@), StorageKind::Single))
            + storage_blocks(of_kind(storages_view(storages@), StorageKind::List)));
        proof {
            reveal_strlit("\n");
            assert("\n"@ =~= seq!['\n']);
        }
        let mut out = join_strings(&blocks, "\n");
        out.append("\n");
        append_banner(&mut out, self.iteration(), self.max_iterations());
        let ghost mid = out@;
        if self.max_iterations() > 0 {
            proof {
                reveal_strlit("\n");
                assert("\n"@ =~= seq!['\n']);
            }
            out.append("\n");
        }
        assert(out@ =~= pretty(self@));
        out
    }

    /// The system prompt for the next model call.
    pub fn to_system_prompt(&self) -> (r: String)
        requires
            self.wf(),
        ensures
            r@ == system_prompt_text(self@),
    {
        proof {
            reveal_strlit("\n\n");
            reveal_strlit("\n\n## Guidance\n\n");
            reveal_strlit("\n");
            reveal_strlit("- ");
            assert("\n"@ =~= seq!['\n']);
            assert("\n\n"@ =~= seq!['\n', '\n']);
            assert("\n\n## Guidance\n\n"@ =~= seq!['\n', '\n', '#', '#', ' ', 'G', 'u', 'i', 'd', 'a', 'n', 'c', 'e', '\n', '\n']);
        }
        let storages = self.context().storages();
        let mut blocks: Vec<String> = Vec::new();
        let mut i: usize = 0;
        while i < storages.len()
            invariant
                i <= storages@.len(),
                strs_view(blocks@) == storage_blocks(storages_view(storages@)).subrange(0, i as int),
            decreases storages@.len() - i,
        {
            let b = storages[i].to_structured_string();
            let ghost pre = strs_view(blocks@);
            let ghost bv = b@;
            blocks.push(b);
            assert(strs_view(blocks@) =~= pre.push(bv));
            assert(strs_view(blocks@) =~= storage_blocks(storages_view(storages@)).subrange(0, i + 1));
            i = i + 1;
        }
        assert(storage_blocks(storages_view(storages@)).subrange(0, i as int) =~= storage_blocks(
            storages_view(storages@),
        ));
        let guidance = self.guidance();
        let mut lines: Vec<String> = Vec::new();
        let mut k: usize = 0;
        while k < guidance.len()
            invariant
                k <= guidance@.len(),
                strs_view(lines@) == guidance_lines(strs_view(guidance@)).subrange(0, k as int),
            decreases guidance@.len() - k,
        {
            proof {
                reveal_strlit("- ");
            }
            let mut line = String::from_str("- ");
            line.append(guidance[k].as_str());
            assert(line@ =~= seq!['-', ' '] + guidance@[k as int]@);
            let ghost pre = strs_view(lines@);
            let ghost lv = line@;
            lines.push(line);
            assert(strs_view(lines@) =~= pre.push(lv));
            assert(strs_view(lines@) =~= guidance_lines(strs_view(guidance@)).subrange(0, k + 1));
            k = k + 1;
        }
        assert(guidance_lines(strs_view(guidance@)).subrange(0, k as int) =~= guidance_lines(
            strs_view(guidance@),
        ));
        let mut out = String::from_str(self.system_prompt().as_str());
        out.append("\n\n");
        let s = join_strings(&blocks, "\n\n");
        out.append(s.as_str());
        out.append("\n\n## Guidance\n\n");
        let g = join_strings(&lines, "\n");
        out.append(g.as_str());
        out.append("\n\n");
        let actions = self.available_actions_to_string();
        out.append(actions.as_str());
        append_banner(&mut out, self.iteration(), self.max_iterations());
        assert(out@ =~= system_prompt_text(self@));
        out
    }
}

} // verus!
