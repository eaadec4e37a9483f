//! What holds of a gadget's life as a whole, whatever comes of the operations.
use vstd::prelude::*;

use crate::gadget::lifecycle::{descriptor_steps, others, owner_steps, step, udc_file, under, GadgetView};
use crate::gadget::steps::{AfterView, OpView, Part, Refusal, ReplyView, StepView};
use crate::gadget::{listed, IdentityView};

verus! {

/// What becomes of a gadget when these replies come, one after the other.
pub open spec fn run(g: GadgetView, replies: Seq<ReplyView>) -> GadgetView
    decreases replies.len(),
{
    if replies.len() == 0 {
        g
    } else {
        run(g, replies.drop_last()).react(replies.last())
    }
}

/// The gadget's own record holds nothing as up.
pub open spec fn all_down(g: GadgetView) -> bool {
    !g.ep0 && !g.mounted && !g.composed && !g.bound
}

// --- the mount stands in the tree ----------------------------------------------

/// With the tree and the mount up or not, the steps ahead keep the mount from
/// being there without the tree.
pub open spec fn mount_in_tree(tree: bool, mount: bool, todo: Seq<StepView>) -> bool
    decreases todo.len(),
{
    &&& mount ==> tree
    &&& todo.len() > 0 ==> {
        let rest = todo.skip(1);
        match todo[0].after {
            AfterView::Gain(why, Part::Tree) => mount_in_tree(true, mount, rest),
            AfterView::Gain(why, Part::Mount) => tree && mount_in_tree(tree, true, rest),
            AfterView::Lose(Part::Tree) => !mount && mount_in_tree(false, mount, rest),
            AfterView::Lose(Part::Mount) => mount_in_tree(tree, false, rest),
            AfterView::Removed { tries, last } => if last {
                !mount && mount_in_tree(false, mount, rest)
            } else {
                mount_in_tree(tree, mount, rest)
            },
            AfterView::PastOwners => rest.len() == 0,
            AfterView::PastOwner(names) => rest.len() == 0,
            _ => mount_in_tree(tree, mount, rest),
        }
    }
}

impl GadgetView {
    /// FunctionFS is mounted only while the configfs tree is up, now and in all
    /// that is still to be done.
    pub open spec fn wf(self) -> bool {
        mount_in_tree(self.composed, self.mounted, self.todo)
    }
}

/// A step that neither brings up nor takes down the tree or the mount.
spec fn neutral(s: StepView) -> bool {
    match s.after {
        AfterView::Gain(why, part) => part != Part::Tree && part != Part::Mount,
        AfterView::Lose(part) => part != Part::Tree && part != Part::Mount,
        AfterView::Removed { tries, last } => !last,
        AfterView::PastOwners => false,
        AfterView::PastOwner(names) => false,
        _ => true,
    }
}

proof fn lemma_neutral(tree: bool, mount: bool, a: Seq<StepView>, rest: Seq<StepView>)
    requires
        forall|i: int| 0 <= i < a.len() ==> neutral(#[trigger] a[i]),
    ensures
        mount_in_tree(tree, mount, a + rest) == mount_in_tree(tree, mount, rest),
    decreases a.len(),
{
    if a.len() == 0 {
        assert(a + rest =~= rest);
    } else {
        assert((a + rest).skip(1) =~= a.skip(1) + rest);
        assert((a + rest)[0] == a[0]);
        assert forall|i: int| 0 <= i < a.skip(1).len() implies neutral(#[trigger] a.skip(1)[i]) by {
            assert(a.skip(1)[i] == a[i + 1]);
        }
        lemma_neutral(tree, mount, a.skip(1), rest);
    }
}

/// The steps that take a gadget down keep the mount in the tree.
proof fn lemma_teardown_keeps_order(g: GadgetView)
    requires
        g.mounted ==> g.composed,
    ensures
        mount_in_tree(g.composed, g.mounted, g.teardown_steps()),
{
    let none = Seq::<StepView>::empty();
    let restore = g.restore_steps();
    assert(restore + none =~= restore);
    assert(mount_in_tree(false, false, none));
    lemma_neutral(false, false, restore, none);
    if g.composed {
        let rem = g.removal_steps();
        let leaves = rem.take(6);
        let tail = seq![rem[6]] + restore;
        assert(tail.skip(1) =~= restore);
        assert(mount_in_tree(true, false, tail));
        lemma_neutral(true, false, leaves, tail);
        let removing = rem + restore;
        assert(removing =~= leaves + tail);
        let un = g.unmount_steps();
        if g.mounted {
            assert((un + removing).skip(1) =~= removing);
        } else {
            assert(un + removing =~= removing);
        }
        assert(mount_in_tree(true, g.mounted, un + removing));
        let start = g.unbind_steps() + g.close_steps();
        lemma_neutral(true, g.mounted, start, un + removing);
        assert(g.teardown_steps() =~= start + (un + removing));
    } else if g.bound || g.ep0 {
        let start = g.unbind_steps() + g.close_steps();
        lemma_neutral(false, false, start, restore);
        assert(g.teardown_steps() =~= start + restore);
    }
}

proof fn lemma_compose_keeps_order(g: GadgetView, id: IdentityView, tail: Seq<StepView>)
    requires
        forall|i: int| 0 <= i < tail.len() ==> neutral(#[trigger] tail[i]),
    ensures
        forall|t: bool, m: bool|
            (m ==> t) ==> #[trigger] mount_in_tree(t, m, g.compose_steps(id) + tail),
{
    let none = Seq::<StepView>::empty();
    let comp = g.compose_steps(id);
    assert(tail + none =~= tail);
    assert forall|t: bool, m: bool| (m ==> t) implies #[trigger] mount_in_tree(t, m, comp + tail) by {
        lemma_neutral(true, true, tail, none);
        assert(mount_in_tree(true, true, none));
        let mount = seq![comp[22]] + tail;
        assert(mount.skip(1) =~= tail);
        assert(mount_in_tree(true, m, mount));
        let middle = comp.subrange(1, 22);
        lemma_neutral(true, m, middle, mount);
        let rest = middle + mount;
        assert((comp + tail).skip(1) =~= rest);
    }
}

/// A gadget starts out well-formed and stays so, whatever is begun and whatever
/// comes of it; so FunctionFS is never mounted without the configfs tree.
pub proof fn law_mounted_only_in_a_tree(
    g: GadgetView,
    name: Seq<char>,
    udc: Seq<char>,
    path: Seq<char>,
    dir: Seq<char>,
    id: IdentityView,
    r: ReplyView,
)
    requires
        g.wf(),
    ensures
        g.mounted ==> g.composed,
        GadgetView::fresh(name, udc).wf(),
        (GadgetView { mount_point: path, ..g }).wf(),
        g.begin(g.setup_steps(id)).wf(),
        g.begin(GadgetView::attach_steps(path, dir, id)).wf(),
        g.begin(g.teardown_steps()).wf(),
        g.begin(g.stale_steps()).wf(),
        g.react(r).wf(),
{
    let none = Seq::<StepView>::empty();
    lemma_teardown_keeps_order(g);
    // setup
    let look = seq![
        GadgetView::configfs_step(),
        step(OpView::Exists(g.gadget_path), AfterView::Absent),
    ];
    let desc = descriptor_steps(g.mount_point, id.interface_name, AfterView::Bind);
    lemma_compose_keeps_order(g, id, desc);
    lemma_neutral(g.composed, g.mounted, look, g.compose_steps(id) + desc);
    assert(g.setup_steps(id) =~= look + (g.compose_steps(id) + desc));
    // attach
    let attach = GadgetView::attach_steps(path, dir, id);
    lemma_neutral(g.composed, g.mounted, attach, none);
    assert(attach + none =~= attach);
    assert(mount_in_tree(g.composed, g.mounted, none));
    // clean up
    lemma_neutral(g.composed, g.mounted, g.stale_steps(), none);
    assert(g.stale_steps() + none =~= g.stale_steps());
    lemma_react_wf(g, r);
}

#[verifier::rlimit(40)]
proof fn lemma_react_wf(g: GadgetView, r: ReplyView)
    requires
        g.wf(),
    ensures
        g.react(r).wf(),
{
    if g.todo.len() > 0 {
        let s = g.todo[0];
        let rest = g.todo.skip(1);
        let h = GadgetView { todo: rest, ..g };
        let none = Seq::<StepView>::empty();
        match s.after {
            AfterView::Configfs => {
                lemma_neutral(g.composed, g.mounted, GadgetView::mount_configfs_steps(), rest);
            },
            AfterView::Owners => {
                let names = others(
                    listed(r.names()),
                    g.name,
                );
                lemma_neutral(g.composed, g.mounted, owner_steps(names), rest);
            },
            AfterView::Owner(p) => {
                let take = seq![
                    step(
                        OpView::Write { path: udc_file(p), value: "\n"@ },
                        AfterView::Taken(p),
                    ),
                ];
                lemma_neutral(g.composed, g.mounted, take, rest);
            },
            AfterView::Bind => {
                lemma_neutral(g.composed, g.mounted, h.bind_steps(), rest);
            },
            AfterView::BindTo(dir) => {
                let b = GadgetView { gadget_path: dir, ..h };
                lemma_neutral(g.composed, g.mounted, b.bind_steps(), rest);
            },
            AfterView::Removed { tries, last } => {
                if !r.worked(s.op) {
                    let again = h.retry(s.op, tries, last).todo;
                    assert(again.skip(1) =~= if tries > 1 {
                        seq![
                            step(s.op, AfterView::Removed { tries: (tries - 1) as u8, last }),
                        ] + rest
                    } else {
                        rest
                    });
                    if tries > 1 {
                        assert(again.skip(1).skip(1) =~= rest);
                        assert(mount_in_tree(g.composed, g.mounted, again.skip(1)));
                    }
                }
            },
            AfterView::StaleTree => {
                assert(h.clean_up().todo.skip(1) =~= none);
            },
            AfterView::StaleMount => {
                assert(h.clean_up().todo.skip(1) =~= none);
            },
            AfterView::PastOwners => {
                lemma_guess_wf(
                    h,
                    others(listed(r.names()), g.name),
                );
            },
            AfterView::PastOwner(names) => {
                if names.len() > 0 {
                    lemma_guess_wf(GadgetView { prev_gadget: names[0], ..h }, Seq::empty());
                    lemma_guess_wf(h, names.skip(1));
                }
            },
            _ => {},
        }
    }
}

proof fn lemma_guess_wf(g: GadgetView, names: Seq<Seq<char>>)
    requires
        g.mounted ==> g.composed,
        g.todo.len() == 0,
    ensures
        g.guess(names).wf(),
{
    let none = Seq::<StepView>::empty();
    assert(g.todo =~= none);
    lemma_teardown_keeps_order(g);
    assert(g.teardown_steps() + none =~= g.teardown_steps());
    if names.len() > 0 {
        assert(g.guess(names).todo.skip(1) =~= none);
    }
}

// --- teardown -------------------------------------------------------------------

/// A step that takes a part down, whatever comes of it or in the end.
pub open spec fn takes_down(s: StepView, part: Part) -> bool {
    match s.after {
        AfterView::Lose(p) => p == part,
        AfterView::Removed { tries, last } => last && part == Part::Tree,
        _ => false,
    }
}

/// A step of a teardown.
spec fn is_down(s: StepView) -> bool {
    s.after is Ignore || s.after is Lose || s.after is Removed || s.after is HandedBack
}

/// Some step ahead takes the part down.
spec fn ends(todo: Seq<StepView>, part: Part) -> bool {
    exists|i: int| 0 <= i < todo.len() && takes_down(#[trigger] todo[i], part)
}

/// The gadget is on its way down, and will arrive.
spec fn going_down(g: GadgetView) -> bool {
    &&& g.refused is None
    &&& forall|i: int| 0 <= i < g.todo.len() ==> is_down(#[trigger] g.todo[i])
    &&& forall|part: Part| #[trigger] g.has(part) ==> ends(g.todo, part)
}

/// At most how many replies a step takes.
spec fn weight(s: StepView) -> int {
    match s.after {
        AfterView::Removed { tries, last } => if tries > 1 {
            2 * tries
        } else {
            2
        },
        _ => 1,
    }
}

/// At most how many replies the steps take.
spec fn total_weight(todo: Seq<StepView>) -> int
    decreases todo.len(),
{
    if todo.len() == 0 {
        0
    } else {
        weight(todo[0]) + total_weight(todo.skip(1))
    }
}

proof fn lemma_total_weight(a: Seq<StepView>, b: Seq<StepView>)
    ensures
        total_weight(a) >= 0,
        total_weight(a + b) == total_weight(a) + total_weight(b),
    decreases a.len(),
{
    if a.len() == 0 {
        assert(a + b =~= b);
    } else {
        assert((a + b).skip(1) =~= a.skip(1) + b);
        lemma_total_weight(a.skip(1), b);
    }
}

proof fn lemma_ends_rest(todo: Seq<StepView>, part: Part)
    requires
        ends(todo, part),
        !takes_down(todo[0], part),
    ensures
        ends(todo.skip(1), part),
{
    let i = choose|i: int| 0 <= i < todo.len() && takes_down(#[trigger] todo[i], part);
    assert(todo.skip(1)[i - 1] == todo[i]);
}

proof fn lemma_ends_sum(a: Seq<StepView>, b: Seq<StepView>, part: Part)
    ensures
        ends(a, part) ==> ends(a + b, part),
        ends(b, part) ==> ends(a + b, part),
{
    if ends(a, part) {
        let i = choose|i: int| 0 <= i < a.len() && takes_down(#[trigger] a[i], part);
        assert((a + b)[i] == a[i]);
    }
    if ends(b, part) {
        let i = choose|i: int| 0 <= i < b.len() && takes_down(#[trigger] b[i], part);
        assert((a + b)[a.len() + i] == b[i]);
    }
}

/// A reply keeps a gadget on its way down, and brings it nearer to the end.
proof fn lemma_react_down(g: GadgetView, r: ReplyView)
    requires
        going_down(g),
    ensures
        going_down(g.react(r)),
        g.todo.len() > 0 ==> total_weight(g.react(r).todo) < total_weight(g.todo),
{
    if g.todo.len() == 0 {
        return;
    }
    let s = g.todo[0];
    let rest = g.todo.skip(1);
    let h = GadgetView { todo: rest, ..g };
    let t = g.react(r);
    assert(is_down(s));
    assert forall|i: int| 0 <= i < rest.len() implies is_down(#[trigger] rest[i]) by {
        assert(rest[i] == g.todo[i + 1]);
    }
    assert forall|part: Part| #[trigger] t.has(part) implies ends(t.todo, part) by {
        assert(g.has(part));
        if !takes_down(s, part) {
            lemma_ends_rest(g.todo, part);
            assert(ends(rest, part));
        }
        if let AfterView::Removed { tries, last } = s.after {
            if !r.worked(s.op) {
                let front = t.todo.take(t.todo.len() - rest.len());
                assert(t.todo =~= front + rest);
                if takes_down(s, part) {
                    assert(takes_down(front.last(), part));
                    assert(ends(front, part));
                }
                lemma_ends_sum(front, rest, part);
            }
        }
    }
    if let AfterView::Removed { tries, last } = s.after {
        if !r.worked(s.op) {
            let front = t.todo.take(t.todo.len() - rest.len());
            assert(t.todo =~= front + rest);
            lemma_total_weight(front, rest);
            if tries > 1 {
                assert(total_weight(front.skip(1).skip(1)) == 0);
                assert(total_weight(front.skip(1)) == weight(front[1]));
            } else {
                assert(total_weight(front.skip(1)) == 0);
            }
            assert(total_weight(front) == 1 + total_weight(front.skip(1)));
        }
    }
}

proof fn lemma_run_down(g: GadgetView, replies: Seq<ReplyView>)
    requires
        going_down(g),
    ensures
        going_down(run(g, replies)),
        run(g, replies).todo.len() == 0 || total_weight(run(g, replies).todo) + replies.len()
            <= total_weight(g.todo),
    decreases replies.len(),
{
    if replies.len() > 0 {
        lemma_run_down(g, replies.drop_last());
        lemma_react_down(run(g, replies.drop_last()), replies.last());
    }
}

proof fn lemma_removal_weight(g: GadgetView)
    ensures
        total_weight(g.removal_steps()) == 202,
{
    let d = g.removal_steps();
    assert(total_weight(d.skip(7)) == 0);
    assert(d.skip(6).skip(1) =~= d.skip(7));
    assert(d.skip(5).skip(1) =~= d.skip(6));
    assert(d.skip(4).skip(1) =~= d.skip(5));
    assert(d.skip(3).skip(1) =~= d.skip(4));
    assert(d.skip(2).skip(1) =~= d.skip(3));
    assert(d.skip(1).skip(1) =~= d.skip(2));
    assert(total_weight(d.skip(6)) == 40);
    assert(total_weight(d.skip(5)) == 80);
    assert(total_weight(d.skip(4)) == 120);
    assert(total_weight(d.skip(3)) == 160);
    assert(total_weight(d.skip(2)) == 200);
    assert(total_weight(d.skip(1)) == 201);
}

proof fn lemma_teardown_weight(g: GadgetView)
    ensures
        total_weight(g.teardown_steps()) <= 207,
{
    let a = g.unbind_steps();
    let b = g.close_steps();
    let c = g.unmount_steps();
    let d = g.removal_steps();
    let e = g.restore_steps();
    assert(total_weight(a) <= 2) by {
        if g.bound {
            assert(total_weight(a.skip(1).skip(1)) == 0);
            assert(total_weight(a.skip(1)) == 1);
        }
    }
    assert(total_weight(b) <= 1) by {
        if g.ep0 {
            assert(total_weight(b.skip(1)) == 0);
        }
    }
    assert(total_weight(c) <= 1) by {
        if g.mounted {
            assert(total_weight(c.skip(1)) == 0);
        }
    }
    assert(total_weight(e) <= 1) by {
        if e.len() > 0 {
            assert(total_weight(e.skip(1)) == 0);
        }
    }
    lemma_removal_weight(g);
    lemma_total_weight(a, b);
    lemma_total_weight(a + b, c);
    lemma_total_weight(a + b + c, d);
    lemma_total_weight(a + b + c + d, e);
    lemma_total_weight(a + b, e);
}

proof fn lemma_teardown_start(g: GadgetView)
    requires
        g.mounted ==> g.composed,
    ensures
        going_down(g.begin(g.teardown_steps())),
{
    let t = g.begin(g.teardown_steps());
    let a = g.unbind_steps();
    let b = g.close_steps();
    let c = g.unmount_steps();
    let d = g.removal_steps();
    let e = g.restore_steps();
    assert forall|part: Part| #[trigger] t.has(part) implies ends(t.todo, part) by {
        if g.bound {
            assert(takes_down(a[0], Part::Bond));
        }
        if g.ep0 {
            assert(takes_down(b[0], Part::Ep0));
        }
        if g.mounted {
            assert(takes_down(c[0], Part::Mount));
        }
        assert(takes_down(d[6], Part::Tree));
        lemma_ends_sum(a, b, part);
        lemma_ends_sum(a + b, c, part);
        lemma_ends_sum(a + b + c, d, part);
        lemma_ends_sum(a + b + c + d, e, part);
        lemma_ends_sum(a + b, e, part);
    }
}

/// A teardown is never given up: whatever comes of its operations, it ends, and
/// the gadget's own record holds nothing as up then. What the system refuses to
/// let go of after every try, such as a directory that stays busy, is taken off
/// the record all the same.
pub proof fn law_teardown_leaves_nothing(g: GadgetView, replies: Seq<ReplyView>)
    requires
        g.wf(),
    ensures
        ({
            let t = run(g.begin(g.teardown_steps()), replies);
            &&& t.refused is None
            &&& replies.len() >= 207 ==> t.todo.len() == 0
            &&& t.todo.len() == 0 ==> all_down(t)
        }),
{
    let start = g.begin(g.teardown_steps());
    lemma_teardown_start(g);
    lemma_teardown_weight(g);
    lemma_run_down(start, replies);
    let t = run(start, replies);
    lemma_total_weight(t.todo, Seq::empty());
    if t.todo.len() > 0 {
        assert(weight(t.todo[0]) > 0);
        lemma_total_weight(t.todo.skip(1), Seq::empty());
    } else {
        assert(!t.has(Part::Tree) && !t.has(Part::Mount) && !t.has(Part::Ep0) && !t.has(Part::Bond));
    }
}

/// The operation is among the steps.
pub open spec fn does(steps: Seq<StepView>, op: OpView) -> bool {
    exists|i: int| 0 <= i < steps.len() && (#[trigger] steps[i]).op == op
}

/// Every directory that is made when a gadget is composed is among those to be
/// removed, and no other is.
proof fn lemma_removal_undoes_compose(g: GadgetView, id: IdentityView, path: Seq<char>)
    ensures
        does(g.compose_steps(id), OpView::MakeDir(path)) <==> does(
            g.removal_steps(),
            OpView::RemoveDir(path),
        ),
{
    let up = g.compose_steps(id);
    let down = g.removal_steps();
    if does(up, OpView::MakeDir(path)) {
        let i = choose|i: int| 0 <= i < up.len() && (#[trigger] up[i]).op == OpView::MakeDir(path);
        assert(i == 0 || i == 10 || i == 14 || i == 15 || i == 19 || i == 21);
        let j: int = if i == 0 {
            6
        } else if i == 10 {
            5
        } else if i == 14 {
            3
        } else if i == 15 {
            2
        } else if i == 19 {
            4
        } else {
            0
        };
        assert(down[j].op == OpView::RemoveDir(path));
    }
    if does(down, OpView::RemoveDir(path)) {
        let j = choose|j: int|
            0 <= j < down.len() && (#[trigger] down[j]).op == OpView::RemoveDir(path);
        let i: int = if j == 6 {
            0
        } else if j == 5 {
            10
        } else if j == 3 {
            14
        } else if j == 2 {
            15
        } else if j == 4 {
            19
        } else {
            21
        };
        assert(up[i].op == OpView::MakeDir(path));
    }
}

/// A teardown writes to no file but the gadget's own binding, which it clears,
/// and that of the gadget which the controller was taken from, which gets it
/// back. A run that took nothing restores nothing.
pub proof fn law_hands_back_only_what_was_taken(g: GadgetView, path: Seq<char>, value: Seq<char>)
    ensures
        does(g.teardown_steps(), OpView::Write { path, value }) ==> {
            ||| path == under(g.gadget_path, "UDC"@) && value == "\n"@
            ||| g.prev_gadget.len() > 0 && path == udc_file(g.prev_gadget) && value == g.udc
        },
        g.prev_gadget.len() > 0 && g.udc.len() > 0 && (g.composed || g.bound || g.ep0) ==> does(
            g.teardown_steps(),
            OpView::Write { path: udc_file(g.prev_gadget), value: g.udc },
        ),
{
    let all = g.teardown_steps();
    if g.prev_gadget.len() > 0 && g.udc.len() > 0 && (g.composed || g.bound || g.ep0) {
        assert(all.last() == g.restore_steps()[0]);
    }
}

// --- bringing up ----------------------------------------------------------------

/// A step on the way up.
spec fn is_up(s: StepView, name: Seq<char>) -> bool {
    match s.after {
        AfterView::Lose(part) => false,
        AfterView::Removed { tries, last } => false,
        AfterView::StaleTree => false,
        AfterView::StaleMount => false,
        AfterView::PastOwners => false,
        AfterView::PastOwner(names) => false,
        AfterView::HandedBack => false,
        AfterView::Owner(p) => s.op == OpView::Read(udc_file(p)) && p != name,
        AfterView::Taken(p) => s.op == (OpView::Write { path: udc_file(p), value: "\n"@ }) && p
            != name,
        _ => true,
    }
}

/// The gadget is on its way up, or the way was given up.
spec fn going_up(g: GadgetView) -> bool {
    &&& forall|i: int| 0 <= i < g.todo.len() ==> is_up(#[trigger] g.todo[i], g.name)
    &&& g.refused is Some ==> g.todo.len() == 0
}

proof fn lemma_others(names: Seq<Seq<char>>, name: Seq<char>)
    ensures
        forall|i: int| 0 <= i < others(names, name).len() ==> #[trigger] others(names, name)[i]
            != name,
    decreases names.len(),
{
    if names.len() > 0 {
        lemma_others(names.drop_last(), name);
        let before = others(names.drop_last(), name);
        let all = others(names, name);
        assert forall|i: int| 0 <= i < all.len() implies #[trigger] all[i] != name by {
            if i < before.len() {
                assert(all[i] == before[i]);
            }
        }
    }
}

/// A reply keeps a gadget on its way up.
#[verifier::rlimit(40)]
proof fn lemma_react_up(g: GadgetView, r: ReplyView)
    requires
        going_up(g),
    ensures
        going_up(g.react(r)),
        g.react(r).name == g.name,
        g.react(r).udc == g.udc,
{
    if g.todo.len() > 0 {
        assert(is_up(g.todo[0], g.name));
        assert forall|i: int| 0 <= i < g.todo.skip(1).len() implies is_up(
            #[trigger] g.todo.skip(1)[i],
            g.name,
        ) by {
            assert(g.todo.skip(1)[i] == g.todo[i + 1]);
        }
        lemma_others(listed(r.names()), g.name);
    }
}

proof fn lemma_run_up(g: GadgetView, replies: Seq<ReplyView>)
    requires
        going_up(g),
    ensures
        going_up(run(g, replies)),
        run(g, replies).name == g.name,
        run(g, replies).udc == g.udc,
    decreases replies.len(),
{
    if replies.len() > 0 {
        lemma_run_up(g, replies.drop_last());
        lemma_react_up(run(g, replies.drop_last()), replies.last());
    }
}

/// A step that brings a part up, or leads to it.
spec fn brings_up(s: StepView, part: Part) -> bool {
    match s.after {
        AfterView::Gain(why, p) => p == part,
        AfterView::Bind => part == Part::Bond,
        AfterView::BindTo(dir) => part == Part::Bond,
        _ => false,
    }
}

/// The part is up, or a step ahead brings it up, unless the way was given up.
spec fn comes(g: GadgetView, part: Part) -> bool {
    ||| g.refused is Some
    ||| g.has(part)
    ||| exists|i: int| 0 <= i < g.todo.len() && brings_up(#[trigger] g.todo[i], part)
}

#[verifier::rlimit(60)]
proof fn lemma_react_comes(g: GadgetView, r: ReplyView, part: Part)
    requires
        going_up(g),
        comes(g, part),
    ensures
        comes(g.react(r), part),
{
    if g.todo.len() > 0 && g.refused is None {
        let s = g.todo[0];
        let rest = g.todo.skip(1);
        let h = GadgetView { todo: rest, ..g };
        let t = g.react(r);
        assert(is_up(s, g.name));
        if t.refused is None && !t.has(part) {
            assert(!g.has(part));
            let i = choose|i: int| 0 <= i < g.todo.len() && brings_up(#[trigger] g.todo[i], part);
            if i > 0 {
                assert(rest[i - 1] == g.todo[i]);
                let front = t.todo.len() - rest.len();
                assert(t.todo[front + i - 1] == rest[i - 1]);
            } else {
                assert(brings_up(t.todo[1], part));
            }
        }
    }
}

proof fn lemma_run_comes(g: GadgetView, replies: Seq<ReplyView>, part: Part)
    requires
        going_up(g),
        comes(g, part),
    ensures
        comes(run(g, replies), part),
    decreases replies.len(),
{
    if replies.len() > 0 {
        lemma_run_comes(g, replies.drop_last(), part);
        lemma_run_up(g, replies.drop_last());
        lemma_react_comes(run(g, replies.drop_last()), replies.last(), part);
    }
}

/// A setup that ran to its end and was not given up has brought up everything:
/// the tree, the mount, ep0 and the bond with the controller.
pub proof fn law_setup_brings_everything_up(
    g: GadgetView,
    id: IdentityView,
    replies: Seq<ReplyView>,
)
    ensures
        ({
            let t = run(g.begin(g.setup_steps(id)), replies);
            t.todo.len() == 0 && t.refused is None ==> t.ep0 && t.mounted && t.composed && t.bound
        }),
{
    let start = g.begin(g.setup_steps(id));
    let t = run(start, replies);
    assert(brings_up(start.todo[2], Part::Tree));
    assert(brings_up(start.todo[24], Part::Mount));
    assert(brings_up(start.todo[25], Part::Ep0));
    assert(brings_up(start.todo[27], Part::Bond));
    lemma_run_comes(start, replies, Part::Tree);
    lemma_run_comes(start, replies, Part::Mount);
    lemma_run_comes(start, replies, Part::Ep0);
    lemma_run_comes(start, replies, Part::Bond);
}

/// An attachment that ran to its end and was not given up has opened ep0, and
/// has bound the gadget if one was named.
pub proof fn law_attach_brings_its_part_up(
    g: GadgetView,
    ffs_path: Seq<char>,
    gadget_dir: Seq<char>,
    id: IdentityView,
    replies: Seq<ReplyView>,
)
    ensures
        ({
            let t = run(g.begin(GadgetView::attach_steps(ffs_path, gadget_dir, id)), replies);
            t.todo.len() == 0 && t.refused is None ==> t.ep0 && (gadget_dir.len() > 0 ==> t.bound)
        }),
{
    let start = g.begin(GadgetView::attach_steps(ffs_path, gadget_dir, id));
    assert(brings_up(start.todo[1], Part::Ep0));
    lemma_run_comes(start, replies, Part::Ep0);
    if gadget_dir.len() > 0 {
        assert(brings_up(start.todo[4], Part::Bond));
        lemma_run_comes(start, replies, Part::Bond);
    }
}

/// Nothing went wrong with a step: what had to work worked, and what must not
/// be there is not.
pub open spec fn went_well(s: StepView, r: ReplyView) -> bool {
    match s.after {
        AfterView::Absent => !r.worked(s.op),
        AfterView::Ignore => true,
        AfterView::Configfs => true,
        AfterView::Owners => true,
        AfterView::Owner(g) => true,
        AfterView::CheckBcd => true,
        _ => r.worked(s.op),
    }
}

/// Nothing went wrong on the way.
pub open spec fn all_went_well(g: GadgetView, replies: Seq<ReplyView>) -> bool
    decreases replies.len(),
{
    if replies.len() == 0 {
        true
    } else {
        let before = run(g, replies.drop_last());
        &&& all_went_well(g, replies.drop_last())
        &&& before.todo.len() > 0 ==> went_well(before.todo[0], replies.last())
    }
}

proof fn lemma_run_well(g: GadgetView, replies: Seq<ReplyView>)
    requires
        going_up(g),
        g.refused is None,
        g.identity_ok,
        g.udc.len() > 0,
        all_went_well(g, replies),
    ensures
        run(g, replies).refused is None,
        run(g, replies).identity_ok,
    decreases replies.len(),
{
    if replies.len() > 0 {
        let before = run(g, replies.drop_last());
        lemma_run_well(g, replies.drop_last());
        lemma_run_up(g, replies.drop_last());
        if before.todo.len() > 0 {
            assert(is_up(before.todo[0], before.name));
        }
    }
}

// --- what was made is undone ------------------------------------------------------

/// A step that leaves the gadget's paths alone.
spec fn keeps_paths(s: StepView) -> bool {
    !(s.after is Adopt || s.after is BindTo)
}

proof fn lemma_run_keeps_paths(g: GadgetView, replies: Seq<ReplyView>)
    requires
        going_up(g),
        forall|i: int| 0 <= i < g.todo.len() ==> keeps_paths(#[trigger] g.todo[i]),
    ensures
        ({
            let t = run(g, replies);
            &&& t.name == g.name
            &&& t.gadget_path == g.gadget_path
            &&& t.mount_point == g.mount_point
            &&& forall|i: int| 0 <= i < t.todo.len() ==> keeps_paths(#[trigger] t.todo[i])
        }),
    decreases replies.len(),
{
    if replies.len() > 0 {
        let b = run(g, replies.drop_last());
        lemma_run_keeps_paths(g, replies.drop_last());
        lemma_run_up(g, replies.drop_last());
        if b.todo.len() > 0 {
            assert(keeps_paths(b.todo[0]));
            assert(is_up(b.todo[0], b.name));
            assert forall|i: int| 0 <= i < b.todo.skip(1).len() implies keeps_paths(
                #[trigger] b.todo.skip(1)[i],
            ) by {
                assert(b.todo.skip(1)[i] == b.todo[i + 1]);
            }
        }
    }
}

/// A setup makes directories and the link only when it composes.
proof fn lemma_setup_makes(g: GadgetView, id: IdentityView, path: Seq<char>)
    ensures
        does(g.setup_steps(id), OpView::MakeDir(path)) <==> does(
            g.compose_steps(id),
            OpView::MakeDir(path),
        ),
        does(g.setup_steps(id), OpView::Link { target: g.function_dir(), path: g.function_link() }),
{
    let made = g.setup_steps(id);
    let comp = g.compose_steps(id);
    assert forall|i: int| 0 <= i < comp.len() implies #[trigger] comp[i] == made[i + 2] by {}
    if does(comp, OpView::MakeDir(path)) {
        let i = choose|i: int|
            0 <= i < comp.len() && (#[trigger] comp[i]).op == OpView::MakeDir(path);
        assert(made[i + 2].op == OpView::MakeDir(path));
    }
    if does(made, OpView::MakeDir(path)) {
        let i = choose|i: int|
            0 <= i < made.len() && (#[trigger] made[i]).op == OpView::MakeDir(path);
        assert(2 <= i < 25);
        assert(comp[i - 2].op == OpView::MakeDir(path));
    }
    assert(comp[20] == made[22]);
}

proof fn lemma_does_sum(a: Seq<StepView>, b: Seq<StepView>, op: OpView)
    ensures
        does(a + b, op) <==> does(a, op) || does(b, op),
{
    let all = a + b;
    if does(a, op) {
        let i = choose|i: int| 0 <= i < a.len() && (#[trigger] a[i]).op == op;
        assert(all[i].op == op);
    }
    if does(b, op) {
        let i = choose|i: int| 0 <= i < b.len() && (#[trigger] b[i]).op == op;
        assert(all[a.len() + i].op == op);
    }
    if does(all, op) {
        let i = choose|i: int| 0 <= i < all.len() && (#[trigger] all[i]).op == op;
        if i < a.len() {
            assert(a[i].op == op);
        } else {
            assert(b[i - a.len()].op == op);
        }
    }
}

/// What a teardown does, it does in one of its parts.
proof fn lemma_teardown_does(t: GadgetView, op: OpView)
    ensures
        t.composed ==> (does(t.teardown_steps(), op) <==> does(t.unbind_steps(), op) || does(
            t.close_steps(),
            op,
        ) || does(t.unmount_steps(), op) || does(t.removal_steps(), op) || does(
            t.restore_steps(),
            op,
        )),
        !t.composed && does(t.teardown_steps(), op) ==> does(t.unbind_steps(), op) || does(
            t.close_steps(),
            op,
        ) || does(t.restore_steps(), op),
{
    let a = t.unbind_steps();
    let b = t.close_steps();
    let c = t.unmount_steps();
    let d = t.removal_steps();
    let e = t.restore_steps();
    lemma_does_sum(a, b, op);
    lemma_does_sum(a + b, c, op);
    lemma_does_sum(a + b + c, d, op);
    lemma_does_sum(a + b + c + d, e, op);
    lemma_does_sum(a + b, e, op);
}

/// However far a setup came, the teardown after it undoes it completely: every
/// directory that the setup makes is removed, the link too, FunctionFS is
/// unmounted if it was mounted; and nothing is removed that the setup does not
/// make.
pub proof fn law_teardown_undoes_setup(
    g: GadgetView,
    id: IdentityView,
    replies: Seq<ReplyView>,
    path: Seq<char>,
)
    ensures
        ({
            let made = g.setup_steps(id);
            let t = run(g.begin(made), replies);
            let undone = t.teardown_steps();
            &&& does(undone, OpView::RemoveDir(path)) <==> t.composed && does(
                made,
                OpView::MakeDir(path),
            )
            &&& does(undone, OpView::Unlink(path)) <==> t.composed && path == g.function_link()
            &&& does(made, OpView::Link { target: g.function_dir(), path: g.function_link() })
            &&& does(undone, OpView::Detach(path)) <==> t.composed && t.mounted && path
                == g.mount_point
        }),
{
    let start = g.begin(g.setup_steps(id));
    let t = run(start, replies);
    lemma_run_keeps_paths(start, replies);
    lemma_removal_undoes_compose(g, id, path);
    lemma_setup_makes(g, id, path);
    assert(t.removal_steps() == g.removal_steps());
    lemma_teardown_does(t, OpView::RemoveDir(path));
    lemma_teardown_does(t, OpView::Unlink(path));
    lemma_teardown_does(t, OpView::Detach(path));
    let rem = t.removal_steps();
    assert(rem[1].op == OpView::Unlink(g.function_link()));
    if t.mounted {
        assert(t.unmount_steps()[0].op == OpView::Detach(g.mount_point));
    }
}

// --- whose controller it was ----------------------------------------------------

/// On the way, the file of gadget `p` was read and said that `p` has the
/// controller.
pub open spec fn had_it(g: GadgetView, replies: Seq<ReplyView>, p: Seq<char>) -> bool {
    exists|i: int|
        {
            let at = #[trigger] run(g, replies.take(i));
            &&& 0 <= i < replies.len()
            &&& at.todo.len() > 0
            &&& at.todo[0].op == OpView::Read(udc_file(p))
            &&& replies[i].text() == g.udc
        }
}

/// On the way, gadget `p` was unbound.
pub open spec fn was_unbound(g: GadgetView, replies: Seq<ReplyView>, p: Seq<char>) -> bool {
    exists|i: int|
        {
            let at = #[trigger] run(g, replies.take(i));
            &&& 0 <= i < replies.len()
            &&& at.todo.len() > 0
            &&& at.todo[0].op == (OpView::Write { path: udc_file(p), value: "\n"@ })
            &&& replies[i].worked(at.todo[0].op)
        }
}

proof fn lemma_history_grows(g: GadgetView, replies: Seq<ReplyView>, p: Seq<char>)
    requires
        replies.len() > 0,
    ensures
        had_it(g, replies.drop_last(), p) ==> had_it(g, replies, p),
        was_unbound(g, replies.drop_last(), p) ==> was_unbound(g, replies, p),
{
    let shorter = replies.drop_last();
    assert forall|i: int| 0 <= i < shorter.len() implies #[trigger] run(g, shorter.take(i)) == run(
        g,
        replies.take(i),
    ) by {
        assert(shorter.take(i) =~= replies.take(i));
    }
    if had_it(g, shorter, p) {
        let i = choose|i: int|
            {
                let at = #[trigger] run(g, shorter.take(i));
                &&& 0 <= i < shorter.len()
                &&& at.todo.len() > 0
                &&& at.todo[0].op == OpView::Read(udc_file(p))
                &&& shorter[i].text() == g.udc
            };
        assert(run(g, replies.take(i)) == run(g, shorter.take(i)));
    }
    if was_unbound(g, shorter, p) {
        let i = choose|i: int|
            {
                let at = #[trigger] run(g, shorter.take(i));
                &&& 0 <= i < shorter.len()
                &&& at.todo.len() > 0
                &&& at.todo[0].op == (OpView::Write { path: udc_file(p), value: "\n"@ })
                &&& shorter[i].worked(at.todo[0].op)
            };
        assert(run(g, replies.take(i)) == run(g, shorter.take(i)));
    }
}

/// What is to be unbound had the controller, and so had what was unbound.
spec fn taken_from_owner(g: GadgetView, replies: Seq<ReplyView>) -> bool {
    let t = run(g, replies);
    &&& forall|i: int|
        0 <= i < t.todo.len() ==> match (#[trigger] t.todo[i]).after {
            AfterView::Taken(p) => had_it(g, replies, p),
            _ => true,
        }
    &&& t.prev_gadget.len() > 0 ==> {
        &&& had_it(g, replies, t.prev_gadget)
        &&& was_unbound(g, replies, t.prev_gadget)
        &&& t.prev_gadget != g.name
    }
}

#[verifier::rlimit(60)]
proof fn lemma_taken_from_owner(g: GadgetView, replies: Seq<ReplyView>)
    requires
        going_up(g),
        g.prev_gadget.len() == 0,
        forall|i: int| 0 <= i < g.todo.len() ==> !((#[trigger] g.todo[i]).after is Taken),
    ensures
        taken_from_owner(g, replies),
    decreases replies.len(),
{
    if replies.len() > 0 {
        let shorter = replies.drop_last();
        let r = replies.last();
        let b = run(g, shorter);
        let t = b.react(r);
        lemma_taken_from_owner(g, shorter);
        lemma_run_up(g, shorter);
        assert(replies.take(replies.len() - 1) =~= shorter);
        assert(run(g, replies.take(replies.len() - 1)) == b);
        assert forall|p: Seq<char>| had_it(g, shorter, p) implies #[trigger] had_it(g, replies, p) by {
            lemma_history_grows(g, replies, p);
        }
        lemma_history_grows(g, replies, b.prev_gadget);
        if b.todo.len() > 0 {
            let s = b.todo[0];
            let rest = b.todo.skip(1);
            assert(is_up(s, g.name));
            assert forall|i: int| 0 <= i < rest.len() implies match (#[trigger] rest[i]).after {
                AfterView::Taken(p) => had_it(g, replies, p),
                _ => true,
            } by {
                assert(rest[i] == b.todo[i + 1]);
                if let AfterView::Taken(p) = rest[i].after {
                    assert(had_it(g, shorter, p));
                }
            }
            if let AfterView::Owner(p) = s.after {
                if r.text() == b.udc {
                    assert(had_it(g, replies, p));
                }
            }
            if let AfterView::Taken(p) = s.after {
                assert(had_it(g, shorter, p));
                if r.worked(s.op) {
                    assert(was_unbound(g, replies, p));
                }
            }
        }
    }
}

/// The gadget on record as the previous owner is another one, it had the
/// controller, and it was unbound from it. So the controller can only be handed
/// to the gadget that it was taken from.
pub proof fn law_previous_owner_had_the_controller(
    g: GadgetView,
    ffs_path: Seq<char>,
    gadget_dir: Seq<char>,
    id: IdentityView,
    replies: Seq<ReplyView>,
)
    requires
        g.prev_gadget.len() == 0,
    ensures
        ({
            let up = g.begin(g.setup_steps(id));
            let p = run(up, replies).prev_gadget;
            p.len() > 0 ==> p != g.name && had_it(up, replies, p) && was_unbound(up, replies, p)
        }),
        ({
            let at = g.begin(GadgetView::attach_steps(ffs_path, gadget_dir, id));
            let p = run(at, replies).prev_gadget;
            p.len() > 0 ==> p != g.name && had_it(at, replies, p) && was_unbound(at, replies, p)
        }),
{
    lemma_taken_from_owner(g.begin(g.setup_steps(id)), replies);
    lemma_taken_from_owner(
        g.begin(GadgetView::attach_steps(ffs_path, gadget_dir, id)),
        replies,
    );
}

// --- attaching leaves the rest alone ----------------------------------------------

/// A step of an attachment; with nothing to bind, one that only looks, opens
/// ep0 or writes to it.
spec fn is_attachment(s: StepView, binds: bool) -> bool {
    &&& !(s.op is MakeDir || s.op is Link || s.op is Mount || s.op is RemoveDir || s.op is Unlink
        || s.op is Detach)
    &&& match s.after {
        AfterView::Require(why) => true,
        AfterView::Gain(why, part) => part == Part::Ep0 || (binds && part == Part::Bond),
        AfterView::Adopt(path) => true,
        AfterView::Ignore => binds,
        AfterView::Owners => binds,
        AfterView::Owner(p) => binds,
        AfterView::Taken(p) => binds,
        AfterView::BindTo(dir) => binds,
        AfterView::CheckBcd => binds,
        _ => false,
    }
    &&& !binds ==> s.op is Exists || s.op is OpenEp0 || s.op is WriteEp0
}

spec fn attaching(g: GadgetView, t: GadgetView, binds: bool) -> bool {
    &&& forall|i: int| 0 <= i < t.todo.len() ==> is_attachment(#[trigger] t.todo[i], binds)
    &&& t.composed == g.composed
    &&& t.mounted == g.mounted
    &&& !binds ==> t.bound == g.bound && t.prev_gadget == g.prev_gadget
}

proof fn lemma_react_attaching(g: GadgetView, t: GadgetView, binds: bool, r: ReplyView)
    requires
        attaching(g, t, binds),
    ensures
        attaching(g, t.react(r), binds),
{
    if t.todo.len() > 0 {
        assert(is_attachment(t.todo[0], binds));
        assert forall|i: int| 0 <= i < t.todo.skip(1).len() implies is_attachment(
            #[trigger] t.todo.skip(1)[i],
            binds,
        ) by {
            assert(t.todo.skip(1)[i] == t.todo[i + 1]);
        }
    }
}

proof fn lemma_run_attaching(
    g: GadgetView,
    start: GadgetView,
    binds: bool,
    replies: Seq<ReplyView>,
)
    requires
        attaching(g, start, binds),
    ensures
        attaching(g, run(start, replies), binds),
    decreases replies.len(),
{
    if replies.len() > 0 {
        lemma_run_attaching(g, start, binds, replies.drop_last());
        lemma_react_attaching(g, run(start, replies.drop_last()), binds, replies.last());
    }
}

/// Attaching makes and mounts nothing, so a teardown after it removes and
/// unmounts nothing either. With no gadget named it does not even touch the
/// controller: all it does, now and later, is to look, to open ep0 and to write
/// to it, and all there is to tear down is ep0.
pub proof fn law_attach_leaves_the_rest_alone(
    g: GadgetView,
    ffs_path: Seq<char>,
    gadget_dir: Seq<char>,
    id: IdentityView,
    replies: Seq<ReplyView>,
)
    requires
        all_down(g),
        g.prev_gadget.len() == 0,
    ensures
        ({
            let t = run(g.begin(GadgetView::attach_steps(ffs_path, gadget_dir, id)), replies);
            &&& !t.composed && !t.mounted
            &&& gadget_dir.len() == 0 ==> {
                &&& forall|i: int|
                    0 <= i < t.todo.len() ==> {
                        let op = (#[trigger] t.todo[i]).op;
                        op is Exists || op is OpenEp0 || op is WriteEp0
                    }
                &&& t.teardown_steps() == t.close_steps()
            }
        }),
{
    let start = g.begin(GadgetView::attach_steps(ffs_path, gadget_dir, id));
    let binds = gadget_dir.len() > 0;
    lemma_run_attaching(g, start, binds, replies);
    let t = run(start, replies);
    if !binds {
        assert(t.teardown_steps() =~= t.close_steps());
    }
}

proof fn lemma_run_well_without_binding(
    g: GadgetView,
    start: GadgetView,
    replies: Seq<ReplyView>,
)
    requires
        attaching(g, start, false),
        start.refused is None,
        all_went_well(start, replies),
    ensures
        run(start, replies).refused is None,
    decreases replies.len(),
{
    if replies.len() > 0 {
        let before = run(start, replies.drop_last());
        lemma_run_well_without_binding(g, start, replies.drop_last());
        lemma_run_attaching(g, start, false, replies.drop_last());
        if before.todo.len() > 0 {
            assert(is_attachment(before.todo[0], false));
        }
    }
}

/// A setup or an attachment in which nothing goes wrong is not given up, if
/// there is a controller to bind to or nothing to bind.
pub proof fn law_given_up_only_when_something_fails(
    g: GadgetView,
    ffs_path: Seq<char>,
    gadget_dir: Seq<char>,
    id: IdentityView,
    replies: Seq<ReplyView>,
)
    ensures
        ({
            let up = g.begin(g.setup_steps(id));
            g.udc.len() > 0 && all_went_well(up, replies) ==> run(up, replies).refused is None
        }),
        ({
            let at = g.begin(GadgetView::attach_steps(ffs_path, gadget_dir, id));
            (g.udc.len() > 0 || gadget_dir.len() == 0) && all_went_well(at, replies) ==> run(
                at,
                replies,
            ).refused is None
        }),
{
    let up = g.begin(g.setup_steps(id));
    let at = g.begin(GadgetView::attach_steps(ffs_path, gadget_dir, id));
    if g.udc.len() > 0 && all_went_well(up, replies) {
        lemma_run_well(up, replies);
    }
    if all_went_well(at, replies) {
        if g.udc.len() > 0 {
            lemma_run_well(at, replies);
        } else if gadget_dir.len() == 0 {
            lemma_run_well_without_binding(g, at, replies);
        }
    }
}

// --- cleaning up ------------------------------------------------------------------

/// A step that sees whether there is something to clean up.
spec fn is_probe(s: StepView) -> bool {
    match s.after {
        AfterView::Configfs => true,
        AfterView::Ignore => true,
        AfterView::Require(why) => why == Refusal::NoConfigfs,
        AfterView::StaleTree => true,
        AfterView::StaleMount => true,
        _ => false,
    }
}

/// Seeing whether there is something to clean up.
spec fn probing(g: GadgetView) -> bool {
    &&& all_down(g)
    &&& forall|i: int| 0 <= i < g.todo.len() ==> is_probe(#[trigger] g.todo[i])
    &&& match g.refused {
        None => true,
        Some(why) => why == Refusal::NoConfigfs && g.todo.len() == 0,
    }
}

/// Guessing whose controller it was.
spec fn guessing(g: GadgetView) -> bool {
    &&& g.refused is None
    &&& g.mounted ==> g.composed
    &&& g.todo.len() == 1
    &&& match g.todo[0].after {
        AfterView::PastOwners => true,
        AfterView::PastOwner(names) => names.len() > 0,
        _ => false,
    }
}

spec fn cleaning(g: GadgetView) -> bool {
    probing(g) || guessing(g) || going_down(g)
}

proof fn lemma_guess_cleaning(g: GadgetView, names: Seq<Seq<char>>)
    requires
        g.refused is None,
        g.mounted ==> g.composed,
        g.todo.len() == 0,
    ensures
        cleaning(g.guess(names)),
{
    if names.len() == 0 {
        lemma_teardown_start(g);
        let t = g.guess(names);
        let d = g.begin(g.teardown_steps());
        assert(t.todo =~= d.todo);
        assert forall|part: Part| #[trigger] t.has(part) implies ends(t.todo, part) by {
            assert(d.has(part));
        }
        assert(going_down(t));
    }
}

proof fn lemma_react_cleaning(g: GadgetView, r: ReplyView)
    requires
        cleaning(g),
    ensures
        cleaning(g.react(r)),
{
    if g.todo.len() > 0 {
        let h = GadgetView { todo: g.todo.skip(1), ..g };
        if going_down(g) {
            lemma_react_down(g, r);
        } else if guessing(g) {
            lemma_guess_cleaning(h, others(listed(r.names()), g.name));
            if let AfterView::PastOwner(names) = g.todo[0].after {
                lemma_guess_cleaning(GadgetView { prev_gadget: names[0], ..h }, Seq::empty());
                lemma_guess_cleaning(h, names.skip(1));
            }
        } else {
            assert(is_probe(g.todo[0]));
            assert forall|i: int| 0 <= i < h.todo.len() implies is_probe(#[trigger] h.todo[i]) by {
                assert(h.todo[i] == g.todo[i + 1]);
            }
            assert(probing(g.react(r)) || guessing(g.react(r)));
        }
    }
}

proof fn lemma_run_cleaning(g: GadgetView, replies: Seq<ReplyView>)
    requires
        cleaning(g),
    ensures
        cleaning(run(g, replies)),
    decreases replies.len(),
{
    if replies.len() > 0 {
        lemma_run_cleaning(g, replies.drop_last());
        lemma_react_cleaning(run(g, replies.drop_last()), replies.last());
    }
}

/// Cleaning up after a killed run is given up only for want of configfs; and
/// when it is over, the gadget's own record holds nothing as up, whatever came
/// of its operations. As in a teardown, what the system refuses to let go of is
/// taken off the record all the same.
pub proof fn law_cleanup_leaves_nothing(g: GadgetView, replies: Seq<ReplyView>)
    requires
        all_down(g),
    ensures
        ({
            let t = run(g.begin(g.stale_steps()), replies);
            &&& t.refused is None || t.refused == Some(Refusal::NoConfigfs)
            &&& t.todo.len() == 0 ==> all_down(t)
        }),
{
    let start = g.begin(g.stale_steps());
    assert(probing(start));
    lemma_run_cleaning(start, replies);
    let t = run(start, replies);
    if t.todo.len() == 0 && going_down(t) {
        assert(!t.has(Part::Tree) && !t.has(Part::Mount) && !t.has(Part::Ep0) && !t.has(Part::Bond));
    }
}

} // verus!
