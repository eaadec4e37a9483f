//! What the steps of a gadget's life do to the system, and what each reply
//! leads to.
use vstd::prelude::*;

use crate::common::Errno;
use crate::gadget::laws::{does, run};
use crate::gadget::lifecycle::{others, step, udc_file, under, GadgetView};
use crate::gadget::steps::{AfterView, OpView, Part, Refusal, ReplyView, StepView};
use crate::gadget::{descriptors, hex_id_text, listed, strings, IdentityView};

verus! {

// --- names and paths --------------------------------------------------------------

/// Where everything is: the gadget in configfs under its name, its function and
/// the link to it below, FunctionFS in `/dev`.
pub proof fn law_paths(name: Seq<char>, udc: Seq<char>)
    ensures
        ({
            let g = GadgetView::fresh(name, udc);
            let home = "/sys/kernel/config/usb_gadget/"@ + name;
            &&& g.mount_point == "/dev/ffs-"@ + name
            &&& g.gadget_path == home
            &&& g.function_dir() == home + "/functions/ffs."@ + name
            &&& g.function_link() == home + "/configs/c.1/ffs."@ + name
            &&& udc_file(name) == home + "/UDC"@
            &&& under(name, udc) == name + seq!['/'] + udc
        }),
{
    reveal_strlit("/");
    reveal_strlit("UDC");
    reveal_strlit("/UDC");
    reveal_strlit("ffs.");
    reveal_strlit("functions");
    reveal_strlit("configs/c.1");
    reveal_strlit("/functions/ffs.");
    reveal_strlit("/configs/c.1/ffs.");
    reveal_strlit("/sys/kernel/config/usb_gadget");
    reveal_strlit("/sys/kernel/config/usb_gadget/");
    let g = GadgetView::fresh(name, udc);
    let home = "/sys/kernel/config/usb_gadget/"@ + name;
    assert("/sys/kernel/config/usb_gadget/"@ =~= "/sys/kernel/config/usb_gadget"@ + "/"@);
    assert("/"@ =~= seq!['/']);
    assert(g.gadget_path =~= home);
    assert("/functions/ffs."@ =~= "/"@ + "functions"@ + "/"@ + "ffs."@);
    assert("/configs/c.1/ffs."@ =~= "/"@ + "configs/c.1"@ + "/"@ + "ffs."@);
    assert("/UDC"@ =~= "/"@ + "UDC"@);
    assert(g.function_dir() =~= home + "/functions/ffs."@ + name);
    assert(g.function_link() =~= home + "/configs/c.1/ffs."@ + name);
    assert(udc_file(name) =~= home + "/UDC"@);
}

/// The other gadgets can be told in two parts; only the one named is left out.
pub proof fn law_others_split(a: Seq<Seq<char>>, b: Seq<Seq<char>>, x: Seq<char>, name: Seq<char>)
    ensures
        others(a + b, name) == others(a, name) + others(b, name),
        others(seq![name], name).len() == 0,
        x != name ==> others(seq![x], name) == seq![x],
    decreases b.len(),
{
    reveal_with_fuel(others, 2);
    assert(seq![name].drop_last() =~= Seq::empty());
    assert(seq![x].drop_last() =~= Seq::empty());
    assert(others(Seq::empty(), name) =~= Seq::empty());
    if b.len() == 0 {
        assert(a + b =~= a);
        assert(others(a, name) + others(b, name) =~= others(a, name));
    } else {
        assert((a + b).drop_last() =~= a + b.drop_last());
        assert((a + b).last() == b.last());
        law_others_split(a, b.drop_last(), x, name);
        assert(others(a + b, name) =~= others(a, name) + others(b, name));
    }
}

// --- what is written ----------------------------------------------------------------

/// The attributes of a gadget that is the accessory: a USB 2.0 device without a
/// class, kept from advertising more, powered by itself.
pub open spec fn attributes(id: IdentityView) -> Seq<(Seq<char>, Seq<char>)> {
    seq![
        ("idVendor"@, hex_id_text(id.vid)),
        ("idProduct"@, hex_id_text(id.pid)),
        ("bcdUSB"@, "0x0200"@),
        ("bcdDevice"@, "0x0200"@),
        ("bDeviceClass"@, "0x00"@),
        ("bDeviceSubClass"@, "0x00"@),
        ("bDeviceProtocol"@, "0x00"@),
        ("bMaxPacketSize0"@, "64"@),
        ("max_speed"@, "high-speed"@),
        ("strings/0x409/manufacturer"@, id.manufacturer),
        ("strings/0x409/product"@, id.product),
        ("strings/0x409/serialnumber"@, id.serial),
        ("configs/c.1/strings/0x409/configuration"@, id.configuration),
        ("configs/c.1/bmAttributes"@, "0xc0"@),
        ("configs/c.1/MaxPower"@, "2"@),
    ]
}

/// The operation that sets an attribute.
pub open spec fn attribute_op(g: GadgetView, a: (Seq<char>, Seq<char>)) -> OpView {
    OpView::Write { path: g.gadget_path + seq!['/'] + a.0, value: a.1 }
}

/// Composing a gadget sets every attribute, and writes nothing else.
pub proof fn law_every_attribute_is_set(g: GadgetView, id: IdentityView, k: int, i: int)
    requires
        0 <= k < attributes(id).len(),
        0 <= i < g.compose_steps(id).len(),
    ensures
        does(g.compose_steps(id), attribute_op(g, attributes(id)[k])),
        g.compose_steps(id)[i].op is Write ==> exists|m: int|
            0 <= m < attributes(id).len() && g.compose_steps(id)[i].op == attribute_op(
                g,
                #[trigger] attributes(id)[m],
            ),
{
    reveal_strlit("/");
    assert("/"@ =~= seq!['/']);
    let c = g.compose_steps(id);
    assert(c[1].op == attribute_op(g, attributes(id)[0]));
    assert(c[2].op == attribute_op(g, attributes(id)[1]));
    assert(c[3].op == attribute_op(g, attributes(id)[2]));
    assert(c[4].op == attribute_op(g, attributes(id)[3]));
    assert(c[5].op == attribute_op(g, attributes(id)[4]));
    assert(c[6].op == attribute_op(g, attributes(id)[5]));
    assert(c[7].op == attribute_op(g, attributes(id)[6]));
    assert(c[8].op == attribute_op(g, attributes(id)[7]));
    assert(c[9].op == attribute_op(g, attributes(id)[8]));
    assert(c[11].op == attribute_op(g, attributes(id)[9]));
    assert(c[12].op == attribute_op(g, attributes(id)[10]));
    assert(c[13].op == attribute_op(g, attributes(id)[11]));
    assert(c[16].op == attribute_op(g, attributes(id)[12]));
    assert(c[17].op == attribute_op(g, attributes(id)[13]));
    assert(c[18].op == attribute_op(g, attributes(id)[14]));
    let a = attributes(id);
    assert(a.len() == 15);
    let at = seq![1int, 2, 3, 4, 5, 6, 7, 8, 9, 11, 12, 13, 16, 17, 18];
    assert(c[at[k]].op == attribute_op(g, a[k]));
    if c[i].op is Write {
        assert(exists|m: int| 0 <= m < at.len() && #[trigger] at[m] == i) by {
            assert(at[0] == 1);
            assert(at[1] == 2);
            assert(at[2] == 3);
            assert(at[3] == 4);
            assert(at[4] == 5);
            assert(at[5] == 6);
            assert(at[6] == 7);
            assert(at[7] == 8);
            assert(at[8] == 9);
            assert(at[9] == 11);
            assert(at[10] == 12);
            assert(at[11] == 13);
            assert(at[12] == 16);
            assert(at[13] == 17);
            assert(at[14] == 18);
        }
        let m = choose|m: int| 0 <= m < at.len() && #[trigger] at[m] == i;
        assert(c[i].op == attribute_op(g, a[m]));
    }
}

/// One of the steps does `op`, and `after` hangs on it.
pub open spec fn has_step(steps: Seq<StepView>, op: OpView, after: AfterView) -> bool {
    exists|i: int| 0 <= i < steps.len() && #[trigger] steps[i] == (StepView { op, after })
}

/// Each part of a setup that cannot be had has its own reason to give up.
pub proof fn law_reasons_to_give_up(g: GadgetView, id: IdentityView)
    ensures
        ({
            let s = g.setup_steps(id);
            let home = g.gadget_path + seq!['/'];
            let strings_dir = home + "strings/0x409"@;
            let config_dir = home + "configs/c.1"@;
            let config_strings_dir = home + "configs/c.1/strings/0x409"@;
            let ep0 = g.mount_point + seq!['/'] + "ep0"@;
            let name = vstd::utf8::encode_utf8(id.interface_name);
            &&& has_step(s, OpView::Exists(g.gadget_path), AfterView::Absent)
            &&& has_step(
                s,
                OpView::MakeDir(g.gadget_path),
                AfterView::Gain(Refusal::NoTree, Part::Tree),
            )
            &&& has_step(s, OpView::MakeDir(strings_dir), AfterView::Require(Refusal::NoDeviceStrings))
            &&& has_step(s, OpView::MakeDir(config_dir), AfterView::Require(Refusal::NoConfiguration))
            &&& has_step(
                s,
                OpView::MakeDir(config_strings_dir),
                AfterView::Require(Refusal::NoConfiguration),
            )
            &&& has_step(s, OpView::MakeDir(g.function_dir()), AfterView::Require(Refusal::NoFunction))
            &&& has_step(
                s,
                (OpView::Link { target: g.function_dir(), path: g.function_link() }),
                AfterView::Require(Refusal::NotLinked),
            )
            &&& has_step(s, OpView::MakeDir(g.mount_point), AfterView::Require(Refusal::NoMountPoint))
            &&& has_step(
                s,
                (OpView::Mount { source: g.name, target: g.mount_point, kind: "functionfs"@ }),
                AfterView::Gain(Refusal::NotMounted, Part::Mount),
            )
            &&& has_step(s, OpView::OpenEp0(ep0), AfterView::Gain(Refusal::NoEp0, Part::Ep0))
            &&& has_step(
                s,
                OpView::WriteEp0(descriptors()),
                AfterView::Require(Refusal::DescriptorsRejected),
            )
            &&& has_step(s, OpView::WriteEp0(strings(name)), AfterView::Bind)
        }),
{
    reveal_strlit("/");
    assert("/"@ =~= seq!['/']);
    let s = g.setup_steps(id);
    let c = g.compose_steps(id);
    assert(forall|i: int| 0 <= i < c.len() ==> s[i + 2] == #[trigger] c[i]);
    assert(s[1] == step(OpView::Exists(g.gadget_path), AfterView::Absent));
    assert(s[2] == c[0]);
    assert(s[12] == c[10]);
    assert(s[16] == c[14]);
    assert(s[17] == c[15]);
    assert(s[21] == c[19]);
    assert(s[22] == c[20]);
    assert(s[23] == c[21]);
    assert(s[24] == c[22]);
    assert(c.len() == 23);
    assert(s[25].op is OpenEp0 && s[26].op is WriteEp0 && s[27].op is WriteEp0);
}

/// What an operation stands for in the order of a teardown.
pub open spec fn rank(g: GadgetView, op: OpView) -> int {
    match op {
        OpView::Write { path, value } => if value == g.udc && g.udc != seq!['\n'] {
            9
        } else {
            0
        },
        OpView::Pause(us) => 1,
        OpView::CloseEp0 => 2,
        OpView::Detach(path) => 3,
        OpView::RemoveDir(path) => if path == g.mount_point {
            4
        } else {
            6
        },
        OpView::Unlink(path) => 5,
        _ => 10,
    }
}

/// A teardown goes from the outside in: the controller is let go of first, and
/// handed back last; ep0 is closed before the file system is unmounted, that
/// before the mount point goes, and the link before the directories.
pub proof fn law_teardown_order(g: GadgetView, i: int, j: int)
    requires
        0 <= i < j < g.teardown_steps().len(),
        g.udc != seq!['\n'],
        g.mount_point.len() < g.gadget_path.len() || g.mount_point[0] != g.gadget_path[0]
            || g.mount_point[1] != g.gadget_path[1],
        g.gadget_path.len() >= 2,
    ensures
        rank(g, g.teardown_steps()[i].op) <= rank(g, g.teardown_steps()[j].op) <= 9,
{
    reveal_strlit("/");
    reveal_strlit("\n");
    assert("\n"@ =~= seq!['\n']);
    let t = g.teardown_steps();
    let a = g.unbind_steps();
    let b = g.close_steps();
    let c = g.unmount_steps();
    let d = g.removal_steps();
    let e = g.restore_steps();
    let n = g.gadget_path;
    assert forall|k: int| 2 <= k < d.len() implies rank(g, #[trigger] d[k].op) == 6 by {
        assert(d[k].op is RemoveDir);
        let p = d[k].op->RemoveDir_0;
        assert(p.len() >= n.len() && p[0] == n[0] && p[1] == n[1]);
    }
    assert(rank(g, d[0].op) == 4 && rank(g, d[1].op) == 5);
    if g.composed {
        assert forall|k: int| 0 <= k < t.len() implies #[trigger] t[k] == if k < a.len() {
            a[k]
        } else if k < a.len() + b.len() {
            b[k - a.len()]
        } else if k < a.len() + b.len() + c.len() {
            c[k - a.len() - b.len()]
        } else if k < a.len() + b.len() + c.len() + d.len() {
            d[k - a.len() - b.len() - c.len()]
        } else {
            e[k - a.len() - b.len() - c.len() - d.len()]
        } by {}
    } else {
        assert forall|k: int| 0 <= k < t.len() implies #[trigger] t[k] == if k < a.len() {
            a[k]
        } else if k < a.len() + b.len() {
            b[k - a.len()]
        } else {
            e[k - a.len() - b.len()]
        } by {}
    }
}

/// A teardown lets go of what is up, each part in its way: the binding is
/// cleared, with a fifth of a second for what is on its way; ep0 is closed;
/// FunctionFS is detached; and the controller goes back to the gadget that it
/// was taken from.
pub proof fn law_teardown_lets_go(g: GadgetView)
    ensures
        ({
            let t = g.teardown_steps();
            let up = g.composed || g.bound || g.ep0;
            &&& !up ==> t.len() == 0
            &&& g.bound ==> t.len() >= 2 && t[0].op == (OpView::Write {
                path: g.gadget_path + seq!['/', 'U', 'D', 'C'],
                value: seq!['\n'],
            }) && t[1].op == OpView::Pause(200_000)
            &&& g.ep0 ==> does(t, OpView::CloseEp0)
            &&& g.mounted && g.composed ==> does(t, OpView::Detach(g.mount_point))
            &&& up && g.prev_gadget.len() > 0 && g.udc.len() > 0 ==> t.len() > 0 && t.last().op == (
            OpView::Write { path: udc_file(g.prev_gadget), value: g.udc })
        }),
{
    reveal_strlit("/");
    reveal_strlit("UDC");
    reveal_strlit("\n");
    assert("\n"@ =~= seq!['\n']);
    let t = g.teardown_steps();
    assert(under(g.gadget_path, "UDC"@) =~= g.gadget_path + seq!['/', 'U', 'D', 'C']);
    let a = g.unbind_steps();
    let b = g.close_steps();
    if g.ep0 {
        assert(t[a.len() as int] == b[0]);
    }
    if g.mounted && g.composed {
        assert(t[(a.len() + b.len()) as int] == g.unmount_steps()[0]);
    }
    if (g.composed || g.bound || g.ep0) && g.prev_gadget.len() > 0 && g.udc.len() > 0 {
        assert(t.last() == g.restore_steps()[0]);
    }
}

/// No directory of the tree is removed before what is in it.
pub proof fn law_removal_from_the_leaves(g: GadgetView, i: int, j: int, x: Seq<char>)
    requires
        2 <= i < j < g.removal_steps().len(),
    ensures
        g.removal_steps()[i].op is RemoveDir,
        g.removal_steps()[i].op->RemoveDir_0 + seq!['/'] + x
            != g.removal_steps()[j].op->RemoveDir_0,
{
    reveal_strlit("/");
    reveal_strlit("functions");
    reveal_strlit("configs/c.1");
    reveal_strlit("configs/c.1/strings/0x409");
    reveal_strlit("strings/0x409");
    reveal_strlit("ffs.");
    let d = g.removal_steps();
    let n = g.gadget_path.len() as int;
    let p = d[i].op->RemoveDir_0;
    let q = d[j].op->RemoveDir_0;
    let longer = p + seq!['/'] + x;
    assert(longer.len() > p.len());
    assert(p.len() > n);
    assert(longer[n + 1] == p[n + 1]);
    if i <= 3 {
        assert(p[n + 1] == 'c');
    } else if i == 4 {
        assert(p[n + 1] == 'f');
    } else {
        assert(p[n + 1] == 's');
    }
    if j == 4 {
        assert(q[n + 1] == 'f');
    } else if j == 5 {
        assert(q[n + 1] == 's');
    }
}

/// Binding takes a controller: without one it is given up. It looks for the
/// gadget that has it, takes the controller, and puts the USB version back.
pub proof fn law_binding(g: GadgetView)
    ensures
        ({
            let b = g.bind();
            let file = g.gadget_path + seq!['/', 'b', 'c', 'd', 'U', 'S', 'B'];
            &&& g.udc.len() == 0 ==> b.refused == Some(Refusal::NoUdc) && b.todo.len() == 0
            &&& g.udc.len() > 0 ==> {
                &&& b.refused == g.refused
                &&& b.todo.len() == 4 + g.todo.len() && b.todo.skip(4) == g.todo
                &&& b.todo[0].op == OpView::List("/sys/kernel/config/usb_gadget"@)
                &&& b.todo[1].op == (OpView::Write {
                    path: g.gadget_path + seq!['/', 'U', 'D', 'C'],
                    value: g.udc,
                })
                &&& b.todo[2].op == (OpView::Write {
                    path: file,
                    value: seq!['0', 'x', '0', '2', '0', '0'],
                })
                &&& b.todo[3].op == OpView::Read(file)
            }
        }),
{
    reveal_strlit("/");
    reveal_strlit("UDC");
    reveal_strlit("bcdUSB");
    reveal_strlit("0x0200");
    let file = g.gadget_path + seq!['/', 'b', 'c', 'd', 'U', 'S', 'B'];
    assert(under(g.gadget_path, "bcdUSB"@) =~= file);
    assert(under(g.gadget_path, "UDC"@) =~= g.gadget_path + seq!['/', 'U', 'D', 'C']);
    assert("0x0200"@ =~= seq!['0', 'x', '0', '2', '0', '0']);
    assert(g.bind().todo.skip(4) =~= g.todo || g.udc.len() == 0);
}

// --- what comes of it -----------------------------------------------------------------

/// When an operation has had its effect: if it went through; if a directory or
/// link that was to be made is there; if a directory that was to go is gone.
pub proof fn law_what_counts_as_done(op: OpView, e: Errno, names: Seq<Seq<char>>, text: Seq<char>)
    ensures
        ReplyView::Done.worked(op),
        ReplyView::Failed(e).worked(op) <==> e is Exists && (op is MakeDir || op is Link) || e
            is NotFound && op is RemoveDir,
        !ReplyView::Names(names).worked(op),
        !ReplyView::Text(text).worked(op),
        ReplyView::Names(names).names() == names,
        ReplyView::Failed(e).names().len() == 0,
        ReplyView::Failed(e).text().len() == 0,
{
}

/// A part that goes up or down leaves the others as they are.
pub proof fn law_parts_are_apart(g: GadgetView, p: Part, q: Part, up: bool)
    ensures
        g.with(p, up).has(p) == up,
        p != q ==> g.with(p, up).has(q) == g.has(q),
        g.with(p, up).todo == g.todo && g.with(p, up).refused == g.refused,
        g.with(p, up).prev_gadget == g.prev_gadget && g.with(p, up).identity_ok == g.identity_ok,
{
}

/// A gadget with nothing ahead of it but this step, and the rest.
pub open spec fn about_to(g: GadgetView, s: StepView, rest: Seq<StepView>) -> bool {
    g.todo == seq![s] + rest
}

/// What must work and does not ends the undertaking, with its reason and nothing
/// left to do; what is up stays on record.
pub proof fn law_failure_gives_up(
    g: GadgetView,
    op: OpView,
    rest: Seq<StepView>,
    r: ReplyView,
    why: Refusal,
    part: Part,
    other: Seq<char>,
)
    requires
        !r.worked(op),
    ensures
        forall|after: AfterView| #[trigger]
            about_to(g, step(op, after), rest) ==> {
                let t = g.react(r);
                let over = t.todo.len() == 0;
                &&& after == AfterView::Require(why) ==> over && t.refused == Some(why)
                &&& after == AfterView::Gain(why, part) ==> over && t.refused == Some(why) && t.has(
                    part,
                ) == g.has(part)
                &&& after is LastAttr ==> over && t.refused == Some(Refusal::IdentityIncomplete)
                &&& after == AfterView::Taken(other) ==> over && t.refused == Some(
                    Refusal::NotReleased,
                )
                &&& after is Bind ==> over && t.refused == Some(Refusal::StringsRejected)
                &&& after == AfterView::Adopt(other) ==> over && t.refused == Some(
                    Refusal::NoFunctionFs,
                )
                &&& after == AfterView::BindTo(other) ==> over && t.refused == Some(
                    Refusal::NoSuchGadget,
                )
                &&& after is Absent ==> t.todo == rest && t.refused == g.refused
                &&& after is Ignore ==> t.todo == rest && t.refused == g.refused
                &&& t.composed == g.composed || after is Lose || after is Removed
            },
{
    assert forall|after: AfterView| #[trigger] about_to(g, step(op, after), rest) implies ({
        let t = g.react(r);
        let over = t.todo.len() == 0;
        &&& after == AfterView::Require(why) ==> over && t.refused == Some(why)
        &&& after == AfterView::Gain(why, part) ==> over && t.refused == Some(why) && t.has(part)
            == g.has(part)
        &&& after is LastAttr ==> over && t.refused == Some(Refusal::IdentityIncomplete)
        &&& after == AfterView::Taken(other) ==> over && t.refused == Some(Refusal::NotReleased)
        &&& after is Bind ==> over && t.refused == Some(Refusal::StringsRejected)
        &&& after == AfterView::Adopt(other) ==> over && t.refused == Some(Refusal::NoFunctionFs)
        &&& after == AfterView::BindTo(other) ==> over && t.refused == Some(Refusal::NoSuchGadget)
        &&& after is Absent ==> t.todo == rest && t.refused == g.refused
        &&& after is Ignore ==> t.todo == rest && t.refused == g.refused
        &&& t.composed == g.composed || after is Lose || after is Removed
    }) by {
        assert(g.todo[0] == step(op, after));
        assert(g.todo.skip(1) =~= rest);
    }
}

/// What works brings the undertaking on: the step is done, its part is up, and
/// the rest is as it was. A gadget that is there already is the one thing that
/// must not be.
pub proof fn law_success_goes_on(
    g: GadgetView,
    op: OpView,
    rest: Seq<StepView>,
    r: ReplyView,
    why: Refusal,
    part: Part,
    path: Seq<char>,
)
    requires
        r.worked(op),
    ensures
        about_to(g, step(op, AfterView::Require(why)), rest) ==> g.react(r) == (GadgetView {
            todo: rest,
            ..g
        }),
        about_to(g, step(op, AfterView::Gain(why, part)), rest) ==> g.react(r).has(part) && g.react(
            r,
        ).todo == rest && g.react(r).refused == g.refused,
        about_to(g, step(op, AfterView::Attr), rest) ==> g.react(r) == (GadgetView {
            todo: rest,
            ..g
        }),
        about_to(g, step(op, AfterView::LastAttr), rest) && g.identity_ok ==> g.react(r) == (
        GadgetView { todo: rest, ..g }),
        about_to(g, step(op, AfterView::Configfs), rest) ==> g.react(r) == (GadgetView {
            todo: rest,
            ..g
        }),
        about_to(g, step(op, AfterView::Absent), rest) ==> g.react(r).refused == Some(
            Refusal::AlreadyExists,
        ) && g.react(r).todo.len() == 0,
        about_to(g, step(op, AfterView::Adopt(path)), rest) ==> g.react(r) == (GadgetView {
            mount_point: path,
            todo: rest,
            ..g
        }),
        about_to(g, step(op, AfterView::BindTo(path)), rest) ==> g.react(r) == (GadgetView {
            gadget_path: path,
            todo: rest,
            ..g
        }).bind(),
        about_to(g, step(op, AfterView::Bind), rest) ==> g.react(r) == (GadgetView {
            todo: rest,
            ..g
        }).bind(),
{
    if g.todo.len() > 0 {
        assert(about_to(g, g.todo[0], rest) ==> g.todo.skip(1) =~= rest);
    }
    assert((seq![step(op, AfterView::Require(why))] + rest)[0] == step(op, AfterView::Require(why)));
    assert((seq![step(op, AfterView::Gain(why, part))] + rest)[0] == step(
        op,
        AfterView::Gain(why, part),
    ));
    assert((seq![step(op, AfterView::Attr)] + rest)[0] == step(op, AfterView::Attr));
    assert((seq![step(op, AfterView::LastAttr)] + rest)[0] == step(op, AfterView::LastAttr));
    assert((seq![step(op, AfterView::Configfs)] + rest)[0] == step(op, AfterView::Configfs));
    assert((seq![step(op, AfterView::Absent)] + rest)[0] == step(op, AfterView::Absent));
    assert((seq![step(op, AfterView::Adopt(path))] + rest)[0] == step(op, AfterView::Adopt(path)));
    assert((seq![step(op, AfterView::BindTo(path))] + rest)[0] == step(op, AfterView::BindTo(path)));
    assert((seq![step(op, AfterView::Bind)] + rest)[0] == step(op, AfterView::Bind));
}

/// Without configfs it is mounted, and must show then.
pub proof fn law_configfs_is_mounted(g: GadgetView, rest: Seq<StepView>, r: ReplyView)
    requires
        about_to(g, GadgetView::configfs_step(), rest),
        !r.worked(GadgetView::configfs_step().op),
    ensures
        ({
            let t = g.react(r).todo;
            let place = "/sys/kernel/config/usb_gadget"@;
            &&& GadgetView::configfs_step().op == OpView::Exists(place)
            &&& t.len() == 2 + rest.len() && t.skip(2) == rest
            &&& t[0].op == (OpView::Mount {
                source: "none"@,
                target: "/sys/kernel/config"@,
                kind: "configfs"@,
            })
            &&& t[0].after is Ignore
            &&& t[1] == (StepView {
                op: OpView::Exists(place),
                after: AfterView::Require(Refusal::NoConfigfs),
            })
        }),
{
    assert(g.todo[0] == GadgetView::configfs_step());
    assert(g.todo.skip(1) =~= rest);
    assert(g.react(r).todo.skip(2) =~= rest);
}

proof fn lemma_identity_stays_spoilt(g: GadgetView, r: ReplyView)
    requires
        !g.identity_ok,
    ensures
        !g.react(r).identity_ok,
{
}

/// One attribute that was not accepted spoils the identity for good, whatever
/// else is accepted; and with the identity spoilt, the setup is given up where
/// it should be complete.
pub proof fn law_spoilt_identity_gives_up(
    g: GadgetView,
    replies: Seq<ReplyView>,
    i: int,
    last: StepView,
    r: ReplyView,
)
    requires
        0 <= i < replies.len(),
        run(g, replies.take(i)).todo.len() > 0,
        run(g, replies.take(i)).todo[0].after is Attr,
        !replies[i].worked(run(g, replies.take(i)).todo[0].op),
        last.after is LastAttr,
    ensures
        !run(g, replies).identity_ok,
        run(g, replies).todo.len() > 0 && run(g, replies).todo[0] == last ==> run(g, replies).react(
            r,
        ).refused == Some(Refusal::IdentityIncomplete),
    decreases replies.len(),
{
    let before = replies.drop_last();
    if i == replies.len() - 1 {
        assert(replies.take(i) =~= before);
    } else {
        assert(before.take(i) =~= replies.take(i));
        law_spoilt_identity_gives_up(g, before, i, last, r);
        lemma_identity_stays_spoilt(run(g, before), replies.last());
    }
}

// --- directories that stay busy ---------------------------------------------------------

/// After a number of tries, each with what came of the removal and of the pause
/// after it.
pub open spec fn tried(g: GadgetView, replies: Seq<(ReplyView, ReplyView)>) -> GadgetView
    decreases replies.len(),
{
    if replies.len() == 0 {
        g
    } else {
        let r = replies.last();
        tried(g, replies.drop_last()).react(r.0).react(r.1)
    }
}

/// A directory that stays busy is tried twenty times, with a twentieth of a
/// second between; then the teardown goes on without it, and the tree is off the
/// record if it was the last.
pub proof fn law_busy_directory_is_tried_again(
    g: GadgetView,
    path: Seq<char>,
    last: bool,
    rest: Seq<StepView>,
    replies: Seq<(ReplyView, ReplyView)>,
)
    requires
        about_to(
            g,
            (StepView {
                op: OpView::RemoveDir(path),
                after: AfterView::Removed { tries: 20, last },
            }),
            rest,
        ),
        replies.len() <= 20,
        forall|k: int|
            0 <= k < replies.len() ==> !(#[trigger] replies[k]).0.worked(OpView::RemoveDir(path)),
    ensures
        ({
            let t = tried(g, replies);
            &&& replies.len() < 20 ==> t.todo.len() == 1 + rest.len() && t.todo[0].op
                == OpView::RemoveDir(path) && t.todo.skip(1) == rest && t.composed == g.composed
            &&& replies.len() < 20 ==> forall|r: ReplyView|
                !r.worked(OpView::RemoveDir(path)) ==> (#[trigger] t.react(r)).todo.len() > 0
                    && t.react(r).todo[0].op == OpView::Pause(50_000)
            &&& replies.len() == 20 ==> t.todo == rest && t.composed == (g.composed && !last)
        }),
{
    lemma_tried(g, path, last, rest, replies);
    if replies.len() < 20 {
        let t = tried(g, replies);
        assert(t.todo.skip(1) =~= rest);
        assert forall|r: ReplyView| !r.worked(OpView::RemoveDir(path)) implies (#[trigger] t.react(
            r,
        )).todo.len() > 0 && t.react(r).todo[0].op == OpView::Pause(50_000) by {}
    }
}

proof fn lemma_tried(
    g: GadgetView,
    path: Seq<char>,
    last: bool,
    rest: Seq<StepView>,
    replies: Seq<(ReplyView, ReplyView)>,
)
    requires
        about_to(
            g,
            (StepView {
                op: OpView::RemoveDir(path),
                after: AfterView::Removed { tries: 20, last },
            }),
            rest,
        ),
        replies.len() <= 20,
        forall|k: int|
            0 <= k < replies.len() ==> !(#[trigger] replies[k]).0.worked(OpView::RemoveDir(path)),
    ensures
        ({
            let t = tried(g, replies);
            &&& replies.len() < 20 ==> t == (GadgetView {
                todo: seq![
                    StepView {
                        op: OpView::RemoveDir(path),
                        after: AfterView::Removed { tries: (20 - replies.len()) as u8, last },
                    },
                ] + rest,
                ..g
            })
            &&& replies.len() == 20 ==> t.todo == rest && t.composed == (g.composed && !last)
        }),
    decreases replies.len(),
{
    if replies.len() > 0 {
        let init = replies.drop_last();
        assert forall|k: int| 0 <= k < init.len() implies !(#[trigger] init[k]).0.worked(
            OpView::RemoveDir(path),
        ) by {
            assert(init[k] == replies[k]);
        }
        lemma_tried(g, path, last, rest, init);
        let r = replies.last();
        assert(!replies[replies.len() - 1].0.worked(OpView::RemoveDir(path)));
        let t = tried(g, init);
        assert(t.todo[0].op == OpView::RemoveDir(path));
        assert(t.todo.skip(1) =~= rest);
        let u = t.react(r.0);
        if replies.len() < 20 {
            assert(u.todo.skip(1) =~= seq![
                StepView {
                    op: OpView::RemoveDir(path),
                    after: AfterView::Removed { tries: (20 - replies.len()) as u8, last },
                },
            ] + rest);
            assert(u.react(r.1).todo =~= u.todo.skip(1));
        } else {
            assert(u.todo.skip(1) =~= rest);
        }
    }
}

/// Every directory of the tree is given twenty tries, and only with the gadget's
/// own, which comes last, does the tree go off the record.
pub proof fn law_each_directory_gets_its_tries(g: GadgetView, i: int)
    requires
        2 <= i < g.removal_steps().len(),
    ensures
        g.removal_steps()[i].after == (AfterView::Removed {
            tries: 20,
            last: i == g.removal_steps().len() - 1,
        }),
        g.removal_steps().last().op == OpView::RemoveDir(g.gadget_path),
{
}

// --- who had the controller ---------------------------------------------------------------

/// Replies one after the other can be taken in two parts.
pub proof fn law_runs_join(g: GadgetView, a: Seq<ReplyView>, b: Seq<ReplyView>)
    ensures
        run(g, a + b) == run(run(g, a), b),
    decreases b.len(),
{
    if b.len() == 0 {
        assert(a + b =~= a);
    } else {
        assert((a + b).drop_last() =~= a + b.drop_last());
        assert((a + b).last() == b.last());
        law_runs_join(g, a, b.drop_last());
    }
}

/// Before the controller is bound, every other gadget that is listed is asked
/// where it is bound, in order.
pub proof fn law_every_other_gadget_is_asked(
    g: GadgetView,
    rest: Seq<StepView>,
    names: Seq<Seq<char>>,
    i: int,
)
    requires
        about_to(g, step(OpView::List("/sys/kernel/config/usb_gadget"@), AfterView::Owners), rest),
        0 <= i < others(listed(names), g.name).len(),
    ensures
        ({
            let asked = others(listed(names), g.name);
            let t = g.react(ReplyView::Names(names)).todo;
            &&& t.len() == asked.len() + rest.len()
            &&& t[i].op == OpView::Read(udc_file(asked[i]))
            &&& t[i].after == AfterView::Owner(asked[i])
            &&& t.skip(asked.len() as int) == rest
        }),
{
    assert(g.todo[0].after is Owners);
    assert(g.todo.skip(1) =~= rest);
    let asked = others(listed(names), g.name);
    assert(g.react(ReplyView::Names(names)).todo.skip(asked.len() as int) =~= rest);
}

/// A gadget that is bound to the controller is unbound from it, and is on record
/// as the one that had it once that is done; one that is not is left alone.
pub proof fn law_owner_is_unbound(
    g: GadgetView,
    other: Seq<char>,
    rest: Seq<StepView>,
    r: ReplyView,
    done: ReplyView,
)
    requires
        about_to(g, step(OpView::Read(udc_file(other)), AfterView::Owner(other)), rest),
        g.refused is None,
    ensures
        ({
            let t = g.react(r);
            let u = t.react(done);
            let op = OpView::Write { path: udc_file(other), value: seq!['\n'] };
            &&& r.text() != g.udc ==> t == (GadgetView { todo: rest, ..g })
            &&& r.text() == g.udc ==> {
                &&& t.todo.len() == 1 + rest.len()
                &&& t.todo[0].op == op
                &&& t.prev_gadget == g.prev_gadget
                &&& done.worked(op) ==> u.prev_gadget == other && u.todo == rest && u.refused is None
                &&& !done.worked(op) ==> u.prev_gadget == g.prev_gadget && u.todo.len() == 0
                    && u.refused == Some(Refusal::NotReleased)
            }
        }),
{
    reveal_strlit("\n");
    assert("\n"@ =~= seq!['\n']);
    assert(g.todo[0].after == AfterView::Owner(other));
    assert(g.todo.skip(1) =~= rest);
    let t = g.react(r);
    assert(t.todo.len() == 1 + rest.len() ==> t.todo.skip(1) =~= rest);
}

/// When a run was killed, the gadget that had the controller is taken to be the
/// first of the others that is bound to nothing: those before it are asked and
/// passed over, it is put on record, and the teardown follows; if none is, the
/// teardown follows all the same.
pub proof fn law_past_owner_is_the_first_unbound(
    g: GadgetView,
    names: Seq<Seq<char>>,
    replies: Seq<ReplyView>,
    r: ReplyView,
)
    requires
        g.todo.len() == 0,
        replies.len() <= names.len(),
        forall|k: int| 0 <= k < replies.len() ==> (#[trigger] replies[k]).text().len() > 0,
        r.text().len() == 0,
    ensures
        ({
            let t = run(g.guess(names), replies);
            let n = replies.len() as int;
            let found = GadgetView { prev_gadget: names[n], ..g };
            &&& n < names.len() ==> t.todo.len() == 1 && t.todo[0].op == OpView::Read(
                udc_file(names[n]),
            ) && t.prev_gadget == g.prev_gadget
            &&& n < names.len() ==> t.react(r) == (GadgetView {
                todo: found.teardown_steps(),
                ..found
            })
            &&& n == names.len() ==> t == (GadgetView { todo: g.teardown_steps(), ..g })
        }),
    decreases replies.len(),
{
    let none = Seq::<StepView>::empty();
    assert(g.todo =~= none);
    if replies.len() == 0 {
        let t = g.guess(names);
        assert(run(t, replies) == t);
        if names.len() > 0 {
            assert(t.todo.skip(1) =~= none);
            let found = GadgetView { prev_gadget: names[0], ..g };
            assert(found.guess(Seq::empty()).todo =~= found.teardown_steps());
            assert(t.react(r) =~= GadgetView { todo: found.teardown_steps(), ..found });
        } else {
            assert(t.todo =~= g.teardown_steps());
        }
    } else {
        let first = replies.take(1);
        let rest = replies.skip(1);
        assert(first + rest =~= replies);
        let start = g.guess(names);
        law_runs_join(start, first, rest);
        assert(first.drop_last() =~= Seq::empty());
        reveal_with_fuel(run, 2);
        assert(run(start, first) == start.react(replies[0]));
        assert(start.todo.skip(1) =~= none);
        let more = names.skip(1);
        assert(start.react(replies[0]) =~= g.guess(more));
        assert forall|k: int| 0 <= k < rest.len() implies (#[trigger] rest[k]).text().len() > 0 by {
            assert(rest[k] == replies[k + 1]);
        }
        law_past_owner_is_the_first_unbound(g, more, rest, r);
        let n = replies.len() as int;
        if n < names.len() {
            assert(more[n - 1] == names[n]);
        }
    }
}

/// Something left behind, in configfs or as a mount point, is cleaned up as if
/// all of it were there; the other gadgets are asked first.
pub proof fn law_leftovers_are_cleaned_up(g: GadgetView, rest: Seq<StepView>, path: Seq<char>)
    requires
        about_to(g, step(OpView::Exists(path), AfterView::StaleTree), rest) || about_to(
            g,
            step(OpView::Exists(path), AfterView::StaleMount),
            rest,
        ),
    ensures
        ({
            let t = g.react(ReplyView::Done);
            let u = g.react(ReplyView::Failed(Errno::NotFound));
            &&& t.composed && t.mounted && t.bound
            &&& t.ep0 == g.ep0 && t.prev_gadget == g.prev_gadget
            &&& t.todo.len() == 1 && t.todo[0].op == OpView::List("/sys/kernel/config/usb_gadget"@)
            &&& u == (GadgetView { todo: rest, ..g })
        }),
{
    assert(g.todo[0].after is StaleTree || g.todo[0].after is StaleMount);
    assert(g.todo[0].op == OpView::Exists(path));
    assert(g.todo.skip(1) =~= rest);
}

/// Cleaning up looks for the gadget first, and for the mount point if there is
/// none.
pub proof fn law_where_leftovers_are_looked_for(g: GadgetView)
    ensures
        ({
            let s = g.stale_steps();
            &&& s.len() == 3
            &&& s[0].op == OpView::Exists("/sys/kernel/config/usb_gadget"@)
            &&& s[1].op == OpView::Exists(g.gadget_path)
            &&& s[2].op == OpView::Exists(g.mount_point)
        }),
{
}

/// Attaching uses the FunctionFS that it was given: ep0 in it must be there, and
/// takes the descriptors and the strings; a gadget that is named comes last.
pub proof fn law_attaching(path: Seq<char>, dir: Seq<char>, id: IdentityView)
    ensures
        ({
            let s = GadgetView::attach_steps(path, dir, id);
            let ep0 = path + seq!['/', 'e', 'p', '0'];
            let name = vstd::utf8::encode_utf8(id.interface_name);
            &&& s.len() == if dir.len() == 0 {
                4int
            } else {
                5
            }
            &&& s[0] == step(OpView::Exists(ep0), AfterView::Adopt(path))
            &&& s[1] == step(OpView::OpenEp0(ep0), AfterView::Gain(Refusal::NoEp0, Part::Ep0))
            &&& s[2] == step(
                OpView::WriteEp0(descriptors()),
                AfterView::Require(Refusal::DescriptorsRejected),
            )
            &&& s[3] == step(
                OpView::WriteEp0(strings(name)),
                AfterView::Require(Refusal::StringsRejected),
            )
            &&& dir.len() > 0 ==> s[4] == step(OpView::Exists(dir), AfterView::BindTo(dir))
        }),
{
    reveal_strlit("/");
    reveal_strlit("ep0");
    assert(under(path, "ep0"@) =~= path + seq!['/', 'e', 'p', '0']);
}

/// What is worth telling: an attribute that was not taken, a directory that
/// stays after the last try, another USB version than 2.0, that there is nothing
/// to clean up, and whether the controller could be handed back.
pub proof fn law_notes(s: StepView, r: ReplyView)
    ensures
        ({
            let n = s.note(r);
            let ok = r.worked(s.op);
            &&& n is CannotSet <==> !ok && (s.after is Attr || s.after is LastAttr)
            &&& n is CannotRemove <==> !ok && (s.after matches AfterView::Removed { tries, last }
                && tries <= 1)
            &&& n is BcdHeld <==> s.after is CheckBcd && r.text() != seq!['0', 'x', '0', '2', '0', '0']
            &&& n is NothingToCleanUp <==> !ok && s.after is StaleMount
            &&& n is HandedBack <==> ok && s.after is HandedBack
            &&& n is NotHandedBack <==> !ok && s.after is HandedBack
        }),
{
    reveal_strlit("0x0200");
    assert("0x0200"@ =~= seq!['0', 'x', '0', '2', '0', '0']);
}

/// Once the controller was handed back, or could not be, nobody is on record as
/// having had it.
pub proof fn law_handed_back_once(g: GadgetView, op: OpView, rest: Seq<StepView>, r: ReplyView)
    requires
        about_to(g, step(op, AfterView::HandedBack), rest),
    ensures
        g.react(r).prev_gadget.len() == 0,
        g.react(r).todo == rest,
{
    assert(g.todo[0].after is HandedBack);
    assert(g.todo.skip(1) =~= rest);
}

/// An undertaking starts afresh: with its steps, nothing given up, and what is
/// up as it was.
pub proof fn law_begin(g: GadgetView, steps: Seq<StepView>, p: Part)
    ensures
        g.begin(steps).todo == steps,
        g.begin(steps).refused is None,
        g.begin(steps).identity_ok,
        g.begin(steps).has(p) == g.has(p),
        g.begin(steps).prev_gadget == g.prev_gadget && g.begin(steps).udc == g.udc,
{
}

/// A setup looks before it makes anything: for configfs, and for a gadget of the
/// same name. Up to the last attribute it only looks, makes directories and
/// writes; only with the identity complete is the function linked and mounted,
/// and only then ep0 opened and written to.
pub proof fn law_setup_order(g: GadgetView, id: IdentityView, i: int)
    requires
        0 <= i < g.setup_steps(id).len(),
    ensures
        ({
            let s = g.setup_steps(id);
            &&& s.len() == 28
            &&& s[0] == step(
                OpView::Exists("/sys/kernel/config/usb_gadget"@),
                AfterView::Configfs,
            )
            &&& s[1] == step(OpView::Exists(g.gadget_path), AfterView::Absent)
            &&& s[2].op == OpView::MakeDir(g.gadget_path)
            &&& 2 <= i <= 20 ==> s[i].op is MakeDir || s[i].op is Write
            &&& s[i].after is Attr ==> s[i].op is Write && i < 20
            &&& s[i].op is Write ==> s[i].after is Attr || s[i].after is LastAttr
            &&& s[i].after is LastAttr <==> i == 20
            &&& s[i].op is Link <==> i == 22
            &&& s[i].op is Mount <==> i == 24
            &&& s[i].op is OpenEp0 <==> i == 25
            &&& s[i].op is WriteEp0 <==> i == 26 || i == 27
            &&& s[26].op == OpView::WriteEp0(descriptors())
        }),
{
    let s = g.setup_steps(id);
    let c = g.compose_steps(id);
    assert(c.len() == 23);
    assert(forall|k: int| 0 <= k < c.len() ==> s[k + 2] == #[trigger] c[k]);
    if 2 <= i < 25 {
        assert(s[i] == c[i - 2]);
    }
    assert(s[2] == c[0]);
}

/// Nothing is written, made or linked in a directory that is not made before.
pub proof fn law_directories_come_first(g: GadgetView, id: IdentityView)
    ensures
        ({
            let c = g.compose_steps(id);
            let home = g.gadget_path + seq!['/'];
            &&& c[0].op == OpView::MakeDir(g.gadget_path)
            &&& c[10].op == OpView::MakeDir(home + "strings/0x409"@)
            &&& c[14].op == OpView::MakeDir(home + "configs/c.1"@)
            &&& c[15].op == OpView::MakeDir(home + "configs/c.1/strings/0x409"@)
            &&& c[19].op == OpView::MakeDir(g.function_dir())
            &&& c[20].op == (OpView::Link { target: g.function_dir(), path: g.function_link() })
            &&& c[21].op == OpView::MakeDir(g.mount_point)
            &&& forall|i: int|
                0 <= i < 10 ==> (#[trigger] c[i].op matches OpView::Write { path, value } ==> !(
                home + "strings/0x409/"@).is_prefix_of(path))
            &&& forall|i: int|
                0 <= i < 15 ==> (#[trigger] c[i].op matches OpView::Write { path, value } ==> !(
                home + "configs/c.1/"@).is_prefix_of(path))
        }),
{
    reveal_strlit("/");
    assert("/"@ =~= seq!['/']);
    reveal_strlit("strings/0x409/");
    reveal_strlit("configs/c.1/");
    reveal_strlit("idVendor");
    reveal_strlit("idProduct");
    reveal_strlit("bcdUSB");
    reveal_strlit("bcdDevice");
    reveal_strlit("bDeviceClass");
    reveal_strlit("bDeviceSubClass");
    reveal_strlit("bDeviceProtocol");
    reveal_strlit("bMaxPacketSize0");
    reveal_strlit("max_speed");
    reveal_strlit("strings/0x409/manufacturer");
    reveal_strlit("strings/0x409/product");
    reveal_strlit("strings/0x409/serialnumber");
    let c = g.compose_steps(id);
    let home = g.gadget_path + seq!['/'];
    let n = home.len() as int;
    let a = home + "strings/0x409/"@;
    let b = home + "configs/c.1/"@;
    assert(a[n] == 's' && b[n] == 'c');
    assert forall|i: int| 0 <= i < 10 implies (#[trigger] c[i].op matches OpView::Write {
        path,
        value,
    } ==> !a.is_prefix_of(path)) by {
        if let OpView::Write { path, value } = c[i].op {
            assert(path[n] == 'i' || path[n] == 'b' || path[n] == 'm');
            if a.is_prefix_of(path) {
                assert(path.subrange(0, a.len() as int)[n] == a[n]);
            }
        }
    }
    assert forall|i: int| 0 <= i < 15 implies (#[trigger] c[i].op matches OpView::Write {
        path,
        value,
    } ==> !b.is_prefix_of(path)) by {
        if let OpView::Write { path, value } = c[i].op {
            assert(path[n] == 'i' || path[n] == 'b' || path[n] == 'm' || path[n] == 's');
            if b.is_prefix_of(path) {
                assert(path.subrange(0, b.len() as int)[n] == b[n]);
            }
        }
    }
}

/// What is undertaken, step for step, and on what: a setup, an attachment and a
/// teardown leave what is up on record until their steps change it; cleaning up
/// starts from nothing on record, with the mount point that it was given.
pub proof fn law_undertakings(
    g: GadgetView,
    id: IdentityView,
    path: Seq<char>,
    dir: Seq<char>,
    name: Seq<char>,
    udc: Seq<char>,
)
    ensures
        g.going_up(id).todo == g.setup_steps(id),
        g.attaching(path, dir, id).todo == GadgetView::attach_steps(path, dir, id),
        g.going_down().todo == g.teardown_steps(),
        g.going_down() == (GadgetView {
            todo: g.teardown_steps(),
            refused: None,
            identity_ok: true,
            ..g
        }),
        ({
            let s = GadgetView::stale(name, path, udc);
            &&& s.todo == s.stale_steps()
            &&& s.name == name && s.udc == udc && s.prev_gadget.len() == 0
            &&& path.len() > 0 ==> s.mount_point == path
            &&& path.len() == 0 ==> s.mount_point == "/dev/ffs-"@ + name
            &&& !s.composed && !s.mounted && !s.bound && !s.ep0
        }),
        g.endpoint_file(name) == g.mount_point + seq!['/'] + name,
{
    reveal_strlit("/");
    assert("/"@ =~= seq!['/']);
}

/// Giving up keeps the record of what is up, for the teardown.
pub proof fn law_giving_up_keeps_the_record(g: GadgetView, why: Refusal, p: Part)
    ensures
        g.refuse(why).refused == Some(why),
        g.refuse(why).todo.len() == 0,
        g.refuse(why).has(p) == g.has(p),
        g.refuse(why).prev_gadget == g.prev_gadget && g.refuse(why).udc == g.udc,
        g.refuse(why).name == g.name && g.refuse(why).mount_point == g.mount_point,
        g.refuse(why).gadget_path == g.gadget_path,
{
}

/// What is let go of is off the record, whatever came of it; and an attribute
/// that was not taken stops nothing yet.
pub proof fn law_letting_go(
    g: GadgetView,
    op: OpView,
    part: Part,
    q: Part,
    rest: Seq<StepView>,
    r: ReplyView,
)
    ensures
        about_to(g, step(op, AfterView::Lose(part)), rest) ==> {
            let t = g.react(r);
            !t.has(part) && (q != part ==> t.has(q) == g.has(q)) && t.todo == rest && t.refused
                == g.refused
        },
        about_to(g, step(op, AfterView::Attr), rest) ==> g.react(r) == (GadgetView {
            identity_ok: g.identity_ok && r.worked(op),
            todo: rest,
            ..g
        }),
        about_to(g, step(op, AfterView::CheckBcd), rest) ==> g.react(r) == (GadgetView {
            todo: rest,
            ..g
        }),
        about_to(g, step(op, AfterView::Ignore), rest) ==> g.react(r) == (GadgetView {
            todo: rest,
            ..g
        }),
{
    if g.todo.len() > 0 {
        assert(about_to(g, g.todo[0], rest) ==> g.todo.skip(1) =~= rest);
    }
    assert((seq![step(op, AfterView::Lose(part))] + rest)[0] == step(op, AfterView::Lose(part)));
    assert((seq![step(op, AfterView::Attr)] + rest)[0] == step(op, AfterView::Attr));
    assert((seq![step(op, AfterView::CheckBcd)] + rest)[0] == step(op, AfterView::CheckBcd));
    assert((seq![step(op, AfterView::Ignore)] + rest)[0] == step(op, AfterView::Ignore));
}

/// A directory that is gone is done with; with the last goes the tree.
pub proof fn law_directory_that_is_gone(
    g: GadgetView,
    path: Seq<char>,
    tries: u8,
    last: bool,
    rest: Seq<StepView>,
    r: ReplyView,
)
    requires
        about_to(g, step(OpView::RemoveDir(path), AfterView::Removed { tries, last }), rest),
        r.worked(OpView::RemoveDir(path)),
    ensures
        g.react(r) == (GadgetView { composed: g.composed && !last, todo: rest, ..g }),
{
    assert(g.todo[0].op == OpView::RemoveDir(path));
    assert(g.todo.skip(1) =~= rest);
}

/// Without a list of gadgets nobody is asked. After a killed run all other
/// gadgets that are listed may have had the controller.
pub proof fn law_who_is_asked(
    g: GadgetView,
    op: OpView,
    rest: Seq<StepView>,
    names: Seq<Seq<char>>,
    e: Errno,
)
    ensures
        about_to(g, step(op, AfterView::Owners), rest) ==> g.react(ReplyView::Failed(e)) == (
        GadgetView { todo: rest, ..g }),
        about_to(g, step(op, AfterView::Owners), rest) && others(listed(names), g.name).len() == 0
            ==> g.react(ReplyView::Names(names)) == (GadgetView { todo: rest, ..g }),
        about_to(g, step(op, AfterView::PastOwners), rest) ==> g.react(ReplyView::Names(names))
            == (GadgetView { todo: rest, ..g }).guess(others(listed(names), g.name)),
        about_to(g, step(op, AfterView::PastOwners), rest) ==> g.react(ReplyView::Failed(e)) == (
        GadgetView { todo: rest, ..g }).guess(Seq::empty()),
{
    if g.todo.len() > 0 {
        assert(about_to(g, g.todo[0], rest) ==> g.todo.skip(1) =~= rest);
    }
    assert((seq![step(op, AfterView::Owners)] + rest)[0] == step(op, AfterView::Owners));
    assert((seq![step(op, AfterView::PastOwners)] + rest)[0] == step(op, AfterView::PastOwners));
    let none = Seq::<Seq<char>>::empty();
    assert(listed(none) =~= none);
    assert(others(none, g.name) =~= none);
    assert(ReplyView::Failed(e).names() =~= none);
    if g.todo.len() > 0 && g.todo[0] == step(op, AfterView::Owners) && g.todo.skip(1) == rest {
        let t = g.react(ReplyView::Failed(e));
        assert(t.todo =~= rest);
        if others(listed(names), g.name).len() == 0 {
            assert(g.react(ReplyView::Names(names)).todo =~= rest);
        }
    }
}

} // verus!
