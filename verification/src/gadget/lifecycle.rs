//! Brings up the AOA interface on a FunctionFS instance, in one of two modes:
//!
//!   [`FunctionFsGadget::setup`]  - self-contained. Composes the whole gadget in
//!              configfs, mounts FunctionFS, writes the descriptors and binds the
//!              controller. Undone completely on teardown.
//!
//!   [`FunctionFsGadget::attach`] - cooperative. Somebody else (an init script,
//!              an existing multi-function gadget) composed the gadget and
//!              mounted FunctionFS; only the descriptors are written, and
//!              optionally a named configfs gadget is bound around the run.
//!
//! A gadget decides what is to be done, one operation at a time: perform the
//! operation of [`FunctionFsGadget::next`], hand what came of it to
//! [`FunctionFsGadget::reply`], until there is no next one.
use vstd::prelude::*;

use crate::gadget::steps::{add_step, no_steps, step_views};
use crate::gadget::steps::{After, AfterView, Note, Op, OpView, Part, Refusal, Reply, ReplyView, Step, StepView};
use crate::gadget::{descriptors, ffs_descriptors, ffs_strings, format_id, hex_id_text, list_dir, listed};
use crate::gadget::{strings, GadgetIdentity, IdentityView};
use crate::text::{cat, cat3, same, views};

verus! {

/// The pause after unbinding, in microseconds: lets in-flight transfers retire.
pub const UNBIND_PAUSE: u64 = 200_000;

/// How often the removal of a directory is tried. The gadget core finishes
/// releasing a function asynchronously, so a directory can still be busy for a
/// moment after the last thing referencing it is gone.
pub const REMOVE_TRIES: u8 = 20;

/// The pause after a failed try, in microseconds.
pub const REMOVE_PAUSE: u64 = 50_000;

/// Where configfs is mounted.
pub open spec fn configfs() -> Seq<char> {
    "/sys/kernel/config"@
}

/// The gadgets' directory in configfs.
pub open spec fn usb_gadget_dir() -> Seq<char> {
    "/sys/kernel/config/usb_gadget"@
}

/// The gadgets' directory in configfs.
fn gadgets() -> (s: String)
    ensures
        s@ == usb_gadget_dir(),
{
    "/sys/kernel/config/usb_gadget".to_owned()
}

/// A path below a directory.
pub open spec fn under(dir: Seq<char>, path: Seq<char>) -> Seq<char> {
    dir + "/"@ + path
}

/// A path below a directory.
fn below(dir: &str, path: &str) -> (s: String)
    ensures
        s@ == under(dir@, path@),
{
    cat3(dir, "/", path)
}

/// The file that says which controller a gadget is bound to.
pub open spec fn udc_file(gadget: Seq<char>) -> Seq<char> {
    under(under(usb_gadget_dir(), gadget), "UDC"@)
}

/// The file that says which controller a gadget is bound to.
pub fn udc_file_of(gadget: &str) -> (s: String)
    ensures
        s@ == udc_file(gadget@),
{
    below(below(gadgets().as_str(), gadget).as_str(), "UDC")
}

/// The gadgets other than the one named.
pub open spec fn others(names: Seq<Seq<char>>, name: Seq<char>) -> Seq<Seq<char>>
    decreases names.len(),
{
    if names.len() == 0 {
        Seq::empty()
    } else if names.last() == name {
        others(names.drop_last(), name)
    } else {
        others(names.drop_last(), name).push(names.last())
    }
}

/// The gadgets other than the one named.
fn other_gadgets(names: &[String], name: &str) -> (kept: Vec<String>)
    ensures
        views(kept@) == others(views(names@), name@),
{
    let mut kept: Vec<String> = Vec::new();
    let mut i: usize = 0;
    assert(views(names@).take(0) =~= Seq::empty());
    assert(views(kept@) =~= Seq::empty());
    while i < names.len()
        invariant
            i <= names@.len(),
            views(kept@) == others(views(names@).take(i as int), name@),
        decreases names@.len() - i,
    {
        let ghost before = kept@;
        let ghost seen = views(names@).take(i + 1);
        proof {
            assert(seen.drop_last() =~= views(names@).take(i as int));
            assert(seen.last() == names@[i as int]@);
        }
        if !same(names[i].as_str(), name) {
            kept.push(names[i].clone());
            assert(views(kept@) =~= views(before).push(seen.last()));
        }
        i = i + 1;
    }
    assert(views(names@).take(names@.len() as int) =~= views(names@));
    kept
}

// --- the model ------------------------------------------------------------------

/// A gadget, as plain values.
#[verifier::ext_equal]
pub struct GadgetView {
    pub name: Seq<char>,
    /// The controller; empty if there is none.
    pub udc: Seq<char>,
    pub mount_point: Seq<char>,
    pub gadget_path: Seq<char>,
    /// Whose controller was taken; empty if nobody's.
    pub prev_gadget: Seq<char>,
    /// ep0 is open.
    pub ep0: bool,
    /// FunctionFS was mounted.
    pub mounted: bool,
    /// The configfs tree was built.
    pub composed: bool,
    /// The controller was bound.
    pub bound: bool,
    /// Every attribute so far was accepted.
    pub identity_ok: bool,
    /// Why the last undertaking was given up, if it was.
    pub refused: Option<Refusal>,
    /// What is still to be done.
    pub todo: Seq<StepView>,
}

/// A step.
pub open spec fn step(op: OpView, after: AfterView) -> StepView {
    StepView { op, after }
}

/// Set an attribute of the gadget.
pub open spec fn attr_op(gadget: Seq<char>, name: Seq<char>, value: Seq<char>) -> OpView {
    OpView::Write { path: under(gadget, name), value }
}

/// Set an attribute of the gadget on the way to its identity.
pub open spec fn attr(gadget: Seq<char>, name: Seq<char>, value: Seq<char>) -> StepView {
    step(attr_op(gadget, name, value), AfterView::Attr)
}

/// Remove a directory.
pub open spec fn removal(path: Seq<char>, last: bool) -> StepView {
    step(OpView::RemoveDir(path), AfterView::Removed { tries: REMOVE_TRIES, last })
}

/// Write the descriptors and strings to ep0, which is what makes the function
/// (and the files of its endpoints) real; the gadget cannot bind before this.
pub open spec fn descriptor_steps(
    mount_point: Seq<char>,
    interface_name: Seq<char>,
    last: AfterView,
) -> Seq<StepView> {
    seq![
        step(
            OpView::OpenEp0(under(mount_point, "ep0"@)),
            AfterView::Gain(Refusal::NoEp0, Part::Ep0),
        ),
        step(
            OpView::WriteEp0(descriptors()),
            AfterView::Require(Refusal::DescriptorsRejected),
        ),
        step(OpView::WriteEp0(strings(vstd::utf8::encode_utf8(interface_name))), last),
    ]
}

/// Look where each of the gadgets is bound to.
pub open spec fn owner_steps(names: Seq<Seq<char>>) -> Seq<StepView> {
    names.map_values(|g: Seq<char>| step(OpView::Read(udc_file(g)), AfterView::Owner(g)))
}

impl GadgetView {
    /// A gadget of that name on that controller, nothing of it brought up.
    pub open spec fn fresh(name: Seq<char>, udc: Seq<char>) -> GadgetView {
        GadgetView {
            name,
            udc,
            mount_point: "/dev/ffs-"@ + name,
            gadget_path: under(usb_gadget_dir(), name),
            prev_gadget: Seq::empty(),
            ep0: false,
            mounted: false,
            composed: false,
            bound: false,
            identity_ok: true,
            refused: None,
            todo: Seq::empty(),
        }
    }

    /// Whether a part is up.
    pub open spec fn has(self, part: Part) -> bool {
        match part {
            Part::Tree => self.composed,
            Part::Mount => self.mounted,
            Part::Ep0 => self.ep0,
            Part::Bond => self.bound,
        }
    }

    /// With a part up, or down.
    pub open spec fn with(self, part: Part, up: bool) -> GadgetView {
        match part {
            Part::Tree => GadgetView { composed: up, ..self },
            Part::Mount => GadgetView { mounted: up, ..self },
            Part::Ep0 => GadgetView { ep0: up, ..self },
            Part::Bond => GadgetView { bound: up, ..self },
        }
    }

    /// Given up.
    pub open spec fn refuse(self, why: Refusal) -> GadgetView {
        GadgetView { refused: Some(why), todo: Seq::empty(), ..self }
    }

    /// With these steps to be done first.
    pub open spec fn first(self, steps: Seq<StepView>) -> GadgetView {
        GadgetView { todo: steps + self.todo, ..self }
    }

    /// With these steps to be done, and none given up.
    pub open spec fn begin(self, steps: Seq<StepView>) -> GadgetView {
        GadgetView { identity_ok: true, refused: None, todo: steps, ..self }
    }

    /// The name of the FunctionFS function.
    pub open spec fn function(self) -> Seq<char> {
        "ffs."@ + self.name
    }

    /// The function's directory.
    pub open spec fn function_dir(self) -> Seq<char> {
        under(under(self.gadget_path, "functions"@), self.function())
    }

    /// The function's link in the configuration.
    pub open spec fn function_link(self) -> Seq<char> {
        under(under(self.gadget_path, "configs/c.1"@), self.function())
    }

    /// Build the configfs tree: device descriptor, identity strings, one
    /// configuration, and the FunctionFS function linked into it. The AOA
    /// descriptors describe a USB 2.0 device, so a controller that is capable
    /// of more is kept from advertising it.
    pub open spec fn compose_steps(self, id: IdentityView) -> Seq<StepView> {
        let g = self.gadget_path;
        seq![
            step(OpView::MakeDir(g), AfterView::Gain(Refusal::NoTree, Part::Tree)),
            attr(g, "idVendor"@, hex_id_text(id.vid)),
            attr(g, "idProduct"@, hex_id_text(id.pid)),
            attr(g, "bcdUSB"@, "0x0200"@),
            attr(g, "bcdDevice"@, "0x0200"@),
            attr(g, "bDeviceClass"@, "0x00"@),
            attr(g, "bDeviceSubClass"@, "0x00"@),
            attr(g, "bDeviceProtocol"@, "0x00"@),
            attr(g, "bMaxPacketSize0"@, "64"@),
            attr(g, "max_speed"@, "high-speed"@),
            step(
                OpView::MakeDir(under(g, "strings/0x409"@)),
                AfterView::Require(Refusal::NoDeviceStrings),
            ),
            attr(g, "strings/0x409/manufacturer"@, id.manufacturer),
            attr(g, "strings/0x409/product"@, id.product),
            attr(g, "strings/0x409/serialnumber"@, id.serial),
            step(
                OpView::MakeDir(under(g, "configs/c.1"@)),
                AfterView::Require(Refusal::NoConfiguration),
            ),
            step(
                OpView::MakeDir(under(g, "configs/c.1/strings/0x409"@)),
                AfterView::Require(Refusal::NoConfiguration),
            ),
            attr(g, "configs/c.1/strings/0x409/configuration"@, id.configuration),
            attr(g, "configs/c.1/bmAttributes"@, "0xc0"@),
            step(attr_op(g, "configs/c.1/MaxPower"@, "2"@), AfterView::LastAttr),
            step(OpView::MakeDir(self.function_dir()), AfterView::Require(Refusal::NoFunction)),
            step(
                OpView::Link { target: self.function_dir(), path: self.function_link() },
                AfterView::Require(Refusal::NotLinked),
            ),
            step(OpView::MakeDir(self.mount_point), AfterView::Require(Refusal::NoMountPoint)),
            // The mount's source name is what pairs it with the function.
            step(
                OpView::Mount {
                    source: self.name,
                    target: self.mount_point,
                    kind: "functionfs"@,
                },
                AfterView::Gain(Refusal::NotMounted, Part::Mount),
            ),
        ]
    }

    /// Take the controller from whoever has it and bind it. Binding bumps
    /// bcdUSB to advertise more than USB 2.0; the accessory that the goggles
    /// expect is a plain USB 2.0 device, so it is put back.
    pub open spec fn bind_steps(self) -> Seq<StepView> {
        let g = self.gadget_path;
        seq![
            step(OpView::List(usb_gadget_dir()), AfterView::Owners),
            step(
                attr_op(g, "UDC"@, self.udc),
                AfterView::Gain(Refusal::NotBound, Part::Bond),
            ),
            step(attr_op(g, "bcdUSB"@, "0x0200"@), AfterView::Ignore),
            step(OpView::Read(under(g, "bcdUSB"@)), AfterView::CheckBcd),
        ]
    }

    /// Binding comes next. Without a controller there is nothing to bind to.
    pub open spec fn bind(self) -> GadgetView {
        if self.udc.len() == 0 {
            self.refuse(Refusal::NoUdc)
        } else {
            self.first(self.bind_steps())
        }
    }

    /// Make sure that configfs is there.
    pub open spec fn configfs_step() -> StepView {
        step(OpView::Exists(usb_gadget_dir()), AfterView::Configfs)
    }

    /// Mount configfs; the gadgets' directory must show.
    pub open spec fn mount_configfs_steps() -> Seq<StepView> {
        seq![
            step(
                OpView::Mount { source: "none"@, target: configfs(), kind: "configfs"@ },
                AfterView::Ignore,
            ),
            step(OpView::Exists(usb_gadget_dir()), AfterView::Require(Refusal::NoConfigfs)),
        ]
    }

    /// Compose everything, write the descriptors and bind.
    pub open spec fn setup_steps(self, id: IdentityView) -> Seq<StepView> {
        seq![
            GadgetView::configfs_step(),
            step(OpView::Exists(self.gadget_path), AfterView::Absent),
        ] + self.compose_steps(id) + descriptor_steps(
            self.mount_point,
            id.interface_name,
            AfterView::Bind,
        )
    }

    /// Write the descriptors to a FunctionFS that is mounted already, and bind
    /// a gadget if one is named.
    pub open spec fn attach_steps(
        ffs_path: Seq<char>,
        gadget_dir: Seq<char>,
        id: IdentityView,
    ) -> Seq<StepView> {
        seq![step(OpView::Exists(under(ffs_path, "ep0"@)), AfterView::Adopt(ffs_path))]
            + descriptor_steps(
            ffs_path,
            id.interface_name,
            AfterView::Require(Refusal::StringsRejected),
        ) + if gadget_dir.len() == 0 {
            Seq::empty()
        } else {
            seq![step(OpView::Exists(gadget_dir), AfterView::BindTo(gadget_dir))]
        }
    }

    /// Unbind, if it was bound.
    pub open spec fn unbind_steps(self) -> Seq<StepView> {
        if self.bound {
            seq![
                step(attr_op(self.gadget_path, "UDC"@, "\n"@), AfterView::Lose(Part::Bond)),
                step(OpView::Pause(UNBIND_PAUSE), AfterView::Ignore),
            ]
        } else {
            Seq::empty()
        }
    }

    /// Close ep0, if it is open.
    pub open spec fn close_steps(self) -> Seq<StepView> {
        if self.ep0 {
            seq![step(OpView::CloseEp0, AfterView::Lose(Part::Ep0))]
        } else {
            Seq::empty()
        }
    }

    /// Unmount, if it was mounted.
    pub open spec fn unmount_steps(self) -> Seq<StepView> {
        if self.mounted {
            seq![step(OpView::Detach(self.mount_point), AfterView::Lose(Part::Mount))]
        } else {
            Seq::empty()
        }
    }

    /// Take the configfs tree apart, from the leaves up.
    pub open spec fn removal_steps(self) -> Seq<StepView> {
        let g = self.gadget_path;
        seq![
            step(OpView::RemoveDir(self.mount_point), AfterView::Ignore),
            step(OpView::Unlink(self.function_link()), AfterView::Ignore),
            removal(under(g, "configs/c.1/strings/0x409"@), false),
            removal(under(g, "configs/c.1"@), false),
            removal(self.function_dir(), false),
            removal(under(g, "strings/0x409"@), false),
            removal(g, true),
        ]
    }

    /// Hand the controller back to the gadget that it was taken from. A run
    /// that took nothing (a free controller, or none bound) restores nothing.
    pub open spec fn restore_steps(self) -> Seq<StepView> {
        if self.prev_gadget.len() > 0 && self.udc.len() > 0 {
            seq![
                step(
                    OpView::Write { path: udc_file(self.prev_gadget), value: self.udc },
                    AfterView::HandedBack,
                ),
            ]
        } else {
            Seq::empty()
        }
    }

    /// Take down whatever is up, and nothing that is somebody else's.
    pub open spec fn teardown_steps(self) -> Seq<StepView> {
        if !self.composed && !self.bound && !self.ep0 {
            Seq::empty()
        } else if self.composed {
            self.unbind_steps() + self.close_steps() + self.unmount_steps() + self.removal_steps()
                + self.restore_steps()
        } else {
            self.unbind_steps() + self.close_steps() + self.restore_steps()
        }
    }

    /// See whether something was left behind.
    pub open spec fn stale_steps(self) -> Seq<StepView> {
        seq![
            GadgetView::configfs_step(),
            step(OpView::Exists(self.gadget_path), AfterView::StaleTree),
            step(OpView::Exists(self.mount_point), AfterView::StaleMount),
        ]
    }

    /// Something was left behind: take all of it down, whatever is there of it.
    pub open spec fn clean_up(self) -> GadgetView {
        GadgetView {
            composed: true,
            mounted: true,
            bound: true,
            todo: seq![step(OpView::List(usb_gadget_dir()), AfterView::PastOwners)],
            ..self
        }
    }

    /// See whether the first of the names may have had the controller; with no
    /// names left, take everything down.
    pub open spec fn guess(self, names: Seq<Seq<char>>) -> GadgetView {
        if names.len() == 0 {
            self.first(self.teardown_steps())
        } else {
            self.first(seq![step(OpView::Read(udc_file(names[0])), AfterView::PastOwner(names))])
        }
    }

    /// Try the removal of a directory again, or give up on it.
    pub open spec fn retry(self, op: OpView, tries: u8, last: bool) -> GadgetView {
        if tries > 1 {
            self.first(
                seq![
                    step(OpView::Pause(REMOVE_PAUSE), AfterView::Ignore),
                    step(op, AfterView::Removed { tries: (tries - 1) as u8, last }),
                ],
            )
        } else {
            self.first(
                seq![
                    step(
                        OpView::Pause(REMOVE_PAUSE),
                        if last {
                            AfterView::Lose(Part::Tree)
                        } else {
                            AfterView::Ignore
                        },
                    ),
                ],
            )
        }
    }

    /// The gadget once `r` came of step `s`, with the rest still to be done.
    pub open spec fn after(self, s: StepView, r: ReplyView) -> GadgetView {
        let ok = r.worked(s.op);
        match s.after {
            AfterView::Require(why) => if ok {
                self
            } else {
                self.refuse(why)
            },
            AfterView::Gain(why, part) => if ok {
                self.with(part, true)
            } else {
                self.refuse(why)
            },
            AfterView::Attr => GadgetView { identity_ok: self.identity_ok && ok, ..self },
            AfterView::LastAttr => if self.identity_ok && ok {
                self
            } else {
                self.refuse(Refusal::IdentityIncomplete)
            },
            AfterView::Ignore => self,
            AfterView::Lose(part) => self.with(part, false),
            AfterView::Configfs => if ok {
                self
            } else {
                self.first(GadgetView::mount_configfs_steps())
            },
            AfterView::Absent => if ok {
                self.refuse(Refusal::AlreadyExists)
            } else {
                self
            },
            AfterView::Owners => self.first(owner_steps(others(listed(r.names()), self.name))),
            AfterView::Owner(g) => if r.text() == self.udc {
                self.first(
                    seq![
                        step(
                            OpView::Write { path: udc_file(g), value: "\n"@ },
                            AfterView::Taken(g),
                        ),
                    ],
                )
            } else {
                self
            },
            AfterView::Taken(g) => if ok {
                GadgetView { prev_gadget: g, ..self }
            } else {
                self.refuse(Refusal::NotReleased)
            },
            AfterView::Bind => if ok {
                self.bind()
            } else {
                self.refuse(Refusal::StringsRejected)
            },
            AfterView::Adopt(path) => if ok {
                GadgetView { mount_point: path, ..self }
            } else {
                self.refuse(Refusal::NoFunctionFs)
            },
            AfterView::BindTo(dir) => if ok {
                GadgetView { gadget_path: dir, ..self }.bind()
            } else {
                self.refuse(Refusal::NoSuchGadget)
            },
            AfterView::CheckBcd => self,
            AfterView::Removed { tries, last } => if !ok {
                self.retry(s.op, tries, last)
            } else if last {
                self.with(Part::Tree, false)
            } else {
                self
            },
            AfterView::StaleTree => if ok {
                self.clean_up()
            } else {
                self
            },
            AfterView::StaleMount => if ok {
                self.clean_up()
            } else {
                self
            },
            AfterView::PastOwners => self.guess(others(listed(r.names()), self.name)),
            AfterView::PastOwner(names) => if names.len() == 0 {
                self
            } else if r.text().len() == 0 {
                GadgetView { prev_gadget: names[0], ..self }.guess(Seq::empty())
            } else {
                self.guess(names.skip(1))
            },
            AfterView::HandedBack => GadgetView { prev_gadget: Seq::empty(), ..self },
        }
    }

    /// Being brought up, all of it composed.
    pub open spec fn going_up(self, id: IdentityView) -> GadgetView {
        self.begin(self.setup_steps(id))
    }

    /// Being attached to a FunctionFS that somebody else mounted.
    pub open spec fn attaching(
        self,
        ffs_path: Seq<char>,
        gadget_dir: Seq<char>,
        id: IdentityView,
    ) -> GadgetView {
        self.begin(GadgetView::attach_steps(ffs_path, gadget_dir, id))
    }

    /// Being taken down.
    pub open spec fn going_down(self) -> GadgetView {
        self.begin(self.teardown_steps())
    }

    /// Being cleaned up after, with `mount_point` in place of the usual one unless
    /// it is empty.
    pub open spec fn stale(
        name: Seq<char>,
        mount_point: Seq<char>,
        udc: Seq<char>,
    ) -> GadgetView {
        let fresh = GadgetView::fresh(name, udc);
        let stale = if mount_point.len() == 0 {
            fresh
        } else {
            GadgetView { mount_point, ..fresh }
        };
        stale.begin(stale.stale_steps())
    }

    /// The file of an endpoint.
    pub open spec fn endpoint_file(self, name: Seq<char>) -> Seq<char> {
        under(self.mount_point, name)
    }

    /// The gadget once `r` came of the next step.
    pub open spec fn react(self, r: ReplyView) -> GadgetView {
        if self.todo.len() == 0 {
            self
        } else {
            GadgetView { todo: self.todo.skip(1), ..self }.after(self.todo[0], r)
        }
    }

    /// What is worth telling about what came of the next step.
    pub open spec fn note(self, r: ReplyView) -> Note {
        if self.todo.len() == 0 {
            Note::Quiet
        } else {
            self.todo[0].note(r)
        }
    }
}

// --- the gadget -----------------------------------------------------------------

/// A gadget on its way up, in use, or on its way down.
pub struct FunctionFsGadget {
    name: String,
    udc: String,
    mount_point: String,
    gadget_path: String,
    prev_gadget: String,
    ep0: bool,
    mounted: bool,
    composed: bool,
    bound: bool,
    identity_ok: bool,
    refused: Option<Refusal>,
    todo: Vec<Step>,
}

impl View for FunctionFsGadget {
    type V = GadgetView;

    closed spec fn view(&self) -> GadgetView {
        GadgetView {
            name: self.name@,
            udc: self.udc@,
            mount_point: self.mount_point@,
            gadget_path: self.gadget_path@,
            prev_gadget: self.prev_gadget@,
            ep0: self.ep0,
            mounted: self.mounted,
            composed: self.composed,
            bound: self.bound,
            identity_ok: self.identity_ok,
            refused: self.refused,
            todo: step_views(self.todo@),
        }
    }
}

/// Append an attribute.
fn add_attr(v: &mut Vec<Step>, gadget: &str, name: &str, value: &str)
    ensures
        step_views(final(v)@) == step_views(old(v)@).push(attr(gadget@, name@, value@)),
{
    let op = Op::Write { path: below(gadget, name), value: value.to_owned() };
    add_step(v, op, After::Attr);
}

/// Append the creation of a directory.
fn add_dir(v: &mut Vec<Step>, path: String, after: After)
    ensures
        step_views(final(v)@) == step_views(old(v)@).push(step(OpView::MakeDir(path@), after@)),
{
    add_step(v, Op::MakeDir(path), after);
}

/// Append the removal of a directory.
fn add_removal(v: &mut Vec<Step>, path: String, last: bool)
    ensures
        step_views(final(v)@) == step_views(old(v)@).push(removal(path@, last)),
{
    add_step(v, Op::RemoveDir(path), After::Removed { tries: REMOVE_TRIES, last });
}

/// Append writing the descriptors and strings.
fn add_descriptors(v: &mut Vec<Step>, mount_point: &str, interface_name: &str, last: After)
    ensures
        step_views(final(v)@) == step_views(old(v)@) + descriptor_steps(
            mount_point@,
            interface_name@,
            last@,
        ),
{
    add_step(
        v,
        Op::OpenEp0(below(mount_point, "ep0")),
        After::Gain(Refusal::NoEp0, Part::Ep0),
    );
    add_step(v, Op::WriteEp0(ffs_descriptors()), After::Require(Refusal::DescriptorsRejected));
    add_step(v, Op::WriteEp0(ffs_strings(interface_name)), last);
    assert(step_views(v@) =~= step_views(old(v)@) + descriptor_steps(
        mount_point@,
        interface_name@,
        last@,
    ));
}

impl FunctionFsGadget {
    /// A gadget of that name on that controller, nothing of it brought up.
    pub fn new(name: String, udc: String) -> (g: FunctionFsGadget)
        ensures
            g@ == GadgetView::fresh(name@, udc@),
    {
        let mount_point: String = cat("/dev/ffs-", name.as_str());
        let gadget_path: String = below(gadgets().as_str(), name.as_str());
        let prev_gadget: String = String::new();
        let todo: Vec<Step> = no_steps();
        FunctionFsGadget {
            name,
            udc,
            mount_point,
            gadget_path,
            prev_gadget,
            ep0: false,
            mounted: false,
            composed: false,
            bound: false,
            identity_ok: true,
            refused: None,
            todo,
        }
    }

    /// Override the default mount point (`/dev/ffs-<name>`). Self-composed mode.
    pub fn set_mount_point(&mut self, path: String)
        ensures
            final(self)@ == (GadgetView { mount_point: path@, ..old(self)@ }),
    {
        self.mount_point = path;
    }

    /// Whether ep0 is open.
    pub fn ep0(&self) -> (open: bool)
        ensures
            open == self@.ep0,
    {
        self.ep0
    }

    /// Why the last undertaking was given up, if it was.
    pub fn refused(&self) -> (why: Option<Refusal>)
        ensures
            why == self@.refused,
    {
        self.refused
    }

    /// The gadget whose controller was taken; empty if nobody's.
    pub fn previous_owner(&self) -> (g: &str)
        ensures
            g@ == self@.prev_gadget,
    {
        self.prev_gadget.as_str()
    }

    /// What to do next, if anything.
    pub fn next(&self) -> (s: Option<&Step>)
        ensures
            match s {
                Some(s) => self@.todo.len() > 0 && s@ == self@.todo[0],
                None => self@.todo.len() == 0,
            },
    {
        if self.todo.len() == 0 {
            None
        } else {
            Some(&self.todo[0])
        }
    }

    /// The file of an endpoint: `"ep1"` (IN, commands), `"ep2"` (OUT, video).
    pub fn open_endpoint(&self, name: &str) -> (path: String)
        ensures
            path@ == self@.endpoint_file(name@),
            path@ == under(self@.mount_point, name@),
    {
        below(self.mount_point.as_str(), name)
    }

    fn refuse(&mut self, why: Refusal)
        ensures
            final(self)@ == old(self)@.refuse(why),
    {
        self.refused = Some(why);
        self.todo = no_steps();
    }

    fn set(&mut self, part: Part, up: bool)
        ensures
            final(self)@ == old(self)@.with(part, up),
    {
        match part {
            Part::Tree => {
                self.composed = up;
            },
            Part::Mount => {
                self.mounted = up;
            },
            Part::Ep0 => {
                self.ep0 = up;
            },
            Part::Bond => {
                self.bound = up;
            },
        }
    }

    fn first(&mut self, steps: Vec<Step>)
        ensures
            final(self)@ == old(self)@.first(step_views(steps@)),
    {
        let ghost were = step_views(self.todo@);
        let mut all: Vec<Step> = steps;
        all.append(&mut self.todo);
        self.todo = all;
        assert(step_views(self.todo@) =~= step_views(steps@) + were);
    }

    fn first_one(&mut self, op: Op, after: After)
        ensures
            final(self)@ == old(self)@.first(seq![step(op@, after@)]),
    {
        let mut v: Vec<Step> = no_steps();
        add_step(&mut v, op, after);
        assert(step_views(v@) =~= seq![step(op@, after@)]);
        self.first(v);
    }

    fn begin(&mut self, steps: Vec<Step>)
        ensures
            final(self)@ == old(self)@.begin(step_views(steps@)),
    {
        self.identity_ok = true;
        self.refused = None;
        self.todo = steps;
    }

    fn function(&self) -> (s: String)
        ensures
            s@ == self@.function(),
    {
        cat("ffs.", self.name.as_str())
    }

    fn function_dir(&self) -> (s: String)
        ensures
            s@ == self@.function_dir(),
    {
        let dir: String = below(self.gadget_path.as_str(), "functions");
        below(dir.as_str(), self.function().as_str())
    }

    fn function_link(&self) -> (s: String)
        ensures
            s@ == self@.function_link(),
    {
        let dir: String = below(self.gadget_path.as_str(), "configs/c.1");
        below(dir.as_str(), self.function().as_str())
    }

    /// Build the configfs tree.
    fn compose(&self, id: &GadgetIdentity, v: &mut Vec<Step>)
        ensures
            step_views(final(v)@) == step_views(old(v)@) + self@.compose_steps(id@),
    {
        let g: &str = self.gadget_path.as_str();
        add_dir(v, g.to_owned(), After::Gain(Refusal::NoTree, Part::Tree));
        add_attr(v, g, "idVendor", format_id(id.vid).as_str());
        add_attr(v, g, "idProduct", format_id(id.pid).as_str());
        add_attr(v, g, "bcdUSB", "0x0200");
        add_attr(v, g, "bcdDevice", "0x0200");
        add_attr(v, g, "bDeviceClass", "0x00");
        add_attr(v, g, "bDeviceSubClass", "0x00");
        add_attr(v, g, "bDeviceProtocol", "0x00");
        add_attr(v, g, "bMaxPacketSize0", "64");
        add_attr(v, g, "max_speed", "high-speed");
        add_dir(v, below(g, "strings/0x409"), After::Require(Refusal::NoDeviceStrings));
        add_attr(v, g, "strings/0x409/manufacturer", id.manufacturer.as_str());
        add_attr(v, g, "strings/0x409/product", id.product.as_str());
        add_attr(v, g, "strings/0x409/serialnumber", id.serial.as_str());
        add_dir(v, below(g, "configs/c.1"), After::Require(Refusal::NoConfiguration));
        add_dir(
            v,
            below(g, "configs/c.1/strings/0x409"),
            After::Require(Refusal::NoConfiguration),
        );
        add_attr(v, g, "configs/c.1/strings/0x409/configuration", id.configuration.as_str());
        add_attr(v, g, "configs/c.1/bmAttributes", "0xc0");
        let power = Op::Write { path: below(g, "configs/c.1/MaxPower"), value: "2".to_owned() };
        add_step(v, power, After::LastAttr);
        add_dir(v, self.function_dir(), After::Require(Refusal::NoFunction));
        let link = Op::Link { target: self.function_dir(), path: self.function_link() };
        add_step(v, link, After::Require(Refusal::NotLinked));
        add_dir(v, self.mount_point.clone(), After::Require(Refusal::NoMountPoint));
        let mount = Op::Mount {
            source: self.name.clone(),
            target: self.mount_point.clone(),
            kind: "functionfs".to_owned(),
        };
        add_step(v, mount, After::Gain(Refusal::NotMounted, Part::Mount));
        assert(step_views(v@) =~= step_views(old(v)@) + self@.compose_steps(id@));
    }

    /// Take the controller from whoever has it and bind it.
    fn bind(&mut self)
        ensures
            final(self)@ == old(self)@.bind(),
    {
        if self.udc.as_str().is_empty() {
            self.refuse(Refusal::NoUdc);
            return;
        }
        let g: &str = self.gadget_path.as_str();
        let mut v: Vec<Step> = no_steps();
        add_step(&mut v, Op::List(gadgets()), After::Owners);
        let bind = Op::Write { path: below(g, "UDC"), value: self.udc.clone() };
        add_step(&mut v, bind, After::Gain(Refusal::NotBound, Part::Bond));
        let bcd = Op::Write { path: below(g, "bcdUSB"), value: "0x0200".to_owned() };
        add_step(&mut v, bcd, After::Ignore);
        add_step(&mut v, Op::Read(below(g, "bcdUSB")), After::CheckBcd);
        assert(step_views(v@) =~= self@.bind_steps());
        self.first(v);
    }

    /// Bring the gadget up, composing everything.
    pub fn setup(&mut self, id: &GadgetIdentity)
        ensures
            final(self)@ == old(self)@.going_up(id@),
            final(self)@ == old(self)@.begin(old(self)@.setup_steps(id@)),
    {
        let mut v: Vec<Step> = no_steps();
        add_step(&mut v, Op::Exists(gadgets()), After::Configfs);
        add_step(&mut v, Op::Exists(self.gadget_path.clone()), After::Absent);
        assert(step_views(v@) =~= seq![
            GadgetView::configfs_step(),
            step(OpView::Exists(self@.gadget_path), AfterView::Absent),
        ]);
        self.compose(id, &mut v);
        add_descriptors(
            &mut v,
            self.mount_point.as_str(),
            id.interface_name.as_str(),
            After::Bind,
        );
        self.begin(v);
    }

    /// Use a FunctionFS that somebody else mounted; bind the gadget that is
    /// named, if one is.
    pub fn attach(&mut self, ffs_path: &str, gadget_dir: &str, id: &GadgetIdentity)
        ensures
            final(self)@ == old(self)@.attaching(ffs_path@, gadget_dir@, id@),
            final(self)@ == old(self)@.begin(
                GadgetView::attach_steps(ffs_path@, gadget_dir@, id@),
            ),
    {
        let mut v: Vec<Step> = no_steps();
        add_step(&mut v, Op::Exists(below(ffs_path, "ep0")), After::Adopt(ffs_path.to_owned()));
        add_descriptors(
            &mut v,
            ffs_path,
            id.interface_name.as_str(),
            After::Require(Refusal::StringsRejected),
        );
        if !gadget_dir.is_empty() {
            add_step(
                &mut v,
                Op::Exists(gadget_dir.to_owned()),
                After::BindTo(gadget_dir.to_owned()),
            );
        }
        assert(step_views(v@) =~= GadgetView::attach_steps(ffs_path@, gadget_dir@, id@));
        self.begin(v);
    }

    /// The steps that take down whatever is up.
    fn down(&self) -> (v: Vec<Step>)
        ensures
            step_views(v@) == self@.teardown_steps(),
    {
        let mut v: Vec<Step> = no_steps();
        if !self.composed && !self.bound && !self.ep0 {
            return v;
        }
        let g: &str = self.gadget_path.as_str();
        if self.bound {
            let unbind = Op::Write { path: below(g, "UDC"), value: "\n".to_owned() };
            add_step(&mut v, unbind, After::Lose(Part::Bond));
            add_step(&mut v, Op::Pause(UNBIND_PAUSE), After::Ignore);
        }
        if self.ep0 {
            add_step(&mut v, Op::CloseEp0, After::Lose(Part::Ep0));
        }
        assert(step_views(v@) =~= self@.unbind_steps() + self@.close_steps());
        if self.composed {
            if self.mounted {
                add_step(
                    &mut v,
                    Op::Detach(self.mount_point.clone()),
                    After::Lose(Part::Mount),
                );
            }
            assert(step_views(v@) =~= self@.unbind_steps() + self@.close_steps()
                + self@.unmount_steps());
            let ghost so_far = step_views(v@);
            add_step(&mut v, Op::RemoveDir(self.mount_point.clone()), After::Ignore);
            add_step(&mut v, Op::Unlink(self.function_link()), After::Ignore);
            add_removal(&mut v, below(g, "configs/c.1/strings/0x409"), false);
            add_removal(&mut v, below(g, "configs/c.1"), false);
            add_removal(&mut v, self.function_dir(), false);
            add_removal(&mut v, below(g, "strings/0x409"), false);
            add_removal(&mut v, g.to_owned(), true);
            assert(step_views(v@) =~= so_far + self@.removal_steps());
        }
        let ghost so_far = step_views(v@);
        if !self.prev_gadget.as_str().is_empty() && !self.udc.as_str().is_empty() {
            let back = Op::Write {
                path: udc_file_of(self.prev_gadget.as_str()),
                value: self.udc.clone(),
            };
            add_step(&mut v, back, After::HandedBack);
        }
        assert(step_views(v@) =~= so_far + self@.restore_steps());
        v
    }

    /// Take down whatever is up, and nothing that is somebody else's.
    pub fn teardown(&mut self)
        ensures
            final(self)@ == old(self)@.going_down(),
            final(self)@ == old(self)@.begin(old(self)@.teardown_steps()),
    {
        let v: Vec<Step> = self.down();
        self.begin(v);
    }

    /// Remove a gadget left behind by a killed run and hand the controller
    /// (empty: none available) back to whichever other gadget is left unbound.
    pub fn cleanup_stale(name: &str, mount_point: &str, udc: &str) -> (g: FunctionFsGadget)
        ensures
            g@ == GadgetView::stale(name@, mount_point@, udc@),
            ({
                let fresh = GadgetView::fresh(name@, udc@);
                let stale = if mount_point@.len() == 0 {
                    fresh
                } else {
                    GadgetView { mount_point: mount_point@, ..fresh }
                };
                g@ == stale.begin(stale.stale_steps())
            }),
    {
        let mut g = FunctionFsGadget::new(name.to_owned(), udc.to_owned());
        if !mount_point.is_empty() {
            g.set_mount_point(mount_point.to_owned());
        }
        let mut v: Vec<Step> = no_steps();
        add_step(&mut v, Op::Exists(gadgets()), After::Configfs);
        add_step(&mut v, Op::Exists(g.gadget_path.clone()), After::StaleTree);
        add_step(&mut v, Op::Exists(g.mount_point.clone()), After::StaleMount);
        assert(step_views(v@) =~= g@.stale_steps());
        g.begin(v);
        g
    }

    /// Something was left behind.
    fn clean_up(&mut self)
        ensures
            final(self)@ == old(self)@.clean_up(),
    {
        self.composed = true;
        self.mounted = true;  // unmounting is harmless if it is not
        self.bound = true;
        let mut v: Vec<Step> = no_steps();
        add_step(&mut v, Op::List(gadgets()), After::PastOwners);
        self.todo = v;
        assert(step_views(self.todo@) =~= old(self)@.clean_up().todo);
    }

    /// The killed run took its record of the previous owner with it, so guess:
    /// the first other gadget that is left without a controller.
    fn guess(&mut self, names: Vec<String>)
        ensures
            final(self)@ == old(self)@.guess(views(names@)),
    {
        if names.len() == 0 {
            let v: Vec<Step> = self.down();
            self.first(v);
        } else {
            assert(views(names@)[0] == names@[0]@);
            let path: String = udc_file_of(names[0].as_str());
            self.first_one(Op::Read(path), After::PastOwner(names));
        }
    }

    /// See whether one of these gadgets has the controller.
    fn look_for_owner(&mut self, names: Vec<String>)
        ensures
            final(self)@ == old(self)@.first(owner_steps(views(names@))),
    {
        let mut v: Vec<Step> = no_steps();
        let mut i: usize = 0;
        assert(step_views(v@) =~= owner_steps(views(names@).take(0)));
        while i < names.len()
            invariant
                *self == *old(self),
                i <= names@.len(),
                step_views(v@) == owner_steps(views(names@).take(i as int)),
            decreases names@.len() - i,
        {
            let ghost before = step_views(v@);
            let path: String = udc_file_of(names[i].as_str());
            add_step(&mut v, Op::Read(path), After::Owner(names[i].clone()));
            proof {
                let seen = views(names@).take(i + 1);
                assert(seen =~= views(names@).take(i as int).push(names@[i as int]@));
                assert(step_views(v@) =~= owner_steps(seen));
            }
            i = i + 1;
        }
        assert(views(names@).take(i as int) =~= views(names@));
        self.first(v);
    }

    /// Mount configfs.
    fn mount_configfs(&mut self)
        ensures
            final(self)@ == old(self)@.first(GadgetView::mount_configfs_steps()),
    {
        let mut v: Vec<Step> = no_steps();
        let mount = Op::Mount {
            source: "none".to_owned(),
            target: "/sys/kernel/config".to_owned(),
            kind: "configfs".to_owned(),
        };
        add_step(&mut v, mount, After::Ignore);
        add_step(&mut v, Op::Exists(gadgets()), After::Require(Refusal::NoConfigfs));
        assert(step_views(v@) =~= GadgetView::mount_configfs_steps());
        self.first(v);
    }

    /// Try the removal of a directory again, or give up on it.
    fn retry(&mut self, op: Op, tries: u8, last: bool)
        ensures
            final(self)@ == old(self)@.retry(op@, tries, last),
    {
        let mut v: Vec<Step> = no_steps();
        if tries > 1 {
            add_step(&mut v, Op::Pause(REMOVE_PAUSE), After::Ignore);
            add_step(&mut v, op, After::Removed { tries: tries - 1, last });
            assert(step_views(v@) =~= seq![
                step(OpView::Pause(REMOVE_PAUSE), AfterView::Ignore),
                step(op@, AfterView::Removed { tries: (tries - 1) as u8, last }),
            ]);
            self.first(v);
        } else if last {
            self.first_one(Op::Pause(REMOVE_PAUSE), After::Lose(Part::Tree));
        } else {
            self.first_one(Op::Pause(REMOVE_PAUSE), After::Ignore);
        }
    }

    /// Account for what came of a step.
    #[verifier::rlimit(60)]
    fn after(&mut self, s: Step, r: Reply)
        ensures
            final(self)@ == old(self)@.after(s@, r@),
    {
        let ok: bool = r.worked(&s.op);
        match s.after {
            After::Require(why) => {
                if !ok {
                    self.refuse(why);
                }
            },
            After::Gain(why, part) => {
                if ok {
                    self.set(part, true);
                } else {
                    self.refuse(why);
                }
            },
            After::Attr => {
                self.identity_ok = self.identity_ok && ok;
            },
            After::LastAttr => {
                if !self.identity_ok || !ok {
                    self.refuse(Refusal::IdentityIncomplete);
                }
            },
            After::Ignore => {},
            After::Lose(part) => {
                self.set(part, false);
            },
            After::Configfs => {
                if !ok {
                    self.mount_configfs();
                }
            },
            After::Absent => {
                if ok {
                    self.refuse(Refusal::AlreadyExists);
                }
            },
            After::Owners => {
                let names: Vec<String> = list_dir(r.names().as_slice());
                let names: Vec<String> = other_gadgets(names.as_slice(), self.name.as_str());
                self.look_for_owner(names);
            },
            After::Owner(g) => {
                if same(r.text(), self.udc.as_str()) {
                    let path: String = udc_file_of(g.as_str());
                    self.first_one(
                        Op::Write { path, value: "\n".to_owned() },
                        After::Taken(g),
                    );
                }
            },
            After::Taken(g) => {
                if ok {
                    self.prev_gadget = g;
                } else {
                    self.refuse(Refusal::NotReleased);
                }
            },
            After::Bind => {
                if ok {
                    self.bind();
                } else {
                    self.refuse(Refusal::StringsRejected);
                }
            },
            After::Adopt(path) => {
                if ok {
                    self.mount_point = path;
                } else {
                    self.refuse(Refusal::NoFunctionFs);
                }
            },
            After::BindTo(dir) => {
                if ok {
                    self.gadget_path = dir;
                    self.bind();
                } else {
                    self.refuse(Refusal::NoSuchGadget);
                }
            },
            After::CheckBcd => {},
            After::Removed { tries, last } => {
                if !ok {
                    self.retry(s.op, tries, last);
                } else if last {
                    self.set(Part::Tree, false);
                }
            },
            After::StaleTree => {
                if ok {
                    self.clean_up();
                }
            },
            After::StaleMount => {
                if ok {
                    self.clean_up();
                }
            },
            After::PastOwners => {
                let names: Vec<String> = list_dir(r.names().as_slice());
                let names: Vec<String> = other_gadgets(names.as_slice(), self.name.as_str());
                self.guess(names);
            },
            After::PastOwner(names) => {
                if names.len() > 0 {
                    let mut names: Vec<String> = names;
                    let ghost were = views(names@);
                    let g: String = names.remove(0);
                    assert(g@ == were[0]);
                    assert(views(names@) =~= were.skip(1));
                    if r.text().is_empty() {
                        self.prev_gadget = g;
                        let none: Vec<String> = Vec::new();
                        assert(views(none@) =~= Seq::empty());
                        self.guess(none);
                    } else {
                        self.guess(names);
                    }
                }
            },
            After::HandedBack => {
                self.prev_gadget = String::new();
            },
        }
    }

    /// Account for what came of the next step, and say what is worth telling
    /// about it.
    pub fn reply(&mut self, r: Reply) -> (note: Note)
        ensures
            final(self)@ == old(self)@.react(r@),
            note == old(self)@.note(r@),
    {
        if self.todo.len() == 0 {
            return Note::Quiet;
        }
        let s: Step = self.todo.remove(0);
        assert(step_views(self.todo@) =~= old(self)@.todo.skip(1));
        let note: Note = s.note(&r);
        self.after(s, r);
        note
    }
}

} // verus!
