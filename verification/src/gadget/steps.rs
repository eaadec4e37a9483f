//! The vocabulary of the gadget's life: single operations on configfs, sysfs
//! and FunctionFS, what came of them, and what hangs on the result.
use vstd::prelude::*;

use crate::common::Errno;
use crate::gadget::{file_text, trim_file};
use crate::text::views;

verus! {

/// One operation on the system.
pub enum Op {
    /// See whether a path exists.
    Exists(String),
    /// Create a directory.
    MakeDir(String),
    /// Remove a directory.
    RemoveDir(String),
    /// Remove a link.
    Unlink(String),
    /// Write a value, all of it, to a file that is there.
    Write { path: String, value: String },
    /// Read a short file.
    Read(String),
    /// List a directory.
    List(String),
    /// Make a symbolic link.
    Link { target: String, path: String },
    /// Mount a file system.
    Mount { source: String, target: String, kind: String },
    /// Unmount lazily: the kernel lets go of the file system once its last
    /// reference is gone. A plain unmount can park the process for good,
    /// waiting for the superblock's writeback.
    Detach(String),
    /// Open ep0.
    OpenEp0(String),
    /// Write a block to ep0.
    WriteEp0(Vec<u8>),
    /// Close ep0.
    CloseEp0,
    /// Wait, in microseconds.
    Pause(u64),
}

/// One operation, as plain values.
#[verifier::ext_equal]
pub enum OpView {
    Exists(Seq<char>),
    MakeDir(Seq<char>),
    RemoveDir(Seq<char>),
    Unlink(Seq<char>),
    Write { path: Seq<char>, value: Seq<char> },
    Read(Seq<char>),
    List(Seq<char>),
    Link { target: Seq<char>, path: Seq<char> },
    Mount { source: Seq<char>, target: Seq<char>, kind: Seq<char> },
    Detach(Seq<char>),
    OpenEp0(Seq<char>),
    WriteEp0(Seq<u8>),
    CloseEp0,
    Pause(u64),
}

impl View for Op {
    type V = OpView;

    open spec fn view(&self) -> OpView {
        match self {
            Op::Exists(p) => OpView::Exists(p@),
            Op::MakeDir(p) => OpView::MakeDir(p@),
            Op::RemoveDir(p) => OpView::RemoveDir(p@),
            Op::Unlink(p) => OpView::Unlink(p@),
            Op::Write { path, value } => OpView::Write { path: path@, value: value@ },
            Op::Read(p) => OpView::Read(p@),
            Op::List(p) => OpView::List(p@),
            Op::Link { target, path } => OpView::Link { target: target@, path: path@ },
            Op::Mount { source, target, kind } => OpView::Mount {
                source: source@,
                target: target@,
                kind: kind@,
            },
            Op::Detach(p) => OpView::Detach(p@),
            Op::OpenEp0(p) => OpView::OpenEp0(p@),
            Op::WriteEp0(b) => OpView::WriteEp0(b@),
            Op::CloseEp0 => OpView::CloseEp0,
            Op::Pause(us) => OpView::Pause(*us),
        }
    }
}

/// What came of an operation.
pub enum Reply {
    /// It worked.
    Done,
    /// It failed.
    Failed(Errno),
    /// The entries of the directory that was listed.
    Names(Vec<String>),
    /// The contents of the file that was read.
    Text(String),
}

/// What came of an operation, as plain values.
#[verifier::ext_equal]
pub enum ReplyView {
    Done,
    Failed(Errno),
    Names(Seq<Seq<char>>),
    Text(Seq<char>),
}

impl View for Reply {
    type V = ReplyView;

    open spec fn view(&self) -> ReplyView {
        match self {
            Reply::Done => ReplyView::Done,
            Reply::Failed(e) => ReplyView::Failed(*e),
            Reply::Names(v) => ReplyView::Names(views(v@)),
            Reply::Text(t) => ReplyView::Text(t@),
        }
    }
}

impl ReplyView {
    /// The operation has had its effect: it worked, or what it was to bring
    /// about was so already. A directory or a link to be made may be there, a
    /// directory to be removed may be gone.
    pub open spec fn worked(self, op: OpView) -> bool {
        match self {
            ReplyView::Done => true,
            ReplyView::Failed(Errno::Exists) => op is MakeDir || op is Link,
            ReplyView::Failed(Errno::NotFound) => op is RemoveDir,
            _ => false,
        }
    }

    /// The names that were listed; none if listing failed.
    pub open spec fn names(self) -> Seq<Seq<char>> {
        match self {
            ReplyView::Names(v) => v,
            _ => Seq::empty(),
        }
    }

    /// What the file says; nothing if reading failed.
    pub open spec fn text(self) -> Seq<char> {
        match self {
            ReplyView::Text(t) => file_text(t),
            _ => Seq::empty(),
        }
    }
}

impl Reply {
    /// Whether the operation has had its effect.
    pub fn worked(&self, op: &Op) -> (yes: bool)
        ensures
            yes == self@.worked(op@),
    {
        match self {
            Reply::Done => true,
            Reply::Failed(Errno::Exists) => match op {
                Op::MakeDir(_) => true,
                Op::Link { .. } => true,
                _ => false,
            },
            Reply::Failed(Errno::NotFound) => match op {
                Op::RemoveDir(_) => true,
                _ => false,
            },
            _ => false,
        }
    }

    /// The names that were listed; none if listing failed.
    pub fn names(self) -> (v: Vec<String>)
        ensures
            views(v@) == self@.names(),
    {
        match self {
            Reply::Names(v) => v,
            _ => {
                let v: Vec<String> = Vec::new();
                assert(views(v@) =~= Seq::empty());
                v
            },
        }
    }

    /// What the file says; nothing if reading failed.
    pub fn text<'a>(&'a self) -> (t: &'a str)
        ensures
            t@ == self@.text(),
    {
        match self {
            Reply::Text(t) => trim_file(t.as_str()),
            _ => {
                proof {
                    reveal_strlit("");
                }
                ""
            },
        }
    }
}

/// What has been brought up, and has to be taken down again.
#[derive(Clone, Copy, Debug, PartialEq, Eq, Structural)]
pub enum Part {
    /// The configfs tree.
    Tree,
    /// The FunctionFS mount.
    Mount,
    /// The open ep0.
    Ep0,
    /// The bond with the controller.
    Bond,
}

/// Why bringing up, or cleaning up, was given up.
#[derive(Clone, Copy, Debug, PartialEq, Eq, Structural)]
pub enum Refusal {
    /// configfs has no room for gadgets, even once it is mounted.
    NoConfigfs,
    /// A gadget of that name is there already.
    AlreadyExists,
    /// The gadget's directory cannot be created.
    NoTree,
    /// The directory of the device strings cannot be created.
    NoDeviceStrings,
    /// The configuration's directories cannot be created.
    NoConfiguration,
    /// Some attribute was not accepted: the goggles would reject the identity.
    IdentityIncomplete,
    /// The function's directory cannot be created.
    NoFunction,
    /// The function cannot be linked into the configuration.
    NotLinked,
    /// The mount point cannot be created.
    NoMountPoint,
    /// FunctionFS cannot be mounted.
    NotMounted,
    /// ep0 cannot be opened.
    NoEp0,
    /// ep0 did not take the descriptors.
    DescriptorsRejected,
    /// ep0 did not take the strings.
    StringsRejected,
    /// There is no controller to bind to.
    NoUdc,
    /// The gadget that has the controller cannot be unbound from it.
    NotReleased,
    /// The controller cannot be bound.
    NotBound,
    /// There is no FunctionFS where it should be mounted.
    NoFunctionFs,
    /// There is no such gadget to bind.
    NoSuchGadget,
}

/// What hangs on the result of an operation.
pub enum After {
    /// It must work.
    Require(Refusal),
    /// It must work, and a part is up then.
    Gain(Refusal, Part),
    /// It must have worked by the time the identity is complete.
    Attr,
    /// The same, and this completes the identity.
    LastAttr,
    /// Nothing.
    Ignore,
    /// Nothing, and a part is down now.
    Lose(Part),
    /// If configfs shows no gadgets, it has to be mounted.
    Configfs,
    /// The gadget must not exist.
    Absent,
    /// The gadgets there are: one of them may have the controller.
    Owners,
    /// Where this gadget is bound to.
    Owner(String),
    /// The controller is free of this gadget.
    Taken(String),
    /// It must work, and binding is next.
    Bind,
    /// FunctionFS must be mounted here; it is the one to use.
    Adopt(String),
    /// This gadget must exist; binding it is next.
    BindTo(String),
    /// The USB version that the kernel holds the gadget to.
    CheckBcd,
    /// A directory should be gone, after so many more tries at most; with the
    /// last one goes the tree.
    Removed { tries: u8, last: bool },
    /// The gadget was left behind.
    StaleTree,
    /// The mount point was left behind.
    StaleMount,
    /// The gadgets there are: one of them may have had the controller.
    PastOwners,
    /// Where the first of these gadgets is bound to.
    PastOwner(Vec<String>),
    /// The controller is handed back.
    HandedBack,
}

/// What hangs on the result of an operation, as plain values.
#[verifier::ext_equal]
pub enum AfterView {
    Require(Refusal),
    Gain(Refusal, Part),
    Attr,
    LastAttr,
    Ignore,
    Lose(Part),
    Configfs,
    Absent,
    Owners,
    Owner(Seq<char>),
    Taken(Seq<char>),
    Bind,
    Adopt(Seq<char>),
    BindTo(Seq<char>),
    CheckBcd,
    Removed { tries: u8, last: bool },
    StaleTree,
    StaleMount,
    PastOwners,
    PastOwner(Seq<Seq<char>>),
    HandedBack,
}

impl View for After {
    type V = AfterView;

    open spec fn view(&self) -> AfterView {
        match self {
            After::Require(why) => AfterView::Require(*why),
            After::Gain(why, part) => AfterView::Gain(*why, *part),
            After::Attr => AfterView::Attr,
            After::LastAttr => AfterView::LastAttr,
            After::Ignore => AfterView::Ignore,
            After::Lose(part) => AfterView::Lose(*part),
            After::Configfs => AfterView::Configfs,
            After::Absent => AfterView::Absent,
            After::Owners => AfterView::Owners,
            After::Owner(g) => AfterView::Owner(g@),
            After::Taken(g) => AfterView::Taken(g@),
            After::Bind => AfterView::Bind,
            After::Adopt(p) => AfterView::Adopt(p@),
            After::BindTo(d) => AfterView::BindTo(d@),
            After::CheckBcd => AfterView::CheckBcd,
            After::Removed { tries, last } => AfterView::Removed { tries: *tries, last: *last },
            After::StaleTree => AfterView::StaleTree,
            After::StaleMount => AfterView::StaleMount,
            After::PastOwners => AfterView::PastOwners,
            After::PastOwner(v) => AfterView::PastOwner(views(v@)),
            After::HandedBack => AfterView::HandedBack,
        }
    }
}

/// An operation, and what hangs on its result.
pub struct Step {
    pub op: Op,
    pub after: After,
}

/// An operation and what hangs on its result, as plain values.
#[verifier::ext_equal]
pub struct StepView {
    pub op: OpView,
    pub after: AfterView,
}

impl View for Step {
    type V = StepView;

    open spec fn view(&self) -> StepView {
        StepView { op: self.op@, after: self.after@ }
    }
}

/// The steps, as plain values.
pub open spec fn step_views(v: Seq<Step>) -> Seq<StepView> {
    v.map_values(|s: Step| s@)
}

/// Append a step.
pub(crate) fn add_step(v: &mut Vec<Step>, op: Op, next: After)
    ensures
        step_views(final(v)@) == step_views(old(v)@).push(StepView { op: op@, after: next@ }),
{
    v.push(Step { op, after: next });
    assert(step_views(v@) =~= step_views(old(v)@).push(StepView { op: op@, after: next@ }));
}

/// No steps.
pub(crate) fn no_steps() -> (v: Vec<Step>)
    ensures
        step_views(v@) == Seq::<StepView>::empty(),
{
    let v: Vec<Step> = Vec::new();
    assert(step_views(v@) =~= Seq::empty());
    v
}

/// Something worth telling about a result.
#[derive(Clone, Copy, Debug, PartialEq, Eq, Structural)]
pub enum Note {
    /// Nothing.
    Quiet,
    /// configfs rejected an attribute. It does so when the attribute is
    /// written; unsaid, it would show up much later as a gadget that the
    /// goggles refuse to talk to.
    CannotSet,
    /// The directory cannot be removed.
    CannotRemove,
    /// The kernel holds the gadget to another USB version.
    BcdHeld,
    /// There is nothing to clean up.
    NothingToCleanUp,
    /// The controller was handed back to the gadget it was taken from.
    HandedBack,
    /// It could not be handed back.
    NotHandedBack,
}

impl StepView {
    /// What is worth telling when `r` came of this step.
    pub open spec fn note(self, r: ReplyView) -> Note {
        let ok = r.worked(self.op);
        match self.after {
            AfterView::Attr => if ok {
                Note::Quiet
            } else {
                Note::CannotSet
            },
            AfterView::LastAttr => if ok {
                Note::Quiet
            } else {
                Note::CannotSet
            },
            AfterView::Removed { tries, last } => if ok || tries > 1 {
                Note::Quiet
            } else {
                Note::CannotRemove
            },
            AfterView::CheckBcd => if r.text() == "0x0200"@ {
                Note::Quiet
            } else {
                Note::BcdHeld
            },
            AfterView::StaleMount => if ok {
                Note::Quiet
            } else {
                Note::NothingToCleanUp
            },
            AfterView::HandedBack => if ok {
                Note::HandedBack
            } else {
                Note::NotHandedBack
            },
            _ => Note::Quiet,
        }
    }
}

impl Step {
    /// What is worth telling when `r` came of this step.
    pub fn note(&self, r: &Reply) -> (note: Note)
        ensures
            note == self@.note(r@),
    {
        let ok: bool = r.worked(&self.op);
        match &self.after {
            After::Attr => if ok {
                Note::Quiet
            } else {
                Note::CannotSet
            },
            After::LastAttr => if ok {
                Note::Quiet
            } else {
                Note::CannotSet
            },
            After::Removed { tries, last } => if ok || *tries > 1 {
                Note::Quiet
            } else {
                Note::CannotRemove
            },
            After::CheckBcd => if crate::text::same(r.text(), "0x0200") {
                Note::Quiet
            } else {
                Note::BcdHeld
            },
            After::StaleMount => if ok {
                Note::Quiet
            } else {
                Note::NothingToCleanUp
            },
            After::HandedBack => if ok {
                Note::HandedBack
            } else {
                Note::NotHandedBack
            },
            _ => Note::Quiet,
        }
    }
}

} // verus!
