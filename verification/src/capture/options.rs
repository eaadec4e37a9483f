//! How the gadget should be brought up, and on which controller.
use vstd::prelude::*;

use crate::gadget::lifecycle::GadgetView;
use crate::gadget::{FunctionFsGadget, GadgetIdentity, IdentityView};
use crate::text::{same, views};

verus! {

/// How the gadget should be brought up. An empty `ffs_path` means "compose it
/// ourselves"; otherwise the capture attaches to a FunctionFS instance someone
/// else set up (an init script, an existing multi-function gadget).
pub struct Options {
    /// Empty: the board's only controller.
    pub udc: String,
    /// The configfs gadget and FunctionFS instance name.
    pub gadget_name: String,
    /// Empty: `/dev/ffs-<gadget_name>`.
    pub mount_point: String,
    /// Attach mode.
    pub ffs_path: String,
    /// Attach mode: the gadget to bind, optional.
    pub gadget_dir: String,
}

/// What the options say.
#[verifier::ext_equal]
pub struct OptionsView {
    pub udc: Seq<char>,
    pub gadget_name: Seq<char>,
    pub mount_point: Seq<char>,
    pub ffs_path: Seq<char>,
    pub gadget_dir: Seq<char>,
}

impl View for Options {
    type V = OptionsView;

    open spec fn view(&self) -> OptionsView {
        OptionsView {
            udc: self.udc@,
            gadget_name: self.gadget_name@,
            mount_point: self.mount_point@,
            ffs_path: self.ffs_path@,
            gadget_dir: self.gadget_dir@,
        }
    }
}

impl OptionsView {
    /// A gadget of our own, named "goggles", on the board's only controller.
    pub open spec fn standard() -> OptionsView {
        OptionsView {
            udc: Seq::empty(),
            gadget_name: "goggles"@,
            mount_point: Seq::empty(),
            ffs_path: Seq::empty(),
            gadget_dir: Seq::empty(),
        }
    }

    /// A controller is needed, unless somebody else binds the FunctionFS that
    /// the capture attaches to.
    pub open spec fn needs_udc(self) -> bool {
        self.ffs_path.len() == 0 || self.gadget_dir.len() > 0
    }

    /// The gadget on its way up, on controller `udc`.
    pub open spec fn started(self, udc: Seq<char>, id: IdentityView) -> GadgetView {
        let fresh = GadgetView::fresh(self.gadget_name, udc);
        let g = if self.mount_point.len() == 0 {
            fresh
        } else {
            GadgetView { mount_point: self.mount_point, ..fresh }
        };
        if self.ffs_path.len() == 0 {
            g.begin(g.setup_steps(id))
        } else {
            g.begin(GadgetView::attach_steps(self.ffs_path, self.gadget_dir, id))
        }
    }
}

impl Default for Options {
    fn default() -> (opt: Options)
        ensures
            opt@ == OptionsView::standard(),
    {
        Options {
            udc: String::new(),
            gadget_name: "goggles".to_owned(),
            mount_point: String::new(),
            ffs_path: String::new(),
            gadget_dir: String::new(),
        }
    }
}

impl Options {
    /// Whether a controller is needed. Attaching to a FunctionFS that somebody
    /// else binds needs none.
    pub fn needs_udc(&self) -> (yes: bool)
        ensures
            yes == self@.needs_udc(),
    {
        self.ffs_path.as_str().is_empty() || !self.gadget_dir.as_str().is_empty()
    }

    /// Start bringing the gadget up, on controller `udc` (empty: none is needed).
    pub fn start_gadget(&self, udc: String, id: &GadgetIdentity) -> (g: FunctionFsGadget)
        ensures
            g@ == self@.started(udc@, id@),
    {
        let mut g = FunctionFsGadget::new(self.gadget_name.clone(), udc);
        if !self.mount_point.as_str().is_empty() {
            g.set_mount_point(self.mount_point.clone());
        }
        if self.ffs_path.as_str().is_empty() {
            g.setup(id);
        } else {
            g.attach(self.ffs_path.as_str(), self.gadget_dir.as_str(), id);
        }
        g
    }
}

/// Which controller to run on.
pub enum UdcChoice {
    /// The board has none.
    NoController,
    /// The board has some, but not the one asked for.
    NoSuch,
    /// This one: it was asked for, or it is the only one.
    Use(String),
    /// Nobody asked for one, and there are several: the first will do, but the
    /// user should know.
    FirstOfSeveral(String),
}

/// What a choice says.
#[verifier::ext_equal]
pub enum UdcChoiceView {
    NoController,
    NoSuch,
    Use(Seq<char>),
    FirstOfSeveral(Seq<char>),
}

impl View for UdcChoice {
    type V = UdcChoiceView;

    open spec fn view(&self) -> UdcChoiceView {
        match self {
            UdcChoice::NoController => UdcChoiceView::NoController,
            UdcChoice::NoSuch => UdcChoiceView::NoSuch,
            UdcChoice::Use(u) => UdcChoiceView::Use(u@),
            UdcChoice::FirstOfSeveral(u) => UdcChoiceView::FirstOfSeveral(u@),
        }
    }
}

impl UdcChoiceView {
    /// The controller chosen.
    pub open spec fn chosen(self) -> Option<Seq<char>> {
        match self {
            UdcChoiceView::Use(u) => Some(u),
            UdcChoiceView::FirstOfSeveral(u) => Some(u),
            _ => None,
        }
    }
}

/// The choice among `udcs` when `wanted` is asked for; an empty `wanted` asks
/// for none in particular.
pub open spec fn choice_of(udcs: Seq<Seq<char>>, wanted: Seq<char>) -> UdcChoiceView {
    if udcs.len() == 0 {
        UdcChoiceView::NoController
    } else if wanted.len() > 0 {
        if udcs.contains(wanted) {
            UdcChoiceView::Use(wanted)
        } else {
            UdcChoiceView::NoSuch
        }
    } else if udcs.len() > 1 {
        UdcChoiceView::FirstOfSeveral(udcs[0])
    } else {
        UdcChoiceView::Use(udcs[0])
    }
}

/// Choose among the board's controllers. Boards can have more than one, and
/// only the one wired to the port the goggles plug into will do, so the choice
/// says what was found.
pub fn choose_udc(udcs: &[String], wanted: &str) -> (choice: UdcChoice)
    ensures
        choice@ == choice_of(views(udcs@), wanted@),
{
    if udcs.len() == 0 {
        return UdcChoice::NoController;
    }
    if wanted.is_empty() {
        assert(views(udcs@)[0] == udcs@[0]@);
        if udcs.len() > 1 {
            return UdcChoice::FirstOfSeveral(udcs[0].clone());
        }
        return UdcChoice::Use(udcs[0].clone());
    }
    let mut i: usize = 0;
    while i < udcs.len()
        invariant
            i <= udcs@.len(),
            wanted@.len() > 0,
            forall|j: int| 0 <= j < i ==> (#[trigger] udcs@[j])@ != wanted@,
        decreases udcs@.len() - i,
    {
        if same(udcs[i].as_str(), wanted) {
            assert(views(udcs@)[i as int] == wanted@);
            return UdcChoice::Use(wanted.to_owned());
        }
        i = i + 1;
    }
    assert(!views(udcs@).contains(wanted@)) by {
        assert forall|j: int| 0 <= j < views(udcs@).len() implies views(udcs@)[j] != wanted@ by {
            assert(views(udcs@)[j] == udcs@[j]@);
        }
    }
    UdcChoice::NoSuch
}

/// Pick the controller to run on, if there is one that will do.
pub fn pick_udc(udcs: &[String], wanted: &str) -> (udc: Option<String>)
    ensures
        match udc {
            Some(u) => choice_of(views(udcs@), wanted@).chosen() == Some(u@),
            None => choice_of(views(udcs@), wanted@).chosen() is None,
        },
{
    match choose_udc(udcs, wanted) {
        UdcChoice::Use(u) => Some(u),
        UdcChoice::FirstOfSeveral(u) => Some(u),
        _ => None,
    }
}

/// Only a controller that the board has is ever picked, and one that was asked
/// for by name is never replaced by another.
pub proof fn law_picked_udc_exists(udcs: Seq<Seq<char>>, wanted: Seq<char>)
    ensures
        choice_of(udcs, wanted).chosen() matches Some(u) ==> udcs.contains(u) && (wanted.len() > 0
            ==> u == wanted),
        choice_of(udcs, wanted).chosen() is None <==> udcs.len() == 0 || (wanted.len() > 0
            && !udcs.contains(wanted)),
{
    if udcs.len() > 0 {
        assert(udcs.contains(udcs[0]));
    }
}

/// The only controller of a board is used without further ado; of several the
/// first is, but with a word to the user; one that is asked for is used wherever
/// it stands.
pub proof fn law_which_udc(only: Seq<char>, others: Seq<Seq<char>>, wanted: Seq<char>, at: int)
    requires
        others.len() > 0,
    ensures
        choice_of(Seq::empty(), wanted) is NoController,
        choice_of(seq![only], Seq::empty()) == UdcChoiceView::Use(only),
        choice_of(seq![only] + others, Seq::empty()) == UdcChoiceView::FirstOfSeveral(only),
        0 <= at < others.len() && others[at].len() > 0 ==> choice_of(others, others[at])
            == UdcChoiceView::Use(others[at]),
        wanted.len() > 0 && (forall|i: int| 0 <= i < others.len() ==> others[i] != wanted)
            ==> choice_of(others, wanted) is NoSuch,
{
}

/// A gadget of our own is set up unless a FunctionFS is given; it is mounted
/// where it was asked to be, else at `/dev/ffs-` and its name.
pub proof fn law_how_the_gadget_starts(o: OptionsView, udc: Seq<char>, id: IdentityView)
    ensures
        ({
            let g = o.started(udc, id);
            &&& g.name == o.gadget_name && g.udc == udc
            &&& o.mount_point.len() > 0 ==> g.mount_point == o.mount_point
            &&& o.mount_point.len() == 0 ==> g.mount_point == "/dev/ffs-"@ + o.gadget_name
            &&& o.ffs_path.len() == 0 ==> g.todo == g.setup_steps(id)
            &&& o.ffs_path.len() > 0 ==> g.todo == GadgetView::attach_steps(
                o.ffs_path,
                o.gadget_dir,
                id,
            )
            &&& g.refused is None && g.prev_gadget.len() == 0
            &&& !g.ep0 && !g.mounted && !g.composed && !g.bound
            &&& o.needs_udc() <==> o.ffs_path.len() == 0 || o.gadget_dir.len() > 0
        }),
{
}

/// Unless it is told otherwise, the gadget is called "goggles", on whatever
/// controller there is.
pub proof fn law_standard_options()
    ensures
        ({
            let o = OptionsView::standard();
            &&& o.gadget_name == seq!['g', 'o', 'g', 'g', 'l', 'e', 's']
            &&& o.udc.len() == 0 && o.mount_point.len() == 0 && o.ffs_path.len() == 0
            &&& o.gadget_dir.len() == 0
            &&& o.needs_udc()
        }),
{
    reveal_strlit("goggles");
}

} // verus!
