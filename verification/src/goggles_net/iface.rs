//! Finding and bringing up the RNDIS interface that the goggles enumerate as
//! once "Liveview sharing" is turned on.
//!
//! The interface is recognised by the USB ids of its parent device, not by its
//! name, which varies by kernel and by what else is plugged in.
use vstd::prelude::*;

use crate::text::{chars_of, number_of, parse_number, skip_chars, trim, trim_spec};

verus! {

/// `s` without any `0x` in front.
pub open spec fn without_prefix(s: Seq<char>) -> Seq<char>
    decreases s.len(),
{
    if s.len() >= 2 && s[0] == '0' && s[1] == 'x' {
        without_prefix(s.skip(2))
    } else {
        s
    }
}

/// The id that a text stands for: a 16-bit hex number, whatever `0x` stands in
/// front.
pub open spec fn hex_id(s: Seq<char>) -> Option<u16> {
    match number_of(without_prefix(s), true) {
        Some(n) => if n <= 0xffff {
            Some(n as u16)
        } else {
            None
        },
        None => None,
    }
}

/// sysfs idVendor/idProduct files are plain hex with no "0x" prefix --
/// accept one anyway, it costs nothing.
pub fn parse_hex_id(s: &str) -> (id: Option<u16>)
    ensures
        id == hex_id(s@),
{
    let v: Vec<char> = chars_of(s);
    let mut at: usize = 0;
    assert(s@.skip(0) =~= s@);
    while v.len() - at >= 2 && v[at] == '0' && v[at + 1] == 'x'
        invariant
            v@ == s@,
            at <= v@.len(),
            without_prefix(s@) == without_prefix(s@.skip(at as int)),
        decreases v@.len() - at,
    {
        assert(s@.skip(at as int).skip(2) =~= s@.skip(at + 2));
        at = at + 2;
    }
    match parse_number(skip_chars(s, at), true, 0xffff) {
        Some(n) => Some(n as u16),
        None => None,
    }
}

/// What the idVendor and idProduct files of a sysfs directory hold; `None` for
/// one that cannot be read.
pub struct IdFiles {
    pub vendor: Option<String>,
    pub product: Option<String>,
}

/// A file holds this id, white space aside.
pub open spec fn file_holds(text: Option<String>, id: u16) -> bool {
    match text {
        Some(t) => hex_id(trim_spec(t@)) == Some(id),
        None => false,
    }
}

/// The directory is the one of this USB device.
pub open spec fn ids_match(files: IdFiles, vendor: u16, product: u16) -> bool {
    file_holds(files.vendor, vendor) && file_holds(files.product, product)
}

/// Whether a file holds this id, white space aside.
fn holds(text: &Option<String>, id: u16) -> (yes: bool)
    ensures
        yes == file_holds(*text, id),
{
    match text {
        Some(t) => match parse_hex_id(trim(t.as_str())) {
            Some(found) => found == id,
            None => false,
        },
        None => false,
    }
}

/// Whether the directory is the one of this USB device.
pub fn matches_ids(files: &IdFiles, vendor: u16, product: u16) -> (yes: bool)
    ensures
        yes == ids_match(*files, vendor, product),
{
    holds(&files.vendor, vendor) && holds(&files.product, product)
}

/// How many directories are looked at on the way up from an interface.
pub const MAX_LEVELS: usize = 6;

/// A directory on the way up is the one of this USB device.
pub open spec fn parent_matches(levels: Seq<IdFiles>, vendor: u16, product: u16) -> bool {
    exists|i: int|
        0 <= i < levels.len() && i < MAX_LEVELS && ids_match(
            #[trigger] levels[i],
            vendor,
            product,
        )
}

/// Whether the interface belongs to this USB device. `levels` are the sysfs
/// directories from the interface's own upward; the ids live on the device's,
/// one or more levels up, so a bounded number of them is looked at.
pub fn usb_parent_matches(levels: &[IdFiles], vendor: u16, product: u16) -> (yes: bool)
    ensures
        yes == parent_matches(levels@, vendor, product),
{
    let mut i: usize = 0;
    while i < levels.len() && i < MAX_LEVELS
        invariant
            i <= levels@.len(),
            forall|j: int| 0 <= j < i ==> !ids_match(#[trigger] levels@[j], vendor, product),
        decreases levels@.len() - i,
    {
        if matches_ids(&levels[i], vendor, product) {
            assert(ids_match(levels@[i as int], vendor, product));
            return true;
        }
        i = i + 1;
    }
    false
}

/// `level` is the first directory on the way up that has both id files, of those
/// that are looked at; `None` if none of them has.
pub open spec fn is_device_dir(has_ids: Seq<bool>, level: Option<int>) -> bool {
    match level {
        Some(i) => {
            &&& 0 <= i < has_ids.len()
            &&& i < MAX_LEVELS
            &&& has_ids[i]
            &&& forall|j: int| 0 <= j < i ==> !has_ids[j]
        },
        None => forall|j: int| 0 <= j < has_ids.len() && j < MAX_LEVELS ==> !has_ids[j],
    }
}

/// Which directory on the way up is a USB device's: the first that has both id
/// files. `has_ids` says of each level whether it has both.
pub fn usb_device_dir(has_ids: &[bool]) -> (level: Option<usize>)
    ensures
        is_device_dir(
            has_ids@,
            match level {
                Some(i) => Some(i as int),
                None => None,
            },
        ),
        match level {
            Some(i) => {
                &&& i < has_ids@.len()
                &&& i < MAX_LEVELS
                &&& has_ids@[i as int]
                &&& forall|j: int| 0 <= j < i ==> !has_ids@[j]
            },
            None => forall|j: int| 0 <= j < has_ids@.len() && j < MAX_LEVELS ==> !has_ids@[j],
        },
{
    let mut i: usize = 0;
    while i < has_ids.len() && i < MAX_LEVELS
        invariant
            i <= has_ids@.len(),
            forall|j: int| 0 <= j < i ==> !has_ids@[j],
        decreases has_ids@.len() - i,
    {
        if has_ids[i] {
            return Some(i);
        }
        i = i + 1;
    }
    None
}

/// A network interface: its name, and the directories from its device upward;
/// `None` if it has no device at all (lo, veth, ...).
pub struct NetEntry {
    pub name: String,
    pub levels: Option<Vec<IdFiles>>,
}

/// The interface belongs to this USB device.
pub open spec fn entry_matches(entry: NetEntry, vendor: u16, product: u16) -> bool {
    match entry.levels {
        Some(levels) => parent_matches(levels@, vendor, product),
        None => false,
    }
}

/// The name of the first interface that belongs to this USB device.
pub open spec fn first_of_device(
    entries: Seq<NetEntry>,
    vendor: u16,
    product: u16,
) -> Option<Seq<char>>
    decreases entries.len(),
{
    if entries.len() == 0 {
        None
    } else if entry_matches(entries[0], vendor, product) {
        Some(entries[0].name@)
    } else {
        first_of_device(entries.skip(1), vendor, product)
    }
}

proof fn lemma_first_of_device(entries: Seq<NetEntry>, vendor: u16, product: u16, n: int)
    requires
        0 <= n <= entries.len(),
        forall|j: int| 0 <= j < n ==> !entry_matches(#[trigger] entries[j], vendor, product),
    ensures
        n == entries.len() ==> first_of_device(entries, vendor, product) is None,
        n < entries.len() && entry_matches(entries[n], vendor, product) ==> first_of_device(
            entries,
            vendor,
            product,
        ) == Some(entries[n].name@),
    decreases n,
{
    if n > 0 {
        assert(!entry_matches(entries[0], vendor, product));
        let rest = entries.skip(1);
        assert(forall|j: int| 0 <= j < rest.len() ==> rest[j] == entries[j + 1]);
        lemma_first_of_device(rest, vendor, product, n - 1);
    }
}

/// The first interface whose USB parent is `vendor:product`.
pub fn find_by_usb_ids(entries: &[NetEntry], vendor: u16, product: u16) -> (name: Option<String>)
    ensures
        crate::cli::opt_view(name) == first_of_device(entries@, vendor, product),
        match name {
            Some(n) => exists|i: int|
                {
                    &&& 0 <= i < entries@.len()
                    &&& n@ == (#[trigger] entries@[i]).name@
                    &&& entry_matches(entries@[i], vendor, product)
                    &&& forall|j: int|
                        0 <= j < i ==> !entry_matches(#[trigger] entries@[j], vendor, product)
                },
            None => forall|j: int|
                0 <= j < entries@.len() ==> !entry_matches(#[trigger] entries@[j], vendor, product),
        },
{
    let mut i: usize = 0;
    while i < entries.len()
        invariant
            i <= entries@.len(),
            forall|j: int|
                0 <= j < i ==> !entry_matches(#[trigger] entries@[j], vendor, product),
        decreases entries@.len() - i,
    {
        let found: bool = match &entries[i].levels {
            Some(levels) => usb_parent_matches(levels.as_slice(), vendor, product),
            None => false,
        };
        if found {
            assert(entry_matches(entries@[i as int], vendor, product));
            proof {
                lemma_first_of_device(entries@, vendor, product, i as int);
            }
            return Some(entries[i].name.clone());
        }
        i = i + 1;
    }
    proof {
        lemma_first_of_device(entries@, vendor, product, i as int);
    }
    None
}

/// Nanoseconds in a second.
pub const SECOND: u64 = 1_000_000_000;

/// How often to look for the interface, in milliseconds.
pub const LOOK_MS: u64 = 500;

/// What to do after one look for the interface.
pub enum WaitStep {
    /// It is there.
    Found(String),
    /// Tell the user what is being waited for, if so asked, and look again
    /// later.
    Again { announce: bool },
    /// Tell the user what is being waited for, if so asked, and give up.
    GiveUp { announce: bool },
}

/// What to do after one look for the interface, as plain values.
#[verifier::ext_equal]
pub enum WaitStepView {
    Found(Seq<char>),
    Again { announce: bool },
    GiveUp { announce: bool },
}

impl View for WaitStep {
    type V = WaitStepView;

    open spec fn view(&self) -> WaitStepView {
        match self {
            WaitStep::Found(name) => WaitStepView::Found(name@),
            WaitStep::Again { announce } => WaitStepView::Again { announce: *announce },
            WaitStep::GiveUp { announce } => WaitStepView::GiveUp { announce: *announce },
        }
    }
}

/// When a wait that starts at `now` is over.
pub open spec fn waits_until(now: u64, timeout_secs: u64) -> int {
    now + timeout_secs * SECOND
}

/// What to do after a look that ended at `now`, and whether the user has been
/// told what is being waited for by the end of it, if they had been or not
/// before.
pub open spec fn looked(
    told: bool,
    deadline: int,
    found: Option<Seq<char>>,
    now: u64,
) -> (bool, WaitStepView) {
    match found {
        Some(name) => (told, WaitStepView::Found(name)),
        None => (
            true,
            if now >= deadline {
                WaitStepView::GiveUp { announce: !told }
            } else {
                WaitStepView::Again { announce: !told }
            },
        ),
    }
}

/// Waiting for the interface to appear. The RNDIS device only shows up after
/// the operator plugs in the goggles and toggles Liveview sharing in their
/// menu. Times are in nanoseconds on one clock that never goes back.
pub struct WaitFor {
    told: bool,
    deadline: u128,
}

impl WaitFor {
    /// The user has been told what is being waited for.
    pub closed spec fn told(self) -> bool {
        self.told
    }

    /// When to give up.
    pub closed spec fn deadline(self) -> int {
        self.deadline as int
    }

    /// Start at `now`; give up `timeout_secs` later.
    pub fn new(now: u64, timeout_secs: u64) -> (w: WaitFor)
        ensures
            !w.told(),
            w.deadline() == now + timeout_secs * SECOND,
            w.deadline() == waits_until(now, timeout_secs),
    {
        let deadline: u128 = now as u128 + (timeout_secs as u128) * 1_000_000_000;
        WaitFor { told: false, deadline }
    }

    /// Say what to do after a look that ended at `now`.
    pub fn look(&mut self, found: Option<String>, now: u64) -> (step: WaitStep)
        ensures
            (final(self).told(), step@) == looked(
                old(self).told(),
                old(self).deadline(),
                crate::cli::opt_view(found),
                now,
            ),
            final(self).deadline() == old(self).deadline(),
            match found {
                Some(name) => {
                    &&& step matches WaitStep::Found(n)
                    &&& n@ == name@
                    &&& final(self).told() == old(self).told()
                },
                None => {
                    &&& final(self).told()
                    &&& if now >= old(self).deadline() {
                        step matches WaitStep::GiveUp { announce } && announce == !old(self).told()
                    } else {
                        step matches WaitStep::Again { announce } && announce == !old(self).told()
                    }
                },
            },
    {
        match found {
            Some(name) => WaitStep::Found(name),
            None => {
                let announce: bool = !self.told;
                self.told = true;
                if now as u128 >= self.deadline {
                    WaitStep::GiveUp { announce }
                } else {
                    WaitStep::Again { announce }
                }
            },
        }
    }
}

/// One step of bringing an interface up.
pub enum BringUp {
    /// Run a program.
    Run { program: String, args: Vec<String>, required: bool },
    /// Disable USB autosuspend on the interface's device, if possible.
    DisableAutosuspend,
}

/// One step of bringing an interface up, as plain values.
#[verifier::ext_equal]
pub enum BringUpView {
    Run { program: Seq<char>, args: Seq<Seq<char>>, required: bool },
    DisableAutosuspend,
}

impl View for BringUp {
    type V = BringUpView;

    open spec fn view(&self) -> BringUpView {
        match self {
            BringUp::Run { program, args, required } => BringUpView::Run {
                program: program@,
                args: crate::text::views(args@),
                required: *required,
            },
            BringUp::DisableAutosuspend => BringUpView::DisableAutosuspend,
        }
    }
}

/// The steps, as plain values.
pub open spec fn bring_up_views(v: Seq<BringUp>) -> Seq<BringUpView> {
    v.map_values(|b: BringUp| b@)
}

/// The steps that bring an interface up: ask NetworkManager to step aside,
/// keep the device awake, set the link up and assign the address. Only the
/// link is required to come up: NetworkManager may not be there, the address
/// may be assigned already.
pub open spec fn bring_up_script(iface: Seq<char>, cidr: Seq<char>) -> Seq<BringUpView> {
    seq![
        BringUpView::Run {
            program: "nmcli"@,
            args: seq!["device"@, "set"@, iface, "managed"@, "no"@],
            required: false,
        },
        BringUpView::DisableAutosuspend,
        BringUpView::Run {
            program: "ip"@,
            args: seq!["link"@, "set"@, iface, "up"@],
            required: true,
        },
        BringUpView::Run {
            program: "ip"@,
            args: seq!["addr"@, "add"@, cidr, "dev"@, iface],
            required: false,
        },
    ]
}

/// A command line from its words.
fn run(program: &str, words: &[&str], required: bool) -> (step: BringUp)
    ensures
        step@ == (BringUpView::Run {
            program: program@,
            args: words@.map_values(|w: &str| w@),
            required,
        }),
{
    let mut args: Vec<String> = Vec::new();
    let mut i: usize = 0;
    while i < words.len()
        invariant
            i <= words@.len(),
            args@.len() == i,
            forall|j: int| 0 <= j < i ==> (#[trigger] args@[j])@ == words@[j]@,
        decreases words@.len() - i,
    {
        args.push(words[i].to_owned());
        i = i + 1;
    }
    assert(crate::text::views(args@) =~= words@.map_values(|w: &str| w@));
    BringUp::Run { program: program.to_owned(), args, required }
}

impl BringUpView {
    /// Bringing up fails if this step does.
    pub open spec fn is_required(self) -> bool {
        self matches BringUpView::Run { required, .. } && required
    }
}

impl BringUp {
    /// Whether bringing up fails if this step does.
    pub fn is_required(&self) -> (yes: bool)
        ensures
            yes == self@.is_required(),
    {
        match self {
            BringUp::Run { required, .. } => *required,
            BringUp::DisableAutosuspend => false,
        }
    }
}

/// An interface being brought up, as plain values: the steps that are still to
/// be done, and the error that ended it, if one did.
#[verifier::ext_equal]
pub struct BringingUpView<E> {
    pub todo: Seq<BringUpView>,
    pub failed: Option<E>,
}

impl<E> BringingUpView<E> {
    /// At the start.
    pub open spec fn start(iface: Seq<char>, cidr: Seq<char>) -> BringingUpView<E> {
        BringingUpView { todo: bring_up_script(iface, cidr), failed: None }
    }

    /// Once the next step ended so: a required step that failed ends it, with
    /// that error, and no later step runs; any other failure is passed over.
    pub open spec fn reported(self, outcome: Result<(), E>) -> BringingUpView<E> {
        if self.todo.len() == 0 {
            self
        } else {
            match outcome {
                Err(e) if self.todo[0].is_required() => BringingUpView {
                    todo: Seq::empty(),
                    failed: Some(e),
                },
                _ => BringingUpView { todo: self.todo.skip(1), ..self },
            }
        }
    }

    /// What it came to.
    pub open spec fn result(self) -> Result<(), E> {
        match self.failed {
            Some(e) => Err(e),
            None => Ok(()),
        }
    }
}

/// An interface being brought up: perform the step of `next`, hand what came of
/// it to `report`, until there is no next one.
pub struct BringingUp<E> {
    todo: Vec<BringUp>,
    failed: Option<E>,
}

impl<E> View for BringingUp<E> {
    type V = BringingUpView<E>;

    closed spec fn view(&self) -> BringingUpView<E> {
        BringingUpView { todo: bring_up_views(self.todo@), failed: self.failed }
    }
}

impl<E> BringingUp<E> {
    /// What to do next, if anything.
    pub fn next(&self) -> (step: Option<&BringUp>)
        ensures
            match step {
                Some(s) => self@.todo.len() > 0 && s@ == self@.todo[0],
                None => self@.todo.len() == 0,
            },
    {
        if self.todo.len() == 0 {
            None
        } else {
            Some(&self.todo[0])
        }
    }

    /// Account for how the next step ended.
    pub fn report(&mut self, outcome: Result<(), E>)
        ensures
            final(self)@ == old(self)@.reported(outcome),
    {
        if self.todo.len() == 0 {
            return;
        }
        let step: BringUp = self.todo.remove(0);
        assert(bring_up_views(self.todo@) =~= old(self)@.todo.skip(1));
        if let Err(e) = outcome {
            if step.is_required() {
                self.todo = Vec::new();
                self.failed = Some(e);
                assert(bring_up_views(self.todo@) =~= Seq::empty());
            }
        }
    }

    /// What it came to.
    pub fn result(self) -> (r: Result<(), E>)
        ensures
            r == self@.result(),
    {
        match self.failed {
            Some(e) => Err(e),
            None => Ok(()),
        }
    }
}

/// Start bringing an interface up.
pub fn bring_up<E>(iface: &str, cidr: &str) -> (b: BringingUp<E>)
    ensures
        b@ == BringingUpView::<E>::start(iface@, cidr@),
{
    let mut steps: Vec<BringUp> = Vec::new();
    let nm = run("nmcli", &["device", "set", iface, "managed", "no"], false);
    let link = run("ip", &["link", "set", iface, "up"], true);
    let addr = run("ip", &["addr", "add", cidr, "dev", iface], false);
    proof {
        let script = bring_up_script(iface@, cidr@);
        assert(nm@->args =~= script[0]->args);
        assert(link@->args =~= script[2]->args);
        assert(addr@->args =~= script[3]->args);
    }
    steps.push(nm);
    steps.push(BringUp::DisableAutosuspend);
    steps.push(link);
    steps.push(addr);
    assert(bring_up_views(steps@) =~= bring_up_script(iface@, cidr@));
    BringingUp { todo: steps, failed: None }
}

/// How bringing up stands after its steps ended so, one after the other.
pub open spec fn brought<E>(
    b: BringingUpView<E>,
    outcomes: Seq<Result<(), E>>,
) -> BringingUpView<E>
    decreases outcomes.len(),
{
    if outcomes.len() == 0 {
        b
    } else {
        brought(b, outcomes.drop_last()).reported(outcomes.last())
    }
}

/// The steps run in order: NetworkManager, autosuspend, the link, and only if
/// the link came up, the address. Bringing up fails exactly when the link could
/// not be set up, with that error; any other failure is passed over.
pub proof fn law_only_the_link_is_required<E>(
    iface: Seq<char>,
    cidr: Seq<char>,
    outcomes: Seq<Result<(), E>>,
)
    requires
        outcomes.len() == 4,
    ensures
        ({
            let script = bring_up_script(iface, cidr);
            let start = BringingUpView::<E>::start(iface, cidr);
            let at = |n: int| brought(start, outcomes.take(n));
            &&& at(0).todo.len() > 0 && at(0).todo[0] == script[0]
            &&& at(1).todo.len() > 0 && at(1).todo[0] == script[1]
            &&& at(2).todo.len() > 0 && at(2).todo[0] == script[2]
            &&& match outcomes[2] {
                Ok(_) => at(3).todo == seq![script[3]] && at(4).todo.len() == 0 && at(4).result()
                    == Ok::<(), E>(()),
                Err(e) => at(3).todo.len() == 0 && at(3).result() == Err::<(), E>(e),
            }
        }),
{
    let script = bring_up_script(iface, cidr);
    let start = BringingUpView::<E>::start(iface, cidr);
    assert(outcomes.take(4).drop_last() =~= outcomes.take(3));
    assert(outcomes.take(3).drop_last() =~= outcomes.take(2));
    assert(outcomes.take(2).drop_last() =~= outcomes.take(1));
    assert(outcomes.take(1).drop_last() =~= outcomes.take(0));
    let b0 = brought(start, outcomes.take(0));
    let b1 = brought(start, outcomes.take(1));
    let b2 = brought(start, outcomes.take(2));
    let b3 = brought(start, outcomes.take(3));
    assert(b0 == start);
    assert(b1.todo =~= script.skip(1) && b1.failed is None);
    assert(b2.todo =~= script.skip(2) && b2.failed is None);
    if outcomes[2] is Ok {
        assert(b3.todo =~= seq![script[3]] && b3.failed is None);
    }
}

/// A `0x` in front of an id does not change it.
pub proof fn law_prefix_does_not_matter(s: Seq<char>)
    ensures
        hex_id(seq!['0', 'x'] + s) == hex_id(s),
{
    let p = seq!['0', 'x'] + s;
    assert(p.skip(2) =~= s);
}

/// An id is a hex number of 16 bits: what has more is none, and an id that was
/// written for configfs reads back.
pub proof fn law_ids(s: Seq<char>, x: u16)
    requires
        s.len() >= 2 ==> !(s[0] == '0' && s[1] == 'x'),
    ensures
        match number_of(s, true) {
            Some(n) => if n < 0x10000 {
                hex_id(s) == Some(n as u16)
            } else {
                hex_id(s) is None
            },
            None => hex_id(s) is None,
        },
        hex_id(crate::gadget::hex_id_text(x)) == Some(x),
{
    crate::gadget::law_id_reads_back(x);
    let t = crate::gadget::hex_id_text(x);
    let digits = t.skip(2);
    assert(digits[1] != 'x') by {
        crate::text::law_hex_digits((x / 256) as int % 16);
    }
    assert(without_prefix(digits) == digits);
    assert(without_prefix(t) == without_prefix(digits));
}

/// White space around an id in a file does not change it.
pub proof fn law_id_files(text: String, a: Seq<char>, s: Seq<char>, b: Seq<char>, id: u16)
    requires
        text@ == a + s + b,
        forall|k: int| 0 <= k < a.len() ==> crate::text::white(#[trigger] a[k]),
        forall|k: int| 0 <= k < b.len() ==> crate::text::white(#[trigger] b[k]),
        s.len() > 0 ==> !crate::text::white(s[0]) && !crate::text::white(s.last()),
    ensures
        file_holds(Some(text), id) <==> hex_id(s) == Some(id),
        !file_holds(None, id),
{
    crate::text::law_trim_gives_back(a, s, b);
}

/// An interface belongs to a device if one of the six directories from its own
/// upward holds both ids; what is above does not count, nor does one id alone.
pub proof fn law_six_levels(levels: Seq<IdFiles>, vendor: u16, product: u16, k: int)
    ensures
        0 <= k < levels.len() && k <= 5 && file_holds(levels[k].vendor, vendor) && file_holds(
            levels[k].product,
            product,
        ) ==> parent_matches(levels, vendor, product),
        (forall|i: int|
            0 <= i < levels.len() && i <= 5 ==> !(file_holds(
                (#[trigger] levels[i]).vendor,
                vendor,
            ) && file_holds(levels[i].product, product))) ==> !parent_matches(
            levels,
            vendor,
            product,
        ),
{
    if 0 <= k < levels.len() && k <= 5 && file_holds(levels[k].vendor, vendor) && file_holds(
        levels[k].product,
        product,
    ) {
        assert(ids_match(levels[k], vendor, product));
    }
}

/// The device's directory is the first of six with both id files, and there is
/// but one answer.
pub proof fn law_device_dir(has_ids: Seq<bool>, level: Option<int>, other: Option<int>)
    requires
        is_device_dir(has_ids, level),
        is_device_dir(has_ids, other),
    ensures
        level == other,
        level matches Some(i) ==> 0 <= i <= 5 && i < has_ids.len() && has_ids[i]
            && !has_ids.take(i).contains(true),
        level is None ==> !has_ids.take(
            if has_ids.len() < 6 {
                has_ids.len() as int
            } else {
                6
            },
        ).contains(true),
{
}

/// Interfaces can be looked through in two parts: the second is looked through
/// only if the first has none. One without a device never counts.
pub proof fn law_first_interface(a: Seq<NetEntry>, b: Seq<NetEntry>, e: NetEntry, v: u16, p: u16)
    ensures
        first_of_device(a + b, v, p) == match first_of_device(a, v, p) {
            Some(name) => Some(name),
            None => first_of_device(b, v, p),
        },
        e.levels matches Some(levels) && parent_matches(levels@, v, p) ==> first_of_device(
            seq![e],
            v,
            p,
        ) == Some(e.name@),
        e.levels matches Some(levels) && !parent_matches(levels@, v, p) ==> first_of_device(
            seq![e],
            v,
            p,
        ) is None,
        e.levels is None ==> first_of_device(seq![e], v, p) is None,
    decreases a.len(),
{
    reveal_with_fuel(first_of_device, 2);
    assert(seq![e].skip(1) =~= Seq::empty());
    if a.len() == 0 {
        assert(a + b =~= b);
    } else {
        assert((a + b)[0] == a[0]);
        assert((a + b).skip(1) =~= a.skip(1) + b);
        law_first_interface(a.skip(1), b, e, v, p);
    }
}

/// A wait lasts as many seconds as it was given. An interface that is found ends
/// it, even late; without one it is given up when its time is over and goes on
/// until then. The user is told once.
pub proof fn law_waiting(start: u64, secs: u64, told: bool, name: Seq<char>, now: u64, later: u64)
    ensures
        ({
            let deadline = waits_until(start, secs);
            let (t, step) = looked(told, deadline, None, now);
            let again = looked(t, deadline, None, later).1;
            &&& deadline == start + 1_000_000_000 * secs
            &&& looked(told, deadline, Some(name), now) == (told, WaitStepView::Found(name))
            &&& step is GiveUp <==> now >= deadline
            &&& step is Again <==> now < deadline
            &&& step == (WaitStepView::GiveUp { announce: !told }) || step == (
            WaitStepView::Again { announce: !told })
            &&& again == (WaitStepView::GiveUp { announce: false }) || again == (
            WaitStepView::Again { announce: false })
        }),
{
}

/// The programs that are run, word for word, and what is required of them.
pub proof fn law_bring_up_words(iface: Seq<char>, cidr: Seq<char>)
    ensures
        ({
            let s = bring_up_script(iface, cidr);
            &&& s.len() == 4
            &&& s[0]->program == "nmcli"@ && s[0]->args == seq![
                "device"@,
                "set"@,
                iface,
                "managed"@,
                "no"@,
            ]
            &&& s[1] is DisableAutosuspend
            &&& s[2]->program == "ip"@ && s[2]->args == seq!["link"@, "set"@, iface, "up"@]
            &&& s[3]->program == "ip"@ && s[3]->args == seq![
                "addr"@,
                "add"@,
                cidr,
                "dev"@,
                iface,
            ]
            &&& s[0] is Run && s[2] is Run && s[3] is Run
            &&& !s[0].is_required() && !s[1].is_required() && s[2].is_required()
            &&& !s[3].is_required()
        }),
{
}

} // verus!
