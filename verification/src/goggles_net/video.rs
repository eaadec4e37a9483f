//! Video-fragment framing and reassembly for `type=0x02` packets.
//!
//! ```text
//! off 0..8    generic envelope (see the handshake module)
//! off 8..16   packet-type-specific (not needed for reassembly)
//! off 16      unit_id
//! off 17      bits 0..6 = total_parts; bit 7 = part_index bit 0
//! off 18      bits 0..4 = part_index bits 1..5
//! off 20..    fragment payload
//! ```
//!
//! Concatenating every fragment in `part_index` order yields the complete
//! Annex-B unit unchanged.
use vstd::prelude::*;
use vstd::slice::slice_subrange;
use vstd::slice::slice_to_vec;

verus! {

/// The length of the headers before a fragment's payload.
pub const HEADER_LEN: usize = 20;

/// Parsed video-fragment header, borrowing its payload from the source packet.
pub struct Fragment<'a> {
    pub unit_id: u8,
    pub total_parts: usize,
    pub part_index: usize,
    pub payload: &'a [u8],
}

/// What a fragment says.
#[verifier::ext_equal]
pub struct FragmentView {
    pub unit_id: u8,
    pub total_parts: nat,
    pub part_index: nat,
    pub payload: Seq<u8>,
}

impl<'a> View for Fragment<'a> {
    type V = FragmentView;

    open spec fn view(&self) -> FragmentView {
        FragmentView {
            unit_id: self.unit_id,
            total_parts: self.total_parts as nat,
            part_index: self.part_index as nat,
            payload: self.payload@,
        }
    }
}

/// The fragment that a packet holds. `part_index` is a 6-bit field split
/// across a byte boundary.
pub open spec fn fragment_of(packet: Seq<u8>) -> FragmentView {
    FragmentView {
        unit_id: packet[16],
        total_parts: (packet[17] % 128) as nat,
        part_index: (packet[17] / 128 + 2 * (packet[18] % 32)) as nat,
        payload: packet.skip(HEADER_LEN as int),
    }
}

/// Parse a `type=0x02` packet's fragment header. `None` if it's too short
/// to even hold one (implausible/truncated, not a real fragment).
pub fn parse_fragment<'a>(packet: &'a [u8]) -> (fragment: Option<Fragment<'a>>)
    ensures
        fragment is Some <==> packet@.len() >= HEADER_LEN,
        fragment matches Some(f) ==> f@ == fragment_of(packet@),
{
    if packet.len() < HEADER_LEN {
        return None;
    }
    let unit_id: u8 = packet[16];
    let b17: u8 = packet[17];
    let b18: u8 = packet[18];
    proof {
        assert(b17 & 0x7f == b17 % 128) by (bit_vector);
        assert(((b17 >> 7) & 1) | ((b18 & 0x1f) << 1) == b17 / 128 + 2 * (b18 % 32))
            by (bit_vector);
    }
    let total_parts: usize = (b17 & 0x7f) as usize;
    let part_index: usize = (((b17 >> 7) & 1) | ((b18 & 0x1f) << 1)) as usize;
    let payload: &'a [u8] = slice_subrange(packet, HEADER_LEN, packet.len());
    assert(payload@ =~= packet@.skip(HEADER_LEN as int));
    Some(Fragment { unit_id, total_parts, part_index, payload })
}

/// The parts of a unit, those that have arrived.
pub type Parts = Seq<Option<Seq<u8>>>;

/// How many parts have arrived.
pub open spec fn arrived(parts: Parts) -> nat
    decreases parts.len(),
{
    if parts.len() == 0 {
        0
    } else {
        arrived(parts.drop_last()) + if parts.last() is Some {
            1nat
        } else {
            0nat
        }
    }
}

/// Every part has arrived.
pub open spec fn complete(parts: Parts) -> bool {
    forall|i: int| 0 <= i < parts.len() ==> #[trigger] parts[i] is Some
}

/// The parts that have arrived, one after the other.
pub open spec fn joined(parts: Parts) -> Seq<u8>
    decreases parts.len(),
{
    if parts.len() == 0 {
        Seq::empty()
    } else {
        joined(parts.drop_last()) + match parts.last() {
            Some(bytes) => bytes,
            None => Seq::empty(),
        }
    }
}

/// `n` parts, none of which has arrived.
pub open spec fn no_parts(n: nat) -> Parts {
    Seq::new(n, |i: int| None)
}

/// All parts count when, and only when, none is missing.
proof fn lemma_arrived(parts: Parts)
    ensures
        arrived(parts) <= parts.len(),
        arrived(parts) == parts.len() <==> complete(parts),
    decreases parts.len(),
{
    if parts.len() > 0 {
        let init = parts.drop_last();
        lemma_arrived(init);
        assert(complete(parts) ==> complete(init)) by {
            assert(forall|i: int| 0 <= i < init.len() ==> init[i] == parts[i]);
        }
        assert(complete(init) && parts.last() is Some ==> complete(parts)) by {
            assert(forall|i: int| 0 <= i < init.len() ==> parts[i] == init[i]);
        }
        if complete(parts) {
            assert(parts[parts.len() - 1] is Some);
        }
    }
}

/// A part that was missing counts once when it arrives.
proof fn lemma_arrived_update(parts: Parts, i: int, bytes: Seq<u8>)
    requires
        0 <= i < parts.len(),
        parts[i] is None,
    ensures
        arrived(parts.update(i, Some(bytes))) == arrived(parts) + 1,
    decreases parts.len(),
{
    let next = parts.update(i, Some(bytes));
    if i == parts.len() - 1 {
        assert(next.drop_last() =~= parts.drop_last());
    } else {
        assert(next.drop_last() =~= parts.drop_last().update(i, Some(bytes)));
        lemma_arrived_update(parts.drop_last(), i, bytes);
    }
}

proof fn lemma_arrived_none(n: nat)
    ensures
        arrived(no_parts(n)) == 0,
    decreases n,
{
    if n > 0 {
        assert(no_parts(n).drop_last() =~= no_parts((n - 1) as nat));
        lemma_arrived_none((n - 1) as nat);
    }
}

/// The state of reassembly: the unit under way, its parts, and how many units
/// were dropped unfinished.
#[verifier::ext_equal]
pub struct Assembly {
    pub unit_id: Option<u8>,
    pub parts: Parts,
    pub dropped: u64,
}

impl Assembly {
    /// Nothing under way.
    pub open spec fn start() -> Assembly {
        Assembly { unit_id: None, parts: Seq::empty(), dropped: 0 }
    }

    /// The assembly on which fragment `f` lands: the one under way if it is of
    /// the same unit, else a fresh one -- and then a unit that was still
    /// missing parts is dropped.
    pub open spec fn turn_to(self, f: FragmentView) -> Assembly {
        if self.unit_id == Some(f.unit_id) {
            self
        } else {
            Assembly {
                unit_id: Some(f.unit_id),
                parts: no_parts(f.total_parts),
                dropped: if self.unit_id is Some && !complete(self.parts) && self.dropped
                    < u64::MAX {
                    (self.dropped + 1) as u64
                } else {
                    self.dropped
                },
            }
        }
    }

    /// Whether `f` has a place in this unit.
    pub open spec fn has_place(self, f: FragmentView) -> bool {
        f.total_parts > 0 && f.part_index < self.parts.len()
    }

    /// The parts with `f` in its place, unless that part is there already.
    pub open spec fn place(self, f: FragmentView) -> Parts {
        if self.parts[f.part_index as int] is None {
            self.parts.update(f.part_index as int, Some(f.payload))
        } else {
            self.parts
        }
    }

    /// Feeding one fragment: the state after it, and the unit that it completes.
    pub open spec fn fed(self, f: FragmentView) -> (Assembly, Option<Seq<u8>>) {
        let on = self.turn_to(f);
        if !on.has_place(f) {
            (on, None)
        } else {
            let parts = on.place(f);
            if complete(parts) {
                (Assembly { unit_id: None, parts, ..on }, Some(joined(parts)))
            } else {
                (Assembly { parts, ..on }, None)
            }
        }
    }
}

/// The views of the parts held.
pub open spec fn part_views(parts: Seq<Option<Vec<u8>>>) -> Parts {
    parts.map_values(
        |p: Option<Vec<u8>>|
            match p {
                Some(v) => Some(v@),
                None => None,
            },
    )
}

/// Buffers fragments for the video unit currently being assembled. A
/// `unit_id` change before the previous unit completed means a fragment
/// was lost somewhere -- the partial unit is dropped rather than emitted
/// corrupt, and assembly restarts on the new unit.
pub struct Assembler {
    unit_id: Option<u8>,
    parts: Vec<Option<Vec<u8>>>,
    have: usize,
    dropped_partial: u64,
}

impl View for Assembler {
    type V = Assembly;

    closed spec fn view(&self) -> Assembly {
        Assembly {
            unit_id: self.unit_id,
            parts: part_views(self.parts@),
            dropped: self.dropped_partial,
        }
    }
}

impl Assembler {
    /// The count of parts is kept right.
    pub closed spec fn wf(self) -> bool {
        self.have == arrived(part_views(self.parts@))
    }

    /// Nothing under way.
    pub fn new() -> (a: Assembler)
        ensures
            a.wf(),
            a@ == Assembly::start(),
    {
        let a = Assembler { unit_id: None, parts: Vec::new(), have: 0, dropped_partial: 0 };
        assert(part_views(a.parts@) =~= Seq::empty());
        a
    }

    /// How many units were dropped because a part never arrived. The count
    /// stops at the largest number it can hold.
    pub fn dropped_partial(&self) -> (n: u64)
        ensures
            n == self@.dropped,
    {
        self.dropped_partial
    }

    /// Turn to the unit of `f`.
    fn turn_to(&mut self, f: &Fragment)
        requires
            old(self).wf(),
        ensures
            final(self).wf(),
            final(self)@ == old(self)@.turn_to(f@),
    {
        let same: bool = match self.unit_id {
            Some(id) => id == f.unit_id,
            None => false,
        };
        if same {
            return;
        }
        proof {
            lemma_arrived(self@.parts);
        }
        if self.unit_id.is_some() && self.have < self.parts.len() {
            self.dropped_partial = self.dropped_partial.saturating_add(1);
        }
        let mut parts: Vec<Option<Vec<u8>>> = Vec::new();
        let mut i: usize = 0;
        while i < f.total_parts
            invariant
                i <= f.total_parts,
                parts@.len() == i,
                forall|j: int| 0 <= j < i ==> #[trigger] parts@[j] is None,
            decreases f.total_parts - i,
        {
            parts.push(None);
            i = i + 1;
        }
        assert(part_views(parts@) =~= no_parts(f.total_parts as nat));
        proof {
            lemma_arrived_none(f.total_parts as nat);
        }
        self.unit_id = Some(f.unit_id);
        self.parts = parts;
        self.have = 0;
    }

    /// The parts held, one after the other.
    fn join(&self) -> (out: Vec<u8>)
        ensures
            out@ == joined(self@.parts),
    {
        let ghost views = part_views(self.parts@);
        let mut out: Vec<u8> = Vec::new();
        let mut i: usize = 0;
        assert(views.take(0) =~= Seq::empty());
        while i < self.parts.len()
            invariant
                i <= self.parts@.len(),
                views == part_views(self.parts@),
                out@ == joined(views.take(i as int)),
            decreases self.parts@.len() - i,
        {
            assert(views.take(i + 1).drop_last() =~= views.take(i as int));
            let ghost before = out@;
            match &self.parts[i] {
                Some(part) => {
                    out.extend_from_slice(part.as_slice());
                    assert(out@ =~= before + part@);
                },
                None => {
                    assert(out@ =~= before + Seq::<u8>::empty());
                },
            }
            i = i + 1;
        }
        assert(views.take(self.parts@.len() as int) =~= views);
        out
    }

    /// Feed one fragment. Returns the complete, ordered unit bytes once
    /// every part for its `unit_id` has arrived.
    pub fn feed(&mut self, f: &Fragment) -> (unit: Option<Vec<u8>>)
        requires
            old(self).wf(),
        ensures
            final(self).wf(),
            final(self)@ == old(self)@.fed(f@).0,
            match unit {
                Some(bytes) => old(self)@.fed(f@).1 == Some(bytes@),
                None => old(self)@.fed(f@).1 is None,
            },
    {
        self.turn_to(f);
        let ghost on = self@;
        if f.total_parts == 0 || f.part_index >= self.parts.len() {
            return None;  // implausible header -- ignore this fragment
        }
        if self.parts[f.part_index].is_none() {
            proof {
                lemma_arrived_update(on.parts, f.part_index as int, f.payload@);
                lemma_arrived(on.parts.update(f.part_index as int, Some(f.payload@)));
            }
            let bytes: Vec<u8> = slice_to_vec(f.payload);
            self.parts[f.part_index] = Some(bytes);
            self.have = self.have + 1;
            assert(part_views(self.parts@) =~= on.place(f@));
        }
        proof {
            assert(self@.parts == on.place(f@));
            lemma_arrived(self@.parts);
        }
        if self.have < self.parts.len() {
            return None;
        }
        let out: Vec<u8> = self.join();
        self.unit_id = None;  // ready for the next unit
        Some(out)
    }
}

/// Feeding fragments one after the other: the state at the end, and what each
/// of them completed.
pub open spec fn fed_all(a: Assembly, fs: Seq<FragmentView>) -> (Assembly, Seq<Option<Seq<u8>>>)
    decreases fs.len(),
{
    if fs.len() == 0 {
        (a, Seq::empty())
    } else {
        let (mid, outs) = fed_all(a, fs.drop_last());
        let (end, out) = mid.fed(fs.last());
        (end, outs.push(out))
    }
}

/// The fragments `fs` are parts of the unit `unit`, under the id `id`.
pub open spec fn parts_of(fs: Seq<FragmentView>, id: u8, unit: Seq<Seq<u8>>) -> bool {
    forall|i: int|
        0 <= i < fs.len() ==> {
            &&& (#[trigger] fs[i]).unit_id == id
            &&& fs[i].total_parts == unit.len()
            &&& fs[i].part_index < unit.len()
            &&& fs[i].payload == unit[fs[i].part_index as int]
        }
}

/// Part `j` is among the fragments.
pub open spec fn has_part(fs: Seq<FragmentView>, j: int) -> bool {
    exists|i: int| 0 <= i < fs.len() && (#[trigger] fs[i]).part_index == j
}

/// Every part of a unit of `n` parts is among the fragments.
pub open spec fn has_every_part(fs: Seq<FragmentView>, n: nat) -> bool {
    forall|j: int| 0 <= j < n ==> #[trigger] has_part(fs, j)
}

/// The whole unit.
pub open spec fn all_parts(unit: Seq<Seq<u8>>) -> Parts {
    unit.map_values(|bytes: Seq<u8>| Some(bytes))
}

/// While parts are missing, exactly those that arrived are held, and nothing
/// comes out.
proof fn lemma_fed_so_far(a: Assembly, fs: Seq<FragmentView>, id: u8, unit: Seq<Seq<u8>>)
    requires
        a.unit_id != Some(id),
        fs.len() > 0,
        parts_of(fs, id, unit),
        !has_every_part(fs, unit.len()),
    ensures
        ({
            let (end, outs) = fed_all(a, fs);
            &&& end.unit_id == Some(id)
            &&& end.parts.len() == unit.len()
            &&& forall|j: int|
                0 <= j < unit.len() ==> #[trigger] end.parts[j] == if has_part(fs, j) {
                    Some(unit[j])
                } else {
                    None
                }
            &&& outs.len() == fs.len()
            &&& forall|k: int| 0 <= k < fs.len() ==> #[trigger] outs[k] is None
        }),
    decreases fs.len(),
{
    let init = fs.drop_last();
    let f = fs.last();
    assert(fs[fs.len() - 1] == f);
    assert(forall|i: int| 0 <= i < init.len() ==> init[i] == fs[i]);
    assert forall|j: int| has_part(fs, j) == (has_part(init, j) || f.part_index == j) by {
        if has_part(init, j) {
            let i = choose|i: int| 0 <= i < init.len() && (#[trigger] init[i]).part_index == j;
            assert(fs[i].part_index == j);
        }
        if has_part(fs, j) && f.part_index != j {
            let i = choose|i: int| 0 <= i < fs.len() && (#[trigger] fs[i]).part_index == j;
            assert(init[i].part_index == j);
        }
    }
    let missing = choose|j: int| 0 <= j < unit.len() && !#[trigger] has_part(fs, j);
    assert(!has_part(init, missing));
    let (mid, outs) = fed_all(a, init);
    if init.len() > 0 {
        lemma_fed_so_far(a, init, id, unit);
    } else {
        assert(forall|j: int| !has_part(init, j));
    }
    let on = mid.turn_to(f);
    assert(on.has_place(f));
    let parts = on.place(f);
    assert(parts[missing] is None);
}

/// A unit comes out whole, in `part_index` order, with the fragment that
/// completes it -- whatever the order in which its fragments arrive, and
/// however often some of them are repeated on the way. Nothing comes out
/// before.
pub proof fn law_any_order(a: Assembly, fs: Seq<FragmentView>, id: u8, unit: Seq<Seq<u8>>)
    requires
        a.unit_id != Some(id),
        fs.len() > 0,
        parts_of(fs, id, unit),
        has_every_part(fs, unit.len()),
        !has_every_part(fs.drop_last(), unit.len()),
    ensures
        ({
            let (end, outs) = fed_all(a, fs);
            &&& end.unit_id is None
            &&& outs.len() == fs.len()
            &&& outs.last() == Some(joined(all_parts(unit)))
            &&& forall|k: int| 0 <= k < fs.len() - 1 ==> #[trigger] outs[k] is None
        }),
{
    let init = fs.drop_last();
    let f = fs.last();
    assert(fs[fs.len() - 1] == f);
    assert(forall|i: int| 0 <= i < init.len() ==> init[i] == fs[i]);
    let (mid, outs) = fed_all(a, init);
    if init.len() > 0 {
        lemma_fed_so_far(a, init, id, unit);
    } else {
        assert(forall|j: int| !has_part(init, j));
    }
    let on = mid.turn_to(f);
    let parts = on.place(f);
    assert forall|j: int| 0 <= j < unit.len() implies #[trigger] parts[j] == Some(unit[j]) by {
        assert(has_part(fs, j));
        let i = choose|i: int| 0 <= i < fs.len() && (#[trigger] fs[i]).part_index == j;
        if i < init.len() {
            assert(init[i].part_index == j);
        }
    }
    assert(parts =~= all_parts(unit));
}

/// A partial unit is dropped, never emitted and never mixed into the next: a
/// fragment of another unit is taken exactly as it is when nothing is under
/// way, and the drop is counted.
pub proof fn law_partial_unit_is_dropped(a: Assembly, f: FragmentView)
    requires
        a.unit_id is Some,
        a.unit_id != Some(f.unit_id),
        !complete(a.parts),
    ensures
        ({
            let (end, out) = a.fed(f);
            let (fresh_end, fresh_out) = Assembly::start().fed(f);
            &&& out == fresh_out
            &&& end.unit_id == fresh_end.unit_id
            &&& end.parts == fresh_end.parts
            &&& end.dropped == if a.dropped < u64::MAX {
                a.dropped + 1
            } else {
                a.dropped as int
            }
        }),
{
}

/// A repeated fragment changes nothing.
pub proof fn law_duplicates_are_ignored(a: Assembly, f: FragmentView)
    requires
        a.unit_id == Some(f.unit_id),
        a.has_place(f),
        a.parts[f.part_index as int] is Some,
        !complete(a.parts),
    ensures
        a.fed(f) == (a, None::<Seq<u8>>),
{
}

/// Joining parts is joining the first of them, then the others.
pub proof fn law_joining_splits(a: Parts, b: Parts)
    ensures
        joined(a + b) == joined(a) + joined(b),
    decreases b.len(),
{
    if b.len() == 0 {
        assert(a + b =~= a);
    } else {
        assert((a + b).drop_last() =~= a + b.drop_last());
        law_joining_splits(a, b.drop_last());
        assert(joined(a + b) =~= joined(a) + joined(b));
    }
}

/// The bytes of a complete unit are those of its parts, all of them, one after
/// the other.
pub proof fn law_unit_is_all_its_parts(unit: Seq<Seq<u8>>)
    ensures
        joined(all_parts(unit)) == unit.flatten(),
    decreases unit.len(),
{
    unit.lemma_flatten_and_flatten_alt_are_equivalent();
    if unit.len() > 0 {
        let init = unit.drop_last();
        law_unit_is_all_its_parts(init);
        init.lemma_flatten_and_flatten_alt_are_equivalent();
        assert(all_parts(unit).drop_last() =~= all_parts(init));
    }
}

/// How many bytes some parts have together.
pub open spec fn bytes_in(unit: Seq<Seq<u8>>) -> nat
    decreases unit.len(),
{
    if unit.len() == 0 {
        0
    } else {
        bytes_in(unit.drop_last()) + unit.last().len()
    }
}

/// A complete unit is as long as its parts together, and each part stands in it
/// unchanged, behind as many bytes as the parts before it have.
pub proof fn law_part_stands_in_its_place(unit: Seq<Seq<u8>>, j: int)
    requires
        0 <= j < unit.len(),
    ensures
        ({
            let out = joined(all_parts(unit));
            let at = bytes_in(unit.take(j));
            &&& out.len() == bytes_in(unit)
            &&& at + unit[j].len() <= out.len()
            &&& out.subrange(at as int, (at + unit[j].len()) as int) == unit[j]
        }),
    decreases unit.len(),
{
    let init = unit.drop_last();
    let out = joined(all_parts(unit));
    lemma_bytes_in(unit);
    lemma_bytes_in(init);
    assert(all_parts(unit).drop_last() =~= all_parts(init));
    assert(out == joined(all_parts(init)) + unit.last());
    let at = bytes_in(unit.take(j));
    if j == unit.len() - 1 {
        assert(unit.take(j) =~= init);
        assert(out.subrange(at as int, (at + unit[j].len()) as int) =~= unit[j]);
    } else {
        law_part_stands_in_its_place(init, j);
        assert(init.take(j) =~= unit.take(j));
        assert(out.subrange(at as int, (at + unit[j].len()) as int) =~= joined(
            all_parts(init),
        ).subrange(at as int, (at + unit[j].len()) as int));
    }
}

proof fn lemma_bytes_in(unit: Seq<Seq<u8>>)
    ensures
        joined(all_parts(unit)).len() == bytes_in(unit),
    decreases unit.len(),
{
    if unit.len() > 0 {
        lemma_bytes_in(unit.drop_last());
        assert(all_parts(unit).drop_last() =~= all_parts(unit.drop_last()));
    }
}

/// Whatever the order in which its fragments arrive, the unit that comes out is
/// the concatenation of all its parts in their order.
pub proof fn law_unit_comes_out_whole(
    a: Assembly,
    fs: Seq<FragmentView>,
    id: u8,
    unit: Seq<Seq<u8>>,
)
    requires
        a.unit_id != Some(id),
        fs.len() > 0,
        parts_of(fs, id, unit),
        has_every_part(fs, unit.len()),
        !has_every_part(fs.drop_last(), unit.len()),
    ensures
        fed_all(a, fs).1.last() == Some(unit.flatten()),
{
    law_any_order(a, fs, id, unit);
    law_unit_is_all_its_parts(unit);
}

/// The header of a fragment reads back as it was written: any count of parts
/// below 128 and any index below 64, with the lowest bit of the index on top of
/// the count and the others in the next byte; the payload is all that follows
/// the twenty bytes of headers.
pub proof fn law_fragment_header(packet: Seq<u8>, total: nat, index: nat)
    requires
        packet.len() >= 20,
        total < 128,
        index < 64,
        packet[17] == total + 128 * (index % 2),
        packet[18] % 32 == index / 2,
    ensures
        fragment_of(packet).unit_id == packet[16],
        fragment_of(packet).total_parts == total,
        fragment_of(packet).part_index == index,
        fragment_of(packet).payload == packet.subrange(20, packet.len() as int),
{
    assert(fragment_of(packet).payload =~= packet.subrange(20, packet.len() as int));
}

/// A fragment that has no place in the unit under way changes nothing: its
/// index is beyond the parts there are, or it claims to belong to no parts.
pub proof fn law_misplaced_fragment_is_ignored(a: Assembly, f: FragmentView)
    requires
        a.unit_id == Some(f.unit_id),
        f.total_parts == 0 || f.part_index >= a.parts.len(),
    ensures
        a.fed(f) == (a, None::<Seq<u8>>),
{
}

/// A part that is new to the unit under way is kept, and no other part is
/// touched; the first fragment of a unit says how many parts it has.
pub proof fn law_new_part_is_kept(a: Assembly, f: FragmentView)
    requires
        f.total_parts > 0,
        a.unit_id == Some(f.unit_id) ==> f.part_index < a.parts.len()
            && a.parts[f.part_index as int] is None,
        a.unit_id != Some(f.unit_id) ==> f.part_index < f.total_parts,
    ensures
        ({
            let parts = a.fed(f).0.parts;
            &&& parts.len() == if a.unit_id == Some(f.unit_id) {
                a.parts.len()
            } else {
                f.total_parts
            }
            &&& parts[f.part_index as int] == Some(f.payload)
            &&& forall|i: int|
                0 <= i < parts.len() && i != f.part_index ==> #[trigger] parts[i] == if a.unit_id
                    == Some(f.unit_id) {
                    a.parts[i]
                } else {
                    None
                }
        }),
{
}

/// A unit is dropped only when another takes its place before it is complete:
/// the count goes up by one then, and stays as it is otherwise.
pub proof fn law_drops_are_counted(a: Assembly, f: FragmentView)
    requires
        a.dropped < u64::MAX,
    ensures
        a.fed(f).0.dropped == a.dropped + if a.unit_id is Some && a.unit_id != Some(f.unit_id) && (
        exists|i: int| 0 <= i < a.parts.len() && #[trigger] a.parts[i] is None) {
            1int
        } else {
            0int
        },
{
}

/// The first fragment of a unit settles it: the unit has as many parts as that
/// fragment says, even none, and nothing of an earlier unit; if the fragment has
/// no place in it, nothing has arrived yet, and nothing comes out.
pub proof fn law_first_fragment_settles_the_unit(a: Assembly, f: FragmentView)
    requires
        a.unit_id != Some(f.unit_id),
    ensures
        ({
            let (end, out) = a.fed(f);
            &&& end.parts.len() == f.total_parts
            &&& out is None ==> end.unit_id == Some(f.unit_id)
            &&& f.part_index >= f.total_parts ==> out is None && forall|i: int|
                0 <= i < f.total_parts ==> #[trigger] end.parts[i] is None
            &&& out is Some <==> f.total_parts == 1 && f.part_index == 0
            &&& out matches Some(bytes) ==> bytes == f.payload && end.unit_id is None
        }),
{
    let on = a.turn_to(f);
    if on.has_place(f) {
        let parts = on.place(f);
        if f.total_parts == 1 {
            assert(complete(parts));
            assert(parts =~= seq![Some(f.payload)]);
            assert(parts.drop_last() =~= Seq::empty());
            assert(joined(parts.drop_last()) =~= Seq::empty());
            assert(joined(parts) =~= f.payload);
        } else {
            let other: int = if f.part_index == 0 {
                1
            } else {
                0
            };
            assert(parts[other] is None);
        }
    }
}

/// Nothing comes out before every part is there, and what comes out is made of
/// what is held; the unit is over then.
pub proof fn law_only_complete_units_come_out(a: Assembly, f: FragmentView)
    ensures
        ({
            let (end, out) = a.fed(f);
            &&& out is Some ==> end.unit_id is None && forall|i: int|
                0 <= i < end.parts.len() ==> #[trigger] end.parts[i] is Some
            &&& out is Some ==> end.parts.len() > 0
            &&& out is None ==> end.unit_id == Some(f.unit_id)
        }),
{
}

} // verus!
