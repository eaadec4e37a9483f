//! The AOA interface on a FunctionFS instance: who the board pretends to be,
//! the blocks that FunctionFS is given, and the device controllers there are.
//! Composing the gadget and taking it apart again is in [`lifecycle`].
use vstd::prelude::*;

use crate::common::{from_le16, hi, le16, lo};
use crate::text::{chars_of, digits_value, hex_byte, law_hex_digits, lower, number_of};
use crate::text::{push_hex_byte, take_chars, views, without_sign};

pub mod laws;
pub mod lifecycle;
pub mod operations;
pub mod steps;

pub use self::lifecycle::FunctionFsGadget;

verus! {

// Placeholders: FunctionFS renumbers the interface and the controller's
// autoconfig assigns the real endpoint addresses.
/// IN: commands.
pub const EP_IN: u8 = 0x81;

/// OUT: video.
pub const EP_OUT: u8 = 0x02;

/// en-US.
pub const LANGID: u16 = 0x0409;

pub const FUNCTIONFS_DESCRIPTORS_MAGIC_V2: u32 = 3;

pub const FUNCTIONFS_STRINGS_MAGIC: u32 = 2;

/// Full-speed and high-speed descriptors follow.
pub const FUNCTIONFS_HAS_FS_AND_HS_DESC: u32 = 3;

// --- the AOA identity ---------------------------------------------------------

/// Google.
pub const VID: u16 = 0x18D1;

/// AOA accessory.
pub const PID: u16 = 0x2D01;

/// The AOA identity the goggles validate before they will open the video path.
pub struct GadgetIdentity {
    pub vid: u16,
    pub pid: u16,
    /// iManufacturer
    pub manufacturer: String,
    /// iProduct
    pub product: String,
    /// iSerialNumber
    pub serial: String,
    /// iConfiguration
    pub configuration: String,
    /// iInterface
    pub interface_name: String,
}

/// What an identity says.
#[verifier::ext_equal]
pub struct IdentityView {
    pub vid: u16,
    pub pid: u16,
    pub manufacturer: Seq<char>,
    pub product: Seq<char>,
    pub serial: Seq<char>,
    pub configuration: Seq<char>,
    pub interface_name: Seq<char>,
}

impl View for GadgetIdentity {
    type V = IdentityView;

    open spec fn view(&self) -> IdentityView {
        IdentityView {
            vid: self.vid,
            pid: self.pid,
            manufacturer: self.manufacturer@,
            product: self.product@,
            serial: self.serial@,
            configuration: self.configuration@,
            interface_name: self.interface_name@,
        }
    }
}

/// The identity of the Android Open Accessory that the goggles expect.
pub open spec fn aoa() -> IdentityView {
    IdentityView {
        vid: VID,
        pid: PID,
        manufacturer: "Google Inc."@,
        product: "Android-powered device in accessory mode"@,
        serial: "da64sxd1"@,
        configuration: "High speed configuration"@,
        interface_name: "Android Accessory Interface"@,
    }
}

/// The Android Open Accessory that the goggles expect. They check these before
/// they agree to open the video path.
pub fn aoa_identity() -> (id: GadgetIdentity)
    ensures
        id@ == aoa(),
        id@ == (IdentityView {
            vid: VID,
            pid: PID,
            manufacturer: "Google Inc."@,
            product: "Android-powered device in accessory mode"@,
            serial: "da64sxd1"@,
            configuration: "High speed configuration"@,
            interface_name: "Android Accessory Interface"@,
        }),
{
    GadgetIdentity {
        vid: VID,
        pid: PID,
        manufacturer: "Google Inc.".to_owned(),
        product: "Android-powered device in accessory mode".to_owned(),
        serial: "da64sxd1".to_owned(),
        configuration: "High speed configuration".to_owned(),
        interface_name: "Android Accessory Interface".to_owned(),
    }
}

/// A 16-bit id as configfs takes it: `0x` and four hex digits.
pub open spec fn hex_id_text(x: u16) -> Seq<char> {
    "0x"@ + hex_byte(hi(x)) + hex_byte(lo(x))
}

/// A 16-bit id as configfs takes it.
pub fn format_id(x: u16) -> (s: String)
    ensures
        s@ == hex_id_text(x),
{
    let mut s: String = "0x".to_owned();
    push_hex_byte(&mut s, (x / 256) as u8);
    push_hex_byte(&mut s, (x % 256) as u8);
    s
}

// --- FunctionFS descriptor blocks ---------------------------------------------

/// A 32-bit value on the wire, low byte first.
pub open spec fn le32(x: u32) -> Seq<u8> {
    seq![
        (x % 256) as u8,
        (x / 256 % 256) as u8,
        (x / 65536 % 256) as u8,
        (x / 16777216) as u8,
    ]
}

/// The 32-bit value whose bytes on the wire start at `at`.
pub open spec fn le32_at(s: Seq<u8>, at: int) -> int {
    s[at] + 256 * s[at + 1] + 65536 * s[at + 2] + 16777216 * s[at + 3]
}

/// Append a 32-bit value, low byte first.
fn add_u32(v: &mut Vec<u8>, x: u32)
    ensures
        final(v)@ == old(v)@ + le32(x),
{
    v.push((x % 256) as u8);
    v.push((x / 256 % 256) as u8);
    v.push((x / 65536 % 256) as u8);
    v.push((x / 16777216) as u8);
    assert(v@ =~= old(v)@ + le32(x));
}

/// A bulk endpoint descriptor.
pub open spec fn endpoint(addr: u8, max_packet: u16) -> Seq<u8> {
    seq![7u8, 5, addr, 0x02] + le16(max_packet) + seq![0u8]
}

/// Append a bulk endpoint descriptor.
fn add_endpoint(v: &mut Vec<u8>, addr: u8, max_packet: u16)
    ensures
        final(v)@ == old(v)@ + endpoint(addr, max_packet),
{
    v.push(7);
    v.push(5);
    v.push(addr);
    v.push(0x02);  // bulk
    v.push((max_packet % 256) as u8);
    v.push((max_packet / 256) as u8);
    v.push(0);
    assert(v@ =~= old(v)@ + endpoint(addr, max_packet));
}

/// One vendor-specific interface with an IN endpoint (commands) and an OUT
/// endpoint (video). Its name is string 1.
pub open spec fn interface(max_packet: u16) -> Seq<u8> {
    seq![9u8, 4, 0, 0, 2, 0xFF, 0xFF, 0, 1] + endpoint(EP_IN, max_packet) + endpoint(
        EP_OUT,
        max_packet,
    )
}

/// One vendor-specific interface with an IN endpoint and an OUT endpoint.
fn interface_block(max_packet: u16) -> (v: Vec<u8>)
    ensures
        v@ == interface(max_packet),
{
    let mut v: Vec<u8> = Vec::new();
    v.push(9);
    v.push(4);
    v.push(0);
    v.push(0);
    v.push(2);
    v.push(0xFF);
    v.push(0xFF);
    v.push(0);
    v.push(1);
    assert(v@ =~= seq![9u8, 4, 0, 0, 2, 0xFF, 0xFF, 0, 1]);
    add_endpoint(&mut v, EP_IN, max_packet);
    add_endpoint(&mut v, EP_OUT, max_packet);
    v
}

/// The descriptors of the interface, for full speed and for high speed, three
/// each: the interface itself and its two endpoints.
pub open spec fn descriptors() -> Seq<u8> {
    le32(FUNCTIONFS_DESCRIPTORS_MAGIC_V2) + le32(66) + le32(FUNCTIONFS_HAS_FS_AND_HS_DESC) + le32(3)
        + le32(3) + interface(64) + interface(512)
}

/// The descriptor block that makes the function real once it is written to
/// ep0.
pub fn ffs_descriptors() -> (out: Vec<u8>)
    ensures
        out@ == descriptors(),
{
    let mut fs: Vec<u8> = interface_block(64);
    let mut hs: Vec<u8> = interface_block(512);
    let mut out: Vec<u8> = Vec::new();
    add_u32(&mut out, FUNCTIONFS_DESCRIPTORS_MAGIC_V2);
    add_u32(&mut out, 66);  // length of the whole block
    add_u32(&mut out, FUNCTIONFS_HAS_FS_AND_HS_DESC);
    add_u32(&mut out, 3);
    add_u32(&mut out, 3);
    out.append(&mut fs);
    out.append(&mut hs);
    assert(out@ =~= descriptors());
    out
}

/// The string block that names the interface, in English, in UTF-8 and with a
/// NUL behind it. Its length is taken modulo 2^32.
pub open spec fn strings(name: Seq<u8>) -> Seq<u8> {
    le32(FUNCTIONFS_STRINGS_MAGIC) + le32(((19 + name.len()) % 0x1_0000_0000) as u32) + le32(1)
        + le32(1) + le16(LANGID) + name + seq![0u8]
}

/// The string block that names the interface.
pub fn ffs_strings(interface_name: &str) -> (out: Vec<u8>)
    ensures
        out@ == strings(vstd::utf8::encode_utf8(interface_name@)),
{
    let name: &[u8] = interface_name.as_bytes();
    let len: u32 = ((name.len() as u128 + 19) % 0x1_0000_0000) as u32;
    let mut out: Vec<u8> = Vec::new();
    add_u32(&mut out, FUNCTIONFS_STRINGS_MAGIC);
    add_u32(&mut out, len);
    add_u32(&mut out, 1);  // one string
    add_u32(&mut out, 1);  // one language
    out.push((LANGID % 256) as u8);
    out.push((LANGID / 256) as u8);
    out.extend_from_slice(name);
    out.push(0);
    assert(out@ =~= strings(name@));
    out
}

/// The second word of either block is the length of the whole block.
pub proof fn law_blocks_carry_their_length(name: Seq<u8>)
    requires
        19 + name.len() <= u32::MAX,
    ensures
        le32_at(descriptors(), 4) == descriptors().len(),
        le32_at(strings(name), 4) == strings(name).len(),
{
}

/// What the host is told about an endpoint: its address and largest packet.
#[derive(Clone, Copy, Debug, PartialEq, Eq, Structural)]
pub struct Endpoint {
    pub address: u8,
    pub max_packet: u16,
}

/// What an endpoint descriptor says.
pub open spec fn endpoint_read(d: Seq<u8>) -> Endpoint {
    Endpoint { address: d[2], max_packet: from_le16(d[4], d[5]) }
}

/// Read an endpoint descriptor as FunctionFS returns it. The controller's
/// autoconfig assigns the real addresses, so this is what the goggles will
/// actually see rather than what was asked for.
pub fn endpoint_of(d: &[u8; 9]) -> (e: Endpoint)
    ensures
        e == endpoint_read(d@),
        e == (Endpoint { address: d@[2], max_packet: from_le16(d@[4], d@[5]) }),
{
    Endpoint { address: d[2], max_packet: d[4] as u16 + 256 * d[5] as u16 }
}

/// An endpoint descriptor that was asked for reads back as it was written.
pub proof fn law_endpoint_round_trip(addr: u8, max_packet: u16)
    ensures
        endpoint(addr, max_packet).len() == 7,
        endpoint(addr, max_packet)[2] == addr,
        from_le16(endpoint(addr, max_packet)[4], endpoint(addr, max_packet)[5]) == max_packet,
{
}

// --- names in a directory -------------------------------------------------------

/// An entry of a directory that counts: its name starts with no dot.
pub open spec fn visible(name: Seq<char>) -> bool {
    name.len() == 0 || name[0] != '.'
}

/// Whether the name of a directory entry starts with no dot.
fn is_visible(name: &str) -> (yes: bool)
    ensures
        yes == visible(name@),
{
    let v: Vec<char> = chars_of(name);
    v.len() == 0 || v[0] != '.'
}

/// The entries of a directory that count, in the order in which they came.
pub open spec fn listed(names: Seq<Seq<char>>) -> Seq<Seq<char>>
    decreases names.len(),
{
    if names.len() == 0 {
        Seq::empty()
    } else if visible(names.last()) {
        listed(names.drop_last()).push(names.last())
    } else {
        listed(names.drop_last())
    }
}

/// The entries of a directory that count.
pub fn list_dir(names: &[String]) -> (kept: Vec<String>)
    ensures
        views(kept@) == listed(views(names@)),
{
    let mut kept: Vec<String> = Vec::new();
    let mut i: usize = 0;
    assert(views(names@).take(0) =~= Seq::empty());
    assert(views(kept@) =~= Seq::empty());
    while i < names.len()
        invariant
            i <= names@.len(),
            views(kept@) == listed(views(names@).take(i as int)),
        decreases names@.len() - i,
    {
        let ghost before = kept@;
        let ghost seen = views(names@).take(i + 1);
        proof {
            assert(seen.drop_last() =~= views(names@).take(i as int));
            assert(seen.last() == names@[i as int]@);
        }
        if is_visible(names[i].as_str()) {
            kept.push(names[i].clone());
            assert(views(kept@) =~= views(before).push(seen.last()));
        }
        i = i + 1;
    }
    assert(views(names@).take(names@.len() as int) =~= views(names@));
    kept
}

/// Text order: by the first character that differs, the shorter one first if
/// none does.
pub open spec fn text_le(a: Seq<char>, b: Seq<char>) -> bool
    decreases a.len(),
{
    if a.len() == 0 {
        true
    } else if b.len() == 0 {
        false
    } else if a[0] != b[0] {
        (a[0] as int) < (b[0] as int)
    } else {
        text_le(a.skip(1), b.skip(1))
    }
}

proof fn lemma_text_le_total(a: Seq<char>, b: Seq<char>)
    ensures
        text_le(a, b) || text_le(b, a),
    decreases a.len(),
{
    if a.len() > 0 && b.len() > 0 {
        lemma_text_le_total(a.skip(1), b.skip(1));
    }
}

proof fn lemma_text_le_transitive(a: Seq<char>, b: Seq<char>, c: Seq<char>)
    requires
        text_le(a, b),
        text_le(b, c),
    ensures
        text_le(a, c),
    decreases a.len(),
{
    if a.len() > 0 && b.len() > 0 && c.len() > 0 && a[0] == b[0] && b[0] == c[0] {
        lemma_text_le_transitive(a.skip(1), b.skip(1), c.skip(1));
    }
}

/// Whether `a` comes before `b` or is the same.
fn comes_before(a: &str, b: &str) -> (yes: bool)
    ensures
        yes == text_le(a@, b@),
{
    let x: Vec<char> = chars_of(a);
    let y: Vec<char> = chars_of(b);
    let mut i: usize = 0;
    proof {
        assert(x@.skip(0) =~= a@);
        assert(y@.skip(0) =~= b@);
    }
    while i < x.len() && i < y.len() && x[i] == y[i]
        invariant
            i <= x@.len(),
            i <= y@.len(),
            text_le(a@, b@) == text_le(x@.skip(i as int), y@.skip(i as int)),
        decreases x@.len() - i,
    {
        proof {
            assert(x@.skip(i as int).skip(1) =~= x@.skip(i + 1));
            assert(y@.skip(i as int).skip(1) =~= y@.skip(i + 1));
        }
        i = i + 1;
    }
    if i == x.len() {
        true
    } else if i == y.len() {
        false
    } else {
        x[i] < y[i]
    }
}

/// The names are in text order.
pub open spec fn in_order(v: Seq<Seq<char>>) -> bool {
    forall|i: int, j: int| 0 <= i < j < v.len() ==> text_le(#[trigger] v[i], #[trigger] v[j])
}

/// Put a name where it belongs among names in order.
fn insert_name(v: &mut Vec<String>, name: &String)
    requires
        in_order(views(old(v)@)),
    ensures
        in_order(views(final(v)@)),
        views(final(v)@).to_multiset() == views(old(v)@).to_multiset().insert(name@),
{
    let mut at: usize = 0;
    while at < v.len() && comes_before(v[at].as_str(), name.as_str())
        invariant
            *v == *old(v),
            at <= v@.len(),
            forall|j: int| 0 <= j < at ==> text_le((#[trigger] v@[j])@, name@),
        decreases v@.len() - at,
    {
        at = at + 1;
    }
    let ghost was = views(v@);
    v.insert(at, name.clone());
    proof {
        let now = views(v@);
        assert(now =~= was.insert(at as int, name@));
        vstd::seq_lib::to_multiset_insert(was, at as int, name@);
        assert forall|i: int, j: int| 0 <= i < j < now.len() implies text_le(
            #[trigger] now[i],
            #[trigger] now[j],
        ) by {
            if at < was.len() {
                assert(was[at as int] == old(v)@[at as int]@);
                lemma_text_le_total(was[at as int], name@);
            }
            if i < at {
                assert(now[i] == was[i]);
                assert(was[i] == old(v)@[i]@);
            }
            if i == at {
                assert(now[j] == was[j - 1]);
                if j - 1 > at {
                    lemma_text_le_transitive(name@, was[at as int], was[j - 1]);
                }
            } else if j == at {
                assert(text_le(was[i], name@));
            } else if i < at && j > at {
                assert(now[j] == was[j - 1]);
            } else if i > at {
                assert(now[i] == was[i - 1] && now[j] == was[j - 1]);
            } else {
                assert(now[j] == was[j]);
            }
        }
    }
}

/// The names are those of a directory's entries that count, in order.
pub open spec fn lists(names: Seq<Seq<char>>, entries: Seq<Seq<char>>) -> bool {
    in_order(names) && names.to_multiset() == listed(entries).to_multiset()
}

impl FunctionFsGadget {
    /// Every USB device controller the board exposes, in order, from the
    /// entries of `/sys/class/udc`.
    pub fn list_udcs(entries: &[String]) -> (udcs: Vec<String>)
        ensures
            lists(views(udcs@), views(entries@)),
            in_order(views(udcs@)),
            views(udcs@).to_multiset() == listed(views(entries@)).to_multiset(),
    {
        let names: Vec<String> = list_dir(entries);
        let ghost all = views(names@);
        let mut udcs: Vec<String> = Vec::new();
        let mut i: usize = 0;
        assert(views(udcs@) =~= all.take(0));
        while i < names.len()
            invariant
                all == views(names@),
                i <= names@.len(),
                in_order(views(udcs@)),
                views(udcs@).to_multiset() == all.take(i as int).to_multiset(),
            decreases names@.len() - i,
        {
            proof {
                assert(all.take(i + 1) =~= all.take(i as int).push(names@[i as int]@));
                vstd::seq_lib::to_multiset_build(all.take(i as int), names@[i as int]@);
            }
            insert_name(&mut udcs, &names[i]);
            i = i + 1;
        }
        assert(all.take(i as int) =~= all);
        udcs
    }
}

// --- what a sysfs file says ----------------------------------------------------

/// The contents of a sysfs file without the line end, and blanks, behind them.
pub open spec fn file_text(s: Seq<char>) -> Seq<char>
    decreases s.len(),
{
    if s.len() > 0 && (s.last() == '\n' || s.last() == ' ') {
        file_text(s.drop_last())
    } else {
        s
    }
}

/// The contents of a sysfs file without the line end, and blanks, behind them.
pub fn trim_file<'a>(s: &'a str) -> (t: &'a str)
    ensures
        t@ == file_text(s@),
{
    let v: Vec<char> = chars_of(s);
    let mut n: usize = v.len();
    assert(s@.take(n as int) =~= s@);
    while n > 0 && (v[n - 1] == '\n' || v[n - 1] == ' ')
        invariant
            v@ == s@,
            n <= v@.len(),
            file_text(s@) == file_text(s@.take(n as int)),
        decreases n,
    {
        assert(s@.take(n as int).drop_last() =~= s@.take(n - 1));
        n = n - 1;
    }
    take_chars(s, n)
}

// --- laws of the blocks and names ------------------------------------------------

/// The goggles are shown Google's accessory, by its ids and its names.
pub proof fn law_identity()
    ensures
        aoa().vid == 0x18d1 && aoa().pid == 0x2d01,
        aoa().manufacturer == "Google Inc."@,
        aoa().product == "Android-powered device in accessory mode"@,
        aoa().serial == "da64sxd1"@,
        aoa().configuration == "High speed configuration"@,
        aoa().interface_name == "Android Accessory Interface"@,
{
}

/// An id is written as `0x` and four lower-case hex digits, which read back as
/// the id.
pub proof fn law_id_reads_back(x: u16)
    ensures
        ({
            let s = hex_id_text(x);
            &&& s.len() == 6
            &&& s[0] == '0' && s[1] == 'x'
            &&& number_of(s.skip(2), true) == Some(x as int)
            &&& lower(s) == s
        }),
{
    reveal_strlit("0x");
    let s = hex_id_text(x);
    let t = s.skip(2);
    let h = hi(x) as int;
    let l = lo(x) as int;
    assert(h == x as int / 256 && l == x as int % 256);
    law_hex_digits(h / 16);
    law_hex_digits(h % 16);
    law_hex_digits(l / 16);
    law_hex_digits(l % 16);
    assert(t =~= hex_byte(hi(x)) + hex_byte(lo(x)));
    assert(t.drop_last() =~= t.take(3));
    assert(t.take(3).drop_last() =~= t.take(2));
    assert(t.take(2).drop_last() =~= t.take(1));
    assert(t.take(1).drop_last() =~= Seq::empty());
    assert(digits_value(Seq::empty(), true) == Some(0int));
    assert(digits_value(t.take(1), true) == Some(h / 16));
    assert(digits_value(t.take(2), true) == Some(h));
    assert(digits_value(t.take(3), true) == Some(16 * h + l / 16));
    assert(without_sign(t) == t);
    assert(lower(s) =~= s);
}

/// A 32-bit value survives the wire.
pub proof fn law_le32_round_trip(x: u32)
    ensures
        le32(x).len() == 4,
        le32_at(le32(x), 0) == x,
{
}

/// The descriptors, byte for byte: for full speed and for high speed an
/// interface of the vendor's own with a bulk endpoint each way.
pub proof fn law_descriptors()
    ensures
        descriptors() == seq![
            3u8, 0, 0, 0, 66, 0, 0, 0, 3, 0, 0, 0, 3, 0,
            0, 0, 3, 0, 0, 0, 9, 4, 0, 0, 2, 255, 255, 0,
            1, 7, 5, 129, 2, 64, 0, 0, 7, 5, 2, 2, 64, 0,
            0, 9, 4, 0, 0, 2, 255, 255, 0, 1, 7, 5, 129, 2,
            0, 2, 0, 7, 5, 2, 2, 0, 2, 0,
        ],
{
    assert(descriptors() =~= seq![
            3u8, 0, 0, 0, 66, 0, 0, 0, 3, 0, 0, 0, 3, 0,
            0, 0, 3, 0, 0, 0, 9, 4, 0, 0, 2, 255, 255, 0,
            1, 7, 5, 129, 2, 64, 0, 0, 7, 5, 2, 2, 64, 0,
            0, 9, 4, 0, 0, 2, 255, 255, 0, 1, 7, 5, 129, 2,
            0, 2, 0, 7, 5, 2, 2, 0, 2, 0,
        ]);
}

/// The string block, byte for byte: its kind, its length, one string, one
/// language, en-US, the whole name and a NUL.
pub proof fn law_string_block(name: Seq<u8>)
    requires
        19 + name.len() <= u32::MAX,
    ensures
        ({
            let s = strings(name);
            let n = name.len() as int;
            &&& s.len() == 19 + n
            &&& s.take(4) == seq![2u8, 0, 0, 0]
            &&& s[4] + 256 * s[5] + 65536 * s[6] + 16777216 * s[7] == 19 + n
            &&& s.subrange(8, 18) == seq![1u8, 0, 0, 0, 1, 0, 0, 0, 9, 4]
            &&& s.subrange(18, 18 + n) == name
            &&& s[18 + n] == 0
        }),
{
    let s = strings(name);
    let n = name.len() as int;
    assert(s.take(4) =~= seq![2u8, 0, 0, 0]);
    assert(s.subrange(8, 18) =~= seq![1u8, 0, 0, 0, 1, 0, 0, 0, 9, 4]);
    assert(s.subrange(18, 18 + n) =~= name);
}

/// An endpoint's address is the third byte of its descriptor, its largest packet
/// the fifth and sixth, low byte first; what was written is read back.
pub proof fn law_endpoint_is_read(d: Seq<u8>, addr: u8, max_packet: u16)
    ensures
        endpoint_read(d).address == d[2],
        endpoint_read(d).max_packet == d[4] + 256 * d[5],
        endpoint_read(endpoint(addr, max_packet)) == (Endpoint { address: addr, max_packet }),
        endpoint(addr, max_packet)[0] == 7 && endpoint(addr, max_packet)[1] == 5,
        endpoint(addr, max_packet)[3] == 2 && endpoint(addr, max_packet)[6] == 0,
{
}

/// A directory can be listed in two parts; an entry is left out exactly if its
/// name starts with a dot.
pub proof fn law_listing_splits(a: Seq<Seq<char>>, b: Seq<Seq<char>>, name: Seq<char>)
    ensures
        listed(a + b) == listed(a) + listed(b),
        name.len() > 0 && name[0] == '.' ==> listed(seq![name]).len() == 0,
        name.len() == 0 || name[0] != '.' ==> listed(seq![name]) == seq![name],
    decreases b.len(),
{
    reveal_with_fuel(listed, 2);
    assert(seq![name].drop_last() =~= Seq::empty());
    assert(listed(Seq::empty()) =~= Seq::empty());
    if b.len() == 0 {
        assert(a + b =~= a);
        assert(listed(a) + listed(b) =~= listed(a));
    } else {
        assert((a + b).drop_last() =~= a + b.drop_last());
        assert((a + b).last() == b.last());
        law_listing_splits(a, b.drop_last(), name);
        assert(listed(a + b) =~= listed(a) + listed(b));
    }
}

proof fn lemma_listed_count(names: Seq<Seq<char>>, name: Seq<char>)
    ensures
        listed(names).to_multiset().count(name) == if visible(name) {
            names.to_multiset().count(name)
        } else {
            0
        },
    decreases names.len(),
{
    broadcast use vstd::seq_lib::group_to_multiset_ensures;

    if names.len() > 0 {
        let rest = names.drop_last();
        lemma_listed_count(rest, name);
        assert(names =~= rest.push(names.last()));
        vstd::seq_lib::to_multiset_build(rest, names.last());
        vstd::seq_lib::to_multiset_build(listed(rest), names.last());
    }
}

/// A listing holds each entry that does not start with a dot, as often as it is
/// there, and nothing else; and of any two names the one before is not the
/// greater one.
pub proof fn law_listing_is_complete(
    names: Seq<Seq<char>>,
    entries: Seq<Seq<char>>,
    name: Seq<char>,
    i: int,
    j: int,
)
    requires
        lists(names, entries),
    ensures
        name.len() == 0 || name[0] != '.' ==> names.to_multiset().count(name)
            == entries.to_multiset().count(name),
        name.len() > 0 && name[0] == '.' ==> !names.contains(name),
        names.len() == listed(entries).len(),
        0 <= i < j < names.len() ==> text_le(names[i], names[j]),
{
    broadcast use vstd::seq_lib::group_to_multiset_ensures;

    lemma_listed_count(entries, name);
    assert(names.to_multiset().len() == names.len());
    assert(listed(entries).to_multiset().len() == listed(entries).len());
    if !visible(name) && names.contains(name) {
        assert(names.to_multiset().count(name) > 0);
    }
}

/// Text order goes by the first character that differs, and a text comes before
/// every longer one that starts with it. So two texts that come before each
/// other are the same.
pub proof fn law_text_order(p: Seq<char>, c: char, a: Seq<char>, d: char, b: Seq<char>)
    ensures
        (c as int) < (d as int) ==> text_le(p + seq![c] + a, p + seq![d] + b) && !text_le(
            p + seq![d] + b,
            p + seq![c] + a,
        ),
        text_le(p, p + a),
        a.len() > 0 ==> !text_le(p + a, p),
    decreases p.len(),
{
    let x = p + seq![c] + a;
    let y = p + seq![d] + b;
    if p.len() > 0 {
        law_text_order(p.skip(1), c, a, d, b);
        assert(x.skip(1) =~= p.skip(1) + seq![c] + a);
        assert(y.skip(1) =~= p.skip(1) + seq![d] + b);
        assert((p + a).skip(1) =~= p.skip(1) + a);
        assert(x[0] == p[0] && y[0] == p[0] && (p + a)[0] == p[0]);
    } else {
        assert(x[0] == c && y[0] == d);
        assert(p + a =~= a);
    }
}

/// What a file says is all of it but the line ends and blanks at its end.
pub proof fn law_file_text(s: Seq<char>) -> (j: int)
    ensures
        0 <= j <= s.len(),
        file_text(s) == s.take(j),
        j > 0 ==> s[j - 1] != '\n' && s[j - 1] != ' ',
        forall|k: int| j <= k < s.len() ==> s[k] == '\n' || s[k] == ' ',
    decreases s.len(),
{
    if s.len() > 0 && (s.last() == '\n' || s.last() == ' ') {
        let j = law_file_text(s.drop_last());
        assert(s.drop_last().take(j) =~= s.take(j));
        assert(forall|k: int| 0 <= k < s.len() - 1 ==> s.drop_last()[k] == s[k]);
        j
    } else {
        assert(s.take(s.len() as int) =~= s);
        s.len() as int
    }
}

} // verus!
