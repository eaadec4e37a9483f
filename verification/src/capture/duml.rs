//! DUML, the command protocol of the goggles: its checksums, and the
//! keep-alive commands that hold the video open.
use vstd::prelude::*;
use vstd::slice::slice_subrange;
use vstd::slice::slice_to_vec;

use crate::common::{consumed, frame_end, frame_of, frames, hi, le16, lo, resync, FrameView};

verus! {

// --- DJI DUML checksums (CRC-8/Maxim seed 0x77, CRC-16/X-25 seed 0x3692) -----

pub const CRC8_SEED: u8 = 0x77;

pub const CRC16_SEED: u16 = 0x3692;

/// The CRC-8 register shifted by one bit.
pub open spec fn crc8_shift(c: u8) -> u8 {
    if c & 1 == 1 {
        (c >> 1) ^ 0x8C
    } else {
        c >> 1
    }
}

/// The CRC-8 register shifted by `n` bits.
pub open spec fn crc8_shifts(c: u8, n: nat) -> u8
    decreases n,
{
    if n == 0 {
        c
    } else {
        crc8_shift(crc8_shifts(c, (n - 1) as nat))
    }
}

/// The CRC-8 register `c` after the bytes of `d`.
pub open spec fn crc8_after(c: u8, d: Seq<u8>) -> u8
    decreases d.len(),
{
    if d.len() == 0 {
        c
    } else {
        crc8_shifts(crc8_after(c, d.drop_last()) ^ d.last(), 8)
    }
}

/// The CRC-8 of `d`.
pub open spec fn crc8_spec(d: Seq<u8>) -> u8 {
    crc8_after(CRC8_SEED, d)
}

/// The CRC-16 register shifted by one bit.
pub open spec fn crc16_shift(c: u16) -> u16 {
    if c & 1 == 1 {
        (c >> 1) ^ 0x8408
    } else {
        c >> 1
    }
}

/// The CRC-16 register shifted by `n` bits.
pub open spec fn crc16_shifts(c: u16, n: nat) -> u16
    decreases n,
{
    if n == 0 {
        c
    } else {
        crc16_shift(crc16_shifts(c, (n - 1) as nat))
    }
}

/// The CRC-16 register `c` after the bytes of `d`.
pub open spec fn crc16_after(c: u16, d: Seq<u8>) -> u16
    decreases d.len(),
{
    if d.len() == 0 {
        c
    } else {
        crc16_shifts(crc16_after(c, d.drop_last()) ^ (d.last() as u16), 8)
    }
}

/// The CRC-16 of `d`.
pub open spec fn crc16_spec(d: Seq<u8>) -> u16 {
    crc16_after(CRC16_SEED, d)
}

/// The shift register is linear.
proof fn lemma_crc16_linear(a: u16, b: u16, n: nat)
    ensures
        crc16_shifts(a ^ b, n) == crc16_shifts(a, n) ^ crc16_shifts(b, n),
    decreases n,
{
    if n > 0 {
        lemma_crc16_linear(a, b, (n - 1) as nat);
        let x = crc16_shifts(a, (n - 1) as nat);
        let y = crc16_shifts(b, (n - 1) as nat);
        assert(crc16_shift(x ^ y) == crc16_shift(x) ^ crc16_shift(y)) by (bit_vector);
    }
}

/// A byte in the high half reaches the low half unchanged in eight shifts.
proof fn lemma_crc16_high(h: u16)
    ensures
        crc16_shifts(h & 0xff00, 8) == h >> 8,
{
    reveal_with_fuel(crc16_shifts, 9);
    assert(crc16_shift(crc16_shift(crc16_shift(crc16_shift(crc16_shift(crc16_shift(crc16_shift(
        crc16_shift(h & 0xff00))))))))
        == h >> 8) by (bit_vector);
}

/// One table look-up does the work of eight shifts.
proof fn lemma_crc16_lookup(x: u16)
    ensures
        crc16_shifts(x, 8) == crc16_shifts(x & 0xff, 8) ^ (x >> 8),
{
    assert(x == (x & 0xff) ^ (x & 0xff00)) by (bit_vector);
    lemma_crc16_linear(x & 0xff, x & 0xff00, 8);
    lemma_crc16_high(x);
}

/// The checksum registers after eight shifts, for each byte.
pub struct CrcTables {
    crc8: [u8; 256],
    crc16: [u16; 256],
}

impl CrcTables {
    /// Every entry is what the shifts give.
    pub closed spec fn wf(self) -> bool {
        &&& forall|i: int| 0 <= i < 256 ==> #[trigger] self.crc8@[i] == crc8_shifts(i as u8, 8)
        &&& forall|i: int| 0 <= i < 256 ==> #[trigger] self.crc16@[i] == crc16_shifts(i as u16, 8)
    }

    /// The CRC-8 of `d`.
    pub fn crc8_of(&self, d: &[u8]) -> (c: u8)
        requires
            self.wf(),
        ensures
            c == crc8_spec(d@),
    {
        let mut c: u8 = CRC8_SEED;
        let mut i: usize = 0;
        while i < d.len()
            invariant
                self.wf(),
                i <= d@.len(),
                c == crc8_after(CRC8_SEED, d@.take(i as int)),
            decreases d@.len() - i,
        {
            assert(d@.take(i + 1).drop_last() =~= d@.take(i as int));
            c = self.crc8[(c ^ d[i]) as usize];
            i = i + 1;
        }
        assert(d@.take(d@.len() as int) =~= d@);
        c
    }

    /// The CRC-16 of `d`.
    pub fn crc16_of(&self, d: &[u8]) -> (c: u16)
        requires
            self.wf(),
        ensures
            c == crc16_spec(d@),
    {
        let mut c: u16 = CRC16_SEED;
        let mut i: usize = 0;
        while i < d.len()
            invariant
                self.wf(),
                i <= d@.len(),
                c == crc16_after(CRC16_SEED, d@.take(i as int)),
            decreases d@.len() - i,
        {
            let b: u16 = d[i] as u16;
            let at: u16 = (c ^ b) & 0xff;
            proof {
                assert(d@.take(i + 1).drop_last() =~= d@.take(i as int));
                assert((c ^ b) & 0xff < 256) by (bit_vector);
                assert(b < 256 ==> (c ^ b) >> 8 == c >> 8) by (bit_vector);
                lemma_crc16_lookup(c ^ b);
            }
            c = self.crc16[at as usize] ^ (c >> 8);
            i = i + 1;
        }
        assert(d@.take(d@.len() as int) =~= d@);
        c
    }
}

/// Both tables.
pub fn crc_tables() -> (t: CrcTables)
    ensures
        t.wf(),
{
    let mut crc8: [u8; 256] = [0; 256];
    let mut crc16: [u16; 256] = [0; 256];
    let mut i: usize = 0;
    while i < 256
        invariant
            i <= 256,
            forall|j: int| 0 <= j < i ==> #[trigger] crc8@[j] == crc8_shifts(j as u8, 8),
            forall|j: int| 0 <= j < i ==> #[trigger] crc16@[j] == crc16_shifts(j as u16, 8),
        decreases 256 - i,
    {
        let mut c8: u8 = i as u8;
        let mut c16: u16 = i as u16;
        let mut k: usize = 0;
        while k < 8
            invariant
                i < 256,
                k <= 8,
                c8 == crc8_shifts(i as u8, k as nat),
                c16 == crc16_shifts(i as u16, k as nat),
            decreases 8 - k,
        {
            proof {
                assert(c8 & 1 != 0 ==> c8 & 1 == 1) by (bit_vector);
                assert(c16 & 1 != 0 ==> c16 & 1 == 1) by (bit_vector);
            }
            c8 = if c8 & 1 != 0 { (c8 >> 1) ^ 0x8C } else { c8 >> 1 };
            c16 = if c16 & 1 != 0 { (c16 >> 1) ^ 0x8408 } else { c16 >> 1 };
            k = k + 1;
        }
        crc8[i] = c8;
        crc16[i] = c16;
        i = i + 1;
    }
    CrcTables { crc8, crc16 }
}

/// The CRC-8 that guards a DUML header.
pub fn crc8(d: &[u8]) -> (c: u8)
    ensures
        c == crc8_spec(d@),
{
    crc_tables().crc8_of(d)
}

/// The CRC-16 that guards a DUML packet.
pub fn crc16(d: &[u8]) -> (c: u16)
    ensures
        c == crc16_spec(d@),
{
    crc_tables().crc16_of(d)
}

// --- DUML keep-alive commands ---------------------------------------------
// Inner packets as the official receiver sends them. CMD_APP tells the goggles
// to start streaming; the rest are normal keep-alive chatter.

pub const CMD_E5: [u8; 16] = [
    0x55, 0x10, 0x04, 0x56, 0x02, 0x88, 0x54, 0xad, 0x40, 0x00, 0xe5, 0x04,
    0x04, 0x01, 0x68, 0x9c,
];

pub const CMD_51: [u8; 14] = [
    0x55, 0x0e, 0x04, 0x66, 0x02, 0x28, 0x55, 0xad, 0x40, 0x00, 0x51, 0x06,
    0x7c, 0x9c,
];

pub const CMD_4F: [u8; 22] = [
    0x55, 0x16, 0x04, 0xfc, 0x02, 0x48, 0x56, 0xad, 0x40, 0x00, 0x4f, 0x01,
    0x00, 0x16, 0x00, 0x00, 0xff, 0xff, 0xff, 0xff, 0x5c, 0xe9,
];

pub const CMD_EB: [u8; 30] = [
    0x55, 0x1e, 0x04, 0x8a, 0x02, 0x01, 0x63, 0xad, 0x40, 0x02, 0xeb, 0x00,
    0xff, 0x03, 0x11, 0x27, 0x00, 0x00, 0x0a, 0x00, 0x03, 0x00, 0x08, 0x00,
    0xd1, 0x07, 0x75, 0x17, 0x6f, 0x3d,
];

pub const CMD_82: [u8; 14] = [
    0x55, 0x0e, 0x04, 0x66, 0x02, 0x2d, 0x7e, 0x01, 0x80, 0x00, 0x82, 0x00,
    0xd2, 0x72,
];

pub const CMD_APP: [u8; 27] = [
    0x55, 0x1b, 0x04, 0x75, 0x02, 0x3c, 0x68, 0xad, 0x40, 0x00, 0x88, 0x17,
    0x00, 0x00, 0x23, 0x00, 0x41, 0x50, 0x50, 0x00, 0x00, 0x00, 0x00, 0x00,
    0x02, 0x98, 0xf0,
];

pub const CMD_D0: [u8; 14] = [
    0x55, 0x0e, 0x04, 0x66, 0x02, 0x01, 0x6a, 0xad, 0x40, 0x02, 0xd0, 0x04,
    0x20, 0xa8,
];

pub const CMD_41: [u8; 14] = [
    0x55, 0x0e, 0x04, 0x66, 0x02, 0x01, 0x42, 0x86, 0x40, 0x08, 0x41, 0x02,
    0xad, 0xd2,
];

pub const CMD_PING: [u8; 13] = [
    0x55, 0x0d, 0x04, 0x33, 0x02, 0x0e, 0x4b, 0x86, 0x00, 0x00, 0x00, 0xc1,
    0x2a,
];

/// How many keep-alive commands there are.
pub const COMMANDS: usize = 9;

/// The inner packet of keep-alive command `i`.
pub open spec fn command_spec(i: int) -> Seq<u8> {
    if i == 0 {
        CMD_E5@
    } else if i == 1 {
        CMD_51@
    } else if i == 2 {
        CMD_4F@
    } else if i == 3 {
        CMD_EB@
    } else if i == 4 {
        CMD_82@
    } else if i == 5 {
        CMD_APP@
    } else if i == 6 {
        CMD_D0@
    } else if i == 7 {
        CMD_41@
    } else {
        CMD_PING@
    }
}

/// The inner packet of keep-alive command `i`.
pub fn command(i: usize) -> (inner: Vec<u8>)
    requires
        i < COMMANDS,
    ensures
        inner@ == command_spec(i as int),
        inner@.len() >= 13,
{
    if i == 0 {
        slice_to_vec(&CMD_E5)
    } else if i == 1 {
        slice_to_vec(&CMD_51)
    } else if i == 2 {
        slice_to_vec(&CMD_4F)
    } else if i == 3 {
        slice_to_vec(&CMD_EB)
    } else if i == 4 {
        slice_to_vec(&CMD_82)
    } else if i == 5 {
        slice_to_vec(&CMD_APP)
    } else if i == 6 {
        slice_to_vec(&CMD_D0)
    } else if i == 7 {
        slice_to_vec(&CMD_41)
    } else {
        slice_to_vec(&CMD_PING)
    }
}

/// The inner packet with its sequence number and both checksums filled in.
pub open spec fn sealed(inner: Seq<u8>, seq: u16) -> Seq<u8> {
    let n = inner.len() as int;
    let numbered = inner.update(6, lo(seq)).update(7, hi(seq));
    let headed = numbered.update(3, crc8_spec(numbered.take(3)));
    let c = crc16_spec(headed.take(n - 2));
    headed.update(n - 2, lo(c)).update(n - 1, hi(c))
}

/// A sealed packet in its outer USB wrapper.
pub open spec fn wrapped(inner: Seq<u8>, seq: u16) -> Seq<u8> {
    seq![0x55u8, 0xCC, 0x49, 0x57] + le16((inner.len() % 65536) as u16) + le16(seq) + sealed(
        inner,
        seq,
    )
}

/// Fill in the sequence number and the checksums, then add the outer USB wrapper.
pub fn build_command(inner: &[u8], seq: u16) -> (out: Vec<u8>)
    requires
        inner@.len() >= 8,
    ensures
        out@ == wrapped(inner@, seq),
{
    let t = crc_tables();
    let mut p: Vec<u8> = slice_to_vec(inner);
    let n: usize = p.len();
    p[6] = (seq % 256) as u8;
    p[7] = (seq / 256) as u8;
    let c8: u8 = t.crc8_of(slice_subrange(p.as_slice(), 0, 3));
    p[3] = c8;
    let c16: u16 = t.crc16_of(slice_subrange(p.as_slice(), 0, n - 2));
    p[n - 2] = (c16 % 256) as u8;
    p[n - 1] = (c16 / 256) as u8;

    let wrapped_len: u16 = (n % 65536) as u16;
    let mut out: Vec<u8> = Vec::new();
    out.push(0x55);
    out.push(0xCC);
    out.push(0x49);
    out.push(0x57);
    out.push((wrapped_len % 256) as u8);
    out.push((wrapped_len / 256) as u8);
    out.push((seq % 256) as u8);
    out.push((seq / 256) as u8);
    out.append(&mut p);
    assert(out@ =~= wrapped(inner@, seq));
    out
}

/// A sealed packet carries checksums that match and its sequence number; every
/// other byte is the recorded one. (Ten bytes are the shortest packet whose
/// checksum does not lie on its sequence number.)
pub proof fn law_sealed_packet(inner: Seq<u8>, seq: u16)
    requires
        inner.len() >= 8,
    ensures
        ({
            let p = sealed(inner, seq);
            let n = inner.len() as int;
            &&& p.len() == n
            &&& p[3] == crc8_spec(p.take(3))
            &&& p.subrange(n - 2, n) == le16(crc16_spec(p.take(n - 2)))
            &&& n >= 10 ==> p.subrange(6, 8) == le16(seq)
            &&& forall|i: int| 0 <= i < n - 2 && i != 3 && i != 6 && i != 7 ==> p[i] == inner[i]
        }),
{
    let n = inner.len() as int;
    let p = sealed(inner, seq);
    let numbered = inner.update(6, lo(seq)).update(7, hi(seq));
    let headed = numbered.update(3, crc8_spec(numbered.take(3)));
    assert(p.take(3) =~= numbered.take(3));
    assert(p.take(n - 2) =~= headed.take(n - 2));
    assert(p.subrange(n - 2, n) =~= le16(crc16_spec(p.take(n - 2))));
    if n >= 10 {
        assert(p.subrange(6, 8) =~= le16(seq));
    }
}

/// Sealing a sealed packet again under the same number changes nothing.
pub proof fn law_sealing_is_idempotent(inner: Seq<u8>, seq: u16)
    requires
        inner.len() >= 8,
    ensures
        sealed(sealed(inner, seq), seq) == sealed(inner, seq),
{
    let n = inner.len() as int;
    let once = sealed(inner, seq);
    let numbered = inner.update(6, lo(seq)).update(7, hi(seq));
    let headed = numbered.update(3, crc8_spec(numbered.take(3)));
    let again = once.update(6, lo(seq)).update(7, hi(seq));
    assert(again.take(3) =~= numbered.take(3));
    let headed_again = again.update(3, crc8_spec(again.take(3)));
    assert(headed_again.take(n - 2) =~= headed.take(n - 2));
    assert(sealed(once, seq) =~= once);
}

/// The wrapper is the goggles' own framing: scanning a wrapped command gives
/// exactly the sealed packet, on channel 0x49, with nothing left over.
pub proof fn law_command_is_one_frame(inner: Seq<u8>, seq: u16)
    requires
        8 <= inner.len() <= 0xffff,
    ensures
        frames(wrapped(inner, seq), 0) == seq![
            FrameView { channel: 0x49, payload: sealed(inner, seq) },
        ],
        consumed(wrapped(inner, seq), 0) == wrapped(inner, seq).len(),
{
    let w = wrapped(inner, seq);
    let n = inner.len() as int;
    assert(w.len() == 8 + n);
    assert(resync(w, 0) == 0);
    assert(frame_end(w, 0) == w.len());
    assert(frame_of(w, 0).payload =~= sealed(inner, seq));
    assert(resync(w, w.len() as int) == w.len());
    assert(frames(w, w.len() as int) =~= Seq::<FrameView>::empty());
    assert(consumed(w, w.len() as int) == w.len());
    assert(frames(w, 0) =~= seq![FrameView { channel: 0x49, payload: sealed(inner, seq) }]);
}

/// Where the chatter stands: the next number and the next command.
#[verifier::ext_equal]
pub struct Chatter {
    pub seq: u16,
    pub upcoming: int,
}

impl Chatter {
    /// The next packet.
    pub open spec fn packet(self) -> Seq<u8> {
        wrapped(command_spec(self.upcoming), self.seq)
    }

    /// The next packet is the last of a round.
    pub open spec fn ends_round(self) -> bool {
        self.upcoming == COMMANDS - 1
    }

    /// The pause after the next packet, in microseconds.
    pub open spec fn pause(self) -> u32 {
        COMMAND_PAUSE
    }

    /// After the next packet.
    pub open spec fn after_one(self) -> Chatter {
        Chatter {
            seq: ((self.seq + 1) % 65536) as u16,
            upcoming: (self.upcoming + 1) % COMMANDS as int,
        }
    }
}

/// The keep-alive chatter: the commands over and over, numbered in order.
pub struct CommandFeed {
    seq: u16,
    next: usize,
}

/// A packet to write, and how long to wait after writing it.
pub struct CommandStep {
    pub packet: Vec<u8>,
    pub pause_micros: u32,
    /// The last command of a round: wait another second after the pause.
    pub round_over: bool,
}

/// The pause after each command, in microseconds.
pub const COMMAND_PAUSE: u32 = 20_000;

/// The extra pause after each round of commands, in microseconds.
pub const ROUND_PAUSE: u32 = 1_000_000;

impl CommandFeed {
    /// How many packets have been handed out, as far as the numbering shows.
    pub closed spec fn seq(self) -> u16 {
        self.seq
    }

    /// The command that comes next.
    pub closed spec fn upcoming(self) -> int {
        self.next as int
    }

    pub open spec fn wf(self) -> bool {
        0 <= self.upcoming() < COMMANDS
    }

    /// Where the chatter stands.
    pub open spec fn stands(self) -> Chatter {
        Chatter { seq: self.seq(), upcoming: self.upcoming() }
    }

    /// The first command, numbered 0.
    pub fn new() -> (f: CommandFeed)
        ensures
            f.wf(),
            f.seq() == 0,
            f.upcoming() == 0,
            f.stands() == chatter(0),
    {
        CommandFeed { seq: 0, next: 0 }
    }

    /// The next packet of the chatter.
    pub fn next_packet(&mut self) -> (step: CommandStep)
        requires
            old(self).wf(),
        ensures
            final(self).wf(),
            step.packet@ == wrapped(command_spec(old(self).upcoming()), old(self).seq()),
            step.packet@ == old(self).stands().packet(),
            step.round_over == old(self).stands().ends_round(),
            step.pause_micros == old(self).stands().pause(),
            final(self).stands() == old(self).stands().after_one(),
            step.pause_micros == COMMAND_PAUSE,
            step.round_over == (old(self).upcoming() == COMMANDS - 1),
            final(self).seq() == (old(self).seq() + 1) % 65536,
            final(self).upcoming() == (old(self).upcoming() + 1) % COMMANDS as int,
    {
        let inner: Vec<u8> = command(self.next);
        let packet: Vec<u8> = build_command(inner.as_slice(), self.seq);
        let round_over: bool = self.next == COMMANDS - 1;
        self.seq = if self.seq == 65535 { 0 } else { self.seq + 1 };
        self.next = if round_over { 0 } else { self.next + 1 };
        CommandStep { packet, pause_micros: COMMAND_PAUSE, round_over }
    }
}

// --- what the checksums and commands are for ------------------------------------

/// The CRC-8 of one byte is the exclusive or of one constant for each of its
/// bits.
pub proof fn law_crc8_of_a_byte(b: u8)
    ensures
        crc8_after(0, seq![b]) == (if b & 0x1 != 0 { 0x5eu8 } else { 0u8 })
            ^ (if b & 0x2 != 0 { 0xbcu8 } else { 0u8 })
            ^ (if b & 0x4 != 0 { 0x61u8 } else { 0u8 })
            ^ (if b & 0x8 != 0 { 0xc2u8 } else { 0u8 })
            ^ (if b & 0x10 != 0 { 0x9du8 } else { 0u8 })
            ^ (if b & 0x20 != 0 { 0x23u8 } else { 0u8 })
            ^ (if b & 0x40 != 0 { 0x46u8 } else { 0u8 })
            ^ (if b & 0x80 != 0 { 0x8cu8 } else { 0u8 }),
{
    reveal_with_fuel(crc8_after, 2);
    reveal_with_fuel(crc8_shifts, 9);
    assert(seq![b].drop_last() =~= Seq::empty());
    assert(0u8 ^ b == b) by (bit_vector);
    assert(crc8_shift(crc8_shift(crc8_shift(crc8_shift(crc8_shift(crc8_shift(crc8_shift(crc8_shift(b))))))))
        == (if b & 0x1 != 0 { 0x5eu8 } else { 0u8 })
        ^ (if b & 0x2 != 0 { 0xbcu8 } else { 0u8 })
        ^ (if b & 0x4 != 0 { 0x61u8 } else { 0u8 })
        ^ (if b & 0x8 != 0 { 0xc2u8 } else { 0u8 })
        ^ (if b & 0x10 != 0 { 0x9du8 } else { 0u8 })
        ^ (if b & 0x20 != 0 { 0x23u8 } else { 0u8 })
        ^ (if b & 0x40 != 0 { 0x46u8 } else { 0u8 })
        ^ (if b & 0x80 != 0 { 0x8cu8 } else { 0u8 })) by (bit_vector);
}

/// The CRC-16 of one byte is the exclusive or of one constant for each of its
/// bits.
pub proof fn law_crc16_of_a_byte(x: u8)
    ensures
        crc16_after(0, seq![x]) == (if x & 0x1 != 0 { 0x1189u16 } else { 0u16 })
            ^ (if x & 0x2 != 0 { 0x2312u16 } else { 0u16 })
            ^ (if x & 0x4 != 0 { 0x4624u16 } else { 0u16 })
            ^ (if x & 0x8 != 0 { 0x8c48u16 } else { 0u16 })
            ^ (if x & 0x10 != 0 { 0x1081u16 } else { 0u16 })
            ^ (if x & 0x20 != 0 { 0x2102u16 } else { 0u16 })
            ^ (if x & 0x40 != 0 { 0x4204u16 } else { 0u16 })
            ^ (if x & 0x80 != 0 { 0x8408u16 } else { 0u16 }),
{
    reveal_with_fuel(crc16_after, 2);
    reveal_with_fuel(crc16_shifts, 9);
    assert(seq![x].drop_last() =~= Seq::empty());
    let b = x as u16;
    assert(0u16 ^ b == b) by (bit_vector);
    assert(crc16_shift(crc16_shift(crc16_shift(crc16_shift(crc16_shift(crc16_shift(crc16_shift(crc16_shift(b))))))))
        == (if x & 0x1 != 0 { 0x1189u16 } else { 0u16 })
        ^ (if x & 0x2 != 0 { 0x2312u16 } else { 0u16 })
        ^ (if x & 0x4 != 0 { 0x4624u16 } else { 0u16 })
        ^ (if x & 0x8 != 0 { 0x8c48u16 } else { 0u16 })
        ^ (if x & 0x10 != 0 { 0x1081u16 } else { 0u16 })
        ^ (if x & 0x20 != 0 { 0x2102u16 } else { 0u16 })
        ^ (if x & 0x40 != 0 { 0x4204u16 } else { 0u16 })
        ^ (if x & 0x80 != 0 { 0x8408u16 } else { 0u16 })) by (bit_vector)
        requires
            b == x as u16,
    ;
}

/// A checksum can be carried on: that of some bytes is that of the last part,
/// started from that of the first.
pub proof fn law_checksums_carry_on(c: u8, k: u16, a: Seq<u8>, b: Seq<u8>)
    ensures
        crc8_after(c, a + b) == crc8_after(crc8_after(c, a), b),
        crc16_after(k, a + b) == crc16_after(crc16_after(k, a), b),
    decreases b.len(),
{
    if b.len() == 0 {
        assert(a + b =~= a);
    } else {
        assert((a + b).drop_last() =~= a + b.drop_last());
        assert((a + b).last() == b.last());
        law_checksums_carry_on(c, k, a, b.drop_last());
    }
}

/// What a byte does to a checksum depends on the byte and the low byte of the
/// checksum alone; what a CRC-16 holds above that moves down.
pub proof fn law_checksum_of_one_more_byte(c: u8, k: u16, b: u8)
    ensures
        crc8_after(c, seq![b]) == crc8_after(0, seq![c ^ b]),
        crc16_after(k, seq![b]) == crc16_after(0, seq![#[verifier::truncate] (k as u8) ^ b]) ^ (k >> 8),
{
    reveal_with_fuel(crc8_after, 2);
    reveal_with_fuel(crc16_after, 2);
    let x = c ^ b;
    assert(seq![b].drop_last() =~= Seq::empty());
    assert(seq![x].drop_last() =~= Seq::empty());
    assert(0u8 ^ x == x) by (bit_vector);
    let y = #[verifier::truncate] (k as u8) ^ b;
    let z = k ^ (b as u16);
    assert(seq![y].drop_last() =~= Seq::empty());
    assert(0u16 ^ (y as u16) == z & 0xff && z >> 8 == k >> 8) by (bit_vector)
        requires
            y == (k as u8) ^ b,
            z == k ^ (b as u16),
    ;
    lemma_crc16_lookup(z);
}

/// Bytes followed by their own checksum, low byte first, have the checksum 0,
/// however many they are.
pub proof fn law_checksum_cancels(d: Seq<u8>)
    ensures
        crc8_spec(d.push(crc8_spec(d))) == 0,
        crc16_spec(d + le16(crc16_spec(d))) == 0,
{
    let c = crc8_spec(d);
    assert(d.push(c).drop_last() =~= d);
    assert(c ^ c == 0) by (bit_vector);
    reveal_with_fuel(crc8_shifts, 9);
    assert(crc8_shift(0) == 0) by (bit_vector);
    let k = crc16_spec(d);
    let one = d.push(lo(k));
    let two = one.push(hi(k));
    assert(d + le16(k) =~= two);
    assert(one.drop_last() =~= d);
    assert(two.drop_last() =~= one);
    let l = lo(k);
    let h = hi(k);
    assert(k ^ (l as u16) == k & 0xff00 && (k >> 8) ^ (h as u16) == 0) by (bit_vector)
        requires
            l == k % 256,
            h == k / 256,
    ;
    lemma_crc16_high(k);
    assert(crc16_after(CRC16_SEED, one) == k >> 8);
    reveal_with_fuel(crc16_shifts, 9);
    assert(crc16_shift(0) == 0) by (bit_vector);
}

/// The commands of a round are the recorded ones, in the recorded order.
pub proof fn law_commands_are_the_recorded_ones()
    ensures
        command_spec(0) == seq![
            0x55u8, 0x10, 0x04, 0x56, 0x02, 0x88, 0x54, 0xad, 0x40, 0x00, 0xe5, 0x04,
            0x04, 0x01, 0x68, 0x9c,
        ],
        command_spec(1) == seq![
            0x55u8, 0x0e, 0x04, 0x66, 0x02, 0x28, 0x55, 0xad, 0x40, 0x00, 0x51, 0x06,
            0x7c, 0x9c,
        ],
        command_spec(2) == seq![
            0x55u8, 0x16, 0x04, 0xfc, 0x02, 0x48, 0x56, 0xad, 0x40, 0x00, 0x4f, 0x01,
            0x00, 0x16, 0x00, 0x00, 0xff, 0xff, 0xff, 0xff, 0x5c, 0xe9,
        ],
        command_spec(3) == seq![
            0x55u8, 0x1e, 0x04, 0x8a, 0x02, 0x01, 0x63, 0xad, 0x40, 0x02, 0xeb, 0x00,
            0xff, 0x03, 0x11, 0x27, 0x00, 0x00, 0x0a, 0x00, 0x03, 0x00, 0x08, 0x00,
            0xd1, 0x07, 0x75, 0x17, 0x6f, 0x3d,
        ],
        command_spec(4) == seq![
            0x55u8, 0x0e, 0x04, 0x66, 0x02, 0x2d, 0x7e, 0x01, 0x80, 0x00, 0x82, 0x00,
            0xd2, 0x72,
        ],
        command_spec(5) == seq![
            0x55u8, 0x1b, 0x04, 0x75, 0x02, 0x3c, 0x68, 0xad, 0x40, 0x00, 0x88, 0x17,
            0x00, 0x00, 0x23, 0x00, 0x41, 0x50, 0x50, 0x00, 0x00, 0x00, 0x00, 0x00,
            0x02, 0x98, 0xf0,
        ],
        command_spec(6) == seq![
            0x55u8, 0x0e, 0x04, 0x66, 0x02, 0x01, 0x6a, 0xad, 0x40, 0x02, 0xd0, 0x04,
            0x20, 0xa8,
        ],
        command_spec(7) == seq![
            0x55u8, 0x0e, 0x04, 0x66, 0x02, 0x01, 0x42, 0x86, 0x40, 0x08, 0x41, 0x02,
            0xad, 0xd2,
        ],
        command_spec(8) == seq![
            0x55u8, 0x0d, 0x04, 0x33, 0x02, 0x0e, 0x4b, 0x86, 0x00, 0x00, 0x00, 0xc1,
            0x2a,
        ],
{
    assert(command_spec(0) =~= seq![
        0x55u8, 0x10, 0x04, 0x56, 0x02, 0x88, 0x54, 0xad, 0x40, 0x00, 0xe5, 0x04,
        0x04, 0x01, 0x68, 0x9c,
    ]);
    assert(command_spec(1) =~= seq![
        0x55u8, 0x0e, 0x04, 0x66, 0x02, 0x28, 0x55, 0xad, 0x40, 0x00, 0x51, 0x06,
        0x7c, 0x9c,
    ]);
    assert(command_spec(2) =~= seq![
        0x55u8, 0x16, 0x04, 0xfc, 0x02, 0x48, 0x56, 0xad, 0x40, 0x00, 0x4f, 0x01,
        0x00, 0x16, 0x00, 0x00, 0xff, 0xff, 0xff, 0xff, 0x5c, 0xe9,
    ]);
    assert(command_spec(3) =~= seq![
        0x55u8, 0x1e, 0x04, 0x8a, 0x02, 0x01, 0x63, 0xad, 0x40, 0x02, 0xeb, 0x00,
        0xff, 0x03, 0x11, 0x27, 0x00, 0x00, 0x0a, 0x00, 0x03, 0x00, 0x08, 0x00,
        0xd1, 0x07, 0x75, 0x17, 0x6f, 0x3d,
    ]);
    assert(command_spec(4) =~= seq![
        0x55u8, 0x0e, 0x04, 0x66, 0x02, 0x2d, 0x7e, 0x01, 0x80, 0x00, 0x82, 0x00,
        0xd2, 0x72,
    ]);
    assert(command_spec(5) =~= seq![
        0x55u8, 0x1b, 0x04, 0x75, 0x02, 0x3c, 0x68, 0xad, 0x40, 0x00, 0x88, 0x17,
        0x00, 0x00, 0x23, 0x00, 0x41, 0x50, 0x50, 0x00, 0x00, 0x00, 0x00, 0x00,
        0x02, 0x98, 0xf0,
    ]);
    assert(command_spec(6) =~= seq![
        0x55u8, 0x0e, 0x04, 0x66, 0x02, 0x01, 0x6a, 0xad, 0x40, 0x02, 0xd0, 0x04,
        0x20, 0xa8,
    ]);
    assert(command_spec(7) =~= seq![
        0x55u8, 0x0e, 0x04, 0x66, 0x02, 0x01, 0x42, 0x86, 0x40, 0x08, 0x41, 0x02,
        0xad, 0xd2,
    ]);
    assert(command_spec(8) =~= seq![
        0x55u8, 0x0d, 0x04, 0x33, 0x02, 0x0e, 0x4b, 0x86, 0x00, 0x00, 0x00, 0xc1,
        0x2a,
    ]);
}

/// No two commands of a round are the same, and each declares its own length.
pub proof fn law_commands_differ(i: int, j: int)
    requires
        0 <= i < j < 9,
    ensures
        command_spec(i) != command_spec(j),
        command_spec(i).len() == command_spec(i)[1],
        command_spec(j).len() == command_spec(j)[1],
{
    law_commands_are_the_recorded_ones();
    let a = command_spec(i);
    let b = command_spec(j);
    assert(a.len() != b.len() || a[10] != b[10]);
}

/// The wrapper of a command: its marker, the length of the packet, modulo 2^16,
/// and its number, each low byte first, and then the packet, which keeps its length.
pub proof fn law_wrapper(inner: Seq<u8>, seq: u16)
    requires
        inner.len() >= 8,
    ensures
        ({
            let w = wrapped(inner, seq);
            &&& w.len() == inner.len() + 8
            &&& w[0] == 0x55 && w[1] == 0xCC && w[2] == 0x49 && w[3] == 0x57
            &&& w[4] + 256 * w[5] == inner.len() % 0x1_0000
            &&& w[6] + 256 * w[7] == seq
            &&& w.skip(8) == sealed(inner, seq)
        }),
{
    assert(wrapped(inner, seq).skip(8) =~= sealed(inner, seq));
}

/// The chatter after so many packets.
pub open spec fn chatter(n: nat) -> Chatter
    decreases n,
{
    if n == 0 {
        Chatter { seq: 0, upcoming: 0 }
    } else {
        chatter((n - 1) as nat).after_one()
    }
}

/// The chatter is the nine commands over and over, in order, each packet
/// numbered one higher than the last, modulo 2^16.
pub proof fn law_chatter_goes_round(n: nat)
    ensures
        chatter(n).upcoming == n % 9,
        chatter(n).seq == n % 65536,
        chatter(n).packet() == wrapped(command_spec((n % 9) as int), (n % 65536) as u16),
        chatter(n).ends_round() <==> n % 9 == 8,
        chatter(n).pause() == 20_000,
    decreases n,
{
    if n > 0 {
        law_chatter_goes_round((n - 1) as nat);
    }
}

/// The checksums start from these values.
pub proof fn law_checksum_seeds()
    ensures
        crc8_spec(Seq::empty()) == 0x77,
        crc16_spec(Seq::empty()) == 0x3692,
{
}

/// A sealed packet carries its number in its seventh and eighth byte, low byte
/// first, as far as the checksum at its end leaves room.
pub proof fn law_sealed_number(inner: Seq<u8>, seq: u16)
    requires
        inner.len() >= 9,
    ensures
        sealed(inner, seq)[6] == seq % 256,
        inner.len() >= 10 ==> sealed(inner, seq)[6] + 256 * sealed(inner, seq)[7] == seq,
{
}

} // verus!
