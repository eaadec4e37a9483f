//! The session protocol of the goggles' network link.
//!
//! ```text
//! generic packet envelope (every packet on the wire, both directions):
//!   off 0..2   declared length, u16 LE, top bit reserved
//!   off 2..4   session id, u16 LE
//!   off 4..6   reserved / packet-type-specific
//!   off 6      packet type (0x01 = upstream control, 0x02 = video, ...)
//!   off 7      checksum: XOR of bytes 0..7
//! ```
//!
//! **Opener** (48 bytes, to the goggles): a fixed type marker, our session id,
//! a sequence (masked to a multiple of 8), then a fixed capability payload.
//! Resent every 250 ms until it is acknowledged: exactly 9 bytes back, echoing
//! our session id.
//!
//! **Control ACK** (34 bytes, to the goggles): every upstream control packet is
//! echoed back as a `type=0x04` packet, bytes 8..34 unchanged, the checksum
//! recomputed. Without it the goggles stop advancing.
use vstd::prelude::*;
use vstd::string::StringExecFns;

use crate::common::{from_le16, hi, le16, lo};
use crate::text::{digits_value, hex_byte, lower, number_of, push_hex_byte, without_sign};

verus! {

/// The length of an opener.
pub const OPENER_LEN: usize = 48;

/// The length of a control ACK.
pub const ACK_LEN: usize = 34;

/// The capabilities an opener announces.
pub const OPENER_PAYLOAD: [u8; 38] = [
    0x64, 0x00, 0x64, 0x00, 0xc0, 0x05, 0x14, 0x00,
    0x00, 0x64, 0x00, 0x00, 0x01, 0x90, 0x01, 0xc0,
    0x05, 0x14, 0x00, 0x00, 0x64, 0x00, 0x14, 0x00,
    0x64, 0x00, 0xc0, 0x05, 0x14, 0x00, 0x00, 0x64,
    0x00, 0x01, 0x01, 0x04, 0x01, 0x02,
];

/// The packet type of upstream control.
pub const TYPE_CONTROL: u8 = 0x01;

/// The packet type of video.
pub const TYPE_VIDEO: u8 = 0x02;

/// The packet type of a control ACK.
pub const TYPE_ACK: u8 = 0x04;

/// A session that the goggles have agreed to.
#[derive(Clone, Copy, Debug, PartialEq, Eq, Structural)]
pub struct Session {
    pub id: u16,
    pub sequence: u16,
}

/// The sequence that goes out: a multiple of 8.
pub open spec fn masked(sequence: u16) -> u16 {
    (sequence - sequence % 8) as u16
}

/// An opener on the wire.
pub open spec fn opener_bytes(session: u16, sequence: u16) -> Seq<u8> {
    le16(0x8030) + le16(session) + seq![0u8, 0, 0, lo(session) ^ hi(session) ^ 0xb0] + le16(
        masked(sequence),
    ) + OPENER_PAYLOAD@
}

/// The opener for a session.
pub fn build_opener(session: u16, sequence: u16) -> (packet: [u8; OPENER_LEN])
    ensures
        packet@ == opener_bytes(session, sequence),
{
    let mut packet: [u8; OPENER_LEN] = [0; OPENER_LEN];
    let s0: u8 = (session % 256) as u8;
    let s1: u8 = (session / 256) as u8;
    let seq: u16 = sequence - sequence % 8;
    packet[0] = 0x30;
    packet[1] = 0x80;
    packet[2] = s0;
    packet[3] = s1;
    packet[7] = s0 ^ s1 ^ 0xb0;
    packet[8] = (seq % 256) as u8;
    packet[9] = (seq / 256) as u8;
    let ghost head = packet@.take(10);
    let mut i: usize = 0;
    while i < 38
        invariant
            i <= 38,
            packet@.take(10) == head,
            forall|j: int| 0 <= j < i ==> #[trigger] packet@[10 + j] == OPENER_PAYLOAD@[j],
        decreases 38 - i,
    {
        packet[10 + i] = OPENER_PAYLOAD[i];
        assert(packet@.take(10) =~= head);
        i = i + 1;
    }
    proof {
        let want = opener_bytes(session, sequence);
        assert forall|k: int| 0 <= k < 48 implies packet@[k] == want[k] by {
            if k < 10 {
                assert(packet@[k] == head[k]);
            } else {
                assert(packet@[10 + (k - 10)] == OPENER_PAYLOAD@[k - 10]);
            }
        }
        assert(packet@ =~= want);
    }
    packet
}

/// The goggles have accepted our opener.
pub fn is_opener_ack(packet: &[u8], session: u16) -> (ack: bool)
    ensures
        ack == acknowledges(packet@, session),
{
    let ack: bool = packet.len() == 9 && packet[2] == (session % 256) as u8 && packet[3] == (session
        / 256) as u8;
    proof {
        if packet@.len() == 9 {
            assert(packet@.subrange(2, 4)[0] == packet@[2] && packet@.subrange(2, 4)[1]
                == packet@[3]);
            assert(ack ==> packet@.subrange(2, 4) =~= le16(session));
        }
    }
    ack
}

/// The XOR of the first seven bytes.
pub open spec fn xor7(p: Seq<u8>) -> u8 {
    p[0] ^ p[1] ^ p[2] ^ p[3] ^ p[4] ^ p[5] ^ p[6]
}

/// The XOR of the first seven bytes.
fn checksum7(packet: &[u8]) -> (sum: u8)
    requires
        packet@.len() >= 7,
    ensures
        sum == xor7(packet@),
{
    packet[0] ^ packet[1] ^ packet[2] ^ packet[3] ^ packet[4] ^ packet[5] ^ packet[6]
}

/// The envelope checks out: it is of this session, it declares its own length,
/// and its checksum is right.
pub open spec fn valid_envelope(packet: Seq<u8>, session: u16) -> bool {
    &&& packet.len() >= 8
    &&& packet.subrange(2, 4) == le16(session)
    &&& from_le16(packet[0], packet[1]) % 0x8000 == packet.len()
    &&& packet[7] == xor7(packet)
}

/// The type of a packet whose envelope checks out.
pub open spec fn packet_type_spec(packet: Seq<u8>, session: u16) -> Option<u8> {
    if valid_envelope(packet, session) {
        Some(packet[6])
    } else {
        None
    }
}

/// Validate a packet's generic envelope (declared length + checksum +
/// session match) and return its type byte if it checks out.
pub fn packet_type(packet: &[u8], session: u16) -> (kind: Option<u8>)
    ensures
        kind == packet_type_spec(packet@, session),
{
    if packet.len() < 8 {
        return None;
    }
    proof {
        assert(packet@.subrange(2, 4)[0] == packet@[2]);
        assert(packet@.subrange(2, 4)[1] == packet@[3]);
        if packet@[2] == lo(session) && packet@[3] == hi(session) {
            assert(packet@.subrange(2, 4) =~= le16(session));
        }
    }
    if packet[2] != (session % 256) as u8 || packet[3] != (session / 256) as u8 {
        return None;
    }
    let declared: u16 = (packet[0] as u16 + 256 * (packet[1] as u16)) % 0x8000;
    if declared as usize != packet.len() || checksum7(packet) != packet[7] {
        return None;
    }
    Some(packet[6])
}

/// The ACK of a control packet: a fixed length marker, its own type, the
/// reserved bytes cleared, the checksum recomputed; everything else as
/// received.
pub open spec fn ack_bytes(packet: Seq<u8>) -> Seq<u8> {
    let body = packet.take(ACK_LEN as int).update(0, 0x22).update(1, 0x80).update(4, 0).update(
        5,
        0,
    ).update(6, TYPE_ACK);
    body.update(7, xor7(body))
}

/// Build the fixed 34-byte transport ACK used for upstream control packets.
/// Bytes 8..34 carry the sequence/state fields from the received header.
pub fn build_control_ack(packet: &[u8], session: u16) -> (ack: Option<[u8; ACK_LEN]>)
    ensures
        ack is Some <==> packet_type_spec(packet@, session) == Some(TYPE_CONTROL) && packet@.len()
            >= ACK_LEN,
        ack matches Some(a) ==> a@ == ack_bytes(packet@),
{
    match packet_type(packet, session) {
        Some(kind) => {
            if kind != TYPE_CONTROL || packet.len() < ACK_LEN {
                return None;
            }
        },
        None => {
            return None;
        },
    }
    let mut ack: [u8; ACK_LEN] = [0; ACK_LEN];
    let mut i: usize = 0;
    while i < ACK_LEN
        invariant
            i <= ACK_LEN,
            packet@.len() >= ACK_LEN,
            forall|j: int| 0 <= j < i ==> #[trigger] ack@[j] == packet@[j],
        decreases ACK_LEN - i,
    {
        ack[i] = packet[i];
        i = i + 1;
    }
    assert(ack@ =~= packet@.take(ACK_LEN as int));
    ack[0] = 0x22;
    ack[1] = 0x80;
    ack[4] = 0;
    ack[5] = 0;
    ack[6] = TYPE_ACK;
    let sum: u8 = checksum7(&ack);
    ack[7] = sum;
    Some(ack)
}

/// An opener wears the generic envelope: it declares its own length, its
/// checksum is right, and its type is 0.
pub proof fn law_opener_has_envelope(session: u16, sequence: u16)
    ensures
        opener_bytes(session, sequence).len() == OPENER_LEN,
        packet_type_spec(opener_bytes(session, sequence), session) == Some(0u8),
{
    let p = opener_bytes(session, sequence);
    let a = lo(session);
    let b = hi(session);
    assert(p.subrange(2, 4) =~= le16(session));
    assert(0x30u8 ^ 0x80u8 ^ a ^ b ^ 0u8 ^ 0u8 ^ 0u8 == a ^ b ^ 0xb0u8) by (bit_vector);
}

/// An opener carries its sequence as a multiple of 8, so what it carries does
/// not depend on the low three bits.
pub proof fn law_opener_sequence(session: u16, sequence: u16)
    ensures
        masked(sequence) % 8 == 0,
        masked(masked(sequence)) == masked(sequence),
        opener_bytes(session, masked(sequence)) == opener_bytes(session, sequence),
        opener_bytes(session, sequence).subrange(8, 10) == le16(masked(sequence)),
{
    assert(opener_bytes(session, sequence).subrange(8, 10) =~= le16(masked(sequence)));
}

/// What is sent back for a control packet is a valid packet of the same
/// session, of type 0x04 -- not itself a control packet -- and it returns the
/// sequence and state fields unchanged.
pub proof fn law_ack_echoes(packet: Seq<u8>, session: u16)
    requires
        packet_type_spec(packet, session) == Some(TYPE_CONTROL),
        packet.len() >= ACK_LEN,
    ensures
        packet_type_spec(ack_bytes(packet), session) == Some(TYPE_ACK),
        ack_bytes(packet).len() == ACK_LEN,
        ack_bytes(packet).subrange(8, 34) == packet.subrange(8, 34),
{
    let ack = ack_bytes(packet);
    assert(packet.subrange(2, 4)[0] == packet[2] && packet.subrange(2, 4)[1] == packet[3]);
    assert(ack.subrange(2, 4) =~= le16(session));
    assert(ack.subrange(8, 34) =~= packet.subrange(8, 34));
}

/// Bytes as hex pairs, separated by spaces.
pub open spec fn hex_spec(data: Seq<u8>) -> Seq<char>
    decreases data.len(),
{
    if data.len() == 0 {
        Seq::empty()
    } else if data.len() == 1 {
        hex_byte(data[0])
    } else {
        hex_spec(data.drop_last()) + seq![' '] + hex_byte(data.last())
    }
}

/// Bytes as hex pairs, separated by spaces.
pub fn hex(data: &[u8]) -> (s: String)
    ensures
        s@ == hex_spec(data@),
{
    let mut s: String = String::new();
    let mut i: usize = 0;
    proof {
        reveal_strlit(" ");
        assert(" "@ =~= seq![' ']);
        assert(data@.take(0) =~= Seq::empty());
    }
    while i < data.len()
        invariant
            " "@ == seq![' '],
            i <= data@.len(),
            s@ == hex_spec(data@.take(i as int)),
        decreases data@.len() - i,
    {
        assert(data@.take(i + 1).drop_last() =~= data@.take(i as int));
        if i != 0 {
            s.append(" ");
        } else {
            assert(s@ + hex_byte(data@[0]) =~= hex_byte(data@[0]));
        }
        push_hex_byte(&mut s, data[i]);
        i = i + 1;
    }
    assert(data@.take(data@.len() as int) =~= data@);
    s
}

// --- opening a session --------------------------------------------------------

/// The byte of a number that has `weight` for its unit.
pub open spec fn byte_at(n: u64, weight: int) -> u8 {
    ((n as int / weight) % 256) as u8
}

/// The low 32 bits of the clock and the process id, mixed, low byte first.
pub open spec fn mixed_bytes(nanos: u64, pid: u32) -> Seq<u8> {
    let n = nanos ^ (pid as u64);
    seq![byte_at(n, 1), byte_at(n, 0x100), byte_at(n, 0x10000), byte_at(n, 0x1000000)]
}

/// Four bytes to start from when the system has no random ones to give: the
/// low 32 bits of the clock and the process id, mixed.
pub fn fallback_bytes(nanos: u64, pid: u32) -> (bytes: [u8; 4])
    ensures
        bytes@ == mixed_bytes(nanos, pid),
        ({
            let n = nanos ^ (pid as u64);
            bytes@ == seq![
                byte_at(n, 1),
                byte_at(n, 0x100),
                byte_at(n, 0x10000),
                byte_at(n, 0x1000000),
            ]
        }),
{
    let n: u64 = nanos ^ (pid as u64);
    let bytes: [u8; 4] = [
        (n % 256) as u8,
        ((n / 0x100) % 256) as u8,
        ((n / 0x10000) % 256) as u8,
        ((n / 0x1000000) % 256) as u8,
    ];
    assert(bytes@ =~= seq![
        byte_at(n, 1),
        byte_at(n, 0x100),
        byte_at(n, 0x10000),
        byte_at(n, 0x1000000),
    ]);
    bytes
}

/// The session that four random bytes stand for: an id that is never 0, and a
/// sequence that is a multiple of 8.
pub open spec fn session_of(bytes: Seq<u8>) -> Session {
    let id = from_le16(bytes[0], bytes[1]);
    Session {
        id: if id == 0 { 1 } else { id },
        sequence: masked(from_le16(bytes[2], bytes[3])),
    }
}

/// The session that four random bytes stand for.
pub fn session_from_bytes(bytes: [u8; 4]) -> (session: Session)
    ensures
        session == session_of(bytes@),
        session.id != 0,
        session.sequence % 8 == 0,
{
    let id: u16 = bytes[0] as u16 + 256 * (bytes[1] as u16);
    let sequence: u16 = bytes[2] as u16 + 256 * (bytes[3] as u16);
    Session { id: if id == 0 { 1 } else { id }, sequence: sequence - sequence % 8 }
}

/// How long after the opener went out it goes out again, in milliseconds.
pub const RETRY_MS: u64 = 250;

/// Nanoseconds in a millisecond.
pub const MILLI: u64 = 1_000_000;

/// What to do when it is the opener's turn.
pub enum OpenerTurn {
    /// Send the opener.
    Send([u8; OPENER_LEN]),
    /// Time is up.
    GiveUp,
}

/// What to do when it is the opener's turn, as plain values.
#[verifier::ext_equal]
pub enum OpenerTurnView {
    Send(Seq<u8>),
    GiveUp,
}

impl View for OpenerTurn {
    type V = OpenerTurnView;

    open spec fn view(&self) -> OpenerTurnView {
        match self {
            OpenerTurn::Send(packet) => OpenerTurnView::Send(packet@),
            OpenerTurn::GiveUp => OpenerTurnView::GiveUp,
        }
    }
}

/// What to do after listening for a while.
#[derive(Clone, Copy, Debug, PartialEq, Eq, Structural)]
pub enum Heard {
    /// The goggles acknowledged the opener: the session is live.
    Live(Session),
    /// It is the opener's turn again.
    Turn,
    /// Listen on, for so many nanoseconds at most.
    Listen { ns: u128 },
}

/// A session being opened, as plain values.
#[verifier::ext_equal]
pub struct Opening {
    pub session: Session,
    /// When time is up.
    pub deadline: int,
    /// When it is the opener's turn again.
    pub next_turn: int,
    /// How often the opener has been sent.
    pub attempts: u32,
}

/// The earlier of two times.
pub open spec fn earlier(a: int, b: int) -> int {
    if a <= b {
        a
    } else {
        b
    }
}

/// The packet acknowledges the opener of this session.
pub open spec fn acknowledges(packet: Seq<u8>, session: u16) -> bool {
    packet.len() == 9 && packet.subrange(2, 4) == le16(session)
}

impl Opening {
    /// At `now`, with the opener's turn; time is up `timeout_ms` later.
    pub open spec fn start(session: Session, now: u64, timeout_ms: u64) -> Opening {
        Opening {
            session,
            deadline: now + timeout_ms * MILLI,
            next_turn: now as int,
            attempts: 0,
        }
    }

    /// The opener's turn comes when time is up, at the latest.
    pub open spec fn wf(self) -> bool {
        self.next_turn <= self.deadline
    }

    /// It is the opener's turn at `now`: it goes out, and again `RETRY_MS`
    /// later; once time is up, it does not.
    pub open spec fn turned(self, now: u64) -> (Opening, OpenerTurnView) {
        if now < self.deadline {
            (
                Opening {
                    next_turn: earlier(self.deadline, now + RETRY_MS * MILLI),
                    attempts: if self.attempts < u32::MAX {
                        (self.attempts + 1) as u32
                    } else {
                        self.attempts
                    },
                    ..self
                },
                OpenerTurnView::Send(opener_bytes(self.session.id, self.session.sequence)),
            )
        } else {
            (self, OpenerTurnView::GiveUp)
        }
    }

    /// What to do at `now`, when `packet` has come or nothing has. Only an
    /// acknowledgement of the opener counts: anything else neither ends nor
    /// prolongs the wait.
    pub open spec fn heard(self, now: u64, packet: Option<Seq<u8>>) -> Heard {
        if packet matches Some(p) && acknowledges(p, self.session.id) {
            Heard::Live(self.session)
        } else if now >= self.next_turn {
            Heard::Turn
        } else {
            Heard::Listen { ns: (self.next_turn - now) as u128 }
        }
    }
}

/// A session being opened: the opener goes out again and again until the
/// goggles acknowledge it or time runs out. Start with a turn, then listen as
/// long as `heard` says and tell it what came. Times are in nanoseconds on one
/// clock that never goes back.
pub struct Opener {
    session: Session,
    deadline: u128,
    next_turn: u128,
    attempts: u32,
}

impl View for Opener {
    type V = Opening;

    closed spec fn view(&self) -> Opening {
        Opening {
            session: self.session,
            deadline: self.deadline as int,
            next_turn: self.next_turn as int,
            attempts: self.attempts,
        }
    }
}

impl Opener {
    /// When it is the opener's turn again.
    pub closed spec fn next_turn(self) -> int {
        self.next_turn as int
    }

    /// Start at `now`, with the opener's turn; time is up `timeout_ms` later.
    pub fn new(session: Session, now: u64, timeout_ms: u64) -> (o: Opener)
        ensures
            o@ == Opening::start(session, now, timeout_ms),
            o@ == (Opening {
                session,
                deadline: now + timeout_ms * MILLI,
                next_turn: now as int,
                attempts: 0,
            }),
            o@.wf(),
            o.next_turn() == o@.next_turn,
    {
        let deadline: u128 = now as u128 + (timeout_ms as u128) * (MILLI as u128);
        Opener { session, deadline, next_turn: now as u128, attempts: 0 }
    }

    /// How often the opener has been sent; the count stops at the largest
    /// number it can hold.
    pub fn attempts(&self) -> (n: u32)
        ensures
            n == self@.attempts,
    {
        self.attempts
    }

    /// It is the opener's turn.
    pub fn turn(&mut self, now: u64) -> (turn: OpenerTurn)
        ensures
            (final(self)@, turn@) == old(self)@.turned(now),
            old(self)@.wf() ==> final(self)@.wf(),
            final(self).next_turn() == final(self)@.next_turn,
            turn is Send ==> final(self).next_turn() == earlier(
                old(self)@.deadline,
                now + RETRY_MS * MILLI,
            ),
    {
        if (now as u128) < self.deadline {
            self.attempts = self.attempts.saturating_add(1);
            let retry: u128 = now as u128 + 250_000_000;
            self.next_turn = if self.deadline <= retry { self.deadline } else { retry };
            OpenerTurn::Send(build_opener(self.session.id, self.session.sequence))
        } else {
            OpenerTurn::GiveUp
        }
    }

    /// Say what to do at `now`, when `packet` has come or nothing has.
    pub fn heard(&self, now: u64, packet: Option<&[u8]>) -> (h: Heard)
        ensures
            h == self@.heard(
                now,
                match packet {
                    Some(p) => Some(p@),
                    None => None,
                },
            ),
            h matches Heard::Listen { ns } ==> ns > 0 && now + ns == self.next_turn(),
    {
        if let Some(p) = packet {
            if is_opener_ack(p, self.session.id) {
                return Heard::Live(self.session);
            }
        }
        if now as u128 >= self.next_turn {
            Heard::Turn
        } else {
            Heard::Listen { ns: self.next_turn - now as u128 }
        }
    }
}

/// The opener is sent every 250 ms until it is acknowledged or time runs out,
/// whatever else comes in the meantime: from the time that it last went out,
/// listening ends exactly 250 ms later or when time is up, if that is earlier;
/// before time is up the opener goes out again then.
pub proof fn law_opener_goes_out_again(s: Opening, now: u64, later: u64, packet: Option<Seq<u8>>)
    requires
        now < s.deadline,
        packet matches Some(p) ==> !acknowledges(p, s.session.id),
    ensures
        ({
            let t = s.turned(now).0;
            let again = earlier(s.deadline, now + RETRY_MS * MILLI);
            let h = t.heard(later, packet);
            &&& s.turned(now).1 is Send
            &&& h is Turn <==> later >= again
            &&& later < again ==> (h matches Heard::Listen { ns } && later + ns == again)
            &&& t.turned(later).1 is Send <==> later < s.deadline
        }),
{
    let t = s.turned(now).0;
    let again = earlier(s.deadline, now + RETRY_MS * MILLI);
    assert(t.next_turn == again);
    assert(again - later <= RETRY_MS * MILLI + u64::MAX);
}

/// How an opening stands.
#[verifier::ext_equal]
pub enum Stand {
    /// Still opening.
    Open(Opening),
    /// The session is live.
    Live(Session),
    /// Time ran out.
    TimedOut,
}

/// How an opening stands after one more thing was heard, or nothing for a while.
/// Where it is the opener's turn, it is taken at once.
pub open spec fn stand_after(s: Opening, now: u64, packet: Option<Seq<u8>>) -> Stand {
    match s.heard(now, packet) {
        Heard::Live(session) => Stand::Live(session),
        Heard::Listen { ns } => Stand::Open(s),
        Heard::Turn => match s.turned(now).1 {
            OpenerTurnView::Send(p) => Stand::Open(s.turned(now).0),
            OpenerTurnView::GiveUp => Stand::TimedOut,
        },
    }
}

/// How an opening stands after all that was heard, each at its time.
pub open spec fn stand(s: Opening, heard: Seq<(u64, Option<Seq<u8>>)>) -> Stand
    decreases heard.len(),
{
    if heard.len() == 0 {
        Stand::Open(s)
    } else {
        match stand(s, heard.drop_last()) {
            Stand::Open(t) => stand_after(t, heard.last().0, heard.last().1),
            done => done,
        }
    }
}

/// None of what was heard acknowledges the opener.
pub open spec fn unanswered(s: Opening, heard: Seq<(u64, Option<Seq<u8>>)>) -> bool {
    forall|i: int|
        0 <= i < heard.len() ==> ((#[trigger] heard[i]).1 matches Some(p) ==> !acknowledges(
            p,
            s.session.id,
        ))
}

proof fn lemma_stand(s: Opening, heard: Seq<(u64, Option<Seq<u8>>)>)
    requires
        s.wf(),
        unanswered(s, heard),
    ensures
        match stand(s, heard) {
            Stand::Open(t) => t.wf() && t.session == s.session && t.deadline == s.deadline,
            Stand::Live(session) => false,
            Stand::TimedOut => true,
        },
    decreases heard.len(),
{
    if heard.len() > 0 {
        let init = heard.drop_last();
        assert forall|i: int| 0 <= i < init.len() implies ((#[trigger] init[i]).1 matches Some(p)
            ==> !acknowledges(p, s.session.id)) by {
            assert(init[i] == heard[i]);
        }
        lemma_stand(s, init);
        assert(heard[heard.len() - 1] == heard.last());
    }
}

/// However much is heard without an acknowledgement, the opening is over, and
/// has failed, as soon as time is up.
pub proof fn law_opening_times_out(s: Opening, heard: Seq<(u64, Option<Seq<u8>>)>)
    requires
        s.wf(),
        heard.len() > 0,
        unanswered(s, heard),
        heard.last().0 >= s.deadline,
    ensures
        stand(s, heard) is TimedOut,
{
    let init = heard.drop_last();
    assert forall|i: int| 0 <= i < init.len() implies ((#[trigger] init[i]).1 matches Some(p)
        ==> !acknowledges(p, s.session.id)) by {
        assert(init[i] == heard[i]);
    }
    lemma_stand(s, init);
    assert(heard[heard.len() - 1] == heard.last());
}

/// The first acknowledgement that comes before the opening has timed out makes
/// the session live.
pub proof fn law_acknowledged_opening_is_live(
    s: Opening,
    heard: Seq<(u64, Option<Seq<u8>>)>,
    now: u64,
    ack: Seq<u8>,
)
    requires
        s.wf(),
        unanswered(s, heard),
        !(stand(s, heard) is TimedOut),
        acknowledges(ack, s.session.id),
    ensures
        stand(s, heard.push((now, Some(ack)))) == Stand::Live(s.session),
{
    lemma_stand(s, heard);
    assert(heard.push((now, Some(ack))).drop_last() =~= heard);
}

// --- packets on the wire --------------------------------------------------------

/// The exclusive or of some bytes.
pub open spec fn xor_of(s: Seq<u8>) -> u8
    decreases s.len(),
{
    if s.len() == 0 {
        0
    } else {
        xor_of(s.drop_last()) ^ s.last()
    }
}

proof fn lemma_xor7(p: Seq<u8>)
    requires
        p.len() >= 7,
    ensures
        xor7(p) == xor_of(p.take(7)),
{
    assert(p.take(7).drop_last() =~= p.take(6));
    assert(p.take(6).drop_last() =~= p.take(5));
    assert(p.take(5).drop_last() =~= p.take(4));
    assert(p.take(4).drop_last() =~= p.take(3));
    assert(p.take(3).drop_last() =~= p.take(2));
    assert(p.take(2).drop_last() =~= p.take(1));
    assert(p.take(1).drop_last() =~= p.take(0));
    let a = p[0];
    assert(0u8 ^ a == a) by (bit_vector);
    assert(xor_of(p.take(0)) == 0);
    assert(xor_of(p.take(1)) == p[0]);
    assert(xor_of(p.take(2)) == p[0] ^ p[1]);
    assert(xor_of(p.take(3)) == p[0] ^ p[1] ^ p[2]);
    assert(xor_of(p.take(4)) == p[0] ^ p[1] ^ p[2] ^ p[3]);
    assert(xor_of(p.take(5)) == p[0] ^ p[1] ^ p[2] ^ p[3] ^ p[4]);
    assert(xor_of(p.take(6)) == p[0] ^ p[1] ^ p[2] ^ p[3] ^ p[4] ^ p[5]);
}

/// A packet is one of the session exactly if it has eight bytes or more, its
/// first two say how many, low byte first and whatever the top bit is, the next
/// two are the session's id, low byte first, and the eighth is the exclusive or
/// of the seven before it. Its type is then its seventh byte.
pub proof fn law_packet_of_the_session(packet: Seq<u8>, session: u16)
    ensures
        packet_type_spec(packet, session) is Some <==> {
            &&& packet.len() >= 8
            &&& packet[0] + 256 * packet[1] == packet.len() || packet[0] + 256 * packet[1]
                == packet.len() + 0x8000
            &&& packet.len() < 0x8000
            &&& packet[2] + 256 * packet[3] == session
            &&& packet[7] == xor_of(packet.take(7))
        },
        packet_type_spec(packet, session) matches Some(kind) ==> kind == packet[6],
{
    if packet.len() >= 8 {
        lemma_xor7(packet);
        let id = packet.subrange(2, 4);
        assert(id[0] == packet[2] && id[1] == packet[3]);
        if packet[2] + 256 * packet[3] == session {
            assert(id =~= le16(session));
        }
        assert(packet[0] + 256 * packet[1] < 0x10000);
    }
}

/// A control packet is answered by 34 bytes: the marker 0x8022, its session id,
/// two zero bytes, the type 4, the checksum of these seven, and its own bytes
/// from the ninth on.
pub proof fn law_ack_on_the_wire(packet: Seq<u8>)
    requires
        packet.len() >= 34,
    ensures
        ({
            let ack = ack_bytes(packet);
            &&& ack.len() == 34
            &&& ack[0] == 0x22 && ack[1] == 0x80
            &&& ack[2] == packet[2] && ack[3] == packet[3]
            &&& ack[4] == 0 && ack[5] == 0 && ack[6] == 4
            &&& ack[7] == xor_of(ack.take(7))
            &&& forall|i: int| 8 <= i < 34 ==> ack[i] == packet[i]
        }),
{
    lemma_xor7(ack_bytes(packet));
}

/// An opener is 48 bytes: the marker 0x8030, the session id, three zero bytes,
/// the checksum of these seven, the sequence rounded down to a multiple of 8,
/// and a payload that is the same for every session and sequence.
pub proof fn law_opener_on_the_wire(session: u16, sequence: u16, other: u16, another: u16)
    ensures
        ({
            let p = opener_bytes(session, sequence);
            let carried = p[8] + 256 * p[9];
            &&& p.len() == 48
            &&& p[0] == 0x30 && p[1] == 0x80
            &&& p[2] + 256 * p[3] == session
            &&& p[4] == 0 && p[5] == 0 && p[6] == 0
            &&& p[7] == xor_of(p.take(7))
            &&& carried % 8 == 0 && carried <= sequence < carried + 8
            &&& p.skip(10) == opener_bytes(other, another).skip(10)
        }),
{
    let p = opener_bytes(session, sequence);
    lemma_xor7(p);
    let a = lo(session);
    let b = hi(session);
    assert(0x30u8 ^ 0x80u8 ^ a ^ b ^ 0u8 ^ 0u8 ^ 0u8 == a ^ b ^ 0xb0u8) by (bit_vector);
    assert(p.skip(10) =~= opener_bytes(other, another).skip(10));
}

/// Only nine bytes that carry the session's id, low byte first, acknowledge its
/// opener.
pub proof fn law_what_acknowledges_the_opener(packet: Seq<u8>, session: u16)
    ensures
        acknowledges(packet, session) <==> packet.len() == 9 && packet[2] + 256 * packet[3]
            == session,
{
    if packet.len() == 9 {
        let id = packet.subrange(2, 4);
        assert(id[0] == packet[2] && id[1] == packet[3]);
        if packet[2] + 256 * packet[3] == session {
            assert(id =~= le16(session));
        }
    }
}

/// Four random bytes give the id and the sequence, each low byte first: the id
/// as it is unless it is 0, the sequence rounded down to a multiple of 8.
pub proof fn law_session_of_random_bytes(bytes: Seq<u8>)
    requires
        bytes.len() == 4,
    ensures
        ({
            let s = session_of(bytes);
            let id = bytes[0] + 256 * bytes[1];
            let sequence = bytes[2] + 256 * bytes[3];
            &&& id != 0 ==> s.id == id
            &&& id == 0 ==> s.id == 1
            &&& s.sequence % 8 == 0 && s.sequence <= sequence < s.sequence + 8
        }),
{
}

/// Hex dumps of two pieces, with a space between them, make the dump of both;
/// one byte is two digits, which read back as the byte.
pub proof fn law_hex_dump(a: Seq<u8>, b: Seq<u8>, x: u8)
    requires
        a.len() > 0,
        b.len() > 0,
    ensures
        hex_spec(a + b) == hex_spec(a) + seq![' '] + hex_spec(b),
        hex_spec(Seq::empty()).len() == 0,
        hex_spec(seq![x]).len() == 2,
        number_of(hex_spec(seq![x]), true) == Some(x as int),
        lower(hex_spec(seq![x])) == hex_spec(seq![x]),
    decreases b.len(),
{
    let ab = a + b;
    assert(ab.drop_last() =~= a + b.drop_last());
    if b.len() == 1 {
        assert(ab.drop_last() =~= a);
        assert(hex_spec(ab) =~= hex_spec(a) + seq![' '] + hex_spec(b));
    } else {
        law_hex_dump(a, b.drop_last(), x);
        assert(hex_spec(ab) =~= hex_spec(a) + seq![' '] + hex_spec(b));
    }
    let h = hex_byte(x);
    assert(h.drop_last() =~= seq![h[0]]);
    assert(seq![h[0]].drop_last() =~= Seq::empty());
    reveal_with_fuel(digits_value, 3);
    assert(without_sign(h) == h);
    assert(lower(h) =~= h);
}

/// Of two packets of one length, both of the session, the declared lengths
/// differ in the top bit at most.
pub proof fn law_one_length_is_declared(a: Seq<u8>, b: Seq<u8>, session: u16)
    requires
        a.len() == b.len(),
        packet_type_spec(a, session) is Some,
        packet_type_spec(b, session) is Some,
    ensures
        a[0] == b[0],
        a[1] == b[1] || a[1] == b[1] + 128 || b[1] == a[1] + 128,
{
    law_packet_of_the_session(a, session);
    law_packet_of_the_session(b, session);
}

/// The payload of every opener is the recorded one.
pub proof fn law_opener_payload(session: u16, sequence: u16)
    ensures
        opener_bytes(session, sequence).skip(10) == seq![
            0x64u8, 0x00, 0x64, 0x00, 0xc0, 0x05, 0x14, 0x00, 0x00, 0x64, 0x00, 0x00,
            0x01, 0x90, 0x01, 0xc0, 0x05, 0x14, 0x00, 0x00, 0x64, 0x00, 0x14, 0x00,
            0x64, 0x00, 0xc0, 0x05, 0x14, 0x00, 0x00, 0x64, 0x00, 0x01, 0x01, 0x04,
            0x01, 0x02,
        ],
{
    assert(opener_bytes(session, sequence).skip(10) =~= seq![
            0x64u8, 0x00, 0x64, 0x00, 0xc0, 0x05, 0x14, 0x00, 0x00, 0x64, 0x00, 0x00,
            0x01, 0x90, 0x01, 0xc0, 0x05, 0x14, 0x00, 0x00, 0x64, 0x00, 0x14, 0x00,
            0x64, 0x00, 0xc0, 0x05, 0x14, 0x00, 0x00, 0x64, 0x00, 0x01, 0x01, 0x04,
            0x01, 0x02,
        ]);
}

/// The bytes to start from are the low 32 bits of the mixture.
pub proof fn law_mixed_bytes(nanos: u64, pid: u32)
    ensures
        ({
            let b = mixed_bytes(nanos, pid);
            &&& b.len() == 4
            &&& b[0] + 256 * b[1] + 65536 * b[2] + 16777216 * b[3] == (nanos ^ (pid as u64))
                % 0x1_0000_0000
        }),
{
    let n = nanos ^ (pid as u64);
    assert(n % 256 + 256 * (n / 256 % 256) + 65536 * (n / 65536 % 256) + 16777216 * (n / 16777216
        % 256) == n % 4294967296) by (bit_vector);
}

/// Time is up so many milliseconds after the start. Until then the opener goes
/// out when it is its turn, counted, and has its next turn a quarter of a second
/// later or when time is up; from then on it does not.
pub proof fn law_opening_by_the_clock(session: Session, now: u64, timeout_ms: u64, s: Opening)
    ensures
        ({
            let o = Opening::start(session, now, timeout_ms);
            &&& o.session == session && o.attempts == 0 && o.next_turn == now
            &&& o.deadline == now + 1_000_000 * timeout_ms
        }),
        ({
            let (t, turn) = s.turned(now);
            let soon = now + 250_000_000;
            &&& turn is Send <==> now < s.deadline
            &&& turn matches OpenerTurnView::Send(p) ==> {
                &&& p == opener_bytes(s.session.id, s.session.sequence)
                &&& t.next_turn == if soon < s.deadline {
                    soon
                } else {
                    s.deadline
                }
                &&& s.attempts < 0xffff_ffff ==> t.attempts == s.attempts + 1
                &&& s.attempts == 0xffff_ffff ==> t.attempts == s.attempts
                &&& t.session == s.session && t.deadline == s.deadline
            }
            &&& turn is GiveUp ==> t == s
        }),
{
}

/// What is heard is an answer only if it is nine bytes with the session's id;
/// else it is the opener's turn once its time has come, and not before.
pub proof fn law_what_is_heard(s: Opening, now: u64, p: Seq<u8>)
    requires
        s.next_turn <= now + 0xffff_ffff_ffff_ffff_ffff,
    ensures
        ({
            let answer = p.len() == 9 && p[2] + 256 * p[3] == s.session.id;
            let h = s.heard(now, Some(p));
            &&& h == Heard::Live(s.session) <==> answer
            &&& h is Live ==> answer
            &&& !answer ==> h == s.heard(now, None)
            &&& s.heard(now, None) is Turn <==> now >= s.next_turn
            &&& now < s.next_turn ==> (s.heard(now, None) matches Heard::Listen { ns } && now + ns
                == s.next_turn)
        }),
{
    law_what_acknowledges_the_opener(p, s.session.id);
}

} // verus!
