//! DDC/CI "VCP Feature" framing: request packets, their checksum, reply
//! validation and decoding, and the write/read/retry exchange that carries a
//! request to a monitor. The exchange is a state machine: the caller performs
//! each action it asks for (sleep, I2C write, I2C read) and reports back.
use crate::text::{decimal, hex_byte, hex_prefixed, push_decimal, push_hex_byte, push_hex_prefixed};
use vstd::prelude::*;
use vstd::string::StringExecFns;

verus! {

pub const VCP_LUMINANCE: u8 = 0x10;

pub const VCP_CONTRAST: u8 = 0x12;

pub const VCP_VOLUME: u8 = 0x62;

pub const VCP_MUTE: u8 = 0x8D;

/// 7-bit I2C address of the monitor's DDC/CI endpoint.
pub const CHIP_ADDRESS_7BIT: u8 = 0x37;

/// DDC/CI source ("data") address handed to the I2C transport.
pub const DATA_ADDRESS: u32 = 0x51;

/// Seed of the checksum that every reply carries.
pub const REPLY_CHECKSUM_SEED: u8 = 0x50;

/// Length of a Get VCP Feature reply.
pub const GET_VCP_REPLY_LEN: usize = 11;

/// XOR of `seed` and every byte of `bytes`, folded from the front.
pub open spec fn xor_fold(seed: u8, bytes: Seq<u8>) -> u8
    decreases bytes.len(),
{
    if bytes.len() == 0 {
        seed
    } else {
        xor_fold(seed, bytes.drop_last()) ^ bytes.last()
    }
}

/// The DDC/CI checksum: `seed` XOR-folded with `bytes`.
pub fn checksum(seed: u8, bytes: &[u8]) -> (c: u8)
    ensures
        c == xor_fold(seed, bytes@),
{
    let mut acc = seed;
    let mut i: usize = 0;
    while i < bytes.len()
        invariant
            0 <= i <= bytes@.len(),
            acc == xor_fold(seed, bytes@.take(i as int)),
        decreases bytes@.len() - i,
    {
        assert(bytes@.take(i + 1).drop_last() =~= bytes@.take(i as int));
        acc = acc ^ bytes[i];
        i = i + 1;
    }
    assert(bytes@.take(bytes@.len() as int) =~= bytes@);
    acc
}

/// Checksum seed for a request whose payload has `send_len` bytes: a Get
/// (one payload byte) is seeded with the chip's 8-bit address, anything else
/// with that address XOR the data address.
pub open spec fn packet_seed(send_len: nat) -> u8 {
    if send_len == 1 {
        (CHIP_ADDRESS_7BIT << 1u8) as u8
    } else {
        ((CHIP_ADDRESS_7BIT << 1u8) ^ (DATA_ADDRESS as u8)) as u8
    }
}

/// The request bytes before the checksum: length byte (`0x80 | (n + 1)`),
/// the payload length `n` (which doubles as the opcode), then the payload.
pub open spec fn packet_body(send: Seq<u8>) -> Seq<u8> {
    let n = (send.len() % 256) as u8;
    seq![(0x80u8 | ((n + 1) as u8)) as u8, n] + send
}

/// The whole request packet: body followed by its checksum.
pub open spec fn ddc_packet(send: Seq<u8>) -> Seq<u8> {
    let body = packet_body(send);
    body.push(xor_fold(packet_seed(send.len()), body))
}

/// The payloads that `build_packet` frames: the length byte holds `n + 1`,
/// so a payload length whose low byte is 255 cannot be framed.
pub open spec fn framable(send: Seq<u8>) -> bool {
    send.len() % 256 != 255 && send.len() + 3 <= usize::MAX
}

/// Builds the request packet for the payload `send` (a VCP code for a Get,
/// `[vcp_code, hi, lo]` for a Set). No source-address byte is included.
pub fn build_packet(send: &[u8]) -> (packet: Vec<u8>)
    requires
        framable(send@),
    ensures
        packet@ == ddc_packet(send@),
        packet@.len() == send@.len() + 3,
        packet@[0] >= 0x80,
{
    let n: u8 = (send.len() % 256) as u8;
    let mut packet: Vec<u8> = Vec::new();
    packet.push(0x80u8 | (n + 1));
    packet.push(n);
    let mut i: usize = 0;
    while i < send.len()
        invariant
            0 <= i <= send@.len(),
            framable(send@),
            n == (send@.len() % 256) as u8,
            packet@ == seq![(0x80u8 | ((n + 1) as u8)) as u8, n] + send@.take(i as int),
        decreases send@.len() - i,
    {
        packet.push(send[i]);
        i = i + 1;
        assert(packet@ =~= seq![(0x80u8 | ((n + 1) as u8)) as u8, n] + send@.take(i as int));
    }
    assert(send@.take(send@.len() as int) =~= send@);
    assert(packet@ == packet_body(send@));
    let seed: u8 = if send.len() == 1 {
        CHIP_ADDRESS_7BIT << 1u8
    } else {
        (CHIP_ADDRESS_7BIT << 1u8) ^ (DATA_ADDRESS as u8)
    };
    let c = checksum(seed, packet.as_slice());
    packet.push(c);
    let m: u8 = n + 1;
    let first = 0x80u8 | m;
    assert(first >= 0x80) by (bit_vector)
        requires
            first == 0x80u8 | m,
    ;
    packet
}

/// Whether a reply's last byte is the checksum of the bytes before it.
pub open spec fn reply_checksum_ok(reply: Seq<u8>) -> bool {
    reply.len() > 0 && xor_fold(REPLY_CHECKSUM_SEED, reply.drop_last()) == reply.last()
}

/// A built packet checks out: XOR-folding all of it, checksum included,
/// from its seed gives zero.
pub proof fn lemma_packet_checksums_to_zero(send: Seq<u8>)
    ensures
        xor_fold(packet_seed(send.len()), ddc_packet(send)) == 0,
{
    let body = packet_body(send);
    let p = ddc_packet(send);
    assert(p.drop_last() =~= body);
    let x = xor_fold(packet_seed(send.len()), body);
    assert(x ^ x == 0) by (bit_vector);
}

/// Folding nothing gives the seed; folding one byte XORs it into the seed.
pub proof fn lemma_xor_fold_small(seed: u8, b: u8)
    ensures
        xor_fold(seed, Seq::empty()) == seed,
        xor_fold(seed, seq![b]) == seed ^ b,
{
    assert(seq![b].drop_last() =~= Seq::<u8>::empty());
    assert(seq![b].last() == b);
    assert(xor_fold(seed, seq![b].drop_last()) == seed);
}

/// Folding a concatenation folds the second part onward from the fold of
/// the first.
pub proof fn lemma_xor_fold_concat(seed: u8, a: Seq<u8>, b: Seq<u8>)
    ensures
        xor_fold(seed, a + b) == xor_fold(xor_fold(seed, a), b),
    decreases b.len(),
{
    if b.len() == 0 {
        assert(a + b =~= a);
    } else {
        assert((a + b).drop_last() =~= a + b.drop_last());
        assert((a + b).last() == b.last());
        lemma_xor_fold_concat(seed, a, b.drop_last());
    }
}

/// The seed enters the fold exactly once, whatever it is: folding from any
/// seed is that seed XOR the fold from zero.
pub proof fn lemma_xor_fold_seed(seed: u8, s: Seq<u8>)
    ensures
        xor_fold(seed, s) == seed ^ xor_fold(0, s),
    decreases s.len(),
{
    if s.len() == 0 {
        assert(seed ^ 0u8 == seed) by (bit_vector);
    } else {
        lemma_xor_fold_seed(seed, s.drop_last());
        let f = xor_fold(0, s.drop_last());
        let l = s.last();
        assert((seed ^ f) ^ l == seed ^ (f ^ l)) by (bit_vector);
    }
}

/// A reply checks out exactly when the XOR of all its bytes, checksum
/// included, is the reply seed `0x50`.
pub proof fn lemma_reply_checksum_ok(reply: Seq<u8>)
    requires
        reply.len() > 0,
    ensures
        reply_checksum_ok(reply) <==> xor_fold(0, reply) == REPLY_CHECKSUM_SEED,
{
    let d = reply.drop_last();
    let l = reply.last();
    lemma_xor_fold_seed(REPLY_CHECKSUM_SEED, d);
    let f = xor_fold(0, d);
    assert((0x50u8 ^ f == l) <==> (f ^ l == 0x50u8)) by (bit_vector);
}

/// A Get request (one payload byte) is seeded with `0x6e`, the chip's 8-bit
/// address; any other with `0x3f`, that address XOR the data address. The
/// packet's last byte is its seed XOR every byte before it.
pub proof fn lemma_packet_checksum_byte(send: Seq<u8>)
    ensures
        packet_seed(1) == 0x6e,
        send.len() != 1 ==> packet_seed(send.len()) == 0x3f,
        ddc_packet(send).len() == send.len() + 3,
        ddc_packet(send).drop_last() == packet_body(send),
        ddc_packet(send).last() == packet_seed(send.len()) ^ xor_fold(
            0,
            ddc_packet(send).drop_last(),
        ),
{
    assert((0x37u8 << 1u8) == 0x6eu8) by (bit_vector);
    assert(((0x37u8 << 1u8) ^ 0x51u8) == 0x3fu8) by (bit_vector);
    assert(ddc_packet(send).drop_last() =~= packet_body(send));
    lemma_xor_fold_seed(packet_seed(send.len()), packet_body(send));
}

/// No packet starts with the source address byte `0x51`: the first byte
/// always carries the `0x80` length flag.
pub proof fn lemma_packet_never_starts_with_source_address(send: Seq<u8>)
    requires
        framable(send),
    ensures
        ddc_packet(send)[0] != 0x51,
        ddc_packet(send)[0] >= 0x80,
{
    let n = (send.len() % 256) as u8;
    let m = (n + 1) as u8;
    let first = (0x80u8 | m) as u8;
    assert(first >= 0x80) by (bit_vector)
        requires
            first == (0x80u8 | m) as u8,
    ;
}

/// Current and maximum value of a VCP feature.
#[derive(Clone, Copy, Debug, PartialEq, Eq, Structural)]
pub struct VcpReply {
    pub current: u16,
    pub max: u16,
}

/// The big-endian 16-bit number in bytes `hi`, `lo`.
pub open spec fn be16(hi: u8, lo: u8) -> u16 {
    (hi as nat * 256 + lo as nat) as u16
}

/// Decodes a Get VCP Feature reply: maximum in bytes 6-7, current value in
/// bytes 8-9, both big-endian.
pub fn decode_vcp_reply(reply: &[u8]) -> (r: VcpReply)
    requires
        reply@.len() >= 10,
    ensures
        r.max == be16(reply@[6], reply@[7]),
        r.current == be16(reply@[8], reply@[9]),
{
    let (a, b, c, d) = (reply[6], reply[7], reply[8], reply[9]);
    let max = ((a as u16) << 8u16) | b as u16;
    let current = ((c as u16) << 8u16) | d as u16;
    assert(max == a as nat * 256 + b as nat) by (bit_vector)
        requires
            max == ((a as u16) << 8u16) | b as u16,
    ;
    assert(current == c as nat * 256 + d as nat) by (bit_vector)
        requires
            current == ((c as u16) << 8u16) | d as u16,
    ;
    VcpReply { current, max }
}

/// The payload of a Get VCP Feature request for `vcp_code`.
pub fn get_vcp_payload(vcp_code: u8) -> (send: Vec<u8>)
    ensures
        send@ == seq![vcp_code],
{
    let mut send = Vec::new();
    send.push(vcp_code);
    assert(send@ =~= seq![vcp_code]);
    send
}

/// The payload of a Set VCP Feature request: the code, then `value`'s high
/// and low byte.
pub fn set_vcp_payload(vcp_code: u8, value: u16) -> (send: Vec<u8>)
    ensures
        send@ == seq![vcp_code, (value >> 8u16) as u8, (value & 0xffu16) as u8],
        be16(send@[1], send@[2]) == value,
{
    let hi = (value >> 8u16) as u8;
    let lo = (value & 0xffu16) as u8;
    assert(hi as nat * 256 + lo as nat == value) by (bit_vector)
        requires
            hi == (value >> 8u16) as u8,
            lo == (value & 0xffu16) as u8,
    ;
    let mut send = Vec::new();
    send.push(vcp_code);
    send.push(hi);
    send.push(lo);
    assert(send@ =~= seq![vcp_code, hi, lo]);
    send
}

// ---------------------------------------------------------------------------
// The exchange
// ---------------------------------------------------------------------------

/// Attempts (write cycles, then a read if a reply is wanted) before giving up.
pub const NUM_RETRY_ATTEMPTS: u32 = 5;

/// Writes of the request packet per attempt.
pub const NUM_WRITE_CYCLES: u32 = 2;

/// Pause before each write, in microseconds.
pub const WRITE_SLEEP_US: u64 = 10_000;

/// Pause before reading the reply, in microseconds.
pub const READ_SLEEP_US: u64 = 50_000;

/// Pause after a failed attempt, in microseconds.
pub const RETRY_SLEEP_US: u64 = 20_000;

/// Why one attempt of an exchange failed.
pub enum DdcFailure {
    /// The last write of the attempt was not acknowledged (no reply wanted).
    WriteFailed,
    /// The reply had the wrong length.
    ShortReply { len: usize },
    /// The reply's checksum byte did not match its contents.
    ChecksumMismatch { got: u8, expected: u8, reply: Vec<u8> },
    /// The I2C read failed with this IOReturn code.
    ReadFailed { code: i32 },
}

/// An exchange that failed every attempt.
pub struct DdcError {
    pub attempts: u32,
    /// Why the last attempt failed.
    pub last: DdcFailure,
}

/// Where an exchange stands.
#[derive(Clone, Copy, Debug, PartialEq, Eq, Structural)]
pub enum DdcPhase {
    /// Waiting out the pause before a write.
    BeforeWrite,
    /// Waiting for a write's result.
    Writing,
    /// Waiting out the pause before the read.
    BeforeRead,
    /// Waiting for the read's result.
    Reading,
    /// Waiting out the pause after a failed attempt.
    BeforeRetry,
    /// Done; the result has been handed out.
    Finished,
}

/// What the caller must do next.
pub enum DdcAction {
    /// Sleep this many microseconds, then report `Slept`.
    Sleep { micros: u64 },
    /// Write the exchange's packet over I2C to this data address, then report `WriteDone`.
    Write { data_address: u32 },
    /// Read `len` bytes at `offset` over I2C, then report `ReadDone`.
    Read { offset: u32, len: usize },
    /// The exchange is over.
    Complete(Result<Vec<u8>, DdcError>),
}

/// What happened when the caller performed the last action.
pub enum DdcEvent {
    Slept,
    WriteDone { ok: bool },
    ReadDone(Result<Vec<u8>, i32>),
}

/// Whether `event` answers an action asked for in `phase`.
pub open spec fn answers(phase: DdcPhase, event: DdcEvent) -> bool {
    match phase {
        DdcPhase::BeforeWrite | DdcPhase::BeforeRead | DdcPhase::BeforeRetry => event is Slept,
        DdcPhase::Writing => event is WriteDone,
        DdcPhase::Reading => event is ReadDone,
        DdcPhase::Finished => false,
    }
}

/// The action that `phase` is waiting on (for a phase that waits on one).
pub open spec fn pending_action(phase: DdcPhase, reply_len: usize) -> DdcAction {
    match phase {
        DdcPhase::BeforeWrite => DdcAction::Sleep { micros: WRITE_SLEEP_US },
        DdcPhase::Writing => DdcAction::Write { data_address: DATA_ADDRESS },
        DdcPhase::BeforeRead => DdcAction::Sleep { micros: READ_SLEEP_US },
        DdcPhase::Reading => DdcAction::Read { offset: 0, len: reply_len },
        _ => DdcAction::Sleep { micros: RETRY_SLEEP_US },
    }
}

/// Events still to come within the current attempt.
pub open spec fn attempt_cost(phase: DdcPhase, cycle: u32) -> nat {
    match phase {
        DdcPhase::BeforeWrite => (2 * (NUM_WRITE_CYCLES - cycle) + 3) as nat,
        DdcPhase::Writing => (2 * (NUM_WRITE_CYCLES - cycle) + 2) as nat,
        DdcPhase::BeforeRead => 3,
        DdcPhase::Reading => 2,
        DdcPhase::BeforeRetry => 1,
        DdcPhase::Finished => 0,
    }
}

/// A bound on the events an exchange still needs: the attempts left times
/// the most events one attempt takes, plus what the current attempt needs.
pub open spec fn events_left(phase: DdcPhase, attempt: u32, cycle: u32) -> nat {
    if phase == DdcPhase::Finished {
        0
    } else {
        ((NUM_RETRY_ATTEMPTS - 1 - attempt) * (2 * NUM_WRITE_CYCLES + 3) + attempt_cost(
            phase,
            cycle,
        )) as nat
    }
}

/// One DDC/CI request/reply exchange, with retries.
pub struct DdcExchange {
    packet: Vec<u8>,
    reply_len: usize,
    attempt: u32,
    cycle: u32,
    write_ok: bool,
    phase: DdcPhase,
    last_error: DdcFailure,
}

impl DdcExchange {
    pub closed spec fn spec_packet(&self) -> Seq<u8> {
        self.packet@
    }

    pub closed spec fn spec_reply_len(&self) -> usize {
        self.reply_len
    }

    /// Attempts already failed.
    pub closed spec fn spec_attempt(&self) -> u32 {
        self.attempt
    }

    /// Writes already made in the current attempt.
    pub closed spec fn spec_cycle(&self) -> u32 {
        self.cycle
    }

    /// Whether the latest write of the current attempt succeeded.
    pub closed spec fn spec_write_ok(&self) -> bool {
        self.write_ok
    }

    pub closed spec fn spec_phase(&self) -> DdcPhase {
        self.phase
    }

    /// Why the latest failed attempt failed.
    pub closed spec fn spec_last_error(&self) -> DdcFailure {
        self.last_error
    }

    /// The counters stay in range.
    pub open spec fn wf(&self) -> bool {
        &&& self.spec_attempt() < NUM_RETRY_ATTEMPTS
        &&& self.spec_cycle() < NUM_WRITE_CYCLES
        &&& self.spec_phase() == DdcPhase::BeforeRead || self.spec_phase() == DdcPhase::Reading
            ==> self.spec_reply_len() > 0
    }

    pub open spec fn spec_events_left(&self) -> nat {
        events_left(self.spec_phase(), self.spec_attempt(), self.spec_cycle())
    }

    /// Starts an exchange for the payload `send`, wanting a reply of
    /// `reply_len` bytes (none if 0). The first action is the pause before
    /// the first write.
    pub fn new(send: &[u8], reply_len: usize) -> (r: (Self, DdcAction))
        requires
            framable(send@),
        ensures
            r.0.wf(),
            r.0.spec_packet() == ddc_packet(send@),
            r.0.spec_reply_len() == reply_len,
            r.0.spec_attempt() == 0,
            r.0.spec_cycle() == 0,
            r.0.spec_phase() == DdcPhase::BeforeWrite,
            r.0.spec_events_left() == NUM_RETRY_ATTEMPTS * (2 * NUM_WRITE_CYCLES + 3),
            r.1 == (DdcAction::Sleep { micros: WRITE_SLEEP_US }),
    {
        let packet = build_packet(send);
        (
            DdcExchange {
                packet,
                reply_len,
                attempt: 0,
                cycle: 0,
                write_ok: false,
                phase: DdcPhase::BeforeWrite,
                last_error: DdcFailure::WriteFailed,
            },
            DdcAction::Sleep { micros: WRITE_SLEEP_US },
        )
    }

    /// The request packet to write.
    pub fn packet(&self) -> (p: &[u8])
        ensures
            p@ == self.spec_packet(),
    {
        self.packet.as_slice()
    }

    /// Whether the exchange is over.
    pub fn is_finished(&self) -> (b: bool)
        ensures
            b == (self.spec_phase() == DdcPhase::Finished),
    {
        self.phase == DdcPhase::Finished
    }

    /// Takes the outcome of the last action and returns the next one.
    /// Writes are made `NUM_WRITE_CYCLES` times per attempt, each after a
    /// pause; then, if a reply is wanted, it is read after a pause and
    /// accepted only with the right length and checksum. A failed attempt is
    /// followed by a pause and, up to `NUM_RETRY_ATTEMPTS` attempts, a retry.
    /// An event that does not answer the pending action changes nothing and
    /// the action is asked for again.
    pub fn step(&mut self, event: DdcEvent) -> (action: DdcAction)
        requires
            old(self).wf(),
            old(self).spec_phase() != DdcPhase::Finished,
        ensures
            final(self).wf(),
            final(self).spec_packet() == old(self).spec_packet(),
            final(self).spec_reply_len() == old(self).spec_reply_len(),
            // Progress: every answered event brings the end closer.
            answers(old(self).spec_phase(), event) ==> final(self).spec_events_left() < old(
                self,
            ).spec_events_left(),
            // Only a checksum-valid reply of the wanted length is accepted.
            action matches DdcAction::Complete(Ok(reply)) ==> if old(self).spec_reply_len() == 0 {
                reply@.len() == 0 && event == (DdcEvent::WriteDone { ok: true })
            } else {
                reply@.len() == old(self).spec_reply_len() && reply_checksum_ok(reply@)
            },
            action is Complete <==> final(self).spec_phase() == DdcPhase::Finished,
            !answers(old(self).spec_phase(), event) ==> {
                &&& *final(self) == *old(self)
                &&& action == pending_action(old(self).spec_phase(), old(self).spec_reply_len())
            },
            answers(old(self).spec_phase(), event) ==> match old(self).spec_phase() {
                DdcPhase::BeforeWrite => {
                    &&& final(self).spec_phase() == DdcPhase::Writing
                    &&& final(self).spec_attempt() == old(self).spec_attempt()
                    &&& final(self).spec_cycle() == old(self).spec_cycle()
                    &&& final(self).spec_last_error() == old(self).spec_last_error()
                    &&& action == (DdcAction::Write { data_address: DATA_ADDRESS })
                },
                DdcPhase::Writing => {
                    let ok = event->ok;
                    &&& final(self).spec_write_ok() == ok
                    &&& final(self).spec_attempt() == old(self).spec_attempt()
                    &&& if old(self).spec_cycle() + 1 < NUM_WRITE_CYCLES {
                        &&& final(self).spec_phase() == DdcPhase::BeforeWrite
                        &&& final(self).spec_cycle() == old(self).spec_cycle() + 1
                        &&& final(self).spec_last_error() == old(self).spec_last_error()
                        &&& action == (DdcAction::Sleep { micros: WRITE_SLEEP_US })
                    } else if old(self).spec_reply_len() > 0 {
                        &&& final(self).spec_phase() == DdcPhase::BeforeRead
                        &&& final(self).spec_cycle() == 0
                        &&& final(self).spec_last_error() == old(self).spec_last_error()
                        &&& action == (DdcAction::Sleep { micros: READ_SLEEP_US })
                    } else if ok {
                        action matches DdcAction::Complete(Ok(reply)) && reply@.len() == 0
                    } else {
                        &&& final(self).spec_phase() == DdcPhase::BeforeRetry
                        &&& final(self).spec_cycle() == 0
                        &&& final(self).spec_last_error() is WriteFailed
                        &&& action == (DdcAction::Sleep { micros: RETRY_SLEEP_US })
                    }
                },
                DdcPhase::BeforeRead => {
                    &&& final(self).spec_phase() == DdcPhase::Reading
                    &&& final(self).spec_attempt() == old(self).spec_attempt()
                    &&& final(self).spec_last_error() == old(self).spec_last_error()
                    &&& action == (DdcAction::Read { offset: 0, len: old(self).spec_reply_len() })
                },
                DdcPhase::Reading => {
                    &&& final(self).spec_attempt() == old(self).spec_attempt()
                    &&& match event->ReadDone_0 {
                        Ok(reply) => if reply@.len() == old(self).spec_reply_len() && reply_checksum_ok(reply@) {
                            action == DdcAction::Complete(Ok(reply))
                        } else if reply@.len() == old(self).spec_reply_len() {
                            &&& final(self).spec_phase() == DdcPhase::BeforeRetry
                            &&& final(self).spec_last_error() == (DdcFailure::ChecksumMismatch {
                                got: reply@.last(),
                                expected: xor_fold(REPLY_CHECKSUM_SEED, reply@.drop_last()),
                                reply,
                            })
                            &&& action == (DdcAction::Sleep { micros: RETRY_SLEEP_US })
                        } else {
                            &&& final(self).spec_phase() == DdcPhase::BeforeRetry
                            &&& final(self).spec_last_error() == (DdcFailure::ShortReply { len: reply@.len() as usize })
                            &&& action == (DdcAction::Sleep { micros: RETRY_SLEEP_US })
                        },
                        Err(code) => {
                            &&& final(self).spec_phase() == DdcPhase::BeforeRetry
                            &&& final(self).spec_last_error() == (DdcFailure::ReadFailed { code })
                            &&& action == (DdcAction::Sleep { micros: RETRY_SLEEP_US })
                        },
                    }
                },
                _ => if old(self).spec_attempt() + 1 < NUM_RETRY_ATTEMPTS {
                    &&& final(self).spec_phase() == DdcPhase::BeforeWrite
                    &&& final(self).spec_attempt() == old(self).spec_attempt() + 1
                    &&& final(self).spec_cycle() == 0
                    &&& !final(self).spec_write_ok()
                    &&& final(self).spec_last_error() == old(self).spec_last_error()
                    &&& action == (DdcAction::Sleep { micros: WRITE_SLEEP_US })
                } else {
                    action == DdcAction::Complete(
                        Err(DdcError { attempts: NUM_RETRY_ATTEMPTS, last: old(self).spec_last_error() }),
                    )
                },
            },
    {
        match self.phase {
            DdcPhase::BeforeWrite => match event {
                DdcEvent::Slept => {
                    self.phase = DdcPhase::Writing;
                    DdcAction::Write { data_address: DATA_ADDRESS }
                },
                _ => DdcAction::Sleep { micros: WRITE_SLEEP_US },
            },
            DdcPhase::Writing => match event {
                DdcEvent::WriteDone { ok } => {
                    self.write_ok = ok;
                    if self.cycle + 1 < NUM_WRITE_CYCLES {
                        self.cycle = self.cycle + 1;
                        self.phase = DdcPhase::BeforeWrite;
                        DdcAction::Sleep { micros: WRITE_SLEEP_US }
                    } else if self.reply_len > 0 {
                        self.cycle = 0;
                        self.phase = DdcPhase::BeforeRead;
                        DdcAction::Sleep { micros: READ_SLEEP_US }
                    } else if ok {
                        self.cycle = 0;
                        self.phase = DdcPhase::Finished;
                        DdcAction::Complete(Ok(Vec::new()))
                    } else {
                        self.cycle = 0;
                        self.last_error = DdcFailure::WriteFailed;
                        self.phase = DdcPhase::BeforeRetry;
                        DdcAction::Sleep { micros: RETRY_SLEEP_US }
                    }
                },
                _ => DdcAction::Write { data_address: DATA_ADDRESS },
            },
            DdcPhase::BeforeRead => match event {
                DdcEvent::Slept => {
                    self.phase = DdcPhase::Reading;
                    DdcAction::Read { offset: 0, len: self.reply_len }
                },
                _ => DdcAction::Sleep { micros: READ_SLEEP_US },
            },
            DdcPhase::Reading => match event {
                DdcEvent::ReadDone(result) => match result {
                    Ok(reply) => {
                        if reply.len() == self.reply_len {
                            let last = reply.len() - 1;
                            let expected = checksum(REPLY_CHECKSUM_SEED, slice_prefix(&reply, last));
                            let got = reply[last];
                            assert(reply@.drop_last() =~= reply@.take(last as int));
                            if expected == got {
                                self.phase = DdcPhase::Finished;
                                DdcAction::Complete(Ok(reply))
                            } else {
                                self.last_error = DdcFailure::ChecksumMismatch { got, expected, reply };
                                self.phase = DdcPhase::BeforeRetry;
                                DdcAction::Sleep { micros: RETRY_SLEEP_US }
                            }
                        } else {
                            self.last_error = DdcFailure::ShortReply { len: reply.len() };
                            self.phase = DdcPhase::BeforeRetry;
                            DdcAction::Sleep { micros: RETRY_SLEEP_US }
                        }
                    },
                    Err(code) => {
                        self.last_error = DdcFailure::ReadFailed { code };
                        self.phase = DdcPhase::BeforeRetry;
                        DdcAction::Sleep { micros: RETRY_SLEEP_US }
                    },
                },
                _ => DdcAction::Read { offset: 0, len: self.reply_len },
            },
            _ => match event {
                DdcEvent::Slept => {
                    if self.attempt + 1 < NUM_RETRY_ATTEMPTS {
                        self.attempt = self.attempt + 1;
                        self.cycle = 0;
                        self.write_ok = false;
                        self.phase = DdcPhase::BeforeWrite;
                        DdcAction::Sleep { micros: WRITE_SLEEP_US }
                    } else {
                        let mut last = DdcFailure::WriteFailed;
                        std::mem::swap(&mut last, &mut self.last_error);
                        self.phase = DdcPhase::Finished;
                        DdcAction::Complete(Err(DdcError { attempts: NUM_RETRY_ATTEMPTS, last }))
                    }
                },
                _ => DdcAction::Sleep { micros: RETRY_SLEEP_US },
            },
        }
    }
}

/// An exchange that is not finished still needs at least one answered
/// event, and never more than a fresh one: with `step` consuming at least one
/// unit per answered event, every exchange completes within
/// `NUM_RETRY_ATTEMPTS * (2 * NUM_WRITE_CYCLES + 3)` answered events.
pub proof fn lemma_exchange_events_bounded(e: DdcExchange)
    requires
        e.wf(),
        e.spec_phase() != DdcPhase::Finished,
    ensures
        1 <= e.spec_events_left() <= NUM_RETRY_ATTEMPTS * (2 * NUM_WRITE_CYCLES + 3),
{
}

/// The first `n` bytes of `v`.
fn slice_prefix(v: &Vec<u8>, n: usize) -> (s: &[u8])
    requires
        n <= v@.len(),
    ensures
        s@ == v@.take(n as int),
{
    vstd::slice::slice_subrange(v.as_slice(), 0, n)
}

// ---------------------------------------------------------------------------
// Messages
// ---------------------------------------------------------------------------

/// Bytes as `{:02x?}` prints a byte vector: `[01, ab]`.
pub open spec fn hex_list(bytes: Seq<u8>) -> Seq<char> {
    seq!['['] + hex_items(bytes) + seq![']']
}

/// The items of `hex_list`, separated by `", "`.
pub open spec fn hex_items(bytes: Seq<u8>) -> Seq<char>
    decreases bytes.len(),
{
    if bytes.len() == 0 {
        Seq::empty()
    } else if bytes.len() == 1 {
        hex_byte(bytes[0])
    } else {
        hex_items(bytes.drop_last()) + seq![',', ' '] + hex_byte(bytes.last())
    }
}

/// The text for one failed attempt.
pub open spec fn failure_text(f: DdcFailure) -> Seq<char> {
    match f {
        DdcFailure::WriteFailed => "write_i2c failed"@,
        DdcFailure::ShortReply { len } => "short reply: "@ + decimal(len as nat) + " bytes"@,
        DdcFailure::ChecksumMismatch { got, expected, reply } => "checksum mismatch (got "@
            + hex_prefixed(got as nat) + ", expected "@ + hex_prefixed(expected as nat)
            + ") -- reply: "@ + hex_list(reply@),
        DdcFailure::ReadFailed { code } => "read_i2c failed with IOReturn "@ + hex_prefixed(
            (code as u32) as nat,
        ),
    }
}

/// The text for an exchange that failed every attempt.
pub open spec fn error_text(e: DdcError) -> Seq<char> {
    "DDC communication failed after "@ + decimal(e.attempts as nat) + " attempts, last error: "@
        + failure_text(e.last)
}

fn push_hex_list(out: &mut String, bytes: &[u8])
    ensures
        final(out)@ == old(out)@ + hex_list(bytes@),
{
    let ghost before = out@;
    proof {
        reveal_strlit("[");
        reveal_strlit("]");
        reveal_strlit(", ");
    }
    out.append("[");
    let mut i: usize = 0;
    while i < bytes.len()
        invariant
            0 <= i <= bytes@.len(),
            out@ == before + seq!['['] + hex_items(bytes@.take(i as int)),
        decreases bytes@.len() - i,
    {
        let ghost mid = out@;
        if i > 0 {
            out.append(", ");
        }
        let ghost mid2 = out@;
        let b = bytes[i];
        push_hex_byte(out, b);
        assert(out@ == mid2 + hex_byte(b));
        proof {
            let t = bytes@.take(i + 1);
            assert(t.drop_last() =~= bytes@.take(i as int));
            assert(t.last() == bytes@[i as int]);
            if i == 0 {
                assert(hex_items(bytes@.take(0)) == Seq::<char>::empty());
                assert(t.len() == 1 && t[0] == bytes@[0]);
                assert(hex_items(t) == hex_byte(bytes@[0]));
                assert(mid2 == mid);
                assert(mid =~= before + seq!['[']);
                assert(out@ =~= before + seq!['['] + hex_items(t));
            } else {
                reveal_strlit(", ");
                assert(mid2 == mid + seq![',', ' ']);
                assert(t.len() >= 2);
                assert(hex_items(t) == hex_items(t.drop_last()) + seq![',', ' '] + hex_byte(t.last()));
                assert(out@ =~= before + seq!['['] + hex_items(t));
            }
        }
        i = i + 1;
    }
    assert(bytes@.take(bytes@.len() as int) =~= bytes@);
    out.append("]");
    assert(out@ =~= before + hex_list(bytes@));
}

/// The text for one failed attempt.
pub fn failure_message(f: &DdcFailure) -> (s: String)
    ensures
        s@ == failure_text(*f),
{
    match f {
        DdcFailure::WriteFailed => String::from_str("write_i2c failed"),
        DdcFailure::ShortReply { len } => {
            let mut s = String::from_str("short reply: ");
            push_decimal(&mut s, *len as u64);
            s.append(" bytes");
            s
        },
        DdcFailure::ChecksumMismatch { got, expected, reply } => {
            let mut s = String::from_str("checksum mismatch (got ");
            push_hex_prefixed(&mut s, *got as u64);
            s.append(", expected ");
            push_hex_prefixed(&mut s, *expected as u64);
            s.append(") -- reply: ");
            push_hex_list(&mut s, reply.as_slice());
            s
        },
        DdcFailure::ReadFailed { code } => {
            let mut s = String::from_str("read_i2c failed with IOReturn ");
            push_hex_prefixed(&mut s, (*code as u32) as u64);
            s
        },
    }
}

/// The text for an exchange that failed every attempt.
pub fn error_message(e: &DdcError) -> (s: String)
    ensures
        s@ == error_text(*e),
{
    let mut s = String::from_str("DDC communication failed after ");
    push_decimal(&mut s, e.attempts as u64);
    s.append(" attempts, last error: ");
    let f = failure_message(&e.last);
    s.append(f.as_str());
    s
}

} // verus!
