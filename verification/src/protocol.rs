//! FTDI/MPSSE command sequences, status parsing, and exact raw reads.

use vstd::prelude::*;
use crate::error::{BitBabblerError, ProtocolOperation};
use crate::policy::{
    clock_divisor, latency_for, latency_timer_ms, pin_direction_byte, pin_value_byte, CLOCK_SETTLE_MS,
    FTDI_INIT_RETRIES, FTDI_INTERFACE_INDEX, FTDI_READ_RETRIES, MAX_MPSSE_READ_BYTES, MAX_UNSOLICITED_TRANSFERS,
    MPSSE_SETTLE_MS,
};
use crate::transport::{vendor_device_request_type, vendor_request_type, EndpointConfig, UsbHandle};

verus! {

/// FTDI control request: reset.
pub const FTDI_SIO_RESET: u8 = 0x00;
/// FTDI control request: set flow control.
pub const FTDI_SIO_SET_FLOW_CTRL: u8 = 0x02;
/// FTDI control request: get modem status.
pub const FTDI_SIO_GET_MODEM_STATUS: u8 = 0x05;
/// FTDI control request: set event character.
pub const FTDI_SIO_SET_EVENT_CHAR: u8 = 0x06;
/// FTDI control request: set error character.
pub const FTDI_SIO_SET_ERROR_CHAR: u8 = 0x07;
/// FTDI control request: set latency timer.
pub const FTDI_SIO_SET_LATENCY_TIMER: u8 = 0x09;
/// FTDI control request: set bitmode.
pub const FTDI_SIO_SET_BITMODE: u8 = 0x0B;

/// Reset value for `FTDI_SIO_RESET`: reset the SIO.
pub const FTDI_SIO_RESET_SIO: u16 = 0;
/// Flow control mode RTS/CTS, ORed into the index field.
pub const FLOW_RTS_CTS: u16 = 0x0100;
/// Bitmode value: reset.
pub const BITMODE_RESET: u16 = 0x0000;
/// Bitmode value: MPSSE.
pub const BITMODE_MPSSE: u16 = 0x0200;

/// Modem status marker for 64-byte packets.
pub const FTDI_MAX64: u8 = 0x01;
/// Modem status marker for 512-byte packets.
pub const FTDI_MAX512: u8 = 0x02;
/// Modem status bit: clear to send.
pub const FTDI_CTS: u8 = 0x10;
/// Modem status bit: data set ready.
pub const FTDI_DSR: u8 = 0x20;
/// Line status bit: transmitter holding register empty.
pub const FTDI_THRE: u8 = 0x20;
/// Line status bit: transmitter empty.
pub const FTDI_TEMT: u8 = 0x40;
/// The only line status bits allowed; also the exact final line status
/// required after a complete read.
pub const LINE_STATUS_OK_MASK: u8 = 0x60;

/// MPSSE command: clock data bytes in on the positive edge, MSB first.
pub const MPSSE_DATA_BYTE_IN_POS_MSB: u8 = 0x20;
/// MPSSE command: set low data bits.
pub const MPSSE_SET_DATABITS_LOW: u8 = 0x80;
/// MPSSE command: set high data bits.
pub const MPSSE_SET_DATABITS_HIGH: u8 = 0x82;
/// MPSSE command: disable loopback.
pub const MPSSE_NO_LOOPBACK: u8 = 0x85;
/// MPSSE command: set clock divisor.
pub const MPSSE_SET_CLK_DIVISOR: u8 = 0x86;
/// MPSSE command: flush the read buffer back to the host now.
pub const MPSSE_SEND_IMMEDIATE: u8 = 0x87;
/// MPSSE command: disable clock divide-by-5.
pub const MPSSE_NO_CLK_DIV5: u8 = 0x8A;
/// MPSSE command: disable three-phase clocking.
pub const MPSSE_NO_3PHASE_CLK: u8 = 0x8D;
/// MPSSE command: disable adaptive clocking.
pub const MPSSE_NO_ADAPTIVE_CLK: u8 = 0x97;

/// The modem status byte every packet must start with for a max packet
/// size: the size marker plus CTS and DSR. Only 64 and 512 are supported.
pub open spec fn modem_status_for(max_packet: u16) -> Option<u8> {
    if max_packet == 64 {
        Some(0x31u8)
    } else if max_packet == 512 {
        Some(0x32u8)
    } else {
        None
    }
}

/// Expected modem status byte for a packet size.
pub fn expected_modem_status(max_packet: u16) -> (status: Result<u8, BitBabblerError>)
    ensures
        match modem_status_for(max_packet) {
            Some(s) => status == Ok::<u8, BitBabblerError>(s),
            None => status == Err::<u8, BitBabblerError>(
                BitBabblerError::ProtocolViolation { operation: ProtocolOperation::UnsupportedMaxPacket },
            ),
        },
        max_packet == 64 ==> status == Ok::<u8, BitBabblerError>(FTDI_MAX64 | FTDI_CTS | FTDI_DSR),
        max_packet == 512 ==> status == Ok::<u8, BitBabblerError>(FTDI_MAX512 | FTDI_CTS | FTDI_DSR),
{
    let size_bit = if max_packet == 64 {
        FTDI_MAX64
    } else if max_packet == 512 {
        FTDI_MAX512
    } else {
        return Err(BitBabblerError::protocol(ProtocolOperation::UnsupportedMaxPacket));
    };
    assert(FTDI_MAX64 | FTDI_CTS | FTDI_DSR == 0x31u8) by (bit_vector);
    assert(FTDI_MAX512 | FTDI_CTS | FTDI_DSR == 0x32u8) by (bit_vector);
    Ok(size_bit | FTDI_CTS | FTDI_DSR)
}

/// A line status byte is acceptable when it has no bits outside THRE|TEMT.
pub open spec fn line_status_ok(line: u8) -> bool {
    line & !LINE_STATUS_OK_MASK == 0
}

/// Whether the byte at `pos` of a bulk transfer is one of the two status
/// bytes that start every FTDI packet of `max_packet` bytes.
pub open spec fn is_status_position(pos: int, max_packet: int) -> bool {
    pos % max_packet < 2
}

/// The entropy bytes of a bulk transfer between two positions: every byte
/// that is not a packet's status byte, in order.
pub open spec fn payload_between(chunk: Seq<u8>, from: int, to: int, max_packet: int) -> Seq<u8>
    decreases to - from,
{
    if from >= to {
        Seq::empty()
    } else if is_status_position(from, max_packet) {
        payload_between(chunk, from + 1, to, max_packet)
    } else {
        seq![chunk[from]] + payload_between(chunk, from + 1, to, max_packet)
    }
}

/// What consuming a bulk-transfer buffer from a position gives: the entropy
/// bytes taken, where consumption stopped, the last line status seen, and
/// the status check that failed, if one did.
pub struct DrainOutcome {
    /// Entropy bytes taken, in order.
    pub data: Seq<u8>,
    /// Position just after the last byte consumed.
    pub end: int,
    /// Last line status byte accepted (or the one held before).
    pub line: u8,
    /// The failed status check, if any.
    pub error: Option<ProtocolOperation>,
}

/// Consuming a bulk transfer from `pos` until `need` entropy bytes are taken
/// or the buffer ends. Each packet starts with a modem status byte, which
/// must equal `expect`, and a line status byte, which must have no bits
/// outside THRE|TEMT; the other bytes are entropy. Consumption stops at the
/// first status byte that fails its check.
pub open spec fn drain_walk(chunk: Seq<u8>, pos: int, max_packet: int, expect: u8, need: nat, line: u8) -> DrainOutcome
    decreases chunk.len() - pos,
{
    if pos >= chunk.len() || need == 0 || pos < 0 {
        DrainOutcome { data: Seq::empty(), end: pos, line, error: None }
    } else if pos % max_packet == 0 {
        if chunk[pos] != expect {
            DrainOutcome { data: Seq::empty(), end: pos, line, error: Some(ProtocolOperation::ModemStatus) }
        } else {
            drain_walk(chunk, pos + 1, max_packet, expect, need, line)
        }
    } else if pos % max_packet == 1 {
        if !line_status_ok(chunk[pos]) {
            DrainOutcome { data: Seq::empty(), end: pos, line, error: Some(ProtocolOperation::LineStatus) }
        } else {
            drain_walk(chunk, pos + 1, max_packet, expect, need, chunk[pos])
        }
    } else {
        let rest = drain_walk(chunk, pos + 1, max_packet, expect, (need - 1) as nat, line);
        DrainOutcome { data: seq![chunk[pos]] + rest.data, ..rest }
    }
}

/// Draining fails only on a bad status byte: a modem-status failure stops
/// at the first byte of a packet that differs from `expect`, a line-status
/// failure stops at the second byte of a packet that has bits outside
/// THRE|TEMT, and no other failure is reported. So a buffer whose packets
/// from `pos` on all carry valid status bytes drains without failure,
/// whatever the packet size.
pub proof fn lemma_drain_fails_only_on_bad_status(
    chunk: Seq<u8>,
    pos: int,
    max_packet: int,
    expect: u8,
    need: nat,
    line: u8,
)
    requires
        0 <= pos <= chunk.len(),
        max_packet > 2,
    ensures
        ({
            let w = drain_walk(chunk, pos, max_packet, expect, need, line);
            &&& w.error == Some(ProtocolOperation::ModemStatus) ==> pos <= w.end < chunk.len() && w.end % max_packet
                == 0 && chunk[w.end] != expect
            &&& w.error == Some(ProtocolOperation::LineStatus) ==> pos <= w.end < chunk.len() && w.end % max_packet
                == 1 && !line_status_ok(chunk[w.end])
            &&& w.error is Some ==> w.error == Some(ProtocolOperation::ModemStatus) || w.error == Some(
                ProtocolOperation::LineStatus,
            )
            &&& (forall|p: int|
                pos <= p < chunk.len() ==> (p % max_packet == 0 ==> chunk[p] == expect) && (p % max_packet == 1
                    ==> line_status_ok(#[trigger] chunk[p]))) ==> w.error is None
        }),
    decreases chunk.len() - pos,
{
    if pos >= chunk.len() || need == 0 {
    } else if pos % max_packet == 0 {
        if chunk[pos] != expect {
        } else {
            lemma_drain_fails_only_on_bad_status(chunk, pos + 1, max_packet, expect, need, line);
        }
    } else if pos % max_packet == 1 {
        if !line_status_ok(chunk[pos]) {
        } else {
            lemma_drain_fails_only_on_bad_status(chunk, pos + 1, max_packet, expect, need, chunk[pos]);
        }
    } else {
        lemma_drain_fails_only_on_bad_status(chunk, pos + 1, max_packet, expect, (need - 1) as nat, line);
    }
}

/// `outcome` with `prefix` taken before it.
pub open spec fn after_prefix(prefix: Seq<u8>, outcome: DrainOutcome) -> DrainOutcome {
    DrainOutcome { data: prefix + outcome.data, ..outcome }
}

/// The framing law: consuming a bulk transfer never yields a status byte.
/// The bytes taken are exactly the entropy bytes between the start and the
/// stop position; no more than were asked for are taken, and fewer only when
/// the buffer ran out or a status check failed; and every status byte passed
/// over was checked and found valid.
pub proof fn lemma_drain_yields_payload_only(chunk: Seq<u8>, pos: int, max_packet: int, expect: u8, need: nat, line: u8)
    requires
        0 <= pos <= chunk.len(),
        max_packet > 2,
    ensures
        ({
            let w = drain_walk(chunk, pos, max_packet, expect, need, line);
            &&& pos <= w.end <= chunk.len()
            &&& w.data == payload_between(chunk, pos, w.end, max_packet)
            &&& w.data.len() <= need
            &&& (w.error is None && w.end < chunk.len()) ==> w.data.len() == need
            &&& forall|p: int| pos <= p < w.end && p % max_packet == 0 ==> chunk[p] == expect
            &&& forall|p: int| pos <= p < w.end && p % max_packet == 1 ==> line_status_ok(chunk[p])
        }),
    decreases chunk.len() - pos,
{
    let w = drain_walk(chunk, pos, max_packet, expect, need, line);
    if pos >= chunk.len() || need == 0 {
    } else if pos % max_packet == 0 {
        if chunk[pos] != expect {
        } else {
            lemma_drain_yields_payload_only(chunk, pos + 1, max_packet, expect, need, line);
        }
    } else if pos % max_packet == 1 {
        if !line_status_ok(chunk[pos]) {
        } else {
            lemma_drain_yields_payload_only(chunk, pos + 1, max_packet, expect, need, chunk[pos]);
        }
    } else {
        lemma_drain_yields_payload_only(chunk, pos + 1, max_packet, expect, (need - 1) as nat, line);
    }
}

/// Runtime FTDI stream state attached to an open device.
pub struct FtdiSession {
    /// Endpoints and packet size of the claimed interface.
    pub endpoints: EndpointConfig,
    /// Modem status byte every packet must start with.
    pub expect_modem_status: u8,
    /// Last accepted line status byte.
    pub line_status: u8,
    /// Unconsumed bytes from the last bulk transfer for the active command.
    pub chunk: Vec<u8>,
    /// Position of the first unconsumed byte of `chunk`.
    pub chunk_head: usize,
    /// Every entropy byte taken from bulk transfers so far, in order.
    pub received: Ghost<Seq<u8>>,
    /// Every byte handed out by a complete read, in order.
    pub delivered: Ghost<Seq<u8>>,
    /// Every vendor control OUT request issued, in order.
    pub controls: Ghost<Seq<ControlRequest>>,
    /// Every command written to the bulk OUT endpoint, in order.
    pub commands: Ghost<Seq<Seq<u8>>>,
    /// Every bulk IN transfer taken in as entropy, in order, each with the
    /// position up to which it has been consumed.
    pub transfers: Ghost<Seq<(Seq<u8>, int)>>,
    /// For each delivered byte, its position in `received`.
    pub origin: Ghost<Seq<int>>,
    /// Every bulk IN transfer read, in order: the size asked for and the
    /// bytes that came back.
    pub reads: Ghost<Seq<(usize, Seq<u8>)>>,
    /// The error of every failed initialization attempt, in order.
    pub init_failures: Ghost<Seq<BitBabblerError>>,
    /// Every failure met talking to the device, in order: an error the
    /// transport reported, a bulk write that moved no byte, a status byte
    /// that failed its check, a GET_MODEM_STATUS answer of the wrong length,
    /// sync probes left unanswered, and a buffer the allocator refused.
    pub failures: Ghost<Seq<BitBabblerError>>,
    /// Every round of an exact read, in order: one MPSSE read command and
    /// the transfers read for it.
    pub rounds: Ghost<Seq<ReadRound>>,
    /// Every GET_MODEM_STATUS answer, in order.
    pub modem_replies: Ghost<Seq<Seq<u8>>>,
}

/// One round of an exact read: how many entropy bytes were wanted and
/// gathered, how many bytes of the last transfer were left over, and the
/// line status at the end.
pub struct ReadRound {
    /// Entropy bytes the read command asked for.
    pub wanted: usize,
    /// Entropy bytes gathered before the round ended.
    pub gathered: usize,
    /// Bytes of the buffered transfer not consumed when the round ended.
    pub leftover: usize,
    /// The session's line status when the round ended.
    pub line_status: u8,
}

/// A vendor control OUT request as issued to the transport.
pub struct ControlRequest {
    /// bmRequestType.
    pub request_type: u8,
    /// bRequest.
    pub request: u8,
    /// wValue.
    pub value: u16,
    /// wIndex.
    pub index: u16,
}

impl FtdiSession {
    /// The session's packet size is supported, its expected modem status
    /// matches it, and the read position lies within the buffered transfer.
    pub open spec fn wf_basic(&self) -> bool {
        &&& modem_status_for(self.endpoints.max_packet) == Some(self.expect_modem_status)
        &&& self.chunk_head <= self.chunk@.len()
    }

    /// [`Self::wf_basic`], and the entropy taken is exactly the payload of
    /// the logged transfers, each up to where it was consumed, with every
    /// delivered byte one of those bytes, in order.
    pub open spec fn wf(&self) -> bool {
        &&& self.wf_basic()
        &&& framing(
            self.received@,
            self.delivered@,
            self.transfers@,
            self.origin@,
            self.chunk@,
            self.chunk_head as int,
            self.packet_size(),
        )
    }

    /// Packet size as an integer.
    pub open spec fn packet_size(&self) -> int {
        self.endpoints.max_packet as int
    }

    /// A fresh session for a claimed interface.
    pub fn new(endpoints: EndpointConfig) -> (session: Result<Self, BitBabblerError>)
        ensures
            match session {
                Ok(s) => {
                    &&& modem_status_for(endpoints.max_packet) is Some
                    &&& s.wf()
                    &&& s.endpoints == endpoints
                    &&& s.line_status == 0
                    &&& s.chunk@.len() == 0
                    &&& s.chunk_head == 0
                    &&& s.received@.len() == 0
                    &&& s.delivered@.len() == 0
                    &&& s.controls@.len() == 0
                    &&& s.commands@.len() == 0
                    &&& s.transfers@.len() == 0
                    &&& s.reads@.len() == 0
                    &&& s.init_failures@.len() == 0
                    &&& s.failures@.len() == 0
                    &&& s.rounds@.len() == 0
                    &&& s.modem_replies@.len() == 0
                },
                Err(e) => {
                    &&& modem_status_for(endpoints.max_packet) is None
                    &&& e == BitBabblerError::ProtocolViolation { operation: ProtocolOperation::UnsupportedMaxPacket }
                },
            },
    {
        let expect_modem_status = expected_modem_status(endpoints.max_packet)?;
        proof {
            reveal(framing);
        }
        Ok(FtdiSession {
            endpoints,
            expect_modem_status,
            line_status: 0,
            chunk: Vec::new(),
            chunk_head: 0,
            received: Ghost(Seq::empty()),
            delivered: Ghost(Seq::empty()),
            controls: Ghost(Seq::empty()),
            commands: Ghost(Seq::empty()),
            transfers: Ghost(Seq::empty()),
            origin: Ghost(Seq::empty()),
            reads: Ghost(Seq::empty()),
            init_failures: Ghost(Seq::empty()),
            failures: Ghost(Seq::empty()),
            rounds: Ghost(Seq::empty()),
            modem_replies: Ghost(Seq::empty()),
        })
    }

    /// Bytes of the buffered transfer not yet consumed.
    pub fn chunk_remaining(&self) -> (n: usize)
        requires
            self.wf(),
        ensures
            n == self.chunk@.len() - self.chunk_head,
    {
        self.chunk.len() - self.chunk_head
    }

    /// Drops the buffered transfer.
    pub fn clear_chunk(&mut self)
        ensures
            final(self).chunk@.len() == 0,
            final(self).chunk_head == 0,
            final(self).endpoints == old(self).endpoints,
            final(self).expect_modem_status == old(self).expect_modem_status,
            final(self).line_status == old(self).line_status,
            final(self).received == old(self).received,
            final(self).delivered == old(self).delivered,
            final(self).controls == old(self).controls,
            final(self).commands == old(self).commands,
            final(self).transfers == old(self).transfers,
            final(self).origin == old(self).origin,
            final(self).reads == old(self).reads,
            final(self).init_failures == old(self).init_failures,
            final(self).failures == old(self).failures,
            final(self).rounds == old(self).rounds,
            final(self).modem_replies == old(self).modem_replies,
            old(self).wf() ==> final(self).wf(),
    {
        self.chunk.clear();
        self.chunk_head = 0;
        proof {
            reveal(framing);
        }
    }
}

/// The entropy bytes of the logged transfers, each up to the position it
/// was consumed to, in order.
pub open spec fn payload_log(transfers: Seq<(Seq<u8>, int)>, max_packet: int) -> Seq<u8>
    decreases transfers.len(),
{
    if transfers.len() == 0 {
        Seq::empty()
    } else {
        payload_log(transfers.drop_last(), max_packet) + payload_between(
            transfers.last().0,
            0,
            transfers.last().1,
            max_packet,
        )
    }
}

/// `longer` starts with `shorter`.
pub open spec fn extends<T>(longer: Seq<T>, shorter: Seq<T>) -> bool {
    &&& shorter.len() <= longer.len()
    &&& forall|i: int| 0 <= i < shorter.len() ==> #[trigger] longer[i] == shorter[i]
}

/// `e` is the last failure logged, and it was logged after the `before`
/// failures.
pub open spec fn met(failures: Seq<BitBabblerError>, before: Seq<BitBabblerError>, e: BitBabblerError) -> bool {
    &&& failures.len() > before.len()
    &&& failures[failures.len() - 1] == e
}

/// `e` is the last failure logged since `before`, or an initialization
/// that gave up with that failure as its last cause.
pub open spec fn traced(failures: Seq<BitBabblerError>, before: Seq<BitBabblerError>, e: BitBabblerError) -> bool {
    ||| met(failures, before, e)
    ||| (e matches BitBabblerError::InitializationFailed { source, .. } && met(failures, before, *source))
}

/// A round gathered all the entropy its command asked for.
pub open spec fn round_complete(round: ReadRound) -> bool {
    round.gathered == round.wanted
}

/// The checks at the end of a complete round: no read-ahead may be left,
/// then the line status must be exactly THRE|TEMT.
pub open spec fn round_verdict(round: ReadRound) -> Result<(), BitBabblerError> {
    if round.leftover != 0 {
        Err(BitBabblerError::ProtocolViolation { operation: ProtocolOperation::ExcessPayload })
    } else if round.line_status != LINE_STATUS_OK_MASK {
        Err(BitBabblerError::ProtocolViolation { operation: ProtocolOperation::IncompleteLineStatus })
    } else {
        Ok(())
    }
}

/// `e` is what the rounds logged decide: the verdict of a last round that
/// was complete, or giving up after `FTDI_INIT_RETRIES` incomplete rounds.
pub open spec fn read_decided(rounds: Seq<ReadRound>, e: BitBabblerError) -> bool {
    &&& rounds.len() > 0
    &&& if round_complete(rounds[rounds.len() - 1]) {
        round_verdict(rounds[rounds.len() - 1]) == Err::<(), BitBabblerError>(e)
    } else {
        &&& e == BitBabblerError::ReadRetriesExhausted { attempts: FTDI_INIT_RETRIES }
        &&& rounds.len() >= FTDI_INIT_RETRIES
        &&& forall|j: int| rounds.len() - FTDI_INIT_RETRIES <= j < rounds.len() ==> !round_complete(#[trigger] rounds[j])
    }
}

/// The rounds logged decide no failure: none was logged, or the last one
/// gathered everything and passed the final checks, or it fell short but
/// one of the last `FTDI_INIT_RETRIES` rounds (or fewer than that many
/// rounds in all) did not.
pub open spec fn rounds_accept(rounds: Seq<ReadRound>) -> bool {
    rounds.len() > 0 ==> if round_complete(rounds.last()) {
        round_verdict(rounds.last()) is Ok
    } else {
        ||| rounds.len() < FTDI_INIT_RETRIES
        ||| exists|j: int| rounds.len() - FTDI_INIT_RETRIES <= j < rounds.len() && round_complete(#[trigger] rounds[j])
    }
}

/// What the last rounds decide is decided by any longer log ending with them.
pub proof fn lemma_read_decided_suffix(whole: Seq<ReadRound>, k: int, e: BitBabblerError)
    requires
        0 <= k <= whole.len(),
        read_decided(whole.skip(k), e),
    ensures
        read_decided(whole, e),
{
    let t = whole.skip(k);
    assert(t[t.len() - 1] == whole[whole.len() - 1]);
    if !round_complete(t[t.len() - 1]) {
        assert forall|j: int| whole.len() - FTDI_INIT_RETRIES <= j < whole.len() implies !round_complete(
            #[trigger] whole[j],
        ) by {
            assert(whole[j] == t[j - k]);
        }
    }
}

/// The MPSSE read commands that read `n` bytes: commands of
/// `MAX_MPSSE_READ_BYTES` bytes while more remain, then one of the rest.
pub open spec fn read_plan(n: nat) -> Seq<int>
    decreases n,
{
    if n == 0 {
        Seq::empty()
    } else if n <= MAX_MPSSE_READ_BYTES {
        seq![n as int]
    } else {
        seq![MAX_MPSSE_READ_BYTES as int] + read_plan((n - MAX_MPSSE_READ_BYTES) as nat)
    }
}

/// The sizes of the rounds that gathered everything they asked for, in
/// order: the read commands that were carried out.
pub open spec fn completed_reads(rounds: Seq<ReadRound>) -> Seq<int>
    decreases rounds.len(),
{
    if rounds.len() == 0 {
        Seq::empty()
    } else if round_complete(rounds.last()) {
        completed_reads(rounds.drop_last()).push(rounds.last().wanted as int)
    } else {
        completed_reads(rounds.drop_last())
    }
}

/// The completed reads of two logs one after the other.
pub proof fn lemma_completed_reads_append(a: Seq<ReadRound>, b: Seq<ReadRound>)
    ensures
        completed_reads(a + b) == completed_reads(a) + completed_reads(b),
    decreases b.len(),
{
    if b.len() == 0 {
        assert(a + b =~= a);
        assert(completed_reads(a) + completed_reads(b) =~= completed_reads(a));
    } else {
        assert((a + b).drop_last() =~= a + b.drop_last());
        assert((a + b).last() == b.last());
        lemma_completed_reads_append(a, b.drop_last());
        if round_complete(b.last()) {
            assert(completed_reads(a + b) =~= completed_reads(a) + completed_reads(b));
        }
    }
}

/// Rounds of which only the last one gathered everything carried out one
/// read, of the size that last round asked for.
pub proof fn lemma_completed_reads_single(rs: Seq<ReadRound>)
    requires
        rs.len() > 0,
        round_complete(rs.last()),
        forall|j: int| 0 <= j < rs.len() - 1 ==> !round_complete(#[trigger] rs[j]),
    ensures
        completed_reads(rs) == seq![rs.last().wanted as int],
    decreases rs.len(),
{
    lemma_completed_reads_none(rs.drop_last());
    assert(completed_reads(rs) =~= seq![rs.last().wanted as int]);
}

/// Rounds none of which gathered everything carried out no read.
pub proof fn lemma_completed_reads_none(rs: Seq<ReadRound>)
    requires
        forall|j: int| 0 <= j < rs.len() ==> !round_complete(#[trigger] rs[j]),
    ensures
        completed_reads(rs) == Seq::<int>::empty(),
    decreases rs.len(),
{
    if rs.len() > 0 {
        assert(!round_complete(rs[rs.len() - 1]));
        lemma_completed_reads_none(rs.drop_last());
    }
}

/// `picked` is `from` at the strictly increasing positions `at`.
pub open spec fn picked_from(picked: Seq<u8>, at: Seq<int>, from: Seq<u8>) -> bool {
    &&& at.len() == picked.len()
    &&& forall|i: int| 0 <= i < at.len() ==> 0 <= #[trigger] at[i] < from.len() && picked[i] == from[at[i]]
    &&& forall|i: int, j: int| 0 <= i < j < at.len() ==> #[trigger] at[i] < #[trigger] at[j]
}

/// The framing invariant of a session: the entropy taken is the payload of
/// the logged transfers, the buffered transfer is the last one logged and
/// is consumed up to the read position, and every delivered byte is taken
/// entropy, in order.
#[verifier::opaque]
pub open spec fn framing(
    received: Seq<u8>,
    delivered: Seq<u8>,
    transfers: Seq<(Seq<u8>, int)>,
    origin: Seq<int>,
    chunk: Seq<u8>,
    head: int,
    max_packet: int,
) -> bool {
    &&& received == payload_log(transfers, max_packet)
    &&& forall|i: int| 0 <= i < transfers.len() ==> 0 <= #[trigger] transfers[i].1 <= transfers[i].0.len()
    &&& chunk.len() > 0 ==> transfers.len() > 0 && transfers.last() == (chunk, head)
    &&& picked_from(delivered, origin, received)
}

/// Every byte of the entropy between `a` and `b` is a byte of the transfer
/// at a position in `[a, b)` that is not a status position.
pub proof fn lemma_payload_between_sources(chunk: Seq<u8>, a: int, b: int, max_packet: int)
    requires
        0 <= a,
        b <= chunk.len(),
    ensures
        forall|k: int|
            #![trigger payload_between(chunk, a, b, max_packet)[k]]
            0 <= k < payload_between(chunk, a, b, max_packet).len() ==> exists|p: int|
                #![trigger chunk[p]]
                a <= p < b && !is_status_position(p, max_packet) && payload_between(chunk, a, b, max_packet)[k]
                    == chunk[p],
    decreases b - a,
{
    if a < b {
        lemma_payload_between_sources(chunk, a + 1, b, max_packet);
        let rest = payload_between(chunk, a + 1, b, max_packet);
        let pb = payload_between(chunk, a, b, max_packet);
        if is_status_position(a, max_packet) {
            assert(pb == rest);
        } else {
            assert forall|k: int| #![trigger pb[k]] 0 <= k < pb.len() implies exists|p: int|
                #![trigger chunk[p]]
                a <= p < b && !is_status_position(p, max_packet) && pb[k] == chunk[p] by {
                if k == 0 {
                    assert(pb[0] == chunk[a]);
                } else {
                    assert(pb[k] == rest[k - 1]);
                    let p = choose|p: int| #![trigger chunk[p]] a + 1 <= p < b && !is_status_position(p, max_packet) && rest[k - 1] == chunk[p];
                    assert(a <= p < b);
                }
            }
        }
    }
}

/// `b` is a byte that a logged transfer carried before the position it was
/// consumed to, at a position that is not one of a packet's status bytes.
pub open spec fn sent_as_payload(transfers: Seq<(Seq<u8>, int)>, max_packet: int, b: u8) -> bool {
    exists|i: int, p: int|
        #![trigger transfers[i].0[p]]
        0 <= i < transfers.len() && 0 <= p < transfers[i].1 && !is_status_position(p, max_packet) && b
            == transfers[i].0[p]
}

/// Every byte of the payload log is a byte of a logged transfer, before the
/// position it was consumed to, and not at a status position.
pub proof fn lemma_payload_log_sources(transfers: Seq<(Seq<u8>, int)>, max_packet: int)
    requires
        forall|i: int| 0 <= i < transfers.len() ==> 0 <= #[trigger] transfers[i].1 <= transfers[i].0.len(),
    ensures
        forall|k: int|
            0 <= k < payload_log(transfers, max_packet).len() ==> sent_as_payload(
                transfers,
                max_packet,
                #[trigger] payload_log(transfers, max_packet)[k],
            ),
    decreases transfers.len(),
{
    if transfers.len() > 0 {
        let front = transfers.drop_last();
        let last = transfers.last();
        let n = transfers.len() - 1;
        assert forall|i: int| 0 <= i < front.len() implies 0 <= #[trigger] front[i].1 <= front[i].0.len() by {
            assert(front[i] == transfers[i]);
        }
        lemma_payload_log_sources(front, max_packet);
        assert(0 <= transfers[n].1 <= transfers[n].0.len());
        lemma_payload_between_sources(last.0, 0, last.1, max_packet);
        let pre = payload_log(front, max_packet);
        let tail = payload_between(last.0, 0, last.1, max_packet);
        assert forall|k: int| 0 <= k < payload_log(transfers, max_packet).len() implies sent_as_payload(
            transfers,
            max_packet,
            #[trigger] payload_log(transfers, max_packet)[k],
        ) by {
            let log = payload_log(transfers, max_packet);
            assert(log == pre + tail);
            if k < pre.len() {
                assert(log[k] == pre[k]);
                assert(sent_as_payload(front, max_packet, pre[k]));
                let (i, p) = choose|i: int, p: int|
                    #![trigger front[i].0[p]]
                    0 <= i < front.len() && 0 <= p < front[i].1 && !is_status_position(p, max_packet) && pre[k]
                        == front[i].0[p];
                assert(front[i] == transfers[i]);
                assert(transfers[i].0[p] == front[i].0[p]);
            } else {
                assert(log[k] == tail[k - pre.len()]);
                let p = choose|p: int|
                    #![trigger last.0[p]]
                    0 <= p < last.1 && !is_status_position(p, max_packet) && tail[k - pre.len()] == last.0[p];
                assert(transfers[n] == last);
                assert(transfers[n].0[p] == last.0[p]);
            }
        }
    }
}

/// The entropy between `a` and `c` is that between `a` and `b`, then that
/// between `b` and `c`.
pub proof fn lemma_payload_split(chunk: Seq<u8>, a: int, b: int, c: int, max_packet: int)
    requires
        a <= b <= c,
    ensures
        payload_between(chunk, a, c, max_packet) == payload_between(chunk, a, b, max_packet) + payload_between(
            chunk,
            b,
            c,
            max_packet,
        ),
    decreases b - a,
{
    if a < b {
        lemma_payload_split(chunk, a + 1, b, c, max_packet);
        if is_status_position(a, max_packet) {
        } else {
            assert(seq![chunk[a]] + (payload_between(chunk, a + 1, b, max_packet) + payload_between(chunk, b, c, max_packet))
                =~= (seq![chunk[a]] + payload_between(chunk, a + 1, b, max_packet)) + payload_between(chunk, b, c, max_packet));
        }
    } else {
        assert(payload_between(chunk, a, b, max_packet) =~= Seq::<u8>::empty());
        assert(payload_between(chunk, a, c, max_packet) =~= Seq::<u8>::empty() + payload_between(chunk, b, c, max_packet));
    }
}

/// `(a + k) % m == a % m + k` while that stays below `m`.
proof fn lemma_mod_advance(a: int, k: int, m: int)
    requires
        a >= 0,
        k >= 0,
        m > 0,
        a % m + k < m,
    ensures
        (a + k) % m == a % m + k,
{
    vstd::arithmetic::div_mod::lemma_fundamental_div_mod(a, m);
    vstd::arithmetic::div_mod::lemma_mod_bound(a, m);
    assert(a + k == (a / m) * m + (a % m + k)) by (nonlinear_arith)
        requires a == m * (a / m) + a % m;
    vstd::arithmetic::div_mod::lemma_fundamental_div_mod_converse(a + k, m, a / m, a % m + k);
}

/// The walk of [`drain_chunk`] over the buffered transfer, before the
/// transfer log is brought up to date.
#[verifier::spinoff_prover]
#[verifier::rlimit(40)]
fn drain_walked(session: &mut FtdiSession, need: usize, out: &mut Vec<u8>) -> (taken: Result<usize, BitBabblerError>)
    requires
        old(session).wf_basic(),
    ensures
        final(session).wf_basic(),
        final(session).endpoints == old(session).endpoints,
        final(session).expect_modem_status == old(session).expect_modem_status,
        final(session).delivered == old(session).delivered,
        final(session).controls == old(session).controls,
        final(session).commands == old(session).commands,
        final(session).transfers == old(session).transfers,
        final(session).origin == old(session).origin,
        final(session).reads == old(session).reads,
        final(session).init_failures == old(session).init_failures,
        final(session).rounds == old(session).rounds,
        final(session).modem_replies == old(session).modem_replies,
        final(session).failures == old(session).failures,
        ({
            let w = drain_walk(
                old(session).chunk@,
                old(session).chunk_head as int,
                old(session).packet_size(),
                old(session).expect_modem_status,
                need as nat,
                old(session).line_status,
            );
            &&& final(out)@ == old(out)@ + w.data
            &&& final(session).received@ == old(session).received@ + w.data
            &&& final(session).received@.take(old(session).received@.len() as int) == old(session).received@
            &&& final(session).line_status == w.line
            &&& match taken {
                Ok(k) => {
                    &&& w.error is None
                    &&& k == w.data.len()
                    &&& if w.end == old(session).chunk@.len() {
                        final(session).chunk@.len() == 0 && final(session).chunk_head == 0
                    } else {
                        final(session).chunk@ == old(session).chunk@ && final(session).chunk_head == w.end
                    }
                },
                Err(e) => {
                    &&& w.error matches Some(op)
                    &&& e == BitBabblerError::ProtocolViolation { operation: op }
                    &&& final(session).chunk@.len() == 0
                    &&& final(session).chunk_head == 0
                },
            }
        }),
{
    let ghost chunk0 = session.chunk@;
    let ghost head0 = session.chunk_head as int;
    let ghost line0 = session.line_status;
    let ghost out0 = out@;
    let ghost received0 = session.received@;
    let ghost mp = session.packet_size();
    let ghost expect = session.expect_modem_status;
    let ghost whole = drain_walk(chunk0, head0, mp, expect, need as nat, line0);
    let max_packet = session.endpoints.max_packet as usize;
    let mut copied: usize = 0;

    while session.chunk_head < session.chunk.len() && copied < need
        invariant
            session.wf_basic(),
            session.chunk@ == chunk0,
            chunk0 == old(session).chunk@,
            head0 == old(session).chunk_head,
            line0 == old(session).line_status,
            out0 == old(out)@,
            received0 == old(session).received@,
            session.delivered == old(session).delivered,
            session.controls == old(session).controls,
            session.commands == old(session).commands,
            session.transfers == old(session).transfers,
            session.origin == old(session).origin,
            session.reads == old(session).reads,
            session.init_failures == old(session).init_failures,
            session.rounds == old(session).rounds,
            session.modem_replies == old(session).modem_replies,
            session.failures == old(session).failures,
            expect == old(session).expect_modem_status,
            mp == old(session).packet_size(),
            whole == drain_walk(chunk0, head0, mp, expect, need as nat, line0),
            session.packet_size() == mp,
            max_packet == mp,
            mp == 64 || mp == 512,
            session.expect_modem_status == expect,
            session.endpoints == old(session).endpoints,
            head0 <= session.chunk_head <= chunk0.len(),
            copied <= need,
            out@.len() == out0.len() + copied,
            out@.take(out0.len() as int) == out0,
            session.received@ == received0 + out@.skip(out0.len() as int),
            whole == after_prefix(
                out@.skip(out0.len() as int),
                drain_walk(chunk0, session.chunk_head as int, mp, expect, (need - copied) as nat, session.line_status),
            ),
        ensures
            session.chunk_head == chunk0.len() || copied == need,
        decreases chunk0.len() - session.chunk_head,
    {
        let ghost head_before = session.chunk_head;
        let ghost line_before = session.line_status;
        let ghost rest_need = (need - copied) as nat;
        let packet_head = session.chunk_head % max_packet;
        let mut packet_len = max_packet - packet_head;
        let mut skip: usize = 0;
        if packet_head == 0 {
            let modem = session.chunk[session.chunk_head];
            if modem != session.expect_modem_status {
                session.clear_chunk();
                assert(out@.skip(out0.len() as int) + Seq::<u8>::empty() == out@.skip(out0.len() as int));
                assert(session.received@.take(received0.len() as int) =~= received0);
                return Err(BitBabblerError::protocol(ProtocolOperation::ModemStatus));
            }
            proof {
                assert(drain_walk(chunk0, head_before as int, mp, expect, rest_need, line_before)
                    == drain_walk(chunk0, head_before + 1, mp, expect, rest_need, line_before));
            }
            if session.chunk.len() - session.chunk_head > 1 {
                let line = session.chunk[session.chunk_head + 1];
                proof {
                    lemma_mod_advance(session.chunk_head as int, 1, mp);
                }
                if line & !LINE_STATUS_OK_MASK != 0 {
                    session.clear_chunk();
                    assert(out@.skip(out0.len() as int) + Seq::<u8>::empty() == out@.skip(out0.len() as int));
                    assert(session.received@.take(received0.len() as int) =~= received0);
                    return Err(BitBabblerError::protocol(ProtocolOperation::LineStatus));
                }
                proof {
                    assert(drain_walk(chunk0, head_before + 1, mp, expect, rest_need, line_before)
                        == drain_walk(chunk0, head_before + 2, mp, expect, rest_need, line));
                }
                session.line_status = line;
                skip = 2;
            } else {
                skip = 1;
            }
        } else if packet_head == 1 {
            let line = session.chunk[session.chunk_head];
            if line & !LINE_STATUS_OK_MASK != 0 {
                session.clear_chunk();
                assert(out@.skip(out0.len() as int) + Seq::<u8>::empty() == out@.skip(out0.len() as int));
                assert(session.received@.take(received0.len() as int) =~= received0);
                return Err(BitBabblerError::protocol(ProtocolOperation::LineStatus));
            }
            proof {
                assert(drain_walk(chunk0, head_before as int, mp, expect, rest_need, line_before)
                    == drain_walk(chunk0, head_before + 1, mp, expect, rest_need, line));
            }
            session.line_status = line;
            skip = 1;
        }
        proof {
            if skip > 0 {
                lemma_mod_advance(head_before as int, skip as int, mp);
            }
        }
        session.chunk_head = session.chunk_head + skip;
        packet_len = packet_len - skip;

        if session.chunk_head == session.chunk.len() {
            break;
        }

        let mut n = need - copied;
        if packet_len < n {
            n = packet_len;
        }
        if session.chunk.len() - session.chunk_head < n {
            n = session.chunk.len() - session.chunk_head;
        }
        if n == 0 {
            continue;
        }
        let start = session.chunk_head;
        let ghost start_mod = (start as int) % mp;
        let mut k: usize = 0;
        while k < n
            invariant
                session.wf_basic(),
                session.chunk@ == chunk0,
                session.packet_size() == mp,
                mp == 64 || mp == 512,
                session.expect_modem_status == expect,
                session.endpoints == old(session).endpoints,
                session.delivered == old(session).delivered,
                session.controls == old(session).controls,
                session.commands == old(session).commands,
                session.transfers == old(session).transfers,
                session.origin == old(session).origin,
                session.reads == old(session).reads,
                session.init_failures == old(session).init_failures,
                session.rounds == old(session).rounds,
                session.modem_replies == old(session).modem_replies,
                session.failures == old(session).failures,
            session.rounds == old(session).rounds,
            session.modem_replies == old(session).modem_replies,
            session.failures == old(session).failures,
            session.transfers == old(session).transfers,
            session.origin == old(session).origin,
            session.reads == old(session).reads,
            session.init_failures == old(session).init_failures,
            session.rounds == old(session).rounds,
            session.modem_replies == old(session).modem_replies,
            session.failures == old(session).failures,
                session.chunk_head == start,
                start + n <= chunk0.len(),
                start_mod == (start as int) % mp,
                start_mod >= 2,
                start_mod + n <= mp,
                k <= n,
                copied + n <= need,
                out@.len() == out0.len() + copied + k,
                out@.take(out0.len() as int) == out0,
                session.received@ == received0 + out@.skip(out0.len() as int),
                whole == after_prefix(
                    out@.skip(out0.len() as int),
                    drain_walk(chunk0, start + k, mp, expect, (need - copied - k) as nat, session.line_status),
                ),
            decreases n - k,
        {
            let b = session.chunk[start + k];
            proof {
                lemma_mod_advance(start as int, k as int, mp);
                let p = start + k;
                let rest = drain_walk(chunk0, p + 1, mp, expect, (need - copied - k - 1) as nat, session.line_status);
                assert(drain_walk(chunk0, p, mp, expect, (need - copied - k) as nat, session.line_status)
                    == DrainOutcome { data: seq![chunk0[p]] + rest.data, ..rest });
                assert(out@.push(b).skip(out0.len() as int) == out@.skip(out0.len() as int) + seq![b]);
                assert((out@.skip(out0.len() as int) + seq![b]) + rest.data
                    == out@.skip(out0.len() as int) + (seq![b] + rest.data));
            }
            let ghost before_push = out@;
            out.push(b);
            proof {
                assert(out@.skip(out0.len() as int) == before_push.skip(out0.len() as int).push(b));
                session.received@ = session.received@.push(b);
            }
            k = k + 1;
        }
        session.chunk_head = session.chunk_head + n;
        copied = copied + n;
    }
    proof {
        let w = drain_walk(chunk0, session.chunk_head as int, mp, expect, (need - copied) as nat, session.line_status);
        assert(w.data == Seq::<u8>::empty());
        assert(out@.skip(out0.len() as int) + Seq::<u8>::empty() == out@.skip(out0.len() as int));
        assert(out@ == out0 + out@.skip(out0.len() as int));
        assert(session.received@.take(received0.len() as int) =~= received0);
    }
    if session.chunk_head == session.chunk.len() {
        session.clear_chunk();
    }
    Ok(copied)
}

/// The status check on a status-only transfer: the modem byte must be the
/// expected one, then the line byte must have no bits outside THRE|TEMT.
pub open spec fn status_bytes_check(expect: u8, modem: u8, line: u8) -> Result<(), BitBabblerError> {
    if modem != expect {
        Err(BitBabblerError::ProtocolViolation { operation: ProtocolOperation::ModemStatus })
    } else if !line_status_ok(line) {
        Err(BitBabblerError::ProtocolViolation { operation: ProtocolOperation::LineStatus })
    } else {
        Ok(())
    }
}

/// Takes up to `need` entropy bytes from the buffered bulk transfer into
/// `out`, checking and stripping the two status bytes of each packet.
pub fn drain_chunk(session: &mut FtdiSession, need: usize, out: &mut Vec<u8>) -> (taken: Result<usize, BitBabblerError>)
    requires
        old(session).wf(),
    ensures
        final(session).wf(),
        final(session).endpoints == old(session).endpoints,
        final(session).expect_modem_status == old(session).expect_modem_status,
        final(session).delivered == old(session).delivered,
        final(session).controls == old(session).controls,
        final(session).commands == old(session).commands,
        final(session).origin == old(session).origin,
        final(session).reads == old(session).reads,
        final(session).init_failures == old(session).init_failures,
        extends(final(session).failures@, old(session).failures@),
        taken matches Err(e) ==> met(final(session).failures@, old(session).failures@, e),
        taken is Ok ==> final(session).failures == old(session).failures,
        final(session).rounds == old(session).rounds,
        final(session).modem_replies == old(session).modem_replies,
        old(session).chunk@.len() == 0 ==> final(session).transfers == old(session).transfers,
        old(session).chunk@.len() > 0 ==> final(session).transfers@ == old(session).transfers@.update(
            old(session).transfers@.len() - 1,
            (
                old(session).chunk@,
                drain_walk(
                    old(session).chunk@,
                    old(session).chunk_head as int,
                    old(session).packet_size(),
                    old(session).expect_modem_status,
                    need as nat,
                    old(session).line_status,
                ).end,
            ),
        ),
        ({
            let w = drain_walk(
                old(session).chunk@,
                old(session).chunk_head as int,
                old(session).packet_size(),
                old(session).expect_modem_status,
                need as nat,
                old(session).line_status,
            );
            &&& final(out)@ == old(out)@ + w.data
            &&& final(session).received@ == old(session).received@ + w.data
            &&& final(session).received@.take(old(session).received@.len() as int) == old(session).received@
            &&& final(session).line_status == w.line
            &&& match taken {
                Ok(k) => {
                    &&& w.error is None
                    &&& k == w.data.len()
                    &&& if w.end == old(session).chunk@.len() {
                        final(session).chunk@.len() == 0 && final(session).chunk_head == 0
                    } else {
                        final(session).chunk@ == old(session).chunk@ && final(session).chunk_head == w.end
                    }
                },
                Err(e) => {
                    &&& w.error matches Some(op)
                    &&& e == BitBabblerError::ProtocolViolation { operation: op }
                    &&& final(session).chunk@.len() == 0
                    &&& final(session).chunk_head == 0
                },
            }
        }),
{
    let ghost s0 = *session;
    let ghost w = drain_walk(
        s0.chunk@,
        s0.chunk_head as int,
        s0.packet_size(),
        s0.expect_modem_status,
        need as nat,
        s0.line_status,
    );
    let taken = drain_walked(session, need, out);
    proof {
        reveal(framing);
        lemma_drain_yields_payload_only(
            s0.chunk@,
            s0.chunk_head as int,
            s0.packet_size(),
            s0.expect_modem_status,
            need as nat,
            s0.line_status,
        );
        if s0.chunk@.len() > 0 {
            let t = s0.transfers@;
            let last = t.len() - 1;
            let t2 = t.update(last, (s0.chunk@, w.end));
            assert(t2.drop_last() =~= t.drop_last());
            lemma_payload_split(s0.chunk@, 0, s0.chunk_head as int, w.end, s0.packet_size());
            assert(payload_log(t2, s0.packet_size()) =~= payload_log(t, s0.packet_size()) + w.data);
            session.transfers@ = t2;
            assert forall|i: int| 0 <= i < t2.len() implies 0 <= #[trigger] t2[i].1 <= t2[i].0.len() by {
                if i != last {
                    assert(t2[i] == t[i]);
                }
            }
        } else {
            assert(w.data =~= Seq::<u8>::empty());
            assert(session.received@ =~= s0.received@);
        }
        assert(picked_from(session.delivered@, session.origin@, session.received@)) by {
            assert forall|i: int| 0 <= i < session.origin@.len() implies 0 <= #[trigger] session.origin@[i]
                < session.received@.len() && session.delivered@[i] == session.received@[session.origin@[i]] by {
                assert(session.received@[session.origin@[i]] == s0.received@[session.origin@[i]]);
            }
        }
    }
    if let Err(e) = &taken {
        proof {
            session.failures@ = session.failures@.push(*e);
        }
    }
    taken
}

/// Checks the two status bytes of a status-only transfer.
pub fn validate_status_bytes(session: &FtdiSession, modem: u8, line: u8) -> (checked: Result<(), BitBabblerError>)
    ensures
        checked == status_bytes_check(session.expect_modem_status, modem, line),
{
    if modem != session.expect_modem_status {
        return Err(BitBabblerError::protocol(ProtocolOperation::ModemStatus));
    }
    if line & !LINE_STATUS_OK_MASK != 0 {
        return Err(BitBabblerError::protocol(ProtocolOperation::LineStatus));
    }
    Ok(())
}

/// Rounds a transfer size up to whole packets: for `n > 0` the least
/// multiple of `max_packet` that is at least `n`; `0` gives `max_packet - 1`,
/// and a zero packet size leaves `n` as it is.
pub fn round_to_max_packet(n: usize, max_packet: usize) -> (rounded: usize)
    requires
        max_packet == 0 || n + max_packet - 1 <= usize::MAX,
    ensures
        max_packet == 0 ==> rounded == n,
        max_packet > 0 && n == 0 ==> rounded == max_packet - 1,
        max_packet > 0 && n > 0 ==> {
            &&& rounded % max_packet == 0
            &&& n <= rounded < n + max_packet
        },
{
    if max_packet == 0 {
        return n;
    }
    let m = if n == 0 { 0 } else { n - 1 };
    let rem = m % max_packet;
    proof {
        vstd::arithmetic::div_mod::lemma_fundamental_div_mod(m as int, max_packet as int);
        vstd::arithmetic::div_mod::lemma_mod_bound(m as int, max_packet as int);
        if n > 0 {
            let q = m as int / max_packet as int;
            assert(m + max_packet - rem == max_packet * (q + 1)) by (nonlinear_arith)
                requires m == max_packet * q + rem;
            vstd::arithmetic::div_mod::lemma_mod_multiples_basic(q + 1, max_packet as int);
            assert(max_packet * (q + 1) == (q + 1) * max_packet) by (nonlinear_arith);
        }
    }
    assert(rem <= m);
    n + (max_packet - 1 - rem)
}

/// The MPSSE command that reads `len` bytes: the byte-in opcode, `len - 1`
/// as a little-endian 16-bit count, and SEND_IMMEDIATE.
pub open spec fn read_command_bytes(len: int) -> Seq<u8> {
    seq![MPSSE_DATA_BYTE_IN_POS_MSB, ((len - 1) % 256) as u8, ((len - 1) / 256) as u8, MPSSE_SEND_IMMEDIATE]
}

/// Build the MPSSE read command bytes for `len` bytes.
pub fn mpsse_read_command(len: usize) -> (command: [u8; 4])
    requires
        1 <= len <= crate::policy::MAX_MPSSE_READ_BYTES,
    ensures
        command@ == read_command_bytes(len as int),
        command@[1] + 256 * command@[2] + 1 == len,
{
    let count = (len - 1) as u16;
    let lo = (count & 0xFF) as u8;
    let hi = (count >> 8) as u8;
    assert(lo == count % 256 && hi == count / 256) by (bit_vector)
        requires lo == (count & 0xFF) as u8, hi == (count >> 8) as u8;
    let command = [MPSSE_DATA_BYTE_IN_POS_MSB, lo, hi, MPSSE_SEND_IMMEDIATE];
    assert(command@ =~= read_command_bytes(len as int));
    command
}

/// The control requests that bring the FTDI into MPSSE mode, in order:
/// reset, disable event and error characters, latency timer, RTS/CTS flow
/// control, bitmode reset, bitmode MPSSE.
pub open spec fn init_control_sequence(latency: u8) -> Seq<ControlRequest> {
    seq![
        ControlRequest { request_type: vendor_request_type(false), request: FTDI_SIO_RESET, value: FTDI_SIO_RESET_SIO, index: FTDI_INTERFACE_INDEX },
        ControlRequest { request_type: vendor_request_type(false), request: FTDI_SIO_SET_EVENT_CHAR, value: 0, index: FTDI_INTERFACE_INDEX },
        ControlRequest { request_type: vendor_request_type(false), request: FTDI_SIO_SET_ERROR_CHAR, value: 0, index: FTDI_INTERFACE_INDEX },
        ControlRequest { request_type: vendor_request_type(false), request: FTDI_SIO_SET_LATENCY_TIMER, value: latency as u16, index: FTDI_INTERFACE_INDEX },
        ControlRequest { request_type: vendor_request_type(false), request: FTDI_SIO_SET_FLOW_CTRL, value: 0, index: FLOW_RTS_CTS | FTDI_INTERFACE_INDEX },
        ControlRequest { request_type: vendor_request_type(false), request: FTDI_SIO_SET_BITMODE, value: BITMODE_RESET, index: FTDI_INTERFACE_INDEX },
        ControlRequest { request_type: vendor_request_type(false), request: FTDI_SIO_SET_BITMODE, value: BITMODE_MPSSE, index: FTDI_INTERFACE_INDEX },
    ]
}

/// The MPSSE sync probe for `cmd`: the bogus command byte and SEND_IMMEDIATE.
pub open spec fn sync_probe(cmd: u8) -> Seq<u8> {
    seq![cmd, MPSSE_SEND_IMMEDIATE]
}

/// The clock and pin configuration written after a successful sync: no
/// divide-by-5, no adaptive or three-phase clocking, low pins, high pins,
/// the 2.5 Mbit/s divisor (11) and no loopback.
pub open spec fn clock_command() -> Seq<u8> {
    seq![
        MPSSE_NO_CLK_DIV5,
        MPSSE_NO_ADAPTIVE_CLK,
        MPSSE_NO_3PHASE_CLK,
        MPSSE_SET_DATABITS_LOW,
        0x00u8,
        0x0Bu8,
        MPSSE_SET_DATABITS_HIGH,
        0x00u8,
        0x00u8,
        MPSSE_SET_CLK_DIVISOR,
        11u8,
        0x00u8,
        MPSSE_NO_LOOPBACK,
    ]
}

impl FtdiSession {
    /// `self` and `other` talk to the same endpoints with the same packet
    /// framing.
    pub open spec fn same_link(&self, other: &FtdiSession) -> bool {
        &&& self.endpoints == other.endpoints
        &&& self.expect_modem_status == other.expect_modem_status
    }
}

/// Issues one vendor control OUT request and records it.
fn control_out<H: UsbHandle>(handle: &mut H, session: &mut FtdiSession, request: u8, value: u16, index: u16) -> (r: Result<(), BitBabblerError>)
    ensures
        final(session).controls@ == old(session).controls@.push(ControlRequest { request_type: vendor_request_type(false), request, value, index }),
        final(session).endpoints == old(session).endpoints,
        final(session).expect_modem_status == old(session).expect_modem_status,
        final(session).line_status == old(session).line_status,
        final(session).chunk == old(session).chunk,
        final(session).chunk_head == old(session).chunk_head,
        final(session).received == old(session).received,
        final(session).delivered == old(session).delivered,
        final(session).transfers == old(session).transfers,
        final(session).origin == old(session).origin,
        final(session).reads == old(session).reads,
        final(session).init_failures == old(session).init_failures,
        final(session).rounds == old(session).rounds,
        final(session).modem_replies == old(session).modem_replies,
        final(session).commands == old(session).commands,
        extends(final(session).failures@, old(session).failures@),
        r matches Err(e) ==> met(final(session).failures@, old(session).failures@, e),
        r is Ok ==> final(session).failures == old(session).failures,
{
    proof {
        session.controls@ = session.controls@.push(ControlRequest { request_type: vendor_request_type(false), request, value, index });
    }
    let request_type = vendor_device_request_type(false);
    let r = handle.vendor_control_out(request_type, request, value, index);
    if let Err(e) = &r {
        proof {
            session.failures@ = session.failures@.push(*e);
        }
    }
    r
}

/// Resets the FTDI SIO.
pub fn ftdi_reset<H: UsbHandle>(handle: &mut H, session: &mut FtdiSession) -> (r: Result<(), BitBabblerError>)
    ensures
        final(session).controls@ == old(session).controls@.push(init_control_sequence(0)[0]),
        final(session).endpoints == old(session).endpoints,
        final(session).expect_modem_status == old(session).expect_modem_status,
        final(session).line_status == old(session).line_status,
        final(session).chunk == old(session).chunk,
        final(session).chunk_head == old(session).chunk_head,
        final(session).received == old(session).received,
        final(session).delivered == old(session).delivered,
        final(session).transfers == old(session).transfers,
        final(session).origin == old(session).origin,
        final(session).reads == old(session).reads,
        final(session).init_failures == old(session).init_failures,
        final(session).rounds == old(session).rounds,
        final(session).modem_replies == old(session).modem_replies,
        final(session).commands == old(session).commands,
        extends(final(session).failures@, old(session).failures@),
        r matches Err(e) ==> met(final(session).failures@, old(session).failures@, e),
{
    control_out(handle, session, FTDI_SIO_RESET, FTDI_SIO_RESET_SIO, FTDI_INTERFACE_INDEX)
}

/// Sets the FTDI bitmode: `mode` with the pin `mask` in its low byte.
pub fn ftdi_set_bitmode<H: UsbHandle>(handle: &mut H, session: &mut FtdiSession, mode: u16, mask: u8) -> (r: Result<(), BitBabblerError>)
    ensures
        final(session).controls@ == old(session).controls@.push(
            ControlRequest { request_type: vendor_request_type(false), request: FTDI_SIO_SET_BITMODE, value: mode | (mask as u16), index: FTDI_INTERFACE_INDEX },
        ),
        final(session).endpoints == old(session).endpoints,
        final(session).expect_modem_status == old(session).expect_modem_status,
        final(session).line_status == old(session).line_status,
        final(session).chunk == old(session).chunk,
        final(session).chunk_head == old(session).chunk_head,
        final(session).received == old(session).received,
        final(session).delivered == old(session).delivered,
        final(session).transfers == old(session).transfers,
        final(session).origin == old(session).origin,
        final(session).reads == old(session).reads,
        final(session).init_failures == old(session).init_failures,
        final(session).rounds == old(session).rounds,
        final(session).modem_replies == old(session).modem_replies,
        final(session).commands == old(session).commands,
        extends(final(session).failures@, old(session).failures@),
        r matches Err(e) ==> met(final(session).failures@, old(session).failures@, e),
{
    control_out(handle, session, FTDI_SIO_SET_BITMODE, mode | (mask as u16), FTDI_INTERFACE_INDEX)
}

/// Disables the event and error characters.
pub fn ftdi_set_special_chars<H: UsbHandle>(handle: &mut H, session: &mut FtdiSession) -> (r: Result<(), BitBabblerError>)
    ensures
        r is Ok ==> final(session).controls@ == old(session).controls@ + init_control_sequence(0).subrange(1, 3),
        r is Err ==> final(session).controls@.len() > old(session).controls@.len(),
        final(session).endpoints == old(session).endpoints,
        final(session).expect_modem_status == old(session).expect_modem_status,
        final(session).line_status == old(session).line_status,
        final(session).chunk == old(session).chunk,
        final(session).chunk_head == old(session).chunk_head,
        final(session).received == old(session).received,
        final(session).delivered == old(session).delivered,
        final(session).transfers == old(session).transfers,
        final(session).origin == old(session).origin,
        final(session).reads == old(session).reads,
        final(session).init_failures == old(session).init_failures,
        final(session).rounds == old(session).rounds,
        final(session).modem_replies == old(session).modem_replies,
        final(session).commands == old(session).commands,
        extends(final(session).failures@, old(session).failures@),
        r matches Err(e) ==> met(final(session).failures@, old(session).failures@, e),
{
    control_out(handle, session, FTDI_SIO_SET_EVENT_CHAR, 0, FTDI_INTERFACE_INDEX)?;
    let r = control_out(handle, session, FTDI_SIO_SET_ERROR_CHAR, 0, FTDI_INTERFACE_INDEX);
    assert(session.controls@ =~= old(session).controls@ + init_control_sequence(0).subrange(1, 3));
    r
}

/// Sets the FTDI latency timer.
pub fn ftdi_set_latency_timer<H: UsbHandle>(handle: &mut H, session: &mut FtdiSession, ms: u8) -> (r: Result<(), BitBabblerError>)
    ensures
        final(session).controls@ == old(session).controls@.push(init_control_sequence(ms)[3]),
        final(session).endpoints == old(session).endpoints,
        final(session).expect_modem_status == old(session).expect_modem_status,
        final(session).line_status == old(session).line_status,
        final(session).chunk == old(session).chunk,
        final(session).chunk_head == old(session).chunk_head,
        final(session).received == old(session).received,
        final(session).delivered == old(session).delivered,
        final(session).transfers == old(session).transfers,
        final(session).origin == old(session).origin,
        final(session).reads == old(session).reads,
        final(session).init_failures == old(session).init_failures,
        final(session).rounds == old(session).rounds,
        final(session).modem_replies == old(session).modem_replies,
        final(session).commands == old(session).commands,
        extends(final(session).failures@, old(session).failures@),
        r matches Err(e) ==> met(final(session).failures@, old(session).failures@, e),
{
    control_out(handle, session, FTDI_SIO_SET_LATENCY_TIMER, ms as u16, FTDI_INTERFACE_INDEX)
}

/// Enables RTS/CTS flow control; the flow mode is ORed into the index field.
pub fn ftdi_set_flow_control_rts_cts<H: UsbHandle>(handle: &mut H, session: &mut FtdiSession) -> (r: Result<(), BitBabblerError>)
    ensures
        final(session).controls@ == old(session).controls@.push(init_control_sequence(0)[4]),
        final(session).endpoints == old(session).endpoints,
        final(session).expect_modem_status == old(session).expect_modem_status,
        final(session).line_status == old(session).line_status,
        final(session).chunk == old(session).chunk,
        final(session).chunk_head == old(session).chunk_head,
        final(session).received == old(session).received,
        final(session).delivered == old(session).delivered,
        final(session).transfers == old(session).transfers,
        final(session).origin == old(session).origin,
        final(session).reads == old(session).reads,
        final(session).init_failures == old(session).init_failures,
        final(session).rounds == old(session).rounds,
        final(session).modem_replies == old(session).modem_replies,
        final(session).commands == old(session).commands,
        extends(final(session).failures@, old(session).failures@),
        r matches Err(e) ==> met(final(session).failures@, old(session).failures@, e),
{
    control_out(handle, session, FTDI_SIO_SET_FLOW_CTRL, 0, FLOW_RTS_CTS | FTDI_INTERFACE_INDEX)
}

/// What a GET_MODEM_STATUS answer gives: for exactly two bytes, the word
/// with the first byte high; otherwise a protocol violation.
pub open spec fn modem_word_of(bytes: Seq<u8>) -> Result<u16, BitBabblerError> {
    if bytes.len() == 2 {
        Ok((bytes[0] * 256 + bytes[1]) as u16)
    } else {
        Err(BitBabblerError::ProtocolViolation { operation: ProtocolOperation::GetModemStatusLen })
    }
}

/// The modem status word in a GET_MODEM_STATUS answer: exactly two bytes,
/// the first one high.
pub fn modem_status_word(bytes: &[u8]) -> (word: Result<u16, BitBabblerError>)
    ensures
        word == modem_word_of(bytes@),
        bytes@.len() == 2 ==> word == Ok::<u16, BitBabblerError>((bytes@[0] * 256 + bytes@[1]) as u16),
        bytes@.len() != 2 ==> word == Err::<u16, BitBabblerError>(
            BitBabblerError::ProtocolViolation { operation: ProtocolOperation::GetModemStatusLen },
        ),
{
    if bytes.len() != 2 {
        return Err(BitBabblerError::protocol(ProtocolOperation::GetModemStatusLen));
    }
    let hi = bytes[0];
    let lo = bytes[1];
    let word = (hi as u16) << 8 | (lo as u16);
    assert(word == hi * 256 + lo) by (bit_vector)
        requires word == (hi as u16) << 8 | (lo as u16);
    Ok(word)
}

/// Asks the FTDI for its modem status word with a vendor GET_MODEM_STATUS
/// request of two bytes; the answer is checked by [`modem_status_word`].
pub fn ftdi_get_modem_status<H: UsbHandle>(handle: &mut H, session: &mut FtdiSession) -> (r: Result<u16, BitBabblerError>)
    ensures
        final(session).endpoints == old(session).endpoints,
        final(session).expect_modem_status == old(session).expect_modem_status,
        final(session).line_status == old(session).line_status,
        final(session).chunk == old(session).chunk,
        final(session).chunk_head == old(session).chunk_head,
        final(session).received == old(session).received,
        final(session).delivered == old(session).delivered,
        final(session).transfers == old(session).transfers,
        final(session).origin == old(session).origin,
        final(session).reads == old(session).reads,
        final(session).init_failures == old(session).init_failures,
        final(session).rounds == old(session).rounds,
        final(session).controls == old(session).controls,
        final(session).commands == old(session).commands,
        extends(final(session).failures@, old(session).failures@),
        r matches Err(e) ==> met(final(session).failures@, old(session).failures@, e),
        extends(final(session).modem_replies@, old(session).modem_replies@),
        final(session).modem_replies@.len() <= old(session).modem_replies@.len() + 1,
        final(session).modem_replies@.len() == old(session).modem_replies@.len() + 1 ==> r == modem_word_of(
            final(session).modem_replies@[final(session).modem_replies@.len() - 1],
        ),
        r is Ok ==> final(session).modem_replies@.len() == old(session).modem_replies@.len() + 1,
{
    let request_type = vendor_device_request_type(true);
    let bytes = match handle.vendor_control_in(request_type, FTDI_SIO_GET_MODEM_STATUS, 0, FTDI_INTERFACE_INDEX, 2) {
        Ok(bytes) => bytes,
        Err(e) => {
            proof {
                session.failures@ = session.failures@.push(e);
            }
            return Err(e);
        },
    };
    proof {
        session.modem_replies@ = session.modem_replies@.push(bytes@);
    }
    let word = modem_status_word(bytes.as_slice());
    if let Err(e) = &word {
        proof {
            session.failures@ = session.failures@.push(*e);
        }
    }
    word
}

/// Writes all of `data` to the bulk OUT endpoint, in as many transfers as
/// the transport needs, and records it as one command.
pub fn write_all<H: UsbHandle>(handle: &mut H, session: &mut FtdiSession, data: &[u8]) -> (r: Result<(), BitBabblerError>)
    ensures
        final(session).commands@ == old(session).commands@.push(data@),
        final(session).endpoints == old(session).endpoints,
        final(session).expect_modem_status == old(session).expect_modem_status,
        final(session).line_status == old(session).line_status,
        final(session).chunk == old(session).chunk,
        final(session).chunk_head == old(session).chunk_head,
        final(session).received == old(session).received,
        final(session).delivered == old(session).delivered,
        final(session).transfers == old(session).transfers,
        final(session).origin == old(session).origin,
        final(session).reads == old(session).reads,
        final(session).init_failures == old(session).init_failures,
        final(session).rounds == old(session).rounds,
        final(session).modem_replies == old(session).modem_replies,
        final(session).controls == old(session).controls,
        extends(final(session).failures@, old(session).failures@),
        r matches Err(e) ==> met(final(session).failures@, old(session).failures@, e),
{
    proof {
        session.commands@ = session.commands@.push(data@);
    }
    let len = data.len();
    let mut offset: usize = 0;
    let ghost snap = *session;
    while offset < len
        invariant
            offset <= len == data@.len(),
            *session == snap,
            snap.commands@ == old(session).commands@.push(data@),
            snap.endpoints == old(session).endpoints,
            snap.expect_modem_status == old(session).expect_modem_status,
            snap.line_status == old(session).line_status,
            snap.chunk == old(session).chunk,
            snap.chunk_head == old(session).chunk_head,
            snap.received == old(session).received,
            snap.delivered == old(session).delivered,
            snap.controls == old(session).controls,
            snap.failures == old(session).failures,
            snap.transfers == old(session).transfers,
            snap.origin == old(session).origin,
            snap.reads == old(session).reads,
            snap.init_failures == old(session).init_failures,
            snap.rounds == old(session).rounds,
            snap.modem_replies == old(session).modem_replies,
        decreases len - offset,
    {
        let rest = vstd::slice::slice_subrange(data, offset, len);
        let n = match handle.bulk_write(session.endpoints.ep_out, rest) {
            Ok(n) => n,
            Err(e) => {
                proof {
                    session.failures@ = session.failures@.push(e);
                }
                return Err(e);
            },
        };
        if n == 0 {
            let e = BitBabblerError::protocol(ProtocolOperation::BulkWriteZero);
            proof {
                session.failures@ = session.failures@.push(e);
            }
            return Err(e);
        }
        if n >= len - offset {
            offset = len;
        } else {
            offset = offset + n;
        }
    }
    Ok(())
}

/// Drains whatever the device has queued on the bulk IN endpoint and drops
/// the buffered transfer. Stops after `FTDI_READ_RETRIES` consecutive
/// transfers with no data, or after `MAX_UNSOLICITED_TRANSFERS` transfers
/// with data; a timeout counts as an empty transfer. Returns how many bytes
/// carrying data were read.
pub fn purge_read<H: UsbHandle>(handle: &mut H, session: &mut FtdiSession) -> (r: Result<usize, BitBabblerError>)
    requires
        old(session).wf(),
    ensures
        final(session).wf(),
        final(session).same_link(&*old(session)),
        final(session).chunk@.len() == 0,
        final(session).chunk_head == 0,
        final(session).line_status == old(session).line_status,
        final(session).received == old(session).received,
        final(session).delivered == old(session).delivered,
        final(session).transfers == old(session).transfers,
        final(session).origin == old(session).origin,
        final(session).init_failures == old(session).init_failures,
        final(session).rounds == old(session).rounds,
        final(session).modem_replies == old(session).modem_replies,
        final(session).controls == old(session).controls,
        final(session).commands == old(session).commands,
        final(session).reads@.len() >= old(session).reads@.len(),
        final(session).reads@.take(old(session).reads@.len() as int) == old(session).reads@,
        extends(final(session).failures@, old(session).failures@),
        r matches Err(e) ==> met(final(session).failures@, old(session).failures@, e),
{
    assert(session.reads@.take(session.reads@.len() as int) =~= session.reads@);
    session.clear_chunk();
    let max_packet = session.endpoints.max_packet as usize;
    let buf_size = round_to_max_packet(8192, max_packet);
    let mut count: usize = 0;
    let mut empty_streak: u32 = 0;
    let mut busy_transfers: u32 = 0;
    let ghost mut snap = *session;
    while empty_streak < FTDI_READ_RETRIES && busy_transfers < MAX_UNSOLICITED_TRANSFERS
        invariant
            empty_streak <= FTDI_READ_RETRIES,
            busy_transfers <= MAX_UNSOLICITED_TRANSFERS,
            *session == snap,
            snap.wf(),
            snap.same_link(&*old(session)),
            snap.chunk@.len() == 0,
            snap.chunk_head == 0,
            snap.line_status == old(session).line_status,
            snap.received == old(session).received,
            snap.delivered == old(session).delivered,
            snap.controls == old(session).controls,
            snap.transfers == old(session).transfers,
            snap.origin == old(session).origin,
            snap.init_failures == old(session).init_failures,
            snap.rounds == old(session).rounds,
            snap.modem_replies == old(session).modem_replies,
            snap.commands == old(session).commands,
            snap.reads@.len() >= old(session).reads@.len(),
            snap.reads@.take(old(session).reads@.len() as int) == old(session).reads@,
            extends(snap.failures@, old(session).failures@),
        decreases MAX_UNSOLICITED_TRANSFERS - busy_transfers, FTDI_READ_RETRIES - empty_streak,
    {
        let n = match handle.bulk_read(session.endpoints.ep_in, buf_size) {
            Ok(bytes) => {
                proof {
                    session.reads@ = session.reads@.push((buf_size, bytes@));
                    assert(session.reads@.take(old(session).reads@.len() as int) =~= old(session).reads@);
                    snap = *session;
                }
                bytes.len()
            },
            Err(e) => {
                proof {
                    session.failures@ = session.failures@.push(e);
                    snap = *session;
                }
                match e {
                    BitBabblerError::TransferTimeout { .. } => 0,
                    _ => {
                        return Err(e);
                    },
                }
            },
        };
        if n > 2 {
            count = count.saturating_add(n);
            empty_streak = 0;
            busy_transfers = busy_transfers + 1;
        } else {
            empty_streak = empty_streak + 1;
        }
    }
    Ok(count)
}

/// A bulk transfer that answers the bogus command `cmd`: the two status
/// bytes, then `0xFA` ("bad command") and `cmd` itself.
pub open spec fn sync_echo(response: Seq<u8>, cmd: u8) -> bool {
    response.len() == 4 && response[2] == 0xFA && response[3] == cmd
}

/// Whether a bulk transfer is the MPSSE answer to the bogus command `cmd`.
pub fn is_sync_echo(response: &[u8], cmd: u8) -> (echo: bool)
    ensures
        echo == sync_echo(response@, cmd),
{
    response.len() == 4 && response[2] == 0xFA && response[3] == cmd
}

/// Sends the MPSSE sync probe `cmd` and waits for the device to answer that
/// command `cmd` is bogus (`0xFA` then `cmd` after the two status bytes).
///
/// Every transfer read is logged in `reads`. Gives `true` at the first
/// transfer that is the answer; gives `false`, with no answer among the
/// transfers read, after `FTDI_READ_RETRIES` consecutive transfers of at
/// most the two status bytes, or after `MAX_UNSOLICITED_TRANSFERS`
/// transfers with other data.
pub fn check_sync<H: UsbHandle>(handle: &mut H, session: &mut FtdiSession, cmd: u8) -> (r: Result<bool, BitBabblerError>)
    ensures
        final(session).commands@ == old(session).commands@.push(sync_probe(cmd)),
        final(session).endpoints == old(session).endpoints,
        final(session).expect_modem_status == old(session).expect_modem_status,
        final(session).line_status == old(session).line_status,
        final(session).chunk == old(session).chunk,
        final(session).chunk_head == old(session).chunk_head,
        final(session).received == old(session).received,
        final(session).delivered == old(session).delivered,
        final(session).transfers == old(session).transfers,
        final(session).origin == old(session).origin,
        final(session).init_failures == old(session).init_failures,
        final(session).rounds == old(session).rounds,
        final(session).modem_replies == old(session).modem_replies,
        final(session).controls == old(session).controls,
        final(session).reads@.len() >= old(session).reads@.len(),
        final(session).reads@.take(old(session).reads@.len() as int) == old(session).reads@,
        extends(final(session).failures@, old(session).failures@),
        r matches Err(e) ==> met(final(session).failures@, old(session).failures@, e),
        r is Err ==> forall|j: int|
            old(session).reads@.len() <= j < final(session).reads@.len() ==> !sync_echo(
                #[trigger] final(session).reads@[j].1,
                cmd,
            ),
        r == Ok::<bool, BitBabblerError>(true) ==> {
            let rd = final(session).reads@;
            &&& rd.len() > old(session).reads@.len()
            &&& sync_echo(rd[rd.len() - 1].1, cmd)
            &&& forall|j: int| old(session).reads@.len() <= j < rd.len() - 1 ==> !sync_echo(#[trigger] rd[j].1, cmd)
        },
        r == Ok::<bool, BitBabblerError>(false) ==> {
            let rd = final(session).reads@;
            let n0 = old(session).reads@.len();
            &&& forall|j: int| n0 <= j < rd.len() ==> !sync_echo(#[trigger] rd[j].1, cmd)
            &&& rd.len() >= n0 + MAX_UNSOLICITED_TRANSFERS || (rd.len() >= n0 + FTDI_READ_RETRIES && forall|j: int|
                rd.len() - FTDI_READ_RETRIES <= j < rd.len() ==> (#[trigger] rd[j].1).len() <= 2)
        },
{
    let msg = [cmd, MPSSE_SEND_IMMEDIATE];
    assert(msg@ =~= sync_probe(cmd));
    assert(session.reads@.take(session.reads@.len() as int) =~= session.reads@);
    write_all(handle, session, &msg)?;

    let mut empty_streak: u32 = 0;
    let mut busy_transfers: u32 = 0;
    let max_packet = session.endpoints.max_packet as usize;
    let buf_size = if max_packet > 512 { max_packet } else { 512 };
    let ghost reads0 = session.reads@;
    let ghost mut snap = *session;
    assert(snap.reads@.take(reads0.len() as int) =~= reads0);
    while empty_streak < FTDI_READ_RETRIES && busy_transfers < MAX_UNSOLICITED_TRANSFERS
        invariant
            empty_streak <= FTDI_READ_RETRIES,
            busy_transfers <= MAX_UNSOLICITED_TRANSFERS,
            *session == snap,
            snap.commands@ == old(session).commands@.push(sync_probe(cmd)),
            snap.endpoints == old(session).endpoints,
            snap.expect_modem_status == old(session).expect_modem_status,
            snap.line_status == old(session).line_status,
            snap.chunk == old(session).chunk,
            snap.chunk_head == old(session).chunk_head,
            snap.received == old(session).received,
            snap.delivered == old(session).delivered,
            snap.controls == old(session).controls,
            snap.transfers == old(session).transfers,
            snap.origin == old(session).origin,
            snap.init_failures == old(session).init_failures,
            snap.rounds == old(session).rounds,
            snap.modem_replies == old(session).modem_replies,
            reads0 == old(session).reads@,
            extends(snap.failures@, old(session).failures@),
            snap.reads@.len() >= reads0.len() + busy_transfers + empty_streak,
            snap.reads@.take(reads0.len() as int) == reads0,
            forall|j: int| reads0.len() <= j < snap.reads@.len() ==> !sync_echo(#[trigger] snap.reads@[j].1, cmd),
            forall|j: int|
                snap.reads@.len() - empty_streak <= j < snap.reads@.len() ==> (#[trigger] snap.reads@[j].1).len() <= 2,
        decreases MAX_UNSOLICITED_TRANSFERS - busy_transfers, FTDI_READ_RETRIES - empty_streak,
    {
        let buf = match handle.bulk_read(session.endpoints.ep_in, buf_size) {
            Ok(buf) => buf,
            Err(e) => {
                proof {
                    session.failures@ = session.failures@.push(e);
                }
                return Err(e);
            },
        };
        proof {
            session.reads@ = session.reads@.push((buf_size, buf@));
            assert(session.reads@.take(reads0.len() as int) =~= reads0);
        }
        let n = buf.len();
        if is_sync_echo(buf.as_slice(), cmd) {
            return Ok(true);
        }
        if n > 2 {
            empty_streak = 0;
            busy_transfers = busy_transfers + 1;
        } else {
            empty_streak = empty_streak + 1;
        }
        proof {
            snap = *session;
        }
    }
    Ok(false)
}

/// Brings the FTDI into MPSSE mode and checks that it answers the MPSSE
/// sync probes `0xAA` then `0xAB` (the pair is tried twice). Gives whether
/// the device is in sync.
pub fn init_mpsse<H: UsbHandle>(handle: &mut H, session: &mut FtdiSession) -> (r: Result<bool, BitBabblerError>)
    requires
        old(session).wf(),
    ensures
        final(session).wf(),
        final(session).same_link(&*old(session)),
        final(session).received == old(session).received,
        final(session).delivered == old(session).delivered,
        final(session).transfers == old(session).transfers,
        final(session).origin == old(session).origin,
        final(session).init_failures == old(session).init_failures,
        final(session).rounds == old(session).rounds,
        final(session).controls@.len() >= old(session).controls@.len(),
        final(session).commands@.len() >= old(session).commands@.len(),
        extends(final(session).commands@, old(session).commands@),
        extends(final(session).failures@, old(session).failures@),
        r matches Err(e) ==> met(final(session).failures@, old(session).failures@, e),
        extends(final(session).modem_replies@, old(session).modem_replies@),
        r is Ok ==> {
            let rp = final(session).modem_replies@;
            &&& rp.len() == old(session).modem_replies@.len() + 1
            &&& rp[rp.len() - 1].len() == 2
            &&& final(session).line_status == rp[rp.len() - 1][1]
        },
        r is Ok ==> {
            &&& final(session).controls@ == old(session).controls@ + init_control_sequence(
                latency_for(old(session).endpoints.max_packet) as u8,
            )
            &&& final(session).chunk@.len() == 0
            &&& final(session).chunk_head == 0
        },
        r == Ok::<bool, BitBabblerError>(true) ==> {
            let c = final(session).commands@;
            &&& c.len() >= old(session).commands@.len() + 2
            &&& c[c.len() - 2] == sync_probe(0xAA)
            &&& c[c.len() - 1] == sync_probe(0xAB)
        },
{
    let ghost c0 = session.controls@;
    ftdi_reset(handle, session)?;
    purge_read(handle, session)?;
    ftdi_set_special_chars(handle, session)?;
    let latency = latency_timer_ms(session.endpoints.max_packet);
    ftdi_set_latency_timer(handle, session, latency)?;
    ftdi_set_flow_control_rts_cts(handle, session)?;
    ftdi_set_bitmode(handle, session, BITMODE_RESET, 0)?;
    ftdi_set_bitmode(handle, session, BITMODE_MPSSE, 0)?;
    proof {
        assert(BITMODE_RESET | (0u8 as u16) == BITMODE_RESET) by (bit_vector);
        assert(BITMODE_MPSSE | (0u8 as u16) == BITMODE_MPSSE) by (bit_vector);
        assert(session.controls@ =~= c0 + init_control_sequence(latency));
    }
    handle.sleep_ms(MPSSE_SETTLE_MS);

    // Capture the line status baseline from the modem status word.
    let ms = ftdi_get_modem_status(handle, session)?;
    let line = (ms & 0xFF) as u8;
    proof {
        let rp = session.modem_replies@;
        let rep = rp[rp.len() - 1];
        assert(rep.len() == 2);
        let hi = rep[0];
        let lo = rep[1];
        assert(ms == hi * 256 + lo);
        assert(line == lo) by (bit_vector)
            requires ms == hi * 256 + lo, line == (ms & 0xFF) as u8;
    }
    session.line_status = line;

    // Sync AA and AB; allow one immediate retry of the pair.
    if check_sync(handle, session, 0xAA)? && check_sync(handle, session, 0xAB)? {
        return Ok(true);
    }
    let in_sync = check_sync(handle, session, 0xAA)? && check_sync(handle, session, 0xAB)?;
    Ok(in_sync)
}

/// One full initialization attempt: MPSSE mode and sync, then the clock and
/// pin configuration, then a purge of anything the device queued.
pub fn try_initialize_once<H: UsbHandle>(handle: &mut H, session: &mut FtdiSession) -> (r: Result<(), BitBabblerError>)
    requires
        old(session).wf(),
    ensures
        final(session).wf(),
        final(session).same_link(&*old(session)),
        final(session).received == old(session).received,
        final(session).delivered == old(session).delivered,
        final(session).transfers == old(session).transfers,
        final(session).origin == old(session).origin,
        final(session).init_failures == old(session).init_failures,
        final(session).rounds == old(session).rounds,
        final(session).controls@.len() >= old(session).controls@.len(),
        final(session).commands@.len() >= old(session).commands@.len(),
        extends(final(session).commands@, old(session).commands@),
        extends(final(session).failures@, old(session).failures@),
        r matches Err(e) ==> met(final(session).failures@, old(session).failures@, e),
        extends(final(session).modem_replies@, old(session).modem_replies@),
        r is Ok ==> {
            let rp = final(session).modem_replies@;
            &&& rp.len() > old(session).modem_replies@.len()
            &&& rp[rp.len() - 1].len() == 2
            &&& final(session).line_status == rp[rp.len() - 1][1]
        },
        r is Ok ==> {
            let c = final(session).commands@;
            &&& final(session).controls@ == old(session).controls@ + init_control_sequence(
                latency_for(old(session).endpoints.max_packet) as u8,
            )
            &&& c.len() >= old(session).commands@.len() + 3
            &&& c[c.len() - 3] == sync_probe(0xAA)
            &&& c[c.len() - 2] == sync_probe(0xAB)
            &&& c[c.len() - 1] == clock_command()
            &&& final(session).chunk@.len() == 0
            &&& final(session).chunk_head == 0
        },
{
    if !init_mpsse(handle, session)? {
        let e = BitBabblerError::protocol(ProtocolOperation::MpsseSync);
        proof {
            session.failures@ = session.failures@.push(e);
        }
        return Err(e);
    }
    let clk_div = clock_divisor();
    let pin_value = pin_value_byte();
    let pin_direction = pin_direction_byte();
    let div_lo = (clk_div & 0xFF) as u8;
    let div_hi = (clk_div >> 8) as u8;
    assert(div_lo == 11 && div_hi == 0) by (bit_vector)
        requires clk_div == 11u16, div_lo == (clk_div & 0xFF) as u8, div_hi == (clk_div >> 8) as u8;
    let cmd = [
        MPSSE_NO_CLK_DIV5,
        MPSSE_NO_ADAPTIVE_CLK,
        MPSSE_NO_3PHASE_CLK,
        MPSSE_SET_DATABITS_LOW,
        pin_value,
        pin_direction,
        MPSSE_SET_DATABITS_HIGH,
        0x00,
        0x00,
        MPSSE_SET_CLK_DIVISOR,
        div_lo,
        div_hi,
        MPSSE_NO_LOOPBACK,
    ];
    assert(cmd@ =~= clock_command());
    write_all(handle, session, &cmd)?;
    handle.sleep_ms(CLOCK_SETTLE_MS);
    purge_read(handle, session)?;
    Ok(())
}

/// What a failed initialization reports: a fatal USB failure as it is, or
/// [`BitBabblerError::InitializationFailed`] after the full retry budget,
/// carrying the last non-fatal cause.
pub open spec fn initialization_error(e: BitBabblerError) -> bool {
    ||| e.is_fatal_spec()
    ||| (e matches BitBabblerError::InitializationFailed { attempts, source }
        && attempts == FTDI_INIT_RETRIES && !source.is_fatal_spec())
}

/// Full device initialization: reset, MPSSE, sync, clock, pins; retried up
/// to `FTDI_INIT_RETRIES` times. Disconnect, permission and busy failures
/// abort at once.
pub fn initialize<H: UsbHandle>(handle: &mut H, session: &mut FtdiSession) -> (r: Result<(), BitBabblerError>)
    requires
        old(session).wf(),
    ensures
        final(session).wf(),
        final(session).same_link(&*old(session)),
        final(session).received == old(session).received,
        final(session).delivered == old(session).delivered,
        final(session).transfers == old(session).transfers,
        final(session).origin == old(session).origin,
        final(session).commands@.len() >= old(session).commands@.len(),
        extends(final(session).commands@, old(session).commands@),
        final(session).rounds == old(session).rounds,
        extends(final(session).failures@, old(session).failures@),
        r matches Err(e) ==> (e.is_fatal_spec() ==> met(final(session).failures@, old(session).failures@, e)),
        r matches Err(e) ==> traced(final(session).failures@, old(session).failures@, e),
        extends(final(session).modem_replies@, old(session).modem_replies@),
        r is Ok ==> {
            let rp = final(session).modem_replies@;
            &&& rp.len() > old(session).modem_replies@.len()
            &&& rp[rp.len() - 1].len() == 2
            &&& final(session).line_status == rp[rp.len() - 1][1]
        },
        match r {
            Ok(()) => {
                let ctl = final(session).controls@;
                let c = final(session).commands@;
                &&& ctl.len() >= old(session).controls@.len() + 7
                &&& ctl.skip(ctl.len() - 7) == init_control_sequence(
                    latency_for(old(session).endpoints.max_packet) as u8,
                )
                &&& c.len() >= old(session).commands@.len() + 3
                &&& c[c.len() - 3] == sync_probe(0xAA)
                &&& c[c.len() - 2] == sync_probe(0xAB)
                &&& c[c.len() - 1] == clock_command()
                &&& final(session).chunk@.len() == 0
                &&& final(session).chunk_head == 0
            },
            Err(e) => initialization_error(e),
        },
        ({
            let f = final(session).init_failures@.skip(old(session).init_failures@.len() as int);
            &&& final(session).init_failures@.len() >= old(session).init_failures@.len()
            &&& final(session).init_failures@.take(old(session).init_failures@.len() as int)
                == old(session).init_failures@
            &&& f.len() <= FTDI_INIT_RETRIES
            &&& forall|j: int| 0 <= j < f.len() - 1 ==> !(#[trigger] f[j]).is_fatal_spec()
            &&& match r {
                Ok(()) => f.len() < FTDI_INIT_RETRIES && (f.len() > 0 ==> !f[f.len() - 1].is_fatal_spec()),
                Err(e) => {
                    &&& f.len() >= 1
                    &&& if e.is_fatal_spec() {
                        e == f[f.len() - 1]
                    } else {
                        &&& f.len() == FTDI_INIT_RETRIES
                        &&& !f[f.len() - 1].is_fatal_spec()
                        &&& e == BitBabblerError::InitializationFailed {
                            attempts: FTDI_INIT_RETRIES,
                            source: Box::new(f[f.len() - 1]),
                        }
                    }
                },
            }
        }),
{
    let ghost fails0 = session.init_failures@;
    assert(fails0.take(fails0.len() as int) =~= fails0);
    let mut attempt: u32 = 1;
    loop
        invariant
            1 <= attempt <= FTDI_INIT_RETRIES,
            session.wf(),
            session.same_link(&*old(session)),
            session.received == old(session).received,
            session.delivered == old(session).delivered,
            session.transfers == old(session).transfers,
            session.origin == old(session).origin,
            old(session).wf(),
            session.commands@.len() >= old(session).commands@.len(),
            extends(session.commands@, old(session).commands@),
            session.rounds == old(session).rounds,
            extends(session.failures@, old(session).failures@),
            extends(session.modem_replies@, old(session).modem_replies@),
            session.controls@.len() >= old(session).controls@.len(),
            fails0 == old(session).init_failures@,
            session.init_failures@.len() == fails0.len() + attempt - 1,
            session.init_failures@.take(fails0.len() as int) == fails0,
            forall|j: int|
                fails0.len() <= j < session.init_failures@.len() ==> !(#[trigger] session.init_failures@[j]).is_fatal_spec(),
        decreases FTDI_INIT_RETRIES - attempt,
    {
        let ghost ctl_before = session.controls@;
        match try_initialize_once(handle, session) {
            Ok(()) => {
                proof {
                    let ctl = session.controls@;
                    assert(ctl.skip(ctl.len() - 7) =~= init_control_sequence(
                        latency_for(old(session).endpoints.max_packet) as u8,
                    ));
                }
                proof {
                    let f = session.init_failures@.skip(fails0.len() as int);
                    assert forall|j: int| 0 <= j < f.len() implies !(#[trigger] f[j]).is_fatal_spec() by {
                        assert(f[j] == session.init_failures@[fails0.len() + j]);
                    }
                }
                return Ok(());
            },
            Err(e) => {
                proof {
                    session.init_failures@ = session.init_failures@.push(e);
                    assert(session.init_failures@.take(fails0.len() as int) =~= fails0);
                    let f = session.init_failures@.skip(fails0.len() as int);
                    assert forall|j: int| 0 <= j < f.len() - 1 implies !(#[trigger] f[j]).is_fatal_spec() by {
                        assert(f[j] == session.init_failures@[fails0.len() + j]);
                    }
                    assert(f[f.len() - 1] == e);
                }
                match e {
                    BitBabblerError::DeviceDisconnected => {
                        return Err(BitBabblerError::DeviceDisconnected);
                    },
                    BitBabblerError::PermissionDenied => {
                        return Err(BitBabblerError::PermissionDenied);
                    },
                    BitBabblerError::DeviceBusy => {
                        return Err(BitBabblerError::DeviceBusy);
                    },
                    _ => {},
                }
                session.clear_chunk();
                if attempt == FTDI_INIT_RETRIES {
                    return Err(BitBabblerError::initialization_failed(FTDI_INIT_RETRIES, e));
                }
                attempt = attempt + 1;
            },
        }
    }
}

/// Best-effort return of the FTDI to reset bitmode, as when a handle is
/// closed; failures are ignored.
pub fn reset_bitmode_best_effort<H: UsbHandle>(handle: &mut H, session: &mut FtdiSession)
    requires
        old(session).wf(),
    ensures
        final(session).wf(),
        final(session).same_link(&*old(session)),
        final(session).chunk@.len() == 0,
        final(session).chunk_head == 0,
        final(session).received == old(session).received,
        final(session).delivered == old(session).delivered,
        final(session).transfers == old(session).transfers,
        final(session).origin == old(session).origin,
        final(session).init_failures == old(session).init_failures,
        final(session).rounds == old(session).rounds,
        final(session).modem_replies == old(session).modem_replies,
        final(session).commands == old(session).commands,
        final(session).controls@ == old(session).controls@ + seq![
            init_control_sequence(0)[5],
            init_control_sequence(0)[0],
        ],
{
    let _ = purge_read(handle, session);
    let _ = ftdi_set_bitmode(handle, session, BITMODE_RESET, 0);
    let _ = ftdi_reset(handle, session);
    session.clear_chunk();
    proof {
        assert(BITMODE_RESET | (0u8 as u16) == BITMODE_RESET) by (bit_vector);
        assert(session.controls@ =~= old(session).controls@ + seq![
            init_control_sequence(0)[5],
            init_control_sequence(0)[0],
        ]);
    }
}

/// Reserves room for exactly `additional` more bytes, without aborting on
/// allocation failure.
///
/// Calls `Vec::try_reserve_exact`. Claimed: the contents are left as they
/// are, and success means the vector can hold `additional` more bytes, so
/// its length plus `additional` is at most `isize::MAX` (std's capacity
/// limit for bytes); a request for no more room always succeeds, since std
/// documents that the call does nothing when the capacity already suffices.
/// Whether the allocator grants any other request is not stated.
#[verifier::external_body]
pub(crate) fn try_reserve_exact_bytes(v: &mut Vec<u8>, additional: usize) -> (granted: bool)
    ensures
        final(v)@ == old(v)@,
        granted ==> old(v)@.len() + additional <= isize::MAX,
        additional == 0 ==> granted,
{
    v.try_reserve_exact(additional).is_ok()
}

/// `8 * nbytes`, saturating at `usize::MAX`: the bit length reported when a
/// buffer of `nbytes` cannot be reserved.
pub fn bit_count(nbytes: usize) -> (bits: usize)
    ensures
        bits == if nbytes * 8 <= usize::MAX { nbytes * 8 } else { usize::MAX as int },
{
    if nbytes > usize::MAX / 8 {
        usize::MAX
    } else {
        nbytes * 8
    }
}

/// A bulk transfer that is more than its two status bytes carries at least
/// one entropy byte, at position 2.
proof fn lemma_fresh_transfer_has_payload(chunk: Seq<u8>, end: int, max_packet: int)
    requires
        3 <= end <= chunk.len(),
        max_packet > 2,
    ensures
        payload_between(chunk, 0, end, max_packet).len() >= 1,
{
    vstd::arithmetic::div_mod::lemma_small_mod(0, max_packet as nat);
    vstd::arithmetic::div_mod::lemma_small_mod(1, max_packet as nat);
    vstd::arithmetic::div_mod::lemma_small_mod(2, max_packet as nat);
    assert(payload_between(chunk, 0, end, max_packet) == payload_between(chunk, 1, end, max_packet));
    assert(payload_between(chunk, 1, end, max_packet) == payload_between(chunk, 2, end, max_packet));
    assert(payload_between(chunk, 2, end, max_packet) == seq![chunk[2]] + payload_between(chunk, 3, end, max_packet));
}

/// A bulk IN request size for a packet size: a whole number of packets, at
/// least one, and at most one MPSSE read command's worth plus a packet.
pub open spec fn bulk_request_ok(request: int, max_packet: int) -> bool {
    &&& request % max_packet == 0
    &&& max_packet <= request <= MAX_MPSSE_READ_BYTES + max_packet
}

/// A multiple of `m` within `[x, x + m)` is `x` itself when `x` is one.
proof fn lemma_round_fixed(x: int, r: int, m: int)
    requires
        m > 0,
        x % m == 0,
        r % m == 0,
        x <= r < x + m,
    ensures
        r == x,
{
    vstd::arithmetic::div_mod::lemma_fundamental_div_mod(x, m);
    vstd::arithmetic::div_mod::lemma_fundamental_div_mod(r, m);
    let qx = x / m;
    let qr = r / m;
    assert(qx <= qr < qx + 1) by (nonlinear_arith)
        requires x == m * qx, r == m * qr, x <= r < x + m, m > 0;
}

/// Takes up to `need` entropy bytes into `out`: first from the buffered
/// transfer, then from fresh bulk transfers sized to whole packets, until
/// `need` bytes are taken, a transfer ends part-way through the buffer, or a
/// transfer brings no entropy. Gives how many bytes were taken.
///
/// Every bulk transfer read is logged in `reads`; one that carries entropy
/// is also logged in `transfers`, so the session's framing invariant ties
/// every byte taken to a payload position of a transfer. Fewer than `need`
/// bytes are taken only after a transfer of at most the two status bytes; a
/// status-only transfer has its status checked and its line status kept.
pub fn ftdi_read_payload<H: UsbHandle>(handle: &mut H, session: &mut FtdiSession, need: usize, out: &mut Vec<u8>) -> (r: Result<usize, BitBabblerError>)
    requires
        old(session).wf(),
        1 <= need <= MAX_MPSSE_READ_BYTES,
    ensures
        final(session).wf(),
        final(session).same_link(&*old(session)),
        final(session).delivered == old(session).delivered,
        final(session).origin == old(session).origin,
        final(session).init_failures == old(session).init_failures,
        final(session).rounds == old(session).rounds,
        final(session).modem_replies == old(session).modem_replies,
        final(session).controls == old(session).controls,
        final(session).commands == old(session).commands,
        final(session).received@.len() >= old(session).received@.len(),
        final(session).received@.take(old(session).received@.len() as int) == old(session).received@,
        final(out)@ == old(out)@ + final(session).received@.skip(old(session).received@.len() as int),
        r matches Ok(k) ==> k <= need && k == final(session).received@.len() - old(session).received@.len(),
        final(session).reads@.len() >= old(session).reads@.len(),
        extends(final(session).failures@, old(session).failures@),
        r matches Err(e) ==> met(final(session).failures@, old(session).failures@, e),
        final(session).rounds == old(session).rounds,
        final(session).modem_replies == old(session).modem_replies,
        ({
            let w = drain_walk(
                old(session).chunk@,
                old(session).chunk_head as int,
                old(session).packet_size(),
                old(session).expect_modem_status,
                need as nat,
                old(session).line_status,
            );
            (old(session).chunk_head < old(session).chunk@.len() && w.error is None && (w.data.len() == need
                || w.end < old(session).chunk@.len())) ==> r == Ok::<usize, BitBabblerError>(w.data.len() as usize)
                && final(session).reads == old(session).reads
        }),
        final(session).reads@.take(old(session).reads@.len() as int) == old(session).reads@,
        forall|i: int|
            old(session).reads@.len() <= i < final(session).reads@.len() ==> bulk_request_ok(
                #[trigger] final(session).reads@[i].0 as int,
                old(session).packet_size(),
            ),
        r matches Ok(k) && k < need ==> {
            let rd = final(session).reads@;
            let last = rd[rd.len() - 1].1;
            &&& rd.len() > old(session).reads@.len()
            &&& last.len() <= 2
            &&& last.len() == 2 ==> final(session).line_status == last[1] && status_bytes_check(
                old(session).expect_modem_status,
                last[0],
                last[1],
            ) is Ok
        },
{
    let ghost out0 = out@;
    let ghost recv0 = session.received@;
    let ghost reads0 = session.reads@;
    let ghost s0 = *session;
    let ghost w0 = drain_walk(
        s0.chunk@,
        s0.chunk_head as int,
        s0.packet_size(),
        s0.expect_modem_status,
        need as nat,
        s0.line_status,
    );
    let ghost served = s0.chunk_head < s0.chunk@.len() && w0.error is None && (w0.data.len() == need || w0.end
        < s0.chunk@.len());
    let mut copied: usize = 0;
    assert(out@ =~= out0 + session.received@.skip(recv0.len() as int));
    if session.chunk_remaining() > 0 {
        let drained = drain_chunk(session, need, out);
        proof {
            let w = drain_walk(s0.chunk@, s0.chunk_head as int, s0.packet_size(), s0.expect_modem_status, need as nat, s0.line_status);
            lemma_drain_yields_payload_only(s0.chunk@, s0.chunk_head as int, s0.packet_size(), s0.expect_modem_status, need as nat, s0.line_status);
            assert(session.received@.skip(recv0.len() as int) =~= w.data);
            assert(session.reads@.take(reads0.len() as int) =~= reads0);
        }
        let n = drained?;
        copied = n;
        if copied == need || session.chunk_remaining() > 0 {
            return Ok(copied);
        }
    }
    assert(session.reads@.take(reads0.len() as int) =~= reads0);
    loop
        invariant
            session.wf(),
            session.same_link(&s0),
            s0.same_link(&*old(session)),
            session.delivered == old(session).delivered,
            session.origin == old(session).origin,
            session.init_failures == old(session).init_failures,
            !served,
            served == (s0.chunk_head < s0.chunk@.len() && w0.error is None && (w0.data.len() == need || w0.end
                < s0.chunk@.len())),
            s0 == *old(session),
            w0 == drain_walk(
                old(session).chunk@,
                old(session).chunk_head as int,
                old(session).packet_size(),
                old(session).expect_modem_status,
                need as nat,
                old(session).line_status,
            ),
            extends(session.failures@, old(session).failures@),
            session.rounds == old(session).rounds,
            session.modem_replies == old(session).modem_replies,
            session.rounds == old(session).rounds,
            session.modem_replies == old(session).modem_replies,
            session.controls == old(session).controls,
            session.commands == old(session).commands,
            recv0 == old(session).received@,
            reads0 == old(session).reads@,
            out0 == old(out)@,
            1 <= need <= MAX_MPSSE_READ_BYTES,
            copied < need,
            session.received@.len() == recv0.len() + copied,
            session.received@.take(recv0.len() as int) == recv0,
            out@ == out0 + session.received@.skip(recv0.len() as int),
            session.reads@.len() >= reads0.len(),
            session.reads@.take(reads0.len() as int) == reads0,
            forall|i: int|
                reads0.len() <= i < session.reads@.len() ==> bulk_request_ok(
                    #[trigger] session.reads@[i].0 as int,
                    s0.packet_size(),
                ),
        decreases need - copied,
    {
        let max_packet = session.endpoints.max_packet as usize;
        let want = need - copied;
        let request = round_to_max_packet(want + 2, max_packet);
        let request = if request < MAX_MPSSE_READ_BYTES + max_packet {
            request
        } else {
            MAX_MPSSE_READ_BYTES + max_packet
        };
        let ghost capped = request;
        let request = round_to_max_packet(if request > max_packet { request } else { max_packet }, max_packet);
        proof {
            let mp = max_packet as int;
            assert(mp == 64 || mp == 512);
            assert(65536int % 64 == 0 && 65536int % 512 == 0);
            assert(64int % 64 == 0 && 512int % 512 == 0);
            let x = if capped > max_packet { capped as int } else { mp };
            if capped == MAX_MPSSE_READ_BYTES + max_packet {
                vstd::arithmetic::div_mod::lemma_mod_adds(65536, mp, mp);
                vstd::arithmetic::div_mod::lemma_mod_self_0(mp);
            }
            if x == mp {
                vstd::arithmetic::div_mod::lemma_mod_self_0(mp);
            }
            lemma_round_fixed(x, request as int, mp);
            assert(bulk_request_ok(request as int, s0.packet_size()));
        }

        let buf = match handle.bulk_read(session.endpoints.ep_in, request) {
            Ok(buf) => buf,
            Err(e) => {
                proof {
                    session.failures@ = session.failures@.push(e);
                }
                return Err(e);
            },
        };
        proof {
            session.reads@ = session.reads@.push((request, buf@));
            assert(session.reads@.take(reads0.len() as int) =~= reads0);
        }
        let xfer = buf.len();
        if xfer < 2 {
            return Ok(copied);
        }
        if xfer == 2 {
            let checked = validate_status_bytes(session, buf[0], buf[1]);
            if let Err(e) = checked {
                proof {
                    session.failures@ = session.failures@.push(e);
                }
                return Err(e);
            }
            session.line_status = buf[1];
            return Ok(copied);
        }

        let ghost s_before = *session;
        session.chunk = buf;
        session.chunk_head = 0;
        proof {
            reveal(framing);
            let t = s_before.transfers@;
            let t2 = t.push((session.chunk@, 0int));
            assert(t2.drop_last() =~= t);
            assert(payload_between(session.chunk@, 0, 0, session.packet_size()) =~= Seq::<u8>::empty());
            assert(payload_log(t2, session.packet_size()) =~= payload_log(t, session.packet_size()));
            session.transfers@ = t2;
            assert forall|i: int| 0 <= i < t2.len() implies 0 <= #[trigger] t2[i].1 <= t2[i].0.len() by {
                if i < t.len() {
                    assert(t2[i] == t[i]);
                }
            }
        }
        let ghost s1 = *session;
        let ghost out1 = out@;
        let ghost recv1 = session.received@;
        let drained = drain_chunk(session, want, out);
        proof {
            let w = drain_walk(s1.chunk@, 0, s1.packet_size(), s1.expect_modem_status, want as nat, s1.line_status);
            lemma_drain_yields_payload_only(s1.chunk@, 0, s1.packet_size(), s1.expect_modem_status, want as nat, s1.line_status);
            if w.end == s1.chunk@.len() && w.error is None {
                lemma_fresh_transfer_has_payload(s1.chunk@, w.end, s1.packet_size());
            }
            assert(session.received@.skip(recv0.len() as int) =~= recv1.skip(recv0.len() as int) + w.data);
            assert(session.received@.take(recv0.len() as int) =~= recv0);
        }
        let n = drained?;
        assert(n >= 1);
        copied = copied + n;
        if copied == need || session.chunk_remaining() > 0 {
            return Ok(copied);
        }
    }
}

/// Reads exactly `len` entropy bytes (status framing stripped) into `out`
/// with one MPSSE read command, appending them after what `out` holds.
///
/// Empty transfers are retried up to `FTDI_READ_RETRIES` times in a row; an
/// incomplete read discards what it took, re-initializes the device and
/// reissues the command, up to `FTDI_INIT_RETRIES` times. A complete read
/// must leave nothing buffered and a final line status of exactly THRE|TEMT.
///
/// Each round is logged in `rounds` and each failure met in `failures`; the
/// result follows from them: the verdict of a complete last round, giving
/// up after `FTDI_INIT_RETRIES` incomplete ones, or the last failure met.
/// With no failure met and rounds that accept, the read succeeds.
pub fn read_exact_raw_into<H: UsbHandle>(handle: &mut H, session: &mut FtdiSession, len: usize, out: &mut Vec<u8>) -> (r: Result<(), BitBabblerError>)
    requires
        old(session).wf(),
        old(out)@.len() + MAX_MPSSE_READ_BYTES <= usize::MAX,
    ensures
        final(session).wf(),
        final(session).same_link(&*old(session)),
        final(out)@.len() >= old(out)@.len(),
        final(out)@.take(old(out)@.len() as int) == old(out)@,
        (len == 0 || len > MAX_MPSSE_READ_BYTES) ==> {
            &&& r == Err::<(), BitBabblerError>(
                BitBabblerError::ProtocolViolation { operation: ProtocolOperation::MpsseReadLength },
            )
            &&& final(out)@ == old(out)@
            &&& *final(session) == *old(session)
        },
        match r {
            Ok(()) => {
                let got = final(out)@.skip(old(out)@.len() as int);
                let recv = final(session).received@;
                let c = final(session).commands@;
                &&& 1 <= len <= MAX_MPSSE_READ_BYTES
                &&& final(out)@.len() == old(out)@.len() + len
                &&& recv.len() >= len
                &&& got == recv.skip(recv.len() - len)
                &&& final(session).delivered@ == old(session).delivered@ + got
                &&& final(session).line_status == LINE_STATUS_OK_MASK
                &&& final(session).chunk_head == final(session).chunk@.len()
                &&& c.len() > 0
                &&& c[c.len() - 1] == read_command_bytes(len as int)
            },
            Err(_) => {
                &&& final(session).delivered == old(session).delivered
                &&& final(out)@ == old(out)@
            },
        },
        final(session).received@.len() >= old(session).received@.len(),
        final(session).received@.take(old(session).received@.len() as int) == old(session).received@,
        extends(final(session).commands@, old(session).commands@),
        1 <= len <= MAX_MPSSE_READ_BYTES ==> {
            &&& final(session).commands@.len() > old(session).commands@.len()
            &&& final(session).commands@[old(session).commands@.len() as int] == read_command_bytes(len as int)
        },
        extends(final(session).failures@, old(session).failures@),
        extends(final(session).rounds@, old(session).rounds@),
        forall|j: int|
            old(session).rounds@.len() <= j < final(session).rounds@.len() ==> (#[trigger] final(session).rounds@[j]).wanted
                == len,
        (1 <= len <= MAX_MPSSE_READ_BYTES && r is Err) ==> final(session).chunk@.len() == 0,
        1 <= len <= MAX_MPSSE_READ_BYTES ==> ({
            let rs = final(session).rounds@.skip(old(session).rounds@.len() as int);
            &&& rs.len() <= FTDI_INIT_RETRIES
            &&& forall|j: int| 0 <= j < rs.len() ==> (#[trigger] rs[j]).wanted == len
            &&& forall|j: int| 0 <= j < rs.len() - 1 ==> !round_complete(#[trigger] rs[j])
            &&& (rs.len() > 0 && round_complete(rs[rs.len() - 1])) ==> r == round_verdict(rs[rs.len() - 1])
            &&& (rs.len() == FTDI_INIT_RETRIES && !round_complete(rs[rs.len() - 1])) ==> r == Err::<(), BitBabblerError>(
                BitBabblerError::ReadRetriesExhausted { attempts: FTDI_INIT_RETRIES },
            )
            &&& r matches Err(e) ==> traced(final(session).failures@, old(session).failures@, e) || read_decided(rs, e)
            &&& r is Ok ==> rs.len() > 0 && round_complete(rs[rs.len() - 1])
            &&& (final(session).failures@.len() == old(session).failures@.len() && rounds_accept(rs)) ==> r is Ok
        }),
{
    assert(session.received@.take(session.received@.len() as int) =~= session.received@);
    if len == 0 || len > MAX_MPSSE_READ_BYTES {
        return Err(BitBabblerError::protocol(ProtocolOperation::MpsseReadLength));
    }
    let ghost out0 = out@;
    let start_len = out.len();
    let target = start_len + len;
    let cmd = mpsse_read_command(len);

    let mut reset_attempts: u32 = 0;
    loop
        invariant
            session.wf(),
            session.same_link(&*old(session)),
            session.delivered == old(session).delivered,
            out0 == old(out)@,
            start_len == out0.len(),
            target == start_len + len,
            1 <= len <= MAX_MPSSE_READ_BYTES,
            out0.len() + MAX_MPSSE_READ_BYTES <= usize::MAX,
            cmd@ == read_command_bytes(len as int),
            out@ == out0,
            reset_attempts < FTDI_INIT_RETRIES,
            old(session).wf(),
            session.origin == old(session).origin,
            extends(session.commands@, old(session).commands@),
            reset_attempts == 0 ==> session.commands == old(session).commands,
            reset_attempts > 0 ==> {
                &&& session.commands@.len() > old(session).commands@.len()
                &&& session.commands@[old(session).commands@.len() as int] == read_command_bytes(len as int)
            },
            session.received@.len() >= old(session).received@.len(),
            session.received@.take(old(session).received@.len() as int) == old(session).received@,
            extends(session.failures@, old(session).failures@),
            extends(session.rounds@, old(session).rounds@),
            session.rounds@.len() == old(session).rounds@.len() + reset_attempts,
            forall|j: int|
                old(session).rounds@.len() <= j < session.rounds@.len() ==> (#[trigger] session.rounds@[j]).wanted == len
                    && !round_complete(session.rounds@[j]),
        decreases FTDI_INIT_RETRIES - reset_attempts,
    {
        if let Err(e) = write_all(handle, session, &cmd) {
            session.clear_chunk();
            return Err(e);
        }
        let ghost recv_a = session.received@;
        let ghost rounds_a = session.rounds@;

        let mut empty_streak: u32 = 0;
        while out.len() < target
            invariant_except_break
                empty_streak < FTDI_READ_RETRIES,
            invariant
                session.wf(),
                session.same_link(&*old(session)),
                session.delivered == old(session).delivered,
                session.commands@.len() > 0,
                session.commands@[session.commands@.len() - 1] == read_command_bytes(len as int),
                target == start_len + len,
                start_len == out0.len(),
                out0 == old(out)@,
                1 <= len <= MAX_MPSSE_READ_BYTES,
                out0.len() + MAX_MPSSE_READ_BYTES <= usize::MAX,
                start_len <= out@.len() <= target,
                out@.take(start_len as int) == out0,
                session.received@.len() >= recv_a.len(),
                out@.skip(start_len as int) == session.received@.skip(recv_a.len() as int),
                session.origin == old(session).origin,
                extends(session.commands@, old(session).commands@),
                session.commands@.len() > old(session).commands@.len(),
                session.commands@[old(session).commands@.len() as int] == read_command_bytes(len as int),
                recv_a.len() >= old(session).received@.len(),
                session.received@.take(recv_a.len() as int) == recv_a,
                recv_a.take(old(session).received@.len() as int) == old(session).received@,
                extends(session.failures@, old(session).failures@),
                session.rounds@ == rounds_a,
                rounds_a.len() == old(session).rounds@.len() + reset_attempts,
                extends(rounds_a, old(session).rounds@),
                forall|j: int|
                    old(session).rounds@.len() <= j < rounds_a.len() ==> (#[trigger] rounds_a[j]).wanted == len
                        && !round_complete(rounds_a[j]),
                reset_attempts < FTDI_INIT_RETRIES,
            ensures
                session.wf(),
                session.same_link(&*old(session)),
                session.delivered == old(session).delivered,
                session.commands@.len() > 0,
                session.commands@[session.commands@.len() - 1] == read_command_bytes(len as int),
                start_len <= out@.len() <= target,
                out@.take(start_len as int) == out0,
                session.received@.len() >= recv_a.len(),
                out@.skip(start_len as int) == session.received@.skip(recv_a.len() as int),
                session.origin == old(session).origin,
                extends(session.commands@, old(session).commands@),
                session.commands@.len() > old(session).commands@.len(),
                session.commands@[old(session).commands@.len() as int] == read_command_bytes(len as int),
                recv_a.len() >= old(session).received@.len(),
                session.received@.take(recv_a.len() as int) == recv_a,
                recv_a.take(old(session).received@.len() as int) == old(session).received@,
                extends(session.failures@, old(session).failures@),
                session.rounds@ == rounds_a,
                rounds_a.len() == old(session).rounds@.len() + reset_attempts,
                extends(rounds_a, old(session).rounds@),
                forall|j: int|
                    old(session).rounds@.len() <= j < rounds_a.len() ==> (#[trigger] rounds_a[j]).wanted == len
                        && !round_complete(rounds_a[j]),
                reset_attempts < FTDI_INIT_RETRIES,
            decreases target - out@.len(), FTDI_READ_RETRIES - empty_streak,
        {
            let need = target - out.len();
            let ghost out_b = out@;
            let ghost recv_b = session.received@;
            let payload = ftdi_read_payload(handle, session, need, out);
            proof {
                assert(session.received@.take(recv_a.len() as int) =~= recv_b.take(recv_a.len() as int));
                assert(out@.take(start_len as int) =~= out0);
                assert(session.received@.skip(recv_a.len() as int) =~= recv_b.skip(recv_a.len() as int) + session.received@.skip(recv_b.len() as int));
                assert(out@.skip(start_len as int) =~= out_b.skip(start_len as int) + session.received@.skip(recv_b.len() as int));
            }
            let got = match payload {
                Ok(got) => got,
                Err(e) => {
                    out.truncate(start_len);
                    session.clear_chunk();
                    assert(out@ =~= out0);
                    proof {
                        assert(session.received@.take(old(session).received@.len() as int) =~= recv_a.take(
                            old(session).received@.len() as int,
                        ));
                    }
                    return Err(e);
                },
            };
            if got > 0 {
                empty_streak = 0;
            } else {
                empty_streak = empty_streak + 1;
                if empty_streak >= FTDI_READ_RETRIES {
                    break;
                }
            }
        }

        proof {
            let old_len = old(session).received@.len() as int;
            assert(session.received@.take(old_len) =~= recv_a.take(old_len)) by {
                assert(session.received@.take(recv_a.len() as int).take(old_len) =~= session.received@.take(old_len));
            }
        }
        let ghost round = ReadRound {
            wanted: len,
            gathered: (out.len() - start_len) as usize,
            leftover: (session.chunk.len() - session.chunk_head) as usize,
            line_status: session.line_status,
        };
        proof {
            session.rounds@ = session.rounds@.push(round);
            let rs = session.rounds@.skip(old(session).rounds@.len() as int);
            assert forall|j: int| 0 <= j < rs.len() - 1 implies !round_complete(#[trigger] rs[j]) && rs[j].wanted == len by {
                assert(rs[j] == rounds_a[old(session).rounds@.len() + j]);
            }
            assert(rs[rs.len() - 1] == round);
        }
        if out.len() == target {
            // No leftover readahead, and the final line status must be
            // exactly THRE|TEMT (not merely free of bad bits).
            if session.chunk_remaining() != 0 {
                out.truncate(start_len);
                session.clear_chunk();
                assert(out@ =~= out0);
                return Err(BitBabblerError::protocol(ProtocolOperation::ExcessPayload));
            }
            if session.line_status != LINE_STATUS_OK_MASK {
                out.truncate(start_len);
                session.clear_chunk();
                assert(out@ =~= out0);
                return Err(BitBabblerError::protocol(ProtocolOperation::IncompleteLineStatus));
            }
            proof {
                let got = out@.skip(start_len as int);
                let recv = session.received@;
                assert(got.len() == len);
                assert(recv.skip(recv_a.len() as int).len() == len);
                assert(recv.skip(recv.len() - len) =~= recv.skip(recv_a.len() as int));
                let d0 = session.delivered@;
                let o0 = session.origin@;
                let base = recv_a.len() as int;
                let o1 = o0 + Seq::new(len as nat, |i: int| base + i);
                session.delivered@ = d0 + got;
                session.origin@ = o1;
                assert(out@ =~= out0 + got);
                reveal(framing);
                let old_len = old(session).received@.len() as int;
                assert(recv.take(old_len) =~= old(session).received@) by {
                    assert(recv.take(base).take(old_len) =~= recv.take(old_len));
                }
                assert forall|i: int| 0 <= i < o1.len() implies 0 <= #[trigger] o1[i] < recv.len()
                    && session.delivered@[i] == recv[o1[i]] by {
                    if i < o0.len() {
                        assert(o1[i] == o0[i]);
                        assert(o0 == old(session).origin@);
                        assert(picked_from(d0, o0, old(session).received@));
                        assert(0 <= o0[i] < old_len);
                        assert(recv[o0[i]] == recv.take(old_len)[o0[i]]);
                    } else {
                        assert(o1[i] == base + (i - o0.len()));
                        assert(got.len() == len);
                        assert(got[i - o0.len()] == recv.skip(base)[i - o0.len()]);
                    }
                }
                assert forall|i: int, j: int| 0 <= i < j < o1.len() implies #[trigger] o1[i] < #[trigger] o1[j] by {
                    if j < o0.len() {
                    } else if i < o0.len() {
                        assert(o1[i] == o0[i]);
                    } else {
                    }
                }
            }
            return Ok(());
        }

        // Incomplete: discard, reissue after re-initialization.
        out.truncate(start_len);
        session.clear_chunk();
        assert(out@ =~= out0);
        reset_attempts = reset_attempts + 1;
        if reset_attempts >= FTDI_INIT_RETRIES {
            return Err(BitBabblerError::ReadRetriesExhausted { attempts: reset_attempts });
        }
        if let Err(e) = initialize(handle, session) {
            session.clear_chunk();
            return Err(e);
        }
    }
}

/// Reads exactly `len` entropy bytes with one MPSSE read command into a new
/// buffer; on failure nothing read is kept. As for [`read_exact_raw_into`],
/// the result follows from the rounds and failures logged.
pub fn read_exact_raw<H: UsbHandle>(handle: &mut H, session: &mut FtdiSession, len: usize) -> (r: Result<Vec<u8>, BitBabblerError>)
    requires
        old(session).wf(),
    ensures
        final(session).wf(),
        final(session).same_link(&*old(session)),
        (len == 0 || len > MAX_MPSSE_READ_BYTES) ==> r == Err::<Vec<u8>, BitBabblerError>(
            BitBabblerError::ProtocolViolation { operation: ProtocolOperation::MpsseReadLength },
        ),
        r matches Ok(v) ==> {
            &&& v@.len() == len
            &&& final(session).delivered@ == old(session).delivered@ + v@
            &&& final(session).received@.len() >= len
            &&& v@ == final(session).received@.skip(final(session).received@.len() - len)
        },
        r is Err ==> final(session).delivered == old(session).delivered,
        r is Err ==> final(session).chunk@.len() == 0 || (final(session).chunk == old(session).chunk
            && final(session).chunk_head == old(session).chunk_head),
        extends(final(session).failures@, old(session).failures@),
        extends(final(session).rounds@, old(session).rounds@),
        ({
            let rs = final(session).rounds@.skip(old(session).rounds@.len() as int);
            &&& forall|j: int| 0 <= j < rs.len() ==> 1 <= (#[trigger] rs[j]).wanted <= MAX_MPSSE_READ_BYTES
            &&& r matches Err(e) ==> (len == 0 || len > MAX_MPSSE_READ_BYTES) || traced(
                final(session).failures@,
                old(session).failures@,
                e,
            ) || read_decided(rs, e)
        }),
        1 <= len <= MAX_MPSSE_READ_BYTES ==> ({
            let rs = final(session).rounds@.skip(old(session).rounds@.len() as int);
            &&& (rs.len() > 0 && round_complete(rs[rs.len() - 1])) ==> ((r is Ok <==> round_verdict(rs[rs.len() - 1]) is Ok)
                && (r matches Err(e) ==> round_verdict(rs[rs.len() - 1]) == Err::<(), BitBabblerError>(e)))
            &&& (rs.len() == FTDI_INIT_RETRIES && !round_complete(rs[rs.len() - 1])) ==> r == Err::<Vec<u8>, BitBabblerError>(
                BitBabblerError::ReadRetriesExhausted { attempts: FTDI_INIT_RETRIES },
            )
            &&& r is Ok ==> rs.len() > 0 && round_complete(rs[rs.len() - 1])
            &&& (final(session).failures@.len() == old(session).failures@.len() && rounds_accept(rs)) ==> r is Ok
        }),
{
    if len == 0 || len > MAX_MPSSE_READ_BYTES {
        assert(session.rounds@.skip(session.rounds@.len() as int).len() == 0);
        return Err(BitBabblerError::protocol(ProtocolOperation::MpsseReadLength));
    }
    let mut out: Vec<u8> = Vec::new();
    if !try_reserve_exact_bytes(&mut out, len) {
        let e = BitBabblerError::AllocationFailed { requested_bits: bit_count(len) };
        proof {
            session.failures@ = session.failures@.push(e);
            assert(session.rounds@.skip(old(session).rounds@.len() as int).len() == 0);
        }
        return Err(e);
    }
    match read_exact_raw_into(handle, session, len, &mut out) {
        Ok(()) => {
            assert(out@.skip(0) =~= out@);
            Ok(out)
        },
        Err(e) => {
            out.clear();
            session.clear_chunk();
            Err(e)
        },
    }
}

/// Reads exactly `nbytes` entropy bytes, in MPSSE commands of at most
/// `MAX_MPSSE_READ_BYTES` (the commands of [`read_plan`]); on failure
/// nothing read is kept, and with no failure met and rounds that accept
/// the read succeeds.
pub fn read_raw_bytes<H: UsbHandle>(handle: &mut H, session: &mut FtdiSession, nbytes: usize) -> (r: Result<Vec<u8>, BitBabblerError>)
    requires
        old(session).wf(),
    ensures
        final(session).wf(),
        final(session).same_link(&*old(session)),
        final(session).delivered@.len() >= old(session).delivered@.len(),
        final(session).delivered@.take(old(session).delivered@.len() as int) == old(session).delivered@,
        r matches Ok(v) ==> {
            &&& v@.len() == nbytes
            &&& final(session).delivered@ == old(session).delivered@ + v@
        },
        r is Err && nbytes <= MAX_MPSSE_READ_BYTES ==> final(session).delivered == old(session).delivered,
        nbytes == 0 ==> (r matches Ok(v) && v@.len() == 0 && *final(session) == *old(session)),
        r is Err ==> final(session).chunk@.len() == 0 || (final(session).chunk == old(session).chunk
            && final(session).chunk_head == old(session).chunk_head),
        old(session).chunk_head == old(session).chunk@.len() ==> final(session).chunk_head == final(session).chunk@.len(),
        extends(final(session).failures@, old(session).failures@),
        extends(final(session).rounds@, old(session).rounds@),
        forall|j: int|
            old(session).rounds@.len() <= j < final(session).rounds@.len() ==> 1
                <= (#[trigger] final(session).rounds@[j]).wanted <= MAX_MPSSE_READ_BYTES,
        ({
            let rs = final(session).rounds@.skip(old(session).rounds@.len() as int);
            &&& r matches Err(e) ==> traced(final(session).failures@, old(session).failures@, e) || read_decided(rs, e)
            &&& r is Ok ==> completed_reads(rs) == read_plan(nbytes as nat)
            &&& (final(session).failures@.len() == old(session).failures@.len() && rounds_accept(rs)) ==> r is Ok
        }),
{
    let mut out: Vec<u8> = Vec::new();
    if !try_reserve_exact_bytes(&mut out, nbytes) {
        assert(session.delivered@.take(session.delivered@.len() as int) =~= session.delivered@);
        let e = BitBabblerError::AllocationFailed { requested_bits: bit_count(nbytes) };
        proof {
            session.failures@ = session.failures@.push(e);
            assert(session.rounds@.skip(old(session).rounds@.len() as int).len() == 0);
        }
        return Err(e);
    }
    let mut remaining = nbytes;
    assert(completed_reads(session.rounds@.skip(session.rounds@.len() as int)) + read_plan(nbytes as nat)
        =~= read_plan(nbytes as nat));
    while remaining > 0
        invariant
            session.wf(),
            session.same_link(&*old(session)),
            out@.len() + remaining == nbytes,
            nbytes <= MAX_MPSSE_READ_BYTES ==> out@.len() == 0 || remaining == 0,
            nbytes <= isize::MAX,
            session.delivered@ == old(session).delivered@ + out@,
            nbytes == 0 ==> *session == *old(session),
            old(session).chunk_head == old(session).chunk@.len() ==> session.chunk_head == session.chunk@.len(),
            extends(session.failures@, old(session).failures@),
            extends(session.rounds@, old(session).rounds@),
            forall|j: int|
                old(session).rounds@.len() <= j < session.rounds@.len() ==> 1 <= (#[trigger] session.rounds@[j]).wanted
                    <= MAX_MPSSE_READ_BYTES,
            completed_reads(session.rounds@.skip(old(session).rounds@.len() as int)) + read_plan(remaining as nat)
                == read_plan(nbytes as nat),
        decreases remaining,
    {
        let chunk = if remaining < MAX_MPSSE_READ_BYTES { remaining } else { MAX_MPSSE_READ_BYTES };
        let ghost before = out@;
        let ghost rounds_b = session.rounds@;
        let ghost fails_b = session.failures@;
        let res = read_exact_raw_into(handle, session, chunk, &mut out);
        proof {
            let rs = session.rounds@.skip(old(session).rounds@.len() as int);
            let rc = session.rounds@.skip(rounds_b.len() as int);
            if let Err(e) = &res {
                if read_decided(rc, *e) {
                    assert(rc =~= rs.skip(rounds_b.len() - old(session).rounds@.len()));
                    lemma_read_decided_suffix(rs, rounds_b.len() - old(session).rounds@.len(), *e);
                }
            }
        }
        match res {
            Ok(()) => {
                assert(out@ =~= before + out@.skip(before.len() as int));
                assert(session.delivered@ =~= old(session).delivered@ + out@);
                proof {
                    let r0 = old(session).rounds@.len() as int;
                    let done = rounds_b.skip(r0);
                    let rc = session.rounds@.skip(rounds_b.len() as int);
                    assert(session.rounds@.skip(r0) =~= done + rc);
                    lemma_completed_reads_single(rc);
                    lemma_completed_reads_append(done, rc);
                    let rest = read_plan((remaining - chunk) as nat);
                    assert(read_plan(remaining as nat) =~= seq![chunk as int] + rest);
                    assert(completed_reads(done) + seq![chunk as int] + rest =~= completed_reads(done) + (
                    seq![chunk as int] + rest));
                }
            },
            Err(e) => {
                out.clear();
                session.clear_chunk();
                assert(session.delivered@.take(old(session).delivered@.len() as int) =~= old(session).delivered@);
                return Err(e);
            },
        }
        remaining = remaining - chunk;
    }
    assert(session.delivered@.take(old(session).delivered@.len() as int) =~= old(session).delivered@);
    Ok(out)
}

} // verus!
