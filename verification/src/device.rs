//! Device selection, the device handle, and the random data API.

use std::ops::Range;
use vstd::prelude::*;
use vstd::string::StringExecFns;
use crate::error::BitBabblerError;
use crate::fold::{fold_segments, xor_into_at, Fold};
use crate::policy::{MAX_MPSSE_READ_BYTES, MAX_RANGE_SAMPLES, PRODUCT_BLACK, PRODUCT_WHITE, USB_INTERFACE};
use crate::protocol::{
    self, bit_count, extends, framing, initialization_error, lemma_read_decided_suffix, read_decided, traced, ReadRound, lemma_payload_log_sources, payload_log, picked_from, sent_as_payload,
    try_reserve_exact_bytes, FtdiSession, completed_reads, read_plan, lemma_completed_reads_append,
    lemma_completed_reads_single, rounds_accept, init_control_sequence,
    modem_status_for,
};
use crate::transport::{EndpointConfig, EnumeratedDevice, UsbBackend, UsbHandle};

verus! {

/// BitBabbler hardware variant identified by the USB product string.
#[derive(Debug, Clone, Copy, PartialEq, Eq, Hash, Structural)]
pub enum DeviceVariant {
    /// TNRG BitBabbler White (`White RNG`).
    White,
    /// TNRG BitBabbler Black (`Black RNG`).
    Black,
}

/// Snapshot of a recognized BitBabbler device.
#[derive(Debug, PartialEq, Eq)]
#[non_exhaustive]
pub struct DeviceInfo {
    /// Hardware variant.
    pub variant: DeviceVariant,
    /// USB serial number string.
    pub serial: String,
    /// USB product string.
    pub product: String,
    /// USB bus number at enumeration time.
    pub bus_number: u8,
    /// USB device address at enumeration time.
    pub device_address: u8,
}

impl Clone for DeviceInfo {
    fn clone(&self) -> (copy: Self)
        ensures
            copy == *self,
    {
        DeviceInfo {
            variant: self.variant,
            serial: self.serial.clone(),
            product: self.product.clone(),
            bus_number: self.bus_number,
            device_address: self.device_address,
        }
    }
}

/// The variant a product string names: `White RNG` and `Black RNG` are the
/// only recognized products.
pub open spec fn variant_of(product: Seq<char>) -> Option<DeviceVariant> {
    if product == PRODUCT_WHITE@ {
        Some(DeviceVariant::White)
    } else if product == PRODUCT_BLACK@ {
        Some(DeviceVariant::Black)
    } else {
        None
    }
}

/// Classifies a product string: the variant it names, or `None` for an
/// unsupported product.
pub fn classify_product(product: &String) -> (variant: Option<DeviceVariant>)
    ensures
        variant == variant_of(product@),
{
    let white = String::from_str(PRODUCT_WHITE);
    let black = String::from_str(PRODUCT_BLACK);
    if *product == white {
        Some(DeviceVariant::White)
    } else if *product == black {
        Some(DeviceVariant::Black)
    } else {
        None
    }
}

/// The metadata of an enumerated device of a recognized product: its
/// variant, serial, product, bus and address.
pub open spec fn device_info_of(dev: EnumeratedDevice) -> DeviceInfo {
    DeviceInfo {
        variant: variant_of(dev.product@)->0,
        serial: dev.serial,
        product: dev.product,
        bus_number: dev.bus_number,
        device_address: dev.device_address,
    }
}

/// The metadata of a recognized device is what its enumeration gave, field
/// for field: its serial, product, bus number and device address unchanged,
/// and the variant its product string names.
pub proof fn lemma_device_info_keeps_fields(dev: EnumeratedDevice)
    requires
        variant_of(dev.product@) is Some,
    ensures
        ({
            let info = device_info_of(dev);
            &&& variant_of(dev.product@) == Some(info.variant)
            &&& info.serial == dev.serial
            &&& info.product == dev.product
            &&& info.bus_number == dev.bus_number
            &&& info.device_address == dev.device_address
        }),
{
}

/// The metadata of an enumerated device; an unrecognized product is refused.
pub fn device_info_from_enumerated(dev: &EnumeratedDevice) -> (info: Result<DeviceInfo, BitBabblerError>)
    ensures
        variant_of(dev.product@) is None ==> info == Err::<DeviceInfo, BitBabblerError>(
            BitBabblerError::UnsupportedProduct { product: dev.product },
        ),
        variant_of(dev.product@) is Some ==> info == Ok::<DeviceInfo, BitBabblerError>(device_info_of(*dev)),
        info matches Ok(i) ==> {
            &&& variant_of(dev.product@) == Some(i.variant)
            &&& i.serial == dev.serial
            &&& i.product == dev.product
            &&& i.bus_number == dev.bus_number
            &&& i.device_address == dev.device_address
        },
{
    let variant = match classify_product(&dev.product) {
        Some(v) => v,
        None => {
            return Err(BitBabblerError::UnsupportedProduct { product: dev.product.clone() });
        },
    };
    Ok(DeviceInfo {
        variant,
        serial: dev.serial.clone(),
        product: dev.product.clone(),
        bus_number: dev.bus_number,
        device_address: dev.device_address,
    })
}

/// Index of the first device at or after `from` whose product is not
/// recognized.
pub open spec fn first_unsupported(devs: Seq<EnumeratedDevice>, from: int) -> Option<int>
    decreases devs.len() - from,
{
    if from < 0 || from >= devs.len() {
        None
    } else if variant_of(devs[from].product@) is None {
        Some(from)
    } else {
        first_unsupported(devs, from + 1)
    }
}

/// With no unsupported product from `from` on, every device from there on
/// has a recognized product.
proof fn lemma_first_unsupported_none(devs: Seq<EnumeratedDevice>, from: int, j: int)
    requires
        0 <= from <= j < devs.len(),
        first_unsupported(devs, from) is None,
    ensures
        variant_of(devs[j].product@) is Some,
    decreases j - from,
{
    if from < j {
        lemma_first_unsupported_none(devs, from + 1, j);
    }
}

/// Keeps the recognized devices of an enumeration; the first device with
/// the BitBabbler VID:PID and an unrecognized product fails the whole
/// enumeration with [`BitBabblerError::UnsupportedProduct`].
pub fn recognized_candidates(enumerated: Vec<EnumeratedDevice>) -> (candidates: Result<Vec<EnumeratedDevice>, BitBabblerError>)
    ensures
        match first_unsupported(enumerated@, 0) {
            Some(i) => candidates == Err::<Vec<EnumeratedDevice>, BitBabblerError>(
                BitBabblerError::UnsupportedProduct { product: enumerated@[i].product },
            ),
            None => candidates matches Ok(v) && v@ == enumerated@,
        },
{
    let mut out: Vec<EnumeratedDevice> = Vec::new();
    let mut i: usize = 0;
    while i < enumerated.len()
        invariant
            i <= enumerated@.len(),
            out@ == enumerated@.take(i as int),
            first_unsupported(enumerated@, 0) == first_unsupported(enumerated@, i as int),
        decreases enumerated@.len() - i,
    {
        let dev = enumerated[i].clone();
        match classify_product(&dev.product) {
            Some(_) => {
                out.push(dev);
            },
            None => {
                return Err(BitBabblerError::UnsupportedProduct { product: dev.product });
            },
        }
        i = i + 1;
        assert(out@ =~= enumerated@.take(i as int));
    }
    assert(enumerated@.take(i as int) =~= enumerated@);
    Ok(out)
}

/// The device that opening "the only device" selects from an enumeration:
/// an unsupported product fails first; then zero recognized devices is
/// [`BitBabblerError::NoDevice`], one is selected, and more is
/// [`BitBabblerError::MultipleDevices`].
pub fn select_single(enumerated: Vec<EnumeratedDevice>) -> (selected: Result<EnumeratedDevice, BitBabblerError>)
    ensures
        match first_unsupported(enumerated@, 0) {
            Some(i) => selected == Err::<EnumeratedDevice, BitBabblerError>(
                BitBabblerError::UnsupportedProduct { product: enumerated@[i].product },
            ),
            None => if enumerated@.len() == 0 {
                selected == Err::<EnumeratedDevice, BitBabblerError>(BitBabblerError::NoDevice)
            } else if enumerated@.len() == 1 {
                selected == Ok::<EnumeratedDevice, BitBabblerError>(enumerated@[0])
            } else {
                selected == Err::<EnumeratedDevice, BitBabblerError>(
                    BitBabblerError::MultipleDevices { count: enumerated@.len() as usize },
                )
            },
        },
{
    let candidates = recognized_candidates(enumerated)?;
    let n = candidates.len();
    if n == 0 {
        Err(BitBabblerError::NoDevice)
    } else if n == 1 {
        Ok(candidates[0].clone())
    } else {
        Err(BitBabblerError::MultipleDevices { count: n })
    }
}

/// What selecting by serial gives, scanning the enumeration in order from
/// `from`: the first recognized device whose serial equals `serial`,
/// unless a device with that serial and an unrecognized product comes
/// before it, in which case the last such product is refused; with no
/// match at all, [`BitBabblerError::DeviceNotFound`].
pub open spec fn serial_selection(
    devs: Seq<EnumeratedDevice>,
    serial: Seq<char>,
    from: int,
    unsupported: Option<String>,
) -> Result<EnumeratedDevice, Option<String>>
    decreases devs.len() - from,
{
    if from < 0 || from >= devs.len() {
        Err(unsupported)
    } else if devs[from].serial@ != serial {
        serial_selection(devs, serial, from + 1, unsupported)
    } else if variant_of(devs[from].product@) is None {
        serial_selection(devs, serial, from + 1, Some(devs[from].product))
    } else {
        match unsupported {
            Some(p) => Err(Some(p)),
            None => Ok(devs[from]),
        }
    }
}

/// The device that opening by serial selects from an enumeration. An empty
/// serial is refused as [`BitBabblerError::MissingSerial`].
pub fn select_by_serial(enumerated: Vec<EnumeratedDevice>, serial: &str) -> (selected: Result<EnumeratedDevice, BitBabblerError>)
    ensures
        serial@.len() == 0 ==> selected == Err::<EnumeratedDevice, BitBabblerError>(BitBabblerError::MissingSerial),
        serial@.len() > 0 ==> match serial_selection(enumerated@, serial@, 0, None) {
            Ok(dev) => selected == Ok::<EnumeratedDevice, BitBabblerError>(dev),
            Err(Some(product)) => selected == Err::<EnumeratedDevice, BitBabblerError>(
                BitBabblerError::UnsupportedProduct { product },
            ),
            Err(None) => selected matches Err(BitBabblerError::DeviceNotFound { serial: s }) && s@ == serial@,
        },
{
    if serial.is_empty() {
        return Err(BitBabblerError::MissingSerial);
    }
    let wanted = String::from_str(serial);
    let mut found_unsupported: Option<String> = None;
    let mut i: usize = 0;
    while i < enumerated.len()
        invariant
            i <= enumerated@.len(),
            wanted@ == serial@,
            serial@.len() > 0,
            serial_selection(enumerated@, serial@, 0, None) == serial_selection(
                enumerated@,
                serial@,
                i as int,
                found_unsupported,
            ),
        decreases enumerated@.len() - i,
    {
        if enumerated[i].serial == wanted {
            match classify_product(&enumerated[i].product) {
                None => {
                    found_unsupported = Some(enumerated[i].product.clone());
                },
                Some(_) => {
                    if let Some(product) = found_unsupported {
                        return Err(BitBabblerError::UnsupportedProduct { product });
                    }
                    return Ok(enumerated[i].clone());
                },
            }
        }
        i = i + 1;
    }
    if let Some(product) = found_unsupported {
        return Err(BitBabblerError::UnsupportedProduct { product });
    }
    Err(BitBabblerError::DeviceNotFound { serial: wanted })
}

/// The metadata of every device of an enumeration, in order; an
/// unrecognized product fails the whole listing.
pub fn device_infos(enumerated: Vec<EnumeratedDevice>) -> (infos: Result<Vec<DeviceInfo>, BitBabblerError>)
    ensures
        match first_unsupported(enumerated@, 0) {
            Some(i) => infos == Err::<Vec<DeviceInfo>, BitBabblerError>(
                BitBabblerError::UnsupportedProduct { product: enumerated@[i].product },
            ),
            None => infos matches Ok(v) && v@ == enumerated@.map_values(|d: EnumeratedDevice| device_info_of(d)),
        },
        infos matches Ok(v) ==> {
            &&& v@.len() == enumerated@.len()
            &&& forall|j: int|
                0 <= j < v@.len() ==> {
                    let (i, d) = (#[trigger] v@[j], enumerated@[j]);
                    &&& variant_of(d.product@) == Some(i.variant)
                    &&& i.serial == d.serial
                    &&& i.product == d.product
                    &&& i.bus_number == d.bus_number
                    &&& i.device_address == d.device_address
                }
        },
{
    let mut out: Vec<DeviceInfo> = Vec::new();
    let mut i: usize = 0;
    while i < enumerated.len()
        invariant
            i <= enumerated@.len(),
            first_unsupported(enumerated@, 0) == first_unsupported(enumerated@, i as int),
            out@ == enumerated@.take(i as int).map_values(|d: EnumeratedDevice| device_info_of(d)),
        decreases enumerated@.len() - i,
    {
        let info = device_info_from_enumerated(&enumerated[i])?;
        out.push(info);
        i = i + 1;
        assert(out@ =~= enumerated@.take(i as int).map_values(|d: EnumeratedDevice| device_info_of(d)));
    }
    assert(enumerated@.take(i as int) =~= enumerated@);
    proof {
        assert forall|j: int| 0 <= j < out@.len() implies variant_of(enumerated@[j].product@) is Some by {
            lemma_first_unsupported_none(enumerated@, 0, j);
        }
    }
    Ok(out)
}

/// The unsigned value of 8 bytes read least significant first.
pub open spec fn le_u64(b: Seq<u8>) -> int {
    b[0] + 0x100 * b[1] + 0x1_0000 * b[2] + 0x100_0000 * b[3] + 0x1_0000_0000 * b[4] + 0x100_0000_0000 * b[5]
        + 0x1_0000_0000_0000 * b[6] + 0x100_0000_0000_0000 * b[7]
}

/// The little-endian reading of 8 bytes is a `u64` whose bytes, least
/// significant first, are those 8 bytes, each counted in full: byte `i` is
/// `(value / 256^i) % 256`, and the top byte is `value / 2^56`.
pub proof fn lemma_le_u64_bytes(b: Seq<u8>)
    requires
        b.len() == 8,
    ensures
        0 <= le_u64(b) <= u64::MAX,
        le_u64(b) % 0x100 == b[0],
        (le_u64(b) / 0x100) % 0x100 == b[1],
        (le_u64(b) / 0x1_0000) % 0x100 == b[2],
        (le_u64(b) / 0x100_0000) % 0x100 == b[3],
        (le_u64(b) / 0x1_0000_0000) % 0x100 == b[4],
        (le_u64(b) / 0x100_0000_0000) % 0x100 == b[5],
        (le_u64(b) / 0x1_0000_0000_0000) % 0x100 == b[6],
        le_u64(b) / 0x100_0000_0000_0000 == b[7],
{
    let x0 = b[0] as u64;
    let x1 = b[1] as u64;
    let x2 = b[2] as u64;
    let x3 = b[3] as u64;
    let x4 = b[4] as u64;
    let x5 = b[5] as u64;
    let x6 = b[6] as u64;
    let x7 = b[7] as u64;
    assert({
        let v = x0 + 0x100 * x1 + 0x1_0000 * x2 + 0x100_0000 * x3 + 0x1_0000_0000 * x4 + 0x100_0000_0000 * x5
            + 0x1_0000_0000_0000 * x6 + 0x100_0000_0000_0000 * x7;
        &&& v <= 0xffff_ffff_ffff_ffff
        &&& v % 0x100 == x0
        &&& (v / 0x100) % 0x100 == x1
        &&& (v / 0x1_0000) % 0x100 == x2
        &&& (v / 0x100_0000) % 0x100 == x3
        &&& (v / 0x1_0000_0000) % 0x100 == x4
        &&& (v / 0x100_0000_0000) % 0x100 == x5
        &&& (v / 0x1_0000_0000_0000) % 0x100 == x6
        &&& v / 0x100_0000_0000_0000 == x7
    }) by (bit_vector)
        requires
            x0 < 0x100,
            x1 < 0x100,
            x2 < 0x100,
            x3 < 0x100,
            x4 < 0x100,
            x5 < 0x100,
            x6 < 0x100,
            x7 < 0x100,
    ;
}

/// Different 8-byte sequences read as different values: the little-endian
/// reading loses no byte.
pub proof fn lemma_le_u64_injective(a: Seq<u8>, b: Seq<u8>)
    requires
        a.len() == 8,
        b.len() == 8,
        le_u64(a) == le_u64(b),
    ensures
        a == b,
{
    lemma_le_u64_bytes(a);
    lemma_le_u64_bytes(b);
    assert(a =~= b);
}

/// The `j`-th 8-byte sample of a raw byte stream.
pub open spec fn sample_at(raw: Seq<u8>, j: int) -> int {
    le_u64(raw.subrange(8 * j, 8 * j + 8))
}

/// Interprets 8 bytes as a little-endian `u64`.
pub fn u64_from_le_bytes(bytes: &Vec<u8>) -> (value: u64)
    requires
        bytes@.len() == 8,
    ensures
        value == le_u64(bytes@),
{
    (bytes[0] as u64) + 0x100 * (bytes[1] as u64) + 0x1_0000 * (bytes[2] as u64) + 0x100_0000 * (bytes[3] as u64)
        + 0x1_0000_0000 * (bytes[4] as u64) + 0x100_0000_0000 * (bytes[5] as u64) + 0x1_0000_0000_0000 * (
    bytes[6] as u64) + 0x100_0000_0000_0000 * (bytes[7] as u64)
}

/// The rejection threshold for a span: `2^64 mod span`. Samples below it
/// are rejected, so the accepted samples `[threshold, 2^64)` are a whole
/// number of runs of `span` consecutive values.
pub open spec fn rejection_threshold(span: int) -> int {
    0x1_0000_0000_0000_0000int % span
}

/// The law that makes `random_range` unbiased: the accepted samples
/// `[threshold, 2^64)` are a whole number of runs of `span` consecutive
/// values, so `sample % span` takes every value of `0..span` equally often
/// among them; the threshold is below `span`, so fewer than `span` of the
/// `2^64` samples are ever rejected.
pub proof fn lemma_rejection_sampling_is_unbiased(span: int)
    requires
        1 <= span <= 0xFFFF_FFFF_FFFF_FFFF,
    ensures
        0 <= rejection_threshold(span) < span,
        (0x1_0000_0000_0000_0000int - rejection_threshold(span)) % span == 0,
{
    let m = 0x1_0000_0000_0000_0000int;
    vstd::arithmetic::div_mod::lemma_fundamental_div_mod(m, span);
    vstd::arithmetic::div_mod::lemma_mod_bound(m, span);
    let q = m / span;
    assert(m - m % span == q * span) by (nonlinear_arith)
        requires m == span * q + m % span;
    vstd::arithmetic::div_mod::lemma_mod_multiples_basic(q, span);
}

/// Synchronous handle to a single open BitBabbler White or Black device.
///
/// Operations that consume entropy take `&mut self`. On disconnect or a
/// reset that invalidates the USB handle, methods return a typed error and
/// the consumer must open a new instance.
pub struct BitBabbler<H: UsbHandle> {
    handle: H,
    session: FtdiSession,
    info: DeviceInfo,
    /// The interfaces released through `handle`, in order.
    released: Ghost<Seq<u8>>,
}

impl<H: UsbHandle> BitBabbler<H> {
    /// The handle's FTDI session is well formed.
    pub closed spec fn wf(&self) -> bool {
        &&& self.session.wf()
        &&& self.session.chunk_head == self.session.chunk@.len()
    }

    /// Every failure met talking to the device, in order.
    pub closed spec fn failures(&self) -> Seq<BitBabblerError> {
        self.session.failures@
    }

    /// Every round of an exact read, in order.
    pub closed spec fn rounds(&self) -> Seq<ReadRound> {
        self.session.rounds@
    }

    /// The interfaces released through the device handle, in order.
    pub closed spec fn released(&self) -> Seq<u8> {
        self.released@
    }

    /// Nothing went wrong since `before`: no failure was met (no transport
    /// error, bad status byte or refused allocation) and the exact-read
    /// rounds ended well (the last one gathered everything, with no
    /// read-ahead left and a final line status of THRE|TEMT).
    pub open spec fn clean_read(before: Self, after: Self) -> bool {
        &&& after.failures().len() == before.failures().len()
        &&& rounds_accept(after.rounds().skip(before.rounds().len() as int))
    }

    /// `e` is explained by what happened since `before`: the last failure
    /// met (or an initialization that gave up on it), or the decision of
    /// the exact-read rounds.
    pub open spec fn read_failure(before: Self, after: Self, e: BitBabblerError) -> bool {
        ||| traced(after.failures(), before.failures(), e)
        ||| read_decided(after.rounds().skip(before.rounds().len() as int), e)
    }

    /// Every raw entropy byte this handle has read from the device, in
    /// order, status framing stripped.
    pub closed spec fn raw_stream(&self) -> Seq<u8> {
        self.session.delivered@
    }

    /// Metadata captured when the device was opened.
    pub closed spec fn info_spec(&self) -> DeviceInfo {
        self.info
    }

    /// Every bulk transfer taken in as entropy, with the position it was
    /// consumed to.
    pub closed spec fn transfers(&self) -> Seq<(Seq<u8>, int)> {
        self.session.transfers@
    }

    /// The device's max packet size.
    pub closed spec fn packet_size(&self) -> int {
        self.session.packet_size()
    }

    /// Every entropy byte taken from bulk transfers, in order.
    pub closed spec fn payload_stream(&self) -> Seq<u8> {
        self.session.received@
    }

    /// For each raw byte handed out, its position in [`Self::payload_stream`].
    pub closed spec fn raw_origin(&self) -> Seq<int> {
        self.session.origin@
    }

    /// The framing law: returned entropy never contains FTDI status bytes.
    /// The raw bytes the handle has handed out are, in order, bytes of its
    /// payload stream; that stream is exactly the entropy of the bulk
    /// transfers the device sent, each up to where it was consumed; so every
    /// raw byte is a byte a transfer carried at a position that is not one
    /// of a packet's two status bytes.
    pub proof fn lemma_raw_bytes_are_payload(&self)
        requires
            self.wf(),
        ensures
            picked_from(self.raw_stream(), self.raw_origin(), self.payload_stream()),
            self.payload_stream() == payload_log(self.transfers(), self.packet_size()),
            forall|i: int|
                0 <= i < self.raw_stream().len() ==> sent_as_payload(
                    self.transfers(),
                    self.packet_size(),
                    #[trigger] self.raw_stream()[i],
                ),
    {
        reveal(framing);
        lemma_payload_log_sources(self.transfers(), self.packet_size());
        assert forall|i: int| 0 <= i < self.raw_stream().len() implies sent_as_payload(
            self.transfers(),
            self.packet_size(),
            #[trigger] self.raw_stream()[i],
        ) by {
            let k = self.raw_origin()[i];
            assert(self.raw_stream()[i] == self.payload_stream()[k]);
        }
    }

    /// What reading `n_bits` folded `fold` does, from `before` to `after`:
    /// a zero or unaligned length, or a fold whose raw size overflows, fails
    /// before any I/O and leaves the handle as it was; success gives
    /// `n_bits / 8` bytes, the successive XOR of `fold.segments()`
    /// consecutive raw segments of that length read just now, by read
    /// commands of at most `MAX_MPSSE_READ_BYTES` bytes each (see
    /// [`folded_plan`]); a valid request fails only on a failure met or a
    /// round that ended badly (see [`Self::read_failure`]), so a
    /// [`Self::clean_read`] succeeds; a failure after I/O leaves no buffered
    /// transfer, and a raw failure within one MPSSE command consumes no raw
    /// byte.
    pub open spec fn folded_read(before: Self, after: Self, n_bits: usize, fold: Fold, bits: Result<Vec<u8>, BitBabblerError>) -> bool {
        &&& after.continues(&before)
        &&& n_bits == 0 ==> bits == Err::<Vec<u8>, BitBabblerError>(BitBabblerError::ZeroBitLength) && after == before
        &&& n_bits != 0 && n_bits % 8 != 0 ==> bits == Err::<Vec<u8>, BitBabblerError>(
            BitBabblerError::BitLengthNotByteAligned { requested_bits: n_bits },
        ) && after == before
        &&& n_bits != 0 && n_bits % 8 == 0 && (n_bits / 8) * fold.segments() > usize::MAX ==> bits == Err::<
            Vec<u8>,
            BitBabblerError,
        >(BitBabblerError::AllocationFailed { requested_bits: n_bits }) && after == before
        &&& after.buffered() == 0
        &&& n_bits != 0 && n_bits % 8 == 0 && (n_bits / 8) * fold.segments() <= usize::MAX ==> (bits matches Err(e)
            ==> Self::read_failure(before, after, e))
        &&& (n_bits != 0 && n_bits % 8 == 0 && (n_bits / 8) * fold.segments() <= usize::MAX && Self::clean_read(
            before,
            after,
        )) ==> bits is Ok
        &&& bits matches Ok(v) ==> {
            let raw = after.raw_since(&before);
            &&& n_bits > 0 && n_bits % 8 == 0
            &&& v@.len() == n_bits / 8
            &&& raw.len() == (n_bits / 8) * fold.segments()
            &&& v@ == fold_segments(raw, fold.segments(), (n_bits / 8) as nat)
            &&& completed_reads(after.rounds().skip(before.rounds().len() as int)) == folded_plan(
                (n_bits / 8) as nat,
                fold.segments(),
            )
        }
        &&& bits is Err && fold == Fold::Raw && n_bits / 8 <= MAX_MPSSE_READ_BYTES ==> after.raw_stream()
            == before.raw_stream()
    }

    /// Bytes of the last bulk transfer not yet consumed.
    pub closed spec fn buffered(&self) -> int {
        self.session.chunk@.len() - self.session.chunk_head
    }

    /// The raw bytes read since `earlier`, when `self` extends it.
    pub open spec fn raw_since(&self, earlier: &Self) -> Seq<u8> {
        self.raw_stream().skip(earlier.raw_stream().len() as int)
    }

    /// `self` is `earlier` with more raw bytes read, same device.
    pub open spec fn continues(&self, earlier: &Self) -> bool {
        &&& self.wf()
        &&& self.info_spec() == earlier.info_spec()
        &&& self.raw_stream().len() >= earlier.raw_stream().len()
        &&& forall|i: int| 0 <= i < earlier.raw_stream().len() ==> #[trigger] self.raw_stream()[i] == earlier.raw_stream()[i]
        &&& extends(self.failures(), earlier.failures())
        &&& extends(self.rounds(), earlier.rounds())
        &&& forall|j: int|
            earlier.rounds().len() <= j < self.rounds().len() ==> 1 <= (#[trigger] self.rounds()[j]).wanted
                <= MAX_MPSSE_READ_BYTES
    }

    /// A failure explained by what happened since a later state is explained
    /// by what happened since an earlier one.
    pub proof fn lemma_read_failure_lifts(a: Self, b: Self, c: Self, e: BitBabblerError)
        requires
            extends(b.failures(), a.failures()),
            extends(b.rounds(), a.rounds()),
            extends(c.failures(), b.failures()),
            extends(c.rounds(), b.rounds()),
            Self::read_failure(b, c, e),
        ensures
            Self::read_failure(a, c, e),
    {
        let whole = c.rounds().skip(a.rounds().len() as int);
        let k = b.rounds().len() - a.rounds().len();
        if read_decided(c.rounds().skip(b.rounds().len() as int), e) {
            assert(whole.skip(k) =~= c.rounds().skip(b.rounds().len() as int));
            lemma_read_decided_suffix(whole, k, e);
        }
    }

    /// A handle continues itself.
    pub proof fn lemma_continues_itself(&self)
        requires
            self.wf(),
        ensures
            self.continues(self),
            self.raw_since(self).len() == 0,
    {
    }

    /// Takes over a claimed device handle and runs the full FTDI/MPSSE
    /// initialization on it.
    pub fn attach(handle: H, info: DeviceInfo, endpoints: EndpointConfig) -> (dev: Result<Self, BitBabblerError>)
        ensures
            match dev {
                Ok(d) => {
                    &&& d.wf()
                    &&& d.info_spec() == info
                    &&& d.raw_stream().len() == 0
                    &&& d.released().len() == 0
                    &&& modem_status_for(endpoints.max_packet) is Some
                },
                Err(e) => if modem_status_for(endpoints.max_packet) is None {
                    e == BitBabblerError::ProtocolViolation {
                        operation: crate::error::ProtocolOperation::UnsupportedMaxPacket,
                    }
                } else {
                    initialization_error(e)
                },
            },
    {
        let mut handle = handle;
        let mut session = FtdiSession::new(endpoints)?;
        protocol::initialize(&mut handle, &mut session)?;
        Ok(BitBabbler { handle, session, info, released: Ghost(Seq::empty()) })
    }

    /// Opens an enumerated device through `backend`.
    fn open_enumerated<B: UsbBackend<Handle = H>>(backend: &mut B, dev: &EnumeratedDevice) -> (opened: Result<Self, BitBabblerError>)
        ensures
            opened matches Ok(d) ==> {
                &&& d.wf()
                &&& d.raw_stream().len() == 0
                &&& variant_of(dev.product@) == Some(d.info_spec().variant)
                &&& d.info_spec() == device_info_of(*dev)
            },
            variant_of(dev.product@) is None ==> opened == Err::<Self, BitBabblerError>(
                BitBabblerError::UnsupportedProduct { product: dev.product },
            ) && *final(backend) == *old(backend),
    {
        let info = device_info_from_enumerated(dev)?;
        let handle = backend.open_device(dev)?;
        Self::attach(handle, info, dev.endpoints)
    }

    /// Opens the only recognized device of an enumeration. An unsupported
    /// product fails first; then zero recognized devices is
    /// [`BitBabblerError::NoDevice`] and more than one is
    /// [`BitBabblerError::MultipleDevices`], with nothing opened; the one
    /// device is opened through `backend` and its metadata kept.
    pub fn open_from_enumeration<B: UsbBackend<Handle = H>>(backend: &mut B, enumerated: Vec<EnumeratedDevice>) -> (dev: Result<Self, BitBabblerError>)
        ensures
            ({
                let e = enumerated@;
                match first_unsupported(e, 0) {
                    Some(i) => dev == Err::<Self, BitBabblerError>(
                        BitBabblerError::UnsupportedProduct { product: e[i].product },
                    ) && *final(backend) == *old(backend),
                    None => if e.len() == 0 {
                        dev == Err::<Self, BitBabblerError>(BitBabblerError::NoDevice) && *final(backend) == *old(backend)
                    } else if e.len() > 1 {
                        dev == Err::<Self, BitBabblerError>(BitBabblerError::MultipleDevices { count: e.len() as usize })
                            && *final(backend) == *old(backend)
                    } else {
                        dev matches Ok(d) ==> {
                            &&& d.wf()
                            &&& d.raw_stream().len() == 0
                            &&& d.info_spec() == device_info_of(e[0])
                            &&& variant_of(e[0].product@) == Some(d.info_spec().variant)
                        }
                    },
                }
            }),
    {
        let selected = select_single(enumerated)?;
        Self::open_enumerated(backend, &selected)
    }

    /// Opens the recognized device of an enumeration whose serial is exactly
    /// `serial`, as [`select_by_serial`] picks it; when selection fails
    /// nothing is opened.
    pub fn open_by_serial_from_enumeration<B: UsbBackend<Handle = H>>(
        backend: &mut B,
        enumerated: Vec<EnumeratedDevice>,
        serial: &str,
    ) -> (dev: Result<Self, BitBabblerError>)
        ensures
            serial@.len() == 0 ==> dev == Err::<Self, BitBabblerError>(BitBabblerError::MissingSerial)
                && *final(backend) == *old(backend),
            serial@.len() > 0 ==> match serial_selection(enumerated@, serial@, 0, None) {
                Ok(entry) => dev matches Ok(d) ==> {
                    &&& d.wf()
                    &&& d.raw_stream().len() == 0
                    &&& d.info_spec() == device_info_of(entry)
                    &&& d.info_spec().serial@ == serial@
                    &&& variant_of(d.info_spec().product@) == Some(d.info_spec().variant)
                },
                Err(Some(product)) => dev == Err::<Self, BitBabblerError>(BitBabblerError::UnsupportedProduct { product })
                    && *final(backend) == *old(backend),
                Err(None) => dev matches Err(BitBabblerError::DeviceNotFound { serial: s }) && s@ == serial@
                    && *final(backend) == *old(backend),
            },
    {
        let selected = select_by_serial(enumerated, serial)?;
        proof {
            lemma_serial_selection_matches(enumerated@, serial@, 0, None);
        }
        Self::open_enumerated(backend, &selected)
    }

    /// Lists currently attached BitBabbler White and Black devices.
    ///
    /// Devices with VID:PID `0403:7840` and an unrecognized product string
    /// produce [`BitBabblerError::UnsupportedProduct`] instead of being omitted.
    pub fn list_devices<B: UsbBackend<Handle = H>>(backend: &mut B) -> (infos: Result<Vec<DeviceInfo>, BitBabblerError>)
        ensures
            infos matches Ok(v) ==> forall|j: int| 0 <= j < v@.len() ==> variant_of(#[trigger] v@[j].product@) == Some(v@[j].variant),
    {
        let enumerated = backend.enumerate()?;
        let ghost devs = enumerated@;
        let infos = device_infos(enumerated);
        proof {
            if let Ok(v) = &infos {
                assert forall|j: int| 0 <= j < v@.len() implies variant_of(#[trigger] v@[j].product@) == Some(v@[j].variant) by {
                    lemma_first_unsupported_none(devs, 0, j);
                }
            }
        }
        infos
    }

    /// Opens the only attached recognized BitBabbler.
    ///
    /// - no device → [`BitBabblerError::NoDevice`]
    /// - one device → opens it
    /// - multiple → [`BitBabblerError::MultipleDevices`]
    pub fn open<B: UsbBackend<Handle = H>>(backend: &mut B) -> (dev: Result<Self, BitBabblerError>)
        ensures
            dev matches Ok(d) ==> d.wf() && d.raw_stream().len() == 0 && variant_of(d.info_spec().product@) == Some(
                d.info_spec().variant,
            ),
    {
        let enumerated = backend.enumerate()?;
        Self::open_from_enumeration(backend, enumerated)
    }

    /// Opens the recognized BitBabbler with an exact serial match. An empty
    /// serial is refused before the bus is enumerated.
    pub fn open_by_serial<B: UsbBackend<Handle = H>>(backend: &mut B, serial: &str) -> (dev: Result<Self, BitBabblerError>)
        ensures
            serial@.len() == 0 ==> dev == Err::<Self, BitBabblerError>(BitBabblerError::MissingSerial)
                && *final(backend) == *old(backend),
            dev matches Ok(d) ==> {
                &&& d.wf()
                &&& d.raw_stream().len() == 0
                &&& d.info_spec().serial@ == serial@
                &&& variant_of(d.info_spec().product@) == Some(d.info_spec().variant)
            },
    {
        if serial.is_empty() {
            return Err(BitBabblerError::MissingSerial);
        }
        let enumerated = backend.enumerate()?;
        let ghost e = enumerated@;
        let dev = Self::open_by_serial_from_enumeration(backend, enumerated, serial);
        proof {
            lemma_serial_selection_matches(e, serial@, 0, None);
        }
        dev
    }

    /// Returns metadata captured when the device was opened.
    pub fn device_info(&self) -> (info: &DeviceInfo)
        ensures
            *info == self.info_spec(),
    {
        &self.info
    }

    /// Reads `n_bits` of raw entropy (`fold = 0`).
    ///
    /// Equivalent to [`Self::get_bits_with_fold`] with [`Fold::Raw`].
    pub fn get_bits(&mut self, n_bits: usize) -> (bits: Result<Vec<u8>, BitBabblerError>)
        requires
            old(self).wf(),
        ensures
            Self::folded_read(*old(self), *final(self), n_bits, Fold::Raw, bits),
            bits matches Ok(v) ==> v@ == final(self).raw_since(&*old(self)),
    {
        let bits = self.get_bits_with_fold(n_bits, Fold::Raw);
        proof {
            if let Ok(v) = &bits {
                let raw = self.raw_since(&*old(self));
                assert(raw.take((n_bits / 8) as int) =~= raw);
            }
        }
        bits
    }

    /// Reads entropy and applies the requested fold depth.
    ///
    /// - `n_bits` must be positive and divisible by 8
    /// - returns exactly `n_bits / 8` bytes: the successive XOR of
    ///   `fold.segment_count()` consecutive raw segments of that length
    /// - fold is per-call only and is never stored on the handle
    /// - on failure, no partial buffer is returned
    pub fn get_bits_with_fold(&mut self, n_bits: usize, fold: Fold) -> (bits: Result<Vec<u8>, BitBabblerError>)
        requires
            old(self).wf(),
        ensures
            Self::folded_read(*old(self), *final(self), n_bits, fold, bits),
    {
        proof {
            self.lemma_continues_itself();
        }
        if n_bits == 0 {
            return Err(BitBabblerError::ZeroBitLength);
        }
        if n_bits % 8 != 0 {
            return Err(BitBabblerError::BitLengthNotByteAligned { requested_bits: n_bits });
        }
        let n_bytes = n_bits / 8;
        let segments = fold.segment_count();

        // Overflow guard: total raw bytes = n_bytes * segments
        let total_raw = n_bytes.checked_mul(segments);
        if total_raw.is_none() {
            return Err(BitBabblerError::AllocationFailed { requested_bits: n_bits });
        }

        let mut out: Vec<u8> = Vec::new();
        if !try_reserve_exact_bytes(&mut out, n_bytes) {
            let e = BitBabblerError::AllocationFailed { requested_bits: n_bits };
            proof {
                self.session.failures@ = self.session.failures@.push(e);
            }
            return Err(e);
        }
        out.resize(n_bytes, 0);

        match self.read_folded_segments(&mut out, segments) {
            Ok(()) => Ok(out),
            Err(e) => {
                // Partial data is never observable: the buffer is dropped here.
                out.clear();
                self.session.clear_chunk();
                Err(e)
            },
        }
    }

    /// Returns 8 raw bytes interpreted as a little-endian `u64`.
    pub fn random_u64(&mut self) -> (value: Result<u64, BitBabblerError>)
        requires
            old(self).wf(),
        ensures
            final(self).continues(&*old(self)),
            value matches Ok(v) ==> {
                let raw = final(self).raw_since(&*old(self));
                &&& raw.len() == 8
                &&& v == le_u64(raw)
            },
            value is Err ==> final(self).raw_stream() == old(self).raw_stream(),
            value matches Err(e) ==> Self::read_failure(*old(self), *final(self), e),
            value is Ok ==> completed_reads(final(self).rounds().skip(old(self).rounds().len() as int)) == seq![8int],
            Self::clean_read(*old(self), *final(self)) ==> value is Ok,
    {
        let bytes = self.get_bits(64)?;
        proof {
            assert(folded_plan(8, 1) =~= seq![8int]) by {
                assert(folded_plan(8, 0) =~= Seq::<int>::empty());
                assert(read_plan(8) =~= seq![8int]);
            }
        }
        Ok(u64_from_le_bytes(&bytes))
    }

    /// Uniform value in the semi-open range `[start, end)` using raw bytes only.
    ///
    /// Uses rejection sampling to avoid modulo bias: 8-byte samples below
    /// `2^64 mod span` are rejected, at most `MAX_RANGE_SAMPLES` times.
    /// Empty or inverted ranges fail before any device I/O.
    #[verifier::spinoff_prover]
    pub fn random_range(&mut self, range: Range<u64>) -> (value: Result<u64, BitBabblerError>)
        requires
            old(self).wf(),
        ensures
            final(self).continues(&*old(self)),
            range.start >= range.end ==> value == Err::<u64, BitBabblerError>(
                BitBabblerError::InvalidRange { start: range.start, end: range.end },
            ) && *final(self) == *old(self),
            range.start < range.end ==> (value matches Err(e) ==> e == BitBabblerError::RangeSamplingExhausted {
                attempts: MAX_RANGE_SAMPLES,
            } || Self::read_failure(*old(self), *final(self), e)),
            (range.start < range.end && Self::clean_read(*old(self), *final(self))) ==> (value is Ok || value == Err::<
                u64,
                BitBabblerError,
            >(BitBabblerError::RangeSamplingExhausted { attempts: MAX_RANGE_SAMPLES })),
            ({
                let raw = final(self).raw_since(&*old(self));
                let span = range.end - range.start;
                &&& value matches Ok(v) ==> {
                    let k = raw.len() / 8;
                    &&& range.start <= v < range.end
                    &&& raw.len() % 8 == 0
                    &&& 1 <= k <= MAX_RANGE_SAMPLES
                    &&& forall|j: int| 0 <= j < k - 1 ==> sample_at(raw, j) < rejection_threshold(span)
                    &&& sample_at(raw, k - 1) >= rejection_threshold(span)
                    &&& v == range.start + sample_at(raw, k - 1) % span
                }
                &&& (range.start < range.end && raw.len() == 8 * MAX_RANGE_SAMPLES && forall|j: int|
                    0 <= j < MAX_RANGE_SAMPLES ==> sample_at(raw, j) < rejection_threshold(span)) ==> value == Err::<
                    u64,
                    BitBabblerError,
                >(BitBabblerError::RangeSamplingExhausted { attempts: MAX_RANGE_SAMPLES })
                &&& (range.start < range.end && value == Err::<u64, BitBabblerError>(
                    BitBabblerError::RangeSamplingExhausted { attempts: MAX_RANGE_SAMPLES },
                )) ==> raw.len() == 8 * MAX_RANGE_SAMPLES || Self::read_failure(
                    *old(self),
                    *final(self),
                    BitBabblerError::RangeSamplingExhausted { attempts: MAX_RANGE_SAMPLES },
                )
                &&& (range.start < range.end && value is Err) ==> {
                    &&& raw.len() % 8 == 0
                    &&& raw.len() <= 8 * MAX_RANGE_SAMPLES
                    &&& forall|j: int| 0 <= j < raw.len() / 8 ==> sample_at(raw, j) < rejection_threshold(span)
                }
            }),
    {
        proof {
            self.lemma_continues_itself();
        }
        let start = range.start;
        let end = range.end;
        if start >= end {
            return Err(BitBabblerError::InvalidRange { start, end });
        }

        let span = end - start;
        let threshold = (u64::MAX - span + 1) % span;
        proof {
            let m = 0x1_0000_0000_0000_0000int;
            assert(u64::MAX - span + 1 == m - span);
            vstd::arithmetic::div_mod::lemma_mod_sub_multiples_vanish(m, span as int);
            assert(threshold == rejection_threshold(span as int));
        }

        let ghost raw0 = self.raw_stream();
        let mut attempt: u32 = 0;
        while attempt < MAX_RANGE_SAMPLES
            invariant
                self.continues(&*old(self)),
                raw0 == old(self).raw_stream(),
                0 <= attempt <= MAX_RANGE_SAMPLES,
                span == end - start,
                start == range.start,
                end == range.end,
                start < end,
                threshold == rejection_threshold(span as int),
                self.raw_since(&*old(self)).len() == 8 * attempt,
                forall|j: int| 0 <= j < attempt ==> sample_at(self.raw_since(&*old(self)), j) < threshold,
            decreases MAX_RANGE_SAMPLES - attempt,
        {
            let ghost before = self.raw_stream();
            let ghost before_draw = *self;
            let sample = match self.random_u64() {
                Ok(v) => v,
                Err(e) => {
                    proof {
                        Self::lemma_read_failure_lifts(*old(self), before_draw, *self, e);
                    }
                    return Err(e);
                },
            };
            proof {
                let raw = self.raw_since(&*old(self));
                let prev = before.skip(raw0.len() as int);
                let fresh = self.raw_stream().skip(before.len() as int);
                assert(self.raw_stream() =~= before + fresh) by {
                    assert(self.raw_stream().take(before.len() as int) == before);
                }
                assert(before =~= raw0 + prev) by {
                    assert(before.take(raw0.len() as int) == raw0);
                }
                assert(raw =~= prev + fresh);
                assert forall|j: int| 0 <= j < attempt implies sample_at(raw, j) == sample_at(prev, j) by {
                    assert(raw.subrange(8 * j, 8 * j + 8) =~= prev.subrange(8 * j, 8 * j + 8));
                }
                assert(raw.subrange(8 * attempt, 8 * attempt + 8) =~= fresh);
            }
            if sample >= threshold {
                proof {
                    let raw = self.raw_since(&*old(self));
                    assert(raw.len() / 8 == attempt + 1);
                }
                return Ok(start + sample % span);
            }
            attempt = attempt + 1;
        }
        Err(BitBabblerError::RangeSamplingExhausted { attempts: MAX_RANGE_SAMPLES })
    }

    /// Best-effort shutdown: purges pending data, restores reset bitmode,
    /// resets the FTDI and releases the interface. Failures are ignored.
    ///
    /// What it does to the device is stated by [`Self::shutdown`].
    pub fn close(self)
        requires
            self.wf(),
    {
        let mut this = self;
        this.shutdown();
    }

    /// The shutdown sequence: a purge of pending data, the FTDI set back to
    /// reset bitmode and then reset, the interface released. Each step is
    /// made whether or not the ones before it failed, and no failure is
    /// passed on; nothing stays buffered.
    fn shutdown(&mut self)
        requires
            old(self).wf(),
        ensures
            final(self).session.controls@ == old(self).session.controls@ + seq![
                init_control_sequence(0)[5],
                init_control_sequence(0)[0],
            ],
            final(self).released() == old(self).released().push(USB_INTERFACE),
            final(self).session.chunk@.len() == 0,
            final(self).raw_stream() == old(self).raw_stream(),
            final(self).info_spec() == old(self).info_spec(),
    {
        protocol::reset_bitmode_best_effort(&mut self.handle, &mut self.session);
        let _ = self.handle.release_interface(USB_INTERFACE);
        proof {
            self.released@ = self.released@.push(USB_INTERFACE);
        }
    }

    /// Reads `nbytes` raw bytes into a new buffer.
    fn read_raw_bytes(&mut self, nbytes: usize) -> (bytes: Result<Vec<u8>, BitBabblerError>)
        requires
            old(self).wf(),
        ensures
            final(self).continues(&*old(self)),
            bytes matches Ok(v) ==> v@.len() == nbytes && v@ == final(self).raw_since(&*old(self)),
            bytes is Err && nbytes <= MAX_MPSSE_READ_BYTES ==> final(self).raw_stream() == old(self).raw_stream(),
            nbytes == 0 ==> (bytes matches Ok(v) && v@.len() == 0 && final(self).raw_stream() == old(self).raw_stream()),
            bytes matches Err(e) ==> Self::read_failure(*old(self), *final(self), e),
            bytes is Ok ==> completed_reads(final(self).rounds().skip(old(self).rounds().len() as int)) == read_plan(
                nbytes as nat,
            ),
    {
        let bytes = protocol::read_raw_bytes(&mut self.handle, &mut self.session, nbytes);
        proof {
            if let Ok(v) = &bytes {
                assert(self.raw_stream().skip(old(self).raw_stream().len() as int) =~= v@);
            }
        }
        bytes
    }

    /// Reads `nbytes` raw bytes onto the end of `out`.
    fn read_raw_bytes_into(&mut self, nbytes: usize, out: &mut Vec<u8>) -> (r: Result<(), BitBabblerError>)
        requires
            old(self).wf(),
            old(out)@.len() + nbytes + MAX_MPSSE_READ_BYTES <= usize::MAX,
        ensures
            final(self).continues(&*old(self)),
            r is Ok ==> final(out)@ == old(out)@ + final(self).raw_since(&*old(self))
                && final(self).raw_since(&*old(self)).len() == nbytes,
            nbytes == 0 ==> r is Ok && final(out)@ == old(out)@ && final(self).raw_stream() == old(self).raw_stream(),
            r matches Err(e) ==> Self::read_failure(*old(self), *final(self), e),
            r is Ok ==> completed_reads(final(self).rounds().skip(old(self).rounds().len() as int)) == read_plan(
                nbytes as nat,
            ),
    {
        proof {
            self.lemma_continues_itself();
        }
        let mut remaining = nbytes;
        let ghost out0 = out@;
        assert(completed_reads(self.rounds().skip(self.rounds().len() as int)) + read_plan(nbytes as nat)
            =~= read_plan(nbytes as nat));
        while remaining > 0
            invariant
                self.continues(&*old(self)),
                out0 == old(out)@,
                out0.len() + nbytes + MAX_MPSSE_READ_BYTES <= usize::MAX,
                remaining <= nbytes,
                out@ == out0 + self.raw_since(&*old(self)),
                self.raw_since(&*old(self)).len() == nbytes - remaining,
                completed_reads(self.rounds().skip(old(self).rounds().len() as int)) + read_plan(remaining as nat)
                    == read_plan(nbytes as nat),
            decreases remaining,
        {
            let chunk = if remaining < MAX_MPSSE_READ_BYTES { remaining } else { MAX_MPSSE_READ_BYTES };
            let ghost before_out = out@;
            let ghost before_raw = self.raw_stream();
            let ghost before_read = *self;
            let res = protocol::read_exact_raw_into(&mut self.handle, &mut self.session, chunk, out);
            if let Err(e) = res {
                proof {
                    Self::lemma_read_failure_lifts(*old(self), before_read, *self, e);
                }
                return Err(e);
            }
            proof {
                let got = out@.skip(before_out.len() as int);
                assert(out@ =~= before_out + got);
                assert(self.raw_stream() =~= before_raw + got);
                assert(self.raw_since(&*old(self)) =~= before_raw.skip(old(self).raw_stream().len() as int) + got);
                assert(self.raw_stream().take(old(self).raw_stream().len() as int) =~= old(self).raw_stream());
                let r0 = old(self).rounds().len() as int;
                let done = before_read.rounds().skip(r0);
                let rc = self.rounds().skip(before_read.rounds().len() as int);
                assert(self.rounds().skip(r0) =~= done + rc);
                lemma_completed_reads_single(rc);
                lemma_completed_reads_append(done, rc);
                let rest = read_plan((remaining - chunk) as nat);
                assert(read_plan(remaining as nat) =~= seq![chunk as int] + rest);
                assert(completed_reads(done) + seq![chunk as int] + rest =~= completed_reads(done) + (seq![
                    chunk as int,
                ] + rest));
            }
            remaining = remaining - chunk;
        }
        Ok(())
    }

    /// Reads `segments` consecutive raw segments of `out.len()` bytes and
    /// leaves their successive XOR in `out`. Later segments are read and
    /// XORed in pieces of at most `MAX_MPSSE_READ_BYTES`.
    fn read_folded_segments(&mut self, out: &mut Vec<u8>, segments: usize) -> (r: Result<(), BitBabblerError>)
        requires
            old(self).wf(),
            1 <= segments <= 16,
            old(out)@.len() <= isize::MAX,
            old(out)@.len() * segments <= usize::MAX,
        ensures
            final(self).continues(&*old(self)),
            r is Ok ==> {
                let raw = final(self).raw_since(&*old(self));
                &&& final(out)@.len() == old(out)@.len()
                &&& raw.len() == old(out)@.len() * segments
                &&& final(out)@ == fold_segments(raw, segments as nat, old(out)@.len() as nat)
            },
            r is Err && segments == 1 && old(out)@.len() <= MAX_MPSSE_READ_BYTES ==> final(self).raw_stream()
                == old(self).raw_stream(),
            old(out)@.len() == 0 ==> r is Ok && final(out)@.len() == 0 && final(self).raw_stream() == old(
                self,
            ).raw_stream(),
            r matches Err(e) ==> Self::read_failure(*old(self), *final(self), e),
            r is Ok ==> completed_reads(final(self).rounds().skip(old(self).rounds().len() as int)) == folded_plan(
                old(out)@.len() as nat,
                segments as nat,
            ),
    {
        proof {
            self.lemma_continues_itself();
        }
        let n = out.len();
        let first = self.read_raw_bytes(n)?;
        *out = first;
        proof {
            let raw = self.raw_since(&*old(self));
            assert(raw.take(n as int) =~= raw);
            assert(folded_plan(n as nat, 1) =~= read_plan(n as nat)) by {
                assert(folded_plan(n as nat, 0) =~= Seq::<int>::empty());
            }
        }
        if segments == 1 {
            return Ok(());
        }

        let mut tmp: Vec<u8> = Vec::new();
        let tmp_cap = if n < MAX_MPSSE_READ_BYTES { n } else { MAX_MPSSE_READ_BYTES };
        if !try_reserve_exact_bytes(&mut tmp, tmp_cap) {
            let e = BitBabblerError::AllocationFailed { requested_bits: bit_count(n) };
            proof {
                self.session.failures@ = self.session.failures@.push(e);
            }
            return Err(e);
        }

        let mut seg: usize = 1;
        while seg < segments
            invariant
                self.continues(&*old(self)),
                1 <= seg <= segments <= 16,
                n == old(out)@.len(),
                n <= isize::MAX,
                n * segments <= usize::MAX,
                out@.len() == n,
                self.raw_since(&*old(self)).len() == n * seg,
                out@ == fold_segments(self.raw_since(&*old(self)), seg as nat, n as nat),
                completed_reads(self.rounds().skip(old(self).rounds().len() as int)) == folded_plan(
                    n as nat,
                    seg as nat,
                ),
            decreases segments - seg,
        {
            let ghost prev = out@;
            let ghost raw_at_seg = self.raw_stream();
            let ghost at_seg = *self;
            assert(completed_reads(self.rounds().skip(self.rounds().len() as int)) + read_plan(n as nat) =~= read_plan(
                n as nat,
            ));
            let mut remaining = n;
            let mut offset: usize = 0;
            while remaining > 0
                invariant
                    self.continues(&*old(self)),
                    1 <= seg < segments <= 16,
                    n == old(out)@.len(),
                    n <= isize::MAX,
                    offset + remaining == n,
                    out@.len() == n,
                    prev.len() == n,
                    raw_at_seg.len() >= old(self).raw_stream().len(),
                    self.raw_stream().len() == raw_at_seg.len() + offset,
                    self.raw_stream().take(raw_at_seg.len() as int) == raw_at_seg,
                    out@ == xor_bytes_prefix(prev, self.raw_stream().skip(raw_at_seg.len() as int), offset as int),
                    extends(at_seg.rounds(), old(self).rounds()),
                    extends(self.rounds(), at_seg.rounds()),
                    completed_reads(at_seg.rounds().skip(old(self).rounds().len() as int)) == folded_plan(
                        n as nat,
                        seg as nat,
                    ),
                    completed_reads(self.rounds().skip(at_seg.rounds().len() as int)) + read_plan(remaining as nat)
                        == read_plan(n as nat),
                decreases remaining,
            {
                let piece = if remaining < MAX_MPSSE_READ_BYTES { remaining } else { MAX_MPSSE_READ_BYTES };
                tmp.clear();
                let ghost before_raw = self.raw_stream();
                let ghost before_piece = *self;
                let res = self.read_raw_bytes_into(piece, &mut tmp);
                if let Err(e) = res {
                    proof {
                        Self::lemma_read_failure_lifts(*old(self), before_piece, *self, e);
                    }
                    return Err(e);
                }
                let ghost got = tmp@;
                xor_into_at(out, offset, tmp.as_slice());
                proof {
                    let now = self.raw_stream();
                    assert(now =~= before_raw + got) by {
                        assert(now.take(before_raw.len() as int) =~= before_raw);
                        assert(got =~= now.skip(old(self).raw_stream().len() as int).skip(
                            before_raw.len() - old(self).raw_stream().len(),
                        ));
                    }
                    assert(now.take(raw_at_seg.len() as int) =~= raw_at_seg);
                    let seg_bytes = now.skip(raw_at_seg.len() as int);
                    assert(seg_bytes =~= before_raw.skip(raw_at_seg.len() as int) + got);
                    assert(out@ =~= xor_bytes_prefix(prev, seg_bytes, offset + piece));
                    let r0 = at_seg.rounds().len() as int;
                    let done = before_piece.rounds().skip(r0);
                    let rc = self.rounds().skip(before_piece.rounds().len() as int);
                    assert(self.rounds().skip(r0) =~= done + rc);
                    assert(read_plan(piece as nat) =~= seq![piece as int]);
                    lemma_completed_reads_append(done, rc);
                    let rest = read_plan((remaining - piece) as nat);
                    assert(read_plan(remaining as nat) =~= seq![piece as int] + rest);
                    assert(completed_reads(done) + seq![piece as int] + rest =~= completed_reads(done) + (seq![
                        piece as int,
                    ] + rest));
                }
                offset = offset + piece;
                remaining = remaining - piece;
            }
            proof {
                let raw = self.raw_since(&*old(self));
                let seg_bytes = self.raw_stream().skip(raw_at_seg.len() as int);
                let prev_raw = raw_at_seg.skip(old(self).raw_stream().len() as int);
                assert(self.raw_stream() =~= raw_at_seg + seg_bytes);
                assert(raw =~= prev_raw + seg_bytes);
                assert(n * seg + n == n * (seg + 1)) by (nonlinear_arith);
                assert(raw.subrange(n * seg, n * (seg + 1)) =~= seg_bytes);
                assert(seg * n == n * seg) by (nonlinear_arith);
                assert(raw.take(prev_raw.len() as int) =~= prev_raw);
                lemma_fold_prefix_stable(raw, prev_raw, seg as nat, n as nat);
                assert(out@ =~= crate::fold::xor_bytes(prev, seg_bytes));
                let r0 = old(self).rounds().len() as int;
                let done = at_seg.rounds().skip(r0);
                let rc = self.rounds().skip(at_seg.rounds().len() as int);
                assert(self.rounds().skip(r0) =~= done + rc);
                lemma_completed_reads_append(done, rc);
                assert(completed_reads(rc) =~= read_plan(n as nat)) by {
                    assert(completed_reads(rc) + read_plan(0) =~= completed_reads(rc));
                }
            }
            seg = seg + 1;
        }
        Ok(())
    }
}

/// The MPSSE read commands that read `segments` raw segments of `n` bytes,
/// one segment after the other.
pub open spec fn folded_plan(n: nat, segments: nat) -> Seq<int>
    decreases segments,
{
    if segments == 0 {
        Seq::empty()
    } else {
        folded_plan(n, (segments - 1) as nat) + read_plan(n)
    }
}

/// `prev` with its first `k` bytes XORed with those of `seg`.
pub open spec fn xor_bytes_prefix(prev: Seq<u8>, seg: Seq<u8>, k: int) -> Seq<u8> {
    Seq::new(prev.len(), |i: int| if i < k { prev[i] ^ seg[i] } else { prev[i] })
}

/// Folding depends only on the segments folded: extending the block past
/// them leaves the fold unchanged.
proof fn lemma_fold_prefix_stable(block: Seq<u8>, prefix: Seq<u8>, segments: nat, n: nat)
    requires
        1 <= segments,
        segments * n <= prefix.len(),
        prefix.len() <= block.len(),
        block.take(prefix.len() as int) == prefix,
    ensures
        fold_segments(block, segments, n) == fold_segments(prefix, segments, n),
    decreases segments,
{
    if segments == 1 {
        assert(segments * n == n) by (nonlinear_arith)
            requires segments == 1;
        assert(block.take(n as int) =~= prefix.take(n as int));
    } else {
        assert((segments - 1) * n <= segments * n) by (nonlinear_arith);
        lemma_fold_prefix_stable(block, prefix, (segments - 1) as nat, n);
        assert(segments * n == (segments - 1) * n + n) by (nonlinear_arith);
        assert(block.subrange((segments - 1) * n, (segments * n) as int) =~= prefix.subrange(
            (segments - 1) * n,
            (segments * n) as int,
        ));
    }
}

/// Every device that selection by serial gives has that serial and a
/// recognized product.
proof fn lemma_serial_selection_matches(devs: Seq<EnumeratedDevice>, serial: Seq<char>, from: int, unsupported: Option<String>)
    ensures
        serial_selection(devs, serial, from, unsupported) matches Ok(d) ==> d.serial@ == serial && variant_of(
            d.product@,
        ) is Some,
    decreases devs.len() - from,
{
    if 0 <= from < devs.len() {
        if devs[from].serial@ != serial {
            lemma_serial_selection_matches(devs, serial, from + 1, unsupported);
        } else if variant_of(devs[from].product@) is None {
            lemma_serial_selection_matches(devs, serial, from + 1, Some(devs[from].product));
        }
    }
}

} // verus!
