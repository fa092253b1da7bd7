//! Typed errors for BitBabbler discovery, configuration, and I/O.

use vstd::prelude::*;
use vstd::string::StringExecFns;

verus! {

/// USB transfer or descriptor operation named by a typed error.
///
/// Used by [`BitBabblerError::TransferTimeout`] and [`BitBabblerError::Usb`].
#[derive(Debug, Clone, Copy, PartialEq, Eq, Hash, Structural)]
#[non_exhaustive]
pub enum UsbOperation {
    /// Open a USB device handle.
    Open,
    /// Enumerate USB devices.
    ListDevices,
    /// Read the device descriptor.
    DeviceDescriptor,
    /// Read a configuration descriptor.
    ConfigDescriptor,
    /// Set the active USB configuration.
    SetConfiguration,
    /// Claim the FTDI interface.
    ClaimInterface,
    /// Release the FTDI interface.
    ReleaseInterface,
    /// Vendor control transfer (host to device).
    ControlOut,
    /// Vendor control transfer (device to host).
    ControlIn,
    /// Bulk OUT transfer.
    BulkWrite,
    /// Bulk IN transfer.
    BulkRead,
    /// Read the USB product string descriptor.
    ReadProductString,
    /// Read the USB serial string descriptor.
    ReadSerialString,
}

/// The diagnostic label of each USB operation.
pub open spec fn usb_operation_label(op: UsbOperation) -> Seq<char> {
    match op {
        UsbOperation::Open => "open"@,
        UsbOperation::ListDevices => "list_devices"@,
        UsbOperation::DeviceDescriptor => "device_descriptor"@,
        UsbOperation::ConfigDescriptor => "config_descriptor"@,
        UsbOperation::SetConfiguration => "set_configuration"@,
        UsbOperation::ClaimInterface => "claim_interface"@,
        UsbOperation::ReleaseInterface => "release_interface"@,
        UsbOperation::ControlOut => "control_out"@,
        UsbOperation::ControlIn => "control_in"@,
        UsbOperation::BulkWrite => "bulk_write"@,
        UsbOperation::BulkRead => "bulk_read"@,
        UsbOperation::ReadProductString => "read_product_string"@,
        UsbOperation::ReadSerialString => "read_serial_string"@,
    }
}

impl UsbOperation {
    /// Stable diagnostic label for this operation.
    pub fn as_str(self) -> (label: &'static str)
        ensures
            label@ == usb_operation_label(self),
    {
        match self {
            UsbOperation::Open => "open",
            UsbOperation::ListDevices => "list_devices",
            UsbOperation::DeviceDescriptor => "device_descriptor",
            UsbOperation::ConfigDescriptor => "config_descriptor",
            UsbOperation::SetConfiguration => "set_configuration",
            UsbOperation::ClaimInterface => "claim_interface",
            UsbOperation::ReleaseInterface => "release_interface",
            UsbOperation::ControlOut => "control_out",
            UsbOperation::ControlIn => "control_in",
            UsbOperation::BulkWrite => "bulk_write",
            UsbOperation::BulkRead => "bulk_read",
            UsbOperation::ReadProductString => "read_product_string",
            UsbOperation::ReadSerialString => "read_serial_string",
        }
    }
}


/// Protocol, descriptor-policy, or framing failure named by a typed error.
///
/// Used by [`BitBabblerError::ProtocolViolation`].
#[derive(Debug, Clone, Copy, PartialEq, Eq, Hash, Structural)]
#[non_exhaustive]
pub enum ProtocolOperation {
    /// Live endpoint layout no longer matches the enumerated device.
    EndpointConfigChanged,
    /// Device descriptor omitted the product string index.
    MissingProductStringIndex,
    /// Device descriptor omitted the serial string index.
    MissingSerialStringIndex,
    /// Product string was empty after trimming.
    EmptyProductString,
    /// Serial string was empty after trimming.
    EmptySerialString,
    /// Active configuration number is not the required value.
    UsbConfiguration,
    /// Required interface / alternate setting was not found.
    UsbInterface,
    /// Interface does not expose exactly two endpoints.
    EndpointCount,
    /// First endpoint is not IN.
    EndpointInDirection,
    /// Second endpoint is not OUT.
    EndpointOutDirection,
    /// An endpoint is not bulk.
    EndpointTransferType,
    /// IN max-packet size is too small to carry FTDI status.
    MaxPacketSize,
    /// IN and OUT max-packet sizes differ.
    MaxPacketMismatch,
    /// Max-packet size is not 64 or 512.
    UnsupportedMaxPacket,
    /// MPSSE AA/AB sync handshake failed.
    MpsseSync,
    /// Requested MPSSE read length is zero or above the command limit.
    MpsseReadLength,
    /// Device returned more payload than the MPSSE command requested.
    ExcessPayload,
    /// Final line status was not exactly THRE|TEMT.
    IncompleteLineStatus,
    /// FTDI modem status byte did not match the expected packet-size marker.
    ModemStatus,
    /// FTDI line status contained illegal bits.
    LineStatus,
    /// Bulk OUT transferred zero bytes.
    BulkWriteZero,
    /// GET_MODEM_STATUS did not return two bytes.
    GetModemStatusLen,
}

/// The diagnostic label of each protocol check.
pub open spec fn protocol_operation_label(op: ProtocolOperation) -> Seq<char> {
    match op {
        ProtocolOperation::EndpointConfigChanged => "endpoint_config_changed"@,
        ProtocolOperation::MissingProductStringIndex => "missing_product_string_index"@,
        ProtocolOperation::MissingSerialStringIndex => "missing_serial_string_index"@,
        ProtocolOperation::EmptyProductString => "empty_product_string"@,
        ProtocolOperation::EmptySerialString => "empty_serial_string"@,
        ProtocolOperation::UsbConfiguration => "usb_configuration"@,
        ProtocolOperation::UsbInterface => "usb_interface"@,
        ProtocolOperation::EndpointCount => "endpoint_count"@,
        ProtocolOperation::EndpointInDirection => "endpoint_in_direction"@,
        ProtocolOperation::EndpointOutDirection => "endpoint_out_direction"@,
        ProtocolOperation::EndpointTransferType => "endpoint_transfer_type"@,
        ProtocolOperation::MaxPacketSize => "max_packet_size"@,
        ProtocolOperation::MaxPacketMismatch => "max_packet_mismatch"@,
        ProtocolOperation::UnsupportedMaxPacket => "unsupported_max_packet"@,
        ProtocolOperation::MpsseSync => "mpsse_sync"@,
        ProtocolOperation::MpsseReadLength => "mpsse_read_length"@,
        ProtocolOperation::ExcessPayload => "excess_payload"@,
        ProtocolOperation::IncompleteLineStatus => "incomplete_line_status"@,
        ProtocolOperation::ModemStatus => "modem_status"@,
        ProtocolOperation::LineStatus => "line_status"@,
        ProtocolOperation::BulkWriteZero => "bulk_write_zero"@,
        ProtocolOperation::GetModemStatusLen => "get_modem_status_len"@,
    }
}

impl ProtocolOperation {
    /// Stable diagnostic label for this operation.
    pub fn as_str(self) -> (label: &'static str)
        ensures
            label@ == protocol_operation_label(self),
    {
        match self {
            ProtocolOperation::EndpointConfigChanged => "endpoint_config_changed",
            ProtocolOperation::MissingProductStringIndex => "missing_product_string_index",
            ProtocolOperation::MissingSerialStringIndex => "missing_serial_string_index",
            ProtocolOperation::EmptyProductString => "empty_product_string",
            ProtocolOperation::EmptySerialString => "empty_serial_string",
            ProtocolOperation::UsbConfiguration => "usb_configuration",
            ProtocolOperation::UsbInterface => "usb_interface",
            ProtocolOperation::EndpointCount => "endpoint_count",
            ProtocolOperation::EndpointInDirection => "endpoint_in_direction",
            ProtocolOperation::EndpointOutDirection => "endpoint_out_direction",
            ProtocolOperation::EndpointTransferType => "endpoint_transfer_type",
            ProtocolOperation::MaxPacketSize => "max_packet_size",
            ProtocolOperation::MaxPacketMismatch => "max_packet_mismatch",
            ProtocolOperation::UnsupportedMaxPacket => "unsupported_max_packet",
            ProtocolOperation::MpsseSync => "mpsse_sync",
            ProtocolOperation::MpsseReadLength => "mpsse_read_length",
            ProtocolOperation::ExcessPayload => "excess_payload",
            ProtocolOperation::IncompleteLineStatus => "incomplete_line_status",
            ProtocolOperation::ModemStatus => "modem_status",
            ProtocolOperation::LineStatus => "line_status",
            ProtocolOperation::BulkWriteZero => "bulk_write_zero",
            ProtocolOperation::GetModemStatusLen => "get_modem_status_len",
        }
    }
}

/// Failure reported by the USB library underneath the transport.
///
/// One variant for each failure class that libusb distinguishes; a transport
/// maps its own error values onto these.
#[derive(Debug, Clone, Copy, PartialEq, Eq, Hash, Structural)]
pub enum UsbErrorKind {
    /// Input/output error.
    Io,
    /// Invalid parameter.
    InvalidParam,
    /// Access denied (insufficient permissions).
    Access,
    /// No such device (it may have been disconnected).
    NoDevice,
    /// Entity not found.
    NotFound,
    /// Resource busy.
    Busy,
    /// Operation timed out.
    Timeout,
    /// Overflow.
    Overflow,
    /// Pipe error.
    Pipe,
    /// System call interrupted (perhaps due to signal).
    Interrupted,
    /// Insufficient memory.
    NoMem,
    /// Operation not supported or unimplemented on this platform.
    NotSupported,
    /// The device returned a malformed descriptor.
    BadDescriptor,
    /// Other error.
    Other,
}

/// The human-readable text of each USB failure class.
pub open spec fn usb_error_text(kind: UsbErrorKind) -> Seq<char> {
    match kind {
        UsbErrorKind::Io => "Input/Output Error"@,
        UsbErrorKind::InvalidParam => "Invalid parameter"@,
        UsbErrorKind::Access => "Access denied (insufficient permissions)"@,
        UsbErrorKind::NoDevice => "No such device (it may have been disconnected)"@,
        UsbErrorKind::NotFound => "Entity not found"@,
        UsbErrorKind::Busy => "Resource busy"@,
        UsbErrorKind::Timeout => "Operation timed out"@,
        UsbErrorKind::Overflow => "Overflow"@,
        UsbErrorKind::Pipe => "Pipe error"@,
        UsbErrorKind::Interrupted => "System call interrupted (perhaps due to signal)"@,
        UsbErrorKind::NoMem => "Insufficient memory"@,
        UsbErrorKind::NotSupported => "Operation not supported or unimplemented on this platform"@,
        UsbErrorKind::BadDescriptor => "Malformed descriptor"@,
        UsbErrorKind::Other => "Other error"@,
    }
}

/// The text of a USB failure class, as the USB library displays it.
///
/// Calls `Display` of `rusb::Error` (through `to_string`) on the variant
/// that `kind` stands for. Claimed: the text is the one rusb's `Display`
/// impl writes for that variant, which is `usb_error_text(kind)`.
#[verifier::external_body]
fn rusb_error_text(kind: UsbErrorKind) -> (text: String)
    ensures
        text@ == usb_error_text(kind),
{
    let err = match kind {
        UsbErrorKind::Io => rusb::Error::Io, UsbErrorKind::InvalidParam => rusb::Error::InvalidParam,
        UsbErrorKind::Access => rusb::Error::Access, UsbErrorKind::NoDevice => rusb::Error::NoDevice,
        UsbErrorKind::NotFound => rusb::Error::NotFound, UsbErrorKind::Busy => rusb::Error::Busy,
        UsbErrorKind::Timeout => rusb::Error::Timeout, UsbErrorKind::Overflow => rusb::Error::Overflow,
        UsbErrorKind::Pipe => rusb::Error::Pipe, UsbErrorKind::Interrupted => rusb::Error::Interrupted,
        UsbErrorKind::NoMem => rusb::Error::NoMem, UsbErrorKind::NotSupported => rusb::Error::NotSupported,
        UsbErrorKind::BadDescriptor => rusb::Error::BadDescriptor, UsbErrorKind::Other => rusb::Error::Other,
    };
    err.to_string()
}

/// Errors produced by [`crate::device::BitBabbler`] and related helpers.
///
/// Variants are intended for programmatic matching. The text from
/// [`BitBabblerError::message`] is for diagnostics only and is not a stable
/// wire protocol.
#[derive(Debug, PartialEq, Eq)]
#[non_exhaustive]
pub enum BitBabblerError {
    /// No recognized BitBabbler White/Black device was found.
    NoDevice,
    /// More than one recognized device is present; select by serial.
    MultipleDevices {
        /// Number of recognized devices enumerated.
        count: usize,
    },
    /// No device matched the requested serial number.
    DeviceNotFound {
        /// Serial string that was requested.
        serial: String,
    },
    /// `open_by_serial` was called with an empty serial string.
    MissingSerial,
    /// A device with the expected VID:PID reported an unsupported product string.
    UnsupportedProduct {
        /// Product string reported by the device.
        product: String,
    },
    /// `get_bits` was called with zero bits.
    ZeroBitLength,
    /// `get_bits` was called with a bit length not divisible by 8.
    BitLengthNotByteAligned {
        /// The requested bit length that failed validation.
        requested_bits: usize,
    },
    /// A fold value outside `0..=4` was supplied.
    InvalidFold {
        /// The rejected fold value.
        value: u8,
    },
    /// `random_range` received an empty or inverted semi-open range.
    InvalidRange {
        /// Inclusive start of the requested range.
        start: u64,
        /// Exclusive end of the requested range.
        end: u64,
    },
    /// Fallible buffer reservation failed before successful completion.
    AllocationFailed {
        /// Bit length that motivated the allocation.
        requested_bits: usize,
    },
    /// The process lacks permission to open or claim the USB device.
    PermissionDenied,
    /// The device interface is already claimed by another process or handle.
    DeviceBusy,
    /// The device was removed or the handle was invalidated.
    DeviceDisconnected,
    /// A USB transfer timed out.
    TransferTimeout {
        /// USB operation that timed out.
        operation: UsbOperation,
    },
    /// A lower-level USB failure not mapped to a more specific variant.
    Usb {
        /// USB operation that failed.
        operation: UsbOperation,
        /// Underlying USB library failure when available.
        source: Option<UsbErrorKind>,
    },
    /// Framing, status, or command/response rules were violated.
    ProtocolViolation {
        /// Protocol check that failed.
        operation: ProtocolOperation,
    },
    /// FTDI/MPSSE initialization exhausted its retry budget.
    InitializationFailed {
        /// Number of full init attempts performed.
        attempts: u32,
        /// Last non-fatal error observed before giving up.
        source: Box<BitBabblerError>,
    },
    /// Empty or incomplete entropy reads exhausted the retry budget.
    ReadRetriesExhausted {
        /// Number of empty/partial retry attempts performed.
        attempts: u32,
    },
    /// Rejection sampling for `random_range` exhausted its sample budget.
    RangeSamplingExhausted {
        /// Number of range samples attempted.
        attempts: u32,
    },
}


impl Clone for BitBabblerError {
    fn clone(&self) -> (copy: Self)
        ensures
            copy == *self,
        decreases self,
    {
        match self {
            BitBabblerError::NoDevice => BitBabblerError::NoDevice,
            BitBabblerError::MultipleDevices { count } => BitBabblerError::MultipleDevices { count: *count },
            BitBabblerError::DeviceNotFound { serial } => BitBabblerError::DeviceNotFound { serial: serial.clone() },
            BitBabblerError::MissingSerial => BitBabblerError::MissingSerial,
            BitBabblerError::UnsupportedProduct { product } => BitBabblerError::UnsupportedProduct { product: product.clone() },
            BitBabblerError::ZeroBitLength => BitBabblerError::ZeroBitLength,
            BitBabblerError::BitLengthNotByteAligned { requested_bits } => BitBabblerError::BitLengthNotByteAligned { requested_bits: *requested_bits },
            BitBabblerError::InvalidFold { value } => BitBabblerError::InvalidFold { value: *value },
            BitBabblerError::InvalidRange { start, end } => BitBabblerError::InvalidRange { start: *start, end: *end },
            BitBabblerError::AllocationFailed { requested_bits } => BitBabblerError::AllocationFailed { requested_bits: *requested_bits },
            BitBabblerError::PermissionDenied => BitBabblerError::PermissionDenied,
            BitBabblerError::DeviceBusy => BitBabblerError::DeviceBusy,
            BitBabblerError::DeviceDisconnected => BitBabblerError::DeviceDisconnected,
            BitBabblerError::TransferTimeout { operation } => BitBabblerError::TransferTimeout { operation: *operation },
            BitBabblerError::Usb { operation, source } => BitBabblerError::Usb { operation: *operation, source: *source },
            BitBabblerError::ProtocolViolation { operation } => BitBabblerError::ProtocolViolation { operation: *operation },
            BitBabblerError::InitializationFailed { attempts, source } => {
                let inner: &BitBabblerError = source;
                BitBabblerError::InitializationFailed { attempts: *attempts, source: Box::new(inner.clone()) }
            },
            BitBabblerError::ReadRetriesExhausted { attempts } => BitBabblerError::ReadRetriesExhausted { attempts: *attempts },
            BitBabblerError::RangeSamplingExhausted { attempts } => BitBabblerError::RangeSamplingExhausted { attempts: *attempts },
        }
    }
}

/// How a failure reported by the USB library is classified.
///
/// Permission, busy and disconnect failures get variants of their own so a
/// caller can react to them; a timeout keeps the operation; every other
/// failure keeps both the operation and the library's failure class.
pub open spec fn classify_usb_failure(operation: UsbOperation, kind: UsbErrorKind) -> BitBabblerError {
    match kind {
        UsbErrorKind::Access => BitBabblerError::PermissionDenied,
        UsbErrorKind::Busy => BitBabblerError::DeviceBusy,
        UsbErrorKind::NoDevice => BitBabblerError::DeviceDisconnected,
        UsbErrorKind::Timeout => BitBabblerError::TransferTimeout { operation },
        other => BitBabblerError::Usb { operation, source: Some(other) },
    }
}

impl BitBabblerError {
    /// Maps a failure of the USB library during `operation` to a typed error.
    pub fn from_usb(operation: UsbOperation, kind: UsbErrorKind) -> (err: Self)
        ensures
            err == classify_usb_failure(operation, kind),
    {
        match kind {
            UsbErrorKind::Access => BitBabblerError::PermissionDenied,
            UsbErrorKind::Busy => BitBabblerError::DeviceBusy,
            UsbErrorKind::NoDevice => BitBabblerError::DeviceDisconnected,
            UsbErrorKind::Timeout => BitBabblerError::TransferTimeout { operation },
            other => BitBabblerError::Usb { operation, source: Some(other) },
        }
    }

    /// A protocol violation detected by the named check.
    pub fn protocol(operation: ProtocolOperation) -> (err: Self)
        ensures
            err == (BitBabblerError::ProtocolViolation { operation }),
    {
        BitBabblerError::ProtocolViolation { operation }
    }

    /// Initialization gave up after `attempts` tries; `source` is the last cause.
    pub fn initialization_failed(attempts: u32, source: Self) -> (err: Self)
        ensures
            err == (BitBabblerError::InitializationFailed { attempts, source: Box::new(source) }),
    {
        BitBabblerError::InitializationFailed { attempts, source: Box::new(source) }
    }

    /// The lower-level error this one wraps, if any.
    ///
    /// Only [`BitBabblerError::InitializationFailed`] wraps another library
    /// error; the USB failure class of [`BitBabblerError::Usb`] is its
    /// `source` field.
    pub fn source(&self) -> (inner: Option<&BitBabblerError>)
        ensures
            match *self {
                BitBabblerError::InitializationFailed { source, .. } => inner == Some(&*source),
                _ => inner is None,
            },
    {
        match self {
            BitBabblerError::InitializationFailed { source, .. } => Some(&**source),
            _ => None,
        }
    }

    /// Whether this error means the device itself is gone or unusable.
    ///
    /// Initialization retries stop at once on these: disconnect, missing
    /// permission, and an interface that another handle holds.
    pub open spec fn is_fatal_spec(&self) -> bool {
        ||| *self is DeviceDisconnected
        ||| *self is PermissionDenied
        ||| *self is DeviceBusy
    }
}

/// The decimal digit character for `d` in `0..10`.
pub open spec fn digit_char(d: int) -> char {
    if d == 0 { '0' } else if d == 1 { '1' } else if d == 2 { '2' } else if d == 3 { '3' } else if d == 4 { '4' }
    else if d == 5 { '5' } else if d == 6 { '6' } else if d == 7 { '7' } else if d == 8 { '8' } else { '9' }
}

/// The decimal text of `n`, without leading zeros.
pub open spec fn decimal(n: nat) -> Seq<char>
    decreases n,
{
    if n < 10 {
        seq![digit_char(n as int)]
    } else {
        decimal(n / 10) + seq![digit_char((n % 10) as int)]
    }
}

/// The one-character text of a decimal digit.
fn digit_text(d: u64) -> (text: &'static str)
    requires
        d < 10,
    ensures
        text@ == seq![digit_char(d as int)],
{
    proof {
        reveal_strlit("0");
        reveal_strlit("1");
        reveal_strlit("2");
        reveal_strlit("3");
        reveal_strlit("4");
        reveal_strlit("5");
        reveal_strlit("6");
        reveal_strlit("7");
        reveal_strlit("8");
        reveal_strlit("9");
    }
    match d {
        0 => "0",
        1 => "1",
        2 => "2",
        3 => "3",
        4 => "4",
        5 => "5",
        6 => "6",
        7 => "7",
        8 => "8",
        _ => "9",
    }
}

/// The decimal text of `n`.
pub fn decimal_string(n: u64) -> (text: String)
    ensures
        text@ == decimal(n as nat),
    decreases n,
{
    if n < 10 {
        String::from_str(digit_text(n))
    } else {
        let mut text = decimal_string(n / 10);
        text.append(digit_text(n % 10));
        text
    }
}

/// The diagnostic text of an error.
pub open spec fn error_message(e: BitBabblerError) -> Seq<char>
    decreases e,
{
    match e {
        BitBabblerError::NoDevice => "no BitBabbler White or Black device found"@,
        BitBabblerError::MultipleDevices { count } => "multiple BitBabbler devices found ("@ + decimal(count as nat)
            + "); open by serial"@,
        BitBabblerError::DeviceNotFound { serial } => "no BitBabbler device with serial '"@ + serial@ + "'"@,
        BitBabblerError::MissingSerial => "serial number must not be empty"@,
        BitBabblerError::UnsupportedProduct { product } => "unsupported BitBabbler product '"@ + product@ + "'"@,
        BitBabblerError::ZeroBitLength => "bit length must be greater than zero"@,
        BitBabblerError::BitLengthNotByteAligned { requested_bits } => "bit length must be divisible by 8, got "@
            + decimal(requested_bits as nat),
        BitBabblerError::InvalidFold { value } => "fold must be between 0 and 4 inclusive, got "@ + decimal(value as nat),
        BitBabblerError::InvalidRange { start, end } => "invalid range: start ("@ + decimal(start as nat)
            + ") must be less than end ("@ + decimal(end as nat) + ")"@,
        BitBabblerError::AllocationFailed { requested_bits } => "failed to reserve buffer for "@ + decimal(
            requested_bits as nat,
        ) + " bit(s)"@,
        BitBabblerError::PermissionDenied => "permission denied while accessing the USB device"@,
        BitBabblerError::DeviceBusy => "USB device interface is busy"@,
        BitBabblerError::DeviceDisconnected => "USB device disconnected or handle invalid"@,
        BitBabblerError::TransferTimeout { operation } => "USB transfer timed out during "@ + usb_operation_label(
            operation,
        ),
        BitBabblerError::Usb { operation, source } => match source {
            Some(kind) => "USB error during "@ + usb_operation_label(operation) + ": "@ + usb_error_text(kind),
            None => "USB error during "@ + usb_operation_label(operation),
        },
        BitBabblerError::ProtocolViolation { operation } => "protocol violation during "@ + protocol_operation_label(
            operation,
        ),
        BitBabblerError::InitializationFailed { attempts, source } => "FTDI/MPSSE initialization failed after "@
            + decimal(attempts as nat) + " attempt(s): "@ + error_message(*source),
        BitBabblerError::ReadRetriesExhausted { attempts } => "entropy read retries exhausted after "@ + decimal(
            attempts as nat,
        ) + " attempt(s)"@,
        BitBabblerError::RangeSamplingExhausted { attempts } => "range rejection sampling exhausted after "@
            + decimal(attempts as nat) + " sample(s)"@,
    }
}

/// `a` followed by `b`.
fn joined(a: &str, b: &str) -> (text: String)
    ensures
        text@ == a@ + b@,
{
    let mut text = String::from_str(a);
    text.append(b);
    text
}

impl BitBabblerError {
    /// Diagnostic text for this error; not a stable wire protocol.
    pub fn message(&self) -> (text: String)
        ensures
            text@ == error_message(*self),
        decreases self,
    {
        match self {
            BitBabblerError::NoDevice => String::from_str("no BitBabbler White or Black device found"),
            BitBabblerError::MultipleDevices { count } => {
                let mut text = String::from_str("multiple BitBabbler devices found (");
                text.append(decimal_string(*count as u64).as_str());
                text.append("); open by serial");
                text
            },
            BitBabblerError::DeviceNotFound { serial } => {
                let mut text = joined("no BitBabbler device with serial '", serial.as_str());
                text.append("'");
                text
            },
            BitBabblerError::MissingSerial => String::from_str("serial number must not be empty"),
            BitBabblerError::UnsupportedProduct { product } => {
                let mut text = joined("unsupported BitBabbler product '", product.as_str());
                text.append("'");
                text
            },
            BitBabblerError::ZeroBitLength => String::from_str("bit length must be greater than zero"),
            BitBabblerError::BitLengthNotByteAligned { requested_bits } => joined(
                "bit length must be divisible by 8, got ",
                decimal_string(*requested_bits as u64).as_str(),
            ),
            BitBabblerError::InvalidFold { value } => joined(
                "fold must be between 0 and 4 inclusive, got ",
                decimal_string(*value as u64).as_str(),
            ),
            BitBabblerError::InvalidRange { start, end } => {
                let mut text = joined("invalid range: start (", decimal_string(*start).as_str());
                text.append(") must be less than end (");
                text.append(decimal_string(*end).as_str());
                text.append(")");
                text
            },
            BitBabblerError::AllocationFailed { requested_bits } => {
                let mut text = joined("failed to reserve buffer for ", decimal_string(*requested_bits as u64).as_str());
                text.append(" bit(s)");
                text
            },
            BitBabblerError::PermissionDenied => String::from_str("permission denied while accessing the USB device"),
            BitBabblerError::DeviceBusy => String::from_str("USB device interface is busy"),
            BitBabblerError::DeviceDisconnected => String::from_str("USB device disconnected or handle invalid"),
            BitBabblerError::TransferTimeout { operation } => joined("USB transfer timed out during ", operation.as_str()),
            BitBabblerError::Usb { operation, source } => {
                let mut text = joined("USB error during ", operation.as_str());
                match source {
                    Some(kind) => {
                        text.append(": ");
                        text.append(rusb_error_text(*kind).as_str());
                    },
                    None => {},
                }
                text
            },
            BitBabblerError::ProtocolViolation { operation } => joined("protocol violation during ", operation.as_str()),
            BitBabblerError::InitializationFailed { attempts, source } => {
                let mut text = joined(
                    "FTDI/MPSSE initialization failed after ",
                    decimal_string(*attempts as u64).as_str(),
                );
                text.append(" attempt(s): ");
                let inner: &BitBabblerError = source;
                text.append(inner.message().as_str());
                text
            },
            BitBabblerError::ReadRetriesExhausted { attempts } => {
                let mut text = joined("entropy read retries exhausted after ", decimal_string(*attempts as u64).as_str());
                text.append(" attempt(s)");
                text
            },
            BitBabblerError::RangeSamplingExhausted { attempts } => {
                let mut text = joined(
                    "range rejection sampling exhausted after ",
                    decimal_string(*attempts as u64).as_str(),
                );
                text.append(" sample(s)");
                text
            },
        }
    }
}

/// Every error has diagnostic text: no message is empty.
pub proof fn lemma_messages_are_non_empty(e: BitBabblerError)
    ensures
        error_message(e).len() > 0,
{
    reveal_strlit("no BitBabbler White or Black device found");
    reveal_strlit("multiple BitBabbler devices found (");
    reveal_strlit("no BitBabbler device with serial '");
    reveal_strlit("serial number must not be empty");
    reveal_strlit("unsupported BitBabbler product '");
    reveal_strlit("bit length must be greater than zero");
    reveal_strlit("bit length must be divisible by 8, got ");
    reveal_strlit("fold must be between 0 and 4 inclusive, got ");
    reveal_strlit("invalid range: start (");
    reveal_strlit("failed to reserve buffer for ");
    reveal_strlit("permission denied while accessing the USB device");
    reveal_strlit("USB device interface is busy");
    reveal_strlit("USB device disconnected or handle invalid");
    reveal_strlit("USB transfer timed out during ");
    reveal_strlit("USB error during ");
    reveal_strlit("protocol violation during ");
    reveal_strlit("FTDI/MPSSE initialization failed after ");
    reveal_strlit("entropy read retries exhausted after ");
    reveal_strlit("range rejection sampling exhausted after ");
}

/// The text of a failed initialization ends with the text of its cause.
pub proof fn lemma_initialization_message_keeps_source(attempts: u32, source: BitBabblerError)
    ensures
        ({
            let outer = error_message(BitBabblerError::InitializationFailed { attempts, source: Box::new(source) });
            let inner = error_message(source);
            &&& outer.len() > inner.len()
            &&& outer.skip(outer.len() - inner.len()) == inner
        }),
{
    reveal_strlit("FTDI/MPSSE initialization failed after ");
    let outer = error_message(BitBabblerError::InitializationFailed { attempts, source: Box::new(source) });
    let inner = error_message(source);
    let head = "FTDI/MPSSE initialization failed after "@ + decimal(attempts as nat) + " attempt(s): "@;
    assert(outer == head + inner);
    assert(outer.skip(outer.len() - inner.len()) =~= inner);
}

} // verus!
