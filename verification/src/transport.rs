//! The USB transport seam and the descriptor rules applied during discovery.
//!
//! [`UsbHandle`] and [`UsbBackend`] are the byte-level operations that the
//! FTDI/MPSSE engine needs from a USB stack. They carry no contract: every
//! result they hand back is checked by the verified code above them, so the
//! engine's guarantees hold whatever an implementation does.

use vstd::prelude::*;
use crate::error::{classify_usb_failure, BitBabblerError, ProtocolOperation, UsbErrorKind, UsbOperation};
use crate::policy::{PRODUCT_ID, USB_ALT_SETTING, USB_CONFIGURATION, USB_INTERFACE, VENDOR_ID};

verus! {

/// Bulk endpoints and max packet size validated during open.
#[derive(Debug, Clone, Copy, PartialEq, Eq, Structural)]
pub struct EndpointConfig {
    /// Bulk IN endpoint address.
    pub ep_in: u8,
    /// Bulk OUT endpoint address.
    pub ep_out: u8,
    /// Max packet size shared by both endpoints.
    pub max_packet: u16,
}

/// Device operations required by the FTDI/MPSSE layer.
pub trait UsbHandle {
    /// Releases a claimed interface.
    fn release_interface(&mut self, number: u8) -> Result<(), BitBabblerError>;

    /// Control transfer, host to device, with no data stage.
    fn vendor_control_out(&mut self, request_type: u8, request: u8, value: u16, index: u16) -> Result<
        (),
        BitBabblerError,
    >;

    /// Control transfer, device to host, of at most `len` bytes.
    fn vendor_control_in(&mut self, request_type: u8, request: u8, value: u16, index: u16, len: usize) -> Result<
        Vec<u8>,
        BitBabblerError,
    >;

    /// Bulk OUT transfer; returns how many bytes of `data` were sent.
    fn bulk_write(&mut self, endpoint: u8, data: &[u8]) -> Result<usize, BitBabblerError>;

    /// Bulk IN transfer of at most `max_len` bytes; returns the bytes received.
    fn bulk_read(&mut self, endpoint: u8, max_len: usize) -> Result<Vec<u8>, BitBabblerError>;

    /// Waits `ms` milliseconds (settle delays between configuration steps).
    fn sleep_ms(&mut self, ms: u64);
}

/// Identified candidate prior to full protocol initialization.
#[derive(Debug)]
pub struct EnumeratedDevice {
    /// Product string descriptor, trimmed.
    pub product: String,
    /// Serial string descriptor, trimmed.
    pub serial: String,
    /// USB bus number at enumeration time.
    pub bus_number: u8,
    /// USB device address at enumeration time.
    pub device_address: u8,
    /// Endpoint layout validated from the configuration descriptor.
    pub endpoints: EndpointConfig,
}

/// Discovery and opening of devices with the BitBabbler VID:PID.
pub trait UsbBackend {
    /// The handle type that [`UsbBackend::open_device`] gives.
    type Handle: UsbHandle;

    /// Lists attached devices with VID:PID `0403:7840`.
    fn enumerate(&mut self) -> Result<Vec<EnumeratedDevice>, BitBabblerError>;

    /// Opens an enumerated device, selects its configuration and claims its
    /// interface.
    fn open_device(&mut self, device: &EnumeratedDevice) -> Result<Self::Handle, BitBabblerError>;
}

impl Clone for EnumeratedDevice {
    fn clone(&self) -> (copy: Self)
        ensures
            copy == *self,
    {
        EnumeratedDevice {
            product: self.product.clone(),
            serial: self.serial.clone(),
            bus_number: self.bus_number,
            device_address: self.device_address,
            endpoints: self.endpoints,
        }
    }
}

/// `bmRequestType` of a vendor request addressed to the device: direction
/// bit `0x80` when the data stage goes device to host, type bits `0x40`
/// (vendor), recipient bits `0` (device).
pub open spec fn vendor_request_type(device_to_host: bool) -> u8 {
    if device_to_host {
        0xC0
    } else {
        0x40
    }
}

/// `bmRequestType` for a vendor request to the device.
///
/// Calls `rusb::request_type` with the direction, `RequestType::Vendor` and
/// `Recipient::Device`. Claimed: rusb ORs the direction bit (`0x80` for IN,
/// `0` for OUT), the vendor type bits (`0x40`) and the device recipient
/// bits (`0`), as its source does.
#[verifier::external_body]
pub(crate) fn vendor_device_request_type(device_to_host: bool) -> (request_type: u8)
    ensures
        request_type == vendor_request_type(device_to_host),
{
    let direction = if device_to_host { rusb::Direction::In } else { rusb::Direction::Out };
    rusb::request_type(direction, rusb::RequestType::Vendor, rusb::Recipient::Device)
}

/// Whether a USB device descriptor names the BitBabbler VID:PID `0403:7840`.
pub fn is_bitbabbler_id(vendor_id: u16, product_id: u16) -> (matches: bool)
    ensures
        matches == (vendor_id == VENDOR_ID && product_id == PRODUCT_ID),
{
    vendor_id == VENDOR_ID && product_id == PRODUCT_ID
}

/// Whether a character has the Unicode `White_Space` property.
pub open spec fn is_white_space(c: char) -> bool {
    let u = c as u32;
    ||| 0x09 <= u <= 0x0D
    ||| u == 0x20
    ||| u == 0x85
    ||| u == 0xA0
    ||| u == 0x1680
    ||| 0x2000 <= u <= 0x200A
    ||| u == 0x2028
    ||| u == 0x2029
    ||| u == 0x202F
    ||| u == 0x205F
    ||| u == 0x3000
}

/// A string without its leading and trailing `White_Space` characters.
pub open spec fn trimmed(s: Seq<char>) -> Seq<char>
    decreases s.len(),
{
    if s.len() > 0 && is_white_space(s[0]) {
        trimmed(s.drop_first())
    } else if s.len() > 0 && is_white_space(s.last()) {
        trimmed(s.drop_last())
    } else {
        s
    }
}

/// Removes leading and trailing whitespace.
///
/// Calls `str::trim` and copies the result. Claimed: std documents `trim`
/// as removing leading and trailing characters with the Unicode
/// `White_Space` property, which is `trimmed`.
#[verifier::external_body]
fn trim_to_string(s: &str) -> (t: String)
    ensures
        t@ == trimmed(s@),
{
    s.trim().to_string()
}

/// What reading a required string descriptor gives: a missing index is a
/// protocol violation, a failed read keeps the USB failure, and the value is
/// the trimmed string, which must not be empty.
pub open spec fn required_string_outcome(
    index: Option<u8>,
    read: Result<Seq<char>, UsbErrorKind>,
    missing_index_op: ProtocolOperation,
    read_op: UsbOperation,
    empty_op: ProtocolOperation,
) -> Result<Seq<char>, BitBabblerError> {
    match index {
        None => Err(BitBabblerError::ProtocolViolation { operation: missing_index_op }),
        Some(_) => match read {
            Err(kind) => Err(classify_usb_failure(read_op, kind)),
            Ok(raw) => if trimmed(raw).len() == 0 {
                Err(BitBabblerError::ProtocolViolation { operation: empty_op })
            } else {
                Ok(trimmed(raw))
            },
        },
    }
}

/// Resolves a required USB string descriptor from its index and the result
/// of reading it, so that descriptor failures are never collapsed to empty
/// strings.
pub fn resolve_required_string(
    index: Option<u8>,
    read: Result<String, UsbErrorKind>,
    missing_index_op: ProtocolOperation,
    read_op: UsbOperation,
    empty_op: ProtocolOperation,
) -> (resolved: Result<String, BitBabblerError>)
    ensures
        ({
            let read_view = match read {
                Ok(raw) => Ok::<Seq<char>, UsbErrorKind>(raw@),
                Err(kind) => Err::<Seq<char>, UsbErrorKind>(kind),
            };
            let expected = required_string_outcome(index, read_view, missing_index_op, read_op, empty_op);
            match resolved {
                Ok(value) => expected == Ok::<Seq<char>, BitBabblerError>(value@),
                Err(e) => expected == Err::<Seq<char>, BitBabblerError>(e),
            }
        }),
{
    if index.is_none() {
        return Err(BitBabblerError::protocol(missing_index_op));
    }
    let raw = match read {
        Ok(raw) => raw,
        Err(kind) => return Err(BitBabblerError::from_usb(read_op, kind)),
    };
    let value = trim_to_string(raw.as_str());
    if value.as_str().is_empty() {
        return Err(BitBabblerError::protocol(empty_op));
    }
    Ok(value)
}

/// One endpoint of an interface's alternate setting, as its descriptor gives it.
#[derive(Debug, Clone, Copy, PartialEq, Eq, Structural)]
pub struct EndpointDescriptorInfo {
    /// Endpoint address.
    pub address: u8,
    /// Whether the endpoint direction is IN (device to host).
    pub is_in: bool,
    /// Whether the transfer type is bulk.
    pub is_bulk: bool,
    /// wMaxPacketSize.
    pub max_packet: u16,
}

/// One alternate setting of an interface, as the configuration descriptor
/// gives it.
#[derive(Debug)]
pub struct AltSettingInfo {
    /// bInterfaceNumber.
    pub interface_number: u8,
    /// bAlternateSetting.
    pub setting_number: u8,
    /// The setting's endpoints, in descriptor order.
    pub endpoints: Vec<EndpointDescriptorInfo>,
}

/// Whether an alternate setting is the one the device is driven through.
pub open spec fn is_required_setting(alt: AltSettingInfo) -> bool {
    alt.interface_number == USB_INTERFACE && alt.setting_number == USB_ALT_SETTING
}

/// Index of the first required alternate setting at or after `from`.
pub open spec fn first_required_setting(alts: Seq<AltSettingInfo>, from: int) -> Option<int>
    decreases alts.len() - from,
{
    if from < 0 || from >= alts.len() {
        None
    } else if is_required_setting(alts[from]) {
        Some(from)
    } else {
        first_required_setting(alts, from + 1)
    }
}

/// The endpoint layout rules: configuration 1; interface 0 alternate
/// setting 0 present; exactly two endpoints, the first bulk IN and the
/// second bulk OUT; a max packet size above the two status bytes and the
/// same on both endpoints.
pub open spec fn endpoint_layout(config_number: u8, alts: Seq<AltSettingInfo>) -> Result<EndpointConfig, BitBabblerError> {
    if config_number != USB_CONFIGURATION {
        Err(BitBabblerError::ProtocolViolation { operation: ProtocolOperation::UsbConfiguration })
    } else {
        match first_required_setting(alts, 0) {
            None => Err(BitBabblerError::ProtocolViolation { operation: ProtocolOperation::UsbInterface }),
            Some(i) => {
                let eps = alts[i].endpoints@;
                if eps.len() != 2 {
                    Err(BitBabblerError::ProtocolViolation { operation: ProtocolOperation::EndpointCount })
                } else if !eps[0].is_in {
                    Err(BitBabblerError::ProtocolViolation { operation: ProtocolOperation::EndpointInDirection })
                } else if eps[1].is_in {
                    Err(BitBabblerError::ProtocolViolation { operation: ProtocolOperation::EndpointOutDirection })
                } else if !eps[0].is_bulk || !eps[1].is_bulk {
                    Err(BitBabblerError::ProtocolViolation { operation: ProtocolOperation::EndpointTransferType })
                } else if eps[0].max_packet <= 2 {
                    Err(BitBabblerError::ProtocolViolation { operation: ProtocolOperation::MaxPacketSize })
                } else if eps[1].max_packet != eps[0].max_packet {
                    Err(BitBabblerError::ProtocolViolation { operation: ProtocolOperation::MaxPacketMismatch })
                } else {
                    Ok(EndpointConfig { ep_in: eps[0].address, ep_out: eps[1].address, max_packet: eps[0].max_packet })
                }
            },
        }
    }
}

/// Validates the configuration descriptor's layout and gives the bulk
/// endpoints and packet size to use.
pub fn endpoint_config_from_layout(config_number: u8, alts: &Vec<AltSettingInfo>) -> (config: Result<EndpointConfig, BitBabblerError>)
    ensures
        config == endpoint_layout(config_number, alts@),
{
    if config_number != USB_CONFIGURATION {
        return Err(BitBabblerError::protocol(ProtocolOperation::UsbConfiguration));
    }
    let mut i: usize = 0;
    while i < alts.len()
        invariant
            i <= alts@.len(),
            first_required_setting(alts@, 0) == first_required_setting(alts@, i as int),
        ensures
            i <= alts@.len(),
            first_required_setting(alts@, 0) == first_required_setting(alts@, i as int),
            i < alts@.len() ==> is_required_setting(alts@[i as int]),
        decreases alts@.len() - i,
    {
        if alts[i].interface_number == USB_INTERFACE && alts[i].setting_number == USB_ALT_SETTING {
            break;
        }
        i = i + 1;
    }
    if i == alts.len() {
        return Err(BitBabblerError::protocol(ProtocolOperation::UsbInterface));
    }
    assert(first_required_setting(alts@, 0) == Some(i as int));
    let endpoints = &alts[i].endpoints;
    if endpoints.len() != 2 {
        return Err(BitBabblerError::protocol(ProtocolOperation::EndpointCount));
    }
    let ep0 = endpoints[0];
    let ep1 = endpoints[1];
    if !ep0.is_in {
        return Err(BitBabblerError::protocol(ProtocolOperation::EndpointInDirection));
    }
    if ep1.is_in {
        return Err(BitBabblerError::protocol(ProtocolOperation::EndpointOutDirection));
    }
    if !ep0.is_bulk || !ep1.is_bulk {
        return Err(BitBabblerError::protocol(ProtocolOperation::EndpointTransferType));
    }
    let max_packet = ep0.max_packet;
    if max_packet <= 2 {
        return Err(BitBabblerError::protocol(ProtocolOperation::MaxPacketSize));
    }
    if ep1.max_packet != max_packet {
        return Err(BitBabblerError::protocol(ProtocolOperation::MaxPacketMismatch));
    }
    Ok(EndpointConfig { ep_in: ep0.address, ep_out: ep1.address, max_packet })
}

/// Checks that the live endpoint layout of a device being opened is still
/// the one seen at enumeration.
pub fn check_endpoints_unchanged(live: EndpointConfig, enumerated: EndpointConfig) -> (checked: Result<(), BitBabblerError>)
    ensures
        checked == if live == enumerated {
            Ok::<(), BitBabblerError>(())
        } else {
            Err(BitBabblerError::ProtocolViolation { operation: ProtocolOperation::EndpointConfigChanged })
        },
{
    if live != enumerated {
        return Err(BitBabblerError::protocol(ProtocolOperation::EndpointConfigChanged));
    }
    Ok(())
}

} // verus!
