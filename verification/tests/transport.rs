//! Descriptor rules applied during discovery.

use bitb_rs::transport::{
    check_endpoints_unchanged, endpoint_config_from_layout, is_bitbabbler_id, resolve_required_string,
    AltSettingInfo, EndpointConfig, EndpointDescriptorInfo,
};
use bitb_rs::{BitBabblerError, ProtocolOperation, UsbErrorKind, UsbOperation};

fn resolve_product(index: Option<u8>, read: Result<String, UsbErrorKind>) -> Result<String, BitBabblerError> {
    resolve_required_string(
        index,
        read,
        ProtocolOperation::MissingProductStringIndex,
        UsbOperation::ReadProductString,
        ProtocolOperation::EmptyProductString,
    )
}

fn resolve_serial(index: Option<u8>, read: Result<String, UsbErrorKind>) -> Result<String, BitBabblerError> {
    resolve_required_string(
        index,
        read,
        ProtocolOperation::MissingSerialStringIndex,
        UsbOperation::ReadSerialString,
        ProtocolOperation::EmptySerialString,
    )
}

#[test]
fn product_string_rusb_error_is_preserved() {
    let err = resolve_product(Some(1), Err(UsbErrorKind::Access)).unwrap_err();
    assert_eq!(err, BitBabblerError::PermissionDenied);
}

#[test]
fn serial_string_rusb_error_is_preserved() {
    let err = resolve_serial(Some(2), Err(UsbErrorKind::Busy)).unwrap_err();
    assert_eq!(err, BitBabblerError::DeviceBusy);
}

#[test]
fn serial_timeout_maps_to_transfer_timeout() {
    let err = resolve_serial(Some(2), Err(UsbErrorKind::Timeout)).unwrap_err();
    assert_eq!(err, BitBabblerError::TransferTimeout { operation: UsbOperation::ReadSerialString });
}

#[test]
fn missing_product_index_is_protocol_violation() {
    let err = resolve_product(None, Ok("ignored".into())).unwrap_err();
    assert_eq!(
        err,
        BitBabblerError::ProtocolViolation { operation: ProtocolOperation::MissingProductStringIndex }
    );
}

#[test]
fn missing_serial_index_is_protocol_violation() {
    let err = resolve_serial(None, Ok("ignored".into())).unwrap_err();
    assert_eq!(
        err,
        BitBabblerError::ProtocolViolation { operation: ProtocolOperation::MissingSerialStringIndex }
    );
}

#[test]
fn empty_serial_after_trim_is_protocol_violation() {
    let err = resolve_serial(Some(2), Ok("   ".into())).unwrap_err();
    assert_eq!(err, BitBabblerError::ProtocolViolation { operation: ProtocolOperation::EmptySerialString });
    // MissingSerial remains reserved for open_by_serial("") argument errors.
    assert_ne!(err, BitBabblerError::MissingSerial);
}

#[test]
fn empty_product_after_trim_is_protocol_violation() {
    let err = resolve_product(Some(1), Ok(String::new())).unwrap_err();
    assert_eq!(err, BitBabblerError::ProtocolViolation { operation: ProtocolOperation::EmptyProductString });
}

#[test]
fn valid_string_is_trimmed() {
    let value = resolve_product(Some(1), Ok("  White RNG  ".into())).unwrap();
    assert_eq!(value, "White RNG");
}

#[test]
fn other_usb_error_preserves_operation() {
    let err = resolve_product(Some(1), Err(UsbErrorKind::Pipe)).unwrap_err();
    assert_eq!(
        err,
        BitBabblerError::Usb { operation: UsbOperation::ReadProductString, source: Some(UsbErrorKind::Pipe) }
    );
}

fn ep(address: u8, is_in: bool, is_bulk: bool, max_packet: u16) -> EndpointDescriptorInfo {
    EndpointDescriptorInfo { address, is_in, is_bulk, max_packet }
}

fn alt(interface_number: u8, setting_number: u8, endpoints: Vec<EndpointDescriptorInfo>) -> AltSettingInfo {
    AltSettingInfo { interface_number, setting_number, endpoints }
}

fn protocol_err(operation: ProtocolOperation) -> Result<EndpointConfig, BitBabblerError> {
    Err(BitBabblerError::ProtocolViolation { operation })
}

#[test]
fn official_endpoint_layout_is_accepted() {
    let alts = vec![alt(0, 0, vec![ep(0x81, true, true, 64), ep(0x02, false, true, 64)])];
    assert_eq!(
        endpoint_config_from_layout(1, &alts),
        Ok(EndpointConfig { ep_in: 0x81, ep_out: 0x02, max_packet: 64 })
    );
}

#[test]
fn endpoint_layout_violations_are_named() {
    let good = || vec![ep(0x81, true, true, 512), ep(0x02, false, true, 512)];
    assert_eq!(endpoint_config_from_layout(2, &vec![alt(0, 0, good())]), protocol_err(ProtocolOperation::UsbConfiguration));
    assert_eq!(endpoint_config_from_layout(1, &vec![alt(1, 0, good())]), protocol_err(ProtocolOperation::UsbInterface));
    assert_eq!(
        endpoint_config_from_layout(1, &vec![alt(0, 0, vec![ep(0x81, true, true, 64)])]),
        protocol_err(ProtocolOperation::EndpointCount)
    );
    assert_eq!(
        endpoint_config_from_layout(1, &vec![alt(0, 0, vec![ep(0x01, false, true, 64), ep(0x02, false, true, 64)])]),
        protocol_err(ProtocolOperation::EndpointInDirection)
    );
    assert_eq!(
        endpoint_config_from_layout(1, &vec![alt(0, 0, vec![ep(0x81, true, true, 64), ep(0x82, true, true, 64)])]),
        protocol_err(ProtocolOperation::EndpointOutDirection)
    );
    assert_eq!(
        endpoint_config_from_layout(1, &vec![alt(0, 0, vec![ep(0x81, true, false, 64), ep(0x02, false, true, 64)])]),
        protocol_err(ProtocolOperation::EndpointTransferType)
    );
    assert_eq!(
        endpoint_config_from_layout(1, &vec![alt(0, 0, vec![ep(0x81, true, true, 2), ep(0x02, false, true, 2)])]),
        protocol_err(ProtocolOperation::MaxPacketSize)
    );
    assert_eq!(
        endpoint_config_from_layout(1, &vec![alt(0, 0, vec![ep(0x81, true, true, 64), ep(0x02, false, true, 512)])]),
        protocol_err(ProtocolOperation::MaxPacketMismatch)
    );
}

#[test]
fn first_matching_alternate_setting_is_used() {
    let alts = vec![
        alt(0, 1, vec![]),
        alt(0, 0, vec![ep(0x83, true, true, 64), ep(0x04, false, true, 64)]),
        alt(0, 0, vec![]),
    ];
    assert_eq!(
        endpoint_config_from_layout(1, &alts),
        Ok(EndpointConfig { ep_in: 0x83, ep_out: 0x04, max_packet: 64 })
    );
}

#[test]
fn vendor_and_product_ids() {
    assert!(is_bitbabbler_id(0x0403, 0x7840));
    assert!(!is_bitbabbler_id(0x0403, 0x6001));
    assert!(!is_bitbabbler_id(0x1234, 0x7840));
}

#[test]
fn endpoint_change_is_detected() {
    let a = EndpointConfig { ep_in: 0x81, ep_out: 0x02, max_packet: 64 };
    let b = EndpointConfig { ep_in: 0x81, ep_out: 0x02, max_packet: 512 };
    assert_eq!(check_endpoints_unchanged(a, a), Ok(()));
    assert_eq!(
        check_endpoints_unchanged(b, a),
        Err(BitBabblerError::ProtocolViolation { operation: ProtocolOperation::EndpointConfigChanged })
    );
}
