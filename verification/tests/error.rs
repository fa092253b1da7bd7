//! Error classification and diagnostic text.

use bitb_rs::{BitBabblerError, ProtocolOperation, UsbErrorKind, UsbOperation};

fn sample_init_failed() -> BitBabblerError {
    BitBabblerError::initialization_failed(20, BitBabblerError::protocol(ProtocolOperation::MpsseSync))
}

#[test]
fn display_messages_are_non_empty() {
    let cases = [
        BitBabblerError::NoDevice,
        BitBabblerError::MultipleDevices { count: 2 },
        BitBabblerError::DeviceNotFound { serial: "ABC".into() },
        BitBabblerError::MissingSerial,
        BitBabblerError::UnsupportedProduct { product: "Other".into() },
        BitBabblerError::ZeroBitLength,
        BitBabblerError::BitLengthNotByteAligned { requested_bits: 7 },
        BitBabblerError::InvalidFold { value: 5 },
        BitBabblerError::InvalidRange { start: 5, end: 2 },
        BitBabblerError::AllocationFailed { requested_bits: 64 },
        BitBabblerError::PermissionDenied,
        BitBabblerError::DeviceBusy,
        BitBabblerError::DeviceDisconnected,
        BitBabblerError::TransferTimeout { operation: UsbOperation::BulkRead },
        BitBabblerError::Usb { operation: UsbOperation::Open, source: None },
        BitBabblerError::ProtocolViolation { operation: ProtocolOperation::MpsseSync },
        sample_init_failed(),
        BitBabblerError::ReadRetriesExhausted { attempts: 10 },
        BitBabblerError::RangeSamplingExhausted { attempts: 100 },
    ];
    for err in cases {
        assert!(!err.message().is_empty(), "{err:?}");
    }
}

#[test]
fn variants_are_distinguishable() {
    assert_ne!(BitBabblerError::NoDevice, BitBabblerError::DeviceBusy);
    assert_ne!(
        BitBabblerError::MultipleDevices { count: 2 },
        BitBabblerError::MultipleDevices { count: 3 }
    );
}

#[test]
fn initialization_failed_preserves_source() {
    let err = sample_init_failed();
    assert_eq!(
        err.source().map(|e| e.message()).as_deref(),
        Some("protocol violation during mpsse_sync")
    );
    assert!(err.message().contains("protocol violation during mpsse_sync"));
}

#[test]
fn display_non_empty_for_public_variants() {
    let cases = [
        BitBabblerError::NoDevice,
        BitBabblerError::MultipleDevices { count: 2 },
        BitBabblerError::DeviceNotFound { serial: "X".into() },
        BitBabblerError::MissingSerial,
        BitBabblerError::UnsupportedProduct { product: "Other".into() },
        BitBabblerError::ZeroBitLength,
        BitBabblerError::BitLengthNotByteAligned { requested_bits: 3 },
        BitBabblerError::InvalidFold { value: 9 },
        BitBabblerError::InvalidRange { start: 1, end: 1 },
        BitBabblerError::AllocationFailed { requested_bits: 8 },
        BitBabblerError::PermissionDenied,
        BitBabblerError::DeviceBusy,
        BitBabblerError::DeviceDisconnected,
        BitBabblerError::TransferTimeout { operation: UsbOperation::BulkRead },
        BitBabblerError::Usb { operation: UsbOperation::Open, source: None },
        BitBabblerError::ProtocolViolation { operation: ProtocolOperation::MpsseSync },
        BitBabblerError::InitializationFailed {
            attempts: 1,
            source: Box::new(BitBabblerError::ProtocolViolation { operation: ProtocolOperation::MpsseSync }),
        },
        BitBabblerError::ReadRetriesExhausted { attempts: 1 },
        BitBabblerError::RangeSamplingExhausted { attempts: 1 },
    ];
    for err in cases {
        assert!(!err.message().is_empty(), "{err:?}");
    }
}

#[test]
fn matchable_variants() {
    let err = BitBabblerError::MultipleDevices { count: 3 };
    match err {
        BitBabblerError::MultipleDevices { count } => assert_eq!(count, 3),
        other => panic!("unexpected {other:?}"),
    }
}

#[test]
fn initialization_failed_exposes_source() {
    let err = BitBabblerError::InitializationFailed {
        attempts: 2,
        source: Box::new(BitBabblerError::ProtocolViolation { operation: ProtocolOperation::ModemStatus }),
    };
    assert_eq!(
        err.source().map(|e| e.message()).as_deref(),
        Some("protocol violation during modem_status")
    );
}

#[test]
fn messages_carry_numbers_and_labels() {
    assert_eq!(
        BitBabblerError::MultipleDevices { count: 12 }.message(),
        "multiple BitBabbler devices found (12); open by serial"
    );
    assert_eq!(
        BitBabblerError::InvalidRange { start: 5, end: 2 }.message(),
        "invalid range: start (5) must be less than end (2)"
    );
    assert_eq!(
        BitBabblerError::Usb { operation: UsbOperation::BulkRead, source: Some(UsbErrorKind::Pipe) }.message(),
        "USB error during bulk_read: Pipe error"
    );
    assert_eq!(
        BitBabblerError::AllocationFailed { requested_bits: usize::MAX }.message(),
        format!("failed to reserve buffer for {} bit(s)", usize::MAX)
    );
    assert_eq!(
        sample_init_failed().message(),
        "FTDI/MPSSE initialization failed after 20 attempt(s): protocol violation during mpsse_sync"
    );
}

#[test]
fn usb_failures_are_classified() {
    let op = UsbOperation::ControlOut;
    assert_eq!(BitBabblerError::from_usb(op, UsbErrorKind::Access), BitBabblerError::PermissionDenied);
    assert_eq!(BitBabblerError::from_usb(op, UsbErrorKind::Busy), BitBabblerError::DeviceBusy);
    assert_eq!(BitBabblerError::from_usb(op, UsbErrorKind::NoDevice), BitBabblerError::DeviceDisconnected);
    assert_eq!(
        BitBabblerError::from_usb(op, UsbErrorKind::Timeout),
        BitBabblerError::TransferTimeout { operation: op }
    );
    assert_eq!(
        BitBabblerError::from_usb(op, UsbErrorKind::Io),
        BitBabblerError::Usb { operation: op, source: Some(UsbErrorKind::Io) }
    );
}

#[test]
fn labels_are_stable() {
    assert_eq!(UsbOperation::ReadSerialString.as_str(), "read_serial_string");
    assert_eq!(ProtocolOperation::IncompleteLineStatus.as_str(), "incomplete_line_status");
}

#[test]
fn usb_failure_text_is_the_usb_library_text() {
    let err = BitBabblerError::Usb { operation: UsbOperation::ConfigDescriptor, source: Some(UsbErrorKind::BadDescriptor) };
    assert_eq!(err.message(), "USB error during config_descriptor: Malformed descriptor");
    let err = BitBabblerError::Usb { operation: UsbOperation::BulkRead, source: Some(UsbErrorKind::Pipe) };
    assert_eq!(err.message(), "USB error during bulk_read: Pipe error");
}

#[test]
fn clone_keeps_nested_source() {
    let err = sample_init_failed();
    assert_eq!(err.clone(), err);
}
