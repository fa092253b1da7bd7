//! Device selection rules over enumerations, without a USB stack.

use bitb_rs::device::{classify_product, device_info_from_enumerated, device_infos, select_by_serial, select_single};
use bitb_rs::transport::{EndpointConfig, EnumeratedDevice};
use bitb_rs::{BitBabblerError, DeviceInfo, DeviceVariant};

fn candidate(id: u8, product: &str, serial: &str, max_packet: u16) -> EnumeratedDevice {
    EnumeratedDevice {
        product: product.into(),
        serial: serial.into(),
        bus_number: 1,
        device_address: id,
        endpoints: EndpointConfig { ep_in: 0x81, ep_out: 0x02, max_packet },
    }
}

fn white(id: u8, serial: &str) -> EnumeratedDevice {
    candidate(id, "White RNG", serial, 64)
}

fn black(id: u8, serial: &str) -> EnumeratedDevice {
    candidate(id, "Black RNG", serial, 512)
}

fn unknown(id: u8, product: &str) -> EnumeratedDevice {
    candidate(id, product, &format!("UNK{id}"), 64)
}

fn select(candidates: Vec<EnumeratedDevice>, serial: Option<&str>) -> Result<DeviceInfo, BitBabblerError> {
    let dev = match serial {
        Some(s) => select_by_serial(candidates, s)?,
        None => select_single(candidates)?,
    };
    device_info_from_enumerated(&dev)
}

#[test]
fn selection_none() {
    let err = select(vec![], None).unwrap_err();
    assert_eq!(err, BitBabblerError::NoDevice);
}

#[test]
fn selection_one_white() {
    let info = select(vec![white(1, "W1")], None).unwrap();
    assert_eq!(info.variant, DeviceVariant::White);
    assert_eq!(info.serial, "W1");
}

#[test]
fn selection_multiple() {
    let err = select(vec![white(1, "W1"), black(2, "B1")], None).unwrap_err();
    assert_eq!(err, BitBabblerError::MultipleDevices { count: 2 });
}

#[test]
fn selection_by_serial() {
    let info = select(vec![white(1, "W1"), black(2, "B1")], Some("B1")).unwrap();
    assert_eq!(info.variant, DeviceVariant::Black);
}

#[test]
fn selection_serial_missing() {
    let err = select(vec![white(1, "W1")], Some("NOPE")).unwrap_err();
    assert!(matches!(err, BitBabblerError::DeviceNotFound { .. }));
}

#[test]
fn selection_serial_empty() {
    let err = select(vec![white(1, "W1")], Some("")).unwrap_err();
    assert_eq!(err, BitBabblerError::MissingSerial);
}

#[test]
fn unsupported_product_rejected() {
    let err = select(vec![unknown(1, "Purple RNG")], None).unwrap_err();
    assert!(matches!(
        err,
        BitBabblerError::UnsupportedProduct { product } if product == "Purple RNG"
    ));
}

#[test]
fn unsupported_product_with_requested_serial_is_reported() {
    let mut purple = unknown(1, "Purple RNG");
    purple.serial = "S1".into();
    let err = select(vec![purple, white(2, "S1")], Some("S1")).unwrap_err();
    assert_eq!(err, BitBabblerError::UnsupportedProduct { product: "Purple RNG".into() });
}

#[test]
fn unsupported_product_with_other_serial_does_not_block_serial_selection() {
    let info = select(vec![unknown(1, "Purple RNG"), white(2, "W2")], Some("W2")).unwrap();
    assert_eq!(info.serial, "W2");
    assert_eq!(info.device_address, 2);
}

#[test]
fn device_not_found_carries_serial() {
    let err = select(vec![black(1, "B1")], Some("W9")).unwrap_err();
    assert_eq!(err, BitBabblerError::DeviceNotFound { serial: "W9".into() });
}

#[test]
fn listing_keeps_order_and_metadata() {
    let infos = device_infos(vec![white(3, "W3"), black(4, "B4")]).unwrap();
    assert_eq!(infos.len(), 2);
    assert_eq!(infos[0].variant, DeviceVariant::White);
    assert_eq!(infos[0].device_address, 3);
    assert_eq!(infos[1].variant, DeviceVariant::Black);
    assert_eq!(infos[1].product, "Black RNG");
}

#[test]
fn listing_fails_on_unsupported_product() {
    let err = device_infos(vec![white(1, "W1"), unknown(2, "Green RNG")]).unwrap_err();
    assert_eq!(err, BitBabblerError::UnsupportedProduct { product: "Green RNG".into() });
}

#[test]
fn product_classification_is_exact() {
    assert_eq!(classify_product(&"White RNG".to_string()), Some(DeviceVariant::White));
    assert_eq!(classify_product(&"Black RNG".to_string()), Some(DeviceVariant::Black));
    assert_eq!(classify_product(&"white rng".to_string()), None);
    assert_eq!(classify_product(&"White RNG ".to_string()), None);
}
