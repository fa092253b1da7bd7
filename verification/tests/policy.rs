//! Fixed configuration values and the formulas derived from them.

use bitb_rs::policy::{
    clock_divisor, latency_timer_ms, pin_direction_byte, pin_value_byte, FTDI_INIT_RETRIES,
    FTDI_READ_RETRIES, MAX_MPSSE_READ_BYTES, MAX_RANGE_SAMPLES, USB_TIMEOUT_MS,
};

#[test]
fn bitrate_divisor_is_eleven_for_2_5_mbit() {
    // 30_000_000 / 2_500_000 - 1 = 11
    assert_eq!(clock_divisor(), 11);
}

#[test]
fn latency_for_common_packet_sizes() {
    assert_eq!(latency_timer_ms(64), 2);
    assert_eq!(latency_timer_ms(512), 3);
}

#[test]
fn default_pin_config_matches_official_defaults() {
    // enable_mask 0x0f → inverted high nibble 0; direction 0x0B; value 0x00
    assert_eq!(pin_direction_byte(), 0x0B);
    assert_eq!(pin_value_byte(), 0x00);
}

#[test]
fn constants_are_private_policy_not_public_api() {
    // Sanity: finite positive budgets stay non-zero and match protocol limits.
    const {
        assert!(USB_TIMEOUT_MS > 0);
        assert!(FTDI_READ_RETRIES > 0);
        assert!(FTDI_INIT_RETRIES > 0);
        assert!(MAX_RANGE_SAMPLES > 0);
        assert!(MAX_MPSSE_READ_BYTES == 65_536);
    }
}

#[test]
fn latency_for_extreme_packet_sizes() {
    assert_eq!(latency_timer_ms(0), 2);
    // 65535 * 8000 / 2_500_000 = 209, plus 2.
    assert_eq!(latency_timer_ms(u16::MAX), 211);
}
