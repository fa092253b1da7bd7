//! Finite limits and fixed configuration for USB I/O, initialization, and sampling.

use vstd::prelude::*;

verus! {

/// USB control/bulk transfer timeout in milliseconds.
pub const USB_TIMEOUT_MS: u32 = 5_000;

/// Empty or incomplete FTDI bulk read retries before recovery/failure.
pub const FTDI_READ_RETRIES: u32 = 10;

/// Full FTDI/MPSSE initialization attempts before giving up.
pub const FTDI_INIT_RETRIES: u32 = 20;

/// Maximum rejection-sampling draws for one `random_range` call.
pub const MAX_RANGE_SAMPLES: u32 = 100;

/// Bulk transfers carrying data that one purge or one sync probe reads
/// before it stops looking.
pub const MAX_UNSOLICITED_TRANSFERS: u32 = 4_096;

/// Official default device bitrate in bits per second.
pub const BITRATE_BPS: u32 = 2_500_000;

/// MPSSE master clock reference used for divisor calculation (Hz).
pub const MPSSE_CLOCK_HZ: u32 = 30_000_000;

/// Maximum payload bytes per MPSSE read command.
pub const MAX_MPSSE_READ_BYTES: usize = 65_536;

/// Settle delay after switching into MPSSE mode (milliseconds).
pub const MPSSE_SETTLE_MS: u64 = 50;

/// Settle delay after clock/pin configuration (milliseconds).
pub const CLOCK_SETTLE_MS: u64 = 30;

/// Official generator enable mask: all four generators enabled (White);
/// Black ignores unused pins under the same configuration.
pub const GENERATOR_ENABLE_MASK: u8 = 0x0f;

/// Disable-polarity nibble applied to generator pins (official default: 0).
pub const GENERATOR_DISABLE_POLARITY: u8 = 0x00;

/// USB configuration value required by the device.
pub const USB_CONFIGURATION: u8 = 1;

/// Interface number claimed for FTDI channel A.
pub const USB_INTERFACE: u8 = 0;

/// Alternate setting for the claimed interface.
pub const USB_ALT_SETTING: u8 = 0;

/// FTDI interface index for channel A control requests.
pub const FTDI_INTERFACE_INDEX: u16 = 1;

/// BitBabbler USB vendor ID.
pub const VENDOR_ID: u16 = 0x0403;

/// BitBabbler USB product ID (White and Black).
pub const PRODUCT_ID: u16 = 0x7840;

/// Product string for the White variant.
pub const PRODUCT_WHITE: &'static str = "White RNG";

/// Product string for the Black variant.
pub const PRODUCT_BLACK: &'static str = "Black RNG";

/// The FTDI latency timer for a max packet size: the time one packet takes
/// at the device bitrate, in whole milliseconds, plus two, kept in `1..=255`.
pub open spec fn latency_for(max_packet: u16) -> int {
    let raw = (max_packet as int) * 8_000 / (BITRATE_BPS as int) + 2;
    if raw < 1 {
        1
    } else if raw > 255 {
        255
    } else {
        raw
    }
}

/// Compute the FTDI latency timer from max packet size and bitrate.
pub fn latency_timer_ms(max_packet: u16) -> (ms: u8)
    ensures
        ms == latency_for(max_packet),
{
    let scaled: u32 = (max_packet as u32) * 8_000;
    let raw: u32 = scaled / BITRATE_BPS + 2;
    if raw < 1 {
        1
    } else if raw > 255 {
        255
    } else {
        raw as u8
    }
}

/// MPSSE clock divisor for the official bitrate.
pub fn clock_divisor() -> (divisor: u16)
    ensures
        divisor == MPSSE_CLOCK_HZ / BITRATE_BPS - 1,
        divisor == 11,
{
    let div = MPSSE_CLOCK_HZ / BITRATE_BPS;
    (div - 1) as u16
}

/// Pin direction byte: CLK/DO/CS outputs plus disabled generators as outputs.
pub fn pin_direction_byte() -> (direction: u8)
    ensures
        direction == 0x0Bu8 | (((!GENERATOR_ENABLE_MASK) << 4u32) & 0xf0u8),
        direction == 0x0B,
{
    let enable_mask_nibble = (!GENERATOR_ENABLE_MASK).wrapping_shl(4) & 0xf0;
    let direction = 0x0B | enable_mask_nibble;
    assert(((!0x0fu8) << 4u32) & 0xf0u8 == 0u8) by (bit_vector);
    assert(0x0Bu8 | 0u8 == 0x0Bu8) by (bit_vector);
    direction
}

/// Pin value byte: CLK/DO/CS low with configured generator polarity.
pub fn pin_value_byte() -> (value: u8)
    ensures
        value == ((GENERATOR_DISABLE_POLARITY << 4u32) & 0xf0u8),
        value == 0,
{
    let value = GENERATOR_DISABLE_POLARITY.wrapping_shl(4) & 0xf0;
    assert((0u8 << 4u32) & 0xf0u8 == 0u8) by (bit_vector);
    value
}

} // verus!
