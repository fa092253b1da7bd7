//! The FTDI/MPSSE engine and the device handle, driven through a scripted
//! in-memory USB handle that frames entropy the way the FTDI chip does.

use std::collections::VecDeque;
use std::sync::{Arc, Mutex};

use bitb_rs::device::device_info_from_enumerated;
use bitb_rs::fold::fold_contiguous;
use bitb_rs::policy::{
    clock_divisor, pin_direction_byte, pin_value_byte, FTDI_INTERFACE_INDEX, MAX_RANGE_SAMPLES,
};
use bitb_rs::protocol::{
    check_sync, ftdi_reset, ftdi_set_bitmode, ftdi_set_flow_control_rts_cts, ftdi_set_latency_timer,
    ftdi_set_special_chars, initialize, read_exact_raw, FtdiSession, BITMODE_MPSSE, BITMODE_RESET,
    FLOW_RTS_CTS, FTDI_SIO_GET_MODEM_STATUS, FTDI_SIO_RESET, FTDI_SIO_RESET_SIO, FTDI_SIO_SET_BITMODE,
    FTDI_SIO_SET_ERROR_CHAR, FTDI_SIO_SET_EVENT_CHAR, FTDI_SIO_SET_FLOW_CTRL, FTDI_SIO_SET_LATENCY_TIMER,
    LINE_STATUS_OK_MASK, MPSSE_NO_3PHASE_CLK, MPSSE_NO_ADAPTIVE_CLK, MPSSE_NO_CLK_DIV5, MPSSE_NO_LOOPBACK,
    MPSSE_SEND_IMMEDIATE, MPSSE_SET_CLK_DIVISOR, MPSSE_SET_DATABITS_HIGH, MPSSE_SET_DATABITS_LOW,
};
use bitb_rs::transport::{EndpointConfig, EnumeratedDevice, UsbBackend, UsbHandle};
use bitb_rs::{BitBabbler, BitBabblerError, Fold, ProtocolOperation, UsbOperation};

#[derive(Debug, Clone, PartialEq, Eq)]
enum RecordedOp {
    ReleaseInterface(u8),
    ControlOut { request: u8, value: u16, index: u16 },
    ControlIn { request: u8, value: u16, index: u16, len: usize },
    RequestType(u8),
    BulkWrite(Vec<u8>),
    BulkRead(usize),
    Sleep(u64),
}

#[derive(Debug, Clone)]
enum MockResponse {
    Bytes(Vec<u8>),
    Fail(BitBabblerError),
}

#[derive(Debug, Default)]
struct MockInner {
    log: Vec<RecordedOp>,
    /// Scripted bulk IN answers, served before any entropy.
    responses: VecDeque<MockResponse>,
    /// Entropy served by framed bulk reads.
    entropy: VecDeque<u8>,
    max_packet: u16,
    /// When true, bulk reads frame entropy into FTDI packets.
    frame_bulk: bool,
    /// When true, a sync probe is answered with the bogus-command echo.
    echo_sync: bool,
    disconnected: bool,
    /// Caps on the size of the next bulk reads.
    partial_reads: VecDeque<usize>,
    /// Data bytes still owed for the MPSSE read commands written so far.
    pending_data: Option<usize>,
    /// Error for the next vendor control OUT request.
    next_control_error: Option<BitBabblerError>,
}

#[derive(Debug, Clone)]
struct MockHandle {
    inner: Arc<Mutex<MockInner>>,
}

impl MockHandle {
    fn new(max_packet: u16) -> Self {
        MockHandle {
            inner: Arc::new(Mutex::new(MockInner {
                max_packet,
                frame_bulk: true,
                echo_sync: true,
                ..MockInner::default()
            })),
        }
    }

    fn push_response(&self, response: MockResponse) {
        self.inner.lock().unwrap().responses.push_back(response);
    }

    fn push_entropy(&self, bytes: &[u8]) {
        self.inner.lock().unwrap().entropy.extend(bytes.iter().copied());
    }

    fn set_frame_bulk(&self, enabled: bool) {
        self.inner.lock().unwrap().frame_bulk = enabled;
    }

    fn set_disconnected(&self, disconnected: bool) {
        self.inner.lock().unwrap().disconnected = disconnected;
    }

    fn push_partial_read(&self, n: usize) {
        self.inner.lock().unwrap().partial_reads.push_back(n);
    }

    fn set_next_control_error(&self, err: BitBabblerError) {
        self.inner.lock().unwrap().next_control_error = Some(err);
    }

    fn log(&self) -> Vec<RecordedOp> {
        self.inner.lock().unwrap().log.clone()
    }

    fn modem_status(max_packet: usize) -> u8 {
        if max_packet == 64 {
            0x31
        } else {
            0x32
        }
    }
}

impl UsbHandle for MockHandle {
    fn release_interface(&mut self, number: u8) -> Result<(), BitBabblerError> {
        self.inner.lock().unwrap().log.push(RecordedOp::ReleaseInterface(number));
        Ok(())
    }

    fn vendor_control_out(&mut self, request_type: u8, request: u8, value: u16, index: u16) -> Result<(), BitBabblerError> {
        let mut g = self.inner.lock().unwrap();
        g.log.push(RecordedOp::RequestType(request_type));
        if g.disconnected {
            return Err(BitBabblerError::DeviceDisconnected);
        }
        if let Some(err) = g.next_control_error.take() {
            return Err(err);
        }
        g.log.push(RecordedOp::ControlOut { request, value, index });
        Ok(())
    }

    fn vendor_control_in(&mut self, request_type: u8, request: u8, value: u16, index: u16, len: usize) -> Result<Vec<u8>, BitBabblerError> {
        let mut g = self.inner.lock().unwrap();
        g.log.push(RecordedOp::RequestType(request_type));
        if g.disconnected {
            return Err(BitBabblerError::DeviceDisconnected);
        }
        g.log.push(RecordedOp::ControlIn { request, value, index, len });
        if request == FTDI_SIO_GET_MODEM_STATUS && len == 2 {
            return Ok(vec![0x00, 0x60]);
        }
        Ok(vec![0u8; len])
    }

    fn bulk_write(&mut self, _endpoint: u8, data: &[u8]) -> Result<usize, BitBabblerError> {
        let mut g = self.inner.lock().unwrap();
        if g.disconnected {
            return Err(BitBabblerError::DeviceDisconnected);
        }
        g.log.push(RecordedOp::BulkWrite(data.to_vec()));
        let modem = Self::modem_status(usize::from(g.max_packet));
        let mut i = 0usize;
        while i + 1 < data.len() {
            if i + 3 < data.len() && data[i] == 0x20 && data[i + 3] == 0x87 {
                let encoded = u16::from(data[i + 1]) | (u16::from(data[i + 2]) << 8);
                let nbytes = usize::from(encoded) + 1;
                g.pending_data = Some(g.pending_data.unwrap_or(0).saturating_add(nbytes));
                i += 4;
                continue;
            }
            if (data[i] == 0xAA || data[i] == 0xAB) && data[i + 1] == 0x87 {
                if g.echo_sync {
                    g.responses.push_back(MockResponse::Bytes(vec![modem, 0x60, 0xFA, data[i]]));
                }
                i += 2;
                continue;
            }
            i += 1;
        }
        Ok(data.len())
    }

    fn bulk_read(&mut self, _endpoint: u8, max_len: usize) -> Result<Vec<u8>, BitBabblerError> {
        let mut g = self.inner.lock().unwrap();
        if g.disconnected {
            return Err(BitBabblerError::DeviceDisconnected);
        }
        g.log.push(RecordedOp::BulkRead(max_len));

        match g.responses.pop_front() {
            Some(MockResponse::Fail(e)) => return Err(e),
            Some(MockResponse::Bytes(b)) => {
                let n = b.len().min(max_len);
                return Ok(b[..n].to_vec());
            }
            None => {}
        }

        let max_packet = usize::from(g.max_packet);
        let modem = Self::modem_status(max_packet);
        let line = 0x60;
        let mut limit = max_len;
        if let Some(n) = g.partial_reads.pop_front() {
            limit = limit.min(n);
        }
        let data_budget = g.pending_data.unwrap_or(g.entropy.len());

        let mut buf = Vec::new();
        if !g.frame_bulk {
            let n = limit.min(g.entropy.len()).min(data_budget);
            for _ in 0..n {
                let b = g.entropy.pop_front().unwrap_or(0);
                buf.push(b);
            }
            if let Some(p) = g.pending_data.as_mut() {
                *p = p.saturating_sub(n);
            }
            return Ok(buf);
        }

        let mut emitted_data = 0usize;
        while buf.len() + 2 <= limit {
            let packet_budget = (limit - buf.len()).min(max_packet);
            if packet_budget < 2 {
                break;
            }
            let data_room = packet_budget - 2;
            let remaining_cmd = data_budget - emitted_data;
            if g.entropy.is_empty() && !buf.is_empty() {
                break;
            }
            buf.push(modem);
            buf.push(line);
            if g.entropy.is_empty() || remaining_cmd == 0 {
                break;
            }
            let take = data_room.min(g.entropy.len()).min(remaining_cmd);
            for _ in 0..take {
                let b = g.entropy.pop_front().unwrap();
                buf.push(b);
            }
            emitted_data += take;
            if take < data_room || emitted_data == data_budget {
                break;
            }
        }
        if let Some(p) = g.pending_data.as_mut() {
            *p = p.saturating_sub(emitted_data);
            if *p == 0 {
                g.pending_data = None;
            }
        }
        Ok(buf)
    }

    fn sleep_ms(&mut self, ms: u64) {
        self.inner.lock().unwrap().log.push(RecordedOp::Sleep(ms));
    }
}

/// Serves a fixed list of enumerated devices, each with its own scripted handle.
struct MockBackend {
    devices: Vec<(EnumeratedDevice, MockHandle)>,
    opened: Vec<String>,
}

impl UsbBackend for MockBackend {
    type Handle = MockHandle;

    fn enumerate(&mut self) -> Result<Vec<EnumeratedDevice>, BitBabblerError> {
        Ok(self.devices.iter().map(|(d, _)| d.clone()).collect())
    }

    fn open_device(&mut self, device: &EnumeratedDevice) -> Result<MockHandle, BitBabblerError> {
        self.opened.push(device.serial.clone());
        for (d, h) in &self.devices {
            if d.serial == device.serial {
                return Ok(h.clone());
            }
        }
        Err(BitBabblerError::DeviceDisconnected)
    }
}

fn endpoints(max_packet: u16) -> EndpointConfig {
    EndpointConfig { ep_in: 0x81, ep_out: 0x02, max_packet }
}

fn enumerated(product: &str, serial: &str, address: u8, max_packet: u16) -> EnumeratedDevice {
    EnumeratedDevice {
        product: product.into(),
        serial: serial.into(),
        bus_number: 1,
        device_address: address,
        endpoints: endpoints(max_packet),
    }
}

fn session_64() -> FtdiSession {
    FtdiSession::new(endpoints(64)).unwrap()
}

fn session_512() -> FtdiSession {
    FtdiSession::new(endpoints(512)).unwrap()
}

/// An initialized White device on a scripted handle; the handle stays
/// shared with the caller so that entropy can be queued.
fn open_white() -> (BitBabbler<MockHandle>, MockHandle) {
    let handle = MockHandle::new(64);
    let info = device_info_from_enumerated(&enumerated("White RNG", "W1", 1, 64)).unwrap();
    let dev = match BitBabbler::attach(handle.clone(), info, endpoints(64)) {
        Ok(dev) => dev,
        Err(e) => panic!("attach failed: {e:?}"),
    };
    (dev, handle)
}

fn expect_err<T>(r: Result<T, BitBabblerError>) -> BitBabblerError {
    match r {
        Ok(_) => panic!("expected an error"),
        Err(e) => e,
    }
}

fn clock_cmd() -> Vec<u8> {
    let clk_div = clock_divisor();
    vec![
        MPSSE_NO_CLK_DIV5,
        MPSSE_NO_ADAPTIVE_CLK,
        MPSSE_NO_3PHASE_CLK,
        MPSSE_SET_DATABITS_LOW,
        pin_value_byte(),
        pin_direction_byte(),
        MPSSE_SET_DATABITS_HIGH,
        0x00,
        0x00,
        MPSSE_SET_CLK_DIVISOR,
        (clk_div & 0xFF) as u8,
        (clk_div >> 8) as u8,
        MPSSE_NO_LOOPBACK,
    ]
}

fn significant_init_ops(log: &[RecordedOp]) -> Vec<RecordedOp> {
    log.iter()
        .filter(|op| {
            matches!(op, RecordedOp::ControlOut { .. } | RecordedOp::ControlIn { .. } | RecordedOp::BulkWrite(_))
        })
        .cloned()
        .collect()
}

// ---------------------------------------------------------------------------
// FTDI stream parsing and exact reads
// ---------------------------------------------------------------------------

#[test]
fn parse_packet_size_64_strips_status() {
    let mut handle = MockHandle::new(64);
    let mut session = session_64();
    let data: Vec<u8> = (0u8..8).collect();
    handle.push_entropy(&data);
    let out = read_exact_raw(&mut handle, &mut session, 8).unwrap();
    assert_eq!(out, data);
}

#[test]
fn parse_packet_size_512_strips_status() {
    let mut handle = MockHandle::new(512);
    let mut session = session_512();
    let data: Vec<u8> = (0u8..64).collect();
    handle.push_entropy(&data);
    let out = read_exact_raw(&mut handle, &mut session, 64).unwrap();
    assert_eq!(out, data);
}

#[test]
fn invalid_modem_status_errors() {
    let mut handle = MockHandle::new(64);
    let mut session = session_64();
    handle.set_frame_bulk(false);
    handle.push_response(MockResponse::Bytes(vec![0xFF, 0x60, 0x01, 0x02]));
    let err = read_exact_raw(&mut handle, &mut session, 2).unwrap_err();
    assert_eq!(
        err,
        BitBabblerError::ProtocolViolation { operation: ProtocolOperation::ModemStatus },
        "got {err:?}"
    );
}

#[test]
fn invalid_line_status_errors() {
    let mut handle = MockHandle::new(64);
    let mut session = session_64();
    handle.set_frame_bulk(false);
    handle.push_response(MockResponse::Bytes(vec![0x31, 0x02, 0xAA]));
    let err = read_exact_raw(&mut handle, &mut session, 1).unwrap_err();
    assert_eq!(
        err,
        BitBabblerError::ProtocolViolation { operation: ProtocolOperation::LineStatus },
        "got {err:?}"
    );
}

#[test]
fn status_and_data_split_within_chunk() {
    let mut handle = MockHandle::new(64);
    let mut session = session_64();
    handle.set_frame_bulk(false);
    let mut packet = vec![0x31, 0x60];
    packet.extend((0u8..30).collect::<Vec<_>>());
    handle.push_response(MockResponse::Bytes(packet));
    let out = read_exact_raw(&mut handle, &mut session, 30).unwrap();
    assert_eq!(out, (0u8..30).collect::<Vec<_>>());
}

#[test]
fn short_reads_assemble_exact_length() {
    let mut handle = MockHandle::new(64);
    let mut session = session_64();
    let data: Vec<u8> = (0u8..40).collect();
    handle.push_entropy(&data);
    handle.push_partial_read(16);
    handle.push_partial_read(16);
    handle.push_partial_read(64);
    let out = read_exact_raw(&mut handle, &mut session, 40).unwrap();
    assert_eq!(out, data);
}

#[test]
fn timeout_maps_and_discards_partial() {
    let mut handle = MockHandle::new(64);
    let mut session = session_64();
    handle.push_entropy(&[0x11, 0x22]);
    for _ in 0..30 {
        handle.push_response(MockResponse::Fail(BitBabblerError::TransferTimeout {
            operation: UsbOperation::BulkRead,
        }));
    }
    let err = read_exact_raw(&mut handle, &mut session, 8).unwrap_err();
    assert!(matches!(
        err,
        BitBabblerError::TransferTimeout { .. }
            | BitBabblerError::ReadRetriesExhausted { .. }
            | BitBabblerError::InitializationFailed { .. }
            | BitBabblerError::ProtocolViolation { .. }
    ));
}

#[test]
fn disconnect_errors() {
    let mut handle = MockHandle::new(64);
    let mut session = session_64();
    handle.set_disconnected(true);
    let err = read_exact_raw(&mut handle, &mut session, 8).unwrap_err();
    assert_eq!(err, BitBabblerError::DeviceDisconnected);
}

#[test]
fn excess_payload_detected() {
    let mut handle = MockHandle::new(64);
    let mut session = session_64();
    handle.set_frame_bulk(false);
    let mut packet = vec![0x31, 0x60];
    packet.extend(0u8..20);
    handle.push_response(MockResponse::Bytes(packet));
    let err = read_exact_raw(&mut handle, &mut session, 8).unwrap_err();
    assert!(matches!(
        err,
        BitBabblerError::ProtocolViolation { operation: ProtocolOperation::ExcessPayload }
    ));
}

#[test]
fn incomplete_line_status_only_thre_fails_final_check() {
    let mut handle = MockHandle::new(64);
    let mut session = session_64();
    handle.set_frame_bulk(false);
    let mut packet = vec![0x31, 0x20];
    packet.extend(0u8..8);
    handle.push_response(MockResponse::Bytes(packet));
    let err = read_exact_raw(&mut handle, &mut session, 8).unwrap_err();
    assert_eq!(
        err,
        BitBabblerError::ProtocolViolation { operation: ProtocolOperation::IncompleteLineStatus },
        "got {err:?}"
    );
}

#[test]
fn complete_line_status_thre_temt_accepted() {
    let mut handle = MockHandle::new(64);
    let mut session = session_64();
    handle.set_frame_bulk(false);
    let mut packet = vec![0x31, 0x60];
    packet.extend(0u8..4);
    handle.push_response(MockResponse::Bytes(packet));
    let out = read_exact_raw(&mut handle, &mut session, 4).unwrap();
    assert_eq!(out, vec![0, 1, 2, 3]);
}

#[test]
fn sizes_one_through_large() {
    for &n in &[1usize, 8, 9, 1024] {
        let mut handle = MockHandle::new(64);
        let mut session = session_64();
        let data: Vec<u8> = (0..n).map(|i| (i % 251) as u8).collect();
        handle.push_entropy(&data);
        let out = read_exact_raw(&mut handle, &mut session, n).unwrap();
        assert_eq!(out.len(), n);
        assert_eq!(out, data);
    }
}

#[test]
fn read_length_out_of_range_is_refused_before_io() {
    let mut handle = MockHandle::new(64);
    let mut session = session_64();
    for len in [0usize, 65_537] {
        let err = read_exact_raw(&mut handle, &mut session, len).unwrap_err();
        assert_eq!(err, BitBabblerError::ProtocolViolation { operation: ProtocolOperation::MpsseReadLength });
    }
    assert!(handle.log().is_empty());
}

#[test]
fn read_writes_one_command_per_exact_read() {
    let mut handle = MockHandle::new(64);
    let mut session = session_64();
    handle.push_entropy(&[9; 300]);
    read_exact_raw(&mut handle, &mut session, 300).unwrap();
    let writes: Vec<_> = handle.log().into_iter().filter(|op| matches!(op, RecordedOp::BulkWrite(_))).collect();
    assert_eq!(writes, vec![RecordedOp::BulkWrite(vec![0x20, 0x2B, 0x01, 0x87])]);
}

#[test]
fn folded_read_splits_each_segment_into_commands_of_at_most_65536_bytes() {
    let (mut dev, handle) = open_white();
    let n = 65_536 + 3;
    let raw: Vec<u8> = (0..2 * n).map(|i| (i % 251) as u8).collect();
    handle.push_entropy(&raw);
    let before = handle.log().len();
    let bits = dev.get_bits_with_fold(n * 8, Fold::One).unwrap();
    assert_eq!(bits, fold_contiguous(&raw, Fold::One));
    let writes: Vec<_> =
        handle.log()[before..].iter().filter(|op| matches!(op, RecordedOp::BulkWrite(_))).cloned().collect();
    let full = RecordedOp::BulkWrite(vec![0x20, 0xFF, 0xFF, 0x87]);
    let rest = RecordedOp::BulkWrite(vec![0x20, 0x02, 0x00, 0x87]);
    assert_eq!(writes, vec![full.clone(), rest.clone(), full, rest]);
}

// ---------------------------------------------------------------------------
// Initialization
// ---------------------------------------------------------------------------

#[test]
fn init_sequence_issues_expected_controls() {
    let mut handle = MockHandle::new(64);
    let mut session = session_64();

    ftdi_reset(&mut handle, &mut session).unwrap();
    ftdi_set_special_chars(&mut handle, &mut session).unwrap();
    ftdi_set_latency_timer(&mut handle, &mut session, 2).unwrap();
    ftdi_set_flow_control_rts_cts(&mut handle, &mut session).unwrap();
    ftdi_set_bitmode(&mut handle, &mut session, BITMODE_RESET, 0).unwrap();
    ftdi_set_bitmode(&mut handle, &mut session, BITMODE_MPSSE, 0).unwrap();

    let controls: Vec<_> = handle
        .log()
        .iter()
        .filter_map(|op| match op {
            RecordedOp::ControlOut { request, value, index } => Some((*request, *value, *index)),
            _ => None,
        })
        .collect();

    assert!(controls.contains(&(FTDI_SIO_RESET, FTDI_SIO_RESET_SIO, FTDI_INTERFACE_INDEX)));
    assert!(controls.contains(&(FTDI_SIO_SET_EVENT_CHAR, 0, FTDI_INTERFACE_INDEX)));
    assert!(controls.contains(&(FTDI_SIO_SET_ERROR_CHAR, 0, FTDI_INTERFACE_INDEX)));
    assert!(controls.contains(&(FTDI_SIO_SET_LATENCY_TIMER, 2, FTDI_INTERFACE_INDEX)));
    assert!(controls.contains(&(FTDI_SIO_SET_FLOW_CTRL, 0, FLOW_RTS_CTS | FTDI_INTERFACE_INDEX)));
    assert!(controls.contains(&(FTDI_SIO_SET_BITMODE, BITMODE_RESET, FTDI_INTERFACE_INDEX)));
    assert!(controls.contains(&(FTDI_SIO_SET_BITMODE, BITMODE_MPSSE, FTDI_INTERFACE_INDEX)));
}

#[test]
fn initialize_end_to_end_records_expected_order() {
    let mut handle = MockHandle::new(64);
    let mut session = session_64();
    initialize(&mut handle, &mut session).expect("initialize");
    assert_eq!(session.line_status, LINE_STATUS_OK_MASK);

    let expected = [
        RecordedOp::ControlOut { request: FTDI_SIO_RESET, value: FTDI_SIO_RESET_SIO, index: FTDI_INTERFACE_INDEX },
        RecordedOp::ControlOut { request: FTDI_SIO_SET_EVENT_CHAR, value: 0, index: FTDI_INTERFACE_INDEX },
        RecordedOp::ControlOut { request: FTDI_SIO_SET_ERROR_CHAR, value: 0, index: FTDI_INTERFACE_INDEX },
        RecordedOp::ControlOut { request: FTDI_SIO_SET_LATENCY_TIMER, value: 2, index: FTDI_INTERFACE_INDEX },
        RecordedOp::ControlOut {
            request: FTDI_SIO_SET_FLOW_CTRL,
            value: 0,
            index: FLOW_RTS_CTS | FTDI_INTERFACE_INDEX,
        },
        RecordedOp::ControlOut { request: FTDI_SIO_SET_BITMODE, value: BITMODE_RESET, index: FTDI_INTERFACE_INDEX },
        RecordedOp::ControlOut { request: FTDI_SIO_SET_BITMODE, value: BITMODE_MPSSE, index: FTDI_INTERFACE_INDEX },
        RecordedOp::ControlIn { request: FTDI_SIO_GET_MODEM_STATUS, value: 0, index: FTDI_INTERFACE_INDEX, len: 2 },
        RecordedOp::BulkWrite(vec![0xAA, MPSSE_SEND_IMMEDIATE]),
        RecordedOp::BulkWrite(vec![0xAB, MPSSE_SEND_IMMEDIATE]),
        RecordedOp::BulkWrite(clock_cmd()),
    ];
    assert_eq!(significant_init_ops(&handle.log()), expected);
}

#[test]
fn initialize_settles_after_mpsse_and_clock_setup() {
    let mut handle = MockHandle::new(512);
    let mut session = session_512();
    initialize(&mut handle, &mut session).unwrap();
    let sleeps: Vec<_> = handle.log().into_iter().filter(|op| matches!(op, RecordedOp::Sleep(_))).collect();
    assert_eq!(sleeps, vec![RecordedOp::Sleep(50), RecordedOp::Sleep(30)]);
    let latency = handle.log().into_iter().find_map(|op| match op {
        RecordedOp::ControlOut { request, value, .. } if request == FTDI_SIO_SET_LATENCY_TIMER => Some(value),
        _ => None,
    });
    assert_eq!(latency, Some(3));
}

#[test]
fn control_requests_are_vendor_requests_to_the_device() {
    let mut handle = MockHandle::new(64);
    let mut session = session_64();
    initialize(&mut handle, &mut session).unwrap();
    let types: Vec<u8> = handle
        .log()
        .into_iter()
        .filter_map(|op| match op {
            RecordedOp::RequestType(t) => Some(t),
            _ => None,
        })
        .collect();
    // seven OUT requests, then GET_MODEM_STATUS IN
    assert_eq!(types, vec![0x40, 0x40, 0x40, 0x40, 0x40, 0x40, 0x40, 0xC0]);
}

#[test]
fn initialize_preserves_fatal_usb_errors() {
    let cases = [BitBabblerError::DeviceDisconnected, BitBabblerError::PermissionDenied, BitBabblerError::DeviceBusy];
    for expected in cases {
        let mut handle = MockHandle::new(64);
        let mut session = session_64();
        match &expected {
            BitBabblerError::DeviceDisconnected => handle.set_disconnected(true),
            other => handle.set_next_control_error(other.clone()),
        }
        let err = initialize(&mut handle, &mut session).unwrap_err();
        assert_eq!(err, expected, "got {err:?}");
        assert!(
            !matches!(err, BitBabblerError::InitializationFailed { .. }),
            "fatal USB error must not be remapped to InitializationFailed"
        );
    }
}

#[test]
fn initialize_without_sync_echo_gives_up_after_all_attempts() {
    let handle = MockHandle::new(64);
    handle.inner.lock().unwrap().echo_sync = false;
    let mut handle = handle;
    let mut session = session_64();
    let err = initialize(&mut handle, &mut session).unwrap_err();
    assert_eq!(err, BitBabblerError::initialization_failed(20, BitBabblerError::protocol(ProtocolOperation::MpsseSync)));
}

#[test]
fn check_sync_accepts_fa_echo() {
    let mut handle = MockHandle::new(64);
    let mut session = session_64();
    handle.set_frame_bulk(false);
    handle.push_response(MockResponse::Bytes(vec![0x31, 0x60, 0xFA, 0xAA]));
    assert!(check_sync(&mut handle, &mut session, 0xAA).unwrap());
}

#[test]
fn check_sync_rejects_echo_of_other_command() {
    let handle = MockHandle::new(64);
    handle.inner.lock().unwrap().echo_sync = false;
    let mut handle = handle;
    let mut session = session_64();
    handle.push_response(MockResponse::Bytes(vec![0x31, 0x60, 0xFA, 0xAB]));
    assert!(!check_sync(&mut handle, &mut session, 0xAA).unwrap());
}

// ---------------------------------------------------------------------------
// Device handle
// ---------------------------------------------------------------------------

#[test]
fn get_bits_validates_before_io() {
    let (mut dev, handle) = open_white();
    let ops_before = handle.log().len();
    assert_eq!(dev.get_bits(0).unwrap_err(), BitBabblerError::ZeroBitLength);
    assert_eq!(dev.get_bits(7).unwrap_err(), BitBabblerError::BitLengthNotByteAligned { requested_bits: 7 });
    assert!(matches!(Fold::try_from(5).unwrap_err(), BitBabblerError::InvalidFold { value: 5 }));
    assert_eq!(handle.log().len(), ops_before);
}

#[test]
fn get_bits_raw_exact_sizes() {
    let (mut dev, handle) = open_white();
    for &bits in &[8usize, 64, 72, 8192] {
        let n = bits / 8;
        let data: Vec<u8> = (0..n).map(|i| (i % 251) as u8).collect();
        handle.push_entropy(&data);
        let out = dev.get_bits(bits).unwrap();
        assert_eq!(out.len(), n);
        assert_eq!(out, data);
    }
}

#[test]
fn get_bits_with_fold_all_levels() {
    let (mut dev, handle) = open_white();
    let n = 8usize;
    for fold_n in 0u8..=4 {
        let fold = Fold::try_from(fold_n).unwrap();
        let segments = fold.segment_count();
        let mut raw = Vec::with_capacity(segments * n);
        for seg in 0..segments {
            for i in 0..n {
                raw.push((seg * 17 + i) as u8);
            }
        }
        handle.push_entropy(&raw);
        let out = dev.get_bits_with_fold(n * 8, fold).unwrap();
        assert_eq!(out.len(), n);
        let expected = fold_contiguous(&raw, fold);
        assert_eq!(out, expected, "fold {fold_n}");
    }
}

#[test]
fn sixteen_segment_fold_is_the_bytewise_xor_of_every_segment() {
    let (mut dev, handle) = open_white();
    let n = 4usize;
    let raw: Vec<u8> = (0..16 * n).map(|i| ((i * 37 + 11) % 256) as u8).collect();
    handle.push_entropy(&raw);
    let out = dev.get_bits_with_fold(n * 8, Fold::Four).unwrap();
    let mut expected = vec![0u8; n];
    for (k, b) in raw.iter().enumerate() {
        expected[k % n] ^= *b;
    }
    assert_eq!(out, expected);
}

#[test]
fn failure_discards_partial() {
    let (mut dev, handle) = open_white();
    handle.push_entropy(&[1, 2, 3, 4]);
    handle.set_disconnected(true);
    handle.set_disconnected(false);
    handle.push_entropy(&[1, 2]);
    handle.push_response(MockResponse::Fail(BitBabblerError::DeviceDisconnected));
    let err = dev.get_bits(64).unwrap_err();
    assert!(matches!(
        err,
        BitBabblerError::DeviceDisconnected
            | BitBabblerError::ReadRetriesExhausted { .. }
            | BitBabblerError::InitializationFailed { .. }
            | BitBabblerError::ProtocolViolation { .. }
            | BitBabblerError::TransferTimeout { .. }
    ));
}

#[test]
fn random_u64_is_raw_le() {
    let (mut dev, handle) = open_white();
    let bytes = [0x01, 0x02, 0x03, 0x04, 0x05, 0x06, 0x07, 0x08];
    handle.push_entropy(&bytes);
    let v = dev.random_u64().unwrap();
    assert_eq!(v, u64::from_le_bytes(bytes));
}

#[test]
fn random_range_width_one() {
    let (mut dev, handle) = open_white();
    handle.push_entropy(&[0; 8]);
    assert_eq!(dev.random_range(42..43).unwrap(), 42);
}

#[test]
fn random_range_power_of_two() {
    let (mut dev, handle) = open_white();
    let mut bytes = 15u64.to_le_bytes().to_vec();
    for _ in 0..5 {
        bytes.extend_from_slice(&15u64.to_le_bytes());
    }
    handle.push_entropy(&bytes);
    let v = dev.random_range(100..108).unwrap();
    assert!((100..108).contains(&v));
    assert_eq!(v, 107);
}

#[test]
fn random_range_invalid() {
    let (mut dev, handle) = open_white();
    let ops_before = handle.log().len();
    assert_eq!(dev.random_range(5..5).unwrap_err(), BitBabblerError::InvalidRange { start: 5, end: 5 });
    let inverted = std::ops::Range { start: 9, end: 3 };
    assert_eq!(dev.random_range(inverted).unwrap_err(), BitBabblerError::InvalidRange { start: 9, end: 3 });
    assert_eq!(handle.log().len(), ops_before);
}

#[test]
fn random_range_near_max() {
    let (mut dev, handle) = open_white();
    for _ in 0..8 {
        handle.push_entropy(&u64::MAX.to_le_bytes());
    }
    let v = dev.random_range((u64::MAX - 4)..u64::MAX).unwrap();
    assert!(((u64::MAX - 4)..u64::MAX).contains(&v));
}

#[test]
fn random_range_exhaustion() {
    let (mut dev, handle) = open_white();
    let mut bytes = Vec::new();
    for _ in 0..(MAX_RANGE_SAMPLES as usize + 5) {
        bytes.extend_from_slice(&0u64.to_le_bytes());
    }
    handle.push_entropy(&bytes);
    let err = dev.random_range(0..3).unwrap_err();
    assert_eq!(err, BitBabblerError::RangeSamplingExhausted { attempts: MAX_RANGE_SAMPLES });
}

#[test]
fn random_range_rejects_biased_samples_then_accepts() {
    let (mut dev, handle) = open_white();
    // span 3: threshold is 2^64 mod 3 = 1, so a zero sample is rejected.
    handle.push_entropy(&0u64.to_le_bytes());
    handle.push_entropy(&7u64.to_le_bytes());
    assert_eq!(dev.random_range(10..13).unwrap(), 11);
}

#[test]
fn drop_after_disconnect_no_panic() {
    let (dev, handle) = open_white();
    handle.set_disconnected(true);
    dev.close();
    assert!(handle.log().contains(&RecordedOp::ReleaseInterface(0)));
}

#[test]
fn device_info_is_kept_after_open() {
    let (dev, _handle) = open_white();
    assert_eq!(dev.device_info().serial, "W1");
    assert_eq!(dev.device_info().product, "White RNG");
}

#[test]
fn attach_refuses_unsupported_packet_size() {
    let handle = MockHandle::new(64);
    let info = device_info_from_enumerated(&enumerated("White RNG", "W1", 1, 64)).unwrap();
    let err = expect_err(BitBabbler::attach(handle.clone(), info, endpoints(128)));
    assert_eq!(err, BitBabblerError::ProtocolViolation { operation: ProtocolOperation::UnsupportedMaxPacket });
    assert!(handle.log().is_empty());
}

// ---------------------------------------------------------------------------
// Opening through a backend
// ---------------------------------------------------------------------------

fn backend_with(devices: Vec<EnumeratedDevice>) -> MockBackend {
    let devices = devices
        .into_iter()
        .map(|d| {
            let h = MockHandle::new(d.endpoints.max_packet);
            (d, h)
        })
        .collect();
    MockBackend { devices, opened: Vec::new() }
}

#[test]
fn open_by_serial_empty_public() {
    let mut backend = backend_with(vec![enumerated("White RNG", "W1", 1, 64)]);
    let err = expect_err(BitBabbler::open_by_serial(&mut backend, ""));
    assert_eq!(err, BitBabblerError::MissingSerial);
}

#[test]
fn open_by_serial_rejects_empty() {
    let mut backend = backend_with(vec![]);
    let err = expect_err(BitBabbler::open_by_serial(&mut backend, ""));
    assert_eq!(err, BitBabblerError::MissingSerial, "empty serial");
    assert!(backend.opened.is_empty());
}

#[test]
fn open_by_serial_opens_the_matching_device() {
    let mut backend = backend_with(vec![
        enumerated("White RNG", "W1", 1, 64),
        enumerated("Black RNG", "B1", 2, 512),
    ]);
    let dev = match BitBabbler::open_by_serial(&mut backend, "B1") {
        Ok(dev) => dev,
        Err(e) => panic!("open failed: {e:?}"),
    };
    assert_eq!(dev.device_info().serial, "B1");
    assert_eq!(backend.opened, vec!["B1".to_string()]);
}

#[test]
fn open_needs_exactly_one_device() {
    let mut backend = backend_with(vec![
        enumerated("White RNG", "W1", 1, 64),
        enumerated("Black RNG", "B1", 2, 512),
    ]);
    let err = expect_err(BitBabbler::open(&mut backend));
    assert_eq!(err, BitBabblerError::MultipleDevices { count: 2 });
    let mut single = backend_with(vec![enumerated("Black RNG", "B9", 3, 512)]);
    let dev = match BitBabbler::open(&mut single) {
        Ok(dev) => dev,
        Err(e) => panic!("open failed: {e:?}"),
    };
    assert_eq!(dev.device_info().serial, "B9");
}

#[test]
fn list_devices_reports_metadata() {
    let mut backend = backend_with(vec![
        enumerated("White RNG", "W1", 1, 64),
        enumerated("Black RNG", "B1", 2, 512),
    ]);
    let infos = BitBabbler::<MockHandle>::list_devices(&mut backend).unwrap();
    assert_eq!(infos.len(), 2);
    assert_eq!(infos[1].serial, "B1");
    assert_eq!(infos[1].device_address, 2);
    assert!(backend.opened.is_empty());
}

#[test]
fn close_restores_reset_bitmode_then_releases() {
    let (dev, handle) = open_white();
    let before = handle.log().len();
    dev.close();
    let tail: Vec<_> = handle.log()[before..]
        .iter()
        .filter(|op| matches!(op, RecordedOp::ControlOut { .. } | RecordedOp::ReleaseInterface(_)))
        .cloned()
        .collect();
    assert_eq!(
        tail,
        vec![
            RecordedOp::ControlOut { request: FTDI_SIO_SET_BITMODE, value: BITMODE_RESET, index: FTDI_INTERFACE_INDEX },
            RecordedOp::ControlOut { request: FTDI_SIO_RESET, value: FTDI_SIO_RESET_SIO, index: FTDI_INTERFACE_INDEX },
            RecordedOp::ReleaseInterface(0),
        ]
    );
}

#[test]
fn reading_no_bytes_succeeds_without_io() {
    let mut handle = MockHandle::new(64);
    let mut session = session_64();
    let out = bitb_rs::protocol::read_raw_bytes(&mut handle, &mut session, 0).unwrap();
    assert!(out.is_empty());
    assert!(handle.log().is_empty());
}

#[test]
fn open_from_enumeration_opens_nothing_unless_one_device() {
    let mut backend = backend_with(vec![]);
    let none = expect_err(BitBabbler::open_from_enumeration(&mut backend, vec![]));
    assert_eq!(none, BitBabblerError::NoDevice);
    let two = vec![enumerated("White RNG", "W1", 1, 64), enumerated("Black RNG", "B1", 2, 512)];
    let many = expect_err(BitBabbler::open_from_enumeration(&mut backend, two));
    assert_eq!(many, BitBabblerError::MultipleDevices { count: 2 });
    let odd = vec![enumerated("White RNG", "W1", 1, 64), enumerated("Purple RNG", "P1", 2, 64)];
    let unsupported = expect_err(BitBabbler::open_from_enumeration(&mut backend, odd));
    assert_eq!(unsupported, BitBabblerError::UnsupportedProduct { product: "Purple RNG".into() });
    assert!(backend.opened.is_empty());
}

#[test]
fn open_from_enumeration_keeps_the_entry_metadata() {
    let entry = enumerated("Black RNG", "B7", 9, 512);
    let mut backend = backend_with(vec![entry.clone()]);
    let dev = match BitBabbler::open_from_enumeration(&mut backend, vec![entry.clone()]) {
        Ok(dev) => dev,
        Err(e) => panic!("open failed: {e:?}"),
    };
    assert_eq!(dev.device_info(), &device_info_from_enumerated(&entry).unwrap());
}

#[test]
fn open_by_serial_from_enumeration_selects_exactly() {
    let devices = vec![enumerated("White RNG", "W1", 1, 64), enumerated("Black RNG", "B1", 2, 512)];
    let mut backend = backend_with(devices.clone());
    let missing = expect_err(BitBabbler::open_by_serial_from_enumeration(&mut backend, devices.clone(), "B"));
    assert_eq!(missing, BitBabblerError::DeviceNotFound { serial: "B".into() });
    let empty = expect_err(BitBabbler::open_by_serial_from_enumeration(&mut backend, devices.clone(), ""));
    assert_eq!(empty, BitBabblerError::MissingSerial);
    assert!(backend.opened.is_empty());
    let dev = match BitBabbler::open_by_serial_from_enumeration(&mut backend, devices, "W1") {
        Ok(dev) => dev,
        Err(e) => panic!("open failed: {e:?}"),
    };
    assert_eq!(dev.device_info().serial, "W1");
    assert_eq!(backend.opened, vec!["W1".to_string()]);
}

#[test]
fn status_bytes_never_reach_the_caller() {
    // Entropy that looks like status bytes, across several 64-byte packets.
    let mut handle = MockHandle::new(64);
    let mut session = session_64();
    let data: Vec<u8> = (0..200).map(|i| if i % 2 == 0 { 0x31 } else { 0x60 }).collect();
    handle.push_entropy(&data);
    let out = read_exact_raw(&mut handle, &mut session, 200).unwrap();
    assert_eq!(out, data);
}

#[test]
fn check_sync_gives_up_after_empty_transfers() {
    let handle = MockHandle::new(64);
    handle.inner.lock().unwrap().echo_sync = false;
    let mut handle = handle;
    let mut session = session_64();
    assert!(!check_sync(&mut handle, &mut session, 0xAB).unwrap());
    let reads = handle.log().into_iter().filter(|op| matches!(op, RecordedOp::BulkRead(_))).count();
    assert_eq!(reads, 10);
}
