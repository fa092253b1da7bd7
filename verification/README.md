# bitb_rs

Synchronous access to a single TNRG BitBabbler White or Black hardware RNG
over USB, with the device logic verified by Verus.

## Layout

- `src/` — the verified library.
  - `error.rs`: typed errors, their diagnostic text, USB failure classes.
  - `fold.rs`: fold levels and the XOR folding of consecutive segments.
  - `policy.rs`: fixed limits and the official device configuration
    (latency timer, clock divisor, pin bytes).
  - `transport.rs`: the byte-level USB seam (`UsbHandle`, `UsbBackend`),
    descriptor rules (endpoint layout, required string descriptors).
  - `protocol.rs`: FTDI/MPSSE control sequences, sync probes, status-byte
    framing, exact reads with bounded retries, initialization.
  - `device.rs`: device selection, the `BitBabbler` handle, `get_bits`,
    `get_bits_with_fold`, `random_u64`, `random_range`.
- `app/` — the `rusb` backend: enumeration, descriptor reads, open/claim,
  control and bulk transfers, and a `Device` wrapper that restores the
  FTDI and releases the interface on drop.
- `tests/` — the test suite; `tests/engine.rs` drives the engine through a
  scripted in-memory USB handle that frames data as the FTDI chip does.

## What is proved

- Returned entropy never contains FTDI status bytes. Each session logs the
  bulk transfers it takes in as entropy; its invariant says the entropy
  taken is exactly the payload of those transfers and every byte handed out
  is, in order, one of those bytes. `BitBabbler::lemma_raw_bytes_are_payload`
  states this for the raw stream of a handle. The transfer log is written
  by the verified code right after each bulk read; the transport itself
  carries no contract.
- An exact read returns exactly the requested length, leaves nothing
  buffered and ends on line status THRE|TEMT; on failure nothing is kept.
  Each read round and each failure met is logged, and the result follows
  from those logs: a read with no failure met and rounds that end well
  succeeds. Reads are split into MPSSE commands of at most 65536 bytes.
- Closing resets the FTDI and releases the interface whatever the earlier
  steps gave.
- Folding while reading equals the successive XOR of `2^fold` consecutive
  raw segments; `get_bits` is the raw case.
- `random_range` is rejection sampling on raw little-endian `u64` samples:
  accepted samples form whole runs of the span, so the result is unbiased
  and always in `[start, end)`.
- Initialization issues the official control sequence and sync probes in
  order; fatal USB errors abort at once, other failures are retried a
  bounded number of times.
- Device selection: unsupported products are reported, zero / one / many
  recognized devices give `NoDevice` / the device / `MultipleDevices`, and
  serial selection is an exact match.
