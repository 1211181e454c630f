# rtl-sdr-gnss

A GPS L1 C/A receiver for RTL-SDR dongles. The crate is split in two:

- `src/` — the verified library (Verus). It holds the receiver's integer and
  bit-level logic with contracts:
  - `gps::ca_code` — Gold code generation from the G1/G2 shift registers,
    specified by the register recurrences.
  - `gps::nav_message` — navigation message framing: preamble search, 30-bit
    word packing, subframe slots, ephemeris/almanac selection; laws for the
    round trip of a transmitted subframe and for the persistence of slots.
  - `gps::tracking` — the lock state machine of a tracking channel and the
    navigation bit synchronisation.
  - `sbas::decoder` — SBAS preamble search, message type and data bytes, with
    a round-trip law.
  - `output::nmea` — NMEA checksum and framing, GSA satellite fields, GSV
    paging; `output::pps` — the pulse-per-second decision and debounce.
  - `navigation` — which pseudoranges enter a position fix;
    `receiver` — the PRN search list and the status line.
- `app/` — the program around it: SDR I/O, FFT-based acquisition, tracking
  loops, position solving and corrections (all floating point), JSON/NMEA
  formatting of floats, the terminal UI and `main`.

`tests/` exercises the library from outside.
