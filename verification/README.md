# silicon_bridge

Host-side bridge between trained spiking-network parameters and FPGA hardware,
verified with Verus.

Real values are handled as IEEE-754 binary32 bit patterns (`f32::to_bits`), so
the Q8.8 conversions are integer logic whose results are stated exactly over the
value a bit pattern denotes.

- `src/q88.rs` — unsigned (`.mem` export) and signed (UART) Q8.8 encoders and
  decoders, and the laws that relate the two conventions.
- `src/mem_file.rs` — the `$readmemh` text format: one `{:04X}` word per line.
- `src/export.rs` — the parameter exporter, the Q8.8 bundle and its metadata
  (including the memory footprint as an f32 rounded like `as f32`).
- `src/bridge.rs` — UART request/response frames, the connection state and
  serial-port name matching.
- `src/timing_report.rs` — locating the WNS token of a Vivado timing summary.
- `app/` — the `f32` API, file and JSON output, report loading and serial-port
  I/O built on the library.
