//! Host-side bridge between trained spiking-network parameters and FPGA
//! hardware.
//!
//! - [`q88`]: signed and unsigned Q8.8 fixed-point codecs over f32 bit
//!   patterns;
//! - [`export`]: the Q8.8 parameter bundle for silicon-hdl and its metadata;
//! - [`mem_file`]: the Vivado `$readmemh` `.mem` text format;
//! - [`bridge`]: the UART stimulus/response frames and the connection state;
//! - [`timing_report`]: locating WNS in a Vivado timing summary.
//!
//! | Aspect | UART (signed) | `.mem` export (unsigned) |
//! |---|---|---|
//! | Encode with | `encode_q88_signed` | `encode_q88_unsigned` |
//! | Decode with | `q88_signed_to_f32` | `q88_to_f32` |
//! | Raw type | `i16` (two's complement) | `u16` |
//! | Encoder input clamp | `-127.99..=127.99` | `0.0..=255.99609375` |
//! | Encoder raw output | `-32765..=32765` | `0..=65535` |
//! | Byte order | big-endian binary | ASCII hex, one `{:04X}` word per line |
pub mod bridge;
pub mod export;
pub mod mem_file;
pub mod q88;
pub mod timing_report;

pub use bridge::{
    decode_response_frame, encode_request_frame, fpga_port_candidates, is_fpga_port_name,
    BridgeError, FpgaBridge,
};
pub use export::{
    format_q88_hex, mem_files, FixedPointEncode, FpgaMetadata, FpgaParameterExporter,
    FpgaParameters, MemFile, MemFileWriter, ParameterExport, EXPORT_FORMAT_VERSION,
};
pub use mem_file::{format_hex_word, mem_file_contents};
pub use q88::{
    encode_q88_signed, encode_q88_unsigned, q88_signed_to_f32, q88_to_f32, STIMULUS_Q88_MAX,
    STIMULUS_Q88_MIN,
};
pub use timing_report::report_wns_field;
