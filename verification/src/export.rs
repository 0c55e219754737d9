//! FPGA parameter export for the silicon-hdl Q8.8 layout.
//!
//! Trained spiking-network parameters (f32 values, held as bit patterns) are
//! converted to unsigned Q8.8 words and bundled with metadata; the words are
//! written as Vivado `$readmemh` `.mem` files consumable by `WeightRam` and
//! `NeuronParamRam`.
use crate::mem_file::{
    format_hex_word, hex_word, hex_word_value, law_mem_file_lines, mem_file_contents, mem_file_text,
};
use crate::q88::{
    encode_q88_unsigned, f32_exponent, f32_from_fields, f32_of_scaled_integer, f32_scale, f32_scaled_magnitude, f32_scaled_equals,
    f32_sign_set, f32_significand, q88_unsigned_of,
};
use vstd::arithmetic::div_mod::{lemma_div_denominator, lemma_fundamental_div_mod};
use vstd::arithmetic::power2::{
    lemma2_to64, lemma_pow2_adds, lemma_pow2_pos, lemma_pow2_strictly_increases,
    lemma_pow2_unfold, pow2,
};
use vstd::prelude::*;

verus! {

/// Metadata / layout tag of the Q8.8 `.mem` bundle shared with silicon-hdl.
pub const EXPORT_FORMAT_VERSION: &'static str = "Spikenaut-v2";

/// File that receives the threshold words.
pub const THRESHOLDS_MEM_FILE: &'static str = "parameters.mem";

/// File that receives the weight words (row-major).
pub const WEIGHTS_MEM_FILE: &'static str = "parameters_weights.mem";

/// File that receives the decay-rate words.
pub const DECAY_MEM_FILE: &'static str = "parameters_decay.mem";

/// File that receives the whole parameter bundle as JSON.
pub const METADATA_JSON_FILE: &'static str = "parameters.json";

/// Bit pattern of `35.0f32`, the per-tick latency budget in microseconds.
pub const TARGET_LATENCY_US: u32 = 0x420c_0000;

// ---------------------------------------------------------------------------
// Interfaces
// ---------------------------------------------------------------------------
/// Encode host floating-point values (given by their bit patterns) as
/// unsigned Q8.8 (`u16`).
pub trait FixedPointEncode {
    /// Convert one f32 to Q8.8 fixed-point.
    fn encode_q88(&self, value: u32) -> u16;
}

/// Export parameters as an FPGA-facing Q8.8 parameter bundle.
pub trait ParameterExport {
    /// Build the full Q8.8 parameter set and its metadata.
    fn export(&self) -> FpgaParameters;
}

/// Write Q8.8 parameter vectors as Vivado `$readmemh` `.mem` files.
pub trait MemFileWriter {
    /// Error type for filesystem / I/O failures.
    type Error;

    /// Write `parameters.mem`, `parameters_weights.mem`, `parameters_decay.mem`
    /// and `parameters.json` under `output_dir`.
    fn write_mem_files(&self, output_dir: &str) -> Result<(), Self::Error>;
}

// ---------------------------------------------------------------------------
// Data
// ---------------------------------------------------------------------------
/// Metadata about an exported parameter set. The two real-valued fields hold
/// f32 bit patterns.
#[derive(Debug, Clone)]
pub struct FpgaMetadata {
    pub version: String,
    pub timestamp: String,
    pub num_neurons: usize,
    pub num_channels: usize,
    /// f32 bits of the latency budget in microseconds.
    pub target_latency_us: u32,
    /// f32 bits of the Q8.8 memory footprint in KiB.
    pub memory_usage_kb: u32,
}

/// FPGA-compatible parameter bundle: every parameter as a Q8.8 word.
#[derive(Debug, Clone)]
pub struct FpgaParameters {
    /// Neuron thresholds in Q8.8 format.
    pub thresholds: Vec<u16>,
    /// Weight matrix `[neurons x channels]`, row-major, in Q8.8 format.
    pub weights: Vec<u16>,
    /// Decay rates in Q8.8 format.
    pub decay_rates: Vec<u16>,
    /// Metadata about the parameter set.
    pub metadata: FpgaMetadata,
}

/// A `.mem` file to be written: its name and its full text.
#[derive(Debug, Clone)]
pub struct MemFile {
    pub name: String,
    pub contents: String,
}

/// Default FPGA parameter exporter for the silicon-hdl Q8.8 layout. Values
/// are f32 bit patterns.
pub struct FpgaParameterExporter {
    thresholds: Vec<u32>,
    weights: Vec<Vec<u32>>,
    decay_rates: Vec<u32>,
}

// ---------------------------------------------------------------------------
// Specification
// ---------------------------------------------------------------------------
/// Unsigned Q8.8 of every value, in order.
pub open spec fn q88_unsigned_all(values: Seq<u32>) -> Seq<u16> {
    values.map_values(|v: u32| q88_unsigned_of(v))
}

/// Number of halvings that bring `n` below `2^24`.
pub open spec fn excess_bits(n: nat) -> nat
    decreases n,
{
    if n < 0x100_0000 {
        0
    } else {
        1 + excess_bits(n / 2)
    }
}

/// `n` rounded to the 24 significant bits of an f32, ties to even
/// (what `n as f32` computes).
pub open spec fn round_to_f32_precision(n: nat) -> nat {
    let d = excess_bits(n);
    if d == 0 {
        n
    } else {
        let p = pow2(d);
        let q = n / p;
        let r = n % p;
        let half = pow2((d - 1) as nat);
        (if r > half || (r == half && q % 2 == 1) {
            q + 1
        } else {
            q
        }) * p
    }
}

/// The f32 bits are `n as f32 / 1024.0`: a non-negative value whose
/// 1024-fold is `n` rounded to f32 precision.
pub open spec fn is_kib_of(bits: u32, n: nat) -> bool {
    !f32_sign_set(bits) && f32_scaled_equals(bits, 10, round_to_f32_precision(n) as int)
}

impl FpgaParameterExporter {
    /// Threshold values (f32 bits).
    pub closed spec fn threshold_values(&self) -> Seq<u32> {
        self.thresholds@
    }

    /// Weight rows (f32 bits), `[neurons x channels]`.
    pub closed spec fn weight_rows(&self) -> Seq<Seq<u32>> {
        self.weights@.map_values(|row: Vec<u32>| row@)
    }

    /// Decay-rate values (f32 bits).
    pub closed spec fn decay_values(&self) -> Seq<u32> {
        self.decay_rates@
    }

    /// Number of parameters: thresholds, all weights and decay rates.
    pub open spec fn parameter_count(&self) -> nat {
        self.threshold_values().len() + self.weight_rows().flatten().len()
            + self.decay_values().len()
    }

    /// Bytes taken by the Q8.8 words (2 per parameter), saturating at
    /// `u64::MAX`, a size no parameter set reaches.
    pub open spec fn memory_usage_bytes(&self) -> nat {
        if 2 * self.parameter_count() > u64::MAX {
            u64::MAX as nat
        } else {
            2 * self.parameter_count()
        }
    }

    /// Channels per neuron: the length of the first weight row, 0 without rows.
    pub open spec fn channel_count(&self) -> nat {
        if self.weight_rows().len() == 0 {
            0
        } else {
            self.weight_rows()[0].len()
        }
    }

    /// `p` is the export of this exporter stamped with `timestamp`.
    pub open spec fn exports_as(&self, p: FpgaParameters, timestamp: Seq<char>) -> bool {
        &&& p.thresholds@ == q88_unsigned_all(self.threshold_values())
        &&& p.weights@ == q88_unsigned_all(self.weight_rows().flatten())
        &&& p.decay_rates@ == q88_unsigned_all(self.decay_values())
        &&& p.metadata.version@ == EXPORT_FORMAT_VERSION@
        &&& p.metadata.timestamp@ == timestamp
        &&& p.metadata.num_neurons == self.threshold_values().len()
        &&& p.metadata.num_channels == self.channel_count()
        &&& !f32_sign_set(p.metadata.target_latency_us)
        &&& f32_scaled_equals(p.metadata.target_latency_us, 0, 35)
        &&& is_kib_of(p.metadata.memory_usage_kb, self.memory_usage_bytes())
    }
}

/// The text of an RFC 3339 UTC timestamp ends with this offset.
pub open spec fn utc_offset_suffix() -> Seq<char> {
    seq!['+', '0', '0', ':', '0', '0']
}

// ---------------------------------------------------------------------------
// Trusted: the clock
// ---------------------------------------------------------------------------
/// Reads the system clock (`std::time::SystemTime::now()`), converts it with
/// chrono's `From<SystemTime> for DateTime<Utc>`, which accepts times before
/// the Unix epoch as well as after it, and formats it with `to_rfc3339()`.
/// chrono writes the date and time (`YYYY-MM-DDTHH:MM:SS`, an optional
/// fraction) and then the UTC offset as `+00:00`, so the text has at least 25
/// characters and ends with `+00:00`. Which instant it names depends on the
/// system clock and is left unsaid. The conversion fails only for a clock
/// outside chrono's range of years (about ±262,000), which no system clock
/// reports.
#[verifier::external_body]
fn utc_now_rfc3339() -> (timestamp: String)
    ensures
        timestamp@.len() >= 25,
        timestamp@.subrange(timestamp@.len() - 6, timestamp@.len() as int) == utc_offset_suffix(),
{
    chrono::DateTime::<chrono::Utc>::from(std::time::SystemTime::now()).to_rfc3339()
}

// ---------------------------------------------------------------------------
// Memory footprint
// ---------------------------------------------------------------------------
proof fn lemma_target_latency_is_35()
    ensures
        !f32_sign_set(TARGET_LATENCY_US),
        f32_scaled_equals(TARGET_LATENCY_US, 0, 35),
{
    assert((0x420c_0000u32 >> 23u32) & 0xffu32 == 132) by (bit_vector);
    assert(0x420c_0000u32 & 0x7f_ffffu32 == 0x0c_0000) by (bit_vector);
    assert((0x420c_0000u32 >> 31u32) == 0) by (bit_vector);
    lemma2_to64();
    let b = TARGET_LATENCY_US;
    assert(b == 0x420c_0000u32);
    assert(f32_exponent(b) == 132);
    assert(f32_significand(b) == 0x8c_0000);
    assert(f32_scale(b) == -18);
    assert(f32_scaled_magnitude(b, 0) == 0x8c_0000nat / pow2(18));
    assert(0x8c_0000nat / 0x4_0000nat == 35);
    assert(0x8c_0000nat % 0x4_0000nat == 0);
}

/// `bytes as f32 / 1024.0`, as f32 bits.
fn kib_as_f32(bytes: u64) -> (kib: u32)
    ensures
        is_kib_of(kib, bytes as nat),
{
    if bytes < 0x100_0000 {
        return f32_of_scaled_integer(false, bytes as u32, 10);
    }
    let mut q: u64 = bytes;
    let mut p: u64 = 1;
    let mut d: u64 = 0;
    proof {
        lemma2_to64();
    }
    while q >= 0x100_0000
        invariant
            bytes >= 0x100_0000,
            p == pow2(d as nat),
            d < 64,
            q == bytes as nat / (p as nat),
            p * q <= bytes,
            excess_bits(bytes as nat) == d + excess_bits(q as nat),
            d > 0 ==> q >= 0x80_0000,
            pow2(64) == 0x1_0000_0000_0000_0000,
        decreases q,
    {
        proof {
            assert(p * 2 <= p * q) by (nonlinear_arith)
                requires
                    q >= 2,
            ;
            lemma_pow2_adds(d as nat, 1);
            lemma2_to64();
            lemma_pow2_pos(d as nat);
            lemma_div_denominator(bytes as int, p as int, 2);
            assert(excess_bits(q as nat) == 1 + excess_bits(q as nat / 2));
            assert((p * 2) * (q / 2) <= p * q) by (nonlinear_arith)
                requires
                    p >= 1,
                    q >= 0,
            ;
            if d + 1 >= 64 {
                if d + 1 > 64 {
                    lemma_pow2_strictly_increases(64, (d + 1) as nat);
                }
                assert(false);
            }
        }
        q = q / 2;
        p = p * 2;
        d = d + 1;
    }
    proof {
        lemma_pow2_pos(d as nat);
        lemma_fundamental_div_mod(bytes as int, p as int);
        lemma_pow2_unfold(d as nat);
        assert(excess_bits(q as nat) == 0);
    }
    let r: u64 = bytes - q * p;
    let half: u64 = p / 2;
    let round_up = r > half || (r == half && q % 2 == 1);
    let q2: u64 = if round_up {
        q + 1
    } else {
        q
    };
    assert(q2 * p == round_to_f32_precision(bytes as nat));
    if q2 == 0x100_0000 {
        let kib = f32_from_fields(false, (d + 141) as u32, 0);
        proof {
            lemma_pow2_adds(d as nat, 1);
            lemma2_to64();
            assert(f32_significand(kib) == 0x80_0000);
            assert(f32_scale(kib) + 10 == d + 1);
            assert(0x80_0000 * pow2((d + 1) as nat) == q2 * p) by (nonlinear_arith)
                requires
                    pow2((d + 1) as nat) == p * 2,
                    q2 == 0x100_0000,
            ;
        }
        kib
    } else {
        let kib = f32_from_fields(false, (d + 140) as u32, (q2 - 0x80_0000) as u32);
        proof {
            assert(f32_significand(kib) == q2);
            assert(f32_scale(kib) + 10 == d);
        }
        kib
    }
}

// ---------------------------------------------------------------------------
// Exporter
// ---------------------------------------------------------------------------
/// Append the unsigned Q8.8 word of every value to `out`.
fn append_q88_words(out: &mut Vec<u16>, values: &Vec<u32>)
    ensures
        final(out)@ == old(out)@ + q88_unsigned_all(values@),
{
    let n = values.len();
    for i in 0..n
        invariant
            n == values@.len(),
            out@ == old(out)@ + q88_unsigned_all(values@.take(i as int)),
    {
        out.push(encode_q88_unsigned(values[i]));
        assert(q88_unsigned_all(values@.take(i + 1)) =~= q88_unsigned_all(values@.take(i as int))
            .push(q88_unsigned_of(values@[i as int])));
    }
    assert(values@.take(n as int) =~= values@);
}

impl FpgaParameterExporter {
    /// Create an exporter with no parameters.
    pub fn new() -> (exporter: Self)
        ensures
            exporter.threshold_values() == Seq::<u32>::empty(),
            exporter.weight_rows() == Seq::<Seq<u32>>::empty(),
            exporter.decay_values() == Seq::<u32>::empty(),
    {
        let exporter = FpgaParameterExporter {
            thresholds: Vec::new(),
            weights: Vec::new(),
            decay_rates: Vec::new(),
        };
        assert(exporter.weight_rows() =~= Seq::<Seq<u32>>::empty());
        exporter
    }

    /// Create an exporter holding the given parameters.
    pub fn from_params(thresholds: Vec<u32>, weights: Vec<Vec<u32>>, decay_rates: Vec<u32>) -> (exporter: Self)
        ensures
            exporter.threshold_values() == thresholds@,
            exporter.weight_rows() == weights@.map_values(|row: Vec<u32>| row@),
            exporter.decay_values() == decay_rates@,
    {
        FpgaParameterExporter { thresholds, weights, decay_rates }
    }

    /// Set neuron thresholds.
    pub fn set_thresholds(&mut self, thresholds: Vec<u32>)
        ensures
            final(self).threshold_values() == thresholds@,
            final(self).weight_rows() == old(self).weight_rows(),
            final(self).decay_values() == old(self).decay_values(),
    {
        self.thresholds = thresholds;
    }

    /// Set the weight matrix `[neurons x channels]`.
    pub fn set_weights(&mut self, weights: Vec<Vec<u32>>)
        ensures
            final(self).threshold_values() == old(self).threshold_values(),
            final(self).weight_rows() == weights@.map_values(|row: Vec<u32>| row@),
            final(self).decay_values() == old(self).decay_values(),
    {
        self.weights = weights;
    }

    /// Set decay rates.
    pub fn set_decay_rates(&mut self, decay_rates: Vec<u32>)
        ensures
            final(self).threshold_values() == old(self).threshold_values(),
            final(self).weight_rows() == old(self).weight_rows(),
            final(self).decay_values() == decay_rates@,
    {
        self.decay_rates = decay_rates;
    }

    /// Convert one f32 (bit pattern) to unsigned Q8.8.
    pub fn to_q88(&self, value: u32) -> (raw: u16)
        ensures
            raw == q88_unsigned_of(value),
    {
        self.encode_q88(value)
    }

    /// Export the parameters, stamped with the current time.
    pub fn export(&self) -> (params: FpgaParameters)
        ensures
            self.exports_as(params, params.metadata.timestamp@),
            params.metadata.timestamp@.len() >= 25,
            params.metadata.timestamp@.subrange(
                params.metadata.timestamp@.len() - 6,
                params.metadata.timestamp@.len() as int,
            ) == utc_offset_suffix(),
    {
        ParameterExport::export(self)
    }

    /// All weights, row-major, as unsigned Q8.8 words.
    fn weight_words(&self) -> (words: Vec<u16>)
        ensures
            words@ == q88_unsigned_all(self.weight_rows().flatten()),
    {
        let mut words: Vec<u16> = Vec::new();
        let rows = self.weights.len();
        assert(self.weight_rows().take(0).flatten() =~= Seq::<u32>::empty());
        for i in 0..rows
            invariant
                rows == self.weights@.len(),
                words@ == q88_unsigned_all(self.weight_rows().take(i as int).flatten()),
        {
            append_q88_words(&mut words, &self.weights[i]);
            proof {
                let all = self.weight_rows();
                let row = all[i as int];
                assert(all.take(i + 1) =~= all.take(i as int) + seq![row]);
                vstd::seq_lib::lemma_flatten_concat(all.take(i as int), seq![row]);
                seq![row].lemma_flatten_one_element();
                assert(q88_unsigned_all(all.take(i as int).flatten() + row) =~= q88_unsigned_all(
                    all.take(i as int).flatten(),
                ) + q88_unsigned_all(row));
            }
        }
        assert(self.weight_rows().take(rows as int) =~= self.weight_rows());
        words
    }

    /// Bytes taken by the Q8.8 words, saturating at `u64::MAX`.
    fn memory_usage_in_bytes(&self) -> (bytes: u64)
        ensures
            bytes == self.memory_usage_bytes(),
    {
        let mut total: u64 = self.thresholds.len() as u64;
        let rows = self.weights.len();
        assert(self.weight_rows().take(0).flatten() =~= Seq::<u32>::empty());
        for i in 0..rows
            invariant
                rows == self.weights@.len(),
                total as nat == if self.threshold_values().len() + self.weight_rows().take(
                    i as int,
                ).flatten().len() > u64::MAX {
                    u64::MAX as nat
                } else {
                    self.threshold_values().len() + self.weight_rows().take(i as int).flatten().len()
                },
        {
            total = total.saturating_add(self.weights[i].len() as u64);
            proof {
                let all = self.weight_rows();
                let row = all[i as int];
                assert(all.take(i + 1) =~= all.take(i as int) + seq![row]);
                vstd::seq_lib::lemma_flatten_concat(all.take(i as int), seq![row]);
                seq![row].lemma_flatten_one_element();
            }
        }
        assert(self.weight_rows().take(rows as int) =~= self.weight_rows());
        total = total.saturating_add(self.decay_rates.len() as u64);
        if total > u64::MAX / 2 {
            u64::MAX
        } else {
            total * 2
        }
    }

    /// Export the parameters, stamped with `timestamp`.
    pub fn export_with_timestamp(&self, timestamp: String) -> (params: FpgaParameters)
        ensures
            self.exports_as(params, timestamp@),
    {
        let mut thresholds: Vec<u16> = Vec::new();
        append_q88_words(&mut thresholds, &self.thresholds);
        let mut decay_rates: Vec<u16> = Vec::new();
        append_q88_words(&mut decay_rates, &self.decay_rates);
        let weights = self.weight_words();
        let num_channels = if self.weights.len() == 0 {
            0
        } else {
            self.weights[0].len()
        };
        let memory_usage_kb = kib_as_f32(self.memory_usage_in_bytes());
        proof {
            lemma_target_latency_is_35();
        }
        let metadata = FpgaMetadata {
            version: EXPORT_FORMAT_VERSION.to_owned(),
            timestamp,
            num_neurons: self.thresholds.len(),
            num_channels,
            target_latency_us: TARGET_LATENCY_US,
            memory_usage_kb,
        };
        let params = FpgaParameters { thresholds, weights, decay_rates, metadata };
        assert(params.thresholds@ =~= q88_unsigned_all(self.threshold_values()));
        assert(params.decay_rates@ =~= q88_unsigned_all(self.decay_values()));
        params
    }
}

impl FixedPointEncode for FpgaParameterExporter {
    /// Q8.8: 8 integer bits, 8 fractional bits; `value × 256` clamped into
    /// `0..=65535` and truncated toward zero.
    fn encode_q88(&self, value: u32) -> (raw: u16)
        ensures
            raw == q88_unsigned_of(value),
    {
        encode_q88_unsigned(value)
    }
}

impl ParameterExport for FpgaParameterExporter {
    fn export(&self) -> (params: FpgaParameters)
        ensures
            self.exports_as(params, params.metadata.timestamp@),
            params.metadata.timestamp@.len() >= 25,
            params.metadata.timestamp@.subrange(
                params.metadata.timestamp@.len() - 6,
                params.metadata.timestamp@.len() as int,
            ) == utc_offset_suffix(),
    {
        let timestamp = utc_now_rfc3339();
        self.export_with_timestamp(timestamp)
    }
}

impl Default for FpgaParameterExporter {
    fn default() -> (exporter: Self)
        ensures
            exporter.threshold_values() == Seq::<u32>::empty(),
            exporter.weight_rows() == Seq::<Seq<u32>>::empty(),
            exporter.decay_values() == Seq::<u32>::empty(),
    {
        Self::new()
    }
}

/// `.mem` files of a parameter bundle, in the order thresholds, weights,
/// decay rates.
pub fn mem_files(params: &FpgaParameters) -> (files: Vec<MemFile>)
    ensures
        files@.len() == 3,
        files@[0].name@ == THRESHOLDS_MEM_FILE@,
        files@[0].contents@ == mem_file_text(params.thresholds@),
        files@[1].name@ == WEIGHTS_MEM_FILE@,
        files@[1].contents@ == mem_file_text(params.weights@),
        files@[2].name@ == DECAY_MEM_FILE@,
        files@[2].contents@ == mem_file_text(params.decay_rates@),
{
    let mut files: Vec<MemFile> = Vec::new();
    files.push(
        MemFile {
            name: THRESHOLDS_MEM_FILE.to_owned(),
            contents: mem_file_contents(params.thresholds.as_slice()),
        },
    );
    files.push(
        MemFile {
            name: WEIGHTS_MEM_FILE.to_owned(),
            contents: mem_file_contents(params.weights.as_slice()),
        },
    );
    files.push(
        MemFile {
            name: DECAY_MEM_FILE.to_owned(),
            contents: mem_file_contents(params.decay_rates.as_slice()),
        },
    );
    files
}

/// Format an f32 (bit pattern) as its unsigned Q8.8 word in `{:04X}` hex.
pub fn format_q88_hex(value: u32) -> (text: String)
    ensures
        text@ == hex_word(q88_unsigned_of(value)),
{
    let exporter = FpgaParameterExporter::new();
    let raw = exporter.encode_q88(value);
    format_hex_word(raw)
}

// ---------------------------------------------------------------------------
// Laws
// ---------------------------------------------------------------------------
proof fn lemma_flatten_rectangular(rows: Seq<Seq<u32>>, m: int, r: int, c: int)
    requires
        forall|k: int| 0 <= k < rows.len() ==> #[trigger] rows[k].len() == m,
        0 <= r < rows.len(),
        0 <= c < m,
    ensures
        rows.flatten().len() == rows.len() * m,
        rows.flatten()[r * m + c] == rows[r][c],
    decreases rows.len(),
{
    let rest = rows.drop_first();
    assert(rows.flatten() == rows[0] + rest.flatten());
    assert(r * m + c < rows.len() * m) by (nonlinear_arith)
        requires
            0 <= r < rows.len(),
            0 <= c < m,
    ;
    if rows.len() == 1 {
        assert(rest.flatten() =~= Seq::<u32>::empty());
        assert(r == 0);
        assert(rows.len() * m == m) by (nonlinear_arith)
            requires
                rows.len() == 1,
        ;
    } else {
        assert(rest.len() * m + m == rows.len() * m) by (nonlinear_arith)
            requires
                rest.len() == rows.len() - 1,
        ;
        if r == 0 {
            lemma_flatten_rectangular(rest, m, 0, c);
            assert(r * m + c == c);
        } else {
            lemma_flatten_rectangular(rest, m, r - 1, c);
            assert(r * m + c - m == (r - 1) * m + c) by (nonlinear_arith);
            assert(r * m + c >= m) by (nonlinear_arith)
                requires
                    r >= 1,
                    c >= 0,
                    m >= 0,
            ;
            assert(rest[r - 1] == rows[r]);
        }
    }
}

/// Weights are exported row-major: for a rectangular `[neurons x channels]`
/// matrix, word `r * channels + c` is the Q8.8 word of row `r`, column `c`,
/// and there are `neurons * channels` words.
pub proof fn law_weights_are_row_major(
    exporter: FpgaParameterExporter,
    params: FpgaParameters,
    timestamp: Seq<char>,
    r: int,
    c: int,
)
    requires
        exporter.exports_as(params, timestamp),
        forall|k: int|
            0 <= k < exporter.weight_rows().len() ==> #[trigger] exporter.weight_rows()[k].len()
                == exporter.channel_count(),
        0 <= r < exporter.weight_rows().len(),
        0 <= c < exporter.channel_count(),
    ensures
        params.weights@.len() == exporter.weight_rows().len() * exporter.channel_count(),
        params.weights@[r * exporter.channel_count() + c] == q88_unsigned_of(
            exporter.weight_rows()[r][c],
        ),
{
    let m = exporter.channel_count() as int;
    lemma_flatten_rectangular(exporter.weight_rows(), m, r, c);
    assert(r * m + c < exporter.weight_rows().len() * m) by (nonlinear_arith)
        requires
            0 <= r < exporter.weight_rows().len(),
            0 <= c < m,
    ;
}

/// The `.mem` files of an export hold, on line `i`, the word of the `i`-th
/// threshold, weight (row-major) or decay rate, and that line reads back as
/// the parameter's Q8.8 word.
pub proof fn law_mem_files_match_export(
    exporter: FpgaParameterExporter,
    params: FpgaParameters,
    timestamp: Seq<char>,
)
    requires
        exporter.exports_as(params, timestamp),
    ensures
        forall|i: int|
            0 <= i < exporter.threshold_values().len() ==> hex_word_value(
                #[trigger] mem_file_text(params.thresholds@).subrange(5 * i, 5 * i + 4),
            ) == q88_unsigned_of(exporter.threshold_values()[i]),
        forall|i: int|
            0 <= i < exporter.weight_rows().flatten().len() ==> hex_word_value(
                #[trigger] mem_file_text(params.weights@).subrange(5 * i, 5 * i + 4),
            ) == q88_unsigned_of(exporter.weight_rows().flatten()[i]),
        forall|i: int|
            0 <= i < exporter.decay_values().len() ==> hex_word_value(
                #[trigger] mem_file_text(params.decay_rates@).subrange(5 * i, 5 * i + 4),
            ) == q88_unsigned_of(exporter.decay_values()[i]),
{
    assert forall|i: int| 0 <= i < exporter.threshold_values().len() implies hex_word_value(
        #[trigger] mem_file_text(params.thresholds@).subrange(5 * i, 5 * i + 4),
    ) == q88_unsigned_of(exporter.threshold_values()[i]) by {
        law_mem_file_lines(params.thresholds@, i);
    }
    assert forall|i: int| 0 <= i < exporter.weight_rows().flatten().len() implies hex_word_value(
        #[trigger] mem_file_text(params.weights@).subrange(5 * i, 5 * i + 4),
    ) == q88_unsigned_of(exporter.weight_rows().flatten()[i]) by {
        law_mem_file_lines(params.weights@, i);
    }
    assert forall|i: int| 0 <= i < exporter.decay_values().len() implies hex_word_value(
        #[trigger] mem_file_text(params.decay_rates@).subrange(5 * i, 5 * i + 4),
    ) == q88_unsigned_of(exporter.decay_values()[i]) by {
        law_mem_file_lines(params.decay_rates@, i);
    }
}

proof fn lemma_flatten_len_rectangular(rows: Seq<Seq<u32>>, m: int)
    requires
        forall|k: int| 0 <= k < rows.len() ==> #[trigger] rows[k].len() == m,
    ensures
        rows.flatten().len() == rows.len() * m,
    decreases rows.len(),
{
    if rows.len() > 0 {
        let rest = rows.drop_first();
        assert forall|k: int| 0 <= k < rest.len() implies #[trigger] rest[k].len() == m by {
            assert(rest[k] == rows[k + 1]);
        }
        lemma_flatten_len_rectangular(rest, m);
        assert(rows.flatten() == rows[0] + rest.flatten());
        assert(rest.len() * m + m == rows.len() * m) by (nonlinear_arith)
            requires
                rest.len() == rows.len() - 1,
        ;
    }
}

/// The metadata of an export describes its words:
/// - one threshold word per threshold and one decay word per decay rate,
///   and `num_neurons` is the number of threshold words;
/// - `num_channels` is the length of the first weight row, 0 without rows;
/// - for a rectangular weight matrix there are `rows × num_channels`
///   weight words, whichever of rows and columns is larger;
/// - the footprint is 2 bytes per exported word, in KiB (exact while the
///   byte count is below `2^24`).
pub proof fn law_export_metadata_describes_words(
    exporter: FpgaParameterExporter,
    params: FpgaParameters,
    timestamp: Seq<char>,
)
    requires
        exporter.exports_as(params, timestamp),
    ensures
        params.thresholds@.len() == exporter.threshold_values().len(),
        params.decay_rates@.len() == exporter.decay_values().len(),
        params.metadata.num_neurons == params.thresholds@.len(),
        exporter.weight_rows().len() == 0 ==> params.metadata.num_channels == 0
            && params.weights@.len() == 0,
        exporter.weight_rows().len() > 0 ==> params.metadata.num_channels
            == exporter.weight_rows()[0].len(),
        (forall|k: int|
            0 <= k < exporter.weight_rows().len() ==> #[trigger] exporter.weight_rows()[k].len()
                == exporter.weight_rows()[0].len()) ==> params.weights@.len()
            == exporter.weight_rows().len() * params.metadata.num_channels,
        2 * (params.thresholds@.len() + params.weights@.len() + params.decay_rates@.len())
            < 0x100_0000 ==> !f32_sign_set(params.metadata.memory_usage_kb) && f32_scaled_equals(
            params.metadata.memory_usage_kb,
            10,
            (2 * (params.thresholds@.len() + params.weights@.len() + params.decay_rates@.len())) as int,
        ),
{
    let rows = exporter.weight_rows();
    if rows.len() == 0 {
        assert(rows.flatten() =~= Seq::<u32>::empty());
    } else if forall|k: int| 0 <= k < rows.len() ==> #[trigger] rows[k].len() == rows[0].len() {
        lemma_flatten_len_rectangular(rows, rows[0].len() as int);
    }
    let n = 2 * (params.thresholds@.len() + params.weights@.len() + params.decay_rates@.len());
    if n < 0x100_0000 {
        assert(exporter.memory_usage_bytes() == n);
        assert(excess_bits(n) == 0);
        assert(round_to_f32_precision(n) == n);
    }
}

} // verus!
