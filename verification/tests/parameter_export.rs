use silicon_bridge::{
    format_q88_hex, mem_file_contents, mem_files, q88_to_f32, FixedPointEncode,
    FpgaParameterExporter, FpgaParameters, ParameterExport, EXPORT_FORMAT_VERSION,
};

fn bits(values: &[f32]) -> Vec<u32> {
    values.iter().map(|v| v.to_bits()).collect()
}

fn bit_rows(rows: &[Vec<f32>]) -> Vec<Vec<u32>> {
    rows.iter().map(|row| bits(row)).collect()
}

fn kb(params: &FpgaParameters) -> f32 {
    f32::from_bits(params.metadata.memory_usage_kb)
}

#[test]
fn test_q88_conversion() {
    let exporter = FpgaParameterExporter::new();

    assert_eq!(exporter.to_q88(0.0f32.to_bits()), 0);
    assert_eq!(exporter.to_q88(1.0f32.to_bits()), 256);
    assert_eq!(exporter.to_q88(255.0f32.to_bits()), 65280);

    assert_eq!(f32::from_bits(q88_to_f32(256)), 1.0);
    assert_eq!(f32::from_bits(q88_to_f32(0)), 0.0);
    assert_eq!(f32::from_bits(q88_to_f32(65280)), 255.0);
}

#[test]
fn test_parameter_export() {
    let mut exporter = FpgaParameterExporter::new();

    exporter.set_thresholds(bits(&[1.0, 0.8, 1.2]));
    exporter.set_weights(bit_rows(&[
        vec![0.5, 1.0, 0.3],
        vec![0.7, 0.9, 1.1],
        vec![0.4, 0.6, 0.8],
    ]));
    exporter.set_decay_rates(bits(&[0.85, 0.9, 0.8]));

    let params = exporter.export();

    assert_eq!(params.thresholds.len(), 3);
    assert_eq!(params.weights.len(), 9);
    assert_eq!(params.decay_rates.len(), 3);
    assert_eq!(params.metadata.num_neurons, 3);
    assert_eq!(params.metadata.num_channels, 3);

    assert_eq!(params.thresholds, vec![256, 204, 307]);
    assert_eq!(params.weights, vec![128, 256, 76, 179, 230, 281, 102, 153, 204]);
    assert_eq!(params.decay_rates, vec![217, 230, 204]);
}

#[test]
fn test_memory_calculation() {
    let mut exporter = FpgaParameterExporter::new();

    exporter.set_thresholds(bits(&[1.0; 16]));
    exporter.set_weights(bit_rows(&vec![vec![0.5; 16]; 16]));
    exporter.set_decay_rates(bits(&[0.85; 16]));

    let params = exporter.export();

    // (16 + 256 + 16) * 2 bytes = 576 bytes = 0.5625 KB
    assert!((kb(&params) - 0.5625).abs() < 0.01);
}

#[test]
fn test_trait_surface() {
    let exporter = FpgaParameterExporter::from_params(
        bits(&[1.0]),
        bit_rows(&[vec![0.5]]),
        bits(&[0.9]),
    );

    assert_eq!(FixedPointEncode::encode_q88(&exporter, 1.0f32.to_bits()), 256);
    let params = ParameterExport::export(&exporter);
    assert_eq!(params.metadata.version, EXPORT_FORMAT_VERSION);
    assert_eq!(params.thresholds, vec![256]);
    assert_eq!(params.weights, vec![128]);
    assert_eq!(params.decay_rates, vec![230]);
}

/// Small fixture whose floats are exact Q8.8 multiples of 1/256.
fn mem_writer_fixture() -> FpgaParameterExporter {
    FpgaParameterExporter::from_params(
        bits(&[1.0, 0.75]),
        bit_rows(&[vec![0.5, 2.0], vec![0.25, 1.5]]),
        bits(&[0.5, 0.75]),
    )
}

fn mem_lines(contents: &str) -> Vec<String> {
    contents.lines().map(str::to_string).collect()
}

fn assert_uppercase_hex_words(lines: &[String]) {
    for line in lines {
        assert_eq!(line.len(), 4, "expected XXXX hex word, got {line:?}");
        assert!(
            line.chars()
                .all(|c| c.is_ascii_hexdigit() && !c.is_ascii_lowercase()),
            "expected uppercase XXXX hex word, got {line:?}"
        );
    }
}

fn parse_mem_words(lines: &[String]) -> Vec<u16> {
    lines
        .iter()
        .map(|line| u16::from_str_radix(line, 16).expect("mem line should be valid hex"))
        .collect()
}

#[test]
fn mem_files_of_an_export_hold_the_expected_words() {
    let exporter = mem_writer_fixture();
    let params = ParameterExport::export(&exporter);
    let files = mem_files(&params);

    let names: Vec<&str> = files.iter().map(|f| f.name.as_str()).collect();
    assert_eq!(
        names,
        ["parameters.mem", "parameters_weights.mem", "parameters_decay.mem"]
    );
    assert_eq!(silicon_bridge::export::METADATA_JSON_FILE, "parameters.json");

    let thresholds = mem_lines(&files[0].contents);
    let weights = mem_lines(&files[1].contents);
    let decay_rates = mem_lines(&files[2].contents);

    assert_uppercase_hex_words(&thresholds);
    assert_uppercase_hex_words(&weights);
    assert_uppercase_hex_words(&decay_rates);

    // 1.0 -> 0x0100, 0.75 -> 0x00C0 (letter digit proves uppercase)
    assert_eq!(thresholds, ["0100", "00C0"]);
    // Flattened row-major: 0.5, 2.0, 0.25, 1.5
    assert_eq!(weights, ["0080", "0200", "0040", "0180"]);
    assert_eq!(decay_rates, ["0080", "00C0"]);
    for file in &files {
        assert!(file.contents.ends_with('\n'));
    }
}

#[test]
fn mem_texts_round_trip_to_parameter_export() {
    let exporter = mem_writer_fixture();
    let expected = ParameterExport::export(&exporter);
    let files = mem_files(&expected);

    let thresholds = parse_mem_words(&mem_lines(&files[0].contents));
    let weights = parse_mem_words(&mem_lines(&files[1].contents));
    let decay_rates = parse_mem_words(&mem_lines(&files[2].contents));

    assert_eq!(thresholds, expected.thresholds);
    assert_eq!(weights, expected.weights);
    assert_eq!(decay_rates, expected.decay_rates);

    let decoded: Vec<f32> = thresholds
        .iter()
        .copied()
        .map(|w| f32::from_bits(q88_to_f32(w)))
        .collect();
    for (got, want) in decoded.iter().zip([1.0_f32, 0.75]) {
        assert!(
            (got - want).abs() < 1e-6,
            "Q8.8 round-trip drifted: got {got}, want {want}"
        );
    }
}

// ---------------------------------------------------------------------------
// Further cases
// ---------------------------------------------------------------------------

#[test]
fn export_metadata_fields() {
    let exporter = mem_writer_fixture();
    let params = exporter.export_with_timestamp("2024-01-02T03:04:05+00:00".to_string());
    assert_eq!(params.metadata.version, "Spikenaut-v2");
    assert_eq!(params.metadata.timestamp, "2024-01-02T03:04:05+00:00");
    assert_eq!(params.metadata.num_neurons, 2);
    assert_eq!(params.metadata.num_channels, 2);
    assert_eq!(f32::from_bits(params.metadata.target_latency_us), 35.0);
    // (2 thresholds + 4 weights + 2 decay) * 2 bytes = 16 bytes
    assert_eq!(kb(&params), 16.0 / 1024.0);
}

#[test]
fn export_timestamp_is_rfc3339_utc() {
    let params = FpgaParameterExporter::new().export();
    let ts = params.metadata.timestamp;
    assert!(ts.len() >= 25, "{ts}");
    assert!(ts.ends_with("+00:00"), "{ts}");
    assert_eq!(&ts[4..5], "-");
    assert_eq!(&ts[10..11], "T");
}

#[test]
fn empty_exporter_exports_nothing() {
    let params = FpgaParameterExporter::default().export_with_timestamp(String::new());
    assert!(params.thresholds.is_empty());
    assert!(params.weights.is_empty());
    assert!(params.decay_rates.is_empty());
    assert_eq!(params.metadata.num_neurons, 0);
    assert_eq!(params.metadata.num_channels, 0);
    assert_eq!(params.metadata.memory_usage_kb, 0.0f32.to_bits());
}

#[test]
fn channel_count_comes_from_the_first_row() {
    let exporter = FpgaParameterExporter::from_params(
        vec![],
        bit_rows(&[vec![1.0, 2.0, 3.0], vec![4.0]]),
        vec![],
    );
    let params = exporter.export_with_timestamp(String::new());
    assert_eq!(params.metadata.num_channels, 3);
    assert_eq!(params.weights, vec![256, 512, 768, 1024]);
}

#[test]
fn memory_usage_rounds_like_an_f32_cast() {
    // 2^24 + 1 parameters: 2^25 + 2 bytes, which an f32 cannot hold exactly.
    let count = (1usize << 24) + 1;
    let exporter = FpgaParameterExporter::from_params(vec![0; count], vec![], vec![]);
    let params = exporter.export_with_timestamp(String::new());
    let bytes = count * 2;
    assert_eq!(kb(&params), bytes as f32 / 1024.0);
    assert_eq!(kb(&params), 32768.0);
}

#[test]
fn format_q88_hex_is_four_uppercase_digits() {
    assert_eq!(format_q88_hex(1.0f32.to_bits()), "0100");
    assert_eq!(format_q88_hex(0.75f32.to_bits()), "00C0");
    assert_eq!(format_q88_hex(255.99609375f32.to_bits()), "FFFF");
    assert_eq!(format_q88_hex((-3.0f32).to_bits()), "0000");
    assert_eq!(format_q88_hex(171.0f32.to_bits() & 0x7fff_ffff), "AB00");
}

#[test]
fn mem_contents_match_std_formatting() {
    let words: Vec<u16> = (0..=u16::MAX).step_by(97).collect();
    let expected: String = words.iter().map(|w| format!("{:04X}\n", w)).collect();
    assert_eq!(mem_file_contents(&words), expected);
    assert_eq!(mem_file_contents(&[]), "");
}

#[test]
fn every_word_reads_back_from_its_hex_digits() {
    for w in 0..=u16::MAX {
        let text = silicon_bridge::format_hex_word(w);
        assert_eq!(text.len(), 4);
        assert_eq!(u16::from_str_radix(&text, 16).unwrap(), w);
        assert_eq!(text, format!("{:04X}", w));
    }
}
