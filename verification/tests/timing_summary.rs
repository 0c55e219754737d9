use silicon_bridge::report_wns_field;

/// The library locates the WNS token; reading it as a number is ordinary
/// `f32` parsing, done here on the located token.
fn parse_from_report(report_text: &str) -> Option<f32> {
    report_wns_field(report_text).and_then(|token| token.parse::<f32>().ok())
}

const TIMING_SUMMARY: &str = "\
------------------------------------------------------------------
| Tool Version : Vivado v2022.2 (64-bit)
| Design       : Basys3_Top
------------------------------------------------------------------

Design Timing Summary
---------------------

    WNS(ns)      TNS(ns)  TNS Failing Endpoints  TNS Total Endpoints
    -------      -------  ---------------------  -------------------
      2.345        0.000                      0                 1234
";

fn assert_close(actual: f32, expected: f32) {
    assert!(
        (actual - expected).abs() < 1e-6,
        "expected {expected}, got {actual}"
    );
}

#[test]
fn parses_wns_from_timing_summary() {
    let wns = parse_from_report(TIMING_SUMMARY).expect("WNS row not parsed");
    assert_close(wns, 2.345);
}

#[test]
fn parses_negative_wns() {
    let report = "WNS(ns)      TNS(ns)\n  -0.427        -1.882\n";
    let wns = parse_from_report(report).expect("negative WNS not parsed");
    assert_close(wns, -0.427);
}

#[test]
fn skips_blank_lines_between_header_and_data() {
    let report = "    WNS(ns)      TNS(ns)\n\n   \n\n      1.500        0.000\n";
    let wns = parse_from_report(report).expect("data row after blanks not parsed");
    assert_close(wns, 1.5);
}

#[test]
fn tolerates_tabs_and_trailing_whitespace() {
    let report = "\t WNS(ns) \t TNS(ns)  \n\t   0.875 \t 0.000  \n";
    let wns = parse_from_report(report).expect("tab-separated row not parsed");
    assert_close(wns, 0.875);
}

#[test]
fn header_without_data_row_returns_none() {
    let report = "    WNS(ns)      TNS(ns)\n";
    assert!(parse_from_report(report).is_none());
}

#[test]
fn missing_header_returns_none() {
    let report = "Design Timing Summary\n      2.345        0.000\n";
    assert!(parse_from_report(report).is_none());
}

#[test]
fn empty_input_returns_none() {
    assert!(parse_from_report("").is_none());
    assert!(parse_from_report("   \n\n\t\n").is_none());
}

#[test]
fn garbage_input_returns_none() {
    assert!(parse_from_report("not a vivado report at all").is_none());
}

#[test]
fn non_numeric_first_token_returns_none() {
    let report = "    WNS(ns)      TNS(ns)\n        N/A          N/A\n";
    assert!(parse_from_report(report).is_none());
}

#[test]
fn skips_dashed_separator_row() {
    let report =
        "    WNS(ns)      TNS(ns)\n    -------      -------\n      2.345        0.000\n";
    let wns = parse_from_report(report).expect("separator row blocked WNS parse");
    assert_close(wns, 2.345);
}

#[test]
fn separator_row_then_eof_returns_none() {
    let report = "    WNS(ns)      TNS(ns)\n    -------      -------\n";
    assert!(parse_from_report(report).is_none());
}

// ---------------------------------------------------------------------------
// Further cases
// ---------------------------------------------------------------------------

#[test]
fn token_is_the_first_field_of_the_data_row() {
    assert_eq!(report_wns_field(TIMING_SUMMARY), Some("2.345"));
    assert_eq!(report_wns_field("    WNS(ns)      TNS(ns)\n        N/A          N/A\n"), Some("N/A"));
}

#[test]
fn crlf_line_endings_and_unicode_whitespace_are_trimmed() {
    let report = "WNS(ns)\r\n\u{a0}\u{3000}-1.25\u{2003}TNS\r\n";
    assert_eq!(report_wns_field(report), Some("-1.25"));
}

#[test]
fn repeated_header_lines_are_skipped() {
    let report = "WNS(ns)\nWNS(ns) again\n3.5\n";
    assert_eq!(report_wns_field(report), Some("3.5"));
}

#[test]
fn data_before_the_header_is_ignored() {
    let report = "9.9 stray\n WNS(ns)\n\n1.0\n";
    assert_eq!(report_wns_field(report), Some("1.0"));
}

#[test]
fn last_line_without_newline_is_read() {
    assert_eq!(report_wns_field("WNS(ns)\n 0.5"), Some("0.5"));
}

#[test]
fn a_dash_run_glued_to_text_is_a_token() {
    assert_eq!(report_wns_field("WNS(ns)\n---x 1\n"), Some("---x"));
    assert_eq!(report_wns_field("WNS(ns)\n-- -\n"), None);
}

#[test]
fn text_after_the_data_row_is_ignored() {
    let report = "WNS(ns)\n----\n 2.5 0.0\n";
    for more in ["", "WNS(ns)\n9.0\n", "garbage", "\n\n-1.0"] {
        assert_eq!(report_wns_field(&format!("{report}{more}")), Some("2.5"));
    }
}

#[test]
fn text_before_the_header_is_ignored() {
    let report = "    WNS(ns)  TNS(ns)\n      -0.125   0.0\n";
    for preamble in ["", "Design Timing Summary\n", "1.0 2.0\n\n----\n", "x WNS(ns)\n"] {
        assert_eq!(report_wns_field(&format!("{preamble}{report}")), Some("-0.125"));
    }
}
