use kb_app::error::ErrorCode;
use kb_app::review::{append_log, capture_log_line, captured_versions, covered_by_skipped, source_title};

fn strings(v: &[&str]) -> Vec<String> {
    v.iter().map(|s| s.to_string()).collect()
}

#[test]
fn a_capture_line_goes_at_the_end_of_the_managed_region() {
    let log = "# Log\n<!-- kb:managed:start -->\n- old\n<!-- kb:managed:end -->\ntail\n";
    let out = append_log(log, "- new\n").unwrap();
    assert_eq!(out, "# Log\n<!-- kb:managed:start -->\n- old\n- new\n<!-- kb:managed:end -->\ntail\n");
    let e = append_log("# Log\n", "- new\n").unwrap_err();
    assert_eq!(e.code, ErrorCode::InvalidConfig);
    assert_eq!(e.message, "Wiki/log.md: expected one managed region");
    let twice = "<!-- kb:managed:start --><!-- kb:managed:start --><!-- kb:managed:end -->";
    assert_eq!(append_log(twice, "x").unwrap_err().message, "Wiki/log.md: expected one managed region");
    let reversed = "<!-- kb:managed:end -->\n<!-- kb:managed:start -->\n";
    assert_eq!(append_log(reversed, "x").unwrap_err().message, "Wiki/log.md: reversed managed markers");
}

#[test]
fn the_capture_line_counts_updated_and_missing_sources() {
    assert_eq!(
        capture_log_line("2024-01-02T03:04:05Z", "op-7", &vec![true, false, true]),
        "- 2024-01-02T03:04:05Z \u{b7} Source capture op-7: 2 updated, 1 missing.\n"
    );
    assert_eq!(capture_log_line("t", "op", &Vec::new()), "- t \u{b7} Source capture op: 0 updated, 0 missing.\n");
}

#[test]
fn skipped_paths_cover_their_descendants() {
    let skipped = strings(&["Notes/big.pdf", "Notes/private"]);
    assert!(covered_by_skipped("Notes/big.pdf", &skipped));
    assert!(covered_by_skipped("Notes/private/a.md", &skipped));
    assert!(!covered_by_skipped("Notes/privateer.md", &skipped));
    assert!(!covered_by_skipped("Notes/a.md", &skipped));
}

#[test]
fn captured_versions_keep_history_without_repeats() {
    assert_eq!(captured_versions(None, "v2"), strings(&["v2"]));
    assert_eq!(captured_versions(Some((strings(&["v1"]), "v1".to_string())), "v2"), strings(&["v1", "v2"]));
    assert_eq!(captured_versions(Some((Vec::new(), "v1".to_string())), "v1"), strings(&["v1"]));
    assert_eq!(captured_versions(Some((strings(&["v0"]), "v1".to_string())), "v0"), strings(&["v0", "v1"]));
    assert_eq!(source_title("a/b/report.pdf"), "report.pdf");
    assert_eq!(source_title("report.pdf"), "report.pdf");
}
