use pice_core::coverage::lcov_line_counts;

#[test]
fn empty_report_has_no_lines() {
    assert_eq!(lcov_line_counts(""), (0, 0));
}

#[test]
fn counts_hit_and_instrumented_lines() {
    assert_eq!(lcov_line_counts("DA:1,5\nDA:2,0\nDA:3,1\n"), (2, 3));
}

#[test]
fn record_details() {
    let report = "SF:src/lib.rs\nDA:1,+3\r\nDA:2, 7 \nDA:3,abc\nDA:4\nDA:5,2,checksum\nLH:2\nend_of_record";
    assert_eq!(lcov_line_counts(report), (3, 5));
}

#[test]
fn out_of_range_count_is_not_a_hit() {
    assert_eq!(lcov_line_counts("DA:1,99999999999999999999"), (0, 1));
    assert_eq!(lcov_line_counts("DA:1,18446744073709551615"), (1, 1));
    assert_eq!(lcov_line_counts("DA:1,-1\nda:2,1"), (0, 1));
}
