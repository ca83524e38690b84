use colored::Colorize;
use nix_test_runner::FailedTest;
use nix_test_runner::PassedTest;
use nix_test_runner::Reporter;
use nix_test_runner::TestResult;

fn passed(name: &str) -> PassedTest {
    PassedTest { passed_test: name.to_string() }
}

fn failed(name: &str, result: &str, expected: &str) -> FailedTest {
    FailedTest {
        expected: expected.to_string(),
        failed_test: name.to_string(),
        result: result.to_string(),
    }
}

#[test]
fn status_passed_test() {
    assert_eq!(
        TestResult { passed: vec![], failed: vec![] }.status(),
        "TEST RUN PASSED".green().to_string()
    )
}

#[test]
fn status_failed_test() {
    assert_eq!(
        TestResult {
            passed: vec![],
            failed: vec![FailedTest {
                expected: "".to_string(),
                result: "".to_string(),
                failed_test: "".to_string()
            }]
        }
        .status(),
        "TEST RUN FAILED".red().to_string()
    )
}

#[test]
fn successful_is_no_failures() {
    let ok = TestResult { passed: vec![passed("a")], failed: vec![] };
    assert!(ok.successful());
    let bad = TestResult { passed: vec![passed("a")], failed: vec![failed("b", "1", "2")] };
    assert!(!bad.successful());
    let empty = TestResult { passed: vec![], failed: vec![] };
    assert!(empty.successful());
}

#[test]
fn human_empty_run_reads_passed() {
    let r = TestResult { passed: vec![], failed: vec![] };
    let out = r.format(Some(0), Reporter::Human).unwrap();
    assert!(out.contains("TEST RUN PASSED"));
    assert!(!out.contains("TEST RUN FAILED"));
    assert!(out.contains("Duration:"));
    assert!(out.contains(" 0 ms"));
    assert!(out.contains("Passed:"));
    assert!(out.contains("Failed:"));
}

#[test]
fn human_failed_run_reads_failed() {
    let r = TestResult {
        passed: vec![],
        failed: vec![failed("t1", "B", "A")],
    };
    let out = r.format(Some(3), Reporter::Human).unwrap();
    assert!(out.contains("TEST RUN FAILED"));
    assert!(out.contains("t1"));
    assert!(out.contains("Expect.equal"));
    assert!(out.contains(" 3 ms"));
}

#[test]
fn human_counts_in_decimal() {
    let r = TestResult {
        passed: (0..12).map(|i| passed(&format!("p{}", i))).collect(),
        failed: vec![failed("f", "x", "y")],
    };
    let out = r.human(1234, 80);
    assert!(out.contains(" 1234 ms"));
    assert!(out.contains("   12 "));
    assert!(out.contains("   1\n"));
}

#[test]
fn human_missing_duration_renders_zero() {
    let r = TestResult { passed: vec![], failed: vec![] };
    let out = r.format(None, Reporter::Human).unwrap();
    assert!(out.contains(" 0 ms"));
}

#[test]
fn junit_empty_run_has_no_testcases() {
    let r = TestResult { passed: vec![], failed: vec![] };
    let out = r.format(Some(0), Reporter::Junit).unwrap();
    assert!(out.contains("<testsuite"));
    assert!(out.contains("nix tests"));
    assert_eq!(out.matches("<testcase").count(), 0);
}

#[test]
fn junit_failed_case_message() {
    let r = TestResult {
        passed: vec![],
        failed: vec![failed("t1", "B", "A")],
    };
    let out = r.format(Some(0), Reporter::Junit).unwrap();
    assert_eq!(out.matches("<testcase").count(), 1);
    assert!(out.contains("name=\"t1\""));
    assert!(out.contains("type=\"Equals\""));
    assert!(out.contains("Actual: B Expected: A"));
}

#[test]
fn junit_counts_all_cases() {
    let r = TestResult {
        passed: vec![passed("p1"), passed("p2"), passed("p3")],
        failed: vec![failed("f1", "1", "2"), failed("f2", "3", "4")],
    };
    let out = r.format(Some(0), Reporter::Junit).unwrap();
    assert_eq!(out.matches("<testcase").count(), 5);
    // passed cases first, in original order, then failed cases in order
    let p1 = out.find("name=\"p1\"").unwrap();
    let p2 = out.find("name=\"p2\"").unwrap();
    let p3 = out.find("name=\"p3\"").unwrap();
    let f1 = out.find("name=\"f1\"").unwrap();
    let f2 = out.find("name=\"f2\"").unwrap();
    assert!(p1 < p2 && p2 < p3 && p3 < f1 && f1 < f2);
}

#[test]
fn rendering_is_idempotent() {
    let r = TestResult {
        passed: vec![passed("p")],
        failed: vec![failed("f", "lorem", "ipsum")],
    };
    for reporter in [Reporter::Json, Reporter::Junit, Reporter::Human] {
        let a = r.format(Some(7), reporter).unwrap();
        let b = r.format(Some(7), reporter).unwrap();
        assert_eq!(a, b);
    }
}

#[test]
fn format_result_message() {
    let f = failed("t", "got", "want");
    assert_eq!(f.format_result(), "Actual: got Expected: want");
}

#[test]
fn diff_marks_only_divergent_positions() {
    let left_marking = nix_test_runner::diffing::render_diff('\u{25B2}', "abc", "abd");
    assert_eq!(left_marking, "  \u{25B2}");
    assert_eq!(left_marking.chars().count(), 3);
    let right_marking = nix_test_runner::diffing::render_diff('\u{25BC}', "abd", "abc");
    assert_eq!(right_marking, "  \u{25BC}");
    assert_eq!(right_marking.chars().count(), 3);
}

#[test]
fn diff_marking_length_matches_left() {
    let m = nix_test_runner::diffing::render_diff('^', "kitten", "sitting");
    assert_eq!(m.chars().count(), 6);
    let m2 = nix_test_runner::diffing::render_diff('^', "", "anything");
    assert_eq!(m2, "");
}

#[test]
fn wrapping_chunks_long_values() {
    let long: String = std::iter::repeat('x').take(200).collect();
    let marking: String = std::iter::repeat('^').take(200).collect();
    let out = nix_test_runner::diffing::with_diff(&long, &marking, 8, 80);
    assert!(!out.is_empty());
    // budget 72: chunks of 72, 72, 56, value and marking interleaved
    let lines: Vec<&str> = out.split('\n').collect();
    assert_eq!(lines.len(), 6);
    assert_eq!(lines[0], "x".repeat(72));
    assert_eq!(lines[1], format!("{}{}", " ".repeat(8), "^".repeat(72)));
    assert_eq!(lines[4], format!("{}{}", " ".repeat(8), "x".repeat(56)));
    assert_eq!(lines[5], format!("{}{}", " ".repeat(8), "^".repeat(56)));
}

#[test]
fn wrapping_empty_value_is_empty() {
    let out = nix_test_runner::diffing::with_diff("", "", 8, 80);
    assert_eq!(out, "");
}

#[test]
fn pathological_width_does_not_panic() {
    let out = nix_test_runner::diffing::with_diff("ab", "^^", 8, 0);
    // the column budget is clamped to one column
    assert_eq!(out.split('\n').count(), 4);
}

#[test]
fn width_defaults_to_eighty_without_terminal() {
    assert_eq!(nix_test_runner::human::terminal_width_or_default(), 80);
}

#[test]
fn sub_strings_splits_in_order() {
    let parts = nix_test_runner::diffing::sub_strings("hello world", 4);
    assert_eq!(parts, vec!["hell".to_string(), "o wo".to_string(), "rld".to_string()]);
}
