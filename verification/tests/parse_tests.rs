use nix_test_runner::FailedTest;
use nix_test_runner::PassedTest;
use nix_test_runner::Reporter;
use nix_test_runner::ReportError;
use nix_test_runner::TestResult;

fn assert_same(a: &TestResult, b: &TestResult) {
    assert_eq!(a.passed.len(), b.passed.len());
    assert_eq!(a.failed.len(), b.failed.len());
    for (x, y) in a.passed.iter().zip(b.passed.iter()) {
        assert_eq!(x.passed_test, y.passed_test);
    }
    for (x, y) in a.failed.iter().zip(b.failed.iter()) {
        assert_eq!(x.expected, y.expected);
        assert_eq!(x.failed_test, y.failed_test);
        assert_eq!(x.result, y.result);
    }
}

fn sample() -> TestResult {
    TestResult {
        passed: vec![
            PassedTest { passed_test: "one passes".to_string() },
            PassedTest { passed_test: "two \"quoted\" name".to_string() },
        ],
        failed: vec![
            FailedTest {
                expected: "line\nbreak".to_string(),
                failed_test: "back\\slash".to_string(),
                result: "tab\there".to_string(),
            },
            FailedTest {
                expected: "\u{1F600} smile".to_string(),
                failed_test: "control\u{0001}char".to_string(),
                result: "plain".to_string(),
            },
        ],
    }
}

#[test]
fn json_exact_shape() {
    let r = TestResult {
        passed: vec![PassedTest { passed_test: "p".to_string() }],
        failed: vec![FailedTest {
            expected: "A".to_string(),
            failed_test: "t1".to_string(),
            result: "B".to_string(),
        }],
    };
    assert_eq!(
        r.json(),
        "{\"passed\":[{\"passedTest\":\"p\"}],\
         \"failed\":[{\"expected\":\"A\",\"failedTest\":\"t1\",\"result\":\"B\"}]}"
    );
}

#[test]
fn json_escapes_special_characters() {
    let r = TestResult {
        passed: vec![PassedTest { passed_test: "q\" b\\ n\n c\u{0001}".to_string() }],
        failed: vec![],
    };
    assert_eq!(
        r.json(),
        "{\"passed\":[{\"passedTest\":\"q\\\" b\\\\ n\\u000a c\\u0001\"}],\"failed\":[]}"
    );
}

#[test]
fn json_round_trips() {
    let r = sample();
    let text = r.json();
    let back = TestResult::parse(&text).unwrap();
    assert_same(&r, &back);
}

#[test]
fn json_round_trips_empty() {
    let r = TestResult { passed: vec![], failed: vec![] };
    let back = TestResult::parse(&r.json()).unwrap();
    assert_same(&r, &back);
}

#[test]
fn json_output_is_valid_json() {
    let text = sample().json();
    let value: serde_json::Value = serde_json::from_str(&text).unwrap();
    assert_eq!(value["passed"][0]["passedTest"], "one passes");
    assert_eq!(value["failed"][0]["failedTest"], "back\\slash");
    assert_eq!(value["failed"][1]["expected"], "\u{1F600} smile");
}

#[test]
fn format_json_matches_renderer() {
    let r = sample();
    let out = r.format(Some(0), Reporter::Json).unwrap();
    assert_eq!(out, r.json());
}

#[test]
fn parse_accepts_whitespace_and_unknown_keys() {
    let text = " {\n  \"other\": {\"deep\": [1, true, null, \"s\", -2.5e3]},\n  \
                \"passed\": [ { \"passedTest\" : \"a\" , \"note\" : 7 } ],\n  \
                \"failed\": [],\n  \"more\": \"x\"\n} ";
    let r = TestResult::parse(text).unwrap();
    assert_eq!(r.passed.len(), 1);
    assert_eq!(r.passed[0].passed_test, "a");
    assert_eq!(r.failed.len(), 0);
    assert!(r.successful());
}

#[test]
fn parse_decodes_escapes() {
    let text = "{\"passed\":[{\"passedTest\":\"a\\n\\t\\\"\\\\\\u0041\\u00e9\"}],\"failed\":[]}";
    let r = TestResult::parse(text).unwrap();
    assert_eq!(r.passed[0].passed_test, "a\n\t\"\\A\u{e9}");
}

#[test]
fn parse_decodes_surrogate_pairs() {
    let text = "{\"passed\":[{\"passedTest\":\"\\ud83d\\ude00!\"}],\"failed\":[]}";
    let r = TestResult::parse(text).unwrap();
    assert_eq!(r.passed[0].passed_test, "\u{1F600}!");
}

#[test]
fn parse_rejects_lone_surrogates() {
    assert!(TestResult::parse("{\"passed\":[{\"passedTest\":\"\\ud800x\"}],\"failed\":[]}").is_err());
    assert!(TestResult::parse("{\"passed\":[{\"passedTest\":\"\\udc00\"}],\"failed\":[]}").is_err());
    assert!(
        TestResult::parse("{\"passed\":[{\"passedTest\":\"\\ud800\\ud800\"}],\"failed\":[]}")
            .is_err()
    );
}

#[test]
fn parse_key_order_is_free() {
    let text = "{\"failed\":[{\"result\":\"B\",\"expected\":\"A\",\"failedTest\":\"t\"}],\"passed\":[]}";
    let r = TestResult::parse(text).unwrap();
    assert_eq!(r.failed[0].expected, "A");
    assert_eq!(r.failed[0].result, "B");
    assert_eq!(r.failed[0].failed_test, "t");
}

#[test]
fn parse_rejects_invalid_payloads() {
    let bad = [
        "",
        "   ",
        "null",
        "[]",
        "{",
        "{}",
        "{\"passed\":[]}",
        "{\"failed\":[]}",
        "{\"passed\":[],\"failed\":[]} trailing",
        "{\"passed\":{},\"failed\":[]}",
        "{\"passed\":[{}],\"failed\":[]}",
        "{\"passed\":[{\"passedTest\":1}],\"failed\":[]}",
        "{\"passed\":[],\"failed\":[{\"expected\":\"a\",\"result\":\"b\"}]}",
        "{\"passed\":[],\"failed\":[],\"passed\":[]}",
        "{\"passed\":[{\"passedTest\":\"a\",\"passedTest\":\"b\"}],\"failed\":[]}",
        "{\"passed\":[],\"failed\":[]",
        "{\"passed\":[],\"failed\":[{\"expected\":\"a\",\"failedTest\":\"t\",\"result\":\"b\"},]}",
    ];
    for text in bad {
        let r = TestResult::parse(text);
        assert!(r.is_err(), "accepted: {}", text);
        match r {
            Err(e) => {
                assert!(matches!(e, ReportError::MalformedResult(_)));
                assert!(!e.message().is_empty());
            }
            Ok(_) => unreachable!(),
        }
    }
}

#[test]
fn parse_validates_numbers_in_ignored_values() {
    let good = "{\"x\":[0,-0.5,1e+10,123E-2,-0,20e2],\"passed\":[],\"failed\":[]}";
    assert!(TestResult::parse(good).is_ok());
    let bad = ["01", "1.", "1..2", "-", "1e", "1e+", ".5", "+1", "0x1", "1.e2"];
    for number in bad {
        let text = format!("{{\"x\":{},\"passed\":[],\"failed\":[]}}", number);
        assert!(TestResult::parse(&text).is_err(), "accepted: {}", text);
    }
}

#[test]
fn parse_bounds_nesting_of_ignored_values() {
    let shallow = format!(
        "{{\"x\":{}0{},\"passed\":[],\"failed\":[]}}",
        "[".repeat(100),
        "]".repeat(100)
    );
    assert!(TestResult::parse(&shallow).is_ok());
    let deep = format!(
        "{{\"x\":{}0{},\"passed\":[],\"failed\":[]}}",
        "[".repeat(200),
        "]".repeat(200)
    );
    assert!(TestResult::parse(&deep).is_err());
}

#[test]
fn parse_rejects_bad_strings() {
    let bad = [
        "{\"passed\":[{\"passedTest\":\"\\x\"}],\"failed\":[]}",
        "{\"passed\":[{\"passedTest\":\"\\u12\"}],\"failed\":[]}",
        "{\"passed\":[{\"passedTest\":\"\\ud800\"}],\"failed\":[]}",
        "{\"passed\":[{\"passedTest\":\"unterminated}],\"failed\":[]}",
    ];
    for text in bad {
        assert!(TestResult::parse(text).is_err(), "accepted: {}", text);
    }
}

#[test]
fn error_message_is_descriptive() {
    match TestResult::parse("not json") {
        Err(e) => assert!(!e.message().is_empty()),
        Ok(_) => panic!("parsed garbage"),
    }
}
