//! The JUnit renderer: one CI-standard XML test-report document with a single
//! suite, one test case per passed test and one per failed test.

use vstd::prelude::*;
use vstd::string::*;

use crate::model::FailedTest;
use crate::model::FailedTestView;
use crate::model::ReportError;
use crate::model::TestResult;
use crate::model::TestResultView;

verus! {

#[verifier::external_type_specification]
#[verifier::external_body]
pub struct ExTestSuite(junit_report::TestSuite);

/// What a JUnit test suite holds: its cases in order, each as the case name
/// and, for a failed case, its failure type label and message.
pub uninterp spec fn suite_cases(s: junit_report::TestSuite) -> Seq<
    (Seq<char>, Option<(Seq<char>, Seq<char>)>),
>;

/// The name a JUnit test suite was created with.
pub uninterp spec fn suite_title(s: junit_report::TestSuite) -> Seq<char>;

/// Relies on `junit_report::TestSuite::new`: a fresh suite has no test cases
/// and carries the given name. The timestamp is pinned to the epoch so that
/// the rendered document depends on the name and the cases alone.
#[verifier::external_body]
fn suite_new(name: &str) -> (s: junit_report::TestSuite)
    ensures
        suite_cases(s) == Seq::<(Seq<char>, Option<(Seq<char>, Seq<char>)>)>::empty(),
        suite_title(s) == name@,
{
    let mut s = junit_report::TestSuite::new(name);
    s.set_timestamp(junit_report::OffsetDateTime::UNIX_EPOCH);
    s
}

/// Relies on `junit_report::TestSuite::add_testcase` with
/// `junit_report::TestCase::success`: appends one successful, zero-duration
/// case with the given name.
#[verifier::external_body]
fn suite_add_success(s: &mut junit_report::TestSuite, name: &str)
    ensures
        suite_cases(*final(s)) == suite_cases(*old(s)).push((name@, None)),
        suite_title(*final(s)) == suite_title(*old(s)),
{
    s.add_testcase(junit_report::TestCase::success(name, junit_report::Duration::ZERO));
}

/// Relies on `junit_report::TestSuite::add_testcase` with
/// `junit_report::TestCase::failure`: appends one failed, zero-duration case
/// with the given name, failure type label and failure message.
#[verifier::external_body]
fn suite_add_failure(s: &mut junit_report::TestSuite, name: &str, type_label: &str, message: &str)
    ensures
        suite_cases(*final(s)) == suite_cases(*old(s)).push(
            (name@, Some((type_label@, message@))),
        ),
        suite_title(*final(s)) == suite_title(*old(s)),
{
    s.add_testcase(
        junit_report::TestCase::failure(name, junit_report::Duration::ZERO, type_label, message),
    );
}

/// The XML document that the JUnit report writer produces for one suite with
/// the given name and cases; a function of those alone, since the timestamp
/// is pinned at suite creation.
pub uninterp spec fn junit_xml_of(
    title: Seq<char>,
    cases: Seq<(Seq<char>, Option<(Seq<char>, Seq<char>)>)>,
) -> Seq<char>;

/// The opening text of a test-case XML element.
pub open spec fn testcase_tag() -> Seq<char> {
    "<testcase"@
}

/// How many positions of `s` start an occurrence of `pat`.
pub open spec fn count_occurrences(s: Seq<char>, pat: Seq<char>) -> nat
    decreases s.len(),
{
    if pat.len() == 0 || s.len() < pat.len() {
        0
    } else {
        (if s.take(pat.len() as int) == pat {
            1nat
        } else {
            0nat
        }) + count_occurrences(s.skip(1), pat)
    }
}

/// Relies on `junit_report::Report::write_xml` over a report holding this one
/// suite. The writer renders into an in-memory buffer, which cannot raise an
/// I/O error, and emits valid UTF-8, so the rendering always succeeds. The
/// document is the writer's rendering of the suite's name and cases, holding
/// exactly one test-case element per case — names and messages sit in escaped
/// attribute values, so no stray `<testcase` text can appear.
#[verifier::external_body]
fn suite_to_xml(s: junit_report::TestSuite) -> (r: String)
    ensures
        r@ == junit_xml_of(suite_title(s), suite_cases(s)),
        count_occurrences(r@, testcase_tag()) == suite_cases(s).len(),
{
    let mut report = junit_report::Report::new();
    report.add_testsuite(s);
    let mut out: Vec<u8> = Vec::new();
    report.write_xml(&mut out).expect("writing into a buffer cannot fail");
    String::from_utf8(out).expect("the XML writer emits UTF-8")
}

/// The failure message attached to a failed test's JUnit case.
pub open spec fn failure_message_of(f: FailedTestView) -> Seq<char> {
    "Actual: "@ + f.result + " Expected: "@ + f.expected
}

/// The JUnit cases of a test run: one successful case per passed test, in
/// original order, then one failed case per failed test, in original order,
/// with the `Equals` type label and the actual/expected message.
pub open spec fn junit_cases_of(v: TestResultView) -> Seq<
    (Seq<char>, Option<(Seq<char>, Seq<char>)>),
> {
    v.passed.map_values(|n: Seq<char>| (n, Option::<(Seq<char>, Seq<char>)>::None))
        + v.failed.map_values(
        |f: FailedTestView| (f.failed_test, Option::Some(("Equals"@, failure_message_of(f)))),
    )
}

impl FailedTest {
    /// The failure message for this test: the actual value, then the expected
    /// value, in one line.
    pub fn format_result(&self) -> (r: String)
        ensures
            r@ == failure_message_of(self@),
    {
        let mut out = "Actual: ".to_owned();
        out.append(self.result.as_str());
        out.append(" Expected: ");
        out.append(self.expected.as_str());
        proof {
            assert(out@ =~= failure_message_of(self@));
        }
        out
    }
}

impl TestResult {
    /// The JUnit XML report of this test run: one suite named `nix tests`
    /// with one test case per passed test and one per failed test — all
    /// passed cases first, each group in original order — and exactly one
    /// test-case element per test in the document. Rendering always
    /// succeeds: the document is written into memory.
    pub fn junit(&self) -> (r: Result<String, ReportError>)
        ensures
            r matches Ok(x) && x@ == junit_xml_of("nix tests"@, junit_cases_of(self@))
                && count_occurrences(x@, testcase_tag()) == self@.passed.len()
                + self@.failed.len(),
    {
        let ghost pcases = self@.passed.map_values(
            |n: Seq<char>| (n, Option::<(Seq<char>, Seq<char>)>::None),
        );
        let ghost fcases = self@.failed.map_values(
            |f: FailedTestView| (f.failed_test, Option::Some(("Equals"@, failure_message_of(f)))),
        );
        let mut suite = suite_new("nix tests");
        let mut i: usize = 0;
        proof {
            assert(pcases.take(0) =~= Seq::<(Seq<char>, Option<(Seq<char>, Seq<char>)>)>::empty());
        }
        while i < self.passed.len()
            invariant
                i <= self.passed@.len(),
                pcases == self@.passed.map_values(
                    |n: Seq<char>| (n, Option::<(Seq<char>, Seq<char>)>::None),
                ),
                pcases.len() == self.passed@.len(),
                suite_title(suite) == "nix tests"@,
                suite_cases(suite) == pcases.take(i as int),
            decreases self.passed@.len() - i,
        {
            suite_add_success(&mut suite, self.passed[i].passed_test.as_str());
            proof {
                assert(pcases[i as int] == (self.passed@[i as int].passed_test@, Option::<
                    (Seq<char>, Seq<char>),
                >::None));
                assert(pcases.take(i + 1 as int) =~= pcases.take(i as int).push(pcases[i as int]));
            }
            i = i + 1;
        }
        proof {
            assert(pcases.take(pcases.len() as int) =~= pcases);
        }
        let mut k: usize = 0;
        proof {
            assert(pcases + fcases.take(0) =~= pcases);
        }
        while k < self.failed.len()
            invariant
                k <= self.failed@.len(),
                fcases == self@.failed.map_values(
                    |f: FailedTestView| (f.failed_test, Option::Some(
                        ("Equals"@, failure_message_of(f)),
                    )),
                ),
                fcases.len() == self.failed@.len(),
                suite_title(suite) == "nix tests"@,
                suite_cases(suite) == pcases + fcases.take(k as int),
            decreases self.failed@.len() - k,
        {
            let message = self.failed[k].format_result();
            suite_add_failure(
                &mut suite,
                self.failed[k].failed_test.as_str(),
                "Equals",
                message.as_str(),
            );
            proof {
                assert(fcases[k as int] == (self.failed@[k as int].failed_test@, Option::Some(
                    ("Equals"@, failure_message_of(self.failed@[k as int]@)),
                )));
                assert(fcases.take(k + 1 as int) =~= fcases.take(k as int).push(fcases[k as int]));
                assert((pcases + fcases.take(k as int)).push(fcases[k as int]) =~= pcases
                    + fcases.take(k + 1 as int));
            }
            k = k + 1;
        }
        proof {
            assert(fcases.take(fcases.len() as int) =~= fcases);
            assert(suite_cases(suite) == junit_cases_of(self@));
            assert(junit_cases_of(self@).len() == self@.passed.len() + self@.failed.len());
        }
        Ok(suite_to_xml(suite))
    }
}

} // verus!
