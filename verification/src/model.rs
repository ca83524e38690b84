//! The result model: a completed test run as a sequence of passed tests and a
//! sequence of failed tests, the reporter selector, and the error kinds that a
//! render call can surface.

use vstd::prelude::*;

verus! {

/// A test that passed. Success carries no diagnostic payload beyond the name.
pub struct PassedTest {
    pub passed_test: String,
}

/// A test that failed: the name, the observed value and the expected value,
/// both already rendered as text by the upstream evaluator.
pub struct FailedTest {
    pub expected: String,
    pub failed_test: String,
    pub result: String,
}

/// A completed test run: the passed tests and the failed tests, each in the
/// evaluator's emission order.
pub struct TestResult {
    pub passed: Vec<PassedTest>,
    pub failed: Vec<FailedTest>,
}

/// Mathematical model of a failed test: its three text fields as
/// character sequences.
#[verifier::ext_equal]
pub struct FailedTestView {
    pub expected: Seq<char>,
    pub failed_test: Seq<char>,
    pub result: Seq<char>,
}

/// Mathematical model of a test run: passed-test names and failed-test
/// records as sequences.
#[verifier::ext_equal]
pub struct TestResultView {
    pub passed: Seq<Seq<char>>,
    pub failed: Seq<FailedTestView>,
}

impl View for PassedTest {
    type V = Seq<char>;

    open spec fn view(&self) -> Seq<char> {
        self.passed_test@
    }
}

impl View for FailedTest {
    type V = FailedTestView;

    open spec fn view(&self) -> FailedTestView {
        FailedTestView {
            expected: self.expected@,
            failed_test: self.failed_test@,
            result: self.result@,
        }
    }
}

impl View for TestResult {
    type V = TestResultView;

    open spec fn view(&self) -> TestResultView {
        TestResultView {
            passed: self.passed@.map_values(|p: PassedTest| p@),
            failed: self.failed@.map_values(|f: FailedTest| f@),
        }
    }
}

/// Selector for the renderer strategy a formatting call uses.
#[derive(Clone, Copy, PartialEq, Eq, Structural, Debug)]
pub enum Reporter {
    Human,
    Json,
    Junit,
}

/// The error kinds a render or parse call can surface. Every failure carries a
/// descriptive message; none is silently swallowed or defaulted.
#[derive(Debug)]
pub enum ReportError {
    /// The input payload is not valid structured data matching the result model.
    MalformedResult(String),
    /// A renderer could not produce its output string.
    SerializationError(String),
}

impl ReportError {
    /// The descriptive message carried by the error.
    pub fn message(&self) -> (r: &String)
        ensures
            r@ == self.message_view(),
    {
        match self {
            ReportError::MalformedResult(m) => m,
            ReportError::SerializationError(m) => m,
        }
    }

    /// The message of the error, as a character sequence.
    pub open spec fn message_view(&self) -> Seq<char> {
        match self {
            ReportError::MalformedResult(m) => m@,
            ReportError::SerializationError(m) => m@,
        }
    }
}

impl TestResult {
    /// Whether all tests were successful: true exactly when no test failed.
    pub fn successful(&self) -> (r: bool)
        ensures
            r == (self@.failed.len() == 0),
    {
        self.failed.len() == 0
    }
}

} // verus!
