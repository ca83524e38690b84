//! The report facade: a single entry point that selects a renderer by the
//! reporter value and returns the rendered report string.

use vstd::prelude::*;

use crate::human::human_rendered;
use crate::human::terminal_width_or_default;
use crate::json::json_of;
use crate::junit::count_occurrences;
use crate::junit::junit_cases_of;
use crate::junit::junit_xml_of;
use crate::junit::testcase_tag;
use crate::model::Reporter;
use crate::model::ReportError;
use crate::model::TestResult;
use crate::model::TestResultView;

verus! {

/// The milliseconds a report displays: the elapsed duration, or zero when
/// none was supplied (a result loaded from a saved file has no fresh timing).
pub open spec fn millis_or_zero(elapsed_millis: Option<u64>) -> nat {
    match elapsed_millis {
        Some(m) => m as nat,
        None => 0,
    }
}

/// What the human renderer's output holds for a run: the human report layout
/// at some terminal width.
pub open spec fn human_output_ok(v: TestResultView, millis: nat, out: Seq<char>) -> bool {
    exists|width: nat| human_rendered(v, millis, width, out)
}

/// What a successful machine-format rendering holds for a run: a string that
/// is a function of the run alone.
pub open spec fn rendered_ok(reporter: Reporter, v: TestResultView, out: Seq<char>) -> bool {
    match reporter {
        Reporter::Json => out == json_of(v),
        Reporter::Junit => out == junit_xml_of("nix tests"@, junit_cases_of(v)),
        Reporter::Human => true,
    }
}

/// Rendering is deterministic for the machine formats: two successful
/// renderings of the same run with the JSON or the JUnit reporter are
/// byte-identical. The human report is left out: its styling follows the
/// color environment of the process.
pub proof fn lemma_rendering_deterministic(
    reporter: Reporter,
    v: TestResultView,
    out1: Seq<char>,
    out2: Seq<char>,
)
    requires
        reporter != Reporter::Human,
        rendered_ok(reporter, v, out1),
        rendered_ok(reporter, v, out2),
    ensures
        out1 == out2,
{
}

impl TestResult {
    /// Renders this run with the selected reporter: the JSON record, the
    /// JUnit XML document, or the human report wrapped to the ambient
    /// terminal width (eighty columns when none is available). The elapsed
    /// duration may be absent; the human report then shows zero
    /// milliseconds. Rendering always succeeds for every reporter; the
    /// error channel carries the kinds a failing renderer would surface.
    pub fn format(&self, elapsed_millis: Option<u64>, reporter: Reporter) -> (r: Result<
        String,
        ReportError,
    >)
        ensures
            reporter == Reporter::Json ==> (r matches Ok(out) && out@ == json_of(self@)
                && rendered_ok(reporter, self@, out@)),
            reporter == Reporter::Junit ==> (r matches Ok(out) && out@ == junit_xml_of(
                "nix tests"@,
                junit_cases_of(self@),
            ) && count_occurrences(out@, testcase_tag()) == self@.passed.len()
                + self@.failed.len() && rendered_ok(reporter, self@, out@)),
            reporter == Reporter::Human ==> (r matches Ok(out) && human_output_ok(
                self@,
                millis_or_zero(elapsed_millis),
                out@,
            )),
    {
        match reporter {
            Reporter::Json => Ok(self.json()),
            Reporter::Human => {
                let width = terminal_width_or_default();
                let millis = match elapsed_millis {
                    Some(m) => m,
                    None => 0,
                };
                let out = self.human(millis, width);
                proof {
                    assert(millis as nat == millis_or_zero(elapsed_millis));
                    assert(human_rendered(
                        self@,
                        millis_or_zero(elapsed_millis),
                        width as nat,
                        out@,
                    ));
                    assert(human_output_ok(self@, millis_or_zero(elapsed_millis), out@));
                }
                Ok(out)
            },
            Reporter::Junit => self.junit(),
        }
    }
}

} // verus!
