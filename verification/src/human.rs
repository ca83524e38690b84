//! The human renderer: a colorized report with one block per failed test —
//! the actual value over its marking, an equality separator, and the expected
//! value under its marking — followed by an underlined status line and a
//! summary of the run.

use colored::Colorize;
use vstd::prelude::*;
use vstd::string::*;

use crate::diffing::diff_chars_of;
use crate::diffing::marking_of;
use crate::diffing::render_diff;
use crate::diffing::with_diff;
use crate::diffing::with_diff_spec;
use crate::model::FailedTest;
use crate::model::FailedTestView;
use crate::model::TestResult;
use crate::textutil::dec_of;
use crate::textutil::push_decimal;

verus! {

/// Whether a text holds the terminal escape character somewhere.
pub open spec fn has_escape(s: Seq<char>) -> bool
    decreases s.len(),
{
    if s.len() == 0 {
        false
    } else {
        s[0] == '\u{1B}' || has_escape(s.skip(1))
    }
}

/// A styled rendering of `inner`: the text either unchanged (colors off) or
/// wrapped in the style prefix and the terminal reset.
pub open spec fn styled_as(out: Seq<char>, inner: Seq<char>, style: Seq<char>) -> bool {
    out == inner || out == style + inner + "\u{1B}[0m"@
}

/// The style prefix for red text.
pub open spec fn red_style() -> Seq<char> {
    "\u{1B}[31m"@
}

/// The style prefix for green text.
pub open spec fn green_style() -> Seq<char> {
    "\u{1B}[32m"@
}

/// The style prefix for dimmed text.
pub open spec fn dimmed_style() -> Seq<char> {
    "\u{1B}[2m"@
}

/// The style prefix for underlined red text.
pub open spec fn red_underline_style() -> Seq<char> {
    "\u{1B}[4;31m"@
}

/// The style prefix for underlined green text.
pub open spec fn green_underline_style() -> Seq<char> {
    "\u{1B}[4;32m"@
}

/// Relies on `colored::Colorize::red` and the colored display: the result is
/// the input unchanged when colors are off, else the input between the red
/// style prefix and the reset — as long as the input holds no escape
/// character that the display would rewrite.
#[verifier::external_body]
fn style_red(s: &str) -> (r: String)
    ensures
        !has_escape(s@) ==> styled_as(r@, s@, red_style()),
{
    s.red().to_string()
}

/// Relies on `colored::Colorize::green` and the colored display, as the red
/// styling does.
#[verifier::external_body]
fn style_green(s: &str) -> (r: String)
    ensures
        !has_escape(s@) ==> styled_as(r@, s@, green_style()),
{
    s.green().to_string()
}

/// Relies on `colored::Colorize::dimmed` and the colored display, as the red
/// styling does.
#[verifier::external_body]
fn style_dimmed(s: &str) -> (r: String)
    ensures
        !has_escape(s@) ==> styled_as(r@, s@, dimmed_style()),
{
    s.dimmed().to_string()
}

/// Relies on `colored::Colorize::red` with `underline` and the colored
/// display: one combined style prefix, underline before the color code.
#[verifier::external_body]
fn style_red_underline(s: &str) -> (r: String)
    ensures
        !has_escape(s@) ==> styled_as(r@, s@, red_underline_style()),
{
    s.red().underline().to_string()
}

/// Relies on `colored::Colorize::green` with `underline` and the colored
/// display, as the underlined red styling does.
#[verifier::external_body]
fn style_green_underline(s: &str) -> (r: String)
    ensures
        !has_escape(s@) ==> styled_as(r@, s@, green_underline_style()),
{
    s.green().underline().to_string()
}

/// Relies on `termize::dimensions`: the terminal's column count, when one of
/// the standard streams is a terminal that reports its size. A reported
/// count is never zero: the query answers nothing rather than a zero size.
#[verifier::external_body]
fn terminal_columns() -> (r: Option<usize>)
    ensures
        r matches Some(c) ==> c >= 1,
{
    match termize::dimensions() {
        Some((cols, _rows)) => Some(cols),
        None => None,
    }
}

/// The column count a report wraps to, given what the terminal query
/// answered: the reported width, or eighty columns when none is available.
pub open spec fn width_of(q: Option<usize>) -> int {
    match q {
        Some(c) => c as int,
        None => 80,
    }
}

/// The wrap width for a given answer of the terminal query: the reported
/// width, falling back to eighty columns when the query answered nothing.
pub fn width_or_default(q: Option<usize>) -> (r: usize)
    ensures
        r as int == width_of(q),
{
    match q {
        Some(c) => c,
        None => 80,
    }
}

/// The terminal column count to wrap to: the reported width, or eighty
/// columns when no width is available. Whatever the terminal answered, the
/// result is at least one column.
pub fn terminal_width_or_default() -> (r: usize)
    ensures
        r >= 1,
{
    let q = terminal_columns();
    width_or_default(q)
}

/// The human block for one failed test at a given width: the styled name,
/// the actual value interleaved with its upward marking, the equality
/// separator, and the expected value under its downward marking.
pub open spec fn failed_block_spec(styled_name: Seq<char>, f: FailedTestView, width: nat) -> Seq<
    char,
> {
    "\n    "@ + styled_name + "\n\n        "@ + with_diff_spec(
        f.result,
        marking_of('▲', diff_chars_of(f.result, f.expected)),
        8,
        width,
    ) + "\n        ╷\n        │ Expect.equal\n        ╵\n        "@ + with_diff_spec(
        marking_of('▼', diff_chars_of(f.expected, f.result)),
        f.expected,
        8,
        width,
    ) + "\n        "@
}

/// The header a failed test's block carries: its name behind a cross mark,
/// rendered red where colors are on (for a name that holds no escape
/// character of its own).
pub open spec fn name_styled(n: Seq<char>, f: FailedTestView) -> bool {
    !has_escape("✗ "@ + f.failed_test) ==> styled_as(n, "✗ "@ + f.failed_test, red_style())
}

impl FailedTest {
    /// The human-readable block for this failed test, wrapped to the given
    /// terminal width. The name is rendered red where colors are on.
    pub fn human(&self, width: usize) -> (r: String)
        ensures
            exists|n: Seq<char>|
                r@ == failed_block_spec(n, self@, width as nat) && name_styled(n, self@),
    {
        let result_diff = render_diff('▲', self.result.as_str(), self.expected.as_str());
        let expected_diff = render_diff('▼', self.expected.as_str(), self.result.as_str());
        let mut plain_name = "✗ ".to_owned();
        plain_name.append(self.failed_test.as_str());
        proof {
            assert(plain_name@ =~= "✗ "@ + self@.failed_test);
        }
        let name = style_red(plain_name.as_str());
        let ghost name_view = name@;
        let mut out = "\n    ".to_owned();
        out.append(name.as_str());
        out.append("\n\n        ");
        let result_block = with_diff(self.result.as_str(), result_diff.as_str(), 8, width);
        out.append(result_block.as_str());
        out.append("\n        ╷\n        │ Expect.equal\n        ╵\n        ");
        let expected_block = with_diff(expected_diff.as_str(), self.expected.as_str(), 8, width);
        out.append(expected_block.as_str());
        out.append("\n        ");
        proof {
            assert(out@ =~= failed_block_spec(name_view, self@, width as nat));
            assert(plain_name@ == "✗ "@ + self@.failed_test);
            assert(name_styled(name_view, self@));
        }
        out
    }
}

/// The human blocks of a run's failed tests in order, each followed by a
/// newline, given the styled name used for each block.
pub open spec fn failed_blocks_spec(
    names: Seq<Seq<char>>,
    failed: Seq<FailedTestView>,
    width: nat,
) -> Seq<char>
    decreases failed.len(),
{
    if failed.len() == 0 {
        Seq::empty()
    } else {
        failed_block_spec(names[0], failed[0], width) + seq!['\n'] + failed_blocks_spec(
            names.skip(1),
            failed.skip(1),
            width,
        )
    }
}

proof fn lemma_failed_blocks_snoc(
    names: Seq<Seq<char>>,
    failed: Seq<FailedTestView>,
    n: Seq<char>,
    f: FailedTestView,
    width: nat,
)
    requires
        names.len() == failed.len(),
    ensures
        failed_blocks_spec(names.push(n), failed.push(f), width) == failed_blocks_spec(
            names,
            failed,
            width,
        ) + failed_block_spec(n, f, width) + seq!['\n'],
    decreases failed.len(),
{
    if failed.len() == 0 {
        assert(names.push(n)[0] == n);
        assert(failed.push(f)[0] == f);
        assert(names.push(n).skip(1) =~= Seq::<Seq<char>>::empty());
        assert(failed.push(f).skip(1) =~= Seq::<FailedTestView>::empty());
        assert(failed_blocks_spec(names.push(n), failed.push(f), width) == failed_block_spec(
            n,
            f,
            width,
        ) + seq!['\n'] + failed_blocks_spec(
            names.push(n).skip(1),
            failed.push(f).skip(1),
            width,
        ));
        assert(failed_blocks_spec(
            Seq::<Seq<char>>::empty(),
            Seq::<FailedTestView>::empty(),
            width,
        ) == Seq::<char>::empty());
        assert(failed_blocks_spec(names, failed, width) == Seq::<char>::empty());
        assert(failed_blocks_spec(names.push(n), failed.push(f), width) =~= failed_blocks_spec(
            names,
            failed,
            width,
        ) + failed_block_spec(n, f, width) + seq!['\n']);
    } else {
        assert(names.push(n)[0] == names[0]);
        assert(failed.push(f)[0] == failed[0]);
        assert(names.push(n).skip(1) =~= names.skip(1).push(n));
        assert(failed.push(f).skip(1) =~= failed.skip(1).push(f));
        lemma_failed_blocks_snoc(names.skip(1), failed.skip(1), n, f, width);
        assert(failed_blocks_spec(names.push(n), failed.push(f), width) =~= failed_blocks_spec(
            names,
            failed,
            width,
        ) + failed_block_spec(n, f, width) + seq!['\n']);
    }
}

/// The full human report from its parts: the failure blocks, the status
/// line, the three summary labels, and the duration and counts in decimal.
pub open spec fn human_layout(
    blocks: Seq<char>,
    status_line: Seq<char>,
    dur_label: Seq<char>,
    pass_label: Seq<char>,
    fail_label: Seq<char>,
    millis: nat,
    pass_count: nat,
    fail_count: nat,
) -> Seq<char> {
    "\n    "@ + blocks + "\n    "@ + status_line + "\n\n    "@ + dur_label + " "@ + dec_of(millis)
        + " ms\n    "@ + pass_label + "   "@ + dec_of(pass_count) + " \n    "@ + fail_label
        + "   "@ + dec_of(fail_count) + "\n\n"@
}

/// The concatenated failure blocks of a run: for some choice of styled
/// names, one per failed test, the blocks in original order, each followed
/// by a newline.
pub open spec fn blocks_ok(out: Seq<char>, failed: Seq<FailedTestView>, width: nat) -> bool {
    exists|names: Seq<Seq<char>>|
        names.len() == failed.len() && out == failed_blocks_spec(names, failed, width) && (forall|
            t: int,
        |
            0 <= t < names.len() ==> name_styled(#[trigger] names[t], failed[t]))
}

/// What the human renderer returns for a run at a given width and duration:
/// the fixed report layout around the failure blocks of the run's failed
/// tests, the styled status line, the styled summary labels, and the decimal
/// duration and counts.
pub open spec fn human_rendered(v: crate::model::TestResultView, millis: nat, width: nat, out: Seq<char>) -> bool {
    exists|blocks: Seq<char>, st: Seq<char>, dl: Seq<char>, pl: Seq<char>, fl: Seq<char>|
        out == human_layout(blocks, st, dl, pl, fl, millis, v.passed.len(), v.failed.len())
        && blocks_ok(blocks, v.failed, width)
        && (v.failed.len() == 0 ==> styled_as(st, "TEST RUN PASSED"@, green_underline_style()))
        && (v.failed.len() > 0 ==> styled_as(st, "TEST RUN FAILED"@, red_underline_style()))
        && styled_as(dl, "Duration:"@, dimmed_style()) && styled_as(pl, "Passed:"@, dimmed_style())
        && styled_as(fl, "Failed:"@, dimmed_style())
}

impl TestResult {
    /// The overall status line: green for a run with no failures, red
    /// otherwise, where colors are on.
    pub fn status(&self) -> (r: String)
        ensures
            self@.failed.len() == 0 ==> styled_as(r@, "TEST RUN PASSED"@, green_style()),
            self@.failed.len() > 0 ==> styled_as(r@, "TEST RUN FAILED"@, red_style()),
    {
        proof {
            lemma_status_literals_plain();
        }
        if self.failed.len() == 0 {
            style_green("TEST RUN PASSED")
        } else {
            style_red("TEST RUN FAILED")
        }
    }

    /// The human blocks of all failed tests, in original order, each followed
    /// by a newline.
    pub fn failed_to_human(&self, width: usize) -> (r: String)
        ensures
            blocks_ok(r@, self@.failed, width as nat),
    {
        let mut out = String::new();
        let ghost mut names: Seq<Seq<char>> = Seq::empty();
        let mut i: usize = 0;
        proof {
            assert(self@.failed.take(0) =~= Seq::<FailedTestView>::empty());
        }
        while i < self.failed.len()
            invariant
                i <= self.failed@.len(),
                self@.failed.len() == self.failed@.len(),
                names.len() == i,
                out@ == failed_blocks_spec(names, self@.failed.take(i as int), width as nat),
                forall|t: int|
                    0 <= t < names.len() ==> name_styled(#[trigger] names[t], self@.failed[t]),
            decreases self.failed@.len() - i,
        {
            let block = self.failed[i].human(width);
            let ghost n = choose|n: Seq<char>|
                block@ == failed_block_spec(n, self.failed@[i as int]@, width as nat)
                    && name_styled(n, self.failed@[i as int]@);
            out.append(block.as_str());
            crate::textutil::push_char(&mut out, '\n');
            proof {
                assert(self@.failed[i as int] == self.failed@[i as int]@);
                lemma_failed_blocks_snoc(
                    names,
                    self@.failed.take(i as int),
                    n,
                    self@.failed[i as int],
                    width as nat,
                );
                assert(self@.failed.take(i + 1 as int) =~= self@.failed.take(i as int).push(
                    self@.failed[i as int],
                ));
                assert(out@ =~= failed_blocks_spec(
                    names,
                    self@.failed.take(i as int),
                    width as nat,
                ) + failed_block_spec(n, self@.failed[i as int], width as nat) + seq!['\n']);
                let names0 = names;
                names = names0.push(n);
                assert forall|t: int| 0 <= t < names.len() implies name_styled(
                    #[trigger] names[t],
                    self@.failed[t],
                ) by {
                    if t < names0.len() {
                        assert(names[t] == names0[t]);
                    } else {
                        assert(names[t] == n);
                    }
                }
            }
            i = i + 1;
        }
        proof {
            assert(self@.failed.take(self@.failed.len() as int) =~= self@.failed);
            assert(blocks_ok(out@, self@.failed, width as nat));
        }
        out
    }

    /// The human-readable report of this run, wrapped to the given terminal
    /// width: the block of every failed test in original order, then the
    /// underlined status line, then the summary with the elapsed
    /// milliseconds and the passed and failed counts.
    pub fn human(&self, millis: u64, width: usize) -> (r: String)
        ensures
            human_rendered(self@, millis as nat, width as nat, r@),
    {
        proof {
            lemma_status_literals_plain();
        }
        let blocks = self.failed_to_human(width);
        let status_line = if self.failed.len() == 0 {
            style_green_underline("TEST RUN PASSED")
        } else {
            style_red_underline("TEST RUN FAILED")
        };
        let dur_label = style_dimmed("Duration:");
        let pass_label = style_dimmed("Passed:");
        let fail_label = style_dimmed("Failed:");
        let ghost b = blocks@;
        let ghost st = status_line@;
        let ghost dl = dur_label@;
        let ghost pl = pass_label@;
        let ghost fl = fail_label@;
        let mut out = "\n    ".to_owned();
        out.append(blocks.as_str());
        out.append("\n    ");
        out.append(status_line.as_str());
        out.append("\n\n    ");
        out.append(dur_label.as_str());
        out.append(" ");
        push_decimal(&mut out, millis);
        out.append(" ms\n    ");
        out.append(pass_label.as_str());
        out.append("   ");
        let pass_count = self.passed.len();
        push_decimal(&mut out, pass_count as u64);
        out.append(" \n    ");
        out.append(fail_label.as_str());
        out.append("   ");
        let fail_count = self.failed.len();
        push_decimal(&mut out, fail_count as u64);
        out.append("\n\n");
        proof {
            assert(out@ =~= human_layout(
                b,
                st,
                dl,
                pl,
                fl,
                millis as nat,
                self@.passed.len(),
                self@.failed.len(),
            ));
        }
        out
    }
}

proof fn lemma_status_literals_plain()
    ensures
        !has_escape("TEST RUN PASSED"@),
        !has_escape("TEST RUN FAILED"@),
        !has_escape("Duration:"@),
        !has_escape("Passed:"@),
        !has_escape("Failed:"@),
{
    reveal_strlit("TEST RUN PASSED");
    reveal_strlit("TEST RUN FAILED");
    reveal_strlit("Duration:");
    reveal_strlit("Passed:");
    reveal_strlit("Failed:");
    reveal_with_fuel(has_escape, 17);
    assert(!has_escape("TEST RUN PASSED"@));
    assert(!has_escape("TEST RUN FAILED"@));
    assert(!has_escape("Duration:"@));
    assert(!has_escape("Passed:"@));
    assert(!has_escape("Failed:"@));
}

} // verus!
