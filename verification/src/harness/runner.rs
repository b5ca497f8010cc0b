//! How an example is run and how its output is judged.
//!
//! An example says in marker lines at its head how it wants to be run:
//! once, or twice with the dump of the persist region carried over; and how
//! the output is validated: against an expected file, or by the corruption
//! scenarios. This module reads the markers and holds the verdicts on what
//! the runs have sent.

use crate::harness::corrupt::CorruptFlags;
use crate::harness::text::{
    after_first_line, chars_of, equals, find_line_end, first_line, lemma_line_end, marked,
    starts_with, trim_bounds,
};
use vstd::prelude::*;
use vstd::string::StringExecFns;

verus! {

/// How an example is run.
#[derive(Debug, Clone, Copy, PartialEq, Eq, Structural)]
pub enum RunMode {
    /// One run.
    Single,
    /// Two runs, the second one started on the region dump of the first.
    Persist,
}

/// How the output of an example is validated.
#[derive(Debug, Clone, Copy, PartialEq, Eq, Structural)]
pub enum ValidateMode {
    /// The output is compared with an expected file.
    Expected,
    /// The corruption scenarios are run.
    Corrupt,
}

/// How an example is run and validated, where one marker says both.
#[derive(Debug, Clone, Copy, PartialEq, Eq, Structural)]
pub enum TestMode {
    /// One run, compared with an expected file.
    Standard,
    /// Two runs with the region dump carried over.
    Persist,
    /// The corruption scenarios.
    Corrupt,
}

/// Options for running an example.
#[derive(Debug, Clone, Copy, PartialEq, Eq, Structural)]
pub struct RunOptions {
    /// Print what the runs send instead of judging it.
    pub verbose: bool,
    /// Update expected files instead of comparing with them.
    pub bless: bool,
    /// Build in release mode.
    pub release: bool,
}

/// What the markers of an example say.
#[derive(Debug, Clone, Copy, PartialEq, Eq, Structural)]
pub struct TestConfig {
    /// How the example is run.
    pub run_mode: RunMode,
    /// How its output is validated.
    pub validate_mode: ValidateMode,
}

/// What was captured from one run in the emulator.
pub struct QemuOutput {
    /// The frames sent to the debug host.
    pub semihosting: Vec<u8>,
    /// The log drained from the ring, sent on the first serial port.
    pub uart0: Vec<u8>,
    /// The dump of the persist region, sent on the second serial port.
    pub uart1: Vec<u8>,
}

/// Which runner an example is handed to.
#[derive(Debug, Clone, Copy, PartialEq, Eq, Structural)]
pub enum Runner {
    /// The corruption scenarios.
    Corrupt,
    /// One run.
    Single,
    /// Two runs with the region dump carried over.
    Persist,
}

/// What comes of holding an output against the expected file.
#[derive(Debug, Clone, Copy, PartialEq, Eq, Structural)]
pub enum Comparison {
    /// Blessing, and the file already holds the output.
    Unchanged,
    /// Blessing, and the file is rewritten with the output.
    Updated,
    /// Blessing, and the file is created with the output.
    Created,
    /// The output is what the file holds.
    Pass,
    /// The output differs from what the file holds.
    Differs,
    /// There is no expected file to compare with.
    Missing,
}

/// The number of lines at the head of an example that are searched for
/// markers.
pub const MARKER_LINES: usize = 15;

/// The number of lines that are searched for the marker of the test mode.
pub const MODE_MARKER_LINES: usize = 10;

/// The marker of the run mode.
pub open spec fn run_marker() -> Seq<char> {
    "//! @test-run:"@
}

/// The marker of the validate mode.
pub open spec fn validate_marker() -> Seq<char> {
    "//! @test-validate:"@
}

/// The marker of the test mode.
pub open spec fn mode_marker() -> Seq<char> {
    "//! @test-mode:"@
}

/// The run mode that a word names. Every word but `persist` stands for a
/// single run.
pub open spec fn run_mode_named(word: Seq<char>) -> RunMode {
    if word == "persist"@ {
        RunMode::Persist
    } else {
        RunMode::Single
    }
}

/// The validate mode that a word names. Every word but `corrupt` stands for
/// the comparison with an expected file.
pub open spec fn validate_mode_named(word: Seq<char>) -> ValidateMode {
    if word == "corrupt"@ {
        ValidateMode::Corrupt
    } else {
        ValidateMode::Expected
    }
}

impl TestConfig {
    /// What holds where no marker says otherwise: a single run, compared
    /// with an expected file.
    pub open spec fn initial() -> TestConfig {
        TestConfig { run_mode: RunMode::Single, validate_mode: ValidateMode::Expected }
    }

    /// The configuration after one more line: a marker line sets the mode
    /// that it names, any other line changes nothing.
    pub open spec fn after_line(self, line: Seq<char>) -> TestConfig {
        TestConfig {
            run_mode: match marked(line, run_marker()) {
                Some(word) => run_mode_named(word),
                None => self.run_mode,
            },
            validate_mode: match marked(line, validate_marker()) {
                Some(word) => validate_mode_named(word),
                None => self.validate_mode,
            },
        }
    }

    /// The configuration after the first `budget` lines of `text`.
    pub open spec fn after_lines(self, text: Seq<char>, budget: nat) -> TestConfig
        decreases budget,
    {
        if text.len() == 0 || budget == 0 {
            self
        } else {
            self.after_line(first_line(text)).after_lines(
                after_first_line(text),
                (budget - 1) as nat,
            )
        }
    }

    /// What the head of an example says: its first [`MARKER_LINES`] lines
    /// are gone through in order, so that of two markers for one mode the
    /// later one holds.
    pub open spec fn of(text: Seq<char>) -> TestConfig {
        TestConfig::initial().after_lines(text, MARKER_LINES as nat)
    }

    /// Which runner the example goes to: the corruption scenarios where
    /// they are asked for, else the runner of its run mode.
    pub open spec fn spec_runner(self) -> Runner {
        if self.validate_mode == ValidateMode::Corrupt {
            Runner::Corrupt
        } else if self.run_mode == RunMode::Persist {
            Runner::Persist
        } else {
            Runner::Single
        }
    }

    /// Which runner the example goes to.
    pub fn runner(&self) -> (runner: Runner)
        ensures
            runner == self.spec_runner(),
    {
        match self.validate_mode {
            ValidateMode::Corrupt => Runner::Corrupt,
            ValidateMode::Expected => match self.run_mode {
                RunMode::Single => Runner::Single,
                RunMode::Persist => Runner::Persist,
            },
        }
    }
}

/// The test mode that the first `budget` lines of `text` name: that of the
/// first marker line that names `persist` or `corrupt`, else the standard
/// one.
pub open spec fn test_mode_within(text: Seq<char>, budget: nat) -> TestMode
    decreases budget,
{
    if text.len() == 0 || budget == 0 {
        TestMode::Standard
    } else {
        match marked(first_line(text), mode_marker()) {
            Some(word) => if word == "persist"@ {
                TestMode::Persist
            } else if word == "corrupt"@ {
                TestMode::Corrupt
            } else {
                test_mode_within(after_first_line(text), (budget - 1) as nat)
            },
            None => test_mode_within(after_first_line(text), (budget - 1) as nat),
        }
    }
}

/// Where the line that starts at `from` ends, without its ending, and where
/// the next line starts.
fn line_bounds(chars: &Vec<char>, from: usize) -> (bounds: (usize, usize))
    requires
        from < chars.len(),
    ensures
        from <= bounds.0 <= chars.len(),
        from < bounds.1 <= chars.len(),
        chars@.subrange(from as int, bounds.0 as int) == first_line(chars@.skip(from as int)),
        chars@.skip(bounds.1 as int) == after_first_line(chars@.skip(from as int)),
{
    let ghost rest = chars@.skip(from as int);
    let end = find_line_end(chars, from);
    proof {
        lemma_line_end(rest);
    }
    let stop = if from < end && end < chars.len() && chars[end - 1] == '\r' {
        end - 1
    } else {
        end
    };
    let next = if end < chars.len() {
        end + 1
    } else {
        end
    };
    proof {
        assert(chars@.subrange(from as int, stop as int) =~= first_line(rest));
        assert(chars@.skip(next as int) =~= after_first_line(rest));
    }
    (stop, next)
}

/// Reads the markers at the head of an example.
pub fn parse_test_config(content: &str) -> (config: TestConfig)
    ensures
        config == TestConfig::of(content@),
{
    let chars = chars_of(content);
    let run = chars_of("//! @test-run:");
    let validate = chars_of("//! @test-validate:");
    let persist = chars_of("persist");
    let corrupt = chars_of("corrupt");
    let mut config = TestConfig { run_mode: RunMode::Single, validate_mode: ValidateMode::Expected };
    let mut from: usize = 0;
    let mut budget: usize = MARKER_LINES;
    proof {
        assert(chars@.skip(0) =~= chars@);
    }
    while from < chars.len() && budget > 0
        invariant
            from <= chars.len(),
            chars@ == content@,
            run@ == run_marker(),
            validate@ == validate_marker(),
            persist@ == "persist"@,
            corrupt@ == "corrupt"@,
            config.after_lines(chars@.skip(from as int), budget as nat) == TestConfig::of(
                content@,
            ),
        decreases budget,
    {
        let (stop, next) = line_bounds(&chars, from);
        let ghost line = chars@.subrange(from as int, stop as int);
        let mut run_mode = config.run_mode;
        if starts_with(&chars, from, stop, &run) {
            let (start, end) = trim_bounds(&chars, from + run.len(), stop);
            proof {
                assert(line.skip(run@.len() as int) =~= chars@.subrange(
                    from + run@.len(),
                    stop as int,
                ));
            }
            run_mode = if equals(&chars, start, end, &persist) {
                RunMode::Persist
            } else {
                RunMode::Single
            };
        }
        let mut validate_mode = config.validate_mode;
        if starts_with(&chars, from, stop, &validate) {
            let (start, end) = trim_bounds(&chars, from + validate.len(), stop);
            proof {
                assert(line.skip(validate@.len() as int) =~= chars@.subrange(
                    from + validate@.len(),
                    stop as int,
                ));
            }
            validate_mode = if equals(&chars, start, end, &corrupt) {
                ValidateMode::Corrupt
            } else {
                ValidateMode::Expected
            };
        }
        config = TestConfig { run_mode, validate_mode };
        from = next;
        budget = budget - 1;
    }
    proof {
        if from == chars.len() {
            assert(chars@.skip(from as int).len() == 0);
        }
    }
    config
}

/// Reads the marker of the test mode at the head of an example.
pub fn detect_test_mode(content: &str) -> (mode: TestMode)
    ensures
        mode == test_mode_within(content@, MODE_MARKER_LINES as nat),
{
    let chars = chars_of(content);
    let marker = chars_of("//! @test-mode:");
    let persist = chars_of("persist");
    let corrupt = chars_of("corrupt");
    let mut from: usize = 0;
    let mut budget: usize = MODE_MARKER_LINES;
    proof {
        assert(chars@.skip(0) =~= chars@);
    }
    while from < chars.len() && budget > 0
        invariant
            from <= chars.len(),
            chars@ == content@,
            marker@ == mode_marker(),
            persist@ == "persist"@,
            corrupt@ == "corrupt"@,
            test_mode_within(chars@.skip(from as int), budget as nat) == test_mode_within(
                content@,
                MODE_MARKER_LINES as nat,
            ),
        decreases budget,
    {
        let (stop, next) = line_bounds(&chars, from);
        let ghost line = chars@.subrange(from as int, stop as int);
        if starts_with(&chars, from, stop, &marker) {
            let (start, end) = trim_bounds(&chars, from + marker.len(), stop);
            proof {
                assert(line.skip(marker@.len() as int) =~= chars@.subrange(
                    from + marker@.len(),
                    stop as int,
                ));
            }
            if equals(&chars, start, end, &persist) {
                return TestMode::Persist;
            }
            if equals(&chars, start, end, &corrupt) {
                return TestMode::Corrupt;
            }
        }
        from = next;
        budget = budget - 1;
    }
    proof {
        if from == chars.len() {
            assert(chars@.skip(from as int).len() == 0);
        }
    }
    TestMode::Standard
}

impl Comparison {
    /// Whether the example counts as passed: always when blessing, else
    /// only where the output is what the expected file holds.
    pub open spec fn spec_passed(self) -> bool {
        !(self == Comparison::Differs || self == Comparison::Missing)
    }

    /// Whether the example counts as passed.
    pub fn passed(&self) -> (passed: bool)
        ensures
            passed == self.spec_passed(),
    {
        match self {
            Comparison::Differs => false,
            Comparison::Missing => false,
            _ => true,
        }
    }

    /// Whether the expected file is to be written with the output.
    pub fn writes(&self) -> (writes: bool)
        ensures
            writes == (*self == Comparison::Updated || *self == Comparison::Created),
    {
        match self {
            Comparison::Updated => true,
            Comparison::Created => true,
            _ => false,
        }
    }
}

/// What comes of holding `output` against the expected file. `expected` is
/// what the file holds, or `None` where there is no file.
///
/// When blessing, a file that is missing is created, one that differs is
/// rewritten, and one that agrees is left alone. Otherwise the output
/// passes exactly where it is what the file holds.
pub open spec fn comparison_of(bless: bool, expected: Option<Seq<char>>, output: Seq<char>)
    -> Comparison {
    match expected {
        Some(text) => if bless {
            if text == output {
                Comparison::Unchanged
            } else {
                Comparison::Updated
            }
        } else if text == output {
            Comparison::Pass
        } else {
            Comparison::Differs
        },
        None => if bless {
            Comparison::Created
        } else {
            Comparison::Missing
        },
    }
}

/// Whether two texts are the same.
fn same_text(a: &String, b: &String) -> (same: bool)
    ensures
        same == (a@ == b@),
{
    *a == *b
}

/// Holds `output` against the expected file.
pub fn compare_expected(bless: bool, expected: Option<&String>, output: &String) -> (outcome:
    Comparison)
    ensures
        outcome == comparison_of(
            bless,
            match expected {
                Some(text) => Some(text@),
                None => None,
            },
            output@,
        ),
{
    match expected {
        Some(text) => {
            let same = same_text(text, output);
            if bless {
                if same {
                    Comparison::Unchanged
                } else {
                    Comparison::Updated
                }
            } else if same {
                Comparison::Pass
            } else {
                Comparison::Differs
            }
        },
        None => if bless {
            Comparison::Created
        } else {
            Comparison::Missing
        },
    }
}

/// Whether a single run can go on to the comparison with the expected file:
/// what the debug host received and what was drained from the ring must be
/// the same text.
pub fn single_run_agrees(semihosting: &String, uart0: &String) -> (agrees: bool)
    ensures
        agrees == (semihosting@ == uart0@),
{
    same_text(semihosting, uart0)
}

/// Whether the first of two runs has dumped its persist region.
pub fn region_captured(output: &QemuOutput) -> (captured: bool)
    ensures
        captured == (output.uart1@.len() > 0),
{
    output.uart1.len() > 0
}

/// The text that two runs are judged by: the log of each under a heading.
pub open spec fn combined(first: Seq<char>, second: Seq<char>) -> Seq<char> {
    "=== Run 1 ===\n"@ + first + "\n=== Run 2 ===\n"@ + second
}

/// Joins the logs of two runs into the text that they are judged by.
pub fn combine_runs(first: &str, second: &str) -> (text: String)
    ensures
        text@ == combined(first@, second@),
{
    let mut text = String::from_str("=== Run 1 ===\n");
    text.append(first);
    text.append("\n=== Run 2 ===\n");
    text.append(second);
    text
}

/// Whether a persist run has recovered its log: the second run must drain
/// the text that the first one drained.
pub fn recovered_log_matches(first_uart0: &String, second_uart0: &String) -> (matches: bool)
    ensures
        matches == (first_uart0@ == second_uart0@),
{
    same_text(first_uart0, second_uart0)
}

/// Whether a corruption scenario has passed.
///
/// `semihosting` and `uart0` are the texts of the run on the corrupted dump,
/// `clean_uart0` is the text that the first run drained. After any
/// corruption the run must find an empty ring, and so log and drain what
/// the first run did. On the clean dump it must log nothing of its own and
/// drain what it recovered.
pub fn scenario_passed(
    flags: CorruptFlags,
    semihosting: &String,
    uart0: &String,
    clean_uart0: &String,
) -> (passed: bool)
    ensures
        passed == (if flags.spec_any() {
            semihosting@.len() > 0 && uart0@ == clean_uart0@
        } else {
            semihosting@.len() == 0 && uart0@.len() > 0
        }),
{
    if flags.any() {
        !semihosting.as_str().is_empty() && same_text(uart0, clean_uart0)
    } else {
        semihosting.as_str().is_empty() && !uart0.as_str().is_empty()
    }
}

/// Whether a corruption scenario has passed by the laxer rule, which looks
/// at the drained text alone: after a damaged magic number it must
/// be what the first run drained, else it must not be empty.
pub fn scenario_passed_by_drain(flags: CorruptFlags, uart0: &String, clean_uart0: &String) -> (passed:
    bool)
    ensures
        passed == (if flags.header {
            uart0@ == clean_uart0@
        } else {
            uart0@.len() > 0
        }),
{
    if flags.causes_reinit() {
        same_text(uart0, clean_uart0)
    } else {
        !uart0.as_str().is_empty()
    }
}

} // verus!
