use vstd::prelude::*;
use crate::model::{
    assertion_records, joined_lines, Assertion, AssertionRecord, Test, TestRecord,
};
use crate::text_decoration::{
    green, green_spec, red, red_spec, underlined, underlined_spec, yellow, yellow_spec,
};

verus! {

/// The decimal digits of `n`, most significant first, without leading zeros.
pub open spec fn decimal(n: nat) -> Seq<char>
    decreases n,
{
    if n < 10 {
        seq!["0123456789"@[n as int]]
    } else {
        decimal(n / 10) + seq!["0123456789"@[(n % 10) as int]]
    }
}

/// `v` in decimal, with a leading `-` when it is negative.
pub open spec fn signed_decimal(v: int) -> Seq<char> {
    if v < 0 {
        seq!['-'] + decimal((-v) as nat)
    } else {
        decimal(v as nat)
    }
}

/// The models of the tests that a sequence of references points to.
pub open spec fn test_records(tests: Seq<&Test>) -> Seq<TestRecord> {
    tests.map_values(|t: &Test| t@)
}

/// Number of assertions over all the tests.
pub open spec fn total_assertions(tests: Seq<TestRecord>) -> nat
    decreases tests.len(),
{
    if tests.len() == 0 {
        0
    } else {
        total_assertions(tests.drop_last()) + tests.last().assertions.len()
    }
}

fn push_decimal(out: &mut String, n: u128)
    ensures
        final(out)@ == old(out)@ + decimal(n as nat),
    decreases n,
{
    if n >= 10 {
        push_decimal(out, n / 10);
    }
    let digits = "0123456789";
    proof {
        reveal_strlit("0123456789");
    }
    let d = (n % 10) as usize;
    out.append(digits.substring_char(d, d + 1));
    proof {
        assert(digits@.subrange(d as int, d + 1) =~= seq![digits@[d as int]]);
        assert(final(out)@ =~= old(out)@ + decimal(n as nat));
    }
}

fn push_signed(out: &mut String, v: i32)
    ensures
        final(out)@ == old(out)@ + signed_decimal(v as int),
{
    if v < 0 {
        proof {
            reveal_strlit("-");
        }
        out.append("-");
        push_decimal(out, (0 - v as i128) as u128);
        proof {
            assert(final(out)@ =~= old(out)@ + signed_decimal(v as int));
        }
    } else {
        push_decimal(out, v as u128);
    }
}

/// Receives the parser's events, in the order they happen, and answers each with
/// the text to show for it.
pub trait TestFormat: Sized {
    /// Text shown when a test opens, given the formatter's state before.
    spec fn new_test_text(&self, title: Seq<char>) -> Seq<char>;

    /// How the formatter's state may change when a test opens.
    spec fn opens_test(&self, title: Seq<char>, next: Self) -> bool;

    spec fn assertion_text(&self, passed: bool, message: Seq<char>) -> Seq<char>;

    spec fn log_text(&self, output: Seq<char>) -> Seq<char>;

    spec fn summary_text(&self, plan: Option<(i32, i32)>, tests: Seq<TestRecord>) -> Seq<char>;

    fn new_test(&mut self, title: &str) -> (r: String)
        ensures
            r@ == old(self).new_test_text(title@),
            old(self).opens_test(title@, *final(self)),
    ;

    fn assertion(&self, passed: bool, assertion: &str) -> (r: String)
        ensures
            r@ == self.assertion_text(passed, assertion@),
    ;

    fn log_output(&self, output: &str) -> (r: String)
        ensures
            r@ == self.log_text(output@),
    ;

    fn summerise(&self, plan: Option<(i32, i32)>, tests: Vec<&Test>) -> (r: String)
        requires
            forall|i: int| 0 <= i < tests@.len() ==> (#[trigger] tests@[i]).wf(),
        ensures
            r@ == self.summary_text(plan, test_records(tests@)),
    ;
}

/// Shows nothing at all.
pub struct NullFormatter;

impl TestFormat for NullFormatter {
    open spec fn new_test_text(&self, title: Seq<char>) -> Seq<char> {
        seq![]
    }

    open spec fn opens_test(&self, title: Seq<char>, next: Self) -> bool {
        true
    }

    open spec fn assertion_text(&self, passed: bool, message: Seq<char>) -> Seq<char> {
        seq![]
    }

    open spec fn log_text(&self, output: Seq<char>) -> Seq<char> {
        seq![]
    }

    open spec fn summary_text(&self, plan: Option<(i32, i32)>, tests: Seq<TestRecord>) -> Seq<char> {
        seq![]
    }

    fn new_test(&mut self, _title: &str) -> (r: String) {
        String::new()
    }

    fn assertion(&self, _passed: bool, _assertion: &str) -> (r: String) {
        String::new()
    }

    fn log_output(&self, _output: &str) -> (r: String) {
        String::new()
    }

    fn summerise(&self, _plan: Option<(i32, i32)>, _tests: Vec<&Test>) -> (r: String) {
        String::new()
    }
}

/// One character per result and a one-line count; titles and diagnostic text show nothing.
pub struct DotFormatter;

/// The line that closes a run without a plan.
pub open spec fn no_report_text() -> Seq<char> {
    "Test suite ended without report"@
}

impl TestFormat for DotFormatter {
    open spec fn new_test_text(&self, title: Seq<char>) -> Seq<char> {
        seq![]
    }

    open spec fn opens_test(&self, title: Seq<char>, next: Self) -> bool {
        true
    }

    open spec fn assertion_text(&self, passed: bool, message: Seq<char>) -> Seq<char> {
        if passed {
            "."@
        } else {
            "x"@
        }
    }

    open spec fn log_text(&self, output: Seq<char>) -> Seq<char> {
        seq![]
    }

    open spec fn summary_text(&self, plan: Option<(i32, i32)>, tests: Seq<TestRecord>) -> Seq<char> {
        match plan {
            Some((_, end)) => "Ran "@ + signed_decimal(end as int) + " tests"@,
            None => no_report_text(),
        }
    }

    fn new_test(&mut self, _title: &str) -> (r: String) {
        String::new()
    }

    fn assertion(&self, passed: bool, _assertion: &str) -> (r: String) {
        if passed {
            String::from_str(".")
        } else {
            String::from_str("x")
        }
    }

    fn log_output(&self, _output: &str) -> (r: String) {
        String::new()
    }

    fn summerise(&self, plan: Option<(i32, i32)>, _tests: Vec<&Test>) -> (r: String) {
        match plan {
            Some((_, end)) => {
                let mut out = String::from_str("Ran ");
                push_signed(&mut out, end);
                out.append(" tests");
                out
            },
            None => String::from_str("Test suite ended without report"),
        }
    }
}

/// A coloured character per result, then a report of every failed test.
pub struct SpecFormatter {
    current_test: String,
}

/// One line of a failed test's report.
pub open spec fn assertion_line(a: AssertionRecord) -> Seq<char> {
    if a.passed {
        "  ✅ "@ + green_spec(a.message) + "\n"@
    } else {
        "  ❌ "@ + red_spec(a.message) + "\n"@
    }
}

pub open spec fn assertion_lines(assertions: Seq<AssertionRecord>) -> Seq<char>
    decreases assertions.len(),
{
    if assertions.len() == 0 {
        seq![]
    } else {
        assertion_lines(assertions.drop_last()) + assertion_line(assertions.last())
    }
}

/// The report of one failed test: its title, its log, and each of its results.
pub open spec fn failure_report(t: TestRecord) -> Seq<char> {
    "\n"@ + underlined_spec(t.name) + "\n\n"@ + yellow_spec(joined_lines(t.log)) + "\n"@
        + assertion_lines(t.assertions)
}

/// The reports of the tests that did not pass, in order.
pub open spec fn failure_reports(tests: Seq<TestRecord>) -> Seq<char>
    decreases tests.len(),
{
    if tests.len() == 0 {
        seq![]
    } else if tests.last().passed() {
        failure_reports(tests.drop_last())
    } else {
        failure_reports(tests.drop_last()) + failure_report(tests.last())
    }
}

impl SpecFormatter {
    /// The title of the test that is open, as last announced.
    pub closed spec fn current_title(&self) -> Seq<char> {
        self.current_test@
    }

    pub fn new() -> (r: Self)
        ensures
            r.current_title() == Seq::<char>::empty(),
    {
        SpecFormatter { current_test: String::new() }
    }

    /// The title of the test that is open.
    pub fn current_test(&self) -> (r: String)
        ensures
            r@ == self.current_title(),
    {
        self.current_test.clone()
    }

    /// Appends the report of one failed test.
    fn push_failure_report(out: &mut String, test: &Test)
        ensures
            final(out)@ == old(out)@ + failure_report(test@),
    {
        let name = test.name();
        out.append("\n");
        out.append(underlined(name.as_str()).as_str());
        out.append("\n\n");
        let log = test.log();
        out.append(yellow(log.as_str()).as_str());
        out.append("\n");
        let ghost head = out@;
        let assertions = test.assertions();
        let ghost records = assertion_records(assertions@);
        let mut i: usize = 0;
        while i < assertions.len()
            invariant
                i <= assertions@.len(),
                records == assertion_records(assertions@),
                records == test@.assertions,
                out@ == head + assertion_lines(records.take(i as int)),
            decreases assertions@.len() - i,
        {
            let a: &Assertion = &assertions[i];
            proof {
                assert(records.take(i as int + 1).drop_last() =~= records.take(i as int));
                assert(records[i as int] == a@);
            }
            let message = a.message();
            if a.pass() {
                out.append("  ✅ ");
                out.append(green(message.as_str()).as_str());
            } else {
                out.append("  ❌ ");
                out.append(red(message.as_str()).as_str());
            }
            out.append("\n");
            i = i + 1;
        }
        proof {
            assert(records.take(i as int) =~= records);
            assert(final(out)@ =~= old(out)@ + failure_report(test@));
        }
    }
}

impl TestFormat for SpecFormatter {
    open spec fn new_test_text(&self, title: Seq<char>) -> Seq<char> {
        seq![]
    }

    open spec fn opens_test(&self, title: Seq<char>, next: Self) -> bool {
        next.current_title() == title
    }

    open spec fn assertion_text(&self, passed: bool, message: Seq<char>) -> Seq<char> {
        if passed {
            green_spec("."@)
        } else {
            red_spec("x"@)
        }
    }

    open spec fn log_text(&self, output: Seq<char>) -> Seq<char> {
        seq![]
    }

    open spec fn summary_text(&self, plan: Option<(i32, i32)>, tests: Seq<TestRecord>) -> Seq<char> {
        match plan {
            Some((_, end)) => "\nRan "@ + signed_decimal(end as int) + " of "@ + decimal(
                total_assertions(tests),
            ) + " tests\n\n"@ + failure_reports(tests),
            None => no_report_text(),
        }
    }

    fn new_test(&mut self, title: &str) -> (r: String) {
        self.current_test = String::from_str(title);
        String::new()
    }

    fn assertion(&self, passed: bool, _assertion: &str) -> (r: String) {
        if passed {
            green(".")
        } else {
            red("x")
        }
    }

    fn log_output(&self, _output: &str) -> (r: String) {
        String::new()
    }

    fn summerise(&self, plan: Option<(i32, i32)>, tests: Vec<&Test>) -> (r: String) {
        let ghost records = test_records(tests@);
        match plan {
            Some((_, end)) => {
                let mut total: u128 = 0;
                let mut i: usize = 0;
                while i < tests.len()
                    invariant
                        i <= tests@.len(),
                        records == test_records(tests@),
                        total == total_assertions(records.take(i as int)),
                        total <= i * 0x1_0000_0000_0000_0000u128,
                    decreases tests@.len() - i,
                {
                    let n = tests[i].assertions().len();
                    proof {
                        assert(records.take(i as int + 1).drop_last() =~= records.take(i as int));
                        assert(records[i as int] == tests@[i as int]@);
                        assert(total + n <= (i + 1) * 0x1_0000_0000_0000_0000u128) by (nonlinear_arith)
                            requires
                                total <= i * 0x1_0000_0000_0000_0000u128,
                                n < 0x1_0000_0000_0000_0000u128,
                        ;
                        assert((i + 1) * 0x1_0000_0000_0000_0000u128 <= 0x1_0000_0000_0000_0000u128
                            * 0x1_0000_0000_0000_0000u128) by (nonlinear_arith)
                            requires
                                i < 0x1_0000_0000_0000_0000u128,
                        ;
                    }
                    total = total + n as u128;
                    i = i + 1;
                }
                proof {
                    assert(records.take(i as int) =~= records);
                }
                let mut out = String::from_str("\nRan ");
                push_signed(&mut out, end);
                out.append(" of ");
                push_decimal(&mut out, total);
                out.append(" tests\n\n");
                let ghost head = out@;
                let mut j: usize = 0;
                while j < tests.len()
                    invariant
                        j <= tests@.len(),
                        records == test_records(tests@),
                        forall|k: int| 0 <= k < tests@.len() ==> (#[trigger] tests@[k]).wf(),
                        out@ == head + failure_reports(records.take(j as int)),
                    decreases tests@.len() - j,
                {
                    let test: &Test = tests[j];
                    proof {
                        assert(records.take(j as int + 1).drop_last() =~= records.take(j as int));
                        assert(records[j as int] == test@);
                    }
                    if !test.pass() {
                        Self::push_failure_report(&mut out, test);
                    }
                    j = j + 1;
                }
                proof {
                    assert(records.take(j as int) =~= records);
                }
                out
            },
            None => String::from_str("Test suite ended without report"),
        }
    }
}

} // verus!
