use vstd::prelude::*;
use crate::classify::{classify, header_text, line_kind, plan_of, Line, LineKind};
use crate::formatters::TestFormat;
use crate::model::{Test, TestBuilder, TestRecord};

verus! {

/// What the parser has gathered: the tests in the order their titles came, the
/// last valid plan, and whether the stream has been closed.
pub ghost struct ParserRecord {
    pub tests: Seq<TestRecord>,
    pub plan: Option<(i32, i32)>,
    pub finalised: bool,
}

/// The state right after the header.
pub open spec fn initial_record() -> ParserRecord {
    ParserRecord { tests: seq![], plan: None, finalised: false }
}

/// The state after one more line. A title opens a new test; results, plans and
/// diagnostic text only count once a test is open; nothing counts after the
/// stream is closed.
pub open spec fn after_line(p: ParserRecord, kind: LineKind) -> ParserRecord {
    if p.finalised {
        p
    } else {
        match kind {
            LineKind::TestTitle(name) => ParserRecord {
                tests: p.tests.push(TestRecord::opened(name)),
                ..p
            },
            _ => if p.tests.len() == 0 {
                p
            } else {
                let last = p.tests.len() - 1;
                match kind {
                    LineKind::Pass(m) => ParserRecord {
                        tests: p.tests.update(last, p.tests[last].recorded(true, m)),
                        ..p
                    },
                    LineKind::Fail(m) => ParserRecord {
                        tests: p.tests.update(last, p.tests[last].recorded(false, m)),
                        ..p
                    },
                    LineKind::Plan(a, b) => ParserRecord { plan: Some((a, b)), ..p },
                    LineKind::Other(t) => ParserRecord {
                        tests: p.tests.update(last, p.tests[last].logged(t)),
                        ..p
                    },
                    LineKind::TestTitle(_) => p,
                }
            },
        }
    }
}

/// The text that the formatter answers a line with.
pub open spec fn line_output<T: TestFormat>(f: T, p: ParserRecord, kind: LineKind) -> Seq<char> {
    if p.finalised {
        seq![]
    } else {
        match kind {
            LineKind::TestTitle(name) => f.new_test_text(name),
            _ => if p.tests.len() == 0 {
                seq![]
            } else {
                match kind {
                    LineKind::Pass(m) => f.assertion_text(true, m),
                    LineKind::Fail(m) => f.assertion_text(false, m),
                    LineKind::Other(t) => f.log_text(t),
                    _ => seq![],
                }
            },
        }
    }
}

/// How the formatter's state follows a line.
pub open spec fn formatter_follows<T: TestFormat>(
    before: T,
    after: T,
    p: ParserRecord,
    kind: LineKind,
) -> bool {
    match kind {
        LineKind::TestTitle(name) if !p.finalised => before.opens_test(name, after),
        _ => after == before,
    }
}

/// The state after a sequence of lines, read in order from `p`.
pub open spec fn after_lines(p: ParserRecord, lines: Seq<Seq<char>>) -> ParserRecord
    decreases lines.len(),
{
    if lines.len() == 0 {
        p
    } else {
        after_line(after_lines(p, lines.drop_last()), line_kind(lines.last()))
    }
}

pub open spec fn is_title(line: Seq<char>) -> bool {
    line_kind(line) is TestTitle
}

pub open spec fn is_result(line: Seq<char>) -> bool {
    line_kind(line) is Pass || line_kind(line) is Fail
}

/// Number of title lines among `lines`.
pub open spec fn title_count(lines: Seq<Seq<char>>) -> nat
    decreases lines.len(),
{
    if lines.len() == 0 {
        0
    } else {
        title_count(lines.drop_last()) + if is_title(lines.last()) {
            1nat
        } else {
            0nat
        }
    }
}

/// Number of result lines that come after the title numbered `j` (from 0) and
/// before the next title.
pub open spec fn results_under(lines: Seq<Seq<char>>, j: nat) -> nat
    decreases lines.len(),
{
    if lines.len() == 0 {
        0
    } else {
        results_under(lines.drop_last(), j) + if is_result(lines.last()) && title_count(
            lines.drop_last(),
        ) == j + 1 {
            1nat
        } else {
            0nat
        }
    }
}

/// Reading lines never closes the stream.
pub proof fn lemma_lines_keep_open(lines: Seq<Seq<char>>)
    ensures
        !after_lines(initial_record(), lines).finalised,
    decreases lines.len(),
{
    if lines.len() > 0 {
        lemma_lines_keep_open(lines.drop_last());
    }
}

/// After any lines, there is one test per title line that was read.
pub proof fn lemma_one_test_per_title(lines: Seq<Seq<char>>)
    ensures
        after_lines(initial_record(), lines).tests.len() == title_count(lines),
    decreases lines.len(),
{
    if lines.len() > 0 {
        lemma_one_test_per_title(lines.drop_last());
        lemma_lines_keep_open(lines.drop_last());
    }
}

proof fn lemma_no_results_past_titles(lines: Seq<Seq<char>>, j: nat)
    requires
        j >= title_count(lines),
    ensures
        results_under(lines, j) == 0,
    decreases lines.len(),
{
    if lines.len() > 0 {
        lemma_no_results_past_titles(lines.drop_last(), j);
    }
}

/// After any lines, each test holds one result per result line read between its
/// title and the next title.
pub proof fn lemma_results_per_test(lines: Seq<Seq<char>>, j: int)
    requires
        0 <= j < after_lines(initial_record(), lines).tests.len(),
    ensures
        after_lines(initial_record(), lines).tests[j].assertions.len() == results_under(
            lines,
            j as nat,
        ),
    decreases lines.len(),
{
    let prefix = lines.drop_last();
    let before = after_lines(initial_record(), prefix);
    lemma_one_test_per_title(lines);
    lemma_one_test_per_title(prefix);
    lemma_lines_keep_open(prefix);
    if j < before.tests.len() {
        lemma_results_per_test(prefix, j);
    } else {
        lemma_no_results_past_titles(prefix, j as nat);
    }
}

/// Reading the same plan line a second time changes nothing.
pub proof fn lemma_plan_line_idempotent(p: ParserRecord, line: Seq<char>)
    requires
        line_kind(line) is Plan,
    ensures
        after_line(after_line(p, line_kind(line)), line_kind(line)) == after_line(
            p,
            line_kind(line),
        ),
{
}

/// Once a test is open, a valid plan line replaces whatever plan an earlier line left.
pub proof fn lemma_last_plan_wins(p: ParserRecord, earlier: Seq<char>, later: Seq<char>)
    requires
        !p.finalised,
        p.tests.len() > 0,
        line_kind(later) is Plan,
    ensures
        after_line(after_line(p, line_kind(earlier)), line_kind(later)).plan == plan_of(later),
{
}

/// A line that is not a valid plan leaves the plan as it was.
pub proof fn lemma_other_lines_keep_plan(p: ParserRecord, line: Seq<char>)
    requires
        !(line_kind(line) is Plan),
    ensures
        after_line(p, line_kind(line)).plan == p.plan,
{
}

/// The models of a sequence of test accumulators.
pub open spec fn builder_records(tests: Seq<TestBuilder>) -> Seq<TestRecord> {
    tests.map_values(|t: TestBuilder| t@)
}

/// Reads a stream of protocol lines and tells its formatter what it finds.
pub struct TapParser<T: TestFormat> {
    tests: Vec<TestBuilder>,
    plan: Option<(i32, i32)>,
    formatter: T,
    finalised: bool,
}

impl<T: TestFormat> View for TapParser<T> {
    type V = ParserRecord;

    closed spec fn view(&self) -> ParserRecord {
        ParserRecord {
            tests: builder_records(self.tests@),
            plan: self.plan,
            finalised: self.finalised,
        }
    }
}

impl<T: TestFormat> TapParser<T> {
    /// Every accumulator keeps its pass flag in step with its results.
    pub closed spec fn wf(&self) -> bool {
        forall|i: int| 0 <= i < self.tests@.len() ==> (#[trigger] self.tests@[i]).wf()
    }

    pub closed spec fn formatter_state(&self) -> T {
        self.formatter
    }

    /// Starts a parser on the first line of a stream. A stream that is empty, or
    /// whose first line is not exactly the header, cannot be read at all: such a
    /// line is left out here, and a caller checks it with `is_header` first.
    pub fn new(first_line: &str, formatter: T) -> (r: Self)
        requires
            first_line@ == header_text(),
        ensures
            r.wf(),
            r@ == initial_record(),
            r.formatter_state() == formatter,
    {
        let p = TapParser { tests: Vec::new(), plan: None, formatter, finalised: false };
        proof {
            assert(p@.tests =~= seq![]);
        }
        p
    }

    /// Takes one line after the header and returns what the formatter shows for it.
    pub fn line(&mut self, line: &str) -> (r: String)
        requires
            old(self).wf(),
        ensures
            final(self).wf(),
            final(self)@ == after_line(old(self)@, line_kind(line@)),
            r@ == line_output(old(self).formatter_state(), old(self)@, line_kind(line@)),
            formatter_follows(
                old(self).formatter_state(),
                final(self).formatter_state(),
                old(self)@,
                line_kind(line@),
            ),
    {
        if self.finalised {
            return String::new();
        }
        let kind = classify(line);
        let ghost before = self.tests@;
        match kind {
            Line::TestTitle(name) => {
                let out = self.formatter.new_test(name.as_str());
                let mut builder = TestBuilder::new();
                builder.with_name(name.as_str());
                self.tests.push(builder);
                proof {
                    assert(self@.tests =~= old(self)@.tests.push(TestRecord::opened(name@)));
                    assert forall|i: int| 0 <= i < self.tests@.len() implies (
                    #[trigger] self.tests@[i]).wf() by {
                        if i < before.len() {
                            assert(self.tests@[i] == before[i]);
                        }
                    }
                }
                out
            },
            _ => {
                if self.tests.len() == 0 {
                    return String::new();
                }
                let last = self.tests.len() - 1;
                match kind {
                    Line::Pass(message) => {
                        let out = self.formatter.assertion(true, message.as_str());
                        self.tests[last].with_assertion(true, message);
                        proof {
                            self.lemma_last_changed(before);
                        }
                        out
                    },
                    Line::Fail(message) => {
                        let out = self.formatter.assertion(false, message.as_str());
                        self.tests[last].with_assertion(false, message);
                        proof {
                            self.lemma_last_changed(before);
                        }
                        out
                    },
                    Line::Plan(a, b) => {
                        self.plan = Some((a, b));
                        String::new()
                    },
                    Line::Other(text) => {
                        let out = self.formatter.log_output(text.as_str());
                        self.tests[last].with_log(text.as_str());
                        proof {
                            self.lemma_last_changed(before);
                        }
                        out
                    },
                    Line::TestTitle(_) => String::new(),
                }
            },
        }
    }

    proof fn lemma_last_changed(&self, before: Seq<TestBuilder>)
        requires
            before.len() > 0,
            self.tests@.len() == before.len(),
            self.tests@[before.len() - 1].wf(),
            forall|i: int| 0 <= i < before.len() - 1 ==> self.tests@[i] == before[i],
            forall|i: int| 0 <= i < before.len() ==> (#[trigger] before[i]).wf(),
        ensures
            self.wf(),
            builder_records(self.tests@) =~= builder_records(before).update(
                before.len() - 1,
                self.tests@[before.len() - 1]@,
            ),
    {
        assert forall|i: int| 0 <= i < self.tests@.len() implies (#[trigger] self.tests@[i]).wf() by {
            if i < before.len() - 1 {
                assert(self.tests@[i] == before[i]);
            }
        }
    }

    /// Closes the stream and returns the formatter's summary of the plan and of
    /// every test; a second call returns nothing.
    pub fn finalise(&mut self) -> (r: String)
        requires
            old(self).wf(),
        ensures
            final(self).wf(),
            final(self).formatter_state() == old(self).formatter_state(),
            final(self)@ == (ParserRecord { finalised: true, ..old(self)@ }),
            r@ == if old(self)@.finalised {
                Seq::<char>::empty()
            } else {
                old(self).formatter_state().summary_text(old(self)@.plan, old(self)@.tests)
            },
    {
        if self.finalised {
            return String::new();
        }
        let mut tests: Vec<&Test> = Vec::new();
        let mut i: usize = 0;
        while i < self.tests.len()
            invariant
                i <= self.tests@.len(),
                self.wf(),
                tests@.len() == i,
                forall|k: int| 0 <= k < i ==> (#[trigger] tests@[k])@ == self.tests@[k]@,
                forall|k: int| 0 <= k < i ==> (#[trigger] tests@[k]).wf(),
            decreases self.tests@.len() - i,
        {
            tests.push(self.tests[i].build());
            i = i + 1;
        }
        proof {
            assert(crate::formatters::test_records(tests@) =~= builder_records(self.tests@));
        }
        let out = self.formatter.summerise(self.plan, tests);
        self.finalised = true;
        out
    }

    /// The tests seen so far, the last one still open.
    pub fn tests(&self) -> (r: &Vec<TestBuilder>)
        requires
            self.wf(),
        ensures
            builder_records(r@) == self@.tests,
            forall|i: int| 0 <= i < r@.len() ==> (#[trigger] r@[i]).wf(),
    {
        &self.tests
    }

    /// The last valid plan line, if any.
    pub fn plan(&self) -> (r: Option<(i32, i32)>)
        ensures
            r == self@.plan,
    {
        self.plan
    }

    pub fn formatter(&self) -> (r: &T)
        ensures
            *r == self.formatter_state(),
    {
        &self.formatter
    }
}

} // verus!
