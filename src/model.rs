use vstd::prelude::*;

verus! {

/// What one result line says: whether it passed, and its description.
pub ghost struct AssertionRecord {
    pub passed: bool,
    pub message: Seq<char>,
}

/// What a test holds: its title, its results in the order they were seen,
/// and the diagnostic lines attached to it.
pub ghost struct TestRecord {
    pub name: Seq<char>,
    pub assertions: Seq<AssertionRecord>,
    pub log: Seq<Seq<char>>,
}

/// Every assertion passed; true of an empty sequence.
pub open spec fn all_passed(assertions: Seq<AssertionRecord>) -> bool {
    forall|i: int| 0 <= i < assertions.len() ==> #[trigger] assertions[i].passed
}

/// The lines with a newline between each two neighbours.
pub open spec fn joined_lines(lines: Seq<Seq<char>>) -> Seq<char>
    decreases lines.len(),
{
    if lines.len() == 0 {
        seq![]
    } else if lines.len() == 1 {
        lines[0]
    } else {
        joined_lines(lines.drop_last()) + seq!['\n'] + lines.last()
    }
}

impl TestRecord {
    pub open spec fn passed(self) -> bool {
        all_passed(self.assertions)
    }

    /// A test just opened by its title line.
    pub open spec fn opened(name: Seq<char>) -> TestRecord {
        TestRecord { name, assertions: seq![], log: seq![] }
    }

    pub open spec fn recorded(self, passed: bool, message: Seq<char>) -> TestRecord {
        TestRecord {
            assertions: self.assertions.push(AssertionRecord { passed, message }),
            ..self
        }
    }

    pub open spec fn logged(self, line: Seq<char>) -> TestRecord {
        TestRecord { log: self.log.push(line), ..self }
    }
}

/// A test passes exactly when all its results pass: a test without results
/// passes, and each new result is folded in by conjunction.
pub proof fn lemma_passed_is_conjunction(t: TestRecord, name: Seq<char>, passed: bool, message: Seq<char>)
    ensures
        TestRecord::opened(name).passed(),
        t.recorded(passed, message).passed() == (t.passed() && passed),
{
    let before = t.assertions;
    let after = t.recorded(passed, message).assertions;
    assert(after[before.len() as int].passed == passed);
    if t.passed() && passed {
        assert forall|i: int| 0 <= i < after.len() implies #[trigger] after[i].passed by {
            if i < before.len() {
                assert(after[i] == before[i]);
            }
        }
    }
    if !t.passed() {
        let k = choose|k: int| 0 <= k < before.len() && !#[trigger] before[k].passed;
        assert(after[k] == before[k]);
    }
}

pub struct Assertion {
    message: String,
    pass: bool,
}

impl View for Assertion {
    type V = AssertionRecord;

    closed spec fn view(&self) -> AssertionRecord {
        AssertionRecord { passed: self.pass, message: self.message@ }
    }
}

/// The models of a sequence of assertions.
pub open spec fn assertion_records(assertions: Seq<Assertion>) -> Seq<AssertionRecord> {
    assertions.map_values(|a: Assertion| a@)
}

/// The contents of a sequence of strings.
pub open spec fn string_views(lines: Seq<String>) -> Seq<Seq<char>> {
    lines.map_values(|s: String| s@)
}

impl Assertion {
    pub fn message(&self) -> (r: String)
        ensures
            r@ == self@.message,
    {
        self.message.clone()
    }

    pub fn pass(&self) -> (r: bool)
        ensures
            r == self@.passed,
    {
        self.pass
    }
}

pub struct Test {
    name: String,
    assertions: Vec<Assertion>,
    pass: bool,
    log: Vec<String>,
}

impl View for Test {
    type V = TestRecord;

    closed spec fn view(&self) -> TestRecord {
        TestRecord {
            name: self.name@,
            assertions: assertion_records(self.assertions@),
            log: string_views(self.log@),
        }
    }
}

impl Test {
    /// The stored pass flag agrees with the assertions.
    pub closed spec fn wf(&self) -> bool {
        self.pass == self@.passed()
    }

    pub fn name(&self) -> (r: String)
        ensures
            r@ == self@.name,
    {
        self.name.clone()
    }

    pub fn assertions(&self) -> (r: &Vec<Assertion>)
        ensures
            assertion_records(r@) == self@.assertions,
    {
        &self.assertions
    }

    pub fn pass(&self) -> (r: bool)
        requires
            self.wf(),
        ensures
            r == self@.passed(),
    {
        self.pass
    }

    /// The diagnostic lines, one per line of the result.
    pub fn log(&self) -> (r: String)
        ensures
            r@ == joined_lines(self@.log),
    {
        let mut out = String::new();
        let mut i: usize = 0;
        while i < self.log.len()
            invariant
                i <= self.log@.len(),
                out@ == joined_lines(string_views(self.log@.take(i as int))),
            decreases self.log@.len() - i,
        {
            proof {
                let lines = string_views(self.log@.take(i as int + 1));
                assert(lines.drop_last() =~= string_views(self.log@.take(i as int)));
                assert(lines.len() == i + 1);
                assert(lines[i as int] == self.log@[i as int]@);
            }
            if i > 0 {
                proof {
                    reveal_strlit("\n");
                }
                out.append("\n");
            }
            out.append(self.log[i].as_str());
            i = i + 1;
        }
        proof {
            assert(self.log@.take(i as int) =~= self.log@);
        }
        out
    }
}

pub struct TestBuilder {
    test: Test,
}

impl View for TestBuilder {
    type V = TestRecord;

    closed spec fn view(&self) -> TestRecord {
        self.test@
    }
}

impl TestBuilder {
    pub closed spec fn wf(&self) -> bool {
        self.test.wf()
    }

    /// An unnamed test with no assertions and no log.
    pub fn new() -> (r: Self)
        ensures
            r.wf(),
            r@ == TestRecord::opened(seq![]),
    {
        let r = TestBuilder {
            test: Test { name: String::new(), assertions: Vec::new(), pass: true, log: Vec::new() },
        };
        proof {
            assert(r@.assertions =~= seq![]);
            assert(r@.log =~= seq![]);
        }
        r
    }

    pub fn with_name(&mut self, name: &str) -> (r: &Self)
        ensures
            final(self).wf() == old(self).wf(),
            final(self)@ == (TestRecord { name: name@, ..old(self)@ }),
            *r == *final(self),
    {
        self.test.name = String::from_str(name);
        self
    }

    /// Appends a result and folds its outcome into the test's pass flag.
    pub fn with_assertion(&mut self, pass: bool, assertion: String) -> (r: &Self)
        requires
            old(self).wf(),
        ensures
            final(self).wf(),
            final(self)@ == old(self)@.recorded(pass, assertion@),
            *r == *final(self),
    {
        let ghost message = assertion@;
        self.test.assertions.push(Assertion { pass, message: assertion });
        self.test.pass = self.test.pass && pass;
        proof {
            assert(self@.assertions =~= old(self)@.assertions.push(
                AssertionRecord { passed: pass, message },
            ));
            lemma_passed_is_conjunction(old(self)@, seq![], pass, message);
        }
        self
    }

    pub fn with_log(&mut self, log_line: &str)
        ensures
            final(self).wf() == old(self).wf(),
            final(self)@ == old(self)@.logged(log_line@),
    {
        self.test.log.push(String::from_str(log_line));
        proof {
            assert(self@.log =~= old(self)@.log.push(log_line@));
            assert(self@.assertions =~= old(self)@.assertions);
        }
    }

    pub fn build(&self) -> (r: &Test)
        ensures
            r@ == self@,
            r.wf() == self.wf(),
    {
        &self.test
    }
}

} // verus!
