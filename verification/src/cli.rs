//! The logic of the `cargo rvtest` front end: reading the output of
//! `cargo test` into a suite, and rendering a run in the chosen format.

use vstd::prelude::*;
use crate::model::spec::opt_view;
use crate::model::text::{
    chars_of, chars_eq, join_lines, lines, push_chars, push_str, slice_chars, split_lines, split_once,
    split_once_exec, starts_with, starts_with_exec, ends_with, ends_with_exec, string_from_chars, trim,
    trim_exec, trim_start_matches, trim_start_matches_exec, views,
};
use crate::model::{Duration, ReportFormat, TestCase, TestRun, TestStatus, TestSuite};
use crate::report::push_coloured;
use crate::runner::{render_report, rendered};

verus! {

/// The status a line of `cargo test` output gives a test.
pub enum ParsedStatus {
    Passed,
    Failed(Seq<char>),
    Skipped(Option<Seq<char>>),
}

/// A test read from the output: its name and status.
pub struct ParsedTest {
    pub name: Seq<char>,
    pub status: ParsedStatus,
}

/// The reading state: inside a failure section or not, the tests seen, and
/// the failure-detail lines collected.
pub struct ScanState {
    pub in_failures: bool,
    pub tests: Seq<ParsedTest>,
    pub details: Seq<Seq<char>>,
}

/// The reason of an `ignored` line: what follows `ignored,` (or `ignored`),
/// trimmed, with leading `...` removed; none when that is empty.
pub open spec fn ignore_reason(r: Seq<char>) -> Option<Seq<char>> {
    let x = if starts_with(r, "ignored,"@) { r.skip("ignored,"@.len() as int) } else { r.skip("ignored"@.len() as int) };
    let y = trim(trim_start_matches(trim(x), "..."@));
    if y.len() == 0 { None } else { Some(y) }
}

/// The status named by the text after ` ... `.
pub open spec fn line_status(r: Seq<char>) -> Option<ParsedStatus> {
    if starts_with(r, "ok"@) {
        Some(ParsedStatus::Passed)
    } else if starts_with(r, "FAILED"@) {
        Some(ParsedStatus::Failed(Seq::empty()))
    } else if starts_with(r, "ignored"@) {
        Some(ParsedStatus::Skipped(ignore_reason(r)))
    } else {
        None
    }
}

/// The test a trimmed line `test <name> ... <status>` reports, if any.
pub open spec fn parse_test_line(t: Seq<char>) -> Option<ParsedTest> {
    if starts_with(t, "test "@) {
        match split_once(t.skip("test "@.len() as int), " ... "@) {
            Some((name, rest)) => match line_status(rest) {
                Some(st) => Some(ParsedTest { name, status: st }),
                None => None,
            },
            None => None,
        }
    } else {
        None
    }
}

/// The effect of one output line on the reading state.
pub open spec fn scan_line(st: ScanState, line: Seq<char>) -> ScanState {
    let t = trim(line);
    if starts_with(t, "---- "@) && ends_with(t, " stdout ----"@) {
        ScanState { in_failures: true, ..st }
    } else if t == "failures:"@ {
        ScanState { in_failures: false, ..st }
    } else {
        let details = if st.in_failures && t.len() > 0 && !starts_with(t, "----"@) {
            st.details.push(t)
        } else {
            st.details
        };
        let tests = match parse_test_line(t) {
            Some(p) => st.tests.push(p),
            None => st.tests,
        };
        ScanState { in_failures: st.in_failures, tests, details }
    }
}

/// The state after reading `ls` in order.
pub open spec fn scan_lines(ls: Seq<Seq<char>>) -> ScanState
    decreases ls.len(),
{
    if ls.len() == 0 {
        ScanState { in_failures: false, tests: Seq::empty(), details: Seq::empty() }
    } else {
        scan_line(scan_lines(ls.drop_last()), ls.last())
    }
}

/// A detail line that ends a failure's detail block (and is consumed).
pub open spec fn ends_detail(l: Seq<char>) -> bool {
    starts_with(l, "test "@) || starts_with(l, "----"@) || starts_with(l, "\n"@) || l.len() == 0
}

/// The detail lines of one failure, read from position `pos`, and the
/// position after them (the ending line, if any, is consumed).
pub open spec fn take_detail(ds: Seq<Seq<char>>, pos: nat) -> (Seq<Seq<char>>, nat)
    decreases ds.len() - pos,
{
    if pos >= ds.len() {
        (Seq::empty(), pos)
    } else if ends_detail(ds[pos as int]) {
        (Seq::empty(), pos + 1)
    } else {
        let (r, p) = take_detail(ds, pos + 1);
        (seq![ds[pos as int]] + r, p)
    }
}

/// The failed tests among `ts[i..]`, in order, take consecutive detail
/// blocks, read from position `pos`, as reasons.
pub open spec fn attach_details(ts: Seq<ParsedTest>, i: nat, ds: Seq<Seq<char>>, pos: nat) -> Seq<ParsedTest>
    decreases ts.len() - i,
{
    if i >= ts.len() {
        Seq::empty()
    } else {
        let t = ts[i as int];
        if t.status is Failed {
            let (ls, p2) = take_detail(ds, pos);
            let t2 = if join_lines(ls).len() > 0 {
                ParsedTest { name: t.name, status: ParsedStatus::Failed(join_lines(ls)) }
            } else {
                t
            };
            seq![t2] + attach_details(ts, i + 1, ds, p2)
        } else {
            seq![t] + attach_details(ts, i + 1, ds, pos)
        }
    }
}

/// The tests the output of `cargo test` reports.
pub open spec fn parsed_tests(stdout: Seq<char>) -> Seq<ParsedTest> {
    let st = scan_lines(lines(stdout));
    attach_details(st.tests, 0, st.details, 0)
}

/// Whether a test case records a parsed test.
pub open spec fn case_records(c: TestCase, p: ParsedTest) -> bool {
    &&& c.name@ == p.name
    &&& c.suite is Some && c.suite->0@ == "cargo test"@
    &&& c.tags@.len() == 0
    &&& match p.status {
        ParsedStatus::Passed => c.status is Passed,
        ParsedStatus::Failed(r) => c.status matches TestStatus::Failed { reason, location } && reason@ == r
            && location is None,
        ParsedStatus::Skipped(o) => c.status matches TestStatus::Skipped { reason } && opt_view(reason) == o,
    }
    &&& c.duration@ == 0
    &&& c.assertions == 0
    &&& c.location is None
    &&& c.parameters@.len() == 0
}

/// Element-wise `case_records`.
pub open spec fn cases_record(cs: Seq<TestCase>, ps: Seq<ParsedTest>) -> bool {
    cs.len() == ps.len() && forall|i: int| 0 <= i < cs.len() ==> case_records(#[trigger] cs[i], ps[i])
}

fn word(s: &str) -> (v: Vec<char>)
    ensures
        v@ == s@,
{
    chars_of(s)
}

/// The reason of an `ignored` line.
fn ignore_reason_exec(r: &Vec<char>) -> (o: Option<String>)
    requires
        starts_with(r@, "ignored"@),
    ensures
        opt_view(o) == ignore_reason(r@),
{
    let with_comma = word("ignored,");
    let x = if starts_with_exec(r, &with_comma) {
        slice_chars(r, with_comma.len(), r.len())
    } else {
        let bare = word("ignored");
        slice_chars(r, bare.len(), r.len())
    };
    let t1 = trim_exec(&x);
    let dots = word("...");
    let t2 = trim_start_matches_exec(&t1, &dots);
    let y = trim_exec(&t2);
    if y.len() == 0 {
        None
    } else {
        Some(string_from_chars(&y))
    }
}

/// The test case a trimmed line reports, if any.
fn parse_test_line_exec(t: &Vec<char>) -> (r: Option<TestCase>)
    ensures
        match parse_test_line(t@) {
            Some(p) => r matches Some(c) && case_records(c, p),
            None => r is None,
        },
{
    let prefix = word("test ");
    if !starts_with_exec(t, &prefix) {
        return None;
    }
    let rest = slice_chars(t, prefix.len(), t.len());
    let sep = word(" ... ");
    match split_once_exec(&rest, &sep) {
        None => None,
        Some((name, status_text)) => {
            let status = if starts_with_exec(&status_text, &word("ok")) {
                TestStatus::Passed
            } else if starts_with_exec(&status_text, &word("FAILED")) {
                TestStatus::Failed { reason: String::new(), location: None }
            } else if starts_with_exec(&status_text, &word("ignored")) {
                TestStatus::Skipped { reason: ignore_reason_exec(&status_text) }
            } else {
                return None;
            };
            let mut suite: Vec<char> = Vec::new();
            push_str(&mut suite, "cargo test");
            Some(
                TestCase {
                    name: string_from_chars(&name),
                    suite: Some(string_from_chars(&suite)),
                    tags: Vec::new(),
                    status,
                    duration: Duration::zero(),
                    assertions: 0,
                    location: None,
                    parameters: Vec::new(),
                },
            )
        },
    }
}

/// Reads the lines of `cargo test` output: the tests and the failure details.
fn scan_output(stdout: &str) -> (r: (Vec<TestCase>, Vec<Vec<char>>))
    ensures
        cases_record(r.0@, scan_lines(lines(stdout@)).tests),
        views(r.1@) == scan_lines(lines(stdout@)).details,
{
    let all = chars_of(stdout);
    let ls = split_lines(&all);
    let header = word("---- ");
    let header_end = word(" stdout ----");
    let failures = word("failures:");
    let dashes = word("----");
    let mut in_failures = false;
    let mut tests: Vec<TestCase> = Vec::new();
    let mut details: Vec<Vec<char>> = Vec::new();
    let mut i: usize = 0;
    while i < ls.len()
        invariant
            i <= ls.len(),
            views(ls@) == lines(stdout@),
            header@ == "---- "@,
            header_end@ == " stdout ----"@,
            failures@ == "failures:"@,
            dashes@ == "----"@,
            in_failures == scan_lines(views(ls@).take(i as int)).in_failures,
            cases_record(tests@, scan_lines(views(ls@).take(i as int)).tests),
            views(details@) == scan_lines(views(ls@).take(i as int)).details,
        decreases ls.len() - i,
    {
        let ghost pre = scan_lines(views(ls@).take(i as int));
        proof {
            assert(views(ls@).take(i + 1).drop_last() =~= views(ls@).take(i as int));
            assert(views(ls@).take(i + 1).last() == ls@[i as int]@);
        }
        let t = trim_exec(&ls[i]);
        if starts_with_exec(&t, &header) && ends_with_exec(&t, &header_end) {
            in_failures = true;
        } else if chars_eq(&t, &failures) {
            in_failures = false;
        } else {
            if in_failures && t.len() > 0 && !starts_with_exec(&t, &dashes) {
                let ghost before = details@;
                let tc = slice_chars(&t, 0, t.len());
                details.push(tc);
                proof {
                    assert(tc@ =~= t@);
                    assert(views(details@) =~= views(before).push(t@));
                }
            }
            match parse_test_line_exec(&t) {
                Some(c) => {
                    let ghost before = tests@;
                    tests.push(c);
                    proof {
                        let want = scan_lines(views(ls@).take(i + 1)).tests;
                        assert forall|k: int| 0 <= k < tests@.len() implies case_records(#[trigger] tests@[k], want[k]) by {
                            if k < before.len() {
                                assert(tests@[k] == before[k]);
                            }
                        }
                    }
                },
                None => {},
            }
        }
        i = i + 1;
    }
    proof {
        assert(views(ls@).take(i as int) =~= lines(stdout@));
    }
    (tests, details)
}

/// Reads one failure's detail block starting at `pos`.
fn take_detail_exec(ds: &Vec<Vec<char>>, pos: usize) -> (r: (Vec<Vec<char>>, usize))
    requires
        pos <= ds@.len(),
    ensures
        views(r.0@) == take_detail(views(ds@), pos as nat).0,
        r.1 == take_detail(views(ds@), pos as nat).1,
        r.1 <= ds@.len(),
{
    let ghost dv = views(ds@);
    let test_prefix = word("test ");
    let dashes = word("----");
    let newline = word("\n");
    let mut taken: Vec<Vec<char>> = Vec::new();
    let mut p = pos;
    while p < ds.len()
        invariant
            pos <= p <= ds@.len(),
            dv == views(ds@),
            test_prefix@ == "test "@,
            dashes@ == "----"@,
            newline@ == "\n"@,
            take_detail(dv, pos as nat) == (views(taken@) + take_detail(dv, p as nat).0, take_detail(dv, p as nat).1),
        decreases ds@.len() - p,
    {
        let l = &ds[p];
        proof {
            assert(dv[p as int] == l@);
        }
        if starts_with_exec(l, &test_prefix) || starts_with_exec(l, &dashes) || starts_with_exec(l, &newline)
            || l.len() == 0 {
            let r = (taken, p + 1);
            proof {
                assert(views(taken@) + Seq::<Seq<char>>::empty() =~= views(taken@));
            }
            return r;
        }
        let ghost before = views(taken@);
        let lc = slice_chars(l, 0, l.len());
        taken.push(lc);
        proof {
            assert(lc@ =~= l@);
            assert(views(taken@) =~= before.push(l@));
            let (rest, q) = take_detail(dv, (p + 1) as nat);
            assert(take_detail(dv, p as nat) == (seq![l@] + rest, q));
            assert(before + (seq![l@] + rest) =~= views(taken@) + rest);
        }
        p = p + 1;
    }
    proof {
        assert(views(taken@) + Seq::<Seq<char>>::empty() =~= views(taken@));
    }
    (taken, p)
}

/// Joins lines with `'\n'`.
fn join_lines_exec(ls: &Vec<Vec<char>>) -> (r: Vec<char>)
    ensures
        r@ == join_lines(views(ls@)),
{
    let mut out: Vec<char> = Vec::new();
    let mut i: usize = 0;
    while i < ls.len()
        invariant
            i <= ls.len(),
            out@ == join_lines(views(ls@).take(i as int)),
        decreases ls.len() - i,
    {
        proof {
            assert(views(ls@).take(i + 1).drop_last() =~= views(ls@).take(i as int));
            assert(views(ls@).take(i + 1).last() == ls@[i as int]@);
            if i == 0 {
                assert(views(ls@).take(1)[0] == ls@[0]@);
            }
        }
        if i > 0 {
            push_str(&mut out, "\n");
        }
        push_chars(&mut out, &ls[i]);
        proof {
            assert(out@ =~= join_lines(views(ls@).take(i + 1)));
        }
        i = i + 1;
    }
    proof {
        assert(views(ls@).take(i as int) =~= views(ls@));
    }
    out
}

/// Gives the failed tests their detail blocks as reasons.
fn attach_details_exec(tests: Vec<TestCase>, details: &Vec<Vec<char>>, Ghost(ps): Ghost<Seq<ParsedTest>>) -> (r: Vec<
    TestCase,
>)
    requires
        cases_record(tests@, ps),
    ensures
        cases_record(r@, attach_details(ps, 0, views(details@), 0)),
{
    let ghost dv = views(details@);
    let mut rest = tests;
    let mut out: Vec<TestCase> = Vec::new();
    let ghost mut acc: Seq<ParsedTest> = Seq::empty();
    let mut pos: usize = 0;
    let ghost mut i: nat = 0;
    while rest.len() > 0
        invariant
            dv == views(details@),
            i + rest@.len() == ps.len(),
            forall|k: int| 0 <= k < rest@.len() ==> case_records(#[trigger] rest@[k], ps[i as int + k]),
            pos <= details@.len(),
            cases_record(out@, acc),
            attach_details(ps, 0, dv, 0) == acc + attach_details(ps, i, dv, pos as nat),
        decreases rest@.len(),
    {
        let ghost old_rest = rest@;
        let mut c = rest.remove(0);
        proof {
            assert(case_records(old_rest[0], ps[i as int]));
            assert forall|k: int| 0 <= k < rest@.len() implies case_records(#[trigger] rest@[k], ps[(i + 1) as int + k]) by {
                assert(rest@[k] == old_rest[k + 1]);
                assert(case_records(old_rest[k + 1], ps[i as int + (k + 1)]));
            }
        }
        let ghost t = ps[i as int];
        let ghost pos0 = pos as nat;
        let ghost next: ParsedTest;
        let failed = match &c.status {
            TestStatus::Failed { .. } => true,
            _ => false,
        };
        if failed {
            let (ls, p2) = take_detail_exec(details, pos);
            let joined = join_lines_exec(&ls);
            if joined.len() > 0 {
                c.status = TestStatus::Failed { reason: string_from_chars(&joined), location: None };
            }
            proof {
                next = if join_lines(views(ls@)).len() > 0 {
                    ParsedTest { name: t.name, status: ParsedStatus::Failed(join_lines(views(ls@))) }
                } else {
                    t
                };
            }
            pos = p2;
        } else {
            proof {
                next = t;
            }
        }
        let ghost before = out@;
        out.push(c);
        proof {
            assert(attach_details(ps, i, dv, pos0) == seq![next] + attach_details(ps, i + 1, dv, pos as nat));
        }
        proof {
            assert forall|k: int| 0 <= k < out@.len() implies case_records(#[trigger] out@[k], acc.push(next)[k]) by {
                if k < before.len() {
                    assert(out@[k] == before[k]);
                }
            }
            assert(acc.push(next) + attach_details(ps, i + 1, dv, pos as nat) =~= acc + (seq![next]
                + attach_details(ps, i + 1, dv, pos as nat)));
            acc = acc.push(next);
            i = i + 1;
        }
    }
    proof {
        assert(attach_details(ps, i, dv, pos as nat) =~= Seq::<ParsedTest>::empty());
        assert(acc + Seq::<ParsedTest>::empty() =~= acc);
    }
    out
}

/// Reads the output of `cargo test` into suites: none when it reports no
/// test, else one suite named `cargo test` holding the reported tests in
/// order, each failed test taking the next block of failure details as its
/// reason.
pub fn parse_cargo_test_output(stdout: &str) -> (r: Vec<TestSuite>)
    ensures
        parsed_tests(stdout@).len() == 0 ==> r@.len() == 0,
        parsed_tests(stdout@).len() > 0 ==> {
            &&& r@.len() == 1
            &&& r@[0].name@ == "cargo test"@
            &&& r@[0].description is None
            &&& cases_record(r@[0].tests@, parsed_tests(stdout@))
            &&& r@[0].duration@ == 0
        },
{
    let (tests, details) = scan_output(stdout);
    let ghost st = scan_lines(lines(stdout@));
    let tests = attach_details_exec(tests, &details, Ghost(st.tests));
    if tests.len() == 0 {
        return Vec::new();
    }
    let mut name: Vec<char> = Vec::new();
    push_str(&mut name, "cargo test");
    let suite = TestSuite {
        name: string_from_chars(&name),
        description: None,
        tests,
        duration: Duration::zero(),
    };
    let mut out: Vec<TestSuite> = Vec::new();
    out.push(suite);
    out
}

/// The report of `run` in `format`, as the front end prints it.
pub fn render(format: &ReportFormat, verbose: bool, run: &TestRun) -> (r: String)
    requires
        run.fits(),
    ensures
        r@ == rendered(*format, verbose, *run),
{
    render_report(*format, verbose, run)
}

/// `s` dimmed for a terminal.
pub fn dim(s: &str) -> (r: String)
    ensures
        r@ == crate::report::dim(s@, true),
{
    let mut out: Vec<char> = Vec::new();
    let v = chars_of(s);
    push_coloured(&mut out, &v, "2", true);
    string_from_chars(&out)
}

} // verus!
