//! Renderers that turn a [`TestRun`] into text: pretty, TAP, JUnit XML, JSON,
//! compact and GitHub annotations. Each renderer's output is stated exactly
//! by a spec function over the run.

use vstd::prelude::*;
use crate::model::text::{
    chars_of, dec, lines, owned, pad_left, push_chars, push_dec, push_padded_left, push_str, repeat,
    split_lines, string_from_chars, views,
};
use crate::model::{
    debug_duration, failed_cases, run_success, location_text, millis_fixed1, secs_fixed, short_duration, skipped_cases,
    total_cases, total_failed_cases, total_passed_cases, total_skipped_cases, SourceLocation,
    TestCase, TestRun, TestStatus, TestSuite,
};

verus! {

// ---------------------------------------------------------------------------
// The reporter trait
// ---------------------------------------------------------------------------

/// Renders a [`TestRun`] into a human- or machine-readable string.
pub trait TestReporter {
    /// Format the entire test run into a string.
    fn report(&self, run: &TestRun) -> String
        requires
            run.fits(),
    ;
}

// ---------------------------------------------------------------------------
// Shared pieces
// ---------------------------------------------------------------------------

/// `s` wrapped in the ANSI colour `code` when colour is enabled.
pub open spec fn coloured(s: Seq<char>, code: Seq<char>, enabled: bool) -> Seq<char> {
    if enabled {
        "\x1b["@ + code + "m"@ + s + "\x1b[0m"@
    } else {
        s
    }
}

/// `s` dimmed when colour is enabled.
pub open spec fn dim(s: Seq<char>, enabled: bool) -> Seq<char> {
    coloured(s, "2"@, enabled)
}

/// Each line preceded by `indent` and followed by a newline.
pub open spec fn indented_lines(ls: Seq<Seq<char>>, indent: Seq<char>) -> Seq<char>
    decreases ls.len(),
{
    if ls.len() == 0 {
        Seq::empty()
    } else {
        indented_lines(ls.drop_last(), indent) + indent + ls.last() + "\n"@
    }
}

/// Which characters an escaping rewrites: 0 for XML, 1 for JSON, 2 for
/// GitHub annotations.
pub open spec fn escape_char(c: char, kind: u8) -> Seq<char> {
    if kind == 0 {
        if c == '&' {
            "&amp;"@
        } else if c == '<' {
            "&lt;"@
        } else if c == '>' {
            "&gt;"@
        } else if c == '"' {
            "&quot;"@
        } else if c == '\'' {
            "&apos;"@
        } else {
            seq![c]
        }
    } else if kind == 1 {
        if c == '\\' {
            "\\\\"@
        } else if c == '"' {
            "\\\""@
        } else if c == '\n' {
            "\\n"@
        } else if c == '\r' {
            "\\r"@
        } else if c == '\t' {
            "\\t"@
        } else {
            seq![c]
        }
    } else {
        if c == '%' {
            "%25"@
        } else if c == '\n' {
            "%0A"@
        } else if c == '\r' {
            "%0D"@
        } else {
            seq![c]
        }
    }
}

/// `s` with every character rewritten by `escape_char`.
pub open spec fn escaped(s: Seq<char>, kind: u8) -> Seq<char>
    decreases s.len(),
{
    if s.len() == 0 {
        Seq::empty()
    } else {
        escaped(s.drop_last(), kind) + escape_char(s.last(), kind)
    }
}

/// XML escaping of `&`, `<`, `>`, `"` and `'`.
pub open spec fn escape_xml_text(s: Seq<char>) -> Seq<char> {
    escaped(s, 0)
}

/// JSON string escaping of `\`, `"`, newline, carriage return and tab.
pub open spec fn escape_json_text(s: Seq<char>) -> Seq<char> {
    escaped(s, 1)
}

/// GitHub annotation escaping of `%`, newline and carriage return.
pub open spec fn escape_github_text(s: Seq<char>) -> Seq<char> {
    escaped(s, 2)
}

/// No character of `t` is one of `cs`.
pub open spec fn free_of(t: Seq<char>, cs: Seq<char>) -> bool {
    forall|i: int| 0 <= i < t.len() ==> !cs.contains(#[trigger] t[i])
}

proof fn lemma_escaped_free_of(s: Seq<char>, kind: u8, cs: Seq<char>)
    requires
        forall|c: char| #[trigger] free_of(escape_char(c, kind), cs),
    ensures
        free_of(escaped(s, kind), cs),
    decreases s.len(),
{
    if s.len() > 0 {
        lemma_escaped_free_of(s.drop_last(), kind, cs);
        let a = escaped(s.drop_last(), kind);
        let b = escape_char(s.last(), kind);
        assert(free_of(b, cs));
        assert forall|i: int| 0 <= i < (a + b).len() implies !cs.contains(#[trigger] (a + b)[i]) by {
            if i < a.len() {
                assert((a + b)[i] == a[i]);
            } else {
                assert((a + b)[i] == b[i - a.len()]);
            }
        }
    }
}

/// XML escaping leaves no markup character: no `<`, `>`, `"` or `'`.
pub proof fn lemma_xml_escape_has_no_markup(s: Seq<char>)
    ensures
        free_of(escape_xml_text(s), seq!['<', '>', '"', '\'']),
{
    let cs = seq!['<', '>', '"', '\''];
    reveal_strlit("&amp;");
    reveal_strlit("&lt;");
    reveal_strlit("&gt;");
    reveal_strlit("&quot;");
    reveal_strlit("&apos;");
    assert forall|c: char| #[trigger] free_of(escape_char(c, 0), cs) by {
        let t = escape_char(c, 0);
        assert forall|i: int| 0 <= i < t.len() implies !cs.contains(#[trigger] t[i]) by {
            if cs.contains(t[i]) {
                let k = choose|k: int| 0 <= k < cs.len() && cs[k] == t[i];
                assert(k == 0 || k == 1 || k == 2 || k == 3);
            }
        }
    }
    lemma_escaped_free_of(s, 0, cs);
}

/// JSON escaping leaves no raw newline, carriage return or tab.
pub proof fn lemma_json_escape_is_one_line(s: Seq<char>)
    ensures
        free_of(escape_json_text(s), seq!['\n', '\r', '\t']),
{
    let cs = seq!['\n', '\r', '\t'];
    reveal_strlit("\\\\");
    reveal_strlit("\\\"");
    reveal_strlit("\\n");
    reveal_strlit("\\r");
    reveal_strlit("\\t");
    assert forall|c: char| #[trigger] free_of(escape_char(c, 1), cs) by {
        let t = escape_char(c, 1);
        assert forall|i: int| 0 <= i < t.len() implies !cs.contains(#[trigger] t[i]) by {
            if cs.contains(t[i]) {
                let k = choose|k: int| 0 <= k < cs.len() && cs[k] == t[i];
                assert(k == 0 || k == 1 || k == 2);
            }
        }
    }
    lemma_escaped_free_of(s, 1, cs);
}

/// GitHub annotation escaping leaves no raw newline or carriage return.
pub proof fn lemma_github_escape_is_one_line(s: Seq<char>)
    ensures
        free_of(escape_github_text(s), seq!['\n', '\r']),
{
    let cs = seq!['\n', '\r'];
    reveal_strlit("%25");
    reveal_strlit("%0A");
    reveal_strlit("%0D");
    assert forall|c: char| #[trigger] free_of(escape_char(c, 2), cs) by {
        let t = escape_char(c, 2);
        assert forall|i: int| 0 <= i < t.len() implies !cs.contains(#[trigger] t[i]) by {
            if cs.contains(t[i]) {
                let k = choose|k: int| 0 <= k < cs.len() && cs[k] == t[i];
                assert(k == 0 || k == 1);
            }
        }
    }
    lemma_escaped_free_of(s, 2, cs);
}

#[verifier::spinoff_prover]
fn push_escape_char(out: &mut Vec<char>, c: char, kind: u8)
    ensures
        final(out)@ == old(out)@ + escape_char(c, kind),
{
    if kind == 0 {
        if c == '&' {
            push_str(out, "&amp;");
        } else if c == '<' {
            push_str(out, "&lt;");
        } else if c == '>' {
            push_str(out, "&gt;");
        } else if c == '"' {
            push_str(out, "&quot;");
        } else if c == '\'' {
            push_str(out, "&apos;");
        } else {
            out.push(c);
            proof {
                assert(final(out)@ =~= old(out)@ + seq![c]);
            }
        }
    } else if kind == 1 {
        if c == '\\' {
            push_str(out, "\\\\");
        } else if c == '"' {
            push_str(out, "\\\"");
        } else if c == '\n' {
            push_str(out, "\\n");
        } else if c == '\r' {
            push_str(out, "\\r");
        } else if c == '\t' {
            push_str(out, "\\t");
        } else {
            out.push(c);
            proof {
                assert(final(out)@ =~= old(out)@ + seq![c]);
            }
        }
    } else {
        if c == '%' {
            push_str(out, "%25");
        } else if c == '\n' {
            push_str(out, "%0A");
        } else if c == '\r' {
            push_str(out, "%0D");
        } else {
            out.push(c);
            proof {
                assert(final(out)@ =~= old(out)@ + seq![c]);
            }
        }
    }
}

/// Appends `s` escaped for the given target.
pub fn push_escaped(out: &mut Vec<char>, s: &str, kind: u8)
    ensures
        final(out)@ == old(out)@ + escaped(s@, kind),
{
    let v = chars_of(s);
    let ghost start = out@;
    let mut i: usize = 0;
    while i < v.len()
        invariant
            i <= v.len(),
            v@ == s@,
            out@ == start + escaped(v@.take(i as int), kind),
        decreases v.len() - i,
    {
        proof {
            assert(v@.take(i + 1).drop_last() =~= v@.take(i as int));
            assert(v@.take(i + 1).last() == v@[i as int]);
        }
        let ghost before = out@;
        push_escape_char(out, v[i], kind);
        proof {
            assert(out@ =~= start + escaped(v@.take(i + 1), kind));
        }
        i = i + 1;
    }
    proof {
        assert(v@.take(i as int) =~= s@);
    }
}

/// XML escaping of `&`, `<`, `>`, `"` and `'`.
pub fn escape_xml(s: &str) -> (r: String)
    ensures
        r@ == escape_xml_text(s@),
{
    let mut out: Vec<char> = Vec::new();
    push_escaped(&mut out, s, 0);
    proof {
        assert(out@ =~= escape_xml_text(s@));
    }
    string_from_chars(&out)
}

/// JSON string escaping.
pub fn escape_json(s: &str) -> (r: String)
    ensures
        r@ == escape_json_text(s@),
{
    let mut out: Vec<char> = Vec::new();
    push_escaped(&mut out, s, 1);
    proof {
        assert(out@ =~= escape_json_text(s@));
    }
    string_from_chars(&out)
}

/// GitHub annotation escaping.
pub fn escape_github(s: &str) -> (r: String)
    ensures
        r@ == escape_github_text(s@),
{
    let mut out: Vec<char> = Vec::new();
    push_escaped(&mut out, s, 2);
    proof {
        assert(out@ =~= escape_github_text(s@));
    }
    string_from_chars(&out)
}

/// Appends `s`, in colour `code` when `enabled`.
#[verifier::spinoff_prover]
pub(crate) fn push_coloured(out: &mut Vec<char>, s: &Vec<char>, code: &str, enabled: bool)
    ensures
        final(out)@ == old(out)@ + coloured(s@, code@, enabled),
{
    if enabled {
        push_str(out, "\x1b[");
        push_str(out, code);
        push_str(out, "m");
        push_chars(out, s);
        push_str(out, "\x1b[0m");
    } else {
        push_chars(out, s);
    }
    proof {
        assert(final(out)@ =~= old(out)@ + coloured(s@, code@, enabled));
    }
}

/// Appends each line of `text`, indented.
#[verifier::spinoff_prover]
fn push_indented_lines(out: &mut Vec<char>, text: &str, indent: &str)
    ensures
        final(out)@ == old(out)@ + indented_lines(lines(text@), indent@),
{
    let v = chars_of(text);
    let ls = split_lines(&v);
    let ghost start = out@;
    let mut i: usize = 0;
    while i < ls.len()
        invariant
            i <= ls.len(),
            views(ls@) == lines(text@),
            out@ == start + indented_lines(views(ls@).take(i as int), indent@),
        decreases ls.len() - i,
    {
        proof {
            assert(views(ls@).take(i + 1).drop_last() =~= views(ls@).take(i as int));
            assert(views(ls@).take(i + 1).last() == ls@[i as int]@);
        }
        push_str(out, indent);
        push_chars(out, &ls[i]);
        push_str(out, "\n");
        proof {
            assert(out@ =~= start + indented_lines(views(ls@).take(i + 1), indent@));
        }
        i = i + 1;
    }
    proof {
        assert(views(ls@).take(i as int) =~= lines(text@));
    }
}

#[verifier::spinoff_prover]
fn push_location(out: &mut Vec<char>, loc: &SourceLocation)
    ensures
        final(out)@ == old(out)@ + location_text(*loc),
{
    push_str(out, loc.file.as_str());
    push_str(out, ":");
    push_dec(out, loc.line as u128);
    match loc.column {
        Some(c) => {
            push_str(out, ":");
            push_dec(out, c as u128);
        },
        None => {},
    }
    proof {
        assert(final(out)@ =~= old(out)@ + location_text(*loc));
    }
}

// ---------------------------------------------------------------------------
// TapReporter — Test Anything Protocol
// ---------------------------------------------------------------------------

/// The TAP detail lines under a test.
pub open spec fn tap_detail(s: TestStatus) -> Seq<char> {
    match s {
        TestStatus::Failed { reason, .. } => indented_lines(lines(reason@), "  "@),
        TestStatus::TimedOut { duration, .. } => "  # TIMEOUT after "@ + debug_duration(duration@) + "\n"@,
        TestStatus::Skipped { reason } => "  # SKIP "@ + match reason {
            Some(r) => r@,
            None => "no reason given"@,
        } + "\n"@,
        TestStatus::Passed => Seq::empty(),
    }
}

/// The TAP lines of the test numbered `index`.
pub open spec fn tap_test(t: TestCase, index: nat) -> Seq<char> {
    (if t.status is Passed { "ok"@ } else { "not ok"@ }) + " "@ + dec(index) + " - "@ + t.name@ + " ["@
        + millis_fixed1(t.duration@) + "ms]\n"@ + tap_detail(t.status)
}

/// The TAP lines of `ts`, numbered from `base + 1`.
pub open spec fn tap_tests(ts: Seq<TestCase>, base: nat) -> Seq<char>
    decreases ts.len(),
{
    if ts.len() == 0 {
        Seq::empty()
    } else {
        tap_tests(ts.drop_last(), base) + tap_test(ts.last(), base + ts.len())
    }
}

/// The TAP lines of all suites, numbered consecutively from 1.
pub open spec fn tap_suites(suites: Seq<TestSuite>) -> Seq<char>
    decreases suites.len(),
{
    if suites.len() == 0 {
        Seq::empty()
    } else {
        tap_suites(suites.drop_last()) + tap_tests(suites.last().tests@, total_cases(suites.drop_last()))
    }
}

/// The whole TAP document: the plan line `1..N`, then one entry per test.
pub open spec fn tap_text(run: TestRun) -> Seq<char> {
    "1.."@ + dec(total_cases(run.suites@)) + "\n"@ + tap_suites(run.suites@)
}

/// The cases of all suites, in order.
pub open spec fn all_cases(suites: Seq<TestSuite>) -> Seq<TestCase>
    decreases suites.len(),
{
    if suites.len() == 0 {
        Seq::empty()
    } else {
        all_cases(suites.drop_last()) + suites.last().tests@
    }
}

proof fn lemma_tap_tests_append(a: Seq<TestCase>, b: Seq<TestCase>, base: nat)
    ensures
        tap_tests(a + b, base) == tap_tests(a, base) + tap_tests(b, base + a.len()),
    decreases b.len(),
{
    if b.len() == 0 {
        assert(a + b =~= a);
        assert(tap_tests(a, base) + Seq::<char>::empty() =~= tap_tests(a, base));
    } else {
        assert((a + b).drop_last() =~= a + b.drop_last());
        assert((a + b).last() == b.last());
        lemma_tap_tests_append(a, b.drop_last(), base);
        assert(base + (a + b).len() == (base + a.len()) + b.len());
    }
}

/// A TAP report is valid: its plan line `1..N` counts all the cases of the
/// run, and the test points that follow are the cases in order, numbered
/// `1` to `N`.
pub proof fn lemma_tap_plan_counts_points(run: TestRun)
    ensures
        all_cases(run.suites@).len() == total_cases(run.suites@),
        tap_text(run) == "1.."@ + dec(all_cases(run.suites@).len()) + "\n"@ + tap_tests(all_cases(run.suites@), 0),
{
    lemma_tap_suites_flat(run.suites@);
}

proof fn lemma_tap_suites_flat(suites: Seq<TestSuite>)
    ensures
        all_cases(suites).len() == total_cases(suites),
        tap_suites(suites) == tap_tests(all_cases(suites), 0),
    decreases suites.len(),
{
    if suites.len() > 0 {
        lemma_tap_suites_flat(suites.drop_last());
        lemma_tap_tests_append(all_cases(suites.drop_last()), suites.last().tests@, 0);
    }
}

#[verifier::spinoff_prover]
fn push_tap_test(out: &mut Vec<char>, t: &TestCase, index: usize)
    ensures
        final(out)@ == old(out)@ + tap_test(*t, index as nat),
{
    if t.status.is_passed() {
        push_str(out, "ok");
    } else {
        push_str(out, "not ok");
    }
    push_str(out, " ");
    push_dec(out, index as u128);
    push_str(out, " - ");
    push_str(out, t.name.as_str());
    push_str(out, " [");
    t.duration.push_millis_fixed1(out);
    push_str(out, "ms]\n");
    match &t.status {
        TestStatus::Failed { reason, .. } => {
            push_indented_lines(out, reason.as_str(), "  ");
        },
        TestStatus::TimedOut { duration, .. } => {
            push_str(out, "  # TIMEOUT after ");
            duration.push_debug(out);
            push_str(out, "\n");
        },
        TestStatus::Skipped { reason } => {
            push_str(out, "  # SKIP ");
            match reason {
                Some(r) => push_str(out, r.as_str()),
                None => push_str(out, "no reason given"),
            }
            push_str(out, "\n");
        },
        TestStatus::Passed => {},
    }
    proof {
        assert(final(out)@ =~= old(out)@ + tap_test(*t, index as nat));
    }
}

/// Reporter that emits TAP (Test Anything Protocol) output.
///
/// TAP is a simple line-based protocol widely used in the Perl and
/// JavaScript ecosystems and supported by many CI tools.
pub struct TapReporter;

impl TapReporter {
    /// The TAP document of `run`.
    pub fn render(&self, run: &TestRun) -> (r: String)
        requires
            run.fits(),
        ensures
            r@ == tap_text(*run),
    {
        let mut out: Vec<char> = Vec::new();
        let total = run.total();
        push_str(&mut out, "1..");
        push_dec(&mut out, total as u128);
        push_str(&mut out, "\n");
        let ghost head = out@;
        let mut index: usize = 0;
        let mut si: usize = 0;
        while si < run.suites.len()
            invariant
                si <= run.suites.len(),
                run.fits(),
                index == total_cases(run.suites@.take(si as int)),
                out@ == head + tap_suites(run.suites@.take(si as int)),
            decreases run.suites.len() - si,
        {
            let suite = &run.suites[si];
            proof {
                assert(run.suites@.take(si + 1).drop_last() =~= run.suites@.take(si as int));
                crate::model::lemma_total_prefix(run.suites@, si + 1);
            }
            let ghost base = index as nat;
            let ghost mid = out@;
            let mut ti: usize = 0;
            while ti < suite.tests.len()
                invariant
                    ti <= suite.tests.len(),
                    index == base + ti,
                    base + suite.tests@.len() <= usize::MAX,
                    out@ == mid + tap_tests(suite.tests@.take(ti as int), base),
                decreases suite.tests.len() - ti,
            {
                proof {
                    assert(suite.tests@.take(ti + 1).drop_last() =~= suite.tests@.take(ti as int));
                    assert(suite.tests@.take(ti + 1).last() == suite.tests@[ti as int]);
                }
                index = index + 1;
                push_tap_test(&mut out, &suite.tests[ti], index);
                ti = ti + 1;
            }
            proof {
                assert(suite.tests@.take(ti as int) =~= suite.tests@);
                assert(run.suites@.take(si + 1).last() == *suite);
            }
            si = si + 1;
        }
        proof {
            assert(run.suites@.take(si as int) =~= run.suites@);
            assert(out@ =~= tap_text(*run));
        }
        string_from_chars(&out)
    }
}

impl TestReporter for TapReporter {
    fn report(&self, run: &TestRun) -> (r: String)
        ensures
            r@ == tap_text(*run),
    {
        self.render(run)
    }
}

// ---------------------------------------------------------------------------
// CompactReporter — one line per test
// ---------------------------------------------------------------------------

/// The four-letter word for a status.
pub open spec fn status_word(s: TestStatus) -> Seq<char> {
    match s {
        TestStatus::Passed => "PASS"@,
        TestStatus::Failed { .. } => "FAIL"@,
        TestStatus::Skipped { .. } => "SKIP"@,
        TestStatus::TimedOut { .. } => "TIMEOUT"@,
    }
}

/// One compact line: status, right-aligned duration, name.
pub open spec fn compact_test(t: TestCase) -> Seq<char> {
    status_word(t.status) + "  "@ + pad_left(short_duration(t.duration@), 7) + "  "@ + t.name@ + "\n"@
}

/// The compact lines of `ts`.
pub open spec fn compact_tests(ts: Seq<TestCase>) -> Seq<char>
    decreases ts.len(),
{
    if ts.len() == 0 { Seq::empty() } else { compact_tests(ts.drop_last()) + compact_test(ts.last()) }
}

/// The compact lines of all suites.
pub open spec fn compact_suites(suites: Seq<TestSuite>) -> Seq<char>
    decreases suites.len(),
{
    if suites.len() == 0 {
        Seq::empty()
    } else {
        compact_suites(suites.drop_last()) + compact_tests(suites.last().tests@)
    }
}

proof fn lemma_compact_tests_append(a: Seq<TestCase>, b: Seq<TestCase>)
    ensures
        compact_tests(a + b) == compact_tests(a) + compact_tests(b),
    decreases b.len(),
{
    if b.len() == 0 {
        assert(a + b =~= a);
        assert(compact_tests(a) + Seq::<char>::empty() =~= compact_tests(a));
    } else {
        assert((a + b).drop_last() =~= a + b.drop_last());
        assert((a + b).last() == b.last());
        lemma_compact_tests_append(a, b.drop_last());
    }
}

proof fn lemma_compact_suites_flat(suites: Seq<TestSuite>)
    ensures
        compact_suites(suites) == compact_tests(all_cases(suites)),
    decreases suites.len(),
{
    if suites.len() > 0 {
        lemma_compact_suites_flat(suites.drop_last());
        lemma_compact_tests_append(all_cases(suites.drop_last()), suites.last().tests@);
    }
}

/// The compact report shows every test: one line per case of the run, in
/// order, whatever its status, then the results line.
pub proof fn lemma_compact_shows_all_tests(run: TestRun)
    ensures
        compact_text(run) == compact_tests(all_cases(run.suites@)) + "\nResults: "@ + counts_line(run),
{
    lemma_compact_suites_flat(run.suites@);
}

/// `P/T passed, F failed, S skipped  (D.DDs)` closing the compact and GitHub reports.
pub open spec fn counts_line(run: TestRun) -> Seq<char> {
    dec(total_passed_cases(run.suites@)) + "/"@ + dec(total_cases(run.suites@)) + " passed, "@
        + dec(total_failed_cases(run.suites@)) + " failed, "@ + dec(total_skipped_cases(run.suites@))
        + " skipped  ("@ + secs_fixed(run.duration@, 2) + "s)\n"@
}

/// The whole compact report.
pub open spec fn compact_text(run: TestRun) -> Seq<char> {
    compact_suites(run.suites@) + "\nResults: "@ + counts_line(run)
}

#[verifier::spinoff_prover]
fn push_counts_line(out: &mut Vec<char>, run: &TestRun)
    requires
        run.fits(),
    ensures
        final(out)@ == old(out)@ + counts_line(*run),
{
    push_dec(out, run.total_passed() as u128);
    push_str(out, "/");
    push_dec(out, run.total() as u128);
    push_str(out, " passed, ");
    push_dec(out, run.total_failed() as u128);
    push_str(out, " failed, ");
    push_dec(out, run.total_skipped() as u128);
    push_str(out, " skipped  (");
    run.duration.push_secs_fixed(out, 2);
    push_str(out, "s)\n");
    proof {
        assert(final(out)@ =~= old(out)@ + counts_line(*run));
    }
}

#[verifier::spinoff_prover]
fn push_status_word(out: &mut Vec<char>, s: &TestStatus)
    ensures
        final(out)@ == old(out)@ + status_word(*s),
{
    match s {
        TestStatus::Passed => push_str(out, "PASS"),
        TestStatus::Failed { .. } => push_str(out, "FAIL"),
        TestStatus::Skipped { .. } => push_str(out, "SKIP"),
        TestStatus::TimedOut { .. } => push_str(out, "TIMEOUT"),
    }
}

#[verifier::spinoff_prover]
fn push_compact_test(out: &mut Vec<char>, t: &TestCase)
    ensures
        final(out)@ == old(out)@ + compact_test(*t),
{
    push_status_word(out, &t.status);
    push_str(out, "  ");
    let mut d: Vec<char> = Vec::new();
    t.duration.push_short(&mut d);
    proof {
        assert(d@ =~= short_duration(t.duration@));
    }
    push_padded_left(out, &d, 7);
    push_str(out, "  ");
    push_str(out, t.name.as_str());
    push_str(out, "\n");
    proof {
        assert(final(out)@ =~= old(out)@ + compact_test(*t));
    }
}

/// Minimal, single-line-per-test reporter suitable for quick feedback.
pub struct CompactReporter;

impl CompactReporter {
    /// The compact report of `run`.
    pub fn render(&self, run: &TestRun) -> (r: String)
        requires
            run.fits(),
        ensures
            r@ == compact_text(*run),
    {
        let mut out: Vec<char> = Vec::new();
        let mut si: usize = 0;
        while si < run.suites.len()
            invariant
                si <= run.suites.len(),
                out@ == compact_suites(run.suites@.take(si as int)),
            decreases run.suites.len() - si,
        {
            let suite = &run.suites[si];
            proof {
                assert(run.suites@.take(si + 1).drop_last() =~= run.suites@.take(si as int));
                assert(run.suites@.take(si + 1).last() == *suite);
            }
            let ghost mid = out@;
            let mut ti: usize = 0;
            while ti < suite.tests.len()
                invariant
                    ti <= suite.tests.len(),
                    out@ == mid + compact_tests(suite.tests@.take(ti as int)),
                decreases suite.tests.len() - ti,
            {
                proof {
                    assert(suite.tests@.take(ti + 1).drop_last() =~= suite.tests@.take(ti as int));
                    assert(suite.tests@.take(ti + 1).last() == suite.tests@[ti as int]);
                }
                push_compact_test(&mut out, &suite.tests[ti]);
                ti = ti + 1;
            }
            proof {
                assert(suite.tests@.take(ti as int) =~= suite.tests@);
            }
            si = si + 1;
        }
        proof {
            assert(run.suites@.take(si as int) =~= run.suites@);
        }
        push_str(&mut out, "\nResults: ");
        push_counts_line(&mut out, run);
        proof {
            assert(out@ =~= compact_text(*run));
        }
        string_from_chars(&out)
    }
}

impl TestReporter for CompactReporter {
    fn report(&self, run: &TestRun) -> (r: String)
        ensures
            r@ == compact_text(*run),
    {
        self.render(run)
    }
}


// ---------------------------------------------------------------------------
// PrettyReporter — colourful, human-friendly output
// ---------------------------------------------------------------------------

/// The width of the pretty reporter's rules and headers.
pub open spec fn rule_width() -> nat {
    58
}

/// A suite header: the name centred in a rule of `─`.
pub open spec fn header_line(name: Seq<char>) -> Seq<char> {
    let header = "  "@ + name + "  "@;
    let pad: nat = if header.len() >= rule_width() { 0 } else { (rule_width() - header.len()) as nat };
    let left = pad / 2;
    let right = (pad - left) as nat;
    repeat("\u{2500}"@, left) + header + repeat("\u{2500}"@, right)
}

/// The icon and label of a status.
pub open spec fn badge_icon(s: TestStatus, colour: bool) -> Seq<char> {
    match s {
        TestStatus::Passed => coloured("\u{2713}"@, "32"@, colour),
        TestStatus::Failed { .. } => coloured("\u{2717}"@, "31"@, colour),
        TestStatus::Skipped { .. } => coloured("\u{2013}"@, "33"@, colour),
        TestStatus::TimedOut { .. } => coloured("\u{2297}"@, "31"@, colour),
    }
}

pub open spec fn badge_label(s: TestStatus, colour: bool) -> Seq<char> {
    match s {
        TestStatus::Passed => coloured("PASS"@, "32"@, colour),
        TestStatus::Failed { .. } => coloured("FAIL"@, "31"@, colour),
        TestStatus::Skipped { .. } => coloured("SKIP"@, "33"@, colour),
        TestStatus::TimedOut { .. } => coloured("TIMEOUT"@, "31"@, colour),
    }
}

/// The indented `at file:line` line, when a location is known.
pub open spec fn at_line(loc: Option<SourceLocation>, colour: bool) -> Seq<char> {
    match loc {
        Some(l) => "         "@ + dim("at"@, colour) + "  "@ + coloured(location_text(l), "36"@, colour) + "\n"@,
        None => Seq::empty(),
    }
}

/// The detail lines under a failed or timed-out test.
pub open spec fn pretty_detail(s: TestStatus, colour: bool) -> Seq<char> {
    match s {
        TestStatus::Failed { reason, location } => at_line(location, colour)
            + indented_lines(lines(reason@), "         "@),
        TestStatus::TimedOut { duration, location } => "         "@ + dim("timed out after"@, colour) + " "@
            + debug_duration(duration@) + "\n"@ + at_line(location, colour),
        _ => Seq::empty(),
    }
}

/// The first line of a test's entry: badge, name and duration.
pub open spec fn pretty_head(t: TestCase, colour: bool) -> Seq<char> {
    "  "@ + badge_icon(t.status, colour) + " "@ + badge_label(t.status, colour) + "  "@ + t.name@ + "  "@
        + short_duration(t.duration@) + "\n"@
}

/// The entry of one test (passing tests only when verbose).
pub open spec fn pretty_test(t: TestCase, verbose: bool, colour: bool) -> Seq<char> {
    if !verbose && t.status is Passed {
        Seq::empty()
    } else {
        pretty_head(t, colour) + pretty_detail(t.status, colour)
    }
}

pub open spec fn pretty_tests(ts: Seq<TestCase>, verbose: bool, colour: bool) -> Seq<char>
    decreases ts.len(),
{
    if ts.len() == 0 {
        Seq::empty()
    } else {
        pretty_tests(ts.drop_last(), verbose, colour) + pretty_test(ts.last(), verbose, colour)
    }
}

pub open spec fn pretty_suite(s: TestSuite, verbose: bool, colour: bool) -> Seq<char> {
    "\n"@ + header_line(s.name@) + "\n"@ + pretty_tests(s.tests@, verbose, colour)
}

pub open spec fn pretty_suites(suites: Seq<TestSuite>, verbose: bool, colour: bool) -> Seq<char>
    decreases suites.len(),
{
    if suites.len() == 0 {
        Seq::empty()
    } else {
        pretty_suites(suites.drop_last(), verbose, colour) + pretty_suite(suites.last(), verbose, colour)
    }
}

/// The cases of `ts` that did not pass, in order.
pub open spec fn unpassed_cases(ts: Seq<TestCase>) -> Seq<TestCase>
    decreases ts.len(),
{
    if ts.len() == 0 {
        Seq::empty()
    } else if ts.last().status is Passed {
        unpassed_cases(ts.drop_last())
    } else {
        unpassed_cases(ts.drop_last()).push(ts.last())
    }
}

/// Unless verbose, the pretty report lists exactly the tests that did not
/// pass: its listing is the verbose listing of those tests alone.
pub proof fn lemma_pretty_hides_passing(ts: Seq<TestCase>, colour: bool)
    ensures
        pretty_tests(ts, false, colour) == pretty_tests(unpassed_cases(ts), true, colour),
    decreases ts.len(),
{
    if ts.len() > 0 {
        lemma_pretty_hides_passing(ts.drop_last(), colour);
        let u = unpassed_cases(ts.drop_last());
        if ts.last().status is Passed {
            assert(pretty_tests(ts, false, colour) =~= pretty_tests(ts.drop_last(), false, colour));
        } else {
            assert(u.push(ts.last()).drop_last() =~= u);
            assert(u.push(ts.last()).last() == ts.last());
        }
    }
}

/// `N label` with the count coloured.
pub open spec fn coloured_count(n: nat, label: Seq<char>, code: Seq<char>, colour: bool) -> Seq<char> {
    coloured(dec(n), code, colour) + " "@ + label
}

/// The closing summary: a rule, then status, tallies, total and duration.
pub open spec fn pretty_summary(run: TestRun, colour: bool) -> Seq<char> {
    "\n"@ + repeat("\u{2500}"@, rule_width()) + "\n"@ + "  "@
        + (if run_success(run.suites@) { coloured("ok"@, "32"@, colour) } else { coloured("FAILED"@, "31"@, colour) })
        + "  "@ + pretty_tallies(run, colour)
        + "  \u{2502}  "@ + dec(total_cases(run.suites@)) + " total  \u{2502}  "@
        + secs_fixed(run.duration@, 2) + "s\n"@
}

/// The whole pretty report.
pub open spec fn pretty_text(run: TestRun, verbose: bool, colour: bool) -> Seq<char> {
    pretty_suites(run.suites@, verbose, colour) + pretty_summary(run, colour)
}

#[verifier::spinoff_prover]
fn push_repeat(out: &mut Vec<char>, s: &str, n: usize)
    ensures
        final(out)@ == old(out)@ + repeat(s@, n as nat),
{
    let ghost start = out@;
    let mut i: usize = 0;
    while i < n
        invariant
            i <= n,
            out@ == start + repeat(s@, i as nat),
        decreases n - i,
    {
        push_str(out, s);
        proof {
            assert(out@ =~= start + repeat(s@, (i + 1) as nat));
        }
        i = i + 1;
    }
}

#[verifier::spinoff_prover]
fn push_literal_coloured(out: &mut Vec<char>, s: &str, code: &str, enabled: bool)
    ensures
        final(out)@ == old(out)@ + coloured(s@, code@, enabled),
{
    let v = chars_of(s);
    push_coloured(out, &v, code, enabled);
}

#[verifier::spinoff_prover]
fn push_header_line(out: &mut Vec<char>, name: &String)
    ensures
        final(out)@ == old(out)@ + header_line(name@),
{
    let mut header: Vec<char> = Vec::new();
    push_str(&mut header, "  ");
    push_str(&mut header, name.as_str());
    push_str(&mut header, "  ");
    let pad: usize = if header.len() >= 58 { 0 } else { 58 - header.len() };
    let left = pad / 2;
    let right = pad - left;
    proof {
        assert(header@ =~= "  "@ + name@ + "  "@);
    }
    push_repeat(out, "\u{2500}", left);
    push_chars(out, &header);
    push_repeat(out, "\u{2500}", right);
    proof {
        assert(final(out)@ =~= old(out)@ + header_line(name@));
    }
}

#[verifier::spinoff_prover]
fn push_badge(out: &mut Vec<char>, s: &TestStatus, colour: bool)
    ensures
        final(out)@ == old(out)@ + badge_icon(*s, colour) + " "@ + badge_label(*s, colour),
{
    match s {
        TestStatus::Passed => {
            push_literal_coloured(out, "\u{2713}", "32", colour);
            push_str(out, " ");
            push_literal_coloured(out, "PASS", "32", colour);
        },
        TestStatus::Failed { .. } => {
            push_literal_coloured(out, "\u{2717}", "31", colour);
            push_str(out, " ");
            push_literal_coloured(out, "FAIL", "31", colour);
        },
        TestStatus::Skipped { .. } => {
            push_literal_coloured(out, "\u{2013}", "33", colour);
            push_str(out, " ");
            push_literal_coloured(out, "SKIP", "33", colour);
        },
        TestStatus::TimedOut { .. } => {
            push_literal_coloured(out, "\u{2297}", "31", colour);
            push_str(out, " ");
            push_literal_coloured(out, "TIMEOUT", "31", colour);
        },
    }
    proof {
        assert(final(out)@ =~= old(out)@ + badge_icon(*s, colour) + " "@ + badge_label(*s, colour));
    }
}

#[verifier::spinoff_prover]
fn push_at_line(out: &mut Vec<char>, loc: &Option<SourceLocation>, colour: bool)
    ensures
        final(out)@ == old(out)@ + at_line(*loc, colour),
{
    match loc {
        Some(l) => {
            push_str(out, "         ");
            push_literal_coloured(out, "at", "2", colour);
            push_str(out, "  ");
            let mut lv: Vec<char> = Vec::new();
            push_location(&mut lv, l);
            proof {
                assert(lv@ =~= location_text(*l));
            }
            push_coloured(out, &lv, "36", colour);
            push_str(out, "\n");
        },
        None => {},
    }
    proof {
        assert(final(out)@ =~= old(out)@ + at_line(*loc, colour));
    }
}

#[verifier::spinoff_prover]
fn push_pretty_detail(out: &mut Vec<char>, s: &TestStatus, colour: bool)
    ensures
        final(out)@ == old(out)@ + pretty_detail(*s, colour),
{
    match s {
        TestStatus::Failed { reason, location } => {
            push_at_line(out, location, colour);
            push_indented_lines(out, reason.as_str(), "         ");
        },
        TestStatus::TimedOut { duration, location } => {
            push_str(out, "         ");
            push_literal_coloured(out, "timed out after", "2", colour);
            push_str(out, " ");
            duration.push_debug(out);
            push_str(out, "\n");
            push_at_line(out, location, colour);
        },
        _ => {},
    }
    proof {
        assert(final(out)@ =~= old(out)@ + pretty_detail(*s, colour));
    }
}

#[verifier::spinoff_prover]
fn push_pretty_head(out: &mut Vec<char>, t: &TestCase, colour: bool)
    ensures
        final(out)@ == old(out)@ + pretty_head(*t, colour),
{
    push_str(out, "  ");
    push_badge(out, &t.status, colour);
    push_str(out, "  ");
    push_str(out, t.name.as_str());
    push_str(out, "  ");
    t.duration.push_short(out);
    push_str(out, "\n");
    proof {
        assert(final(out)@ =~= old(out)@ + pretty_head(*t, colour));
    }
}

#[verifier::spinoff_prover]
fn push_pretty_test(out: &mut Vec<char>, t: &TestCase, verbose: bool, colour: bool)
    ensures
        final(out)@ == old(out)@ + pretty_test(*t, verbose, colour),
{
    if !verbose && t.status.is_passed() {
        proof {
            assert(final(out)@ =~= old(out)@ + pretty_test(*t, verbose, colour));
        }
        return;
    }
    push_pretty_head(out, t, colour);
    push_pretty_detail(out, &t.status, colour);
    proof {
        assert(final(out)@ =~= old(out)@ + pretty_test(*t, verbose, colour));
    }
}

#[verifier::spinoff_prover]
fn push_pretty_suite(out: &mut Vec<char>, suite: &TestSuite, verbose: bool, colour: bool)
    ensures
        final(out)@ == old(out)@ + pretty_suite(*suite, verbose, colour),
{
    push_str(out, "\n");
    push_header_line(out, &suite.name);
    push_str(out, "\n");
    let ghost mid = out@;
    let mut ti: usize = 0;
    while ti < suite.tests.len()
        invariant
            ti <= suite.tests.len(),
            out@ == mid + pretty_tests(suite.tests@.take(ti as int), verbose, colour),
        decreases suite.tests.len() - ti,
    {
        proof {
            assert(suite.tests@.take(ti + 1).drop_last() =~= suite.tests@.take(ti as int));
            assert(suite.tests@.take(ti + 1).last() == suite.tests@[ti as int]);
        }
        push_pretty_test(out, &suite.tests[ti], verbose, colour);
        ti = ti + 1;
    }
    proof {
        assert(suite.tests@.take(ti as int) =~= suite.tests@);
        assert(final(out)@ =~= old(out)@ + pretty_suite(*suite, verbose, colour));
    }
}

#[verifier::spinoff_prover]
fn push_coloured_count(out: &mut Vec<char>, n: usize, label: &str, code: &str, colour: bool)
    ensures
        final(out)@ == old(out)@ + coloured_count(n as nat, label@, code@, colour),
{
    let mut d: Vec<char> = Vec::new();
    push_dec(&mut d, n as u128);
    proof {
        assert(d@ =~= dec(n as nat));
    }
    push_coloured(out, &d, code, colour);
    push_str(out, " ");
    push_str(out, label);
    proof {
        assert(final(out)@ =~= old(out)@ + coloured_count(n as nat, label@, code@, colour));
    }
}

/// The tallies part of the pretty summary.
pub open spec fn pretty_tallies(run: TestRun, colour: bool) -> Seq<char> {
    coloured_count(total_passed_cases(run.suites@), "passed"@, "32"@, colour)
        + " \u{b7} "@ + coloured_count(total_failed_cases(run.suites@), "failed"@, "31"@, colour)
        + " \u{b7} "@ + coloured_count(total_skipped_cases(run.suites@), "skipped"@, "33"@, colour)
}

#[verifier::spinoff_prover]
fn push_pretty_tallies(out: &mut Vec<char>, run: &TestRun, colour: bool)
    requires
        run.fits(),
    ensures
        final(out)@ == old(out)@ + pretty_tallies(*run, colour),
{
    let passed = run.total_passed();
    let failed = run.total_failed();
    let skipped = run.total_skipped();
    push_coloured_count(out, passed, "passed", "32", colour);
    push_str(out, " \u{b7} ");
    push_coloured_count(out, failed, "failed", "31", colour);
    push_str(out, " \u{b7} ");
    push_coloured_count(out, skipped, "skipped", "33", colour);
    proof {
        assert(final(out)@ =~= old(out)@ + pretty_tallies(*run, colour));
    }
}

#[verifier::spinoff_prover]
fn push_pretty_summary(out: &mut Vec<char>, run: &TestRun, colour: bool)
    requires
        run.fits(),
    ensures
        final(out)@ == old(out)@ + pretty_summary(*run, colour),
{
    let total = run.total();
    let success = run.success();
    push_str(out, "\n");
    push_repeat(out, "\u{2500}", 58);
    push_str(out, "\n");
    push_str(out, "  ");
    if success {
        push_literal_coloured(out, "ok", "32", colour);
    } else {
        push_literal_coloured(out, "FAILED", "31", colour);
    }
    push_str(out, "  ");
    let ghost mid = out@;
    push_pretty_tallies(out, run, colour);
    push_str(out, "  \u{2502}  ");
    push_dec(out, total as u128);
    push_str(out, " total  \u{2502}  ");
    run.duration.push_secs_fixed(out, 2);
    push_str(out, "s\n");
    proof {
        assert(final(out)@ =~= old(out)@ + pretty_summary(*run, colour));
    }
}

/// Human-readable reporter with optional colour and verbosity.
pub struct PrettyReporter {
    verbose: bool,
    use_colour: bool,
}

impl PrettyReporter {
    /// Whether passing tests are listed too.
    pub closed spec fn is_verbose(&self) -> bool {
        self.verbose
    }

    /// Whether ANSI colour codes are emitted.
    pub closed spec fn colour_enabled(&self) -> bool {
        self.use_colour
    }

    /// Create a new `PrettyReporter`.
    ///
    /// When `verbose` is `true`, passing tests are also listed (by default
    /// only failures are shown in detail). Colour is on.
    pub fn new(verbose: bool) -> (r: PrettyReporter)
        ensures
            r.is_verbose() == verbose,
            r.colour_enabled(),
    {
        PrettyReporter { verbose, use_colour: true }
    }

    /// Enable or disable ANSI colour codes.
    pub fn colour(self, enabled: bool) -> (r: PrettyReporter)
        ensures
            r.is_verbose() == self.is_verbose(),
            r.colour_enabled() == enabled,
    {
        PrettyReporter { verbose: self.verbose, use_colour: enabled }
    }

    /// The pretty report of `run`.
    pub fn render(&self, run: &TestRun) -> (r: String)
        requires
            run.fits(),
        ensures
            r@ == pretty_text(*run, self.is_verbose(), self.colour_enabled()),
    {
        let verbose = self.verbose;
        let colour = self.use_colour;
        let mut out: Vec<char> = Vec::new();
        let mut si: usize = 0;
        while si < run.suites.len()
            invariant
                si <= run.suites.len(),
                out@ == pretty_suites(run.suites@.take(si as int), verbose, colour),
            decreases run.suites.len() - si,
        {
            let suite = &run.suites[si];
            proof {
                assert(run.suites@.take(si + 1).drop_last() =~= run.suites@.take(si as int));
                assert(run.suites@.take(si + 1).last() == *suite);
            }
            push_pretty_suite(&mut out, suite, verbose, colour);
            si = si + 1;
        }
        proof {
            assert(run.suites@.take(si as int) =~= run.suites@);
        }
        push_pretty_summary(&mut out, run, colour);
        proof {
            assert(out@ =~= pretty_text(*run, verbose, colour));
        }
        string_from_chars(&out)
    }
}

impl TestReporter for PrettyReporter {
    fn report(&self, run: &TestRun) -> (r: String)
        ensures
            r@ == pretty_text(*run, self.is_verbose(), self.colour_enabled()),
    {
        self.render(run)
    }
}


// ---------------------------------------------------------------------------
// JunitReporter — JUnit XML for CI integration
// ---------------------------------------------------------------------------

/// The class name a test is filed under.
pub open spec fn junit_class(t: TestCase) -> Seq<char> {
    match t.suite {
        Some(s) => s@,
        None => "root"@,
    }
}

/// The opening of a `<testcase>` element, up to (not including) its end.
pub open spec fn junit_case_open(t: TestCase) -> Seq<char> {
    "    <testcase classname=\""@ + escape_xml_text(junit_class(t)) + "\" name=\""@ + escape_xml_text(t.name@)
        + "\" time=\""@ + secs_fixed(t.duration@, 3) + "\""@
}

/// The `<testcase>` element of one test.
pub open spec fn junit_test(t: TestCase) -> Seq<char> {
    let close = "    </testcase>\n"@;
    match t.status {
        TestStatus::Passed => junit_case_open(t) + " />\n"@,
        TestStatus::Failed { reason, .. } => junit_case_open(t) + ">\n"@ + "      <failure message=\""@
            + escape_xml_text(reason@) + "\" type=\"AssertionError\"><![CDATA["@ + reason@ + "]]></failure>\n"@
            + close,
        TestStatus::Skipped { reason } => junit_case_open(t) + ">\n"@ + "      <skipped message=\""@
            + escape_xml_text(
            match reason {
                Some(r) => r@,
                None => "skipped"@,
            },
        ) + "\" />\n"@ + close,
        TestStatus::TimedOut { duration, .. } => junit_case_open(t) + ">\n"@
            + "      <failure message=\"timed out after "@ + debug_duration(duration@)
            + "\" type=\"TimeoutError\" />\n"@ + close,
    }
}

pub open spec fn junit_tests(ts: Seq<TestCase>) -> Seq<char>
    decreases ts.len(),
{
    if ts.len() == 0 { Seq::empty() } else { junit_tests(ts.drop_last()) + junit_test(ts.last()) }
}

/// The `<testsuite>` element of one suite.
pub open spec fn junit_suite(s: TestSuite) -> Seq<char> {
    junit_suite_open(s) + junit_tests(s.tests@) + "  </testsuite>\n"@
}

pub open spec fn junit_suites(suites: Seq<TestSuite>) -> Seq<char>
    decreases suites.len(),
{
    if suites.len() == 0 { Seq::empty() } else { junit_suites(suites.drop_last()) + junit_suite(suites.last()) }
}

/// The whole JUnit document; the top-level name is written as given.
pub open spec fn junit_text(run: TestRun, name: Seq<char>) -> Seq<char> {
    "<?xml version=\"1.0\" encoding=\"UTF-8\"?>\n"@ + "<testsuites name=\""@ + name + "\" tests=\""@
        + dec(total_cases(run.suites@)) + "\" failures=\""@ + dec(total_failed_cases(run.suites@))
        + "\" skipped=\""@ + dec(total_skipped_cases(run.suites@)) + "\" time=\""@
        + secs_fixed(run.duration@, 3) + "\">\n"@ + junit_suites(run.suites@) + "</testsuites>\n"@
}

#[verifier::spinoff_prover]
fn push_junit_case_open(out: &mut Vec<char>, t: &TestCase)
    ensures
        final(out)@ == old(out)@ + junit_case_open(*t),
{
    push_str(out, "    <testcase classname=\"");
    match &t.suite {
        Some(c) => push_escaped(out, c.as_str(), 0),
        None => push_escaped(out, "root", 0),
    }
    push_str(out, "\" name=\"");
    push_escaped(out, t.name.as_str(), 0);
    push_str(out, "\" time=\"");
    t.duration.push_secs_fixed(out, 3);
    push_str(out, "\"");
    proof {
        assert(final(out)@ =~= old(out)@ + junit_case_open(*t));
    }
}

#[verifier::spinoff_prover]
fn push_junit_test(out: &mut Vec<char>, t: &TestCase)
    ensures
        final(out)@ == old(out)@ + junit_test(*t),
{
    push_junit_case_open(out, t);
    let ghost mid = out@;
    match &t.status {
        TestStatus::Passed => {
            push_str(out, " />\n");
        },
        TestStatus::Failed { reason, .. } => {
            push_str(out, ">\n");
            push_str(out, "      <failure message=\"");
            push_escaped(out, reason.as_str(), 0);
            push_str(out, "\" type=\"AssertionError\"><![CDATA[");
            push_str(out, reason.as_str());
            push_str(out, "]]></failure>\n");
            push_str(out, "    </testcase>\n");
        },
        TestStatus::Skipped { reason } => {
            push_str(out, ">\n");
            push_str(out, "      <skipped message=\"");
            match reason {
                Some(r) => push_escaped(out, r.as_str(), 0),
                None => push_escaped(out, "skipped", 0),
            }
            push_str(out, "\" />\n");
            push_str(out, "    </testcase>\n");
        },
        TestStatus::TimedOut { duration, .. } => {
            push_str(out, ">\n");
            push_str(out, "      <failure message=\"timed out after ");
            duration.push_debug(out);
            push_str(out, "\" type=\"TimeoutError\" />\n");
            push_str(out, "    </testcase>\n");
        },
    }
    proof {
        assert(final(out)@ =~= old(out)@ + junit_test(*t));
    }
}

/// The opening `<testsuite>` tag of a suite.
pub open spec fn junit_suite_open(s: TestSuite) -> Seq<char> {
    "  <testsuite name=\""@ + escape_xml_text(s.name@) + "\" tests=\""@ + dec(s.tests@.len())
        + "\" failures=\""@ + dec(failed_cases(s.tests@).len()) + "\" skipped=\""@
        + dec(skipped_cases(s.tests@).len()) + "\" time=\""@ + secs_fixed(s.duration@, 3) + "\">\n"@
}

#[verifier::spinoff_prover]
fn push_junit_suite_open(out: &mut Vec<char>, suite: &TestSuite)
    ensures
        final(out)@ == old(out)@ + junit_suite_open(*suite),
{
    push_str(out, "  <testsuite name=\"");
    push_escaped(out, suite.name.as_str(), 0);
    push_str(out, "\" tests=\"");
    push_dec(out, suite.len() as u128);
    push_str(out, "\" failures=\"");
    push_dec(out, suite.failed().len() as u128);
    push_str(out, "\" skipped=\"");
    push_dec(out, suite.skipped().len() as u128);
    push_str(out, "\" time=\"");
    suite.duration.push_secs_fixed(out, 3);
    push_str(out, "\">\n");
    proof {
        assert(final(out)@ =~= old(out)@ + junit_suite_open(*suite));
    }
}

#[verifier::spinoff_prover]
fn push_junit_suite(out: &mut Vec<char>, suite: &TestSuite)
    ensures
        final(out)@ == old(out)@ + junit_suite(*suite),
{
    push_junit_suite_open(out, suite);
    let ghost mid = out@;
    let mut ti: usize = 0;
    while ti < suite.tests.len()
        invariant
            ti <= suite.tests.len(),
            out@ == mid + junit_tests(suite.tests@.take(ti as int)),
        decreases suite.tests.len() - ti,
    {
        proof {
            assert(suite.tests@.take(ti + 1).drop_last() =~= suite.tests@.take(ti as int));
            assert(suite.tests@.take(ti + 1).last() == suite.tests@[ti as int]);
        }
        push_junit_test(out, &suite.tests[ti]);
        ti = ti + 1;
    }
    proof {
        assert(suite.tests@.take(ti as int) =~= suite.tests@);
    }
    push_str(out, "  </testsuite>\n");
    proof {
        assert(final(out)@ =~= old(out)@ + junit_suite(*suite));
    }
}

/// Reporter that emits JUnit-compatible XML.
///
/// This format is understood by Jenkins, GitLab CI, GitHub Actions, and
/// most other CI systems.
pub struct JunitReporter {
    suite_name: String,
}

impl JunitReporter {
    /// The name written on the top-level `<testsuites>` element.
    pub closed spec fn top_name(&self) -> Seq<char> {
        self.suite_name@
    }

    /// Create a new `JunitReporter` whose top-level suite is named `rvtest`.
    pub fn new() -> (r: JunitReporter)
        ensures
            r.top_name() == "rvtest"@,
    {
        JunitReporter { suite_name: owned("rvtest") }
    }

    /// Override the top-level suite name in the XML output.
    pub fn suite_name(self, name: &str) -> (r: JunitReporter)
        ensures
            r.top_name() == name@,
    {
        JunitReporter { suite_name: owned(name) }
    }

    /// The JUnit document of `run`.
    pub fn render(&self, run: &TestRun) -> (r: String)
        requires
            run.fits(),
        ensures
            r@ == junit_text(*run, self.top_name()),
    {
        let mut out: Vec<char> = Vec::new();
        push_str(&mut out, "<?xml version=\"1.0\" encoding=\"UTF-8\"?>\n");
        push_str(&mut out, "<testsuites name=\"");
        push_str(&mut out, self.suite_name.as_str());
        push_str(&mut out, "\" tests=\"");
        push_dec(&mut out, run.total() as u128);
        push_str(&mut out, "\" failures=\"");
        push_dec(&mut out, run.total_failed() as u128);
        push_str(&mut out, "\" skipped=\"");
        push_dec(&mut out, run.total_skipped() as u128);
        push_str(&mut out, "\" time=\"");
        run.duration.push_secs_fixed(&mut out, 3);
        push_str(&mut out, "\">\n");
        let ghost head = out@;
        let mut si: usize = 0;
        while si < run.suites.len()
            invariant
                si <= run.suites.len(),
                out@ == head + junit_suites(run.suites@.take(si as int)),
            decreases run.suites.len() - si,
        {
            proof {
                assert(run.suites@.take(si + 1).drop_last() =~= run.suites@.take(si as int));
                assert(run.suites@.take(si + 1).last() == run.suites@[si as int]);
            }
            push_junit_suite(&mut out, &run.suites[si]);
            si = si + 1;
        }
        proof {
            assert(run.suites@.take(si as int) =~= run.suites@);
        }
        push_str(&mut out, "</testsuites>\n");
        proof {
            assert(out@ =~= junit_text(*run, self.top_name()));
        }
        string_from_chars(&out)
    }
}

impl Default for JunitReporter {
    fn default() -> (r: JunitReporter)
        ensures
            r.top_name() == "rvtest"@,
    {
        JunitReporter::new()
    }
}

impl TestReporter for JunitReporter {
    fn report(&self, run: &TestRun) -> (r: String)
        ensures
            r@ == junit_text(*run, self.top_name()),
    {
        self.render(run)
    }
}

// ---------------------------------------------------------------------------
// JsonReporter — machine-readable JSON
// ---------------------------------------------------------------------------

/// The status word a test is listed with.
pub open spec fn json_status(s: TestStatus) -> Seq<char> {
    match s {
        TestStatus::Passed => "passed"@,
        TestStatus::Failed { .. } => "failed"@,
        TestStatus::Skipped { .. } => "skipped"@,
        TestStatus::TimedOut { .. } => "timed_out"@,
    }
}

/// The `"reason"` member, present for failures and for skips with a reason.
pub open spec fn json_reason(s: TestStatus) -> Seq<char> {
    match s {
        TestStatus::Failed { reason, .. } => ",\"reason\":\""@ + escape_json_text(reason@) + "\""@,
        TestStatus::Skipped { reason: Some(r) } => ",\"reason\":\""@ + escape_json_text(r@) + "\""@,
        _ => Seq::empty(),
    }
}

/// One `"key":"value"` pair of the parameters object.
pub open spec fn json_param(p: (String, String)) -> Seq<char> {
    "\""@ + escape_json_text(p.0@) + "\":\""@ + escape_json_text(p.1@) + "\""@
}

/// The parameter pairs, comma-separated.
pub open spec fn json_params(ps: Seq<(String, String)>) -> Seq<char>
    decreases ps.len(),
{
    if ps.len() == 0 {
        Seq::empty()
    } else if ps.len() == 1 {
        json_param(ps[0])
    } else {
        json_params(ps.drop_last()) + ","@ + json_param(ps.last())
    }
}

/// The JSON object of one test.
pub open spec fn json_test(t: TestCase) -> Seq<char> {
    "{\"name\":\""@ + escape_json_text(t.name@) + "\",\"status\":\""@ + json_status(t.status)
        + "\",\"duration_secs\":"@ + secs_fixed(t.duration@, 3) + json_reason(t.status) + (if t.parameters@.len()
        == 0 {
        Seq::<char>::empty()
    } else {
        ",\"parameters\":{"@ + json_params(t.parameters@) + "}"@
    }) + "}"@
}

pub open spec fn json_tests(ts: Seq<TestCase>) -> Seq<char>
    decreases ts.len(),
{
    if ts.len() == 0 {
        Seq::empty()
    } else if ts.len() == 1 {
        json_test(ts[0])
    } else {
        json_tests(ts.drop_last()) + ","@ + json_test(ts.last())
    }
}

/// The JSON object of one suite.
pub open spec fn json_suite(s: TestSuite) -> Seq<char> {
    "{\"name\":\""@ + escape_json_text(s.name@) + "\",\"duration_secs\":"@ + secs_fixed(s.duration@, 3)
        + ",\"tests\":["@ + json_tests(s.tests@) + "]}"@
}

pub open spec fn json_suites(suites: Seq<TestSuite>) -> Seq<char>
    decreases suites.len(),
{
    if suites.len() == 0 {
        Seq::empty()
    } else if suites.len() == 1 {
        json_suite(suites[0])
    } else {
        json_suites(suites.drop_last()) + ","@ + json_suite(suites.last())
    }
}

/// The whole JSON document: a single object with the tallies and a
/// `suites` array.
pub open spec fn json_text(run: TestRun) -> Seq<char> {
    "{\"success\":"@ + (if run_success(run.suites@) { "true"@ } else { "false"@ })
        + ",\"total\":"@ + dec(total_cases(run.suites@)) + ",\"passed\":"@ + dec(total_passed_cases(run.suites@))
        + ",\"failed\":"@ + dec(total_failed_cases(run.suites@)) + ",\"skipped\":"@
        + dec(total_skipped_cases(run.suites@)) + ",\"duration_secs\":"@ + secs_fixed(run.duration@, 3)
        + ",\"suites\":["@ + json_suites(run.suites@) + "]}"@
}

#[verifier::spinoff_prover]
fn push_json_params(out: &mut Vec<char>, ps: &Vec<(String, String)>)
    ensures
        final(out)@ == old(out)@ + json_params(ps@),
{
    let ghost start = out@;
    let mut i: usize = 0;
    while i < ps.len()
        invariant
            i <= ps.len(),
            out@ == start + json_params(ps@.take(i as int)),
        decreases ps.len() - i,
    {
        proof {
            assert(ps@.take(i + 1).drop_last() =~= ps@.take(i as int));
            assert(ps@.take(i + 1).last() == ps@[i as int]);
            if i == 0 {
                assert(ps@.take(1)[0] == ps@[0]);
            }
        }
        let ghost before = out@;
        if i > 0 {
            push_str(out, ",");
        }
        push_str(out, "\"");
        push_escaped(out, ps[i].0.as_str(), 1);
        push_str(out, "\":\"");
        push_escaped(out, ps[i].1.as_str(), 1);
        push_str(out, "\"");
        proof {
            assert(out@ =~= start + json_params(ps@.take(i + 1)));
        }
        i = i + 1;
    }
    proof {
        assert(ps@.take(i as int) =~= ps@);
    }
}

#[verifier::spinoff_prover]
fn push_json_reason(out: &mut Vec<char>, s: &TestStatus)
    ensures
        final(out)@ == old(out)@ + json_reason(*s),
{
    match s {
        TestStatus::Failed { reason, .. } => {
            push_str(out, ",\"reason\":\"");
            push_escaped(out, reason.as_str(), 1);
            push_str(out, "\"");
        },
        TestStatus::Skipped { reason: Some(r) } => {
            push_str(out, ",\"reason\":\"");
            push_escaped(out, r.as_str(), 1);
            push_str(out, "\"");
        },
        _ => {},
    }
    proof {
        assert(final(out)@ =~= old(out)@ + json_reason(*s));
    }
}

#[verifier::spinoff_prover]
fn push_json_status(out: &mut Vec<char>, s: &TestStatus)
    ensures
        final(out)@ == old(out)@ + json_status(*s),
{
    match s {
        TestStatus::Passed => push_str(out, "passed"),
        TestStatus::Failed { .. } => push_str(out, "failed"),
        TestStatus::Skipped { .. } => push_str(out, "skipped"),
        TestStatus::TimedOut { .. } => push_str(out, "timed_out"),
    }
}

#[verifier::spinoff_prover]
fn push_json_test(out: &mut Vec<char>, t: &TestCase)
    ensures
        final(out)@ == old(out)@ + json_test(*t),
{
    push_str(out, "{\"name\":\"");
    push_escaped(out, t.name.as_str(), 1);
    push_str(out, "\",\"status\":\"");
    push_json_status(out, &t.status);
    push_str(out, "\",\"duration_secs\":");
    t.duration.push_secs_fixed(out, 3);
    push_json_reason(out, &t.status);
    let ghost mid = out@;
    if t.parameters.len() > 0 {
        push_str(out, ",\"parameters\":{");
        push_json_params(out, &t.parameters);
        push_str(out, "}");
    }
    proof {
        assert(out@ =~= mid + (if t.parameters@.len() == 0 {
            Seq::<char>::empty()
        } else {
            ",\"parameters\":{"@ + json_params(t.parameters@) + "}"@
        }));
    }
    push_str(out, "}");
    proof {
        assert(final(out)@ =~= old(out)@ + json_test(*t));
    }
}

#[verifier::spinoff_prover]
fn push_json_suite(out: &mut Vec<char>, suite: &TestSuite)
    ensures
        final(out)@ == old(out)@ + json_suite(*suite),
{
    push_str(out, "{\"name\":\"");
    push_escaped(out, suite.name.as_str(), 1);
    push_str(out, "\",\"duration_secs\":");
    suite.duration.push_secs_fixed(out, 3);
    push_str(out, ",\"tests\":[");
    let ghost mid = out@;
    let mut ti: usize = 0;
    while ti < suite.tests.len()
        invariant
            ti <= suite.tests.len(),
            out@ == mid + json_tests(suite.tests@.take(ti as int)),
        decreases suite.tests.len() - ti,
    {
        proof {
            assert(suite.tests@.take(ti + 1).drop_last() =~= suite.tests@.take(ti as int));
            assert(suite.tests@.take(ti + 1).last() == suite.tests@[ti as int]);
            if ti == 0 {
                assert(suite.tests@.take(1)[0] == suite.tests@[0]);
            }
        }
        if ti > 0 {
            push_str(out, ",");
        }
        push_json_test(out, &suite.tests[ti]);
        proof {
            assert(out@ =~= mid + json_tests(suite.tests@.take(ti + 1)));
        }
        ti = ti + 1;
    }
    proof {
        assert(suite.tests@.take(ti as int) =~= suite.tests@);
    }
    push_str(out, "]}");
    proof {
        assert(final(out)@ =~= old(out)@ + json_suite(*suite));
    }
}

/// Reporter that emits results as a JSON object.
pub struct JsonReporter;

impl JsonReporter {
    /// The JSON document of `run`.
    pub fn render(&self, run: &TestRun) -> (r: String)
        requires
            run.fits(),
        ensures
            r@ == json_text(*run),
    {
        let mut out: Vec<char> = Vec::new();
        push_str(&mut out, "{\"success\":");
        if run.success() {
            push_str(&mut out, "true");
        } else {
            push_str(&mut out, "false");
        }
        push_str(&mut out, ",\"total\":");
        push_dec(&mut out, run.total() as u128);
        push_str(&mut out, ",\"passed\":");
        push_dec(&mut out, run.total_passed() as u128);
        push_str(&mut out, ",\"failed\":");
        push_dec(&mut out, run.total_failed() as u128);
        push_str(&mut out, ",\"skipped\":");
        push_dec(&mut out, run.total_skipped() as u128);
        push_str(&mut out, ",\"duration_secs\":");
        run.duration.push_secs_fixed(&mut out, 3);
        push_str(&mut out, ",\"suites\":[");
        let ghost head = out@;
        let mut si: usize = 0;
        while si < run.suites.len()
            invariant
                si <= run.suites.len(),
                out@ == head + json_suites(run.suites@.take(si as int)),
            decreases run.suites.len() - si,
        {
            proof {
                assert(run.suites@.take(si + 1).drop_last() =~= run.suites@.take(si as int));
                assert(run.suites@.take(si + 1).last() == run.suites@[si as int]);
                if si == 0 {
                    assert(run.suites@.take(1)[0] == run.suites@[0]);
                }
            }
            if si > 0 {
                push_str(&mut out, ",");
            }
            push_json_suite(&mut out, &run.suites[si]);
            proof {
                assert(out@ =~= head + json_suites(run.suites@.take(si + 1)));
            }
            si = si + 1;
        }
        proof {
            assert(run.suites@.take(si as int) =~= run.suites@);
        }
        push_str(&mut out, "]}");
        proof {
            assert(out@ =~= json_text(*run));
        }
        string_from_chars(&out)
    }
}

impl TestReporter for JsonReporter {
    fn report(&self, run: &TestRun) -> (r: String)
        ensures
            r@ == json_text(*run),
    {
        self.render(run)
    }
}

// ---------------------------------------------------------------------------
// GithubReporter — GitHub Actions annotations
// ---------------------------------------------------------------------------

/// The `file=..,line=..` part of an annotation.
pub open spec fn github_where(loc: Option<SourceLocation>) -> Seq<char> {
    "file="@ + match loc {
        Some(l) => escape_github_text(l.file@),
        None => "unknown"@,
    } + ",line="@ + match loc {
        Some(l) => dec(l.line as nat),
        None => "1"@,
    }
}

/// The `::error` annotation of a failed or timed-out test; nothing otherwise.
pub open spec fn github_test(t: TestCase) -> Seq<char> {
    match t.status {
        TestStatus::Failed { reason, location } => "::error "@ + github_where(location) + ",title="@
            + escape_github_text(t.name@) + " \u{2014} "@ + escape_github_text(reason@) + "\n"@,
        TestStatus::TimedOut { duration, location } => "::error "@ + github_where(location) + ",title="@
            + escape_github_text(t.name@) + " \u{2014} "@ + "timed out after "@ + debug_duration(duration@) + "\n"@,
        _ => Seq::empty(),
    }
}

pub open spec fn github_tests(ts: Seq<TestCase>) -> Seq<char>
    decreases ts.len(),
{
    if ts.len() == 0 { Seq::empty() } else { github_tests(ts.drop_last()) + github_test(ts.last()) }
}

pub open spec fn github_suites(suites: Seq<TestSuite>) -> Seq<char>
    decreases suites.len(),
{
    if suites.len() == 0 {
        Seq::empty()
    } else {
        github_suites(suites.drop_last()) + github_tests(suites.last().tests@)
    }
}

/// The annotations, then the `rvtest: P/T passed, ...` summary line.
pub open spec fn github_text(run: TestRun) -> Seq<char> {
    github_suites(run.suites@) + "rvtest: "@ + counts_line(run)
}

#[verifier::spinoff_prover]
fn push_github_where(out: &mut Vec<char>, loc: &Option<SourceLocation>)
    ensures
        final(out)@ == old(out)@ + github_where(*loc),
{
    push_str(out, "file=");
    match loc {
        Some(l) => push_escaped(out, l.file.as_str(), 2),
        None => push_str(out, "unknown"),
    }
    push_str(out, ",line=");
    match loc {
        Some(l) => push_dec(out, l.line as u128),
        None => push_str(out, "1"),
    }
    proof {
        assert(final(out)@ =~= old(out)@ + github_where(*loc));
    }
}

#[verifier::spinoff_prover]
fn push_github_test(out: &mut Vec<char>, t: &TestCase)
    ensures
        final(out)@ == old(out)@ + github_test(*t),
{
    match &t.status {
        TestStatus::Failed { reason, location } => {
            push_str(out, "::error ");
            push_github_where(out, location);
            push_str(out, ",title=");
            push_escaped(out, t.name.as_str(), 2);
            push_str(out, " \u{2014} ");
            push_escaped(out, reason.as_str(), 2);
            push_str(out, "\n");
        },
        TestStatus::TimedOut { duration, location } => {
            push_str(out, "::error ");
            push_github_where(out, location);
            push_str(out, ",title=");
            push_escaped(out, t.name.as_str(), 2);
            push_str(out, " \u{2014} ");
            push_str(out, "timed out after ");
            duration.push_debug(out);
            push_str(out, "\n");
        },
        _ => {},
    }
    proof {
        assert(final(out)@ =~= old(out)@ + github_test(*t));
    }
}

/// Reporter that emits GitHub Actions-compatible `::error` annotations for
/// test failures.
///
/// Each failed or timed-out test produces one `::error` line with the
/// source file, line number, and failure message. Passing tests are
/// silently ignored.
pub struct GithubReporter;

impl GithubReporter {
    /// The annotations of `run`.
    pub fn render(&self, run: &TestRun) -> (r: String)
        requires
            run.fits(),
        ensures
            r@ == github_text(*run),
    {
        let mut out: Vec<char> = Vec::new();
        let mut si: usize = 0;
        while si < run.suites.len()
            invariant
                si <= run.suites.len(),
                out@ == github_suites(run.suites@.take(si as int)),
            decreases run.suites.len() - si,
        {
            let suite = &run.suites[si];
            proof {
                assert(run.suites@.take(si + 1).drop_last() =~= run.suites@.take(si as int));
                assert(run.suites@.take(si + 1).last() == *suite);
            }
            let ghost mid = out@;
            let mut ti: usize = 0;
            while ti < suite.tests.len()
                invariant
                    ti <= suite.tests.len(),
                    out@ == mid + github_tests(suite.tests@.take(ti as int)),
                decreases suite.tests.len() - ti,
            {
                proof {
                    assert(suite.tests@.take(ti + 1).drop_last() =~= suite.tests@.take(ti as int));
                    assert(suite.tests@.take(ti + 1).last() == suite.tests@[ti as int]);
                }
                push_github_test(&mut out, &suite.tests[ti]);
                ti = ti + 1;
            }
            proof {
                assert(suite.tests@.take(ti as int) =~= suite.tests@);
            }
            si = si + 1;
        }
        proof {
            assert(run.suites@.take(si as int) =~= run.suites@);
        }
        push_str(&mut out, "rvtest: ");
        push_counts_line(&mut out, run);
        proof {
            assert(out@ =~= github_text(*run));
        }
        string_from_chars(&out)
    }
}

impl TestReporter for GithubReporter {
    fn report(&self, run: &TestRun) -> (r: String)
        ensures
            r@ == github_text(*run),
    {
        self.render(run)
    }
}


// ---------------------------------------------------------------------------
// What the reports say
// ---------------------------------------------------------------------------

/// How many of `ts` failed or timed out.
pub open spec fn failures_in(ts: Seq<TestCase>) -> nat
    decreases ts.len(),
{
    if ts.len() == 0 {
        0
    } else {
        failures_in(ts.drop_last()) + (if ts.last().status is Failed || ts.last().status is TimedOut {
            1nat
        } else {
            0nat
        })
    }
}

/// The failures of the suites, added up suite by suite.
pub open spec fn failures_per_suite_sum(suites: Seq<TestSuite>) -> nat
    decreases suites.len(),
{
    if suites.len() == 0 {
        0
    } else {
        failures_per_suite_sum(suites.drop_last()) + failures_in(suites.last().tests@)
    }
}

/// `text` holds the XML attribute `key="value"`.
pub open spec fn has_attribute(text: Seq<char>, key: Seq<char>, value: Seq<char>) -> bool {
    exists|pre: Seq<char>, post: Seq<char>| text == pre + " "@ + key + "=\""@ + value + "\""@ + post
}

/// `text` holds the JSON member `"key":"value"`.
pub open spec fn has_member(text: Seq<char>, key: Seq<char>, value: Seq<char>) -> bool {
    exists|pre: Seq<char>, post: Seq<char>| text == pre + "\""@ + key + "\":\""@ + value + "\""@ + post
}

proof fn lemma_failures_in(ts: Seq<TestCase>)
    ensures
        failed_cases(ts).len() == failures_in(ts),
    decreases ts.len(),
{
    if ts.len() > 0 {
        lemma_failures_in(ts.drop_last());
    }
}

proof fn lemma_failures_sum(suites: Seq<TestSuite>)
    ensures
        total_failed_cases(suites) == failures_per_suite_sum(suites),
    decreases suites.len(),
{
    if suites.len() > 0 {
        lemma_failures_sum(suites.drop_last());
        lemma_failures_in(suites.last().tests@);
    }
}

/// In the JUnit report each `<testsuite>` element's `failures` attribute
/// is the number of that suite's tests that failed or timed out, and the
/// document's `failures` attribute is the sum of these numbers.
pub proof fn lemma_junit_failures_attribute(run: TestRun, name: Seq<char>)
    ensures
        forall|i: int|
            0 <= i < run.suites@.len() ==> has_attribute(
                #[trigger] junit_suite_open(run.suites@[i]),
                "failures"@,
                dec(failures_in(run.suites@[i].tests@)),
            ),
        has_attribute(junit_text(run, name), "failures"@, dec(failures_per_suite_sum(run.suites@))),
{
    assert forall|i: int| 0 <= i < run.suites@.len() implies has_attribute(
        #[trigger] junit_suite_open(run.suites@[i]),
        "failures"@,
        dec(failures_in(run.suites@[i].tests@)),
    ) by {
        let s = run.suites@[i];
        lemma_failures_in(s.tests@);
        reveal_strlit("\" failures=\"");
        reveal_strlit("\" skipped=\"");
        reveal_strlit(" skipped=\"");
        reveal_strlit("\"");
        reveal_strlit(" ");
        reveal_strlit("failures");
        reveal_strlit("=\"");
        let a = "  <testsuite name=\""@ + escape_xml_text(s.name@) + "\" tests=\""@ + dec(s.tests@.len());
        let d = dec(failures_in(s.tests@));
        let b = dec(skipped_cases(s.tests@).len()) + "\" time=\""@ + secs_fixed(s.duration@, 3) + "\">\n"@;
        assert("\" failures=\""@ =~= "\""@ + " "@ + "failures"@ + "=\""@);
        assert("\" skipped=\""@ =~= "\""@ + " skipped=\""@);
        assert(junit_suite_open(s) == a + "\" failures=\""@ + d + "\" skipped=\""@ + b);
        assert(junit_suite_open(s) =~= (a + "\""@) + " "@ + "failures"@ + "=\""@ + d + "\""@ + (" skipped=\""@ + b));
    }
    lemma_failures_sum(run.suites@);
    reveal_strlit("\" failures=\"");
    reveal_strlit("\" skipped=\"");
    reveal_strlit(" skipped=\"");
    reveal_strlit("\"");
    reveal_strlit(" ");
    reveal_strlit("failures");
    reveal_strlit("=\"");
    assert("\" failures=\""@ =~= "\""@ + " "@ + "failures"@ + "=\""@);
    assert("\" skipped=\""@ =~= "\""@ + " skipped=\""@);
    let a = "<?xml version=\"1.0\" encoding=\"UTF-8\"?>\n"@ + "<testsuites name=\""@ + name + "\" tests=\""@ + dec(
        total_cases(run.suites@),
    );
    let d = dec(failures_per_suite_sum(run.suites@));
    let b = dec(total_skipped_cases(run.suites@)) + "\" time=\""@ + secs_fixed(run.duration@, 3) + "\">\n"@
        + junit_suites(run.suites@) + "</testsuites>\n"@;
    assert(junit_text(run, name) == a + "\" failures=\""@ + d + "\" skipped=\""@ + b);
    assert(junit_text(run, name) =~= (a + "\""@) + " "@ + "failures"@ + "=\""@ + d + "\""@ + (" skipped=\""@ + b));
}

/// In the JSON report a test's `"status"` member names its status:
/// `"passed"`, `"failed"`, `"skipped"` or `"timed_out"`.
pub proof fn lemma_json_status_member(t: TestCase)
    ensures
        t.status is Passed ==> has_member(json_test(t), "status"@, "passed"@),
        t.status is Failed ==> has_member(json_test(t), "status"@, "failed"@),
        t.status is Skipped ==> has_member(json_test(t), "status"@, "skipped"@),
        t.status is TimedOut ==> has_member(json_test(t), "status"@, "timed_out"@),
{
    let w = match t.status {
        TestStatus::Passed => "passed"@,
        TestStatus::Failed { .. } => "failed"@,
        TestStatus::Skipped { .. } => "skipped"@,
        TestStatus::TimedOut { .. } => "timed_out"@,
    };
    reveal_strlit("\",\"status\":\"");
    reveal_strlit("\",\"duration_secs\":");
    reveal_strlit(",\"duration_secs\":");
    reveal_strlit("\",");
    reveal_strlit("\"");
    reveal_strlit("status");
    reveal_strlit("\":\"");
    assert("\",\"status\":\""@ =~= "\","@ + "\""@ + "status"@ + "\":\""@);
    assert("\",\"duration_secs\":"@ =~= "\""@ + ",\"duration_secs\":"@);
    let a = "{\"name\":\""@ + escape_json_text(t.name@);
    let rest = secs_fixed(t.duration@, 3) + json_reason(t.status) + (if t.parameters@.len() == 0 {
        Seq::<char>::empty()
    } else {
        ",\"parameters\":{"@ + json_params(t.parameters@) + "}"@
    }) + "}"@;
    assert(json_status(t.status) == w);
    assert(json_test(t) == a + "\",\"status\":\""@ + w + "\",\"duration_secs\":"@ + rest);
    assert(json_test(t) =~= (a + "\","@) + "\""@ + "status"@ + "\":\""@ + w + "\""@ + (",\"duration_secs\":"@ + rest));
}

/// The pretty summary's tallies, without colour: the numbers shown before
/// `passed`, `failed` and `skipped` are the run's passed, failed (failed
/// or timed out) and skipped counts, and they add up to the total.
pub proof fn lemma_pretty_tallies_count(run: TestRun)
    ensures
        exists|p: nat, f: nat, k: nat|
            {
                &&& pretty_tallies(run, false) == dec(p) + " "@ + "passed"@ + " \u{b7} "@ + dec(f) + " "@ + "failed"@
                    + " \u{b7} "@ + dec(k) + " "@ + "skipped"@
                &&& p == total_passed_cases(run.suites@)
                &&& f == failures_per_suite_sum(run.suites@)
                &&& p + f + k == total_cases(run.suites@)
            },
{
    crate::model::lemma_run_tallies_partition(run.suites@);
    lemma_failures_sum(run.suites@);
    let p = total_passed_cases(run.suites@);
    let f = total_failed_cases(run.suites@);
    let k = total_skipped_cases(run.suites@);
    assert(pretty_tallies(run, false) == dec(p) + " "@ + "passed"@ + " \u{b7} "@ + dec(f) + " "@ + "failed"@ + " \u{b7} "@
        + dec(k) + " "@ + "skipped"@);
}

} // verus!
