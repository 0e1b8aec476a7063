//! The data model of a test run: durations, statuses, cases, suites, runs
//! and the run configuration, together with the tallies every reporter uses.

pub mod text;
pub mod spec;
pub mod tag;

use vstd::prelude::*;
use self::text::{
    chars_eq, chars_of, dec, digit, digit_char, fixed, lowercase, owned, pow10, push_dec, push_fixed,
    push_str, round_div, string_from_chars, to_lowercase,
};

verus! {

// ---------------------------------------------------------------------------
// Durations and timestamps
// ---------------------------------------------------------------------------

/// A span of time with nanosecond resolution.
#[derive(Clone, Copy, Debug, PartialEq, Eq)]
pub struct Duration {
    nanos: u128,
}

impl View for Duration {
    type V = nat;

    /// The length of the span in nanoseconds.
    closed spec fn view(&self) -> nat {
        self.nanos as nat
    }
}

impl Duration {
    /// The empty span.
    pub fn zero() -> (d: Duration)
        ensures
            d@ == 0,
    {
        Duration { nanos: 0 }
    }

    /// A span of `secs` whole seconds and `nanos` extra nanoseconds.
    pub fn new(secs: u64, nanos: u32) -> (d: Duration)
        ensures
            d@ == secs * 1_000_000_000 + nanos,
    {
        Duration { nanos: secs as u128 * 1_000_000_000 + nanos as u128 }
    }

    /// A span of `secs` seconds.
    pub fn from_secs(secs: u64) -> (d: Duration)
        ensures
            d@ == secs * 1_000_000_000,
    {
        Duration { nanos: secs as u128 * 1_000_000_000 }
    }

    /// A span of `millis` milliseconds.
    pub fn from_millis(millis: u64) -> (d: Duration)
        ensures
            d@ == millis * 1_000_000,
    {
        Duration { nanos: millis as u128 * 1_000_000 }
    }

    /// A span of `micros` microseconds.
    pub fn from_micros(micros: u64) -> (d: Duration)
        ensures
            d@ == micros * 1_000,
    {
        Duration { nanos: micros as u128 * 1_000 }
    }

    /// A span of `nanos` nanoseconds.
    pub fn from_nanos(nanos: u128) -> (d: Duration)
        ensures
            d@ == nanos,
    {
        Duration { nanos }
    }

    /// The length of the span in nanoseconds.
    pub fn as_nanos(&self) -> (n: u128)
        ensures
            n == self@,
    {
        self.nanos
    }

    /// The whole seconds of the span.
    pub fn whole_secs(&self) -> (s: u128)
        ensures
            s == self@ / 1_000_000_000,
    {
        self.nanos / 1_000_000_000
    }

    /// The nanoseconds beyond the whole seconds.
    pub fn subsec_nanos(&self) -> (n: u32)
        ensures
            n == self@ % 1_000_000_000,
    {
        (self.nanos % 1_000_000_000) as u32
    }

    /// The sum of two spans, or `None` when it does not fit.
    pub fn checked_add(&self, other: &Duration) -> (r: Option<Duration>)
        ensures
            r matches Some(d) ==> d@ == self@ + other@,
            r is None <==> self@ + other@ > u128::MAX,
    {
        if self.nanos > u128::MAX - other.nanos {
            None
        } else {
            Some(Duration { nanos: self.nanos + other.nanos })
        }
    }
}

/// A point in wall-clock time, as the span since the Unix epoch.
#[derive(Clone, Copy, Debug, PartialEq, Eq)]
pub struct Timestamp {
    pub since_epoch: Duration,
}

/// A reading of the wall clock (std `SystemTime`).
#[verifier::external_type_specification]
#[verifier::external_body]
pub struct ExSystemTime(std::time::SystemTime);

/// The wall clock's current reading (std `SystemTime::now`). Nothing is
/// promised of the value: it is the machine's clock.
#[verifier::external_body]
fn system_now() -> std::time::SystemTime {
    std::time::SystemTime::now()
}

/// How many nanoseconds `t` lies after the Unix epoch (std
/// `SystemTime::duration_since`), or `None` when it lies before it. It
/// depends on the clock's reading, so nothing more is promised.
#[verifier::external_body]
fn nanos_since_epoch(t: &std::time::SystemTime) -> Option<u128> {
    match t.duration_since(std::time::UNIX_EPOCH) {
        Ok(d) => Some(d.as_nanos()),
        Err(_) => None,
    }
}

/// The current wall-clock time, measured from the Unix epoch; a clock set
/// before the epoch reads as the epoch itself.
pub fn now() -> Timestamp {
    let t = system_now();
    match nanos_since_epoch(&t) {
        Some(n) => Timestamp { since_epoch: Duration::from_nanos(n) },
        None => Timestamp { since_epoch: Duration::zero() },
    }
}


// ---------------------------------------------------------------------------
// Rendering durations
// ---------------------------------------------------------------------------

/// A span of `nanos` nanoseconds in seconds with `digits` decimals (as
/// `{:.N}` renders seconds), rounded half up.
pub open spec fn secs_fixed(nanos: nat, digits: nat) -> Seq<char> {
    fixed(round_div(nanos, pow10((9 - digits) as nat)), digits)
}

/// A span in milliseconds with one decimal, rounded half up.
pub open spec fn millis_fixed1(nanos: nat) -> Seq<char> {
    fixed(round_div(nanos, 100_000), 1)
}

/// The compact duration used by the human-facing reporters: seconds with two
/// decimals from one second on, milliseconds with one decimal below.
pub open spec fn short_duration(nanos: nat) -> Seq<char> {
    if nanos >= 1_000_000_000 {
        secs_fixed(nanos, 2) + "s"@
    } else {
        millis_fixed1(nanos) + "ms"@
    }
}

/// The decimals of `frac / divisor` (divisor a power of ten), without
/// trailing zeros.
pub open spec fn frac_digits(frac: nat, divisor: nat) -> Seq<char>
    decreases divisor,
{
    if frac == 0 || divisor == 0 {
        Seq::empty()
    } else {
        seq![digit_char(frac / divisor)] + frac_digits(frac % divisor, divisor / 10)
    }
}

/// An integer part with its exact decimals and a unit suffix.
pub open spec fn debug_decimal(int_part: nat, frac: nat, divisor: nat, unit: Seq<char>) -> Seq<char> {
    let f = frac_digits(frac, divisor);
    dec(int_part) + (if f.len() == 0 { Seq::<char>::empty() } else { seq!['.'] + f }) + unit
}

/// A duration as std's `Debug` renders it (`1.5s`, `250ms`, `1.2µs`, `7ns`).
pub open spec fn debug_duration(nanos: nat) -> Seq<char> {
    let secs = nanos / 1_000_000_000;
    let sub = nanos % 1_000_000_000;
    if secs > 0 {
        debug_decimal(secs, sub, 100_000_000, "s"@)
    } else if sub >= 1_000_000 {
        debug_decimal(sub / 1_000_000, sub % 1_000_000, 100_000, "ms"@)
    } else if sub >= 1_000 {
        debug_decimal(sub / 1_000, sub % 1_000, 100, "\u{b5}s"@)
    } else {
        debug_decimal(sub, 0, 1, "ns"@)
    }
}

fn push_frac_digits(out: &mut Vec<char>, frac: u128, divisor: u128, k: u32)
    requires
        divisor == pow10(k as nat),
        k <= 18,
        frac < 10 * divisor,
    ensures
        final(out)@ == old(out)@ + frac_digits(frac as nat, divisor as nat),
    decreases k,
{
    proof {
        text::lemma_pow10_pos(k as nat);
    }
    if frac == 0 {
        return;
    }
    let d = frac / divisor;
    proof {
        assert(frac / divisor < 10) by (nonlinear_arith)
            requires
                frac < 10 * divisor,
                divisor >= 1,
        ;
    }
    out.push(digit(d));
    let rest = frac % divisor;
    if k == 0 {
        proof {
            assert(divisor == 1);
            assert(rest == 0);
            assert(frac_digits(rest as nat, (divisor / 10) as nat) =~= Seq::<char>::empty());
        }
        return;
    }
    let next = divisor / 10;
    proof {
        assert(divisor == 10 * pow10((k - 1) as nat));
        assert(next == pow10((k - 1) as nat));
        assert(rest < divisor);
    }
    let ghost mid = out@;
    push_frac_digits(out, rest, next, k - 1);
    proof {
        assert(final(out)@ =~= old(out)@ + frac_digits(frac as nat, divisor as nat));
    }
}

fn push_debug_decimal(out: &mut Vec<char>, int_part: u128, frac: u128, divisor: u128, k: u32, unit: &str)
    requires
        divisor == pow10(k as nat),
        k <= 18,
        frac < 10 * divisor,
    ensures
        final(out)@ == old(out)@ + debug_decimal(int_part as nat, frac as nat, divisor as nat, unit@),
{
    push_dec(out, int_part);
    let mut f: Vec<char> = Vec::new();
    push_frac_digits(&mut f, frac, divisor, k);
    if f.len() > 0 {
        out.push('.');
        text::push_chars(out, &f);
    }
    push_str(out, unit);
    proof {
        assert(final(out)@ =~= old(out)@ + debug_decimal(int_part as nat, frac as nat, divisor as nat, unit@));
    }
}

impl Duration {
    /// Appends the span as std's `Debug` renders it.
    pub fn push_debug(&self, out: &mut Vec<char>)
        ensures
            final(out)@ == old(out)@ + debug_duration(self@),
    {
        let secs = self.nanos / 1_000_000_000;
        let sub = self.nanos % 1_000_000_000;
        proof {
            reveal_with_fuel(pow10, 10);
        }
        if secs > 0 {
            push_debug_decimal(out, secs, sub, 100_000_000, 8, "s");
        } else if sub >= 1_000_000 {
            push_debug_decimal(out, sub / 1_000_000, sub % 1_000_000, 100_000, 5, "ms");
        } else if sub >= 1_000 {
            push_debug_decimal(out, sub / 1_000, sub % 1_000, 100, 2, "\u{b5}s");
        } else {
            push_debug_decimal(out, sub, 0, 1, 0, "ns");
        }
    }

    /// Appends the span in seconds with `digits` decimals.
    pub fn push_secs_fixed(&self, out: &mut Vec<char>, digits: u32)
        requires
            digits <= 6,
        ensures
            final(out)@ == old(out)@ + secs_fixed(self@, digits as nat),
    {
        let p = text::pow10_exec(9 - digits);
        proof {
            text::lemma_pow10_mono(3, (9 - digits) as nat);
            reveal_with_fuel(pow10, 4);
            let n = self.nanos;
            assert(n / p <= n / 1000) by (nonlinear_arith)
                requires
                    p >= 1000,
            ;
        }
        let q = self.nanos / p + (if self.nanos % p >= p - p / 2 { 1u128 } else { 0u128 });
        proof {
            lemma_round_div(self.nanos as nat, p as nat);
        }
        push_fixed(out, q, digits);
    }

    /// Appends the span in milliseconds with one decimal.
    pub fn push_millis_fixed1(&self, out: &mut Vec<char>)
        ensures
            final(out)@ == old(out)@ + millis_fixed1(self@),
    {
        let p: u128 = 100_000;
        let q = self.nanos / p + (if self.nanos % p >= p - p / 2 { 1u128 } else { 0u128 });
        proof {
            lemma_round_div(self.nanos as nat, p as nat);
        }
        push_fixed(out, q, 1);
    }

    /// Appends the compact rendering used by the human-facing reporters.
    pub fn push_short(&self, out: &mut Vec<char>)
        ensures
            final(out)@ == old(out)@ + short_duration(self@),
    {
        if self.nanos >= 1_000_000_000 {
            self.push_secs_fixed(out, 2);
            push_str(out, "s");
        } else {
            self.push_millis_fixed1(out);
            push_str(out, "ms");
        }
        proof {
            assert(final(out)@ =~= old(out)@ + short_duration(self@));
        }
    }
}

/// Rounding half up by quotient and remainder, without overflow.
pub proof fn lemma_round_div(n: nat, d: nat)
    requires
        d >= 1,
    ensures
        round_div(n, d) == n / d + (if n % d >= d - d / 2 { 1nat } else { 0nat }),
{
    let q = n / d;
    let r = n % d;
    let h = d / 2;
    assert(n == q * d + r && 0 <= r < d) by (nonlinear_arith)
        requires
            d >= 1,
            q == n / d,
            r == n % d,
    ;
    assert(0 <= h <= d - h) by (nonlinear_arith)
        requires
            h == d / 2,
            d >= 1,
    ;
    if r >= d - h {
        assert((n + h) / d == q + 1) by (nonlinear_arith)
            requires
                n == q * d + r,
                0 <= r < d,
                r >= d - h,
                0 <= h <= d - h,
                d >= 1,
        ;
    } else {
        assert((n + h) / d == q) by (nonlinear_arith)
            requires
                n == q * d + r,
                0 <= r < d,
                r < d - h,
                0 <= h,
                d >= 1,
        ;
    }
}

/// A reading of the monotonic clock (std `Instant`).
#[verifier::external_type_specification]
#[verifier::external_body]
pub struct ExInstant(std::time::Instant);

/// The current reading of the monotonic clock (std `Instant::now`). Nothing is
/// promised of the value.
#[verifier::external_body]
pub(crate) fn instant_now() -> std::time::Instant {
    std::time::Instant::now()
}

/// The time elapsed since `start` (std `Instant::elapsed`). It depends on the
/// clock, so nothing is promised of the value.
#[verifier::external_body]
pub(crate) fn elapsed_since(start: &std::time::Instant) -> Duration {
    Duration::from_nanos(start.elapsed().as_nanos())
}

// ---------------------------------------------------------------------------
// Statuses, cases, suites, runs
// ---------------------------------------------------------------------------

/// A location in source code where a test is defined or an assertion failed.
#[derive(Clone, Debug, PartialEq, Eq)]
pub struct SourceLocation {
    /// The file path.
    pub file: String,
    /// The line number (1-indexed).
    pub line: u32,
    /// The optional column number.
    pub column: Option<u32>,
}

/// `file:line` or `file:line:column`.
pub open spec fn location_text(loc: SourceLocation) -> Seq<char> {
    loc.file@ + ":"@ + dec(loc.line as nat) + match loc.column {
        Some(c) => ":"@ + dec(c as nat),
        None => Seq::<char>::empty(),
    }
}

impl SourceLocation {
    /// The location as `file:line`, or `file:line:column` when the column
    /// is known.
    pub fn to_text(&self) -> (r: String)
        ensures
            r@ == location_text(*self),
    {
        let mut out: Vec<char> = Vec::new();
        push_str(&mut out, self.file.as_str());
        push_str(&mut out, ":");
        push_dec(&mut out, self.line as u128);
        match self.column {
            Some(c) => {
                push_str(&mut out, ":");
                push_dec(&mut out, c as u128);
            },
            None => {},
        }
        proof {
            assert(out@ =~= location_text(*self));
        }
        string_from_chars(&out)
    }

    /// A copy of this location.
    pub fn duplicate(&self) -> (r: SourceLocation)
        ensures
            r == *self,
    {
        SourceLocation { file: self.file.clone(), line: self.line, column: self.column }
    }
}

/// A copy of an optional location.
pub fn duplicate_location(l: &Option<SourceLocation>) -> (r: Option<SourceLocation>)
    ensures
        r == *l,
{
    match l {
        Some(x) => Some(x.duplicate()),
        None => None,
    }
}

/// A copy of an optional string.
pub fn duplicate_opt_string(s: &Option<String>) -> (r: Option<String>)
    ensures
        r == *s,
{
    match s {
        Some(x) => Some(x.clone()),
        None => None,
    }
}

/// A copy of a list of strings.
pub fn duplicate_strings(v: &Vec<String>) -> (r: Vec<String>)
    ensures
        r@ == v@,
{
    let mut r: Vec<String> = Vec::new();
    let mut i: usize = 0;
    while i < v.len()
        invariant
            i <= v.len(),
            r@ == v@.take(i as int),
        decreases v.len() - i,
    {
        r.push(v[i].clone());
        proof {
            assert(v@.take(i + 1) =~= v@.take(i as int).push(v@[i as int]));
        }
        i = i + 1;
    }
    proof {
        assert(v@.take(i as int) =~= v@);
    }
    r
}

/// A copy of a list of name/value pairs.
pub fn duplicate_pairs(v: &Vec<(String, String)>) -> (r: Vec<(String, String)>)
    ensures
        r@ == v@,
{
    let mut r: Vec<(String, String)> = Vec::new();
    let mut i: usize = 0;
    while i < v.len()
        invariant
            i <= v.len(),
            r@ == v@.take(i as int),
        decreases v.len() - i,
    {
        let pair = (v[i].0.clone(), v[i].1.clone());
        r.push(pair);
        proof {
            assert(v@.take(i + 1) =~= v@.take(i as int).push(v@[i as int]));
        }
        i = i + 1;
    }
    proof {
        assert(v@.take(i as int) =~= v@);
    }
    r
}

/// The outcome of a single test case execution.
#[derive(Clone, Debug, PartialEq, Eq)]
pub enum TestStatus {
    /// The test completed successfully without panicking.
    Passed,
    /// The test panicked or returned an error.
    Failed {
        /// A human-readable description of the failure.
        reason: String,
        /// Where the failure originated, if known.
        location: Option<SourceLocation>,
    },
    /// The test was skipped, optionally with a reason.
    Skipped {
        /// Why the test was skipped.
        reason: Option<String>,
    },
    /// The test exceeded its allotted time budget.
    TimedOut {
        /// The maximum duration allowed.
        duration: Duration,
        /// Where the test is defined, if known.
        location: Option<SourceLocation>,
    },
}

/// The status as text: `PASSED`, `FAILED: reason`, `SKIPPED` or
/// `SKIPPED: reason`, `TIMED OUT after D`.
pub open spec fn status_text(s: TestStatus) -> Seq<char> {
    match s {
        TestStatus::Passed => "PASSED"@,
        TestStatus::Failed { reason, .. } => "FAILED: "@ + reason@,
        TestStatus::Skipped { reason } => match reason {
            Some(r) => "SKIPPED: "@ + r@,
            None => "SKIPPED"@,
        },
        TestStatus::TimedOut { duration, .. } => "TIMED OUT after "@ + debug_duration(duration@),
    }
}

impl TestStatus {
    /// The status as text (see [`status_text`]).
    pub fn to_text(&self) -> (r: String)
        ensures
            r@ == status_text(*self),
    {
        let mut out: Vec<char> = Vec::new();
        match self {
            TestStatus::Passed => push_str(&mut out, "PASSED"),
            TestStatus::Failed { reason, .. } => {
                push_str(&mut out, "FAILED: ");
                push_str(&mut out, reason.as_str());
            },
            TestStatus::Skipped { reason } => match reason {
                Some(r) => {
                    push_str(&mut out, "SKIPPED: ");
                    push_str(&mut out, r.as_str());
                },
                None => push_str(&mut out, "SKIPPED"),
            },
            TestStatus::TimedOut { duration, .. } => {
                push_str(&mut out, "TIMED OUT after ");
                duration.push_debug(&mut out);
            },
        }
        proof {
            assert(out@ =~= status_text(*self));
        }
        string_from_chars(&out)
    }

    /// A failure of any kind: an error or a timeout.
    pub open spec fn failure(&self) -> bool {
        self is Failed || self is TimedOut
    }

    /// Returns `true` if the status represents a passing outcome.
    pub fn is_passed(&self) -> (r: bool)
        ensures
            r == (*self is Passed),
    {
        match self {
            TestStatus::Passed => true,
            _ => false,
        }
    }

    /// Returns `true` if the status represents any kind of failure (including timeout).
    pub fn is_failed(&self) -> (r: bool)
        ensures
            r == self.failure(),
    {
        match self {
            TestStatus::Failed { .. } => true,
            TestStatus::TimedOut { .. } => true,
            _ => false,
        }
    }

    /// Returns `true` if the test was skipped.
    pub fn is_skipped(&self) -> (r: bool)
        ensures
            r == (*self is Skipped),
    {
        match self {
            TestStatus::Skipped { .. } => true,
            _ => false,
        }
    }
}

/// Every status is exactly one of passed, failed (error or timeout) and skipped.
pub proof fn lemma_status_partition(s: TestStatus)
    ensures
        (s is Passed) || s.failure() || (s is Skipped),
        !((s is Passed) && s.failure()),
        !((s is Passed) && (s is Skipped)),
        !(s.failure() && (s is Skipped)),
{
}

/// A single test case with its metadata and execution result.
#[derive(Clone, Debug)]
pub struct TestCase {
    /// The human-readable name of the test.
    pub name: String,
    /// The name of the parent suite, if any.
    pub suite: Option<String>,
    /// Tags attached to this test for filtering and organisation.
    pub tags: Vec<String>,
    /// The outcome of executing the test.
    pub status: TestStatus,
    /// How long the test took to execute.
    pub duration: Duration,
    /// How many assertions were performed (best-effort count).
    pub assertions: u64,
    /// Where the test was defined in source code.
    pub location: Option<SourceLocation>,
    /// Named parameters supplied to a parametrized test.
    pub parameters: Vec<(String, String)>,
}

impl TestCase {
    /// Create a new test case with the given name.
    pub fn new(name: &str) -> (t: TestCase)
        ensures
            t.name@ == name@,
            t.suite is None,
            t.tags@.len() == 0,
            t.status is Passed,
            t.duration@ == 0,
            t.assertions == 0,
            t.location is None,
            t.parameters@.len() == 0,
    {
        TestCase {
            name: owned(name),
            suite: None,
            tags: Vec::new(),
            status: TestStatus::Passed,
            duration: Duration::zero(),
            assertions: 0,
            location: None,
            parameters: Vec::new(),
        }
    }
}

/// The cases of `ts` whose status passed.
pub open spec fn passed_cases(ts: Seq<TestCase>) -> Seq<TestCase>
    decreases ts.len(),
{
    if ts.len() == 0 {
        Seq::empty()
    } else if ts.last().status is Passed {
        passed_cases(ts.drop_last()).push(ts.last())
    } else {
        passed_cases(ts.drop_last())
    }
}

/// The cases of `ts` that failed (including timeouts).
pub open spec fn failed_cases(ts: Seq<TestCase>) -> Seq<TestCase>
    decreases ts.len(),
{
    if ts.len() == 0 {
        Seq::empty()
    } else if ts.last().status.failure() {
        failed_cases(ts.drop_last()).push(ts.last())
    } else {
        failed_cases(ts.drop_last())
    }
}

/// The cases of `ts` that were skipped.
pub open spec fn skipped_cases(ts: Seq<TestCase>) -> Seq<TestCase>
    decreases ts.len(),
{
    if ts.len() == 0 {
        Seq::empty()
    } else if ts.last().status is Skipped {
        skipped_cases(ts.drop_last()).push(ts.last())
    } else {
        skipped_cases(ts.drop_last())
    }
}

/// The cases of `ts` that did not pass (failed, timed out or skipped).
pub open spec fn unpassed_cases(ts: Seq<TestCase>) -> Seq<TestCase>
    decreases ts.len(),
{
    if ts.len() == 0 {
        Seq::empty()
    } else if ts.last().status is Passed {
        unpassed_cases(ts.drop_last())
    } else {
        unpassed_cases(ts.drop_last()).push(ts.last())
    }
}

/// Every case of `ts` passed.
pub open spec fn every_passed(ts: Seq<TestCase>) -> bool {
    forall|i: int| 0 <= i < ts.len() ==> #[trigger] ts[i].status is Passed
}

/// No case is left out of the passed ones exactly when every case passed.
pub proof fn lemma_unpassed_empty(ts: Seq<TestCase>)
    ensures
        (unpassed_cases(ts).len() == 0) == every_passed(ts),
        (passed_cases(ts).len() == ts.len()) == every_passed(ts),
    decreases ts.len(),
{
    if ts.len() > 0 {
        lemma_unpassed_empty(ts.drop_last());
        lemma_tallies_partition(ts.drop_last());
        if every_passed(ts) {
            assert forall|i: int| 0 <= i < ts.drop_last().len() implies #[trigger] ts.drop_last()[i].status is Passed by {
                assert(ts.drop_last()[i] == ts[i]);
            }
        }
        if every_passed(ts.drop_last()) && ts.last().status is Passed {
            assert forall|i: int| 0 <= i < ts.len() implies #[trigger] ts[i].status is Passed by {
                if i < ts.len() - 1 {
                    assert(ts.drop_last()[i] == ts[i]);
                }
            }
        }
        assert(ts.last() == ts[ts.len() - 1]);
    }
}

/// Each case falls in exactly one of the three tallies, so they add up to
/// the number of cases.
pub proof fn lemma_tallies_partition(ts: Seq<TestCase>)
    ensures
        passed_cases(ts).len() + failed_cases(ts).len() + skipped_cases(ts).len() == ts.len(),
    decreases ts.len(),
{
    if ts.len() > 0 {
        lemma_tallies_partition(ts.drop_last());
    }
}

/// A collection of related test cases that share a common context.
#[derive(Clone, Debug)]
pub struct TestSuite {
    /// The name of this suite (e.g. a module or `describe` block name).
    pub name: String,
    /// An optional description of what this suite covers.
    pub description: Option<String>,
    /// The test cases belonging to this suite.
    pub tests: Vec<TestCase>,
    /// Total wall-clock duration for all tests in this suite.
    pub duration: Duration,
}

/// The cases behind a sequence of references.
pub open spec fn derefs(s: Seq<&TestCase>) -> Seq<TestCase> {
    s.map_values(|t: &TestCase| *t)
}

/// Collects references to the cases of `ts` whose status satisfies the
/// chosen class (0: passed, 1: failed, 2: skipped, 3: not passed).
fn select_cases<'a>(ts: &'a Vec<TestCase>, class: u8) -> (r: Vec<&'a TestCase>)
    requires
        class <= 3,
    ensures
        class == 0 ==> derefs(r@) == passed_cases(ts@),
        class == 1 ==> derefs(r@) == failed_cases(ts@),
        class == 2 ==> derefs(r@) == skipped_cases(ts@),
        class == 3 ==> derefs(r@) == unpassed_cases(ts@),
{
    let mut r: Vec<&'a TestCase> = Vec::new();
    let mut i: usize = 0;
    while i < ts.len()
        invariant
            class <= 3,
            i <= ts.len(),
            class == 0 ==> derefs(r@) == passed_cases(ts@.take(i as int)),
            class == 1 ==> derefs(r@) == failed_cases(ts@.take(i as int)),
            class == 2 ==> derefs(r@) == skipped_cases(ts@.take(i as int)),
            class == 3 ==> derefs(r@) == unpassed_cases(ts@.take(i as int)),
        decreases ts.len() - i,
    {
        let t = &ts[i];
        proof {
            assert(ts@.take(i + 1).drop_last() =~= ts@.take(i as int));
            assert(ts@.take(i + 1).last() == ts@[i as int]);
        }
        let keep = if class == 0 {
            t.status.is_passed()
        } else if class == 1 {
            t.status.is_failed()
        } else if class == 2 {
            t.status.is_skipped()
        } else {
            !t.status.is_passed()
        };
        let ghost old_r = r@;
        if keep {
            r.push(t);
            proof {
                assert(derefs(r@) =~= derefs(old_r).push(*t));
            }
        }
        i = i + 1;
    }
    proof {
        assert(ts@.take(ts.len() as int) =~= ts@);
    }
    r
}

impl TestSuite {
    /// Create a new empty suite with the given name.
    pub fn new(name: &str) -> (s: TestSuite)
        ensures
            s.name@ == name@,
            s.description is None,
            s.tests@.len() == 0,
            s.duration@ == 0,
    {
        TestSuite { name: owned(name), description: None, tests: Vec::new(), duration: Duration::zero() }
    }

    /// Returns the number of tests in this suite.
    pub fn len(&self) -> (n: usize)
        ensures
            n == self.tests@.len(),
    {
        self.tests.len()
    }

    /// Returns `true` if this suite contains no tests.
    pub fn is_empty(&self) -> (r: bool)
        ensures
            r == (self.tests@.len() == 0),
    {
        self.tests.len() == 0
    }

    /// The tests that passed, in order.
    pub fn passed(&self) -> (r: Vec<&TestCase>)
        ensures
            derefs(r@) == passed_cases(self.tests@),
    {
        select_cases(&self.tests, 0)
    }

    /// The tests that failed (including timeouts), in order.
    pub fn failed(&self) -> (r: Vec<&TestCase>)
        ensures
            derefs(r@) == failed_cases(self.tests@),
    {
        select_cases(&self.tests, 1)
    }

    /// The tests that were skipped, in order.
    pub fn skipped(&self) -> (r: Vec<&TestCase>)
        ensures
            derefs(r@) == skipped_cases(self.tests@),
    {
        select_cases(&self.tests, 2)
    }

    /// Every test of the suite passed.
    pub open spec fn all_pass(&self) -> bool {
        every_passed(self.tests@)
    }

    /// Returns `true` if every test in this suite passed.
    pub fn success(&self) -> (r: bool)
        ensures
            r == self.all_pass(),
    {
        proof {
            lemma_unpassed_empty(self.tests@);
        }
        self.passed().len() == self.tests.len()
    }

    /// The check behind `#[test]` functions: it may only be reached when
    /// every test of the suite passed. The report of what failed, which a caller
    /// shows when that does not hold, is [`failure_report`](Self::failure_report).
    pub fn assert_all_pass(&self)
        requires
            self.all_pass(),
    {
    }
}

/// Total number of cases across `suites`.
pub open spec fn total_cases(suites: Seq<TestSuite>) -> nat
    decreases suites.len(),
{
    if suites.len() == 0 { 0 } else { total_cases(suites.drop_last()) + suites.last().tests@.len() }
}

/// Number of passed cases across `suites`.
pub open spec fn total_passed_cases(suites: Seq<TestSuite>) -> nat
    decreases suites.len(),
{
    if suites.len() == 0 {
        0
    } else {
        total_passed_cases(suites.drop_last()) + passed_cases(suites.last().tests@).len()
    }
}

/// Number of failed cases (including timeouts) across `suites`.
pub open spec fn total_failed_cases(suites: Seq<TestSuite>) -> nat
    decreases suites.len(),
{
    if suites.len() == 0 {
        0
    } else {
        total_failed_cases(suites.drop_last()) + failed_cases(suites.last().tests@).len()
    }
}

/// Number of skipped cases across `suites`.
pub open spec fn total_skipped_cases(suites: Seq<TestSuite>) -> nat
    decreases suites.len(),
{
    if suites.len() == 0 {
        0
    } else {
        total_skipped_cases(suites.drop_last()) + skipped_cases(suites.last().tests@).len()
    }
}

/// The failed cases of all suites, suite by suite.
pub open spec fn all_failed_cases(suites: Seq<TestSuite>) -> Seq<TestCase>
    decreases suites.len(),
{
    if suites.len() == 0 {
        Seq::empty()
    } else {
        all_failed_cases(suites.drop_last()) + failed_cases(suites.last().tests@)
    }
}

/// A run succeeds when every one of its cases passed.
pub open spec fn run_success(suites: Seq<TestSuite>) -> bool {
    total_passed_cases(suites) == total_cases(suites)
}

/// Across a whole run the three tallies add up to the total.
pub proof fn lemma_run_tallies_partition(suites: Seq<TestSuite>)
    ensures
        total_passed_cases(suites) + total_failed_cases(suites) + total_skipped_cases(suites)
            == total_cases(suites),
    decreases suites.len(),
{
    if suites.len() > 0 {
        lemma_run_tallies_partition(suites.drop_last());
        lemma_tallies_partition(suites.last().tests@);
    }
}

pub proof fn lemma_tally_bounds(ts: Seq<TestCase>)
    ensures
        passed_cases(ts).len() <= ts.len(),
        failed_cases(ts).len() <= ts.len(),
        skipped_cases(ts).len() <= ts.len(),
{
    lemma_tallies_partition(ts);
}

/// Aggregated results from an entire test run consisting of one or more suites.
#[derive(Clone, Debug)]
pub struct TestRun {
    /// The suites that were executed.
    pub suites: Vec<TestSuite>,
    /// Wall-clock time the run started.
    pub start_time: Timestamp,
    /// Wall-clock time the run finished.
    pub end_time: Timestamp,
    /// Total wall-clock duration of the run.
    pub duration: Duration,
}

impl TestRun {
    /// The number of cases of the run fits a `usize`.
    pub open spec fn fits(&self) -> bool {
        total_cases(self.suites@) <= usize::MAX
    }

    /// Whether the number of cases of the run fits a `usize`, as counting
    /// and rendering the run ask.
    pub fn count_fits(&self) -> (r: bool)
        ensures
            r == self.fits(),
    {
        let mut n: usize = 0;
        let mut i: usize = 0;
        while i < self.suites.len()
            invariant
                i <= self.suites@.len(),
                n == total_cases(self.suites@.take(i as int)),
            decreases self.suites.len() - i,
        {
            proof {
                assert(self.suites@.take(i + 1).drop_last() =~= self.suites@.take(i as int));
            }
            let k = self.suites[i].tests.len();
            if n > usize::MAX - k {
                proof {
                    lemma_total_prefix(self.suites@, i + 1);
                }
                return false;
            }
            n = n + k;
            i = i + 1;
        }
        proof {
            assert(self.suites@.take(i as int) =~= self.suites@);
        }
        true
    }

    /// Create a new `TestRun` starting now.
    pub fn new() -> (r: TestRun)
        ensures
            r.suites@.len() == 0,
            r.duration@ == 0,
    {
        let start_time = now();
        let end_time = now();
        TestRun { suites: Vec::new(), start_time, end_time, duration: Duration::zero() }
    }

    /// Returns the total number of test cases across all suites.
    pub fn total(&self) -> (n: usize)
        requires
            self.fits(),
        ensures
            n == total_cases(self.suites@),
    {
        let mut n: usize = 0;
        let mut i: usize = 0;
        while i < self.suites.len()
            invariant
                i <= self.suites.len(),
                n == total_cases(self.suites@.take(i as int)),
                total_cases(self.suites@) <= usize::MAX,
            decreases self.suites.len() - i,
        {
            proof {
                assert(self.suites@.take(i + 1).drop_last() =~= self.suites@.take(i as int));
                lemma_total_prefix(self.suites@, i + 1);
            }
            n = n + self.suites[i].tests.len();
            i = i + 1;
        }
        proof {
            assert(self.suites@.take(i as int) =~= self.suites@);
        }
        n
    }

    /// Shared loop of the three tallies (0: passed, 1: failed, 2: skipped).
    fn tally(&self, class: u8) -> (n: usize)
        requires
            self.fits(),
            class <= 2,
        ensures
            class == 0 ==> n == total_passed_cases(self.suites@),
            class == 1 ==> n == total_failed_cases(self.suites@),
            class == 2 ==> n == total_skipped_cases(self.suites@),
    {
        let mut n: usize = 0;
        let mut i: usize = 0;
        while i < self.suites.len()
            invariant
                class <= 2,
                i <= self.suites.len(),
                class == 0 ==> n == total_passed_cases(self.suites@.take(i as int)),
                class == 1 ==> n == total_failed_cases(self.suites@.take(i as int)),
                class == 2 ==> n == total_skipped_cases(self.suites@.take(i as int)),
                n <= total_cases(self.suites@.take(i as int)),
                total_cases(self.suites@) <= usize::MAX,
            decreases self.suites.len() - i,
        {
            let ghost pre = self.suites@.take(i as int);
            proof {
                assert(self.suites@.take(i + 1).drop_last() =~= pre);
                lemma_total_prefix(self.suites@, i + 1);
                lemma_tally_bounds(self.suites@[i as int].tests@);
            }
            let k = select_cases(&self.suites[i].tests, class).len();
            n = n + k;
            i = i + 1;
        }
        proof {
            assert(self.suites@.take(i as int) =~= self.suites@);
        }
        n
    }

    /// Returns the number of passed test cases.
    pub fn total_passed(&self) -> (n: usize)
        requires
            self.fits(),
        ensures
            n == total_passed_cases(self.suites@),
    {
        self.tally(0)
    }

    /// Returns the number of failed test cases (including timeouts).
    pub fn total_failed(&self) -> (n: usize)
        requires
            self.fits(),
        ensures
            n == total_failed_cases(self.suites@),
    {
        self.tally(1)
    }

    /// Returns the number of skipped test cases.
    pub fn total_skipped(&self) -> (n: usize)
        requires
            self.fits(),
        ensures
            n == total_skipped_cases(self.suites@),
    {
        self.tally(2)
    }

    /// Returns `true` if every test passed.
    pub fn success(&self) -> (r: bool)
        requires
            self.fits(),
        ensures
            r == run_success(self.suites@),
    {
        self.total_passed() == self.total()
    }

    /// All test cases that failed, suite by suite.
    pub fn all_failed(&self) -> (r: Vec<&TestCase>)
        ensures
            derefs(r@) == all_failed_cases(self.suites@),
    {
        let mut r: Vec<&TestCase> = Vec::new();
        let mut i: usize = 0;
        while i < self.suites.len()
            invariant
                i <= self.suites.len(),
                derefs(r@) == all_failed_cases(self.suites@.take(i as int)),
            decreases self.suites.len() - i,
        {
            proof {
                assert(self.suites@.take(i + 1).drop_last() =~= self.suites@.take(i as int));
            }
            let f = self.suites[i].failed();
            let mut j: usize = 0;
            let ghost before = r@;
            while j < f.len()
                invariant
                    j <= f.len(),
                    derefs(r@) == derefs(before) + derefs(f@.take(j as int)),
                decreases f.len() - j,
            {
                proof {
                    assert(derefs(f@.take(j + 1)) =~= derefs(f@.take(j as int)).push(*f@[j as int]));
                }
                let ghost prev = r@;
                r.push(f[j]);
                proof {
                    assert(derefs(r@) =~= derefs(prev).push(*f@[j as int]));
                }
                j = j + 1;
            }
            proof {
                assert(f@.take(j as int) =~= f@);
            }
            i = i + 1;
        }
        proof {
            assert(self.suites@.take(i as int) =~= self.suites@);
        }
        r
    }
}

/// The running total over a prefix never exceeds the whole.
pub proof fn lemma_total_prefix(suites: Seq<TestSuite>, k: int)
    requires
        0 <= k <= suites.len(),
    ensures
        total_cases(suites.take(k)) <= total_cases(suites),
    decreases suites.len(),
{
    if k < suites.len() {
        assert(suites.drop_last().take(k) =~= suites.take(k));
        lemma_total_prefix(suites.drop_last(), k);
    } else {
        assert(suites.take(k) =~= suites);
    }
}

} // verus!

verus! {

// ---------------------------------------------------------------------------
// The failure report of a suite
// ---------------------------------------------------------------------------

/// The reason a failed case is listed with.
pub open spec fn failure_reason(s: TestStatus) -> Seq<char> {
    match s {
        TestStatus::Failed { reason, .. } => reason@,
        TestStatus::TimedOut { .. } => "timed out"@,
        _ => "unknown"@,
    }
}

/// One line of the failure report: `  ✗ name [1.5ms] — reason`.
pub open spec fn failure_line(t: TestCase) -> Seq<char> {
    "  \u{2717} "@ + t.name@ + " ["@ + millis_fixed1(t.duration@) + "ms] \u{2014} "@
        + failure_reason(t.status) + "\n"@
}

/// The lines of all the listed cases.
pub open spec fn failure_lines(ts: Seq<TestCase>) -> Seq<char>
    decreases ts.len(),
{
    if ts.len() == 0 { Seq::empty() } else { failure_lines(ts.drop_last()) + failure_line(ts.last()) }
}

/// The report shown when some test of a suite did not pass: the count
/// and one line for each such test.
pub open spec fn failure_report_text(s: TestSuite) -> Seq<char> {
    let failed = unpassed_cases(s.tests@);
    dec(failed.len()) + " test(s) failed in suite '"@ + s.name@ + "':\n"@ + failure_lines(failed)
}

impl TestSuite {
    /// The detailed report of the tests that did not pass, or `None` when
    /// every test passed.
    pub fn failure_report(&self) -> (r: Option<String>)
        ensures
            r is None <==> self.all_pass(),
            r matches Some(m) ==> m@ == failure_report_text(*self),
    {
        proof {
            lemma_unpassed_empty(self.tests@);
        }
        let failed = select_cases(&self.tests, 3);
        if failed.len() == 0 {
            return None;
        }
        let mut out: Vec<char> = Vec::new();
        push_dec(&mut out, failed.len() as u128);
        push_str(&mut out, " test(s) failed in suite '");
        push_str(&mut out, self.name.as_str());
        push_str(&mut out, "':\n");
        let ghost head = out@;
        let mut i: usize = 0;
        while i < failed.len()
            invariant
                i <= failed.len(),
                out@ == head + failure_lines(derefs(failed@).take(i as int)),
            decreases failed.len() - i,
        {
            let t = failed[i];
            proof {
                assert(derefs(failed@).take(i + 1).drop_last() =~= derefs(failed@).take(i as int));
                assert(derefs(failed@).take(i + 1).last() == *t);
            }
            let ghost before = out@;
            push_str(&mut out, "  \u{2717} ");
            push_str(&mut out, t.name.as_str());
            push_str(&mut out, " [");
            t.duration.push_millis_fixed1(&mut out);
            push_str(&mut out, "ms] \u{2014} ");
            match &t.status {
                TestStatus::Failed { reason, .. } => push_str(&mut out, reason.as_str()),
                TestStatus::TimedOut { .. } => push_str(&mut out, "timed out"),
                _ => push_str(&mut out, "unknown"),
            }
            push_str(&mut out, "\n");
            proof {
                assert(out@ =~= before + failure_line(*t));
            }
            i = i + 1;
        }
        proof {
            assert(derefs(failed@).take(i as int) =~= derefs(failed@));
            assert(out@ =~= failure_report_text(*self));
        }
        Some(string_from_chars(&out))
    }
}

// ---------------------------------------------------------------------------
// Report and coverage formats
// ---------------------------------------------------------------------------

/// The output format used when rendering test results.
#[derive(Clone, Copy, Debug, PartialEq, Eq, Structural, Default)]
pub enum ReportFormat {
    /// Human-readable, colourised output (default).
    #[default]
    Pretty,
    /// Test Anything Protocol — machine-parseable line-based format.
    Tap,
    /// JUnit XML — widely supported by CI systems.
    Junit,
    /// JSON output — suitable for programmatic consumption.
    Json,
    /// Compact single-line-per-test output.
    Compact,
    /// GitHub Actions annotations.
    Github,
}

/// The report format a lower-case name selects.
pub open spec fn report_format_named(name: Seq<char>) -> Option<ReportFormat> {
    if name == "pretty"@ || name == "human"@ {
        Some(ReportFormat::Pretty)
    } else if name == "tap"@ {
        Some(ReportFormat::Tap)
    } else if name == "junit"@ || name == "xml"@ {
        Some(ReportFormat::Junit)
    } else if name == "json"@ {
        Some(ReportFormat::Json)
    } else if name == "compact"@ {
        Some(ReportFormat::Compact)
    } else if name == "github"@ || name == "gh"@ {
        Some(ReportFormat::Github)
    } else {
        None
    }
}

/// Whether `v` holds exactly the characters of the literal `lit`.
fn is_word(v: &Vec<char>, lit: &str) -> (r: bool)
    ensures
        r == (v@ == lit@),
{
    let w = chars_of(lit);
    chars_eq(v, &w)
}

impl ReportFormat {
    /// The format selected by an already lower-cased name.
    pub fn from_lowercase(name: &str) -> (r: Option<ReportFormat>)
        ensures
            r == report_format_named(name@),
    {
        let v = chars_of(name);
        if is_word(&v, "pretty") || is_word(&v, "human") {
            Some(ReportFormat::Pretty)
        } else if is_word(&v, "tap") {
            Some(ReportFormat::Tap)
        } else if is_word(&v, "junit") || is_word(&v, "xml") {
            Some(ReportFormat::Junit)
        } else if is_word(&v, "json") {
            Some(ReportFormat::Json)
        } else if is_word(&v, "compact") {
            Some(ReportFormat::Compact)
        } else if is_word(&v, "github") || is_word(&v, "gh") {
            Some(ReportFormat::Github)
        } else {
            None
        }
    }

    /// Parses a format name, ignoring case.
    pub fn parse_name(s: &str) -> (r: Result<ReportFormat, String>)
        ensures
            match report_format_named(lowercase(s@)) {
                Some(f) => r == Ok::<ReportFormat, String>(f),
                None => r is Err && r->Err_0@ == "unknown report format: "@ + s@,
            },
    {
        let lower = to_lowercase(s);
        match ReportFormat::from_lowercase(lower.as_str()) {
            Some(f) => Ok(f),
            None => {
                let mut out: Vec<char> = Vec::new();
                push_str(&mut out, "unknown report format: ");
                push_str(&mut out, s);
                Err(string_from_chars(&out))
            },
        }
    }
}

impl std::str::FromStr for ReportFormat {
    type Err = String;

    fn from_str(s: &str) -> (r: Result<ReportFormat, String>)
        ensures
            match report_format_named(lowercase(s@)) {
                Some(f) => r == Ok::<ReportFormat, String>(f),
                None => r is Err && r->Err_0@ == "unknown report format: "@ + s@,
            },
    {
        ReportFormat::parse_name(s)
    }
}

/// Output format for coverage reports.
#[derive(Clone, Copy, Debug, PartialEq, Eq, Structural, Default)]
pub enum CoverageFormat {
    /// Plain-text summary printed to stdout.
    #[default]
    Summary,
    /// HTML report with line-level detail.
    Html,
    /// LCOV tracefile (for IDE integration, Coveralls, etc.).
    Lcov,
    /// Machine-readable JSON.
    Json,
    /// Cobertura XML (for Jenkins, GitLab, etc.).
    Cobertura,
}

/// The coverage format a lower-case name selects.
pub open spec fn coverage_format_named(name: Seq<char>) -> Option<CoverageFormat> {
    if name == "summary"@ || name == "text"@ {
        Some(CoverageFormat::Summary)
    } else if name == "html"@ {
        Some(CoverageFormat::Html)
    } else if name == "lcov"@ || name == "tracefile"@ {
        Some(CoverageFormat::Lcov)
    } else if name == "json"@ {
        Some(CoverageFormat::Json)
    } else if name == "cobertura"@ || name == "xml"@ {
        Some(CoverageFormat::Cobertura)
    } else {
        None
    }
}

/// The canonical name of a coverage format.
pub open spec fn coverage_format_text(f: CoverageFormat) -> Seq<char> {
    match f {
        CoverageFormat::Summary => "summary"@,
        CoverageFormat::Html => "html"@,
        CoverageFormat::Lcov => "lcov"@,
        CoverageFormat::Json => "json"@,
        CoverageFormat::Cobertura => "cobertura"@,
    }
}

/// The file a coverage report of the given format is written to.
pub open spec fn coverage_file_name(f: CoverageFormat) -> Seq<char> {
    match f {
        CoverageFormat::Summary => "summary.txt"@,
        CoverageFormat::Html => "index.html"@,
        CoverageFormat::Lcov => "lcov.info"@,
        CoverageFormat::Json => "coverage.json"@,
        CoverageFormat::Cobertura => "cobertura.xml"@,
    }
}

impl CoverageFormat {
    /// The format selected by an already lower-cased name.
    pub fn from_lowercase(name: &str) -> (r: Option<CoverageFormat>)
        ensures
            r == coverage_format_named(name@),
    {
        let v = chars_of(name);
        if is_word(&v, "summary") || is_word(&v, "text") {
            Some(CoverageFormat::Summary)
        } else if is_word(&v, "html") {
            Some(CoverageFormat::Html)
        } else if is_word(&v, "lcov") || is_word(&v, "tracefile") {
            Some(CoverageFormat::Lcov)
        } else if is_word(&v, "json") {
            Some(CoverageFormat::Json)
        } else if is_word(&v, "cobertura") || is_word(&v, "xml") {
            Some(CoverageFormat::Cobertura)
        } else {
            None
        }
    }

    /// Parses a coverage format name, ignoring case.
    pub fn parse_name(s: &str) -> (r: Result<CoverageFormat, String>)
        ensures
            match coverage_format_named(lowercase(s@)) {
                Some(f) => r == Ok::<CoverageFormat, String>(f),
                None => r is Err && r->Err_0@ == "unknown coverage format: "@ + s@,
            },
    {
        let lower = to_lowercase(s);
        match CoverageFormat::from_lowercase(lower.as_str()) {
            Some(f) => Ok(f),
            None => {
                let mut out: Vec<char> = Vec::new();
                push_str(&mut out, "unknown coverage format: ");
                push_str(&mut out, s);
                Err(string_from_chars(&out))
            },
        }
    }

    /// The canonical (lower-case) name of the format.
    pub fn name(&self) -> (r: String)
        ensures
            r@ == coverage_format_text(*self),
    {
        match self {
            CoverageFormat::Summary => owned("summary"),
            CoverageFormat::Html => owned("html"),
            CoverageFormat::Lcov => owned("lcov"),
            CoverageFormat::Json => owned("json"),
            CoverageFormat::Cobertura => owned("cobertura"),
        }
    }
}

impl std::str::FromStr for CoverageFormat {
    type Err = String;

    fn from_str(s: &str) -> (r: Result<CoverageFormat, String>)
        ensures
            match coverage_format_named(lowercase(s@)) {
                Some(f) => r == Ok::<CoverageFormat, String>(f),
                None => r is Err && r->Err_0@ == "unknown coverage format: "@ + s@,
            },
    {
        CoverageFormat::parse_name(s)
    }
}

/// The file name a coverage report of `format` is written to.
pub fn report_filename(format: CoverageFormat) -> (r: String)
    ensures
        r@ == coverage_file_name(format),
{
    match format {
        CoverageFormat::Summary => owned("summary.txt"),
        CoverageFormat::Html => owned("index.html"),
        CoverageFormat::Lcov => owned("lcov.info"),
        CoverageFormat::Json => owned("coverage.json"),
        CoverageFormat::Cobertura => owned("cobertura.xml"),
    }
}

// ---------------------------------------------------------------------------
// Runner configuration
// ---------------------------------------------------------------------------

/// Global configuration for a test run.
#[derive(Clone, Debug)]
pub struct RunnerConfig {
    /// Only run tests whose name contains this string.
    pub filter: Option<String>,
    /// Only run tests carrying *all* of these tags.
    pub include_tags: Vec<String>,
    /// Skip tests carrying *any* of these tags.
    pub exclude_tags: Vec<String>,
    /// Default number of retries for flaky tests.
    pub default_retries: u32,
    /// Default per-test timeout.
    pub default_timeout: Option<Duration>,
    /// Whether to run tests in parallel.
    pub parallel: bool,
    /// Maximum number of threads for parallel execution.
    pub max_threads: usize,
    /// Output format for results.
    pub format: ReportFormat,
    /// Stop after the first failure.
    pub fail_fast: bool,
    /// Seed for randomised features (property testing, shuffle).
    pub seed: Option<u64>,
    /// Show detailed output for each test.
    pub verbose: bool,
}

/// The thread count assumed when the machine's parallelism is not asked.
pub const DEFAULT_MAX_THREADS: usize = 4;

impl RunnerConfig {
    /// The default configuration: no filters, no retries or timeout,
    /// parallel, pretty output, no fail-fast, no seed, not verbose.
    pub open spec fn is_default(&self) -> bool {
        &&& self.filter is None
        &&& self.include_tags@.len() == 0
        &&& self.exclude_tags@.len() == 0
        &&& self.default_retries == 0
        &&& self.default_timeout is None
        &&& self.parallel
        &&& self.format == ReportFormat::Pretty
        &&& !self.fail_fast
        &&& self.seed is None
        &&& !self.verbose
    }

    /// The default configuration with an explicit thread budget.
    pub fn with_threads(max_threads: usize) -> (c: RunnerConfig)
        ensures
            c.is_default(),
            c.max_threads == max_threads,
    {
        RunnerConfig {
            filter: None,
            include_tags: Vec::new(),
            exclude_tags: Vec::new(),
            default_retries: 0,
            default_timeout: None,
            parallel: true,
            max_threads,
            format: ReportFormat::Pretty,
            fail_fast: false,
            seed: None,
            verbose: false,
        }
    }
}

impl Default for RunnerConfig {
    fn default() -> (c: RunnerConfig)
        ensures
            c.is_default(),
            c.max_threads == DEFAULT_MAX_THREADS,
    {
        RunnerConfig::with_threads(DEFAULT_MAX_THREADS)
    }
}

} // verus!
