use std::sync::{Arc, Mutex};

use rvtest::model::{Duration, RunnerConfig, SourceLocation, TestCase, TestRun, TestStatus, TestSuite};
use rvtest::arch::{arch_check, SourceFile};
use rvtest::report::{GithubReporter, TestReporter};
use rvtest::runner::{run_tests, TestRunner};
use rvtest::spec::{describe, settle_attempts, AttemptOutcome, CollectedTest, TestFn, TestOutcome};

fn panicked(message: &str) -> AttemptOutcome {
    AttemptOutcome::Panicked { message: message.to_owned() }
}

/// Reports a panic for every test whose name mentions "bad", a return
/// otherwise, without running any body.
fn bad_ones_fail(t: &CollectedTest) -> TestOutcome {
    if t.full_name.contains("bad") {
        TestOutcome::Attempts(vec![panicked("boom")])
    } else {
        TestOutcome::Attempts(vec![AttemptOutcome::Returned])
    }
}

fn no_hooks(_: &TestFn) {}

#[test]
fn a_reported_panic_fails_the_test_with_its_message() {
    let suite = describe("Failing").it("bad", || {}).it("fine", || {}).run(&bad_ones_fail, &no_hooks);
    assert_eq!(suite.tests.len(), 2);
    assert_eq!(suite.tests[0].name, "Failing :: bad");
    assert_eq!(suite.tests[0].status, TestStatus::Failed { reason: "boom".to_owned(), location: None });
    assert_eq!(suite.tests[1].status, TestStatus::Passed);
    assert!(!suite.success());
}

#[test]
fn fail_fast_stops_after_the_first_failure() {
    let config = RunnerConfig { fail_fast: true, ..RunnerConfig::default() };
    let spec = || describe("F").it("one", || {}).it("bad", || {}).it("three", || {});
    let suite = spec().run_with_config(&config, &bad_ones_fail, &no_hooks);
    assert_eq!(suite.tests.len(), 2);
    assert!(suite.tests[1].status.is_failed());
    let suite = spec().run(&bad_ones_fail, &no_hooks);
    assert_eq!(suite.tests.len(), 3);
}

#[test]
fn retries_decide_from_the_attempts() {
    let flaky = |_: &CollectedTest| TestOutcome::Attempts(vec![panicked("first attempt fails"), AttemptOutcome::Returned]);
    let suite = describe("Flaky").it("succeeds on retry", || {}).retries(2).run(&flaky, &no_hooks);
    assert_eq!(suite.tests[0].status, TestStatus::Passed);
    let once = |_: &CollectedTest| TestOutcome::Attempts(vec![panicked("no")]);
    let suite = describe("Once").it("fails", || {}).run(&once, &no_hooks);
    assert_eq!(suite.tests[0].status, TestStatus::Failed { reason: "no".to_owned(), location: None });
    assert_eq!(settle_attempts(&vec![panicked("a"), panicked("b")], 1), Some(TestStatus::Failed { reason: "b".to_owned(), location: None }));
    assert_eq!(settle_attempts(&vec![panicked("a")], 1), None);
}

#[test]
fn a_timeout_is_recorded_at_the_limit() {
    let slow = |_: &CollectedTest| TestOutcome::TimedOut;
    let suite = describe("T").it("slow", || {}).timeout(Duration::from_millis(50)).run(&slow, &no_hooks);
    assert_eq!(suite.tests.len(), 1);
    assert_eq!(suite.tests[0].status, TestStatus::TimedOut { duration: Duration::from_millis(50), location: None });
    assert!(suite.tests[0].status.is_failed());
}

#[test]
fn an_unsettled_outcome_ends_the_run() {
    let nothing = |_: &CollectedTest| TestOutcome::Attempts(Vec::new());
    let suite = describe("U").it("a", || {}).it("b", || {}).run(&nothing, &no_hooks);
    assert!(suite.tests.is_empty());
}

#[test]
fn hooks_run_per_block() {
    let log = Arc::new(Mutex::new(Vec::<String>::new()));
    let (a, b, c, d) = (log.clone(), log.clone(), log.clone(), log.clone());
    let hook = |h: &TestFn| (h.f)();
    let suite = describe("Outer")
        .before_all(move || a.lock().unwrap().push("outer up".to_owned()))
        .after_all(move || b.lock().unwrap().push("outer down".to_owned()))
        .it("x", || {})
        .describe("Inner")
        .before_all(move || c.lock().unwrap().push("inner up".to_owned()))
        .after_all(move || d.lock().unwrap().push("inner down".to_owned()))
        .it("y", || {})
        .run(&bad_ones_fail, &hook);
    assert_eq!(suite.tests.len(), 2);
    assert_eq!(*log.lock().unwrap(), vec!["outer up", "inner up", "inner down", "outer down"]);
}

#[test]
fn success_means_every_test_passed() {
    let mut skipped = TestCase::new("s");
    skipped.status = TestStatus::Skipped { reason: None };
    let mut suite = TestSuite::new("only skipped");
    suite.tests.push(skipped);
    assert!(!suite.success());
    let report = suite.failure_report().expect("a test did not pass");
    assert!(report.starts_with("1 test(s) failed in suite 'only skipped':\n"), "{report:?}");
    assert!(report.ends_with("\u{2014} unknown\n"), "{report:?}");
    let mut run = TestRun::new();
    assert!(run.success());
    run.suites.push(suite);
    assert!(!run.success());
}

#[test]
fn github_annotation_separates_title_and_message() {
    let mut t = TestCase::new("Calculator :: adds");
    t.status = TestStatus::Failed {
        reason: "assertion failed".to_owned(),
        location: Some(SourceLocation { file: "tests/demo.rs".to_owned(), line: 42, column: None }),
    };
    let mut suite = TestSuite::new("Calculator");
    suite.tests.push(t);
    suite.tests.push(TestCase::new("Calculator :: passes"));
    let mut run = TestRun::new();
    run.suites.push(suite);
    let report = GithubReporter.report(&run);
    let errors: Vec<&str> = report.lines().filter(|l| l.starts_with("::error")).collect();
    assert_eq!(errors, vec!["::error file=tests/demo.rs,line=42,title=Calculator :: adds \u{2014} assertion failed"]);
}

#[test]
fn public_items_need_doc_comments() {
    let bare = vec![SourceFile { path: "lib.rs".to_owned(), content: "pub fn undocumented() {}\n".to_owned() }];
    let r = arch_check().all_modules().public_api_doc_required().run(&bare);
    assert_eq!(r, Err("  lib.rs:1 undocumented public item: pub fn undocumented() {}".to_owned()));
    let documented = vec![SourceFile {
        path: "lib.rs".to_owned(),
        content: "/// A thing.\n#[derive(Debug)]\npub struct Thing;\npub use crate::x;\nfn private() {}\n".to_owned(),
    }];
    assert_eq!(arch_check().all_modules().public_api_doc_required().run(&documented), Ok(()));
}

#[test]
fn run_tests_and_the_runner_agree() {
    let specs = || vec![describe("A").it("fine", || {}).it("bad", || {}), describe("B").it("ok", || {})];
    let a = run_tests(specs(), &bad_ones_fail, &no_hooks);
    let b = TestRunner::new(RunnerConfig::default()).add_specs(specs()).run(&bad_ones_fail, &no_hooks);
    assert_eq!(a.suites.len(), b.suites.len());
    for (x, y) in a.suites.iter().zip(b.suites.iter()) {
        assert_eq!(x.name, y.name);
        let xs: Vec<(&str, &TestStatus)> = x.tests.iter().map(|t| (t.name.as_str(), &t.status)).collect();
        let ys: Vec<(&str, &TestStatus)> = y.tests.iter().map(|t| (t.name.as_str(), &t.status)).collect();
        assert_eq!(xs, ys);
    }
    assert!(a.count_fits());
    assert!(rvtest::model::now().since_epoch.as_nanos() > 0);
}

#[test]
fn hook_lists_hold_each_hook_once() {
    let spec = describe("T").before_all(|| {}).after_all(|| {});
    assert_eq!(spec.setup_hooks().len(), 1);
    assert_eq!(spec.teardown_hooks().len(), 1);
    assert!(describe("Bare").setup_hooks().is_empty());
}
