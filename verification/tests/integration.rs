use std::sync::atomic::{AtomicBool, Ordering};
use std::sync::Arc;

use rvtest::arch::{arch_check, SourceFile};
use rvtest::model::{RunnerConfig, TestRun};
use rvtest::report::{CompactReporter, JsonReporter, PrettyReporter, TapReporter, TestReporter};
use rvtest::runner::TestRunner;
use rvtest::spec::{describe, AttemptOutcome, CollectedTest, TestFn, TestOutcome};

/// Runs a test body once; a failing body fails the surrounding test.
fn execute(t: &CollectedTest) -> TestOutcome {
    (t.test_fn.f)();
    TestOutcome::Attempts(vec![AttemptOutcome::Returned])
}

/// Runs a lifecycle hook.
fn run_hook(h: &TestFn) {
    (h.f)()
}

#[test]
fn rvtest_runner() {
    describe("Runner")
        .it("executes specs with custom config", || {
            let config = RunnerConfig {
                parallel: false,
                verbose: true,
                ..RunnerConfig::default()
            };

            let run = TestRunner::new(config)
                .add_spec(describe("Runner test").it("works", || {}))
                .run(&execute, &run_hook);

            assert!(run.success());
            assert_eq!(run.total(), 1);
        })
        .tag("runner")
        .run(&execute, &run_hook)
        .assert_all_pass();
}

/// The import and module lines of each source file of this crate.
fn crate_layout() -> Vec<SourceFile> {
    vec![
        SourceFile { path: "arch.rs".to_owned(), content: "mod graph;\nuse crate::model::text::{\n".to_owned() },
        SourceFile { path: "arch/graph.rs".to_owned(), content: "use crate::model::text::{\n".to_owned() },
        SourceFile { path: "cli.rs".to_owned(), content: "use crate::model::spec::opt_view;\nuse crate::model::text::{\nuse crate::model::{Duration, ReportFormat, TestCase, TestRun, TestStatus, TestSuite};\nuse crate::report::push_coloured;\nuse crate::runner::{render_report, rendered};\n".to_owned() },
        SourceFile { path: "coverage.rs".to_owned(), content: "use crate::model::text::{\nuse crate::model::CoverageFormat;\n".to_owned() },
        SourceFile { path: "coverage_raw.rs".to_owned(), content: "use crate::model::text::{dec, hex_padded, push_dec, push_hex_padded, push_str, string_from_chars};\n".to_owned() },
        SourceFile { path: "lib.rs".to_owned(), content: "pub mod arch;\npub mod cli;\npub mod coverage;\npub mod coverage_raw;\npub mod model;\npub mod param;\npub mod property;\npub mod report;\npub mod runner;\npub mod snapshot;\n".to_owned() },
        SourceFile { path: "model/mod.rs".to_owned(), content: "pub mod text;\npub mod spec;\npub mod tag;\n".to_owned() },
        SourceFile { path: "model/spec.rs".to_owned(), content: "use crate::model::tag::{name_matches, name_selected, tags_match, tags_selected};\nuse crate::model::text::{owned, push_str, string_from_chars};\nuse crate::model::{\n".to_owned() },
        SourceFile { path: "model/tag.rs".to_owned(), content: "use crate::model::text::{chars_of, contains_exec, contains_seq, lowercase, to_lowercase};\nuse crate::model::RunnerConfig;\n".to_owned() },
        SourceFile { path: "model/text.rs".to_owned(), content: "".to_owned() },
        SourceFile { path: "param.rs".to_owned(), content: "use crate::model::spec::opt_view;\nuse crate::model::text::{dec, owned, push_dec, push_str, string_from_chars};\nuse crate::model::{Duration, TestCase, TestStatus};\n".to_owned() },
        SourceFile { path: "property.rs".to_owned(), content: "".to_owned() },
        SourceFile { path: "report.rs".to_owned(), content: "use crate::model::text::{\nuse crate::model::{\n".to_owned() },
        SourceFile { path: "runner.rs".to_owned(), content: "use crate::model::spec::{\nuse crate::model::{elapsed_since, instant_now, now, ReportFormat, RunnerConfig, TestRun, TestSuite};\nuse crate::report::{\n".to_owned() },
        SourceFile { path: "snapshot.rs".to_owned(), content: "use crate::model::text::{chars_of, dec, lines, push_chars, push_dec, push_str, split_lines, string_from_chars, views};\n".to_owned() },
    ]
}


#[test]
fn rvtest_architecture() {
    // The model does not depend on reporting, coverage or the runner.
    let check = arch_check()
        .module("model").may_not_depend_on(&["report", "coverage", "runner"])
        .module("report").may_depend_on(&["model"])
        .module("report").may_not_depend_on(&["coverage", "runner"])
        .module("runner").may_depend_on(&["model", "report"])
        .all_modules().must_not_have_cycles();
    let result = check.run(&crate_layout());
    assert!(result.is_ok(), "{:?}", result);
}

#[test]
fn rvtest_reporters() {
    describe("Reporters")
        .it("pretty reporter shows summary", || {
            let report = PrettyReporter::new(false).colour(false).report(&TestRun::new());
            assert!(report.contains("0 passed"), "should show pass count");
            assert!(report.contains("0 failed"), "should show fail count");
        })
        .it("tap reporter outputs correct header", || {
            let report = TapReporter.report(&TestRun::new());
            assert!(report.starts_with("1..0"));
        })
        .it("compact reporter shows counts", || {
            let report = CompactReporter.report(&TestRun::new());
            assert!(report.contains("Results:"), "should have results line: {report:?}");
            assert!(report.contains("0/0"), "should show zero counts");
        })
        .it("json reporter is valid", || {
            let report = JsonReporter.report(&TestRun::new());
            assert!(report.contains(r#""success":true"#));
            assert!(report.contains(r#""suites":["#));
        })
        .tag("report")
        .run(&execute, &run_hook)
        .assert_all_pass();
}

#[test]
fn spec_runs_passing_tests_tags_and_hooks() {
    describe("Math")
        .it("adds", || assert_eq!(2 + 2, 4))
        .it("subtracts", || assert_eq!(5 - 3, 2))
        .run(&execute, &run_hook)
        .assert_all_pass();

    let suite = describe("Tagged")
        .it("passing", || {})
        .tag("smoke")
        .timeout(rvtest::model::Duration::from_secs(1))
        .run(&execute, &run_hook);
    assert!(suite.success());
    assert_eq!(suite.tests.len(), 1);
    assert_eq!(suite.tests[0].name, "Tagged :: passing");
    assert_eq!(suite.tests[0].tags, vec!["smoke".to_owned()]);

    let ran = Arc::new(AtomicBool::new(false));
    let setup = Arc::clone(&ran);
    let seen = Arc::clone(&ran);
    describe("Setup")
        .before_all(move || setup.store(true, Ordering::SeqCst))
        .it("hook executed", move || assert!(seen.load(Ordering::SeqCst), "before_all should have run"))
        .run(&execute, &run_hook)
        .assert_all_pass();
}

#[test]
fn nested_specs_name_their_tests() {
    let suite = describe("Outer")
        .it("first", || {})
        .describe("Inner")
        .it("second", || {})
        .tag("deep")
        .run(&execute, &run_hook);
    let names: Vec<&str> = suite.tests.iter().map(|t| t.name.as_str()).collect();
    assert_eq!(names, vec!["Outer :: first", "Outer :: Inner :: second"]);
    assert_eq!(suite.tests[1].suite.as_deref(), Some("Outer :: Inner"));
    assert_eq!(suite.tests[1].tags, vec!["deep".to_owned()]);
}

#[test]
fn tag_and_name_filters_select_tests() {
    let config = RunnerConfig { include_tags: vec!["fast".to_owned()], ..RunnerConfig::default() };
    let suite = describe("Filtered").it("kept", || {}).tag("fast").run_with_config(&config, &execute, &run_hook);
    assert_eq!(suite.tests.len(), 1);
    let config = RunnerConfig { filter: Some("KEPT".to_owned()), ..RunnerConfig::default() };
    let suite = describe("Filtered").it("kept", || {}).it("dropped", || {}).run_with_config(&config, &execute, &run_hook);
    assert_eq!(suite.tests.len(), 1);
    assert_eq!(suite.tests[0].name, "Filtered :: kept");
}
