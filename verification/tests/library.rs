use rvtest::arch::{arch_check, parse_deps, path_to_module, ArchCheck, SourceFile};
use rvtest::cli::{dim, parse_cargo_test_output, render};
use rvtest::coverage::{
    compiler_artifact_files, count_code_lines, llvm_cov_format_flag, matches_pattern, test_executable_files, writes_report_file,
    llvm_show_format, parse_addr2line, raw_profiles_supported, CargoArtifact,
};
use rvtest::model::{
    CoverageFormat, Duration, ReportFormat, RunnerConfig, SourceLocation, TestCase, TestRun, TestStatus, TestSuite,
};
use rvtest::param::{labelled_cases, panic_reason, parametrized_cases, CaseOutcome};
use rvtest::coverage_raw::{coverage_counts, parse_is_defined, parse_raw_profile, EXPECTED_VERSION, RAW_MAGIC};
use rvtest::report::{escape_github, escape_json, escape_xml, CompactReporter, PrettyReporter, TapReporter, TestReporter};
use rvtest::snapshot::{default_snapshot_dir, judge_snapshot, simple_diff, snapshot_file_name};
use rvtest::tag::{name_matches, tags_match};

fn file(path: &str, content: &str) -> SourceFile {
    SourceFile { path: path.to_owned(), content: content.to_owned() }
}

fn cyclic_files() -> Vec<SourceFile> {
    vec![
        file("a.rs", "use crate::b;\nuse crate::c::thing;\n"),
        file("b.rs", "use crate::a::{x, y};\n"),
        file("c.rs", "// no imports\n"),
    ]
}

#[test]
fn parse_deps_reads_use_and_mod_lines() {
    let deps = parse_deps(
        "use crate::model::text::{a, b};\npub mod report;\n// use crate::hidden;\n#[cfg(test)]\nmod tests;\n  use crate::model;\nuse std::fmt;\n",
    );
    assert_eq!(deps, vec!["model".to_owned(), "report".to_owned(), "tests".to_owned()]);
}

#[test]
fn path_to_module_names_files() {
    assert_eq!(path_to_module("lib.rs"), "lib");
    assert_eq!(path_to_module("mod.rs"), "crate_root");
    assert_eq!(path_to_module("model/mod.rs"), "model");
    assert_eq!(path_to_module("model/spec.rs"), "model::spec");
    assert_eq!(path_to_module("a/b/c.rs"), "a::b::c");
}

#[test]
fn arch_allow_list_violation_is_reported() {
    let r = arch_check().module("a").may_depend_on(&["c"]).run(&cyclic_files());
    assert_eq!(r, Err("  a must not depend on b (allowed: c)".to_owned()));
}

#[test]
fn arch_deny_list_violation_is_reported() {
    let r = arch_check().module("a").may_not_depend_on(&["c", "zzz"]).run(&cyclic_files());
    assert_eq!(r, Err("  a must not depend on c".to_owned()));
}

#[test]
fn arch_first_rule_of_a_module_is_constrained() {
    // The second selection adds a fresh rule; the constraint lands on the first.
    let r = arch_check()
        .module("a")
        .may_depend_on(&["b", "c"])
        .module("a")
        .may_not_depend_on(&["b"])
        .run(&cyclic_files());
    assert_eq!(r, Err("  a must not depend on b".to_owned()));
}

#[test]
fn arch_cycle_is_reported() {
    let r = arch_check().all_modules().must_not_have_cycles().run(&cyclic_files());
    assert_eq!(r, Err("  cycle detected: a \u{2192} b".to_owned()));
}

#[test]
fn arch_acyclic_graph_passes() {
    let files = vec![file("a.rs", "use crate::b;\n"), file("b.rs", "use crate::c;\n"), file("c.rs", "")];
    assert_eq!(arch_check().all_modules().must_not_have_cycles().run(&files), Ok(()));
}

#[test]
fn arch_rules_without_constraints_pass() {
    let c: ArchCheck = arch_check().module("a").into();
    assert_eq!(c.run(&cyclic_files()), Ok(()));
    assert_eq!(arch_check().all_modules().public_api_doc_required().run(&cyclic_files()), Ok(()));
    assert_eq!(arch_check().run(&cyclic_files()), Ok(()));
}

#[test]
fn arch_violations_are_joined_by_newlines() {
    let r = arch_check()
        .module("a")
        .may_not_depend_on(&["b", "c"])
        .all_modules()
        .must_not_have_cycles()
        .run(&cyclic_files());
    assert_eq!(
        r,
        Err("  a must not depend on b\n  a must not depend on c\n  cycle detected: a \u{2192} b".to_owned())
    );
}

#[test]
fn arch_source_dir_defaults_to_src() {
    assert_eq!(arch_check().source_dir(), "src");
    assert_eq!(arch_check().src_dir("lib/src").source_dir(), "lib/src");
}

#[test]
fn cargo_output_is_parsed() {
    let out = "running 3 tests\n\
               test a::one ... ok\n\
               test a::two ... FAILED\n\
               test a::three ... ignored, needs network\n\
               \n\
               failures:\n\
               \n\
               ---- a::two stdout ----\n\
               thread 'a::two' panicked at src/lib.rs:3:5:\n\
               boom\n\
               \n\
               failures:\n\
               \x20   a::two\n\
               \n\
               test result: FAILED. 1 passed; 1 failed; 1 ignored\n";
    let suites = parse_cargo_test_output(out);
    assert_eq!(suites.len(), 1);
    let s = &suites[0];
    assert_eq!(s.name, "cargo test");
    assert_eq!(s.tests.len(), 3);
    assert_eq!(s.tests[0].name, "a::one");
    assert!(matches!(s.tests[0].status, TestStatus::Passed));
    assert_eq!(s.tests[1].name, "a::two");
    match &s.tests[1].status {
        TestStatus::Failed { reason, location } => {
            assert_eq!(reason, "thread 'a::two' panicked at src/lib.rs:3:5:\nboom");
            assert!(location.is_none());
        },
        _ => panic!("a::two should have failed"),
    }
    match &s.tests[2].status {
        TestStatus::Skipped { reason } => assert_eq!(reason.as_deref(), Some("needs network")),
        _ => panic!("a::three should be skipped"),
    }
    assert_eq!(s.tests[2].suite.as_deref(), Some("cargo test"));
}

#[test]
fn cargo_output_without_tests_gives_no_suite() {
    assert!(parse_cargo_test_output("").is_empty());
    assert!(parse_cargo_test_output("running 0 tests\n\ntest result: ok. 0 passed\n").is_empty());
}

#[test]
fn cargo_ignored_without_reason() {
    let suites = parse_cargo_test_output("test x ... ignored\n");
    match &suites[0].tests[0].status {
        TestStatus::Skipped { reason } => assert!(reason.is_none()),
        _ => panic!("x should be skipped"),
    }
}

fn sample_run() -> TestRun {
    let mut a = TestCase::new("a");
    a.duration = Duration::from_micros(1500);
    let mut b = TestCase::new("b");
    b.status = TestStatus::Failed { reason: "boom\nbang".to_owned(), location: None };
    let mut c = TestCase::new("c");
    c.status = TestStatus::Skipped { reason: None };
    let mut suite = TestSuite::new("s");
    suite.tests = vec![a, b, c];
    let mut run = TestRun::new();
    run.suites.push(suite);
    run
}

#[test]
fn tap_report_is_exact() {
    let report = TapReporter.report(&sample_run());
    assert_eq!(
        report,
        "1..3\nok 1 - a [1.5ms]\nnot ok 2 - b [0.0ms]\n  boom\n  bang\nnot ok 3 - c [0.0ms]\n  # SKIP no reason given\n"
    );
}

#[test]
fn compact_report_counts() {
    let report = CompactReporter.report(&sample_run());
    assert!(report.starts_with("PASS    1.5ms  a\nFAIL    0.0ms  b\nSKIP    0.0ms  c\n"), "{report:?}");
    assert!(report.contains("Results: 1/3 passed, 1 failed, 1 skipped  (0.00s)"), "{report:?}");
}

#[test]
fn render_follows_the_format() {
    let run = sample_run();
    assert_eq!(render(&ReportFormat::Tap, false, &run), TapReporter.report(&run));
    assert_eq!(render(&ReportFormat::Compact, true, &run), CompactReporter.report(&run));
}

#[test]
fn dim_wraps_in_escape_codes() {
    assert_eq!(dim("cargo test"), "\x1b[2mcargo test\x1b[0m");
}

#[test]
fn run_tallies_partition_the_cases() {
    let run = sample_run();
    assert_eq!(run.total(), 3);
    assert_eq!(run.total_passed() + run.total_failed() + run.total_skipped(), run.total());
    assert!(!run.success());
}

#[test]
fn name_filter_ignores_case() {
    assert!(name_matches("Parser::Handles_Input", Some("handles")));
    assert!(name_matches("anything", None));
    assert!(name_matches("anything", Some("")));
    assert!(!name_matches("parser", Some("lexer")));
}

#[test]
fn tag_filter_needs_all_included_and_no_excluded() {
    let mut config = RunnerConfig::default();
    config.include_tags = vec!["fast".to_owned(), "unit".to_owned()];
    config.exclude_tags = vec!["flaky".to_owned()];
    assert!(tags_match(&["unit".to_owned(), "fast".to_owned()], &config));
    assert!(!tags_match(&["fast".to_owned()], &config));
    assert!(!tags_match(&["fast".to_owned(), "unit".to_owned(), "flaky".to_owned()], &config));
}

#[test]
fn report_format_names_ignore_case() {
    assert!(matches!(ReportFormat::parse_name("TAP"), Ok(ReportFormat::Tap)));
    assert!(matches!(ReportFormat::parse_name("Xml"), Ok(ReportFormat::Junit)));
    assert_eq!(ReportFormat::parse_name("Yaml").err(), Some("unknown report format: Yaml".to_owned()));
}

#[test]
fn formats_parse_through_from_str() {
    assert!(matches!("Json".parse::<ReportFormat>(), Ok(ReportFormat::Json)));
    assert!(matches!("GH".parse::<ReportFormat>(), Ok(ReportFormat::Github)));
    assert_eq!("yaml".parse::<ReportFormat>().err(), Some("unknown report format: yaml".to_owned()));
    assert!(matches!("TraceFile".parse::<CoverageFormat>(), Ok(CoverageFormat::Lcov)));
    assert!(matches!("xml".parse::<CoverageFormat>(), Ok(CoverageFormat::Cobertura)));
    assert_eq!("Pdf".parse::<CoverageFormat>().err(), Some("unknown coverage format: Pdf".to_owned()));
}

#[test]
fn simple_diff_lists_differing_lines() {
    assert_eq!(simple_diff("a\nb", "a\nc", "p.snap"), "  p.snap | b\n  p.snap | c\n");
    assert_eq!(simple_diff("a", "a\nd", "p"), "  p |\x20\n  p | d\n");
}

#[test]
fn simple_diff_counts_lines_when_none_differ() {
    assert_eq!(simple_diff("a", "a\n", "p"), "  p: snapshot has 1 lines, actual has 1 lines\n");
}

#[test]
fn snapshot_names_are_made_safe() {
    assert_eq!(snapshot_file_name("my test/\u{e9}-1_x"), "my_test_\u{e9}-1_x.snap");
}

#[test]
fn snapshot_dir_prefers_dot_snapshots() {
    assert_eq!(default_snapshot_dir(true, true), ".snapshots");
    assert_eq!(default_snapshot_dir(false, true), "tests/.snapshots");
    assert_eq!(default_snapshot_dir(false, false), ".snapshots");
}

#[test]
fn new_snapshot_is_written_and_fails_for_review() {
    let v = judge_snapshot("s", "v", None, false, "\"p\"", "p");
    assert!(v.write);
    assert_eq!(
        v.result,
        Err("snapshot `s` created at \"p\".\nReview the content and commit the snapshot file.\nUse `--update-all` to auto-accept new snapshots.".to_owned())
    );
    let v = judge_snapshot("s", "v", None, true, "\"p\"", "p");
    assert!(v.write);
    assert_eq!(v.result, Ok(()));
}

#[test]
fn matching_snapshot_passes() {
    let v = judge_snapshot("s", "v", Some("v".to_owned()), false, "\"p\"", "p");
    assert!(!v.write);
    assert_eq!(v.result, Ok(()));
}

#[test]
fn differing_snapshot_fails_with_diff_or_is_updated() {
    let v = judge_snapshot("s", "v", Some("w".to_owned()), false, "\"p\"", "p");
    assert!(!v.write);
    assert_eq!(
        v.result,
        Err("snapshot `s` mismatch!\nexpected (snapshot)\nactual (new)\n  p | w\n  p | v\n\nRerun with `--update-all` to accept the new snapshot.".to_owned())
    );
    let v = judge_snapshot("s", "v", Some("w".to_owned()), true, "\"p\"", "p");
    assert!(v.write);
    assert_eq!(v.result, Ok(()));
}

fn outcome(input: &str, panic: Option<&str>) -> CaseOutcome {
    CaseOutcome { input: input.to_owned(), panic: panic.map(|p| p.to_owned()), duration: Duration::zero() }
}

#[test]
fn rvtest_parametrized() {
    let inputs = [(1, 1, 2), (0, 0, 0), (-1, 1, 0)];
    let outcomes: Vec<CaseOutcome> = inputs
        .iter()
        .map(|(a, b, exp)| {
            let failure = if a + b == *exp { None } else { Some("assertion failed") };
            outcome(&format!("{:?}", (a, b, exp)), failure)
        })
        .collect();
    let results = parametrized_cases("add", outcomes);
    assert!(results.iter().all(|c| c.status.is_passed()));
    assert_eq!(results.len(), 3);
    assert_eq!(results[2].name, "add[2]");
    assert_eq!(results[0].suite.as_deref(), Some("add"));
    assert_eq!(results[0].parameters, vec![("input".to_owned(), "(1, 1, 2)".to_owned())]);

    let labelled = labelled_cases(
        "parse",
        vec![("empty".to_owned(), outcome("\"\"", None)), ("valid".to_owned(), outcome("\"42\"", None))],
    );
    assert!(labelled.iter().all(|c| c.status.is_passed()));
    assert_eq!(labelled[0].name, "parse :: empty");
    assert_eq!(labelled[1].name, "parse :: valid");
}

#[test]
fn failed_parameter_case_keeps_the_panic_message() {
    let results = parametrized_cases("div", vec![outcome("0", Some("attempt to divide by zero"))]);
    match &results[0].status {
        TestStatus::Failed { reason, location } => {
            assert_eq!(reason, "attempt to divide by zero");
            assert!(location.is_none());
        },
        _ => panic!("case should have failed"),
    }
    assert_eq!(panic_reason(None), "test panicked");
    assert_eq!(panic_reason(Some("x".to_owned())), "x");
}

#[test]
fn code_lines_skip_blanks_and_comments() {
    assert_eq!(count_code_lines("fn a() {}\n\n// c\n   // d\nlet x = 1;\n"), 2);
    assert_eq!(count_code_lines(""), 0);
}

#[test]
fn profile_patterns_match_by_stem() {
    assert!(matches_pattern("default_123.profraw", "default_*"));
    assert!(!matches_pattern("other.profraw", "default_*"));
    assert!(matches_pattern("x", ""));
}

fn artifact(reason: &str, files: &[&str], kinds: &[&str], test: Option<bool>) -> CargoArtifact {
    CargoArtifact {
        reason: reason.to_owned(),
        filenames: files.iter().map(|f| f.to_string()).collect(),
        target_kind: kinds.iter().map(|k| k.to_string()).collect(),
        profile_test: test,
    }
}

#[test]
fn compiler_artifacts_name_the_binaries() {
    let arts = vec![
        artifact("compiler-artifact", &["a", "b"], &["lib"], Some(false)),
        artifact("build-script-executed", &["c"], &["test"], Some(true)),
        artifact("compiler-artifact", &["d"], &["test"], None),
        artifact("compiler-artifact", &["e"], &["lib"], Some(true)),
    ];
    assert_eq!(compiler_artifact_files(&arts), vec!["a".to_owned(), "b".to_owned(), "d".to_owned(), "e".to_owned()]);
    assert_eq!(test_executable_files(&arts), vec!["d".to_owned(), "e".to_owned()]);
}

#[test]
fn llvm_cov_flags_per_format() {
    assert_eq!(llvm_cov_format_flag(CoverageFormat::Summary), "--summary-only");
    assert_eq!(llvm_cov_format_flag(CoverageFormat::Html), "--html");
    assert_eq!(llvm_cov_format_flag(CoverageFormat::Cobertura), "--cobertura");
    assert!(!writes_report_file(CoverageFormat::Summary));
    assert!(writes_report_file(CoverageFormat::Lcov));
}

#[test]
fn rustc_version_gate_for_raw_profiles() {
    assert!(raw_profiles_supported("rustc 1.96.0 (abc1234 2026-05-01)"));
    assert!(raw_profiles_supported("  rustc   1.97"));
    assert!(!raw_profiles_supported("rustc 1.95.2"));
    assert!(!raw_profiles_supported("rustc 2.0.0"));
    assert!(!raw_profiles_supported("rustc x.96.0"));
    assert!(!raw_profiles_supported("rustc 1.99999999999.0"));
    assert!(!raw_profiles_supported("rustc"));
    assert!(!raw_profiles_supported(""));
}

#[test]
fn llvm_show_formats() {
    assert_eq!(llvm_show_format(CoverageFormat::Html), Some("html".to_owned()));
    assert_eq!(llvm_show_format(CoverageFormat::Json), Some("text".to_owned()));
    assert_eq!(llvm_show_format(CoverageFormat::Cobertura), None);
}

#[test]
fn addr2line_output_gives_source_positions() {
    let out = "0x1234\nmain\n/src/main.rs:12\n0x5678\n??\n??:0\n0x9abc\nfoo\n/src/lib.rs:x\n0xdef0\nbar\n/a:b/c.rs:7\n0x1\n";
    assert_eq!(parse_addr2line(out), vec![("/src/main.rs".to_owned(), 12), ("/a:b/c.rs".to_owned(), 7)]);
    assert!(parse_addr2line("").is_empty());
}

#[test]
fn statuses_and_locations_as_text() {
    assert_eq!(TestStatus::Passed.to_text(), "PASSED");
    assert_eq!(TestStatus::Failed { reason: "x".to_owned(), location: None }.to_text(), "FAILED: x");
    assert_eq!(TestStatus::Skipped { reason: None }.to_text(), "SKIPPED");
    assert_eq!(TestStatus::Skipped { reason: Some("later".to_owned()) }.to_text(), "SKIPPED: later");
    assert_eq!(
        TestStatus::TimedOut { duration: Duration::from_millis(1500), location: None }.to_text(),
        "TIMED OUT after 1.5s"
    );
    let loc = SourceLocation { file: "a.rs".to_owned(), line: 3, column: Some(4) };
    assert_eq!(loc.to_text(), "a.rs:3:4");
    let loc = SourceLocation { file: "a.rs".to_owned(), line: 3, column: None };
    assert_eq!(loc.to_text(), "a.rs:3");
}

fn pretty_run() -> TestRun {
    let mut a = TestCase::new("alpha_passes");
    a.status = TestStatus::Passed;
    let mut b = TestCase::new("beta_fails");
    b.status = TestStatus::Failed { reason: "boom".to_owned(), location: None };
    let mut suite = TestSuite::new("s");
    suite.tests = vec![a, b];
    let mut run = TestRun::new();
    run.suites.push(suite);
    run
}

#[test]
fn pretty_report_hides_passing_tests_unless_verbose() {
    let quiet = PrettyReporter::new(false).colour(false).report(&pretty_run());
    assert!(quiet.contains("beta_fails"), "{quiet}");
    assert!(!quiet.contains("alpha_passes"), "{quiet}");
    let verbose = PrettyReporter::new(true).colour(false).report(&pretty_run());
    assert!(verbose.contains("alpha_passes") && verbose.contains("beta_fails"), "{verbose}");
}

#[test]
fn escapes_remove_special_characters() {
    assert_eq!(escape_xml("<a href=\"x\">'&'</a>"), "&lt;a href=&quot;x&quot;&gt;&apos;&amp;&apos;&lt;/a&gt;");
    assert_eq!(escape_json("a\"b\n\t\\\r"), "a\\\"b\\n\\t\\\\\\r");
    assert_eq!(escape_github("50%\r\n"), "50%25%0D%0A");
}

fn word(out: &mut Vec<u8>, v: u64) {
    out.extend_from_slice(&v.to_le_bytes());
}

/// A raw profile with one function whose counters are `counters`.
fn raw_profile(counters: &[u64]) -> Vec<u8> {
    let mut d = Vec::new();
    word(&mut d, RAW_MAGIC);
    word(&mut d, EXPECTED_VERSION);
    word(&mut d, 0); // binary ids
    word(&mut d, 1); // data records
    word(&mut d, 0);
    word(&mut d, counters.len() as u64);
    for _ in 6..16 {
        word(&mut d, 0);
    }
    let mut record = vec![0u8; 64];
    record[48..52].copy_from_slice(&(counters.len() as u32).to_le_bytes());
    d.extend_from_slice(&record);
    for c in counters {
        word(&mut d, *c);
    }
    d
}

#[test]
fn raw_profile_counts_covered_counters() {
    let data = raw_profile(&[5, 0, 7]);
    assert!(parse_is_defined(&data));
    let profile = parse_raw_profile(&data).expect("valid profile");
    assert_eq!(profile.functions.len(), 1);
    assert_eq!(profile.functions[0].counters, vec![5, 0, 7]);
    assert_eq!(profile.functions[0].covered, 2);
    let counts = coverage_counts(&profile);
    assert_eq!(counts.total_counters, 3);
    assert_eq!(counts.covered_counters, 2);
    assert_eq!(counts.total_functions, 1);
    assert_eq!(counts.covered_functions, 1);
    assert!(counts.covered_counters <= counts.total_counters);
}

#[test]
fn raw_profile_errors() {
    let short = vec![0u8; 10];
    assert_eq!(parse_raw_profile(&short).err(), Some("file too small: 10 bytes (need at least 128)".to_owned()));
    let mut bad = raw_profile(&[1]);
    bad[0] = 0;
    assert!(parse_raw_profile(&bad).err().unwrap().starts_with("bad magic: 0x"));
}
