//! A configurable runner that executes specs and renders the results.

use vstd::prelude::*;
use crate::model::spec::{
    lemma_runs_agree, opt_view, outcomes_determined, plans_alike, ran_as_planned, CollectedTest, Spec, SpecView, TestFn,
    TestOutcome,
};
use crate::model::{elapsed_since, instant_now, now, ReportFormat, RunnerConfig, TestRun, TestSuite};
use crate::report::{
    compact_text, github_text, json_text, junit_text, pretty_text, tap_text, CompactReporter,
    GithubReporter, JsonReporter, JunitReporter, PrettyReporter, TapReporter,
};

verus! {

/// The models of a list of specs.
pub open spec fn models_of(specs: Seq<Spec>) -> Seq<SpecView> {
    specs.map_values(|s: Spec| s@)
}

/// The report of `run` in `format`; the pretty form is coloured and lists
/// passing tests when `verbose`, the JUnit form is named `rvtest`.
pub open spec fn rendered(format: ReportFormat, verbose: bool, run: TestRun) -> Seq<char> {
    match format {
        ReportFormat::Pretty => pretty_text(run, verbose, true),
        ReportFormat::Tap => tap_text(run),
        ReportFormat::Junit => junit_text(run, "rvtest"@),
        ReportFormat::Json => json_text(run),
        ReportFormat::Compact => compact_text(run),
        ReportFormat::Github => github_text(run),
    }
}

/// Whether `suite` is the result of running block `s` under `cfg`, each
/// test handed to `execute`.
pub open spec fn suite_of<E: Fn(&CollectedTest) -> TestOutcome>(
    suite: TestSuite,
    s: SpecView,
    cfg: RunnerConfig,
    execute: E,
) -> bool {
    &&& suite.name@ == s.name
    &&& opt_view(suite.description) == s.description
    &&& ran_as_planned(suite.tests@, s, cfg, execute)
}

/// Renders `run` in the given format.
pub fn render_report(format: ReportFormat, verbose: bool, run: &TestRun) -> (r: String)
    requires
        run.fits(),
    ensures
        r@ == rendered(format, verbose, *run),
{
    match format {
        ReportFormat::Pretty => PrettyReporter::new(verbose).render(run),
        ReportFormat::Tap => TapReporter.render(run),
        ReportFormat::Junit => JunitReporter::new().render(run),
        ReportFormat::Json => JsonReporter.render(run),
        ReportFormat::Compact => CompactReporter.render(run),
        ReportFormat::Github => GithubReporter.render(run),
    }
}

/// A configurable test runner that collects specs and executes them.
pub struct TestRunner {
    config: RunnerConfig,
    specs: Vec<Spec>,
}

impl TestRunner {
    /// The configuration of the runner.
    pub closed spec fn configuration(&self) -> RunnerConfig {
        self.config
    }

    /// The registered specs, in order.
    pub closed spec fn registered(&self) -> Seq<SpecView> {
        models_of(self.specs@)
    }

    /// Create a new runner with the given configuration.
    pub fn new(config: RunnerConfig) -> (r: TestRunner)
        ensures
            r.configuration() == config,
            r.registered().len() == 0,
    {
        let r = TestRunner { config, specs: Vec::new() };
        proof {
            assert(r.registered() =~= Seq::<SpecView>::empty());
        }
        r
    }

    /// Add a test spec to the runner.
    pub fn add_spec(self, spec: Spec) -> (r: TestRunner)
        ensures
            r.configuration() == self.configuration(),
            r.registered() == self.registered().push(spec@),
    {
        let mut specs = self.specs;
        specs.push(spec);
        let r = TestRunner { config: self.config, specs };
        proof {
            assert(r.registered() =~= self.registered().push(spec@));
        }
        r
    }

    /// Add multiple test specs at once.
    pub fn add_specs(self, specs: Vec<Spec>) -> (r: TestRunner)
        ensures
            r.configuration() == self.configuration(),
            r.registered() == self.registered() + models_of(specs@),
    {
        let mut mine = self.specs;
        let mut more = specs;
        mine.append(&mut more);
        let r = TestRunner { config: self.config, specs: mine };
        proof {
            assert(r.registered() =~= self.registered() + models_of(specs@));
        }
        r
    }

    /// Execute all registered specs in order and return a [`TestRun`] with
    /// one suite per spec; `execute` runs each test and `hook` each hook.
    pub fn run<E: Fn(&CollectedTest) -> TestOutcome, H: Fn(&TestFn)>(self, execute: &E, hook: &H) -> (r: TestRun)
        requires
            forall|t: &CollectedTest| #[trigger] execute.requires((t,)),
            forall|h: &TestFn| #[trigger] hook.requires((h,)),
        ensures
            r.suites@.len() == self.registered().len(),
            forall|i: int|
                0 <= i < r.suites@.len() ==> suite_of(
                    #[trigger] r.suites@[i],
                    self.registered()[i],
                    self.configuration(),
                    *execute,
                ),
    {
        let start_time = now();
        let wall_start = instant_now();
        let config = self.config;
        let mut specs = self.specs;
        let ghost all = models_of(specs@);
        let mut suites: Vec<TestSuite> = Vec::new();
        let mut i: usize = 0;
        let count = specs.len();
        proof {
            assert(all.len() == specs@.len());
            assert(count == specs@.len());
            assert(all.skip(0) =~= all);
        }
        while specs.len() > 0
            invariant
                models_of(specs@) == all.skip(i as int),
                i + specs@.len() == all.len(),
                all.len() <= usize::MAX,
                suites@.len() == i,
                forall|t: &CollectedTest| #[trigger] execute.requires((t,)),
                forall|h: &TestFn| #[trigger] hook.requires((h,)),
                forall|j: int| 0 <= j < i ==> suite_of(#[trigger] suites@[j], all[j], config, *execute),
            decreases specs.len(),
        {
            let ghost before = specs@;
            let spec = specs.remove(0);
            proof {
                assert(spec@ == models_of(before)[0]);
                assert(all.skip(i as int)[0] == all[i as int]);
                assert(specs@ =~= before.drop_first());
                assert forall|k: int| 0 <= k < specs@.len() implies #[trigger] models_of(specs@)[k]
                    == all.skip(i + 1)[k] by {
                    assert(specs@[k] == before[k + 1]);
                    assert(models_of(before)[k + 1] == all.skip(i as int)[k + 1]);
                }
                assert(models_of(specs@) =~= all.skip(i + 1));
            }
            let suite = Self::run_spec(&config, spec, execute, hook);
            suites.push(suite);
            i = i + 1;
        }
        let duration = elapsed_since(&wall_start);
        let end_time = now();
        TestRun { suites, start_time, end_time, duration }
    }

    /// Runs one spec under the runner's configuration.
    fn run_spec<E: Fn(&CollectedTest) -> TestOutcome, H: Fn(&TestFn)>(
        config: &RunnerConfig,
        spec: Spec,
        execute: &E,
        hook: &H,
    ) -> (r: TestSuite)
        requires
            forall|t: &CollectedTest| #[trigger] execute.requires((t,)),
            forall|h: &TestFn| #[trigger] hook.requires((h,)),
        ensures
            suite_of(r, spec@, *config, *execute),
    {
        spec.run_with_config(config, execute, hook)
    }

    /// Render the test run results using the configured report format.
    pub fn report(&self, run: &TestRun) -> (r: String)
        requires
            run.fits(),
        ensures
            r@ == rendered(self.configuration().format, self.configuration().verbose, *run),
    {
        render_report(self.config.format, self.config.verbose, run)
    }
}

/// Runs specs with the default configuration.
///
/// Equivalent to `TestRunner::new(RunnerConfig::default()).add_specs(specs).run(execute, hook)`.
pub fn run_tests<E: Fn(&CollectedTest) -> TestOutcome, H: Fn(&TestFn)>(specs: Vec<Spec>, execute: &E, hook: &H) -> (r: TestRun)
    requires
        forall|t: &CollectedTest| #[trigger] execute.requires((t,)),
        forall|h: &TestFn| #[trigger] hook.requires((h,)),
    ensures
        r.suites@.len() == specs@.len(),
        exists|cfg: RunnerConfig|
            cfg.is_default() && forall|i: int|
                0 <= i < r.suites@.len() ==> suite_of(#[trigger] r.suites@[i], specs@[i]@, cfg, *execute),
{
    let config = RunnerConfig::default();
    let ghost cv = config;
    let runner = TestRunner::new(config).add_specs(specs);
    proof {
        assert(runner.registered() =~= models_of(specs@));
    }
    let r = runner.run(execute, hook);
    proof {
        assert forall|i: int| 0 <= i < r.suites@.len() implies suite_of(#[trigger] r.suites@[i], specs@[i]@, cv, *execute) by {
            assert(runner.registered()[i] == specs@[i]@);
        }
    }
    r
}

/// Two suites record the same tests: same name and description, and as
/// many tests with the same names and statuses.
pub open spec fn same_suite(x: TestSuite, y: TestSuite) -> bool {
    &&& x.name@ == y.name@
    &&& opt_view(x.description) == opt_view(y.description)
    &&& x.tests@.len() == y.tests@.len()
    &&& forall|j: int|
        0 <= j < x.tests@.len() ==> #[trigger] x.tests@[j].name@ == y.tests@[j].name@ && x.tests@[j].status
            == y.tests@[j].status
}

/// `run_tests(specs)` gives the run that `TestRunner::new(config)
/// .add_specs(specs).run()` gives under a default `config`: suite by suite
/// the same names and the same tests with the same statuses, for an
/// executor whose outcomes depend only on the test. Stated over what the
/// two contracts promise: every suite a run of its spec under a default
/// configuration.
pub proof fn lemma_run_tests_matches_runner<E: Fn(&CollectedTest) -> TestOutcome>(
    a: TestRun,
    b: TestRun,
    specs: Seq<SpecView>,
    ca: RunnerConfig,
    cb: RunnerConfig,
    execute: E,
)
    requires
        ca.is_default(),
        cb.is_default(),
        outcomes_determined(execute),
        a.suites@.len() == specs.len(),
        b.suites@.len() == specs.len(),
        forall|i: int| 0 <= i < specs.len() ==> suite_of(#[trigger] a.suites@[i], specs[i], ca, execute),
        forall|i: int| 0 <= i < specs.len() ==> suite_of(#[trigger] b.suites@[i], specs[i], cb, execute),
    ensures
        forall|i: int| 0 <= i < specs.len() ==> #[trigger] same_suite(a.suites@[i], b.suites@[i]),
{
    assert(ca.include_tags@ =~= cb.include_tags@);
    assert(ca.exclude_tags@ =~= cb.exclude_tags@);
    assert(plans_alike(ca, cb));
    assert forall|i: int| 0 <= i < specs.len() implies #[trigger] same_suite(a.suites@[i], b.suites@[i]) by {
        assert(suite_of(a.suites@[i], specs[i], ca, execute));
        assert(suite_of(b.suites@[i], specs[i], cb, execute));
        lemma_runs_agree(a.suites@[i].tests@, b.suites@[i].tests@, specs[i], ca, cb, execute);
    }
}

/// Renders `run` with the format and verbosity of `config`.
pub fn render_report_with_config(config: &RunnerConfig, run: &TestRun) -> (r: String)
    requires
        run.fits(),
    ensures
        r@ == rendered(config.format, config.verbose, *run),
{
    render_report(config.format, config.verbose, run)
}

} // verus!
