//! BDD-style specifications: a tree of `describe` blocks holding `it` tests,
//! with tags, timeouts, retries and hooks inherited down the tree.

use std::sync::Arc;
use vstd::prelude::*;
use crate::model::tag::{name_matches, name_selected, tags_match, tags_selected};
use crate::model::text::{owned, push_str, string_from_chars};
use crate::model::{
    duplicate_location, duplicate_opt_string, duplicate_pairs, duplicate_strings, elapsed_since,
    instant_now, Duration, RunnerConfig, SourceLocation, TestCase, TestStatus, TestSuite,
};

verus! {

// ---------------------------------------------------------------------------
// Test bodies
// ---------------------------------------------------------------------------

/// A test body or lifecycle hook: a closure supplied by the library's user.
/// The library never calls it: whoever runs the tests calls `f` and reports
/// what happened.
#[verifier::external_body]
pub struct TestFn {
    pub f: Arc<dyn Fn() + Send + Sync>,
}

impl TestFn {
    /// Wraps a closure (std `Arc::new`). Nothing about the closure is known.
    #[verifier::external_body]
    pub(crate) fn new<F: Fn() + Send + Sync + 'static>(f: F) -> TestFn {
        TestFn { f: Arc::new(f) }
    }

    /// Another handle on the same closure (std `Arc::clone`): the two run the
    /// same code, so they are the same body.
    #[verifier::external_body]
    pub fn share(&self) -> (r: TestFn)
        ensures
            r == *self,
    {
        TestFn { f: Arc::clone(&self.f) }
    }
}

// ---------------------------------------------------------------------------
// Spec tree and its model
// ---------------------------------------------------------------------------

/// A leaf test registered with `it`.
pub struct TestEntry {
    /// The test's own name.
    pub name: String,
    /// Where the test was registered, when known.
    pub location: Option<SourceLocation>,
    /// The test body.
    pub test_fn: TestFn,
}

/// A BDD-style test specification builder.
///
/// `Spec` organises tests in a nested, descriptive hierarchy using
/// [`describe`] / [`it`](Spec::it) blocks, attaches metadata such as
/// [`tags`](Spec::tag), [`timeout`](Spec::timeout) and [`retries`](Spec::retries),
/// and registers lifecycle hooks via [`before_all`](Spec::before_all) /
/// [`after_all`](Spec::after_all).
pub struct Spec {
    name: String,
    description: Option<String>,
    tags: Vec<String>,
    setup: Option<TestFn>,
    teardown: Option<TestFn>,
    children: Vec<Spec>,
    tests: Vec<TestEntry>,
    timeout: Option<Duration>,
    retries: u32,
}

/// The model of a spec block: its own settings, its tests and its children.
pub struct SpecView {
    pub name: Seq<char>,
    pub description: Option<Seq<char>>,
    pub tags: Seq<String>,
    pub setup: Option<TestFn>,
    pub teardown: Option<TestFn>,
    pub children: Seq<SpecView>,
    pub tests: Seq<TestEntry>,
    pub timeout: Option<Duration>,
    pub retries: u32,
}

/// The view of an optional string.
pub open spec fn opt_view(s: Option<String>) -> Option<Seq<char>> {
    match s {
        Some(x) => Some(x@),
        None => None,
    }
}

/// The model of a spec block.
pub closed spec fn spec_model(s: Spec) -> SpecView
    decreases s,
{
    SpecView {
        name: s.name@,
        description: opt_view(s.description),
        tags: s.tags@,
        setup: s.setup,
        teardown: s.teardown,
        children: spec_models(s.children@),
        tests: s.tests@,
        timeout: s.timeout,
        retries: s.retries,
    }
}

/// The models of a list of spec blocks.
pub closed spec fn spec_models(cs: Seq<Spec>) -> Seq<SpecView>
    decreases cs,
{
    if cs.len() == 0 {
        Seq::empty()
    } else {
        spec_models(cs.drop_last()).push(spec_model(cs.last()))
    }
}

impl View for Spec {
    type V = SpecView;

    open spec fn view(&self) -> SpecView {
        spec_model(*self)
    }
}

proof fn lemma_models_len(cs: Seq<Spec>)
    ensures
        spec_models(cs).len() == cs.len(),
    decreases cs.len(),
{
    if cs.len() > 0 {
        lemma_models_len(cs.drop_last());
    }
}

proof fn lemma_models_index(cs: Seq<Spec>, i: int)
    requires
        0 <= i < cs.len(),
    ensures
        spec_models(cs)[i] == spec_model(cs[i]),
        spec_models(cs).len() == cs.len(),
    decreases cs.len(),
{
    lemma_models_len(cs);
    if i < cs.len() - 1 {
        lemma_models_index(cs.drop_last(), i);
    }
}

proof fn lemma_models_push(cs: Seq<Spec>, c: Spec)
    ensures
        spec_models(cs.push(c)) == spec_models(cs).push(spec_model(c)),
{
    assert(cs.push(c).drop_last() =~= cs);
}

proof fn lemma_models_update(cs: Seq<Spec>, i: int, c: Spec)
    requires
        0 <= i < cs.len(),
    ensures
        spec_models(cs.update(i, c)) == spec_models(cs).update(i, spec_model(c)),
    decreases cs.len(),
{
    lemma_models_len(cs);
    lemma_models_len(cs.update(i, c));
    if i < cs.len() - 1 {
        assert(cs.update(i, c).drop_last() =~= cs.drop_last().update(i, c));
        lemma_models_update(cs.drop_last(), i, c);
        assert(spec_models(cs.update(i, c)) =~= spec_models(cs).update(i, spec_model(c)));
    } else {
        assert(cs.update(i, c).drop_last() =~= cs.drop_last());
        assert(spec_models(cs.update(i, c)) =~= spec_models(cs).update(i, spec_model(c)));
    }
}

// ---------------------------------------------------------------------------
// Planning: which tests run, under which names and settings
// ---------------------------------------------------------------------------

/// What a block hands down to its contents: the full name so far, the
/// accumulated tags, and the timeout and retries in force.
pub struct Scope {
    pub prefix: Seq<char>,
    pub tags: Seq<String>,
    pub timeout: Option<Duration>,
    pub retries: u32,
}

/// The full name of a block under `prefix`: `prefix :: name`, or `name`
/// alone at the top.
pub open spec fn join_name(prefix: Seq<char>, name: Seq<char>) -> Seq<char> {
    if prefix.len() == 0 {
        name
    } else {
        prefix + " :: "@ + name
    }
}

/// The scope inside block `s`: its own tags appended, its own timeout or
/// else the inherited one or else the configured default, and its own
/// retry count when non-zero, else the larger of the inherited count and
/// the configured default.
pub open spec fn inner_scope(s: SpecView, outer: Scope, cfg: RunnerConfig) -> Scope {
    Scope {
        prefix: join_name(outer.prefix, s.name),
        tags: outer.tags + s.tags,
        timeout: match s.timeout {
            Some(t) => Some(t),
            None => match outer.timeout {
                Some(t) => Some(t),
                None => cfg.default_timeout,
            },
        },
        retries: if s.retries > 0 {
            s.retries
        } else if outer.retries >= cfg.default_retries {
            outer.retries
        } else {
            cfg.default_retries
        },
    }
}

/// A test ready to run: its full name, the suite it belongs to, its tags,
/// timeout and retry count, where it was registered, and its body.
pub struct PlannedTest {
    pub full_name: Seq<char>,
    pub suite_name: Seq<char>,
    pub tags: Seq<String>,
    pub timeout: Option<Duration>,
    pub retries: u32,
    pub location: Option<SourceLocation>,
    pub test_fn: TestFn,
}

/// The planned form of a leaf test registered in a block whose scope is `sc`.
pub open spec fn plan_entry(e: TestEntry, sc: Scope) -> PlannedTest {
    PlannedTest {
        full_name: sc.prefix + " :: "@ + e.name@,
        suite_name: sc.prefix,
        tags: sc.tags,
        timeout: sc.timeout,
        retries: sc.retries,
        location: e.location,
        test_fn: e.test_fn,
    }
}

pub open spec fn plan_entries(es: Seq<TestEntry>, sc: Scope) -> Seq<PlannedTest>
    decreases es.len(),
{
    if es.len() == 0 {
        Seq::empty()
    } else {
        plan_entries(es.drop_last(), sc).push(plan_entry(es.last(), sc))
    }
}

/// All tests of block `s` in order: its own tests first, then each child's,
/// depth first.
pub open spec fn plan_tree(s: SpecView, outer: Scope, cfg: RunnerConfig) -> Seq<PlannedTest>
    decreases s,
{
    let sc = inner_scope(s, outer, cfg);
    plan_entries(s.tests, sc) + plan_forest(s.children, sc, cfg)
}

pub open spec fn plan_forest(cs: Seq<SpecView>, outer: Scope, cfg: RunnerConfig) -> Seq<PlannedTest>
    decreases cs,
{
    if cs.len() == 0 {
        Seq::empty()
    } else {
        plan_forest(cs.drop_last(), outer, cfg) + plan_tree(cs.last(), outer, cfg)
    }
}

/// The scope outside the top block: no name, no tags, nothing inherited.
pub open spec fn top_scope() -> Scope {
    Scope { prefix: Seq::empty(), tags: Seq::empty(), timeout: None, retries: 0 }
}

/// Whether a planned test passes the configuration's tag and name filters.
pub open spec fn selected(p: PlannedTest, cfg: RunnerConfig) -> bool {
    tags_selected(p.tags, cfg.include_tags@, cfg.exclude_tags@) && name_selected(p.full_name, opt_view(cfg.filter))
}

pub open spec fn keep_selected(ps: Seq<PlannedTest>, cfg: RunnerConfig) -> Seq<PlannedTest>
    decreases ps.len(),
{
    if ps.len() == 0 {
        Seq::empty()
    } else if selected(ps.last(), cfg) {
        keep_selected(ps.drop_last(), cfg).push(ps.last())
    } else {
        keep_selected(ps.drop_last(), cfg)
    }
}

/// The tests a run of block `s` under `cfg` executes, in order.
pub open spec fn planned(s: SpecView, cfg: RunnerConfig) -> Seq<PlannedTest> {
    keep_selected(plan_tree(s, top_scope(), cfg), cfg)
}

/// The number of tests registered in block `s` and the blocks within it.
pub open spec fn test_count(s: SpecView) -> nat
    decreases s,
{
    s.tests.len() + forest_count(s.children)
}

/// The number of tests registered in the blocks `cs` and within them.
pub open spec fn forest_count(cs: Seq<SpecView>) -> nat
    decreases cs,
{
    if cs.len() == 0 {
        0
    } else {
        forest_count(cs.drop_last()) + test_count(cs.last())
    }
}

proof fn lemma_plan_entries_len(es: Seq<TestEntry>, sc: Scope)
    ensures
        plan_entries(es, sc).len() == es.len(),
    decreases es.len(),
{
    if es.len() > 0 {
        lemma_plan_entries_len(es.drop_last(), sc);
    }
}

proof fn lemma_plan_tree_len(s: SpecView, outer: Scope, cfg: RunnerConfig)
    ensures
        plan_tree(s, outer, cfg).len() == test_count(s),
    decreases s,
{
    let sc = inner_scope(s, outer, cfg);
    lemma_plan_entries_len(s.tests, sc);
    lemma_plan_forest_len(s.children, sc, cfg);
}

proof fn lemma_plan_forest_len(cs: Seq<SpecView>, outer: Scope, cfg: RunnerConfig)
    ensures
        plan_forest(cs, outer, cfg).len() == forest_count(cs),
    decreases cs,
{
    if cs.len() > 0 {
        lemma_plan_forest_len(cs.drop_last(), outer, cfg);
        lemma_plan_tree_len(cs.last(), outer, cfg);
    }
}

proof fn lemma_keep_all(ps: Seq<PlannedTest>, cfg: RunnerConfig)
    requires
        forall|i: int| 0 <= i < ps.len() ==> selected(#[trigger] ps[i], cfg),
    ensures
        keep_selected(ps, cfg) == ps,
    decreases ps.len(),
{
    if ps.len() > 0 {
        assert forall|i: int| 0 <= i < ps.drop_last().len() implies selected(#[trigger] ps.drop_last()[i], cfg) by {
            assert(ps.drop_last()[i] == ps[i]);
        }
        lemma_keep_all(ps.drop_last(), cfg);
        assert(selected(ps[ps.len() - 1], cfg));
        assert(ps.drop_last().push(ps.last()) =~= ps);
    }
}

/// Without tag or name filters, a run plans every test of the tree once,
/// in tree order: as many as were registered.
pub proof fn lemma_unfiltered_run_plans_every_test(s: SpecView, cfg: RunnerConfig)
    requires
        cfg.include_tags@.len() == 0,
        cfg.exclude_tags@.len() == 0,
        cfg.filter is None,
    ensures
        planned(s, cfg) == plan_tree(s, top_scope(), cfg),
        planned(s, cfg).len() == test_count(s),
{
    let ps = plan_tree(s, top_scope(), cfg);
    assert forall|i: int| 0 <= i < ps.len() implies selected(#[trigger] ps[i], cfg) by {}
    lemma_keep_all(ps, cfg);
    lemma_plan_tree_len(s, top_scope(), cfg);
}

/// The full names of tests `es` of a block whose path is `path`:
/// `path :: name` for each, in order.
pub open spec fn entry_names(es: Seq<TestEntry>, path: Seq<char>) -> Seq<Seq<char>>
    decreases es.len(),
{
    if es.len() == 0 {
        Seq::empty()
    } else {
        entry_names(es.drop_last(), path).push(path + " :: "@ + es.last().name@)
    }
}

/// The full names of the tests of block `s` in pre-order, the block lying
/// under `prefix`: the block's own tests, then those of each child in turn.
pub open spec fn preorder_names(s: SpecView, prefix: Seq<char>) -> Seq<Seq<char>>
    decreases s,
{
    let path = join_name(prefix, s.name);
    entry_names(s.tests, path) + forest_names(s.children, path)
}

/// The pre-order names of the blocks `cs`, one after another.
pub open spec fn forest_names(cs: Seq<SpecView>, prefix: Seq<char>) -> Seq<Seq<char>>
    decreases cs,
{
    if cs.len() == 0 {
        Seq::empty()
    } else {
        forest_names(cs.drop_last(), prefix) + preorder_names(cs.last(), prefix)
    }
}

/// The full names of planned tests.
pub open spec fn planned_names(ps: Seq<PlannedTest>) -> Seq<Seq<char>> {
    ps.map_values(|p: PlannedTest| p.full_name)
}

proof fn lemma_entry_tags(es: Seq<TestEntry>, sc: Scope)
    ensures
        plan_entries(es, sc).len() == es.len(),
        forall|i: int| 0 <= i < es.len() ==> #[trigger] plan_entries(es, sc)[i].tags == sc.tags,
    decreases es.len(),
{
    if es.len() > 0 {
        lemma_entry_tags(es.drop_last(), sc);
        assert forall|i: int| 0 <= i < es.len() implies #[trigger] plan_entries(es, sc)[i].tags == sc.tags by {
            if i < es.len() - 1 {
                assert(plan_entries(es, sc)[i] == plan_entries(es.drop_last(), sc)[i]);
            }
        }
    }
}

proof fn lemma_forest_tags(cs: Seq<SpecView>, outer: Scope, cfg: RunnerConfig)
    ensures
        forall|i: int|
            0 <= i < plan_forest(cs, outer, cfg).len() ==> outer.tags.is_prefix_of(
                #[trigger] plan_forest(cs, outer, cfg)[i].tags,
            ),
    decreases cs,
{
    if cs.len() > 0 {
        lemma_forest_tags(cs.drop_last(), outer, cfg);
        lemma_tests_inherit_tags(cs.last(), outer, cfg);
        let a = plan_forest(cs.drop_last(), outer, cfg);
        let b = plan_tree(cs.last(), outer, cfg);
        assert forall|i: int| 0 <= i < plan_forest(cs, outer, cfg).len() implies outer.tags.is_prefix_of(
            #[trigger] plan_forest(cs, outer, cfg)[i].tags,
        ) by {
            if i < a.len() {
                assert(plan_forest(cs, outer, cfg)[i] == a[i]);
            } else {
                assert(plan_forest(cs, outer, cfg)[i] == b[i - a.len()]);
                let t = b[i - a.len()].tags;
                let p = outer.tags + cs.last().tags;
                assert(p.is_prefix_of(t));
                assert(outer.tags =~= t.subrange(0, outer.tags.len() as int)) by {
                    assert forall|k: int| 0 <= k < outer.tags.len() implies outer.tags[k] == t[k] by {
                        assert(p[k] == t[k]);
                    }
                }
            }
        }
    }
}

/// A test's tags are those of the blocks around it, outermost first: the
/// tags in force outside block `s`, followed by `s`'s own, begin the tags of
/// every test in `s` or in the blocks within it, and are exactly the tags
/// of `s`'s own tests.
pub proof fn lemma_tests_inherit_tags(s: SpecView, outer: Scope, cfg: RunnerConfig)
    ensures
        forall|i: int|
            0 <= i < plan_tree(s, outer, cfg).len() ==> (outer.tags + s.tags).is_prefix_of(
                #[trigger] plan_tree(s, outer, cfg)[i].tags,
            ),
        forall|i: int| 0 <= i < s.tests.len() ==> #[trigger] plan_tree(s, outer, cfg)[i].tags == outer.tags + s.tags,
    decreases s,
{
    let sc = inner_scope(s, outer, cfg);
    lemma_entry_tags(s.tests, sc);
    lemma_forest_tags(s.children, sc, cfg);
    let a = plan_entries(s.tests, sc);
    let b = plan_forest(s.children, sc, cfg);
    assert(sc.tags == outer.tags + s.tags);
    assert forall|i: int| 0 <= i < plan_tree(s, outer, cfg).len() implies (outer.tags + s.tags).is_prefix_of(
        #[trigger] plan_tree(s, outer, cfg)[i].tags,
    ) by {
        if i < a.len() {
            assert(plan_tree(s, outer, cfg)[i] == a[i]);
            assert(a[i].tags == sc.tags);
            assert(sc.tags =~= a[i].tags.subrange(0, sc.tags.len() as int));
        } else {
            assert(plan_tree(s, outer, cfg)[i] == b[i - a.len()]);
        }
    }
    assert forall|i: int| 0 <= i < s.tests.len() implies #[trigger] plan_tree(s, outer, cfg)[i].tags == outer.tags
        + s.tags by {
        assert(plan_tree(s, outer, cfg)[i] == a[i]);
    }
}

/// Every test a run plans carries the tags of the top block first.
pub proof fn lemma_planned_tests_carry_top_tags(s: SpecView, cfg: RunnerConfig)
    ensures
        forall|i: int| 0 <= i < planned(s, cfg).len() ==> s.tags.is_prefix_of(#[trigger] planned(s, cfg)[i].tags),
{
    let ps = plan_tree(s, top_scope(), cfg);
    lemma_tests_inherit_tags(s, top_scope(), cfg);
    assert(top_scope().tags + s.tags =~= s.tags);
    lemma_keep_within(ps, cfg);
}

/// Every test `keep_selected` keeps is one of its input.
proof fn lemma_keep_within(ps: Seq<PlannedTest>, cfg: RunnerConfig)
    ensures
        forall|i: int| 0 <= i < keep_selected(ps, cfg).len() ==> ps.contains(#[trigger] keep_selected(ps, cfg)[i]),
    decreases ps.len(),
{
    if ps.len() > 0 {
        lemma_keep_within(ps.drop_last(), cfg);
        let k = keep_selected(ps.drop_last(), cfg);
        assert forall|i: int| 0 <= i < keep_selected(ps, cfg).len() implies ps.contains(
            #[trigger] keep_selected(ps, cfg)[i],
        ) by {
            if i < k.len() {
                assert(keep_selected(ps, cfg)[i] == k[i]);
                let j = choose|j: int| 0 <= j < ps.drop_last().len() && ps.drop_last()[j] == k[i];
                assert(ps[j] == k[i]);
            } else {
                assert(ps[ps.len() - 1] == ps.last());
            }
        }
    }
}

proof fn lemma_entry_names(es: Seq<TestEntry>, sc: Scope)
    ensures
        planned_names(plan_entries(es, sc)) == entry_names(es, sc.prefix),
    decreases es.len(),
{
    if es.len() > 0 {
        lemma_entry_names(es.drop_last(), sc);
        assert(planned_names(plan_entries(es, sc)) =~= planned_names(plan_entries(es.drop_last(), sc)).push(
            plan_entry(es.last(), sc).full_name,
        ));
    } else {
        assert(planned_names(plan_entries(es, sc)) =~= Seq::<Seq<char>>::empty());
    }
}

proof fn lemma_tree_names(s: SpecView, outer: Scope, cfg: RunnerConfig)
    ensures
        planned_names(plan_tree(s, outer, cfg)) == preorder_names(s, outer.prefix),
    decreases s,
{
    let sc = inner_scope(s, outer, cfg);
    lemma_entry_names(s.tests, sc);
    lemma_forest_names(s.children, sc, cfg);
    assert(planned_names(plan_tree(s, outer, cfg)) =~= planned_names(plan_entries(s.tests, sc)) + planned_names(
        plan_forest(s.children, sc, cfg),
    ));
}

proof fn lemma_forest_names(cs: Seq<SpecView>, outer: Scope, cfg: RunnerConfig)
    ensures
        planned_names(plan_forest(cs, outer, cfg)) == forest_names(cs, outer.prefix),
    decreases cs,
{
    if cs.len() > 0 {
        lemma_forest_names(cs.drop_last(), outer, cfg);
        lemma_tree_names(cs.last(), outer, cfg);
        assert(planned_names(plan_forest(cs, outer, cfg)) =~= planned_names(plan_forest(cs.drop_last(), outer, cfg))
            + planned_names(plan_tree(cs.last(), outer, cfg)));
    } else {
        assert(planned_names(plan_forest(cs, outer, cfg)) =~= Seq::<Seq<char>>::empty());
    }
}

/// A test collected from the tree, with everything needed to run it.
pub struct CollectedTest {
    pub full_name: String,
    pub suite_name: Option<String>,
    pub tags: Vec<String>,
    pub timeout: Option<Duration>,
    pub retries: u32,
    pub test_fn: TestFn,
    pub location: Option<SourceLocation>,
    pub parameters: Vec<(String, String)>,
}

/// Whether a collected test is the planned test `p`, with no parameters.
pub open spec fn collected_as(c: CollectedTest, p: PlannedTest) -> bool {
    &&& c.full_name@ == p.full_name
    &&& c.suite_name == Some(c.suite_name->0) && c.suite_name->0@ == p.suite_name
    &&& c.tags@ == p.tags
    &&& c.timeout == p.timeout
    &&& c.retries == p.retries
    &&& c.test_fn == p.test_fn
    &&& c.location == p.location
    &&& c.parameters@.len() == 0
}

/// Element-wise `collected_as`.
pub open spec fn collected_all(cs: Seq<CollectedTest>, ps: Seq<PlannedTest>) -> bool {
    cs.len() == ps.len() && forall|i: int| 0 <= i < cs.len() ==> collected_as(#[trigger] cs[i], ps[i])
}

fn join_name_exec(prefix: &Vec<char>, name: &String) -> (r: Vec<char>)
    ensures
        r@ == join_name(prefix@, name@),
{
    let mut r: Vec<char> = Vec::new();
    if prefix.len() > 0 {
        crate::model::text::push_chars(&mut r, prefix);
        push_str(&mut r, " :: ");
    }
    push_str(&mut r, name.as_str());
    proof {
        assert(r@ =~= join_name(prefix@, name@));
    }
    r
}

impl Spec {
    /// Collects the tests of this block and its descendants, depth first,
    /// under the scope `outer`.
    fn collect_tests(
        &self,
        prefix: &Vec<char>,
        inherited_tags: &Vec<String>,
        inherited_timeout: Option<Duration>,
        inherited_retries: u32,
        config: &RunnerConfig,
    ) -> (r: Vec<CollectedTest>)
        ensures
            collected_all(
                r@,
                plan_tree(
                    self@,
                    Scope {
                        prefix: prefix@,
                        tags: inherited_tags@,
                        timeout: inherited_timeout,
                        retries: inherited_retries,
                    },
                    *config,
                ),
            ),
        decreases self,
    {
        let ghost outer = Scope {
            prefix: prefix@,
            tags: inherited_tags@,
            timeout: inherited_timeout,
            retries: inherited_retries,
        };
        let ghost sc = inner_scope(self@, outer, *config);
        let full_name = join_name_exec(prefix, &self.name);
        let mut merged_tags = duplicate_strings(inherited_tags);
        let mut k: usize = 0;
        while k < self.tags.len()
            invariant
                k <= self.tags.len(),
                merged_tags@ == inherited_tags@ + self.tags@.take(k as int),
            decreases self.tags.len() - k,
        {
            merged_tags.push(self.tags[k].clone());
            proof {
                assert(inherited_tags@ + self.tags@.take(k + 1) =~= (inherited_tags@ + self.tags@.take(k as int)).push(self.tags@[k as int]));
            }
            k = k + 1;
        }
        proof {
            assert(self.tags@.take(k as int) =~= self.tags@);
        }
        let merged_timeout = match self.timeout {
            Some(t) => Some(t),
            None => match inherited_timeout {
                Some(t) => Some(t),
                None => config.default_timeout,
            },
        };
        let merged_retries = if self.retries > 0 {
            self.retries
        } else if inherited_retries >= config.default_retries {
            inherited_retries
        } else {
            config.default_retries
        };
        proof {
            assert(full_name@ == sc.prefix);
            assert(merged_tags@ == sc.tags);
            assert(merged_timeout == sc.timeout);
            assert(merged_retries == sc.retries);
        }
        let mut collected: Vec<CollectedTest> = Vec::new();
        let mut i: usize = 0;
        while i < self.tests.len()
            invariant
                i <= self.tests.len(),
                full_name@ == sc.prefix,
                merged_tags@ == sc.tags,
                merged_timeout == sc.timeout,
                merged_retries == sc.retries,
                collected_all(collected@, plan_entries(self@.tests.take(i as int), sc)),
                self@.tests == self.tests@,
            decreases self.tests.len() - i,
        {
            let entry = &self.tests[i];
            let mut name: Vec<char> = Vec::new();
            crate::model::text::push_chars(&mut name, &full_name);
            push_str(&mut name, " :: ");
            push_str(&mut name, entry.name.as_str());
            let c = CollectedTest {
                full_name: string_from_chars(&name),
                suite_name: Some(string_from_chars(&full_name)),
                tags: duplicate_strings(&merged_tags),
                timeout: merged_timeout,
                retries: merged_retries,
                test_fn: entry.test_fn.share(),
                location: duplicate_location(&entry.location),
                parameters: Vec::new(),
            };
            proof {
                assert(self@.tests.take(i + 1).drop_last() =~= self@.tests.take(i as int));
                assert(self@.tests.take(i + 1).last() == *entry);
                assert(c.full_name@ =~= plan_entry(*entry, sc).full_name);
                assert(collected_as(c, plan_entry(*entry, sc)));
            }
            let ghost before = collected@;
            collected.push(c);
            proof {
                let ps = plan_entries(self@.tests.take(i + 1), sc);
                assert(ps == plan_entries(self@.tests.take(i as int), sc).push(plan_entry(*entry, sc)));
                assert forall|j: int| 0 <= j < collected@.len() implies collected_as(
                    #[trigger] collected@[j],
                    ps[j],
                ) by {
                    if j < before.len() {
                        assert(collected@[j] == before[j]);
                    }
                }
            }
            i = i + 1;
        }
        proof {
            assert(self@.tests.take(i as int) =~= self@.tests);
        }
        let ghost own = plan_entries(self@.tests, sc);
        proof {
            lemma_models_len(self.children@);
            assert(self@.children.take(0) =~= Seq::<SpecView>::empty());
            assert(own + plan_forest(self@.children.take(0), sc, *config) =~= own);
        }
        let ghost own_len = collected@.len();
        let mut ci: usize = 0;
        while ci < self.children.len()
            invariant
                ci <= self.children.len(),
                full_name@ == sc.prefix,
                merged_tags@ == sc.tags,
                merged_timeout == sc.timeout,
                merged_retries == sc.retries,
                collected_all(collected@, own + plan_forest(self@.children.take(ci as int), sc, *config)),
                self@.children == spec_models(self.children@),
                spec_models(self.children@).len() == self.children@.len(),
            decreases self.children.len() - ci,
        {
            let child = &self.children[ci];
            proof {
                lemma_models_index(self.children@, ci as int);
                assert(self@.children.take(ci + 1).drop_last() =~= self@.children.take(ci as int));
                assert(self@.children.take(ci + 1).last() == child@);
            }
            let mut sub = child.collect_tests(&full_name, &merged_tags, merged_timeout, merged_retries, config);
            let ghost before = collected@;
            let ghost sub_all = sub@;
            collected.append(&mut sub);
            proof {
                let ps_before = own + plan_forest(self@.children.take(ci as int), sc, *config);
                let ps_sub = plan_tree(child@, sc, *config);
                assert(plan_forest(self@.children.take(ci + 1), sc, *config)
                    == plan_forest(self@.children.take(ci as int), sc, *config) + ps_sub);
                let ps = own + plan_forest(self@.children.take(ci + 1), sc, *config);
                assert(ps =~= ps_before + ps_sub);
                assert(collected@ =~= before + sub_all);
                assert forall|k: int| 0 <= k < collected@.len() implies collected_as(
                    #[trigger] collected@[k],
                    ps[k],
                ) by {
                    if k < before.len() {
                        assert(collected@[k] == before[k]);
                        assert(ps[k] == ps_before[k]);
                    } else {
                        assert(collected@[k] == sub_all[k - before.len()]);
                        assert(ps[k] == ps_sub[k - before.len()]);
                    }
                }
            }
            ci = ci + 1;
        }
        proof {
            assert(self@.children.take(ci as int) =~= self@.children);
        }
        collected
    }
}


impl CollectedTest {
    /// A copy of this test (the body is shared).
    pub fn duplicate(&self) -> (r: CollectedTest)
        ensures
            r.full_name@ == self.full_name@,
            r.suite_name == self.suite_name,
            r.tags@ == self.tags@,
            r.timeout == self.timeout,
            r.retries == self.retries,
            r.test_fn == self.test_fn,
            r.location == self.location,
            r.parameters@ == self.parameters@,
    {
        CollectedTest {
            full_name: self.full_name.clone(),
            suite_name: duplicate_opt_string(&self.suite_name),
            tags: duplicate_strings(&self.tags),
            timeout: self.timeout,
            retries: self.retries,
            test_fn: self.test_fn.share(),
            location: duplicate_location(&self.location),
            parameters: duplicate_pairs(&self.parameters),
        }
    }
}

/// The test case reporting the run of a collected test.
pub open spec fn case_reports(c: TestCase, t: CollectedTest, status: TestStatus, duration: Duration) -> bool {
    &&& c.name@ == t.full_name@
    &&& c.suite == t.suite_name
    &&& c.tags@ == t.tags@
    &&& c.status == status
    &&& c.duration == duration
    &&& c.assertions == 0
    &&& c.location == t.location
    &&& c.parameters@ == t.parameters@
}

/// The test case that reports running `t` with the given outcome.
pub fn case_for(t: &CollectedTest, status: TestStatus, duration: Duration) -> (c: TestCase)
    ensures
        case_reports(c, *t, status, duration),
{
    TestCase {
        name: t.full_name.clone(),
        suite: duplicate_opt_string(&t.suite_name),
        tags: duplicate_strings(&t.tags),
        status,
        duration,
        assertions: 0,
        location: duplicate_location(&t.location),
        parameters: duplicate_pairs(&t.parameters),
    }
}

/// What one attempt at a test body did.
#[derive(Clone)]
pub enum AttemptOutcome {
    /// The body returned normally.
    Returned,
    /// The body panicked with this message.
    Panicked { message: String },
}

/// What to do after an attempt.
pub enum RetryStep {
    /// Run the body again.
    Retry,
    /// The test is decided.
    Finish(TestStatus),
}

/// The retry rule: a test gets `retries + 1` attempts (saturating); it passes
/// on the first attempt that returns, and fails with the last panic message
/// once the attempts are used up.
pub open spec fn retry_rule(attempt: u32, retries: u32, outcome: AttemptOutcome) -> RetryStep {
    let max_attempts: u32 = if retries == u32::MAX { u32::MAX } else { (retries + 1) as u32 };
    match outcome {
        AttemptOutcome::Returned => RetryStep::Finish(TestStatus::Passed),
        AttemptOutcome::Panicked { message } => if attempt >= max_attempts {
            RetryStep::Finish(TestStatus::Failed { reason: message, location: None })
        } else {
            RetryStep::Retry
        },
    }
}

/// Decides the next step after attempt number `attempt` (counting from 1).
pub fn after_attempt(attempt: u32, retries: u32, outcome: AttemptOutcome) -> (r: RetryStep)
    ensures
        r == retry_rule(attempt, retries, outcome),
{
    let max_attempts = retries.saturating_add(1);
    match outcome {
        AttemptOutcome::Returned => RetryStep::Finish(TestStatus::Passed),
        AttemptOutcome::Panicked { message } => {
            if attempt >= max_attempts {
                RetryStep::Finish(TestStatus::Failed { reason: message, location: None })
            } else {
                RetryStep::Retry
            }
        },
    }
}

/// The status of a test that did not finish within `timeout`.
pub fn timed_out(timeout: Duration) -> (s: TestStatus)
    ensures
        s == (TestStatus::TimedOut { duration: timeout, location: None }),
{
    TestStatus::TimedOut { duration: timeout, location: None }
}

/// The number of tests each thread of a parallel run takes: `len` tests
/// spread evenly over `min(max_threads, len)` threads, rounded up.
pub fn parallel_chunk_size(len: usize, max_threads: usize) -> (r: usize)
    requires
        len > 0,
        max_threads > 0,
    ensures
        ({
            let threads = if max_threads < len { max_threads as int } else { len as int };
            r == (len as int + threads - 1) / threads
        }),
{
    let threads = if max_threads < len { max_threads } else { len };
    proof {
        let t = threads as int;
        let m = len as int - 1;
        vstd::arithmetic::div_mod::lemma_div_plus_one(m, t);
        assert(m + t == len as int + t - 1);
    }
    (len - 1) / threads + 1
}

/// Whether a sequential run stops after a test with this status.
pub fn stops_run(config: &RunnerConfig, status: &TestStatus) -> (r: bool)
    ensures
        r == (config.fail_fast && status.failure()),
{
    config.fail_fast && status.is_failed()
}

/// How running one planned test went, as reported by whoever runs its body.
pub enum TestOutcome {
    /// The outcome of each attempt, in order.
    Attempts(Vec<AttemptOutcome>),
    /// The test did not finish within its timeout.
    TimedOut,
}

/// How many attempts a test with `retries` retries gets (`retries + 1`,
/// saturating).
pub open spec fn max_attempts(retries: u32) -> int {
    if retries == u32::MAX { u32::MAX as int } else { retries + 1 }
}

/// The status a sequence of attempts settles on, `done` attempts having
/// been made before it: the first attempt that returns passes the test; a
/// panic on the last allowed attempt fails it with the panic's message;
/// none when the attempts end undecided.
pub open spec fn settle(outs: Seq<AttemptOutcome>, retries: u32, done: int) -> Option<TestStatus>
    decreases outs.len(),
{
    if outs.len() == 0 {
        None
    } else {
        match outs[0] {
            AttemptOutcome::Returned => Some(TestStatus::Passed),
            AttemptOutcome::Panicked { message } => if done + 1 >= max_attempts(retries) {
                Some(TestStatus::Failed { reason: message, location: None })
            } else {
                settle(outs.drop_first(), retries, done + 1)
            },
        }
    }
}

/// The status an outcome gives test `t`: the settled attempts, or a timeout
/// at `t`'s limit (none when `t` has no limit).
pub open spec fn outcome_status(o: TestOutcome, t: CollectedTest) -> Option<TestStatus> {
    match o {
        TestOutcome::Attempts(v) => settle(v@, t.retries, 0),
        TestOutcome::TimedOut => match t.timeout {
            Some(d) => Some(TestStatus::TimedOut { duration: d, location: None }),
            None => None,
        },
    }
}

/// The status a sequence of attempts settles on.
pub fn settle_attempts(outs: &Vec<AttemptOutcome>, retries: u32) -> (r: Option<TestStatus>)
    ensures
        r == settle(outs@, retries, 0),
{
    let max: u64 = if retries == u32::MAX { u32::MAX as u64 } else { retries as u64 + 1 };
    let mut i: usize = 0;
    proof {
        assert(outs@.skip(0) =~= outs@);
    }
    while i < outs.len()
        invariant
            i <= outs.len(),
            max == max_attempts(retries),
            i < max,
            settle(outs@, retries, 0) == settle(outs@.skip(i as int), retries, i as int),
        decreases outs.len() - i,
    {
        proof {
            assert(outs@.skip(i as int)[0] == outs@[i as int]);
            assert(outs@.skip(i as int).drop_first() =~= outs@.skip(i + 1));
        }
        match &outs[i] {
            AttemptOutcome::Returned => {
                return Some(TestStatus::Passed);
            },
            AttemptOutcome::Panicked { message } => {
                if i as u64 + 1 >= max {
                    return Some(TestStatus::Failed { reason: message.clone(), location: None });
                }
            },
        }
        i = i + 1;
    }
    None
}

/// The status outcome `o` gives test `t`.
pub fn status_of(o: &TestOutcome, t: &CollectedTest) -> (r: Option<TestStatus>)
    ensures
        r == outcome_status(*o, *t),
{
    match o {
        TestOutcome::Attempts(v) => settle_attempts(v, t.retries),
        TestOutcome::TimedOut => match &t.timeout {
            Some(d) => Some(timed_out(*d)),
            None => None,
        },
    }
}

/// Whether `cases` records a run of the collected tests `ts`, in order,
/// whose runner reported `outs` for the tests it ran: each case carries
/// its test's details and the status its outcome gives; the run goes on
/// until every test has run, except that it stops after a failure under
/// `fail_fast`, and at a test whose outcome settles on no status (which
/// gets no case).
pub open spec fn records_run(cases: Seq<TestCase>, ts: Seq<CollectedTest>, outs: Seq<TestOutcome>, cfg: RunnerConfig) -> bool {
    &&& cases.len() <= outs.len() <= ts.len()
    &&& outs.len() <= cases.len() + 1
    &&& forall|i: int|
        0 <= i < cases.len() ==> outcome_status(outs[i], ts[i]) == Some(#[trigger] cases[i].status)
            && case_reports(cases[i], ts[i], cases[i].status, cases[i].duration)
    &&& forall|i: int| 0 <= i < cases.len() - 1 ==> !(cfg.fail_fast && #[trigger] cases[i].status.failure())
    &&& outs.len() == cases.len() + 1 ==> outcome_status(outs[cases.len() as int], ts[cases.len() as int]) is None
    &&& (outs.len() == cases.len() && cases.len() < ts.len()) ==> (cases.len() > 0 && cfg.fail_fast
        && cases[cases.len() - 1].status.failure())
}

/// Whether `cases` records a run of the tests that block `s` plans under
/// `cfg`, each handed to `execute`.
pub open spec fn ran_as_planned<E: Fn(&CollectedTest) -> TestOutcome>(
    cases: Seq<TestCase>,
    s: SpecView,
    cfg: RunnerConfig,
    execute: E,
) -> bool {
    exists|ts: Seq<CollectedTest>, outs: Seq<TestOutcome>|
        {
            &&& collected_all(ts, planned(s, cfg))
            &&& forall|j: int| 0 <= j < outs.len() ==> execute.ensures((&ts[j],), #[trigger] outs[j])
            &&& #[trigger] records_run(cases, ts, outs, cfg)
        }
}

/// The hook block `s` registers itself: its `before_all` hook when
/// `setups`, else its `after_all` hook.
pub open spec fn own_hook(s: SpecView, setups: bool) -> Seq<TestFn> {
    match (if setups { s.setup } else { s.teardown }) {
        Some(h) => seq![h],
        None => Seq::empty(),
    }
}

/// The hooks of one kind of block `s` and the blocks within it, in
/// pre-order: the block's own, then those of each child in turn.
pub open spec fn hook_order(s: SpecView, setups: bool) -> Seq<TestFn>
    decreases s,
{
    own_hook(s, setups) + hook_forest(s.children, setups)
}

/// The pre-order hooks of the blocks `cs`, one block after another.
pub open spec fn hook_forest(cs: Seq<SpecView>, setups: bool) -> Seq<TestFn>
    decreases cs,
{
    if cs.len() == 0 {
        Seq::empty()
    } else {
        hook_forest(cs.drop_last(), setups) + hook_order(cs.last(), setups)
    }
}

/// The `before_all` hooks of a tree in the order they run: pre-order.
pub open spec fn setup_order(s: SpecView) -> Seq<TestFn> {
    hook_order(s, true)
}

/// The `after_all` hooks of a tree in the order they run: the reverse of
/// pre-order.
pub open spec fn teardown_order(s: SpecView) -> Seq<TestFn> {
    hook_order(s, false).reverse()
}

/// Hands each hook of `hooks` to `hook`, in order.
fn call_hooks<H: Fn(&TestFn)>(hooks: &Vec<TestFn>, hook: &H)
    requires
        forall|h: &TestFn| #[trigger] hook.requires((h,)),
{
    let mut i: usize = 0;
    while i < hooks.len()
        invariant
            forall|h: &TestFn| #[trigger] hook.requires((h,)),
        decreases hooks.len() - i,
    {
        hook(&hooks[i]);
        i = i + 1;
    }
}

/// Two configurations plan and stop runs alike: the same filters, defaults
/// and fail-fast setting.
pub open spec fn plans_alike(a: RunnerConfig, b: RunnerConfig) -> bool {
    &&& a.include_tags@ == b.include_tags@
    &&& a.exclude_tags@ == b.exclude_tags@
    &&& opt_view(a.filter) == opt_view(b.filter)
    &&& a.default_timeout == b.default_timeout
    &&& a.default_retries == b.default_retries
    &&& a.fail_fast == b.fail_fast
}

/// An executor whose outcome depends only on the test it is handed: its
/// name, body, retries and timeout.
pub open spec fn outcomes_determined<E: Fn(&CollectedTest) -> TestOutcome>(execute: E) -> bool {
    forall|a: CollectedTest, b: CollectedTest, oa: TestOutcome, ob: TestOutcome|
        #![trigger execute.ensures((&a,), oa), execute.ensures((&b,), ob)]
        a.full_name@ == b.full_name@ && a.test_fn == b.test_fn && a.retries == b.retries && a.timeout == b.timeout
            && execute.ensures((&a,), oa) && execute.ensures((&b,), ob) ==> oa == ob
}

proof fn lemma_plan_tree_alike(s: SpecView, outer: Scope, a: RunnerConfig, b: RunnerConfig)
    requires
        plans_alike(a, b),
    ensures
        plan_tree(s, outer, a) == plan_tree(s, outer, b),
    decreases s,
{
    let sc = inner_scope(s, outer, a);
    assert(sc == inner_scope(s, outer, b));
    lemma_plan_forest_alike(s.children, sc, a, b);
}

proof fn lemma_plan_forest_alike(cs: Seq<SpecView>, outer: Scope, a: RunnerConfig, b: RunnerConfig)
    requires
        plans_alike(a, b),
    ensures
        plan_forest(cs, outer, a) == plan_forest(cs, outer, b),
    decreases cs,
{
    if cs.len() > 0 {
        lemma_plan_forest_alike(cs.drop_last(), outer, a, b);
        lemma_plan_tree_alike(cs.last(), outer, a, b);
    }
}

proof fn lemma_keep_alike(ps: Seq<PlannedTest>, a: RunnerConfig, b: RunnerConfig)
    requires
        plans_alike(a, b),
    ensures
        keep_selected(ps, a) == keep_selected(ps, b),
    decreases ps.len(),
{
    if ps.len() > 0 {
        lemma_keep_alike(ps.drop_last(), a, b);
        assert(selected(ps.last(), a) == selected(ps.last(), b));
    }
}

/// Configurations that plan alike plan the same tests.
pub proof fn lemma_planned_alike(s: SpecView, a: RunnerConfig, b: RunnerConfig)
    requires
        plans_alike(a, b),
    ensures
        planned(s, a) == planned(s, b),
{
    lemma_plan_tree_alike(s, top_scope(), a, b);
    lemma_keep_alike(plan_tree(s, top_scope(), a), a, b);
}

/// Two runs of the same block under configurations that plan alike, with
/// an executor whose outcomes depend only on the test, record the same
/// tests: as many, with the same names and statuses.
pub proof fn lemma_runs_agree<E: Fn(&CollectedTest) -> TestOutcome>(
    c1: Seq<TestCase>,
    c2: Seq<TestCase>,
    s: SpecView,
    cfg1: RunnerConfig,
    cfg2: RunnerConfig,
    execute: E,
)
    requires
        plans_alike(cfg1, cfg2),
        outcomes_determined(execute),
        ran_as_planned(c1, s, cfg1, execute),
        ran_as_planned(c2, s, cfg2, execute),
    ensures
        c1.len() == c2.len(),
        forall|i: int| 0 <= i < c1.len() ==> #[trigger] c1[i].name@ == c2[i].name@ && c1[i].status == c2[i].status,
{
    let (ts1, outs1) = choose|ts: Seq<CollectedTest>, outs: Seq<TestOutcome>|
        {
            &&& collected_all(ts, planned(s, cfg1))
            &&& forall|j: int| 0 <= j < outs.len() ==> execute.ensures((&ts[j],), #[trigger] outs[j])
            &&& #[trigger] records_run(c1, ts, outs, cfg1)
        };
    let (ts2, outs2) = choose|ts: Seq<CollectedTest>, outs: Seq<TestOutcome>|
        {
            &&& collected_all(ts, planned(s, cfg2))
            &&& forall|j: int| 0 <= j < outs.len() ==> execute.ensures((&ts[j],), #[trigger] outs[j])
            &&& #[trigger] records_run(c2, ts, outs, cfg2)
        };
    lemma_planned_alike(s, cfg1, cfg2);
    let ps = planned(s, cfg1);
    assert forall|i: int| 0 <= i < outs1.len() && 0 <= i < outs2.len() implies outcome_status(outs1[i], ts1[i])
        == outcome_status(#[trigger] outs2[i], ts2[i]) by {
        assert(collected_as(ts1[i], ps[i]));
        assert(collected_as(ts2[i], ps[i]));
        assert(execute.ensures((&ts1[i],), outs1[i]));
        assert(execute.ensures((&ts2[i],), outs2[i]));
        assert(outs1[i] == outs2[i]);
    }
    if c1.len() < c2.len() {
        let k = c1.len() as int;
        if outs1.len() == k + 1 {
            assert(outcome_status(outs2[k], ts2[k]) == Some(c2[k].status));
        } else {
            assert(outcome_status(outs2[k - 1], ts2[k - 1]) == Some(c2[k - 1].status));
            assert(!(cfg2.fail_fast && c2[k - 1].status.failure()));
        }
    }
    if c2.len() < c1.len() {
        let k = c2.len() as int;
        if outs2.len() == k + 1 {
            assert(outcome_status(outs1[k], ts1[k]) == Some(c1[k].status));
        } else {
            assert(outcome_status(outs1[k - 1], ts1[k - 1]) == Some(c1[k - 1].status));
            assert(!(cfg1.fail_fast && c1[k - 1].status.failure()));
        }
    }
    assert forall|i: int| 0 <= i < c1.len() implies #[trigger] c1[i].name@ == c2[i].name@ && c1[i].status == c2[i].status by {
        assert(collected_as(ts1[i], ps[i]));
        assert(collected_as(ts2[i], ps[i]));
        assert(case_reports(c1[i], ts1[i], c1[i].status, c1[i].duration));
        assert(case_reports(c2[i], ts2[i], c2[i].status, c2[i].duration));
        assert(outcome_status(outs1[i], ts1[i]) == outcome_status(outs2[i], ts2[i]));
    }
}

/// An executor every outcome of which settles on a status.
pub open spec fn always_settles<E: Fn(&CollectedTest) -> TestOutcome>(execute: E) -> bool {
    forall|t: CollectedTest, o: TestOutcome| #[trigger] execute.ensures((&t,), o) ==> outcome_status(o, t) is Some
}

/// A run of a tree without tag or name filters lists the tree's tests in
/// pre-order, each under its full path name (`block :: ... :: test`): the
/// cases are the first tests of that order, and all of them when the run
/// is not fail-fast and every outcome settles.
pub proof fn lemma_run_lists_tests_in_preorder<E: Fn(&CollectedTest) -> TestOutcome>(
    cases: Seq<TestCase>,
    s: SpecView,
    cfg: RunnerConfig,
    execute: E,
)
    requires
        ran_as_planned(cases, s, cfg, execute),
        cfg.include_tags@.len() == 0,
        cfg.exclude_tags@.len() == 0,
        cfg.filter is None,
    ensures
        cases.len() <= preorder_names(s, Seq::empty()).len(),
        forall|i: int| 0 <= i < cases.len() ==> #[trigger] cases[i].name@ == preorder_names(s, Seq::empty())[i],
        !cfg.fail_fast && always_settles(execute) ==> cases.len() == preorder_names(s, Seq::empty()).len(),
{
    let (ts, outs) = choose|ts: Seq<CollectedTest>, outs: Seq<TestOutcome>|
        {
            &&& collected_all(ts, planned(s, cfg))
            &&& forall|j: int| 0 <= j < outs.len() ==> execute.ensures((&ts[j],), #[trigger] outs[j])
            &&& #[trigger] records_run(cases, ts, outs, cfg)
        };
    lemma_unfiltered_run_plans_every_test(s, cfg);
    lemma_tree_names(s, top_scope(), cfg);
    let ps = planned(s, cfg);
    assert forall|i: int| 0 <= i < cases.len() implies #[trigger] cases[i].name@ == preorder_names(s, Seq::empty())[i] by {
        assert(collected_as(ts[i], ps[i]));
        assert(case_reports(cases[i], ts[i], cases[i].status, cases[i].duration));
        assert(planned_names(ps)[i] == ps[i].full_name);
    }
    if !cfg.fail_fast && always_settles(execute) && cases.len() < ts.len() {
        let k = cases.len() as int;
        if outs.len() == k + 1 {
            assert(execute.ensures((&ts[k],), outs[k]));
        }
    }
}

impl Spec {
    /// The tests a run under `config` executes: all tests of the tree in
    /// order, kept when they pass the tag and name filters.
    pub fn plan(&self, config: &RunnerConfig) -> (r: Vec<CollectedTest>)
        ensures
            collected_all(r@, planned(self@, *config)),
    {
        let empty_prefix: Vec<char> = Vec::new();
        let empty_tags: Vec<String> = Vec::new();
        let all = self.collect_tests(&empty_prefix, &empty_tags, None, 0, config);
        let ghost ps = plan_tree(self@, top_scope(), *config);
        proof {
            assert(empty_prefix@ =~= top_scope().prefix);
            assert(empty_tags@ =~= top_scope().tags);
        }
        let filter: Option<&str> = match &config.filter {
            Some(f) => Some(f.as_str()),
            None => None,
        };
        let mut r: Vec<CollectedTest> = Vec::new();
        let mut i: usize = 0;
        while i < all.len()
            invariant
                i <= all.len(),
                collected_all(all@, ps),
                collected_all(r@, keep_selected(ps.take(i as int), *config)),
                (match filter {
                    Some(f) => Some(f@),
                    None => None,
                }) == opt_view(config.filter),
            decreases all.len() - i,
        {
            let t = &all[i];
            proof {
                assert(ps.take(i + 1).drop_last() =~= ps.take(i as int));
                assert(ps.take(i + 1).last() == ps[i as int]);
                assert(collected_as(all@[i as int], ps[i as int]));
            }
            let keep = tags_match(t.tags.as_slice(), config) && name_matches(t.full_name.as_str(), filter);
            if keep {
                let c = t.duplicate();
                let ghost before = r@;
                r.push(c);
                proof {
                    let ks = keep_selected(ps.take(i + 1), *config);
                    assert(ks == keep_selected(ps.take(i as int), *config).push(ps[i as int]));
                    assert forall|j: int| 0 <= j < r@.len() implies collected_as(#[trigger] r@[j], ks[j]) by {
                        if j < before.len() {
                            assert(r@[j] == before[j]);
                        }
                    }
                }
            }
            i = i + 1;
        }
        proof {
            assert(ps.take(i as int) =~= ps);
        }
        r
    }
}


// ---------------------------------------------------------------------------
// Building specs
// ---------------------------------------------------------------------------

/// One change to a spec block.
pub enum SpecEdit {
    Description(String),
    Tag(String),
    Timeout(Duration),
    Retries(u32),
    BeforeAll(TestFn),
    AfterAll(TestFn),
    It(TestEntry),
    Describe(Spec),
}

/// Block `s` after the change `e`.
pub open spec fn edited(s: SpecView, e: SpecEdit) -> SpecView {
    match e {
        SpecEdit::Description(t) => SpecView { description: Some(t@), ..s },
        SpecEdit::Tag(t) => SpecView { tags: s.tags.push(t), ..s },
        SpecEdit::Timeout(d) => SpecView { timeout: Some(d), ..s },
        SpecEdit::Retries(n) => SpecView { retries: n, ..s },
        SpecEdit::BeforeAll(f) => SpecView { setup: Some(f), ..s },
        SpecEdit::AfterAll(f) => SpecView { teardown: Some(f), ..s },
        SpecEdit::It(entry) => SpecView { tests: s.tests.push(entry), ..s },
        SpecEdit::Describe(c) => SpecView { children: s.children.push(c@), ..s },
    }
}

/// Tree `s` after the change `e` to the block reached by following `path`
/// (child indices from the top).
pub open spec fn edited_at(s: SpecView, path: Seq<usize>, e: SpecEdit) -> SpecView
    decreases path.len(),
{
    if path.len() == 0 {
        edited(s, e)
    } else if path[0] < s.children.len() {
        SpecView {
            children: s.children.update(
                path[0] as int,
                edited_at(s.children[path[0] as int], path.drop_first(), e),
            ),
            ..s
        }
    } else {
        s
    }
}

/// `path` leads to a block of `s`.
pub open spec fn valid_path(s: SpecView, path: Seq<usize>) -> bool
    decreases path.len(),
{
    path.len() == 0 || (path[0] < s.children.len() && valid_path(s.children[path[0] as int], path.drop_first()))
}

/// The block `path` leads to.
pub open spec fn node_at(s: SpecView, path: Seq<usize>) -> SpecView
    decreases path.len(),
{
    if path.len() == 0 || path[0] >= s.children.len() {
        s
    } else {
        node_at(s.children[path[0] as int], path.drop_first())
    }
}

/// A change never removes a block, so every path stays valid.
proof fn lemma_valid_after_edit(s: SpecView, p: Seq<usize>, q: Seq<usize>, e: SpecEdit)
    requires
        valid_path(s, q),
    ensures
        valid_path(edited_at(s, p, e), q),
    decreases q.len(),
{
    if q.len() > 0 {
        let j = q[0] as int;
        if p.len() == 0 {
            let t = edited(s, e);
            assert(t.children.len() >= s.children.len());
            assert(t.children[j] == s.children[j]);
        } else if p[0] < s.children.len() {
            if p[0] as int == j {
                lemma_valid_after_edit(s.children[j], p.drop_first(), q.drop_first(), e);
            }
        }
    }
}

/// Adding a child to the block at `p` makes the new child reachable.
proof fn lemma_valid_after_describe(s: SpecView, p: Seq<usize>, c: Spec)
    requires
        valid_path(s, p),
        node_at(s, p).children.len() <= usize::MAX,
    ensures
        valid_path(
            edited_at(s, p, SpecEdit::Describe(c)),
            p.push(node_at(s, p).children.len() as usize),
        ),
        node_at(s, p).children.len() < usize::MAX ==> true,
    decreases p.len(),
{
    let k = node_at(s, p).children.len() as usize;
    let e = SpecEdit::Describe(c);
    if p.len() == 0 {
        let t = edited(s, e);
        assert(node_at(s, p) == s);
        assert(edited_at(s, p, e) == t);
        assert(t.children.len() == s.children.len() + 1);
        let q = p.push(k);
        assert(q =~= seq![k]);
        assert(q.drop_first() =~= Seq::<usize>::empty());
        assert(q[0] < t.children.len());
        assert(valid_path(t.children[q[0] as int], q.drop_first()));
    } else {
        let i = p[0] as int;
        let child = s.children[i];
        assert(node_at(s, p) == node_at(child, p.drop_first()));
        lemma_valid_after_describe(child, p.drop_first(), c);
        let t = edited_at(s, p, e);
        assert(t.children[i] == edited_at(child, p.drop_first(), e));
        let q = p.push(k);
        assert(q.drop_first() =~= p.drop_first().push(k));
        assert(q[0] == p[0]);
        assert(valid_path(t.children[q[0] as int], q.drop_first()));
    }
}

impl Spec {
    /// The model of an empty block named `name`.
    pub open spec fn empty_model(name: Seq<char>) -> SpecView {
        SpecView {
            name,
            description: None,
            tags: Seq::empty(),
            setup: None,
            teardown: None,
            children: Seq::empty(),
            tests: Seq::empty(),
            timeout: None,
            retries: 0,
        }
    }

    /// Create a new `Spec` with the given name.
    pub fn new(name: &str) -> (r: Spec)
        ensures
            r@ == Spec::empty_model(name@),
    {
        let r = Spec {
            name: owned(name),
            description: None,
            tags: Vec::new(),
            setup: None,
            teardown: None,
            children: Vec::new(),
            tests: Vec::new(),
            timeout: None,
            retries: 0,
        };
        proof {
            assert(r.children@ =~= Seq::<Spec>::empty());
            assert(r@ =~= Spec::empty_model(name@));
        }
        r
    }

    /// Applies one change to this block.
    fn apply_edit(&mut self, e: SpecEdit)
        ensures
            final(self)@ == edited(old(self)@, e),
    {
        match e {
            SpecEdit::Description(t) => {
                self.description = Some(t);
            },
            SpecEdit::Tag(t) => {
                self.tags.push(t);
            },
            SpecEdit::Timeout(d) => {
                self.timeout = Some(d);
            },
            SpecEdit::Retries(n) => {
                self.retries = n;
            },
            SpecEdit::BeforeAll(f) => {
                self.setup = Some(f);
            },
            SpecEdit::AfterAll(f) => {
                self.teardown = Some(f);
            },
            SpecEdit::It(entry) => {
                self.tests.push(entry);
            },
            SpecEdit::Describe(c) => {
                let ghost cs = self.children@;
                self.children.push(c);
                proof {
                    lemma_models_push(cs, c);
                }
            },
        }
    }

    /// Applies one change to the block reached by `path[depth..]`.
    fn apply_edit_at(&mut self, path: &Vec<usize>, depth: usize, e: SpecEdit)
        requires
            depth <= path.len(),
        ensures
            final(self)@ == edited_at(old(self)@, path@.skip(depth as int), e),
        decreases path.len() - depth,
    {
        if depth == path.len() {
            proof {
                assert(path@.skip(depth as int) =~= Seq::<usize>::empty());
            }
            self.apply_edit(e);
            return;
        }
        let idx = path[depth];
        proof {
            lemma_models_len(self.children@);
            assert(path@.skip(depth as int)[0] == idx);
            assert(path@.skip(depth as int).drop_first() =~= path@.skip(depth + 1));
        }
        if idx < self.children.len() {
            let ghost cs = self.children@;
            let mut child = self.children.remove(idx);
            proof {
                lemma_models_index(cs, idx as int);
            }
            child.apply_edit_at(path, depth + 1, e);
            self.children.insert(idx, child);
            proof {
                assert(self.children@ =~= cs.update(idx as int, child));
                lemma_models_update(cs, idx as int, child);
                assert(final(self)@ =~= edited_at(old(self)@, path@.skip(depth as int), e));
            }
        }
    }

    /// The number of children of the block reached by `path[depth..]`.
    fn child_count_at(&self, path: &Vec<usize>, depth: usize) -> (n: usize)
        requires
            depth <= path.len(),
            valid_path(self@, path@.skip(depth as int)),
        ensures
            n == node_at(self@, path@.skip(depth as int)).children.len(),
        decreases path.len() - depth,
    {
        proof {
            lemma_models_len(self.children@);
        }
        if depth == path.len() {
            proof {
                assert(path@.skip(depth as int) =~= Seq::<usize>::empty());
            }
            return self.children.len();
        }
        let idx = path[depth];
        proof {
            assert(path@.skip(depth as int)[0] == idx);
            assert(path@.skip(depth as int).drop_first() =~= path@.skip(depth + 1));
            lemma_models_index(self.children@, idx as int);
        }
        self.children[idx].child_count_at(path, depth + 1)
    }

    /// Attach a description to this spec block.
    pub fn description(self, text: &str) -> (r: Spec)
        ensures
            r@ == (SpecView { description: Some(text@), ..self@ }),
    {
        let mut me = self;
        me.apply_edit(SpecEdit::Description(owned(text)));
        me
    }

    /// Add a tag to this spec and all contained tests.
    pub fn tag(self, tag: &str) -> (r: Spec)
        ensures
            r@ == (SpecView { tags: r@.tags, ..self@ }),
            r@.tags.len() == self@.tags.len() + 1,
            r@.tags.drop_last() == self@.tags,
            r@.tags.last()@ == tag@,
    {
        let mut me = self;
        let t = owned(tag);
        me.apply_edit(SpecEdit::Tag(t));
        proof {
            assert(me@.tags.drop_last() =~= self@.tags);
        }
        me
    }

    /// Set the default timeout for tests in this block.
    pub fn timeout(self, duration: Duration) -> (r: Spec)
        ensures
            r@ == (SpecView { timeout: Some(duration), ..self@ }),
    {
        let mut me = self;
        me.apply_edit(SpecEdit::Timeout(duration));
        me
    }

    /// Set the number of retries for flaky tests in this block.
    pub fn retries(self, count: u32) -> (r: Spec)
        ensures
            r@ == (SpecView { retries: count, ..self@ }),
    {
        let mut me = self;
        me.apply_edit(SpecEdit::Retries(count));
        me
    }

    /// Register a setup hook run once before any test in this block.
    pub fn before_all<F: Fn() + Send + Sync + 'static>(self, hook: F) -> (r: Spec)
        ensures
            r@ == (SpecView { setup: r@.setup, ..self@ }),
            r@.setup is Some,
    {
        let mut me = self;
        me.apply_edit(SpecEdit::BeforeAll(TestFn::new(hook)));
        me
    }

    /// Register a teardown hook run once after all tests in this block.
    pub fn after_all<F: Fn() + Send + Sync + 'static>(self, hook: F) -> (r: Spec)
        ensures
            r@ == (SpecView { teardown: r@.teardown, ..self@ }),
            r@.teardown is Some,
    {
        let mut me = self;
        me.apply_edit(SpecEdit::AfterAll(TestFn::new(hook)));
        me
    }

    /// Register a leaf test case with the given name and body.
    ///
    /// The test body should use `assert!` / `assert_eq!`.
    pub fn it<F: Fn() + Send + Sync + 'static>(self, name: &str, test: F) -> (r: Spec)
        ensures
            r@ == (SpecView { tests: r@.tests, ..self@ }),
            r@.tests.len() == self@.tests.len() + 1,
            r@.tests.drop_last() == self@.tests,
            r@.tests.last().name@ == name@,
            r@.tests.last().location is None,
    {
        let mut me = self;
        let entry = TestEntry { name: owned(name), location: None, test_fn: TestFn::new(test) };
        me.apply_edit(SpecEdit::It(entry));
        proof {
            assert(me@.tests.drop_last() =~= self@.tests);
        }
        me
    }

    /// Nest a child spec block inside this one; the returned builder edits
    /// the new child.
    pub fn describe(self, name: &str) -> (r: SpecBuilder)
        ensures
            r.root()@ == (SpecView { children: self@.children.push(Spec::empty_model(name@)), ..self@ }),
            r.current()@ == seq![self@.children.len() as usize],
    {
        let mut me = self;
        let ghost before = me@;
        let child_index = me.children.len();
        proof {
            lemma_models_len(me.children@);
        }
        let child = Spec::new(name);
        me.apply_edit(SpecEdit::Describe(child));
        let mut path: Vec<usize> = Vec::new();
        path.push(child_index);
        proof {
            lemma_models_len(me.children@);
            assert(path@ =~= seq![child_index]);
            assert(path@.drop_first() =~= Seq::<usize>::empty());
            assert(me@.children.len() == before.children.len() + 1);
            assert(path@[0] < me@.children.len());
            assert(valid_path(me@.children[path@[0] as int], path@.drop_first()));
            assert(valid_path(me@, path@));
        }
        SpecBuilder { parent: me, path }
    }
}

impl Spec {
    /// The suite a run of this block fills: its name and description, no
    /// tests yet.
    pub fn empty_suite(&self) -> (suite: TestSuite)
        ensures
            suite.name@ == self@.name,
            opt_view(suite.description) == self@.description,
            suite.tests@.len() == 0,
            suite.duration@ == 0,
    {
        let mut suite = TestSuite::new(self.name.as_str());
        suite.description = duplicate_opt_string(&self.description);
        suite
    }

    /// The `before_all` hooks (when `setups`) or the `after_all` hooks (when
    /// not) of this block and the blocks within it, in pre-order.
    fn hooks_in_preorder(&self, setups: bool) -> (r: Vec<TestFn>)
        ensures
            r@ == hook_order(self@, setups),
        decreases self,
    {
        let mut r: Vec<TestFn> = Vec::new();
        let own = if setups { &self.setup } else { &self.teardown };
        match own {
            Some(h) => r.push(h.share()),
            None => {},
        }
        let ghost head = r@;
        let ghost ms = spec_models(self.children@);
        proof {
            lemma_models_len(self.children@);
            assert(ms.take(0) =~= Seq::<SpecView>::empty());
            assert(head == own_hook(self@, setups));
        }
        let mut i: usize = 0;
        while i < self.children.len()
            invariant
                i <= self.children@.len(),
                ms == spec_models(self.children@),
                ms.len() == self.children@.len(),
                r@ == head + hook_forest(ms.take(i as int), setups),
            decreases self.children.len() - i,
        {
            proof {
                assert(decreases_to!(self => self.children@[i as int]));
                lemma_models_index(self.children@, i as int);
            }
            let mut sub = self.children[i].hooks_in_preorder(setups);
            let ghost before = r@;
            r.append(&mut sub);
            proof {
                assert(ms.take(i + 1).drop_last() =~= ms.take(i as int));
                assert(ms.take(i + 1).last() == ms[i as int]);
                assert(r@ =~= head + hook_forest(ms.take(i + 1), setups));
            }
            i = i + 1;
        }
        proof {
            assert(ms.take(i as int) =~= ms);
            assert(r@ =~= hook_order(self@, setups));
        }
        r
    }

    /// The `before_all` hooks of the tree in the order a run calls them:
    /// pre-order, each block's before those of its children.
    pub fn setup_hooks(&self) -> (r: Vec<TestFn>)
        ensures
            r@ == setup_order(self@),
    {
        self.hooks_in_preorder(true)
    }

    /// The `after_all` hooks of the tree in the order a run calls them: the
    /// reverse of pre-order, so each block's after those of its children.
    pub fn teardown_hooks(&self) -> (r: Vec<TestFn>)
        ensures
            r@ == teardown_order(self@),
    {
        let pre = self.hooks_in_preorder(false);
        let mut r: Vec<TestFn> = Vec::new();
        let mut i: usize = pre.len();
        while i > 0
            invariant
                i <= pre@.len(),
                r@ == pre@.subrange(i as int, pre@.len() as int).reverse(),
            decreases i,
        {
            i = i - 1;
            let ghost before = r@;
            r.push(pre[i].share());
            proof {
                assert(r@ =~= pre@.subrange(i as int, pre@.len() as int).reverse());
            }
        }
        proof {
            assert(pre@.subrange(0, pre@.len() as int) =~= pre@);
        }
        r
    }

    /// Execute all leaf tests in this spec tree with the default
    /// configuration and return a `TestSuite`: `run_with_config` under
    /// `RunnerConfig::default()`.
    pub fn run<E: Fn(&CollectedTest) -> TestOutcome, H: Fn(&TestFn)>(self, execute: &E, hook: &H) -> (suite: TestSuite)
        requires
            forall|t: &CollectedTest| #[trigger] execute.requires((t,)),
            forall|h: &TestFn| #[trigger] hook.requires((h,)),
        ensures
            suite.name@ == self@.name,
            opt_view(suite.description) == self@.description,
            exists|cfg: RunnerConfig| cfg.is_default() && #[trigger] ran_as_planned(suite.tests@, self@, cfg, *execute),
    {
        let config = RunnerConfig::default();
        self.run_with_config(&config, execute, hook)
    }

    /// Execute the planned tests in order, after the `before_all` hooks of
    /// the tree (`setup_hooks`: pre-order) and before its `after_all` hooks
    /// (`teardown_hooks`: the reverse of pre-order), each handed to `hook`,
    /// timing each test and the whole suite.
    ///
    /// Each test is handed to `execute`, which runs its body and reports the
    /// outcome; its status follows from that outcome ([`outcome_status`]).
    /// The run stops after the first failure under `fail_fast`, and at a
    /// test whose outcome settles on no status.
    pub fn run_with_config<E: Fn(&CollectedTest) -> TestOutcome, H: Fn(&TestFn)>(
        self,
        config: &RunnerConfig,
        execute: &E,
        hook: &H,
    ) -> (suite: TestSuite)
        requires
            forall|t: &CollectedTest| #[trigger] execute.requires((t,)),
            forall|h: &TestFn| #[trigger] hook.requires((h,)),
        ensures
            suite.name@ == self@.name,
            opt_view(suite.description) == self@.description,
            ran_as_planned(suite.tests@, self@, *config, *execute),
    {
        let mut suite = self.empty_suite();
        let plan = self.plan(config);
        let ghost ps = planned(self@, *config);
        let start = instant_now();
        let setups = self.setup_hooks();
        call_hooks(&setups, hook);
        let mut cases: Vec<TestCase> = Vec::new();
        let ghost mut outs: Seq<TestOutcome> = Seq::empty();
        let mut i: usize = 0;
        while i < plan.len()
            invariant_except_break
                outs.len() == i,
                forall|j: int| 0 <= j < i ==> !(config.fail_fast && #[trigger] cases@[j].status.failure()),
            invariant
                i <= plan.len(),
                cases@.len() == i,
                i <= outs.len() <= i + 1,
                outs.len() <= plan@.len(),
                collected_all(plan@, ps),
                forall|t: &CollectedTest| #[trigger] execute.requires((t,)),
                forall|j: int| 0 <= j < outs.len() ==> execute.ensures((&plan@[j],), #[trigger] outs[j]),
                forall|j: int|
                    0 <= j < cases@.len() ==> outcome_status(outs[j], plan@[j]) == Some(#[trigger] cases@[j].status)
                        && case_reports(cases@[j], plan@[j], cases@[j].status, cases@[j].duration),
            ensures
                records_run(cases@, plan@, outs, *config),
            decreases plan.len() - i,
        {
            let t = &plan[i];
            let t_start = instant_now();
            let out = execute(t);
            let d = elapsed_since(&t_start);
            proof {
                outs = outs.push(out);
            }
            match status_of(&out, t) {
                None => {
                    break;
                },
                Some(status) => {
                    let stop = stops_run(config, &status);
                    let c = case_for(t, status, d);
                    cases.push(c);
                    i = i + 1;
                    if stop {
                        break;
                    }
                },
            }
        }
        let teardowns = self.teardown_hooks();
        call_hooks(&teardowns, hook);
        suite.duration = elapsed_since(&start);
        suite.tests = cases;
        suite
    }
}

/// Create a new top-level `Spec` with the given name.
///
/// This is the entry point for BDD-style test organisation. Use chained
/// method calls to describe the expected behaviour, then call [`run`](Spec::run).
pub fn describe(name: &str) -> (r: Spec)
    ensures
        r@ == Spec::empty_model(name@),
{
    Spec::new(name)
}

/// A builder that chains configuration onto a nested block of a spec tree;
/// its methods edit that block, and `run` runs the whole tree.
pub struct SpecBuilder {
    parent: Spec,
    path: Vec<usize>,
}

impl SpecBuilder {
    #[verifier::type_invariant]
    spec fn path_leads_to_block(self) -> bool {
        valid_path(self.parent@, self.path@)
    }

    /// The whole tree being built.
    pub closed spec fn root(&self) -> Spec {
        self.parent
    }

    /// The path to the block being edited.
    pub closed spec fn current(&self) -> Vec<usize> {
        self.path
    }

    fn edit(self, e: SpecEdit) -> (r: SpecBuilder)
        ensures
            r.root()@ == edited_at(self.root()@, self.current()@, e),
            r.current()@ == self.current()@,
    {
        proof {
            use_type_invariant(&self);
        }
        let SpecBuilder { parent, path } = self;
        let mut parent = parent;
        proof {
            assert(path@.skip(0) =~= path@);
            lemma_valid_after_edit(parent@, path@, path@, e);
        }
        parent.apply_edit_at(&path, 0, e);
        SpecBuilder { parent, path }
    }

    /// Attach a description to the current block.
    pub fn description(self, text: &str) -> (r: SpecBuilder)
        ensures
            exists|t: String| t@ == text@ && r.root()@ == edited_at(self.root()@, self.current()@, SpecEdit::Description(t)),
            r.current()@ == self.current()@,
    {
        let t = owned(text);
        let ghost tv = t;
        self.edit(SpecEdit::Description(t))
    }

    /// Add a tag to the current block.
    pub fn tag(self, tag: &str) -> (r: SpecBuilder)
        ensures
            exists|t: String| t@ == tag@ && r.root()@ == edited_at(self.root()@, self.current()@, SpecEdit::Tag(t)),
            r.current()@ == self.current()@,
    {
        let t = owned(tag);
        let ghost tv = t;
        self.edit(SpecEdit::Tag(t))
    }

    /// Set a timeout on the current block.
    pub fn timeout(self, duration: Duration) -> (r: SpecBuilder)
        ensures
            r.root()@ == edited_at(self.root()@, self.current()@, SpecEdit::Timeout(duration)),
            r.current()@ == self.current()@,
    {
        self.edit(SpecEdit::Timeout(duration))
    }

    /// Set retries on the current block.
    pub fn retries(self, count: u32) -> (r: SpecBuilder)
        ensures
            r.root()@ == edited_at(self.root()@, self.current()@, SpecEdit::Retries(count)),
            r.current()@ == self.current()@,
    {
        self.edit(SpecEdit::Retries(count))
    }

    /// Register a setup hook on the current block.
    pub fn before_all<F: Fn() + Send + Sync + 'static>(self, hook: F) -> (r: SpecBuilder)
        ensures
            exists|f: TestFn| r.root()@ == edited_at(self.root()@, self.current()@, SpecEdit::BeforeAll(f)),
            r.current()@ == self.current()@,
    {
        let f = TestFn::new(hook);
        let ghost fv = f;
        self.edit(SpecEdit::BeforeAll(f))
    }

    /// Register a teardown hook on the current block.
    pub fn after_all<F: Fn() + Send + Sync + 'static>(self, hook: F) -> (r: SpecBuilder)
        ensures
            exists|f: TestFn| r.root()@ == edited_at(self.root()@, self.current()@, SpecEdit::AfterAll(f)),
            r.current()@ == self.current()@,
    {
        let f = TestFn::new(hook);
        let ghost fv = f;
        self.edit(SpecEdit::AfterAll(f))
    }

    /// Add a leaf test to the current block.
    pub fn it<F: Fn() + Send + Sync + 'static>(self, name: &str, test: F) -> (r: SpecBuilder)
        ensures
            exists|e: TestEntry|
                e.name@ == name@ && e.location is None && r.root()@ == edited_at(
                    self.root()@,
                    self.current()@,
                    SpecEdit::It(e),
                ),
            r.current()@ == self.current()@,
    {
        let entry = TestEntry { name: owned(name), location: None, test_fn: TestFn::new(test) };
        let ghost ev = entry;
        let r = self.edit(SpecEdit::It(entry));
        proof {
            assert(ev.name@ == name@ && ev.location is None && r.root()@ == edited_at(
                self.root()@,
                self.current()@,
                SpecEdit::It(ev),
            ));
        }
        r
    }

    /// Nest a deeper block inside the current one and move to it.
    pub fn describe(self, name: &str) -> (r: SpecBuilder)
        ensures
            exists|c: Spec|
                c@ == Spec::empty_model(name@) && r.root()@ == edited_at(
                    self.root()@,
                    self.current()@,
                    SpecEdit::Describe(c),
                ),
            r.current()@ == self.current()@.push(node_at(self.root()@, self.current()@).children.len() as usize),
    {
        proof {
            use_type_invariant(&self);
        }
        let SpecBuilder { parent, path } = self;
        proof {
            assert(path@.skip(0) =~= path@);
        }
        let k = parent.child_count_at(&path, 0);
        let child = Spec::new(name);
        let ghost cv = child;
        let ghost before = parent@;
        let mut parent = parent;
        parent.apply_edit_at(&path, 0, SpecEdit::Describe(child));
        let mut path = path;
        let ghost old_path = path@;
        path.push(k);
        proof {
            lemma_valid_after_describe(before, old_path, child);
            assert(path@.drop_last() =~= old_path);
        }
        SpecBuilder { parent, path }
    }

    /// Run all tests starting from the top block.
    pub fn run<E: Fn(&CollectedTest) -> TestOutcome, H: Fn(&TestFn)>(self, execute: &E, hook: &H) -> (suite: TestSuite)
        requires
            forall|t: &CollectedTest| #[trigger] execute.requires((t,)),
            forall|h: &TestFn| #[trigger] hook.requires((h,)),
        ensures
            suite.name@ == self.root()@.name,
            opt_view(suite.description) == self.root()@.description,
            exists|cfg: RunnerConfig| cfg.is_default() && #[trigger] ran_as_planned(suite.tests@, self.root()@, cfg, *execute),
    {
        self.parent.run(execute, hook)
    }

    /// Run all tests from the top block with an explicit config.
    pub fn run_with_config<E: Fn(&CollectedTest) -> TestOutcome, H: Fn(&TestFn)>(
        self,
        config: &RunnerConfig,
        execute: &E,
        hook: &H,
    ) -> (suite: TestSuite)
        requires
            forall|t: &CollectedTest| #[trigger] execute.requires((t,)),
            forall|h: &TestFn| #[trigger] hook.requires((h,)),
        ensures
            suite.name@ == self.root()@.name,
            opt_view(suite.description) == self.root()@.description,
            ran_as_planned(suite.tests@, self.root()@, *config, *execute),
    {
        self.parent.run_with_config(config, execute, hook)
    }
}

} // verus!
