//! Architecture checks: rules over which modules of a crate may depend on
//! which, checked against the dependency graph read from its source files.
//!
//! The files themselves are read by the caller and handed over as
//! [`SourceFile`]s, each with its path relative to the source directory.

mod graph;

use vstd::prelude::*;
use crate::model::text::{
    chars_of, dec, lines, owned, push_chars, push_dec, push_str, split_lines, starts_with, starts_with_exec,
    string_from_chars, string_views, trim, trim_exec, views,
};

pub use self::graph::{
    acyclic, add_all_new, add_new, content_deps, dedup, defined_modules, depends, distinct, is_cycle, lemma_dedup,
    lemma_dedup_append, module_deps, module_name, parse_deps, path_to_module, DependencyGraph,
    SourceFile,
};
use self::graph::graph_of;

verus! {

// ---------------------------------------------------------------------------
// The model of a check
// ---------------------------------------------------------------------------

/// A rule of a check.
pub enum RuleView {
    /// The dependencies of module `name`: those outside `allowed` (when
    /// given) and those in `forbidden` (when given) are violations.
    Module { name: Seq<char>, allowed: Option<Seq<Seq<char>>>, forbidden: Option<Seq<Seq<char>>> },
    /// No module may take part in a dependency cycle.
    NoCycles,
    /// Every public item needs a doc comment.
    PublicDocs,
}

/// A check: its rules in order and the source directory it reads.
pub struct ArchView {
    pub rules: Seq<RuleView>,
    pub src_dir: Seq<char>,
}

/// The texts of a list of string slices.
pub open spec fn strs_view(s: Seq<&str>) -> Seq<Seq<char>> {
    s.map_values(|x: &str| x@)
}

/// The position of the first rule for module `name`, or -1.
pub open spec fn first_module(rules: Seq<RuleView>, name: Seq<char>) -> int
    decreases rules.len(),
{
    if rules.len() == 0 {
        -1
    } else {
        let j = first_module(rules.drop_last(), name);
        if j >= 0 {
            j
        } else if rules.last() matches RuleView::Module { name: n, .. } && n == name {
            rules.len() - 1
        } else {
            -1
        }
    }
}

/// `items` joined with `sep` between them.
pub open spec fn join(items: Seq<Seq<char>>, sep: Seq<char>) -> Seq<char>
    decreases items.len(),
{
    if items.len() == 0 {
        Seq::empty()
    } else if items.len() == 1 {
        items[0]
    } else {
        join(items.drop_last(), sep) + sep + items.last()
    }
}

/// The line reporting that `name` depends on `dep`, outside `allowed`.
pub open spec fn not_allowed_line(name: Seq<char>, dep: Seq<char>, allowed: Seq<Seq<char>>) -> Seq<char> {
    "  "@ + name + " must not depend on "@ + dep + " (allowed: "@ + join(allowed, ", "@) + ")"@
}

/// The line reporting that `name` depends on the forbidden `dep`.
pub open spec fn forbidden_line(name: Seq<char>, dep: Seq<char>) -> Seq<char> {
    "  "@ + name + " must not depend on "@ + dep
}

/// The line reporting a dependency cycle.
pub open spec fn cycle_line(c: Seq<Seq<char>>) -> Seq<char> {
    "  cycle detected: "@ + join(c, " \u{2192} "@)
}

/// The violations of an allow-list, one per dependency outside it.
pub open spec fn allowed_lines(name: Seq<char>, deps: Seq<Seq<char>>, allowed: Seq<Seq<char>>) -> Seq<Seq<char>>
    decreases deps.len(),
{
    if deps.len() == 0 {
        Seq::empty()
    } else {
        allowed_lines(name, deps.drop_last(), allowed) + (if allowed.contains(deps.last()) {
            Seq::empty()
        } else {
            seq![not_allowed_line(name, deps.last(), allowed)]
        })
    }
}

/// The violations of a deny-list, one per dependency in it.
pub open spec fn forbidden_lines(name: Seq<char>, deps: Seq<Seq<char>>, forbidden: Seq<Seq<char>>) -> Seq<Seq<char>>
    decreases deps.len(),
{
    if deps.len() == 0 {
        Seq::empty()
    } else {
        forbidden_lines(name, deps.drop_last(), forbidden) + (if forbidden.contains(deps.last()) {
            seq![forbidden_line(name, deps.last())]
        } else {
            Seq::empty()
        })
    }
}

/// The violations of the rules for one module.
pub open spec fn module_lines(
    name: Seq<char>,
    allowed: Option<Seq<Seq<char>>>,
    forbidden: Option<Seq<Seq<char>>>,
    deps: Seq<Seq<char>>,
) -> Seq<Seq<char>> {
    (match allowed {
        Some(al) => allowed_lines(name, deps, al),
        None => Seq::empty(),
    }) + (match forbidden {
        Some(fb) => forbidden_lines(name, deps, fb),
        None => Seq::empty(),
    })
}

/// The lines reporting the cycles `cs`.
pub open spec fn cycle_lines(cs: Seq<Seq<Seq<char>>>) -> Seq<Seq<char>> {
    cs.map_values(|c: Seq<Seq<char>>| cycle_line(c))
}

/// A line that declares a public item: once trimmed, it starts with `pub `
/// and is no re-export (`pub use`).
pub open spec fn declares_public(line: Seq<char>) -> bool {
    let t = trim(line);
    starts_with(t, "pub "@) && !starts_with(t, "pub use "@)
}

/// The item on line `i` of `ls` has a doc comment: going up from it past
/// attribute lines (`#...`), the first line is a `///` comment.
pub open spec fn documented_at(ls: Seq<Seq<char>>, i: int) -> bool
    decreases i,
{
    if i <= 0 {
        false
    } else if starts_with(trim(ls[i - 1]), "///"@) {
        true
    } else if starts_with(trim(ls[i - 1]), "#"@) {
        documented_at(ls, i - 1)
    } else {
        false
    }
}

/// The line reporting the undocumented public item on line `i` (counting
/// from 0) of file `path`.
pub open spec fn doc_line(path: Seq<char>, i: nat, line: Seq<char>) -> Seq<char> {
    "  "@ + path + ":"@ + dec(i + 1) + " undocumented public item: "@ + trim(line)
}

/// The violations among the first `n` lines `ls` of file `path`.
pub open spec fn file_doc_lines(path: Seq<char>, ls: Seq<Seq<char>>, n: nat) -> Seq<Seq<char>>
    decreases n,
{
    if n == 0 {
        Seq::empty()
    } else {
        let i = (n - 1) as nat;
        file_doc_lines(path, ls, i) + (if declares_public(ls[i as int]) && !documented_at(ls, i as int) {
            seq![doc_line(path, i, ls[i as int])]
        } else {
            Seq::empty()
        })
    }
}

/// The violations of the documentation rule, file by file: one per line
/// that declares a public item without a doc comment.
pub open spec fn doc_lines(fs: Seq<SourceFile>) -> Seq<Seq<char>>
    decreases fs.len(),
{
    if fs.len() == 0 {
        Seq::empty()
    } else {
        let f = fs.last();
        doc_lines(fs.drop_last()) + file_doc_lines(f.path@, lines(f.content@), lines(f.content@).len())
    }
}

/// The violations of one rule, given the files and the cycles found.
pub open spec fn rule_lines(rule: RuleView, fs: Seq<SourceFile>, cs: Seq<Seq<Seq<char>>>) -> Seq<Seq<char>> {
    match rule {
        RuleView::Module { name, allowed, forbidden } => module_lines(name, allowed, forbidden, module_deps(fs, name)),
        RuleView::NoCycles => cycle_lines(cs),
        RuleView::PublicDocs => doc_lines(fs),
    }
}

/// The violations of all rules, in rule order.
pub open spec fn violations(rules: Seq<RuleView>, fs: Seq<SourceFile>, cs: Seq<Seq<Seq<char>>>) -> Seq<Seq<char>>
    decreases rules.len(),
{
    if rules.len() == 0 {
        Seq::empty()
    } else {
        violations(rules.drop_last(), fs, cs) + rule_lines(rules.last(), fs, cs)
    }
}

/// `cs` is a list of cycles a search may report: each is a cycle through
/// distinct modules, and the list is empty exactly when there is none.
pub open spec fn cycles_found(fs: Seq<SourceFile>, cs: Seq<Seq<Seq<char>>>) -> bool {
    &&& forall|k: int| 0 <= k < cs.len() ==> is_cycle(fs, #[trigger] cs[k])
    &&& forall|k: int| 0 <= k < cs.len() ==> distinct(#[trigger] cs[k])
    &&& cs.len() == 0 <==> acyclic(fs)
}

/// The outcome of a check with violation lines `v`.
pub open spec fn outcome(v: Seq<Seq<char>>) -> Result<(), Seq<char>> {
    if v.len() == 0 { Ok(()) } else { Err(join(v, "\n"@)) }
}

/// Every rule holds of the files: no module depends on what its rules
/// exclude; where cycles are ruled out, there is none; where documentation
/// is asked for, every public item has it.
pub open spec fn passes(rules: Seq<RuleView>, fs: Seq<SourceFile>) -> bool {
    forall|i: int|
        0 <= i < rules.len() ==> match #[trigger] rules[i] {
            RuleView::Module { name, allowed, forbidden } => module_lines(
                name,
                allowed,
                forbidden,
                module_deps(fs, name),
            ).len() == 0,
            RuleView::NoCycles => acyclic(fs),
            RuleView::PublicDocs => doc_lines(fs).len() == 0,
        }
}

/// The result as a value of the model.
pub open spec fn result_view(r: Result<(), String>) -> Result<(), Seq<char>> {
    match r {
        Ok(()) => Ok(()),
        Err(e) => Err(e@),
    }
}

/// With any cycles a search may report, the check finds no violation
/// exactly when every rule holds.
pub proof fn lemma_no_violations_iff_passes(rules: Seq<RuleView>, fs: Seq<SourceFile>, cs: Seq<Seq<Seq<char>>>)
    requires
        cycles_found(fs, cs),
    ensures
        violations(rules, fs, cs).len() == 0 <==> passes(rules, fs),
    decreases rules.len(),
{
    if rules.len() > 0 {
        lemma_no_violations_iff_passes(rules.drop_last(), fs, cs);
        let l = rules.last();
        if passes(rules, fs) {
            assert forall|i: int| 0 <= i < rules.drop_last().len() implies match #[trigger] rules.drop_last()[i] {
                RuleView::Module { name, allowed, forbidden } => module_lines(
                    name,
                    allowed,
                    forbidden,
                    module_deps(fs, name),
                ).len() == 0,
                RuleView::NoCycles => acyclic(fs),
                RuleView::PublicDocs => doc_lines(fs).len() == 0,
            } by {
                assert(rules.drop_last()[i] == rules[i]);
            }
            assert(match rules[rules.len() - 1] {
                RuleView::Module { name, allowed, forbidden } => module_lines(
                    name,
                    allowed,
                    forbidden,
                    module_deps(fs, name),
                ).len() == 0,
                RuleView::NoCycles => acyclic(fs),
                RuleView::PublicDocs => doc_lines(fs).len() == 0,
            });
        }
        if violations(rules, fs, cs).len() == 0 {
            assert forall|i: int| 0 <= i < rules.len() implies match #[trigger] rules[i] {
                RuleView::Module { name, allowed, forbidden } => module_lines(
                    name,
                    allowed,
                    forbidden,
                    module_deps(fs, name),
                ).len() == 0,
                RuleView::NoCycles => acyclic(fs),
                RuleView::PublicDocs => doc_lines(fs).len() == 0,
            } by {
                if i < rules.len() - 1 {
                    assert(rules.drop_last()[i] == rules[i]);
                }
            }
        }
    }
}

// ---------------------------------------------------------------------------
// Rules and the check builder
// ---------------------------------------------------------------------------

/// A rule of a check (see [`RuleView`]).
enum Rule {
    Module { name: String, allowed_deps: Option<Vec<String>>, forbidden_deps: Option<Vec<String>> },
    NoCycles,
    PublicDocs,
}

/// The texts of an optional list of names.
pub open spec fn opt_names(o: Option<Vec<String>>) -> Option<Seq<Seq<char>>> {
    match o {
        Some(v) => Some(string_views(v@)),
        None => None,
    }
}

/// The model of a rule.
spec fn rule_view(r: Rule) -> RuleView {
    match r {
        Rule::Module { name, allowed_deps, forbidden_deps } => RuleView::Module {
            name: name@,
            allowed: opt_names(allowed_deps),
            forbidden: opt_names(forbidden_deps),
        },
        Rule::NoCycles => RuleView::NoCycles,
        Rule::PublicDocs => RuleView::PublicDocs,
    }
}

/// The models of a list of rules.
spec fn rules_view(rs: Seq<Rule>) -> Seq<RuleView> {
    rs.map_values(|r: Rule| rule_view(r))
}

/// An architecture check under construction: its rules and the source
/// directory whose files it reads.
pub struct ArchCheck {
    rules: Vec<Rule>,
    src_dir: String,
}

impl View for ArchCheck {
    type V = ArchView;

    closed spec fn view(&self) -> ArchView {
        ArchView { rules: rules_view(self.rules@), src_dir: self.src_dir@ }
    }
}

/// Starts a check with no rules, reading `src`.
pub fn arch_check() -> (r: ArchCheck)
    ensures
        r@.rules == Seq::<RuleView>::empty(),
        r@.src_dir == "src"@,
{
    let r = ArchCheck { rules: Vec::new(), src_dir: String::from_str("src") };
    proof {
        assert(r@.rules =~= Seq::<RuleView>::empty());
    }
    r
}

/// A list of strings holding the given slices.
fn strings_from(deps: &[&str]) -> (r: Vec<String>)
    ensures
        string_views(r@) == strs_view(deps@),
{
    let mut r: Vec<String> = Vec::new();
    let mut i: usize = 0;
    while i < deps.len()
        invariant
            i <= deps@.len(),
            string_views(r@) == strs_view(deps@).take(i as int),
        decreases deps@.len() - i,
    {
        let ghost before = r@;
        let st = owned(deps[i]);
        r.push(st);
        proof {
            assert(string_views(r@) =~= string_views(before).push(deps@[i as int]@));
            assert(strs_view(deps@).take(i + 1) =~= strs_view(deps@).take(i as int).push(deps@[i as int]@));
        }
        i = i + 1;
    }
    proof {
        assert(strs_view(deps@).take(i as int) =~= strs_view(deps@));
    }
    r
}

/// Whether `names` holds `x`.
fn holds(names: &Vec<String>, x: &String) -> (r: bool)
    ensures
        r == string_views(names@).contains(x@),
{
    let mut i: usize = 0;
    while i < names.len()
        invariant
            i <= names@.len(),
            forall|k: int| 0 <= k < i ==> names@[k]@ != x@,
        decreases names@.len() - i,
    {
        if names[i] == *x {
            proof {
                assert(string_views(names@)[i as int] == x@);
            }
            return true;
        }
        i = i + 1;
    }
    proof {
        if string_views(names@).contains(x@) {
            let k = choose|k: int| 0 <= k < names@.len() && string_views(names@)[k] == x@;
            assert(names@[k]@ == x@);
        }
    }
    false
}

/// `names` extended with the elements of `more` it does not hold yet.
fn add_names(names: &mut Vec<String>, more: Vec<String>)
    ensures
        string_views(final(names)@) == add_all_new(string_views(old(names)@), string_views(more@)),
{
    let ghost start = string_views(names@);
    let ghost mv = string_views(more@);
    let mut i: usize = 0;
    while i < more.len()
        invariant
            i <= more@.len(),
            mv == string_views(more@),
            string_views(names@) == add_all_new(start, mv.take(i as int)),
        decreases more@.len() - i,
    {
        proof {
            assert(mv.take(i + 1).drop_last() =~= mv.take(i as int));
            assert(mv.take(i + 1).last() == more@[i as int]@);
        }
        if !holds(names, &more[i]) {
            let ghost before = names@;
            names.push(more[i].clone());
            proof {
                assert(string_views(names@) =~= string_views(before).push(more@[i as int]@));
            }
        }
        i = i + 1;
    }
    proof {
        assert(mv.take(i as int) =~= mv);
    }
}

impl ArchCheck {
    /// Reads the files of `path` in place of `src`.
    pub fn src_dir(self, path: &str) -> (r: ArchCheck)
        ensures
            r@.rules == self@.rules,
            r@.src_dir == path@,
    {
        ArchCheck { rules: self.rules, src_dir: String::from_str(path) }
    }

    /// The source directory the check reads.
    pub fn source_dir(&self) -> (r: &str)
        ensures
            r@ == self@.src_dir,
    {
        self.src_dir.as_str()
    }

    /// Adds a rule for module `name`, with no constraint yet, and selects it.
    pub fn module(self, name: &str) -> (r: ModuleRuleBuilder)
        ensures
            r@.0.rules == self@.rules.push(RuleView::Module { name: name@, allowed: None, forbidden: None }),
            r@.0.src_dir == self@.src_dir,
            r@.1 == name@,
    {
        let mut check = self;
        let ghost before = check.rules@;
        check.rules.push(Rule::Module { name: String::from_str(name), allowed_deps: None, forbidden_deps: None });
        proof {
            assert(rules_view(check.rules@) =~= rules_view(before).push(
                RuleView::Module { name: name@, allowed: None, forbidden: None },
            ));
            lemma_first_module_exists(rules_view(check.rules@), name@, check.rules@.len() - 1);
        }
        ModuleRuleBuilder { check, module_name: String::from_str(name) }
    }

    /// Selects the rules over all modules.
    pub fn all_modules(self) -> (r: AllModulesRuleBuilder)
        ensures
            r@ == self@,
    {
        AllModulesRuleBuilder { check: self }
    }
}

/// A rule for some module is found at a position no later than any.
proof fn lemma_first_module_exists(rules: Seq<RuleView>, name: Seq<char>, i: int)
    requires
        0 <= i < rules.len(),
        rules[i] matches RuleView::Module { name: n, .. } && n == name,
    ensures
        0 <= first_module(rules, name) <= i,
        rules[first_module(rules, name)] matches RuleView::Module { name: n, .. } && n == name,
    decreases rules.len(),
{
    if i < rules.len() - 1 {
        assert(rules.drop_last()[i] == rules[i]);
        lemma_first_module_exists(rules.drop_last(), name, i);
    } else {
        lemma_first_module_range(rules.drop_last(), name);
    }
}

proof fn lemma_first_module_range(rules: Seq<RuleView>, name: Seq<char>)
    ensures
        -1 <= first_module(rules, name) < rules.len(),
        first_module(rules, name) >= 0 ==> (rules[first_module(rules, name)] matches RuleView::Module { name: n, .. }
            && n == name),
        forall|k: int|
            0 <= k < rules.len() && (first_module(rules, name) < 0 || k < first_module(rules, name)) ==> !(
            #[trigger] rules[k] matches RuleView::Module { name: n, .. } && n == name),
    decreases rules.len(),
{
    if rules.len() > 0 {
        lemma_first_module_range(rules.drop_last(), name);
        assert forall|k: int|
            0 <= k < rules.len() && (first_module(rules, name) < 0 || k < first_module(rules, name)) implies !(
            #[trigger] rules[k] matches RuleView::Module { name: n, .. } && n == name) by {
            if k < rules.len() - 1 {
                assert(rules.drop_last()[k] == rules[k]);
            }
        }
    }
}

/// The rules of one module, selected for constraints.
pub struct ModuleRuleBuilder {
    check: ArchCheck,
    module_name: String,
}

impl View for ModuleRuleBuilder {
    type V = (ArchView, Seq<char>);

    closed spec fn view(&self) -> (ArchView, Seq<char>) {
        (self.check@, self.module_name@)
    }
}

impl ModuleRuleBuilder {
    #[verifier::type_invariant]
    spec fn selected(self) -> bool {
        first_module(self.check@.rules, self.module_name@) >= 0
    }

    /// The position of the first rule for the selected module.
    fn find_mut(&self) -> (r: usize)
        ensures
            r == first_module(self@.0.rules, self@.1),
            r < self@.0.rules.len(),
    {
        proof {
            use_type_invariant(self);
            lemma_first_module_range(self.check@.rules, self.module_name@);
        }
        let ghost rv = self.check@.rules;
        let ghost want = first_module(rv, self.module_name@);
        let mut i: usize = 0;
        while i < self.check.rules.len()
            invariant
                rv == rules_view(self.check.rules@),
                0 <= want < rv.len(),
                want == first_module(rv, self.module_name@),
                i <= want,
                rv[want] matches RuleView::Module { name: n, .. } && n == self.module_name@,
                forall|k: int| 0 <= k < want ==> !(#[trigger] rv[k] matches RuleView::Module { name: n, .. } && n
                    == self.module_name@),
            decreases want - i,
        {
            let found = match &self.check.rules[i] {
                Rule::Module { name, .. } => *name == self.module_name,
                _ => false,
            };
            proof {
                assert(rv[i as int] == rule_view(self.check.rules@[i as int]));
            }
            if found {
                return i;
            }
            i = i + 1;
        }
        i
    }

    /// Allows the selected module to depend on `deps` only.
    pub fn may_depend_on(self, deps: &[&str]) -> (r: ArchCheck)
        ensures
            r@.src_dir == self@.0.src_dir,
            r@.rules == self@.0.rules.update(
                first_module(self@.0.rules, self@.1),
                match self@.0.rules[first_module(self@.0.rules, self@.1)] {
                    RuleView::Module { name, allowed: _, forbidden } => RuleView::Module {
                        name,
                        allowed: Some(add_all_new(Seq::empty(), strs_view(deps@))),
                        forbidden,
                    },
                    other => other,
                },
            ),
    {
        proof {
            use_type_invariant(&self);
        }
        let i = self.find_mut();
        let mut check = self.check;
        let mut set: Vec<String> = Vec::new();
        proof {
            assert(string_views(set@) =~= Seq::<Seq<char>>::empty());
        }
        add_names(&mut set, strings_from(deps));
        let ghost before = check.rules@;
        let old_rule = check.rules.remove(i);
        let new_rule = match old_rule {
            Rule::Module { name, allowed_deps: _, forbidden_deps } => Rule::Module {
                name,
                allowed_deps: Some(set),
                forbidden_deps,
            },
            other => other,
        };
        check.rules.insert(i, new_rule);
        proof {
            assert(check.rules@ =~= before.update(i as int, new_rule));
            assert(rules_view(check.rules@) =~= rules_view(before).update(i as int, rule_view(new_rule)));
        }
        check
    }

    /// Forbids the selected module to depend on `deps`, besides what was
    /// forbidden already.
    pub fn may_not_depend_on(self, deps: &[&str]) -> (r: ArchCheck)
        ensures
            r@.src_dir == self@.0.src_dir,
            r@.rules == self@.0.rules.update(
                first_module(self@.0.rules, self@.1),
                match self@.0.rules[first_module(self@.0.rules, self@.1)] {
                    RuleView::Module { name, allowed, forbidden } => RuleView::Module {
                        name,
                        allowed,
                        forbidden: Some(
                            add_all_new(
                                match forbidden {
                                    Some(f) => f,
                                    None => Seq::empty(),
                                },
                                strs_view(deps@),
                            ),
                        ),
                    },
                    other => other,
                },
            ),
    {
        proof {
            use_type_invariant(&self);
        }
        let i = self.find_mut();
        let mut check = self.check;
        let ghost before = check.rules@;
        let old_rule = check.rules.remove(i);
        let new_rule = match old_rule {
            Rule::Module { name, allowed_deps, forbidden_deps } => {
                let ghost prior = opt_names(forbidden_deps);
                let mut current = match forbidden_deps {
                    Some(f) => f,
                    None => Vec::new(),
                };
                proof {
                    assert(string_views(current@) =~= match prior {
                        Some(f) => f,
                        None => Seq::<Seq<char>>::empty(),
                    });
                }
                add_names(&mut current, strings_from(deps));
                Rule::Module { name, allowed_deps, forbidden_deps: Some(current) }
            },
            other => other,
        };
        check.rules.insert(i, new_rule);
        proof {
            assert(check.rules@ =~= before.update(i as int, new_rule));
            assert(rules_view(check.rules@) =~= rules_view(before).update(i as int, rule_view(new_rule)));
        }
        check
    }
}

/// The check a module selection belongs to.
pub closed spec fn selection_check(b: ModuleRuleBuilder) -> ArchCheck {
    b.check
}

impl From<ModuleRuleBuilder> for ArchCheck {
    /// The check a module selection belongs to.
    fn from(b: ModuleRuleBuilder) -> (r: ArchCheck)
        ensures
            r@ == b@.0,
    {
        b.check
    }
}

impl vstd::std_specs::convert::FromSpecImpl<ModuleRuleBuilder> for ArchCheck {
    open spec fn obeys_from_spec() -> bool {
        true
    }

    open spec fn from_spec(b: ModuleRuleBuilder) -> ArchCheck {
        selection_check(b)
    }
}

/// The rules over all modules, selected for constraints.
pub struct AllModulesRuleBuilder {
    check: ArchCheck,
}

impl View for AllModulesRuleBuilder {
    type V = ArchView;

    closed spec fn view(&self) -> ArchView {
        self.check@
    }
}

impl AllModulesRuleBuilder {
    /// Rules out dependency cycles.
    pub fn must_not_have_cycles(self) -> (r: ArchCheck)
        ensures
            r@.rules == self@.rules.push(RuleView::NoCycles),
            r@.src_dir == self@.src_dir,
    {
        let mut check = self.check;
        let ghost before = check.rules@;
        check.rules.push(Rule::NoCycles);
        proof {
            assert(rules_view(check.rules@) =~= rules_view(before).push(RuleView::NoCycles));
        }
        check
    }

    /// Asks for a doc comment on every public item of every file.
    pub fn public_api_doc_required(self) -> (r: ArchCheck)
        ensures
            r@.rules == self@.rules.push(RuleView::PublicDocs),
            r@.src_dir == self@.src_dir,
    {
        let mut check = self.check;
        let ghost before = check.rules@;
        check.rules.push(Rule::PublicDocs);
        proof {
            assert(rules_view(check.rules@) =~= rules_view(before).push(RuleView::PublicDocs));
        }
        check
    }
}

// ---------------------------------------------------------------------------
// Running a check
// ---------------------------------------------------------------------------

/// The characters of a string.
fn chars_of_string(s: &String) -> (r: Vec<char>)
    ensures
        r@ == s@,
{
    crate::model::text::chars_of(s.as_str())
}

/// `items` joined with `sep` between them.
fn join_strings(items: &Vec<String>, sep: &str) -> (r: Vec<char>)
    ensures
        r@ == join(string_views(items@), sep@),
{
    let ghost iv = string_views(items@);
    let mut out: Vec<char> = Vec::new();
    let mut i: usize = 0;
    while i < items.len()
        invariant
            i <= items@.len(),
            iv == string_views(items@),
            out@ == join(iv.take(i as int), sep@),
        decreases items@.len() - i,
    {
        proof {
            assert(iv.take(i + 1).drop_last() =~= iv.take(i as int));
            assert(iv.take(i + 1).last() == items@[i as int]@);
            if i == 0 {
                assert(iv.take(1)[0] == items@[0]@);
            }
        }
        if i > 0 {
            push_str(&mut out, sep);
        }
        push_chars(&mut out, &chars_of_string(&items[i]));
        proof {
            assert(out@ =~= join(iv.take(i + 1), sep@));
        }
        i = i + 1;
    }
    proof {
        assert(iv.take(i as int) =~= iv);
    }
    out
}

/// Lines joined with newlines between them.
fn join_lines_of(items: &Vec<Vec<char>>) -> (r: Vec<char>)
    ensures
        r@ == join(crate::model::text::views(items@), "\n"@),
{
    let ghost iv = crate::model::text::views(items@);
    let mut out: Vec<char> = Vec::new();
    let mut i: usize = 0;
    while i < items.len()
        invariant
            i <= items@.len(),
            iv == crate::model::text::views(items@),
            out@ == join(iv.take(i as int), "\n"@),
        decreases items@.len() - i,
    {
        proof {
            assert(iv.take(i + 1).drop_last() =~= iv.take(i as int));
            assert(iv.take(i + 1).last() == items@[i as int]@);
            if i == 0 {
                assert(iv.take(1)[0] == items@[0]@);
            }
        }
        if i > 0 {
            push_str(&mut out, "\n");
        }
        push_chars(&mut out, &items[i]);
        proof {
            assert(out@ =~= join(iv.take(i + 1), "\n"@));
        }
        i = i + 1;
    }
    proof {
        assert(iv.take(i as int) =~= iv);
    }
    out
}

/// Appends the violations of an allow-list.
fn push_allowed_lines(lines: &mut Vec<Vec<char>>, name: &String, deps: &Vec<String>, allowed: &Vec<String>)
    ensures
        crate::model::text::views(final(lines)@) == crate::model::text::views(old(lines)@) + allowed_lines(
            name@,
            string_views(deps@),
            string_views(allowed@),
        ),
{
    let ghost start = crate::model::text::views(lines@);
    let ghost dv = string_views(deps@);
    let listed = join_strings(allowed, ", ");
    let mut k: usize = 0;
    while k < deps.len()
        invariant
            k <= deps@.len(),
            dv == string_views(deps@),
            listed@ == join(string_views(allowed@), ", "@),
            crate::model::text::views(lines@) == start + allowed_lines(name@, dv.take(k as int), string_views(allowed@)),
        decreases deps@.len() - k,
    {
        proof {
            assert(dv.take(k + 1).drop_last() =~= dv.take(k as int));
            assert(dv.take(k + 1).last() == deps@[k as int]@);
        }
        let ghost before = crate::model::text::views(lines@);
        if !holds(allowed, &deps[k]) {
            let mut l: Vec<char> = Vec::new();
            push_str(&mut l, "  ");
            push_chars(&mut l, &chars_of_string(name));
            push_str(&mut l, " must not depend on ");
            push_chars(&mut l, &chars_of_string(&deps[k]));
            push_str(&mut l, " (allowed: ");
            push_chars(&mut l, &listed);
            push_str(&mut l, ")");
            proof {
                assert(l@ =~= not_allowed_line(name@, deps@[k as int]@, string_views(allowed@)));
            }
            lines.push(l);
            proof {
                assert(crate::model::text::views(lines@) =~= before.push(l@));
            }
        }
        proof {
            assert(crate::model::text::views(lines@) =~= start + allowed_lines(
                name@,
                dv.take(k + 1),
                string_views(allowed@),
            ));
        }
        k = k + 1;
    }
    proof {
        assert(dv.take(k as int) =~= dv);
    }
}

/// Appends the violations of a deny-list.
fn push_forbidden_lines(lines: &mut Vec<Vec<char>>, name: &String, deps: &Vec<String>, forbidden: &Vec<String>)
    ensures
        crate::model::text::views(final(lines)@) == crate::model::text::views(old(lines)@) + forbidden_lines(
            name@,
            string_views(deps@),
            string_views(forbidden@),
        ),
{
    let ghost start = crate::model::text::views(lines@);
    let ghost dv = string_views(deps@);
    let mut k: usize = 0;
    while k < deps.len()
        invariant
            k <= deps@.len(),
            dv == string_views(deps@),
            crate::model::text::views(lines@) == start + forbidden_lines(name@, dv.take(k as int), string_views(forbidden@)),
        decreases deps@.len() - k,
    {
        proof {
            assert(dv.take(k + 1).drop_last() =~= dv.take(k as int));
            assert(dv.take(k + 1).last() == deps@[k as int]@);
        }
        let ghost before = crate::model::text::views(lines@);
        if holds(forbidden, &deps[k]) {
            let mut l: Vec<char> = Vec::new();
            push_str(&mut l, "  ");
            push_chars(&mut l, &chars_of_string(name));
            push_str(&mut l, " must not depend on ");
            push_chars(&mut l, &chars_of_string(&deps[k]));
            proof {
                assert(l@ =~= forbidden_line(name@, deps@[k as int]@));
            }
            lines.push(l);
            proof {
                assert(crate::model::text::views(lines@) =~= before.push(l@));
            }
        }
        proof {
            assert(crate::model::text::views(lines@) =~= start + forbidden_lines(
                name@,
                dv.take(k + 1),
                string_views(forbidden@),
            ));
        }
        k = k + 1;
    }
    proof {
        assert(dv.take(k as int) =~= dv);
    }
}

/// The names of a list of cycles.
pub open spec fn cycles_view(cycles: Seq<Vec<String>>) -> Seq<Seq<Seq<char>>> {
    cycles.map_values(|c: Vec<String>| string_views(c@))
}

/// Whether `line` declares a public item.
fn declares_public_exec(line: &Vec<char>) -> (r: bool)
    ensures
        r == declares_public(line@),
{
    let t = trim_exec(line);
    starts_with_exec(&t, &chars_of("pub ")) && !starts_with_exec(&t, &chars_of("pub use "))
}

/// Whether the item on line `i` of `ls` has a doc comment.
fn documented_exec(ls: &Vec<Vec<char>>, i: usize) -> (r: bool)
    requires
        i < ls@.len(),
    ensures
        r == documented_at(views(ls@), i as int),
{
    let ghost v = views(ls@);
    let doc = chars_of("///");
    let attr = chars_of("#");
    let mut j: usize = i;
    while j > 0
        invariant
            j <= i < ls@.len(),
            v == views(ls@),
            doc@ == "///"@,
            attr@ == "#"@,
            documented_at(v, i as int) == documented_at(v, j as int),
        decreases j,
    {
        let t = trim_exec(&ls[j - 1]);
        proof {
            assert(v[j - 1] == ls@[j - 1]@);
        }
        if starts_with_exec(&t, &doc) {
            return true;
        }
        if !starts_with_exec(&t, &attr) {
            return false;
        }
        j = j - 1;
    }
    false
}

/// Appends one line per undocumented public item of the files.
fn push_doc_lines(out: &mut Vec<Vec<char>>, files: &Vec<SourceFile>)
    ensures
        views(final(out)@) == views(old(out)@) + doc_lines(files@),
{
    let ghost start = views(out@);
    let mut k: usize = 0;
    proof {
        assert(files@.take(0) =~= Seq::<SourceFile>::empty());
    }
    while k < files.len()
        invariant
            k <= files@.len(),
            views(out@) == start + doc_lines(files@.take(k as int)),
        decreases files@.len() - k,
    {
        let f = &files[k];
        let content = chars_of(f.content.as_str());
        let ls = split_lines(&content);
        let ghost lv = views(ls@);
        let ghost mid = views(out@);
        let mut i: usize = 0;
        while i < ls.len()
            invariant
                i <= ls@.len(),
                lv == views(ls@),
                lv == lines(f.content@),
                views(out@) == mid + file_doc_lines(f.path@, lv, i as nat),
            decreases ls@.len() - i,
        {
            proof {
                assert(lv[i as int] == ls@[i as int]@);
            }
            if declares_public_exec(&ls[i]) && !documented_exec(&ls, i) {
                let mut l: Vec<char> = Vec::new();
                push_str(&mut l, "  ");
                push_str(&mut l, f.path.as_str());
                push_str(&mut l, ":");
                push_dec(&mut l, i as u128 + 1);
                push_str(&mut l, " undocumented public item: ");
                let t = trim_exec(&ls[i]);
                push_chars(&mut l, &t);
                proof {
                    assert(l@ =~= doc_line(f.path@, i as nat, lv[i as int]));
                }
                let ghost b = views(out@);
                out.push(l);
                proof {
                    assert(views(out@) =~= b.push(l@));
                }
            }
            proof {
                assert(views(out@) =~= mid + file_doc_lines(f.path@, lv, (i + 1) as nat));
            }
            i = i + 1;
        }
        proof {
            assert(files@.take(k + 1).drop_last() =~= files@.take(k as int));
            assert(files@.take(k + 1).last() == files@[k as int]);
            assert(views(out@) =~= start + doc_lines(files@.take(k + 1)));
        }
        k = k + 1;
    }
    proof {
        assert(files@.take(k as int) =~= files@);
    }
}

/// Appends one line per cycle.
fn push_cycle_lines(lines: &mut Vec<Vec<char>>, cycles: &Vec<Vec<String>>)
    ensures
        crate::model::text::views(final(lines)@) == crate::model::text::views(old(lines)@) + cycle_lines(
            cycles_view(cycles@),
        ),
{
    let ghost start = crate::model::text::views(lines@);
    let ghost cv = cycles_view(cycles@);
    let mut k: usize = 0;
    while k < cycles.len()
        invariant
            k <= cycles@.len(),
            cv == cycles_view(cycles@),
            crate::model::text::views(lines@) == start + cycle_lines(cv.take(k as int)),
        decreases cycles@.len() - k,
    {
        let ghost before = crate::model::text::views(lines@);
        let mut l: Vec<char> = Vec::new();
        push_str(&mut l, "  cycle detected: ");
        push_chars(&mut l, &join_strings(&cycles[k], " \u{2192} "));
        proof {
            assert(l@ =~= cycle_line(cv[k as int]));
        }
        lines.push(l);
        proof {
            assert(crate::model::text::views(lines@) =~= before.push(l@));
            assert(cycle_lines(cv.take(k + 1)) =~= cycle_lines(cv.take(k as int)).push(cycle_line(cv[k as int])));
            assert(crate::model::text::views(lines@) =~= start + cycle_lines(cv.take(k + 1)));
        }
        k = k + 1;
    }
    proof {
        assert(cv.take(k as int) =~= cv);
    }
}

impl ArchCheck {
    /// Checks every rule against the files of the source directory: `Ok`
    /// when no rule is violated, else the violation lines, one per line.
    pub fn run(self, files: &Vec<SourceFile>) -> (r: Result<(), String>)
        ensures
            exists|cs: Seq<Seq<Seq<char>>>|
                cycles_found(files@, cs) && result_view(r) == outcome(violations(self@.rules, files@, cs)),
            r is Ok <==> passes(self@.rules, files@),
    {
        let ghost fs = files@;
        let ghost rv = self@.rules;
        let graph = DependencyGraph::from_files(files);
        let cycles = graph.find_cycles(Ghost(fs));
        let ghost cs = cycles_view(cycles@);
        proof {
            assert forall|k: int| 0 <= k < cs.len() implies is_cycle(fs, #[trigger] cs[k]) by {
                assert(cs[k] == string_views(cycles@[k]@));
            }
            assert forall|k: int| 0 <= k < cs.len() implies distinct(#[trigger] cs[k]) by {
                assert(cs[k] == string_views(cycles@[k]@));
            }
        }
        let mut lines: Vec<Vec<char>> = Vec::new();
        let mut i: usize = 0;
        while i < self.rules.len()
            invariant
                i <= self.rules@.len(),
                fs == files@,
                rv == rules_view(self.rules@),
                graph_of(graph, fs),
                cs == cycles_view(cycles@),
                crate::model::text::views(lines@) == violations(rv.take(i as int), fs, cs),
            decreases self.rules@.len() - i,
        {
            proof {
                assert(rv.take(i + 1).drop_last() =~= rv.take(i as int));
                assert(rv.take(i + 1).last() == rule_view(self.rules@[i as int]));
            }
            let ghost before = crate::model::text::views(lines@);
            match &self.rules[i] {
                Rule::Module { name, allowed_deps, forbidden_deps } => {
                    let deps = graph.dependencies_of(name.as_str(), Ghost(fs));
                    proof {
                        assert(string_views(deps@) =~= module_deps(fs, name@));
                    }
                    match allowed_deps {
                        Some(al) => push_allowed_lines(&mut lines, name, &deps, al),
                        None => {},
                    }
                    match forbidden_deps {
                        Some(fb) => push_forbidden_lines(&mut lines, name, &deps, fb),
                        None => {},
                    }
                    proof {
                        assert(crate::model::text::views(lines@) =~= before + rule_lines(
                            rule_view(self.rules@[i as int]),
                            fs,
                            cs,
                        ));
                    }
                },
                Rule::NoCycles => {
                    push_cycle_lines(&mut lines, &cycles);
                },
                Rule::PublicDocs => {
                    push_doc_lines(&mut lines, files);
                },
            }
            i = i + 1;
        }
        proof {
            assert(rv.take(i as int) =~= rv);
            lemma_no_violations_iff_passes(rv, fs, cs);
        }
        if lines.len() == 0 {
            Ok(())
        } else {
            Err(string_from_chars(&join_lines_of(&lines)))
        }
    }

    /// Checks every rule; a check whose rules all hold, as `passes` states.
    pub fn assert_all_pass(self, files: &Vec<SourceFile>)
        requires
            passes(self@.rules, files@),
    {
        let r = self.run(files);
        proof {
            assert(r is Ok);
        }
    }
}

} // verus!
