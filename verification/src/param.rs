//! Parametrized tests: one test case per input, named after the test and
//! the input's position or label.
//!
//! The caller runs the test body on each input (catching its panic) and
//! hands over what came of it; these functions turn the outcomes into
//! [`TestCase`]s.

use vstd::prelude::*;
use crate::model::spec::opt_view;
use crate::model::text::{dec, owned, push_dec, push_str, string_from_chars};
use crate::model::{Duration, TestCase, TestStatus};

verus! {

/// What running the test body on one input came to: the input as `{:?}`
/// shows it, the panic message if the body panicked, and how long it ran.
pub struct CaseOutcome {
    pub input: String,
    pub panic: Option<String>,
    pub duration: Duration,
}

/// The reason a panic gives: its message, or `test panicked` when the
/// payload carries no text.
pub fn panic_reason(message: Option<String>) -> (r: String)
    ensures
        r@ == match opt_view(message) {
            Some(m) => m,
            None => "test panicked"@,
        },
{
    match message {
        Some(m) => m,
        None => owned("test panicked"),
    }
}

/// Whether case `c`, named `name` and in suite `suite`, records outcome `o`.
pub open spec fn records_outcome(c: TestCase, name: Seq<char>, suite: Seq<char>, o: CaseOutcome) -> bool {
    &&& c.name@ == name
    &&& c.suite matches Some(s) && s@ == suite
    &&& c.tags@.len() == 0
    &&& match o.panic {
        None => c.status is Passed,
        Some(m) => c.status matches TestStatus::Failed { reason, location } && reason@ == m@ && location is None,
    }
    &&& c.duration@ == o.duration@
    &&& c.assertions == 0
    &&& c.location is None
    &&& c.parameters@.len() == 1
    &&& c.parameters@[0].0@ == "input"@
    &&& c.parameters@[0].1@ == o.input@
}

/// The case recording outcome `o` under the given names.
fn case_of(name: String, suite: &str, o: CaseOutcome) -> (c: TestCase)
    ensures
        records_outcome(c, name@, suite@, o),
{
    let ghost og = o;
    let status = match o.panic {
        None => TestStatus::Passed,
        Some(m) => TestStatus::Failed { reason: m, location: None },
    };
    let mut parameters: Vec<(String, String)> = Vec::new();
    parameters.push((owned("input"), o.input));
    TestCase {
        name,
        suite: Some(owned(suite)),
        tags: Vec::new(),
        status,
        duration: o.duration,
        assertions: 0,
        location: None,
        parameters,
    }
}

/// The name of input `index` of test `name`: `name[index]`.
pub open spec fn indexed_name(name: Seq<char>, index: nat) -> Seq<char> {
    name + "["@ + dec(index) + "]"@
}

/// The name of the input labelled `label` in suite `suite`: `suite :: label`.
pub open spec fn labelled_name(suite: Seq<char>, label: Seq<char>) -> Seq<char> {
    suite + " :: "@ + label
}

/// One case per outcome, in order, the `i`-th named `name[i]` in suite
/// `name`.
pub fn parametrized_cases(name: &str, outcomes: Vec<CaseOutcome>) -> (r: Vec<TestCase>)
    ensures
        r@.len() == outcomes@.len(),
        forall|i: int|
            0 <= i < r@.len() ==> records_outcome(#[trigger] r@[i], indexed_name(name@, i as nat), name@, outcomes@[i]),
{
    let total = outcomes.len();
    let ghost all = outcomes@;
    let mut rest = outcomes;
    let mut r: Vec<TestCase> = Vec::new();
    let mut i: usize = 0;
    while rest.len() > 0
        invariant
            all.len() == total,
            i + rest@.len() == all.len(),
            rest@ == all.skip(i as int),
            r@.len() == i,
            forall|k: int| 0 <= k < i ==> records_outcome(#[trigger] r@[k], indexed_name(name@, k as nat), name@, all[k]),
        decreases rest@.len(),
    {
        let ghost before = rest@;
        let o = rest.remove(0);
        proof {
            assert(o == all[i as int]);
            assert(rest@ =~= all.skip(i + 1));
        }
        let mut n: Vec<char> = Vec::new();
        push_str(&mut n, name);
        push_str(&mut n, "[");
        push_dec(&mut n, i as u128);
        push_str(&mut n, "]");
        proof {
            assert(n@ =~= indexed_name(name@, i as nat));
        }
        let c = case_of(string_from_chars(&n), name, o);
        let ghost rb = r@;
        r.push(c);
        proof {
            assert forall|k: int| 0 <= k < i + 1 implies records_outcome(#[trigger] r@[k], indexed_name(name@, k as nat), name@, all[k]) by {
                if k < i {
                    assert(r@[k] == rb[k]);
                }
            }
        }
        i = i + 1;
    }
    r
}

/// One case per labelled outcome, in order, named `suite :: label` in suite
/// `suite`.
pub fn labelled_cases(suite: &str, outcomes: Vec<(String, CaseOutcome)>) -> (r: Vec<TestCase>)
    ensures
        r@.len() == outcomes@.len(),
        forall|i: int|
            0 <= i < r@.len() ==> records_outcome(
                #[trigger] r@[i],
                labelled_name(suite@, outcomes@[i].0@),
                suite@,
                outcomes@[i].1,
            ),
{
    let ghost all = outcomes@;
    let mut rest = outcomes;
    let mut r: Vec<TestCase> = Vec::new();
    let ghost mut i: int = 0;
    while rest.len() > 0
        invariant
            0 <= i <= all.len(),
            i + rest@.len() == all.len(),
            rest@ == all.skip(i),
            r@.len() == i,
            forall|k: int|
                0 <= k < i ==> records_outcome(#[trigger] r@[k], labelled_name(suite@, all[k].0@), suite@, all[k].1),
        decreases rest@.len(),
    {
        let (label, o) = rest.remove(0);
        proof {
            assert(label == all[i].0 && o == all[i].1);
            assert(rest@ =~= all.skip(i + 1));
        }
        let mut n: Vec<char> = Vec::new();
        push_str(&mut n, suite);
        push_str(&mut n, " :: ");
        push_str(&mut n, label.as_str());
        proof {
            assert(n@ =~= labelled_name(suite@, label@));
        }
        let c = case_of(string_from_chars(&n), suite, o);
        let ghost rb = r@;
        r.push(c);
        proof {
            assert forall|k: int| 0 <= k < i + 1 implies records_outcome(
                #[trigger] r@[k],
                labelled_name(suite@, all[k].0@),
                suite@,
                all[k].1,
            ) by {
                if k < i {
                    assert(r@[k] == rb[k]);
                }
            }
            i = i + 1;
        }
    }
    r
}

} // verus!
