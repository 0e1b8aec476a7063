use rand::rngs::StdRng;
use rand::SeedableRng;
use rvtest::property::{any, check, check_with, filter, PropertyConfig, Strategy};

#[test]
fn rvtest_property() {
    assert!(check("identity with zero", any::<i32>(), |a: &i32| a + 0 == *a).is_none());
    let falsified = check("intentionally false", any::<i32>(), |_: &i32| false);
    assert!(falsified.is_some(), "check should report a falsified property");
    assert_eq!(falsified.unwrap().num_tests, 100);
}

#[test]
fn check_with_replays_its_seed() {
    let config = PropertyConfig { num_tests: 500, max_shrinks: 10, seed: Some(42) };
    let first = check_with("small", any::<u8>(), |v: &u8| *v < 200, config.clone()).expect("falsified");
    let again = check_with("small", any::<u8>(), |v: &u8| *v < 200, config).expect("falsified");
    assert_eq!(first.seed, 42);
    assert!(first.value >= 200);
    assert_eq!(first.value, again.value);
    assert!(first.shrunk.is_none());
}

#[test]
fn zero_tests_never_fail() {
    let config = PropertyConfig { num_tests: 0, max_shrinks: 10, seed: Some(1) };
    assert!(check_with("none", any::<u8>(), |_: &u8| false, config).is_none());
}

#[test]
fn property_config_defaults() {
    let c = PropertyConfig::default();
    assert_eq!(c.num_tests, 100);
    assert_eq!(c.max_shrinks, 1000);
    assert_eq!(c.seed, None);
}

#[test]
fn vec_strategy_respects_lengths() {
    let s = rvtest::property::vec(any::<u8>(), 2, 5);
    let mut rng = StdRng::seed_from_u64(7);
    for _ in 0..50 {
        let v = s.generate(&mut rng);
        assert!(2 <= v.len() && v.len() <= 5, "{v:?}");
    }
}

#[test]
fn vec_and_bool_shrinking() {
    let s = rvtest::property::vec(any::<u8>(), 0, 3);
    assert_eq!(s.shrink(&vec![1u8, 2, 3]), vec![vec![1u8, 2]]);
    assert!(s.shrink(&Vec::new()).is_empty());
    assert_eq!(any::<bool>().shrink(&true), vec![false]);
    assert!(any::<bool>().shrink(&false).is_empty());
}

#[test]
fn shrinking_finds_the_shortest_failing_vector() {
    let config = PropertyConfig { num_tests: 100, max_shrinks: 1000, seed: Some(3) };
    let c = check_with("short", rvtest::property::vec(any::<u8>(), 0, 10), |v: &Vec<u8>| v.len() < 3, config).expect("falsified");
    let best = c.shrunk.unwrap_or(c.value.clone());
    assert_eq!(best.len(), 3);
}

#[test]
fn map_and_filter_strategies() {
    let mut rng = StdRng::seed_from_u64(11);
    let doubled = rvtest::property::map(any::<u8>(), |x: u8| x as u32 * 2);
    let evens = filter(any::<u8>(), |x: &u8| x % 2 == 0);
    for _ in 0..50 {
        assert_eq!(doubled.generate(&mut rng) % 2, 0);
        assert_eq!(evens.generate(&mut rng) % 2, 0);
    }
}

#[test]
fn filter_shrinking_keeps_the_accepted_candidates() {
    let evens = filter(rvtest::property::vec(any::<u8>(), 0, 5), |v: &Vec<u8>| v.len() % 2 == 0);
    assert_eq!(evens.shrink(&vec![1u8, 2, 3]), vec![vec![1u8, 2]]);
    assert!(evens.shrink(&vec![1u8, 2]).is_empty());
    assert!(evens.shrink(&Vec::new()).is_empty());
}

#[test]
fn no_shrink_steps_leave_the_counterexample_unshrunk() {
    let config = PropertyConfig { num_tests: 100, max_shrinks: 0, seed: Some(3) };
    let c = check_with("short", rvtest::property::vec(any::<u8>(), 0, 10), |v: &Vec<u8>| v.len() < 3, config).expect("falsified");
    assert!(c.value.len() >= 3);
    assert!(c.shrunk.is_none());
}

#[test]
fn a_failing_candidate_is_always_taken() {
    let config = PropertyConfig { num_tests: 100, max_shrinks: 1, seed: Some(5) };
    let c = check_with("short", rvtest::property::vec(any::<u8>(), 4, 10), |v: &Vec<u8>| v.len() < 2, config).expect("falsified");
    assert_eq!(c.shrunk.expect("one step").len(), c.value.len() - 1);
}
