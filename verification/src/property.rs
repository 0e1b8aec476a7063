//! Property-based testing: strategies that generate random values (and
//! simpler candidates for a failing one), and the check that runs a
//! property on generated values and shrinks a counterexample.
//!
//! Randomness comes from `rand`'s seeded `StdRng`, so a run is replayed by
//! giving its seed.

use vstd::prelude::*;
use core::marker::PhantomData;
use rand::rngs::StdRng;

verus! {

// ---------------------------------------------------------------------------
// Randomness
// ---------------------------------------------------------------------------

/// `rand`'s standard generator; what it holds is opaque here.
#[verifier::external_type_specification]
#[verifier::external_body]
pub struct ExStdRng(StdRng);

/// `SeedableRng::seed_from_u64` for `StdRng`: the generator a seed selects.
#[verifier::external_body]
fn seeded_rng(seed: u64) -> StdRng {
    <StdRng as rand::SeedableRng>::seed_from_u64(seed)
}

/// `rand::random::<u64>()`: a seed from the thread's generator; nothing is
/// known of its value.
#[verifier::external_body]
fn random_seed() -> u64 {
    rand::random::<u64>()
}

/// `Rng::gen_range` on `lo..=hi` for `usize`: a value between the bounds.
#[verifier::external_body]
fn gen_usize_in(rng: &mut StdRng, lo: usize, hi: usize) -> (r: usize)
    requires
        lo <= hi,
    ensures
        lo <= r <= hi,
{
    rand::Rng::gen_range(rng, lo..=hi)
}

/// `Rng::gen_range` over all of `i8`.
#[verifier::external_body]
fn gen_i8(rng: &mut StdRng) -> i8 {
    rand::Rng::gen_range(rng, i8::MIN..=i8::MAX)
}

/// `Rng::gen_range` over all of `i16`.
#[verifier::external_body]
fn gen_i16(rng: &mut StdRng) -> i16 {
    rand::Rng::gen_range(rng, i16::MIN..=i16::MAX)
}

/// `Rng::gen_range` over all of `i32`.
#[verifier::external_body]
fn gen_i32(rng: &mut StdRng) -> i32 {
    rand::Rng::gen_range(rng, i32::MIN..=i32::MAX)
}

/// `Rng::gen_range` over all of `i64`.
#[verifier::external_body]
fn gen_i64(rng: &mut StdRng) -> i64 {
    rand::Rng::gen_range(rng, i64::MIN..=i64::MAX)
}

/// `Rng::gen_range` over all of `u8`.
#[verifier::external_body]
fn gen_u8(rng: &mut StdRng) -> u8 {
    rand::Rng::gen_range(rng, u8::MIN..=u8::MAX)
}

/// `Rng::gen_range` over all of `u16`.
#[verifier::external_body]
fn gen_u16(rng: &mut StdRng) -> u16 {
    rand::Rng::gen_range(rng, u16::MIN..=u16::MAX)
}

/// `Rng::gen_range` over all of `u32`.
#[verifier::external_body]
fn gen_u32(rng: &mut StdRng) -> u32 {
    rand::Rng::gen_range(rng, u32::MIN..=u32::MAX)
}

/// `Rng::gen_range` over all of `u64`.
#[verifier::external_body]
fn gen_u64(rng: &mut StdRng) -> u64 {
    rand::Rng::gen_range(rng, u64::MIN..=u64::MAX)
}

/// `Rng::gen_ratio(1, 2)`: a fair coin.
#[verifier::external_body]
fn gen_coin(rng: &mut StdRng) -> bool {
    rand::Rng::gen_ratio(rng, 1, 2)
}

// ---------------------------------------------------------------------------
// Strategies
// ---------------------------------------------------------------------------

/// A way of generating random values of type `T`, and of proposing simpler
/// candidates for a value (used to shrink a counterexample). By default a
/// strategy proposes none.
pub trait Strategy<T> {
    /// A random value.
    fn generate(&self, rng: &mut StdRng) -> T;

    /// Simpler candidates for `value`.
    fn shrink(&self, value: &T) -> (r: Vec<T>)
        default_ensures
            r@ == Seq::<T>::empty(),
    {
        Vec::new()
    }
}

/// The strategy producing any value of an integer type, or either `bool`.
#[derive(Debug)]
pub struct RangeStrategy<T> {
    _marker: PhantomData<T>,
}

impl<T> Clone for RangeStrategy<T> {
    fn clone(&self) -> Self {
        RangeStrategy { _marker: PhantomData }
    }
}

impl Strategy<i8> for RangeStrategy<i8> {
    fn generate(&self, rng: &mut StdRng) -> i8 {
        gen_i8(rng)
    }
}

impl Strategy<i16> for RangeStrategy<i16> {
    fn generate(&self, rng: &mut StdRng) -> i16 {
        gen_i16(rng)
    }
}

impl Strategy<i32> for RangeStrategy<i32> {
    fn generate(&self, rng: &mut StdRng) -> i32 {
        gen_i32(rng)
    }
}

impl Strategy<i64> for RangeStrategy<i64> {
    fn generate(&self, rng: &mut StdRng) -> i64 {
        gen_i64(rng)
    }
}

impl Strategy<u8> for RangeStrategy<u8> {
    fn generate(&self, rng: &mut StdRng) -> u8 {
        gen_u8(rng)
    }
}

impl Strategy<u16> for RangeStrategy<u16> {
    fn generate(&self, rng: &mut StdRng) -> u16 {
        gen_u16(rng)
    }
}

impl Strategy<u32> for RangeStrategy<u32> {
    fn generate(&self, rng: &mut StdRng) -> u32 {
        gen_u32(rng)
    }
}

impl Strategy<u64> for RangeStrategy<u64> {
    fn generate(&self, rng: &mut StdRng) -> u64 {
        gen_u64(rng)
    }
}

impl Strategy<usize> for RangeStrategy<usize> {
    fn generate(&self, rng: &mut StdRng) -> usize {
        gen_usize_in(rng, usize::MIN, usize::MAX)
    }
}

impl Strategy<bool> for RangeStrategy<bool> {
    fn generate(&self, rng: &mut StdRng) -> bool {
        gen_coin(rng)
    }

    /// `true` shrinks to `false`; `false` is simplest.
    fn shrink(&self, value: &bool) -> (r: Vec<bool>)
        ensures
            r@ == (if *value { seq![false] } else { Seq::<bool>::empty() }),
    {
        let mut r: Vec<bool> = Vec::new();
        if *value {
            r.push(false);
        }
        proof {
            assert(r@ =~= (if *value { seq![false] } else { Seq::<bool>::empty() }));
        }
        r
    }
}

/// Types with a default strategy, which [`any`] returns.
pub trait StrategyProvider: Sized {
    /// The strategy type used to generate values of `Self`.
    type Strategy: Strategy<Self>;

    /// The default strategy for this type.
    fn strategy() -> Self::Strategy;
}

impl StrategyProvider for i8 {
    type Strategy = RangeStrategy<i8>;

    fn strategy() -> RangeStrategy<i8> {
        RangeStrategy { _marker: PhantomData }
    }
}

impl StrategyProvider for i16 {
    type Strategy = RangeStrategy<i16>;

    fn strategy() -> RangeStrategy<i16> {
        RangeStrategy { _marker: PhantomData }
    }
}

impl StrategyProvider for i32 {
    type Strategy = RangeStrategy<i32>;

    fn strategy() -> RangeStrategy<i32> {
        RangeStrategy { _marker: PhantomData }
    }
}

impl StrategyProvider for i64 {
    type Strategy = RangeStrategy<i64>;

    fn strategy() -> RangeStrategy<i64> {
        RangeStrategy { _marker: PhantomData }
    }
}

impl StrategyProvider for u8 {
    type Strategy = RangeStrategy<u8>;

    fn strategy() -> RangeStrategy<u8> {
        RangeStrategy { _marker: PhantomData }
    }
}

impl StrategyProvider for u16 {
    type Strategy = RangeStrategy<u16>;

    fn strategy() -> RangeStrategy<u16> {
        RangeStrategy { _marker: PhantomData }
    }
}

impl StrategyProvider for u32 {
    type Strategy = RangeStrategy<u32>;

    fn strategy() -> RangeStrategy<u32> {
        RangeStrategy { _marker: PhantomData }
    }
}

impl StrategyProvider for u64 {
    type Strategy = RangeStrategy<u64>;

    fn strategy() -> RangeStrategy<u64> {
        RangeStrategy { _marker: PhantomData }
    }
}

impl StrategyProvider for usize {
    type Strategy = RangeStrategy<usize>;

    fn strategy() -> RangeStrategy<usize> {
        RangeStrategy { _marker: PhantomData }
    }
}

impl StrategyProvider for bool {
    type Strategy = RangeStrategy<bool>;

    fn strategy() -> RangeStrategy<bool> {
        RangeStrategy { _marker: PhantomData }
    }
}

/// The default strategy for any value of type `T`.
pub fn any<T: StrategyProvider>() -> (r: T::Strategy)
    ensures
        call_ensures(T::strategy, (), r),
{
    T::strategy()
}

/// `v` is a value that `strategy`'s `generate` can return.
pub open spec fn can_generate<T, S: Strategy<T>>(strategy: S, v: T) -> bool {
    exists|g: &mut StdRng| call_ensures(S::generate, (&strategy, g), v)
}

// ---------------------------------------------------------------------------
// Vectors
// ---------------------------------------------------------------------------

/// The strategy for vectors whose length lies in `min_len..=max_len` and
/// whose elements come from an element strategy.
#[derive(Debug)]
pub struct VecStrategy<S> {
    element_strategy: S,
    min_len: usize,
    max_len: usize,
}

impl<S: Clone> Clone for VecStrategy<S> {
    fn clone(&self) -> (r: Self)
        ensures
            r.min() == self.min(),
            r.max() == self.max(),
    {
        proof {
            use_type_invariant(self);
        }
        VecStrategy { element_strategy: self.element_strategy.clone(), min_len: self.min_len, max_len: self.max_len }
    }
}

impl<S> VecStrategy<S> {
    #[verifier::type_invariant]
    spec fn lengths_ordered(self) -> bool {
        self.min_len <= self.max_len
    }

    /// The shortest length generated.
    pub closed spec fn min(self) -> usize {
        self.min_len
    }

    /// The longest length generated.
    pub closed spec fn max(self) -> usize {
        self.max_len
    }
}

impl<T: Clone, S: Strategy<T>> Strategy<Vec<T>> for VecStrategy<S> {
    /// A vector with a length in the bounds, of elements of the element
    /// strategy.
    fn generate(&self, rng: &mut StdRng) -> (r: Vec<T>)
        ensures
            self.min() <= r@.len() <= self.max(),
    {
        proof {
            use_type_invariant(self);
        }
        let len = gen_usize_in(rng, self.min_len, self.max_len);
        let mut out: Vec<T> = Vec::new();
        let mut i: usize = 0;
        while i < len
            invariant
                i <= len,
                out@.len() == i,
            decreases len - i,
        {
            out.push(self.element_strategy.generate(rng));
            i = i + 1;
        }
        out
    }

    /// A non-empty vector shrinks to itself without its last element; the
    /// empty vector is simplest.
    fn shrink(&self, value: &Vec<T>) -> (r: Vec<Vec<T>>)
        ensures
            value@.len() == 0 ==> r@.len() == 0,
            value@.len() > 0 ==> {
                &&& r@.len() == 1
                &&& r@[0]@.len() == value@.len() - 1
                &&& forall|i: int| 0 <= i < r@[0]@.len() ==> cloned::<T>(value@[i], #[trigger] r@[0]@[i])
            },
    {
        let mut candidates: Vec<Vec<T>> = Vec::new();
        if value.len() > 0 {
            let mut smaller = value.clone();
            let ghost full = smaller@;
            smaller.pop();
            proof {
                assert forall|i: int| 0 <= i < smaller@.len() implies cloned::<T>(value@[i], #[trigger] smaller@[i]) by {
                    assert(smaller@[i] == full[i]);
                }
            }
            candidates.push(smaller);
        }
        candidates
    }
}

/// The strategy for vectors of `min_len` to `max_len` elements (inclusive)
/// from `strategy`.
pub fn vec<T, S: Strategy<T>>(strategy: S, min_len: usize, max_len: usize) -> (r: VecStrategy<S>)
    requires
        min_len <= max_len,
    ensures
        r.min() == min_len,
        r.max() == max_len,
{
    VecStrategy { element_strategy: strategy, min_len, max_len }
}

// ---------------------------------------------------------------------------
// Mapping and filtering
// ---------------------------------------------------------------------------

/// The strategy that applies a function to the values of another.
#[verifier::reject_recursive_types(T)]
#[verifier::reject_recursive_types(U)]
pub struct MapStrategy<S, F: Fn(T) -> U, T, U> {
    inner: S,
    f: F,
    _phantom: PhantomData<(T, U)>,
}

impl<S, F: Fn(T) -> U, T, U> MapStrategy<S, F, T, U> {
    #[verifier::type_invariant]
    spec fn applicable(self) -> bool {
        forall|x: T| #[trigger] self.f.requires((x,))
    }

    /// The function applied.
    pub closed spec fn mapping(self) -> F {
        self.f
    }
}

impl<T, U, S: Strategy<T>, F: Fn(T) -> U> Strategy<U> for MapStrategy<S, F, T, U> {
    /// The function applied to a value of the inner strategy.
    fn generate(&self, rng: &mut StdRng) -> (r: U)
        ensures
            exists|x: T| #[trigger] self.mapping().ensures((x,), r),
    {
        proof {
            use_type_invariant(self);
        }
        let x = self.inner.generate(rng);
        let ghost xg = x;
        let r = (self.f)(x);
        proof {
            assert(self.mapping().ensures((xg,), r));
        }
        r
    }
}

/// The strategy applying `f` to the values of `strategy`; `f` must accept
/// every value.
pub fn map<T, U, S: Strategy<T>, F: Fn(T) -> U>(strategy: S, f: F) -> (r: MapStrategy<S, F, T, U>)
    requires
        forall|x: T| #[trigger] f.requires((x,)),
    ensures
        r.mapping() == f,
{
    MapStrategy { inner: strategy, f, _phantom: PhantomData }
}

/// The items of `s` whose flag in `keep` is set, in their order.
pub open spec fn kept<T>(s: Seq<T>, keep: Seq<bool>) -> Seq<T>
    decreases s.len(),
{
    if s.len() == 0 || keep.len() == 0 {
        Seq::empty()
    } else {
        let rest = kept(s.drop_last(), keep.drop_last());
        if keep.last() {
            rest.push(s.last())
        } else {
            rest
        }
    }
}

/// The strategy keeping the values of another that satisfy a predicate.
#[verifier::reject_recursive_types(T)]
pub struct FilterStrategy<S, P: Fn(&T) -> bool, T> {
    inner: S,
    predicate: P,
    max_attempts: u32,
    _phantom: PhantomData<T>,
}

impl<S, P: Fn(&T) -> bool, T> FilterStrategy<S, P, T> {
    #[verifier::type_invariant]
    spec fn applicable(self) -> bool {
        forall|x: &T| #[trigger] self.predicate.requires((x,))
    }

    /// The predicate values must satisfy.
    pub closed spec fn condition(self) -> P {
        self.predicate
    }

    /// How many values are tried before the last one is taken as it is.
    pub closed spec fn attempts(self) -> u32 {
        self.max_attempts
    }

    /// The strategy whose values are filtered.
    pub closed spec fn source(self) -> S {
        self.inner
    }
}

impl<T, S: Strategy<T>, P: Fn(&T) -> bool> Strategy<T> for FilterStrategy<S, P, T> {
    /// The first of up to `attempts()` values of the inner strategy that
    /// satisfies the predicate, or else one more value of it, unchecked:
    /// the result satisfies the predicate unless `attempts()` values were
    /// drawn and rejected first.
    fn generate(&self, rng: &mut StdRng) -> (r: T)
        ensures
            can_generate(self.source(), r),
            self.condition().ensures((&r,), true) || exists|rejected: Seq<T>|
                #[trigger] rejected.len() == self.attempts() && forall|j: int|
                    0 <= j < rejected.len() ==> can_generate(self.source(), rejected[j])
                        && self.condition().ensures((&rejected[j],), false),
    {
        proof {
            use_type_invariant(self);
        }
        let ghost mut rejected: Seq<T> = Seq::empty();
        let mut i: u32 = 0;
        while i < self.max_attempts
            invariant
                forall|x: &T| #[trigger] self.predicate.requires((x,)),
                i <= self.max_attempts,
                rejected.len() == i,
                forall|j: int|
                    0 <= j < rejected.len() ==> can_generate(self.inner, rejected[j]) && self.predicate.ensures(
                        (&rejected[j],),
                        false,
                    ),
            decreases self.max_attempts - i,
        {
            let value = self.inner.generate(rng);
            proof {
                assert(exists|g: &mut StdRng| call_ensures(S::generate, (&self.inner, g), value));
            }
            if (self.predicate)(&value) {
                return value;
            }
            proof {
                let before = rejected;
                rejected = rejected.push(value);
                assert forall|j: int| 0 <= j < rejected.len() implies can_generate(self.inner, rejected[j])
                    && self.predicate.ensures((&rejected[j],), false) by {
                    if j < before.len() {
                        assert(rejected[j] == before[j]);
                    }
                }
            }
            i = i + 1;
        }
        let last = self.inner.generate(rng);
        proof {
            assert(exists|g: &mut StdRng| call_ensures(S::generate, (&self.inner, g), last));
        }
        last
    }

    /// The candidates of the inner strategy that satisfy the predicate, in
    /// order: the candidates `cands` that the inner strategy proposed, kept
    /// where the predicate answered `true`.
    fn shrink(&self, value: &T) -> (r: Vec<T>)
        ensures
            exists|cands: Vec<T>, keep: Seq<bool>| {
                &&& call_ensures(S::shrink, (&self.source(), value), cands)
                &&& keep.len() == cands@.len()
                &&& forall|j: int| 0 <= j < keep.len() ==> self.condition().ensures((&cands@[j],), keep[j])
                &&& r@ == #[trigger] kept(cands@, keep)
            },
            forall|i: int| 0 <= i < r@.len() ==> self.condition().ensures((&#[trigger] r@[i],), true),
    {
        proof {
            use_type_invariant(self);
        }
        let mut rest = self.inner.shrink(value);
        let ghost cands = rest;
        let ghost mut keep: Seq<bool> = Seq::empty();
        let mut out: Vec<T> = Vec::new();
        while rest.len() > 0
            invariant
                forall|x: &T| #[trigger] self.predicate.requires((x,)),
                call_ensures(S::shrink, (&self.inner, value), cands),
                keep.len() + rest@.len() == cands@.len(),
                rest@ == cands@.skip(keep.len() as int),
                forall|j: int| 0 <= j < keep.len() ==> self.predicate.ensures((&cands@[j],), keep[j]),
                out@ == kept(cands@.take(keep.len() as int), keep),
                forall|i: int| 0 <= i < out@.len() ==> self.condition().ensures((&#[trigger] out@[i],), true),
            decreases rest@.len(),
        {
            let ghost k = keep.len() as int;
            let ghost rest_before = rest@;
            let c = rest.remove(0);
            let b = (self.predicate)(&c);
            proof {
                assert(c == cands@[k]);
                assert(rest@ =~= cands@.skip(k + 1)) by {
                    assert(rest_before =~= cands@.skip(k));
                }
                let keep_before = keep;
                keep = keep.push(b);
                assert(cands@.take(k + 1).drop_last() =~= cands@.take(k));
                assert(keep.drop_last() =~= keep_before);
                assert forall|j: int| 0 <= j < keep.len() implies self.predicate.ensures((&cands@[j],), keep[j]) by {
                    if j < k {
                        assert(keep[j] == keep_before[j]);
                    }
                }
            }
            if b {
                let ghost before = out@;
                out.push(c);
                proof {
                    assert forall|i: int| 0 <= i < out@.len() implies self.condition().ensures((&#[trigger] out@[i],), true) by {
                        if i < before.len() {
                            assert(out@[i] == before[i]);
                        }
                    }
                }
            }
        }
        proof {
            assert(cands@.take(keep.len() as int) =~= cands@);
        }
        out
    }
}

/// The strategy keeping the values of `strategy` that satisfy `predicate`
/// (trying up to a hundred values each time); `predicate` must accept every
/// value.
pub fn filter<T, S: Strategy<T>, P: Fn(&T) -> bool>(strategy: S, predicate: P) -> (r: FilterStrategy<S, P, T>)
    requires
        forall|x: &T| #[trigger] predicate.requires((x,)),
    ensures
        r.condition() == predicate,
        r.attempts() == 100,
{
    FilterStrategy { inner: strategy, predicate, max_attempts: 100, _phantom: PhantomData }
}

// ---------------------------------------------------------------------------
// Checking a property
// ---------------------------------------------------------------------------

/// How a property is checked.
#[derive(Debug, Clone)]
pub struct PropertyConfig {
    /// How many random values are tried.
    pub num_tests: u64,
    /// How many shrink steps are taken at most.
    pub max_shrinks: u64,
    /// The seed to replay; a fresh one when absent.
    pub seed: Option<u64>,
}

impl Default for PropertyConfig {
    fn default() -> (r: PropertyConfig)
        ensures
            r.num_tests == 100,
            r.max_shrinks == 1000,
            r.seed is None,
    {
        PropertyConfig { num_tests: 100, max_shrinks: 1000, seed: None }
    }
}

/// A value on which a property failed: how many values the check was to
/// try, the seed that replays it, the value, and the simplest failing
/// candidate shrinking found (none when shrinking found no failing one).
pub struct Counterexample<T> {
    pub num_tests: u64,
    pub seed: u64,
    pub value: T,
    pub shrunk: Option<T>,
}

/// `to` is among the candidates `strategy` proposes for `from`.
pub open spec fn shrinks_to<T, S: Strategy<T>>(strategy: S, from: T, to: T) -> bool {
    exists|cands: Vec<T>| call_ensures(S::shrink, (&strategy, &from), cands) && #[trigger] cands@.contains(to)
}

/// `chain` is a path of shrinking steps: each element after the first is a
/// candidate proposed for the one before it, on which the property fails.
pub open spec fn shrink_path<T, S: Strategy<T>, P: Fn(&T) -> bool>(strategy: S, property: P, chain: Seq<T>) -> bool {
    &&& chain.len() >= 1
    &&& forall|k: int| 0 <= k < chain.len() - 1 ==> #[trigger] shrinks_to(strategy, chain[k], chain[k + 1])
    &&& forall|k: int| 1 <= k < chain.len() ==> property.ensures((&#[trigger] chain[k],), false)
}

/// `r` is what shrinking the failing `value` gives: the end of a path of at
/// most `max_shrinks` steps from `value` (none when the path has no step),
/// which stops only after `max_shrinks` steps or at a value all of whose
/// candidates satisfy the property.
pub open spec fn shrinks_as<T, S: Strategy<T>, P: Fn(&T) -> bool>(
    strategy: S,
    property: P,
    value: T,
    max_shrinks: u64,
    r: Option<T>,
) -> bool {
    exists|chain: Seq<T>|
        {
            &&& #[trigger] shrink_path(strategy, property, chain)
            &&& chain[0] == value
            &&& chain.len() - 1 <= max_shrinks
            &&& (r is None <==> chain.len() == 1)
            &&& (r matches Some(b) ==> chain.last() == b)
            &&& (chain.len() - 1 == max_shrinks || exists|cands: Vec<T>|
                #[trigger] call_ensures(S::shrink, (&strategy, &chain.last()), cands) && forall|i: int|
                    0 <= i < cands@.len() ==> property.ensures((&cands@[i],), true))
        }
}

/// Shrinks a failing value: repeatedly moves to the first candidate on
/// which the property fails too, for at most `max_shrinks` steps. The last
/// such candidate is returned; none when no step was taken.
fn shrink_counterexample<T, S: Strategy<T>, P: Fn(&T) -> bool>(
    value: &T,
    strategy: &S,
    property: &P,
    max_shrinks: u64,
) -> (r: Option<T>)
    requires
        forall|x: &T| #[trigger] property.requires((x,)),
    ensures
        r matches Some(b) ==> property.ensures((&b,), false),
        shrinks_as(*strategy, *property, *value, max_shrinks, r),
{
    let mut best: Option<T> = None;
    let mut candidates = strategy.shrink(value);
    let ghost mut cur = candidates;
    let ghost mut chain: Seq<T> = seq![*value];
    let mut iterations: u64 = 0;
    proof {
        assert(chain.last() == *value);
    }
    while candidates.len() > 0 && iterations < max_shrinks
        invariant_except_break
            candidates@ == cur@,
        invariant
            forall|x: &T| #[trigger] property.requires((x,)),
            chain.len() == iterations + 1,
            iterations <= max_shrinks,
            chain[0] == *value,
            shrink_path(*strategy, *property, chain),
            best is None <==> chain.len() == 1,
            best matches Some(b) ==> chain.last() == b && property.ensures((&b,), false),
            call_ensures(S::shrink, (strategy, &chain.last()), cur),
        ensures
            iterations == max_shrinks || forall|i: int| 0 <= i < cur@.len() ==> property.ensures((&cur@[i],), true),
        decreases max_shrinks - iterations,
    {
        let ghost round = candidates@;
        let mut found: Option<T> = None;
        while candidates.len() > 0
            invariant
                forall|x: &T| #[trigger] property.requires((x,)),
                found matches Some(f) ==> property.ensures((&f,), false) && round.contains(f),
                candidates@.len() <= round.len(),
                candidates@ == round.skip(round.len() - candidates@.len()),
                found is None ==> forall|j: int|
                    0 <= j < round.len() - candidates@.len() ==> property.ensures((&round[j],), true),
            ensures
                found is None ==> candidates@.len() == 0,
            decreases candidates@.len(),
        {
            let ghost k = round.len() - candidates@.len();
            let ghost before = candidates@;
            let c = candidates.remove(0);
            proof {
                assert(c == round[k]);
                assert(candidates@ =~= round.skip(k + 1)) by {
                    assert(before =~= round.skip(k));
                }
            }
            if !property(&c) {
                found = Some(c);
                break;
            }
        }
        match found {
            Some(c) => {
                proof {
                    let prev = chain;
                    assert(cur@.contains(c));
                    assert(shrinks_to(*strategy, prev.last(), c));
                    chain = chain.push(c);
                    assert forall|k: int| 0 <= k < chain.len() - 1 implies #[trigger] shrinks_to(
                        *strategy,
                        chain[k],
                        chain[k + 1],
                    ) by {
                        if k < prev.len() - 1 {
                            assert(chain[k] == prev[k]);
                            assert(chain[k + 1] == prev[k + 1]);
                        } else {
                            assert(chain[k] == prev.last());
                        }
                    }
                    assert forall|k: int| 1 <= k < chain.len() implies property.ensures((&#[trigger] chain[k],), false) by {
                        if k < prev.len() {
                            assert(chain[k] == prev[k]);
                        }
                    }
                }
                candidates = strategy.shrink(&c);
                proof {
                    cur = candidates;
                }
                best = Some(c);
            },
            None => {
                break;
            },
        }
        iterations = iterations + 1;
    }
    proof {
        assert(shrink_path(*strategy, *property, chain));
    }
    best
}

/// Runs `property` on `config.num_tests` values of `strategy`, drawn from
/// the generator of `config.seed` (or of a fresh seed). The first value on
/// which it fails is shrunk and reported; `None` when it held on all.
pub fn check_with<T, S: Strategy<T>, P: Fn(&T) -> bool>(
    _name: &str,
    strategy: S,
    property: P,
    config: PropertyConfig,
) -> (r: Option<Counterexample<T>>)
    requires
        forall|x: &T| #[trigger] property.requires((x,)),
    ensures
        r is None ==> exists|tested: Seq<T>|
            #[trigger] tested.len() == config.num_tests && forall|j: int|
                0 <= j < tested.len() ==> can_generate(strategy, tested[j]) && property.ensures((&tested[j],), true),
        r matches Some(c) ==> {
            &&& exists|tested: Seq<T>|
                #[trigger] tested.len() < config.num_tests && forall|j: int|
                    0 <= j < tested.len() ==> can_generate(strategy, tested[j]) && property.ensures((&tested[j],), true)
            &&& can_generate(strategy, c.value)
            &&& property.ensures((&c.value,), false)
            &&& c.shrunk matches Some(s) ==> property.ensures((&s,), false)
            &&& shrinks_as(strategy, property, c.value, config.max_shrinks, c.shrunk)
            &&& c.num_tests == config.num_tests
            &&& config.seed matches Some(seed) ==> c.seed == seed
        },
{
    let seed = match config.seed {
        Some(s) => s,
        None => random_seed(),
    };
    let mut rng = seeded_rng(seed);
    let ghost mut tested: Seq<T> = Seq::empty();
    let mut i: u64 = 0;
    while i < config.num_tests
        invariant
            forall|x: &T| #[trigger] property.requires((x,)),
            config.seed matches Some(s) ==> seed == s,
            i <= config.num_tests,
            tested.len() == i,
            forall|j: int| 0 <= j < tested.len() ==> can_generate(strategy, tested[j]) && property.ensures((&tested[j],), true),
        decreases config.num_tests - i,
    {
        let value = strategy.generate(&mut rng);
        proof {
            assert(exists|g: &mut StdRng| call_ensures(S::generate, (&strategy, g), value));
        }
        let holds = property(&value);
        if !holds {
            let shrunk = shrink_counterexample(&value, &strategy, &property, config.max_shrinks);
            return Some(Counterexample { num_tests: config.num_tests, seed, value, shrunk });
        }
        proof {
            let before = tested;
            tested = tested.push(value);
            assert forall|j: int| 0 <= j < tested.len() implies can_generate(strategy, tested[j]) && property.ensures((&tested[j],), true) by {
                if j < before.len() {
                    assert(tested[j] == before[j]);
                }
            }
        }
        i = i + 1;
    }
    None
}

/// [`check_with`] under the default configuration: a hundred values, up to
/// a thousand shrink steps, a fresh seed.
pub fn check<T, S: Strategy<T>, P: Fn(&T) -> bool>(_name: &str, strategy: S, property: P) -> (r: Option<
    Counterexample<T>,
>)
    requires
        forall|x: &T| #[trigger] property.requires((x,)),
    ensures
        r is None ==> exists|tested: Seq<T>|
            #[trigger] tested.len() == 100 && forall|j: int|
                0 <= j < tested.len() ==> can_generate(strategy, tested[j]) && property.ensures((&tested[j],), true),
        r matches Some(c) ==> {
            &&& exists|tested: Seq<T>|
                #[trigger] tested.len() < 100 && forall|j: int|
                    0 <= j < tested.len() ==> can_generate(strategy, tested[j]) && property.ensures((&tested[j],), true)
            &&& can_generate(strategy, c.value)
            &&& property.ensures((&c.value,), false)
            &&& c.shrunk matches Some(s) ==> property.ensures((&s,), false)
            &&& shrinks_as(strategy, property, c.value, 1000, c.shrunk)
            &&& c.num_tests == 100
        },
{
    check_with(_name, strategy, property, PropertyConfig::default())
}

} // verus!
