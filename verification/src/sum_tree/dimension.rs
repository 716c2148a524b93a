//! What a tree sums up: items, their summaries, and the measures of a summary.

use vstd::prelude::*;
use std::cmp::Ordering;
use std::marker::PhantomData;

verus! {

/// An item that can be stored in a tree.
pub trait Item: Clone {
    type Summary: Summary;

    /// What is known of the item.
    spec fn summary_spec(&self, cx: &<Self::Summary as Summary>::Context) -> Self::Summary;

    /// What is known of the item.
    fn summary(&self, cx: &<Self::Summary as Summary>::Context) -> (r: Self::Summary)
        ensures
            r == self.summary_spec(cx),
    ;

    /// A clone is equal to what it was cloned from.
    proof fn clone_is_equal(a: Self, b: Self)
        requires
            cloned(a, b),
        ensures
            a == b,
    ;
}

/// The sum of what is known of the items in a part of a tree.
///
/// Sums do not depend on how the items are grouped: adding is associative, and
/// zero adds nothing.
pub trait Summary: Clone {
    type Context;

    spec fn zero_spec(cx: &Self::Context) -> Self;

    spec fn add_spec(&self, summary: &Self, cx: &Self::Context) -> Self;

    fn zero(cx: &Self::Context) -> (r: Self)
        ensures
            r == Self::zero_spec(cx),
    ;

    fn add_summary(&mut self, summary: &Self, cx: &Self::Context)
        ensures
            *final(self) == old(self).add_spec(summary, cx),
    ;

    proof fn zero_adds_nothing(a: Self, cx: &Self::Context)
        ensures
            Self::zero_spec(cx).add_spec(&a, cx) == a,
            a.add_spec(&Self::zero_spec(cx), cx) == a,
    ;

    proof fn add_is_associative(a: Self, b: Self, c: Self, cx: &Self::Context)
        ensures
            a.add_spec(&b, cx).add_spec(&c, cx) == a.add_spec(&b.add_spec(&c, cx), cx),
    ;

    proof fn clone_is_equal(a: Self, b: Self)
        requires
            cloned(a, b),
        ensures
            a == b,
    ;
}

/// The summary that knows nothing.
#[derive(Copy, Clone, PartialEq, Eq, Debug, Structural)]
pub struct Unit;

impl Summary for Unit {
    type Context = ();

    open spec fn zero_spec(cx: &()) -> Unit {
        Unit
    }

    open spec fn add_spec(&self, summary: &Unit, cx: &()) -> Unit {
        Unit
    }

    fn zero(cx: &()) -> Unit {
        Unit
    }

    fn add_summary(&mut self, summary: &Unit, cx: &()) {
    }

    proof fn zero_adds_nothing(a: Unit, cx: &()) {
    }

    proof fn add_is_associative(a: Unit, b: Unit, c: Unit, cx: &()) {
    }

    proof fn clone_is_equal(a: Unit, b: Unit) {
    }
}

/// A measure of a summary. A tree can be searched by any measure of its
/// summaries.
pub trait Dimension<S: Summary>: Sized {
    spec fn start_spec(cx: &S::Context) -> Self;

    spec fn plus_spec(&self, summary: &S, cx: &S::Context) -> Self;

    /// The measure of nothing.
    fn zero(cx: &S::Context) -> (r: Self)
        ensures
            r == Self::start_spec(cx),
    ;

    /// Adds the measure of a summary.
    fn add_summary(&mut self, summary: &S, cx: &S::Context)
        ensures
            *final(self) == old(self).plus_spec(summary, cx),
    ;

    /// The measure of a summary.
    fn from_summary(summary: &S, cx: &S::Context) -> (r: Self)
        ensures
            r == Self::start_spec(cx).plus_spec(summary, cx),
    {
        let mut dimension = Self::zero(cx);
        dimension.add_summary(summary, cx);
        dimension
    }
}

impl<S: Summary> Dimension<S> for () {
    open spec fn start_spec(cx: &S::Context) -> () {
        ()
    }

    open spec fn plus_spec(&self, summary: &S, cx: &S::Context) -> () {
        ()
    }

    fn zero(cx: &S::Context) -> () {
    }

    fn add_summary(&mut self, summary: &S, cx: &S::Context) {
    }
}

impl<S: Summary, D1: Dimension<S>, D2: Dimension<S>> Dimension<S> for (D1, D2) {
    open spec fn start_spec(cx: &S::Context) -> (D1, D2) {
        (D1::start_spec(cx), D2::start_spec(cx))
    }

    open spec fn plus_spec(&self, summary: &S, cx: &S::Context) -> (D1, D2) {
        (self.0.plus_spec(summary, cx), self.1.plus_spec(summary, cx))
    }

    fn zero(cx: &S::Context) -> (D1, D2) {
        (D1::zero(cx), D2::zero(cx))
    }

    fn add_summary(&mut self, summary: &S, cx: &S::Context) {
        self.0.add_summary(summary, cx);
        self.1.add_summary(summary, cx);
    }
}

/// A summary measures itself.
impl<S: Summary> Dimension<S> for S {
    open spec fn start_spec(cx: &S::Context) -> S {
        S::zero_spec(cx)
    }

    open spec fn plus_spec(&self, summary: &S, cx: &S::Context) -> S {
        self.add_spec(summary, cx)
    }

    fn zero(cx: &S::Context) -> S {
        <S as Summary>::zero(cx)
    }

    fn add_summary(&mut self, summary: &S, cx: &S::Context) {
        <S as Summary>::add_summary(self, summary, cx);
    }
}

/// What a search in a tree looks for.
pub trait SeekTarget<S: Summary, D: Dimension<S>> {
    /// How the target stands to a location.
    spec fn side_spec(&self, location: &D, cx: &S::Context) -> Ordering;

    /// How the target stands to a location.
    fn cmp(&self, location: &D, cx: &S::Context) -> (r: Ordering)
        ensures
            r == self.side_spec(location, cx),
    ;
}

/// The target past every location.
pub struct End<D>(PhantomData<D>);

impl<D> End<D> {
    pub fn new() -> End<D> {
        End(PhantomData)
    }
}

impl<S: Summary, D: Dimension<S>> SeekTarget<S, D> for End<D> {
    open spec fn side_spec(&self, location: &D, cx: &S::Context) -> Ordering {
        Ordering::Greater
    }

    fn cmp(&self, location: &D, cx: &S::Context) -> Ordering {
        Ordering::Greater
    }
}

impl<S: Summary, D1: SeekTarget<S, D1> + Dimension<S>, D2: Dimension<S>> SeekTarget<
    S,
    (D1, D2),
> for D1 {
    open spec fn side_spec(&self, location: &(D1, D2), cx: &S::Context) -> Ordering {
        SeekTarget::<S, D1>::side_spec(self, &location.0, cx)
    }

    fn cmp(&self, location: &(D1, D2), cx: &S::Context) -> Ordering {
        SeekTarget::<S, D1>::cmp(self, &location.0, cx)
    }
}

/// A key: keys are totally ordered, and equal keys are the same key.
pub trait Key: Sized {
    spec fn before(&self, other: &Self) -> bool;

    /// Whether the key comes before another.
    fn is_before(&self, other: &Self) -> (r: bool)
        ensures
            r == self.before(other),
    ;

    proof fn before_is_total(a: Self, b: Self)
        ensures
            !a.before(&a),
            a == b || a.before(&b) || b.before(&a),
    ;

    proof fn before_is_transitive(a: Self, b: Self, c: Self)
        requires
            a.before(&b),
            b.before(&c),
        ensures
            a.before(&c),
    ;
}

impl Key for u64 {
    open spec fn before(&self, other: &u64) -> bool {
        *self < *other
    }

    fn is_before(&self, other: &u64) -> bool {
        *self < *other
    }

    proof fn before_is_total(a: u64, b: u64) {
    }

    proof fn before_is_transitive(a: u64, b: u64, c: u64) {
    }
}

/// An item with a key by which it is found.
pub trait KeyedItem: Item {
    type Key: Key;

    spec fn key_spec(&self) -> Self::Key;

    fn key(&self) -> (r: Self::Key)
        ensures
            r == self.key_spec(),
    ;
}

/// How many items there are.
#[derive(Copy, Clone, PartialEq, Eq, Debug, Structural)]
pub struct Count(pub u64);

impl Summary for Count {
    type Context = ();

    open spec fn zero_spec(cx: &()) -> Count {
        Count(0)
    }

    open spec fn add_spec(&self, summary: &Count, cx: &()) -> Count {
        Count(self.0.wrapping_add(summary.0))
    }

    fn zero(cx: &()) -> Count {
        Count(0)
    }

    fn add_summary(&mut self, summary: &Count, cx: &()) {
        self.0 = self.0.wrapping_add(summary.0);
    }

    proof fn zero_adds_nothing(a: Count, cx: &()) {
    }

    proof fn add_is_associative(a: Count, b: Count, c: Count, cx: &()) {
    }

    proof fn clone_is_equal(a: Count, b: Count) {
    }
}

/// Numbers are counted, and each is its own key.
impl Item for u64 {
    type Summary = Count;

    open spec fn summary_spec(&self, cx: &()) -> Count {
        Count(1)
    }

    fn summary(&self, cx: &()) -> Count {
        Count(1)
    }

    proof fn clone_is_equal(a: u64, b: u64) {
    }
}

impl KeyedItem for u64 {
    type Key = u64;

    open spec fn key_spec(&self) -> u64 {
        *self
    }

    fn key(&self) -> u64 {
        *self
    }
}

/// Two measures at once are the two measures, and a summary measures itself.
pub proof fn law_pairs_measure_both<S: Summary, D1: Dimension<S>, D2: Dimension<S>>(
    pair: (D1, D2),
    sum: S,
    summary: S,
    cx: &S::Context,
)
    ensures
        Dimension::<S>::plus_spec(&pair, &summary, cx).0 == pair.0.plus_spec(&summary, cx),
        Dimension::<S>::plus_spec(&pair, &summary, cx).1 == pair.1.plus_spec(&summary, cx),
        Dimension::<S>::plus_spec(&sum, &summary, cx) == sum.add_spec(&summary, cx),
{
}

} // verus!
