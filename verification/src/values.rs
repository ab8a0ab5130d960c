use vstd::prelude::*;

verus! {

/// A lattice: a partially ordered value domain with a greatest element that
/// over-approximates everything and a least element below everything.
pub trait Lattice: Sized {
    /// The greatest element, as a ghost value.
    spec fn top_spec() -> Self;

    /// The least element, as a ghost value.
    spec fn bot_spec() -> Self;

    /// The greatest element.
    fn top() -> (r: Self)
        ensures
            r == Self::top_spec(),
    ;

    /// The least element.
    fn bot() -> (r: Self)
        ensures
            r == Self::bot_spec(),
    ;
}

/// A value that is either wholly concrete or carries an abstract part.
pub trait Value: Sized {
    /// Whether the value is an abstraction, as a ghost predicate.
    spec fn is_abstract_spec(&self) -> bool;

    /// Whether the value is an abstraction.
    fn is_abstract(&self) -> (r: bool)
        ensures
            r == self.is_abstract_spec(),
    ;

    /// Whether the value is wholly concrete.
    fn is_concrete(&self) -> (r: bool)
        ensures
            r == !self.is_abstract_spec(),
    {
        !self.is_abstract()
    }
}

/// Either a concrete value or an element of a lattice that stands for a set
/// of concrete values.
#[derive(PartialEq, Eq)]
pub enum MixedValue<T, U> {
    Conc(T),
    Abs(U),
}

impl<T: Value, U: Lattice> MixedValue<T, U> {
    /// Wraps a concrete value.
    pub fn from_concrete(item: T) -> (r: MixedValue<T, U>)
        ensures
            r == MixedValue::<T, U>::Conc(item),
    {
        MixedValue::Conc(item)
    }

    /// Wraps a lattice element.
    pub fn from_abstract(item: U) -> (r: MixedValue<T, U>)
        ensures
            r == MixedValue::<T, U>::Abs(item),
    {
        MixedValue::Abs(item)
    }
}

impl<T: Value, U: Lattice> Value for MixedValue<T, U> {
    open spec fn is_abstract_spec(&self) -> bool {
        self is Abs
    }

    fn is_abstract(&self) -> (r: bool) {
        match self {
            MixedValue::Abs(_) => true,
            MixedValue::Conc(_) => false,
        }
    }
}

} // verus!
