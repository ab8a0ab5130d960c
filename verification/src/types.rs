use crate::values::Lattice;
use core::cmp::Ordering;
use vstd::prelude::*;

verus! {

/// The type lattice: `Top` above the three ground types, which sit side by
/// side above `Bot`.
#[derive(Clone, Copy, PartialEq, Eq, Structural, Debug)]
pub enum TypeLattice {
    Top,
    String,
    Integer,
    Bool,
    Bot,
}

/// The partial order: equal elements, `Bot` below everything, `Top` above
/// everything; the three ground types are mutually incomparable.
pub open spec fn type_le(a: TypeLattice, b: TypeLattice) -> bool {
    a == b || a == TypeLattice::Bot || b == TypeLattice::Top
}

pub open spec fn type_cmp(a: TypeLattice, b: TypeLattice) -> Option<Ordering> {
    if a == b {
        Some(Ordering::Equal)
    } else if a == TypeLattice::Bot || b == TypeLattice::Top {
        Some(Ordering::Less)
    } else if b == TypeLattice::Bot || a == TypeLattice::Top {
        Some(Ordering::Greater)
    } else {
        None
    }
}

/// The comparison decides exactly the partial order.
pub proof fn lemma_type_cmp_le(a: TypeLattice, b: TypeLattice)
    ensures
        type_le(a, b) <==> (type_cmp(a, b) == Some(Ordering::Less) || type_cmp(a, b)
            == Some(Ordering::Equal)),
{
}

/// `Top` is above every element and `Bot` below every element.
pub proof fn lemma_type_top_bot(a: TypeLattice)
    ensures
        type_le(a, TypeLattice::Top),
        type_le(TypeLattice::Bot, a),
{
}

/// The order is reflexive.
pub proof fn lemma_type_refl(a: TypeLattice)
    ensures
        type_le(a, a),
{
}

/// The order is antisymmetric: elements below each other are equal.
pub proof fn lemma_type_antisym(a: TypeLattice, b: TypeLattice)
    requires
        type_le(a, b),
        type_le(b, a),
    ensures
        a == b,
{
}

/// The order is transitive.
pub proof fn lemma_type_trans(a: TypeLattice, b: TypeLattice, c: TypeLattice)
    requires
        type_le(a, b),
        type_le(b, c),
    ensures
        type_le(a, c),
{
}

impl Lattice for TypeLattice {
    open spec fn top_spec() -> Self {
        TypeLattice::Top
    }

    open spec fn bot_spec() -> Self {
        TypeLattice::Bot
    }

    fn top() -> (r: Self) {
        TypeLattice::Top
    }

    fn bot() -> (r: Self) {
        TypeLattice::Bot
    }
}

/// The ground type a concrete value belongs to; the error sentinel belongs
/// to no type and maps to `Bot`.
pub open spec fn type_of_value(v: crate::concrete::ValV) -> TypeLattice {
    match v {
        crate::concrete::ValV::Str(_) => TypeLattice::String,
        crate::concrete::ValV::Int(_) => TypeLattice::Integer,
        crate::concrete::ValV::Bool(_) => TypeLattice::Bool,
        crate::concrete::ValV::Error => TypeLattice::Bot,
    }
}

impl TypeLattice {
    /// The abstraction of a concrete value into the type lattice.
    pub fn of_value(v: &crate::concrete::StrVal) -> (r: TypeLattice)
        ensures
            r == type_of_value(v@),
    {
        match v {
            crate::concrete::StrVal::Str(_) => TypeLattice::String,
            crate::concrete::StrVal::Int(_) => TypeLattice::Integer,
            crate::concrete::StrVal::Bool(_) => TypeLattice::Bool,
            crate::concrete::StrVal::Error => TypeLattice::Bot,
        }
    }

    /// The order as an executable comparison.
    pub fn partial_cmp(&self, other: &TypeLattice) -> (r: Option<Ordering>)
        ensures
            r == type_cmp(*self, *other),
    {
        if *self == *other {
            Some(Ordering::Equal)
        } else if *self == TypeLattice::Bot || *other == TypeLattice::Top {
            Some(Ordering::Less)
        } else if *other == TypeLattice::Bot || *self == TypeLattice::Top {
            Some(Ordering::Greater)
        } else {
            None
        }
    }

    /// Whether `self` is below `other` in the lattice.
    pub fn le(&self, other: &TypeLattice) -> (r: bool)
        ensures
            r == type_le(*self, *other),
    {
        *self == *other || *self == TypeLattice::Bot || *other == TypeLattice::Top
    }
}

} // verus!
