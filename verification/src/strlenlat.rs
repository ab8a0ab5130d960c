use crate::linear::{
    lin_v_add, lin_v_const, lin_v_fits, lin_v_sub, lemma_lin_add_sub_cancel, LinV, LinearExpr,
};
use crate::values::Lattice;
use core::cmp::Ordering;
use vstd::prelude::*;

verus! {

// ---------------------------------------------------------------------------
// Ghost model
// ---------------------------------------------------------------------------

/// Ghost form of a string-length lattice element: the unknown length, a known
/// length given by a linear expression, or the empty approximation.
#[verifier::ext_equal]
pub ghost enum LatV {
    Top,
    Len(LinV),
    Bot,
}

/// The partial order: `Bot` below everything, `Top` above everything, and two
/// known lengths comparable only when they are the same expression.
pub open spec fn lat_v_le(a: LatV, b: LatV) -> bool {
    match (a, b) {
        (LatV::Bot, _) => true,
        (_, LatV::Top) => true,
        (LatV::Len(l1), LatV::Len(l2)) => l1 == l2,
        _ => false,
    }
}

/// Addition with absorption: any `Top` operand gives `Top`, any `Bot` operand
/// gives `Bot`, two known lengths add their linear expressions.  A sum whose
/// constant or coefficients leave the machine range widens to `Top`.
pub open spec fn lat_v_add(a: LatV, b: LatV) -> LatV {
    match (a, b) {
        (LatV::Top, _) => LatV::Top,
        (LatV::Len(_), LatV::Top) => LatV::Top,
        (LatV::Len(l1), LatV::Len(l2)) => if lin_v_fits(lin_v_add(l1, l2)) {
            LatV::Len(lin_v_add(l1, l2))
        } else {
            LatV::Top
        },
        (LatV::Len(_), LatV::Bot) => LatV::Bot,
        (LatV::Bot, _) => LatV::Bot,
    }
}

/// Subtraction with the same absorption rules as addition.
pub open spec fn lat_v_sub(a: LatV, b: LatV) -> LatV {
    match (a, b) {
        (LatV::Top, _) => LatV::Top,
        (LatV::Len(_), LatV::Top) => LatV::Top,
        (LatV::Len(l1), LatV::Len(l2)) => if lin_v_fits(lin_v_sub(l1, l2)) {
            LatV::Len(lin_v_sub(l1, l2))
        } else {
            LatV::Top
        },
        (LatV::Len(_), LatV::Bot) => LatV::Bot,
        (LatV::Bot, _) => LatV::Bot,
    }
}

/// The least upper bound: `Bot` is neutral, `Top` absorbing, and two known
/// lengths join to themselves when equal and to `Top` otherwise.
pub open spec fn lat_v_join(a: LatV, b: LatV) -> LatV {
    match (a, b) {
        (LatV::Bot, _) => b,
        (_, LatV::Bot) => a,
        (LatV::Top, _) => LatV::Top,
        (_, LatV::Top) => LatV::Top,
        (LatV::Len(l1), LatV::Len(l2)) => if l1 == l2 {
            LatV::Len(l1)
        } else {
            LatV::Top
        },
    }
}

/// The join is an upper bound of both operands.
pub proof fn lemma_strlen_join_upper(a: LatV, b: LatV)
    ensures
        lat_v_le(a, lat_v_join(a, b)),
        lat_v_le(b, lat_v_join(a, b)),
{
}

/// The join is the least upper bound.
pub proof fn lemma_strlen_join_least(a: LatV, b: LatV, c: LatV)
    requires
        lat_v_le(a, c),
        lat_v_le(b, c),
    ensures
        lat_v_le(lat_v_join(a, b), c),
{
}

pub open spec fn lat_v_cmp(a: LatV, b: LatV) -> Option<Ordering> {
    match (a, b) {
        (LatV::Top, LatV::Top) => Some(Ordering::Equal),
        (LatV::Top, _) => Some(Ordering::Greater),
        (LatV::Len(_), LatV::Top) => Some(Ordering::Less),
        (LatV::Len(l1), LatV::Len(l2)) => if l1 == l2 {
            Some(Ordering::Equal)
        } else {
            None
        },
        (LatV::Len(_), LatV::Bot) => Some(Ordering::Greater),
        (LatV::Bot, LatV::Bot) => Some(Ordering::Equal),
        (LatV::Bot, _) => Some(Ordering::Less),
    }
}

/// The comparison decides exactly the partial order.
pub proof fn lemma_strlen_cmp_le(a: LatV, b: LatV)
    ensures
        lat_v_le(a, b) <==> (lat_v_cmp(a, b) == Some(Ordering::Less) || lat_v_cmp(a, b)
            == Some(Ordering::Equal)),
{
}

// ---------------------------------------------------------------------------
// Order laws
// ---------------------------------------------------------------------------

/// `Top` is above every element and `Bot` below every element.
pub proof fn lemma_strlen_top_bot(a: LatV)
    ensures
        lat_v_le(a, LatV::Top),
        lat_v_le(LatV::Bot, a),
{
}

/// The order is reflexive.
pub proof fn lemma_strlen_refl(a: LatV)
    ensures
        lat_v_le(a, a),
{
}

/// The order is antisymmetric: elements below each other are equal.
pub proof fn lemma_strlen_antisym(a: LatV, b: LatV)
    requires
        lat_v_le(a, b),
        lat_v_le(b, a),
    ensures
        a == b,
{
}

/// The order is transitive.
pub proof fn lemma_strlen_trans(a: LatV, b: LatV, c: LatV)
    requires
        lat_v_le(a, b),
        lat_v_le(b, c),
    ensures
        lat_v_le(a, c),
{
}

/// Adding a known length and then subtracting it gives back the other length
/// exactly: the inverse the search uses for `append` loses nothing.
pub proof fn lemma_append_inverse(l1: LinV, l2: LinV)
    requires
        l1.m.dom() =~= Set::full(),
        l2.m.dom() =~= Set::full(),
        lin_v_fits(lin_v_add(l1, l2)),
        lin_v_fits(l2),
    ensures
        lat_v_sub(lat_v_add(LatV::Len(l1), LatV::Len(l2)), LatV::Len(l1)) == LatV::Len(l2),
{
    lemma_lin_add_sub_cancel(l1, l2);
    assert(lin_v_sub(lin_v_add(l1, l2), l1) == l2);
}

// ---------------------------------------------------------------------------
// Executable representation
// ---------------------------------------------------------------------------

/// A string-length lattice element: `Top` for an unknown length, `Len` for a
/// length given by a linear expression over symbolic lengths, `Bot` for the
/// empty approximation.
pub enum StrLenLat {
    Top,
    Len(LinearExpr),
    Bot,
}

impl View for StrLenLat {
    type V = LatV;

    open spec fn view(&self) -> LatV {
        match self {
            StrLenLat::Top => LatV::Top,
            StrLenLat::Len(l) => LatV::Len(l@),
            StrLenLat::Bot => LatV::Bot,
        }
    }
}

impl Lattice for StrLenLat {
    open spec fn top_spec() -> Self {
        StrLenLat::Top
    }

    open spec fn bot_spec() -> Self {
        StrLenLat::Bot
    }

    fn top() -> (r: Self) {
        StrLenLat::Top
    }

    fn bot() -> (r: Self) {
        StrLenLat::Bot
    }
}

impl StrLenLat {
    /// Addition with `Top`/`Bot` absorption; a sum that leaves the machine
    /// range widens to `Top`, which stays sound as an over-approximation.
    pub fn add(&self, other: &StrLenLat) -> (r: StrLenLat)
        ensures
            r@ == lat_v_add(self@, other@),
    {
        match (self, other) {
            (StrLenLat::Top, _) => StrLenLat::Top,
            (StrLenLat::Len(_), StrLenLat::Top) => StrLenLat::Top,
            (StrLenLat::Len(l1), StrLenLat::Len(l2)) => match l1.try_add(l2) {
                Some(l) => StrLenLat::Len(l),
                None => StrLenLat::Top,
            },
            (StrLenLat::Len(_), StrLenLat::Bot) => StrLenLat::Bot,
            (StrLenLat::Bot, _) => StrLenLat::Bot,
        }
    }

    /// The least upper bound of two elements.
    pub fn join(&self, other: &StrLenLat) -> (r: StrLenLat)
        ensures
            r@ == lat_v_join(self@, other@),
    {
        match (self, other) {
            (StrLenLat::Bot, _) => other.clone(),
            (_, StrLenLat::Bot) => self.clone(),
            (StrLenLat::Top, _) => StrLenLat::Top,
            (_, StrLenLat::Top) => StrLenLat::Top,
            (StrLenLat::Len(l1), StrLenLat::Len(l2)) => if l1 == l2 {
                StrLenLat::Len(l1.clone())
            } else {
                StrLenLat::Top
            },
        }
    }

    /// Subtraction with the same absorption and widening rules as `add`.
    pub fn sub(&self, other: &StrLenLat) -> (r: StrLenLat)
        ensures
            r@ == lat_v_sub(self@, other@),
    {
        match (self, other) {
            (StrLenLat::Top, _) => StrLenLat::Top,
            (StrLenLat::Len(_), StrLenLat::Top) => StrLenLat::Top,
            (StrLenLat::Len(l1), StrLenLat::Len(l2)) => match l1.try_sub(l2) {
                Some(l) => StrLenLat::Len(l),
                None => StrLenLat::Top,
            },
            (StrLenLat::Len(_), StrLenLat::Bot) => StrLenLat::Bot,
            (StrLenLat::Bot, _) => StrLenLat::Bot,
        }
    }
}

impl Clone for StrLenLat {
    /// Cloning keeps the value: the copy has the same ghost form.
    fn clone(&self) -> (r: Self)
        ensures
            r@ == self@,
    {
        match self {
            StrLenLat::Top => StrLenLat::Top,
            StrLenLat::Len(l) => StrLenLat::Len(l.clone()),
            StrLenLat::Bot => StrLenLat::Bot,
        }
    }
}

impl PartialEq for StrLenLat {
    /// Two elements are equal when their ghost forms are: same shape, and for
    /// two known lengths the same linear expression.
    fn eq(&self, other: &Self) -> (r: bool) {
        match (self, other) {
            (StrLenLat::Top, StrLenLat::Top) => true,
            (StrLenLat::Bot, StrLenLat::Bot) => true,
            (StrLenLat::Len(a), StrLenLat::Len(b)) => a == b,
            _ => false,
        }
    }
}

impl vstd::std_specs::cmp::PartialEqSpecImpl for StrLenLat {
    open spec fn obeys_eq_spec() -> bool {
        true
    }

    open spec fn eq_spec(&self, other: &Self) -> bool {
        self@ == other@
    }
}

impl PartialOrd for StrLenLat {
    /// The partial order on the lattice, as `lat_v_cmp` on the ghost forms.
    fn partial_cmp(&self, other: &Self) -> (r: Option<Ordering>) {
        match (self, other) {
            (StrLenLat::Top, StrLenLat::Top) => Some(Ordering::Equal),
            (StrLenLat::Top, _) => Some(Ordering::Greater),
            (StrLenLat::Len(_), StrLenLat::Top) => Some(Ordering::Less),
            (StrLenLat::Len(a), StrLenLat::Len(b)) => if a == b {
                Some(Ordering::Equal)
            } else {
                None
            },
            (StrLenLat::Len(_), StrLenLat::Bot) => Some(Ordering::Greater),
            (StrLenLat::Bot, StrLenLat::Bot) => Some(Ordering::Equal),
            (StrLenLat::Bot, _) => Some(Ordering::Less),
        }
    }
}

impl vstd::std_specs::cmp::PartialOrdSpecImpl for StrLenLat {
    open spec fn obeys_partial_cmp_spec() -> bool {
        true
    }

    open spec fn partial_cmp_spec(&self, other: &Self) -> Option<Ordering> {
        lat_v_cmp(self@, other@)
    }
}

impl From<LinearExpr> for StrLenLat {
    /// The element that is exactly the given length.
    fn from(item: LinearExpr) -> Self {
        StrLenLat::Len(item)
    }
}

impl vstd::std_specs::convert::FromSpecImpl<LinearExpr> for StrLenLat {
    open spec fn obeys_from_spec() -> bool {
        true
    }

    open spec fn from_spec(v: LinearExpr) -> Self {
        StrLenLat::Len(v)
    }
}

impl From<i32> for StrLenLat {
    /// The element that is exactly the constant length `item`.
    fn from(item: i32) -> Self {
        StrLenLat::Len(LinearExpr::from_const(item))
    }
}

impl vstd::std_specs::convert::FromSpecImpl<i32> for StrLenLat {
    open spec fn obeys_from_spec() -> bool {
        false
    }

    open spec fn from_spec(v: i32) -> Self {
        arbitrary()
    }
}

impl From<String> for StrLenLat {
    /// The element whose length is the symbol `item`.
    fn from(item: String) -> Self {
        StrLenLat::Len(LinearExpr::from_symbol(item))
    }
}

impl vstd::std_specs::convert::FromSpecImpl<String> for StrLenLat {
    open spec fn obeys_from_spec() -> bool {
        false
    }

    open spec fn from_spec(v: String) -> Self {
        arbitrary()
    }
}

/// Handy exec constructor for a constant known length.
pub fn strlen_of_const(k: i32) -> (r: StrLenLat)
    ensures
        r@ == LatV::Len(lin_v_const(k as int)),
{
    StrLenLat::Len(LinearExpr::from_const(k))
}

} // verus!
