use vstd::prelude::*;

verus! {

// ---------------------------------------------------------------------------
// Ghost model
// ---------------------------------------------------------------------------

/// Ghost form of a linear expression: a constant plus a total map from symbol
/// names to integer coefficients.  A name that does not occur in an expression
/// carries coefficient zero.
#[verifier::ext_equal]
pub ghost struct LinV {
    pub c: int,
    pub m: Map<Seq<char>, int>,
}

pub open spec fn lin_v_const(k: int) -> LinV {
    LinV { c: k, m: Map::total(|n: Seq<char>| 0int) }
}

pub open spec fn lin_v_symbol(name: Seq<char>) -> LinV {
    LinV { c: 0, m: Map::total(|n: Seq<char>| if n == name { 1int } else { 0int }) }
}

pub open spec fn lin_v_add(a: LinV, b: LinV) -> LinV {
    LinV { c: a.c + b.c, m: Map::total(|n: Seq<char>| a.m[n] + b.m[n]) }
}

pub open spec fn lin_v_sub(a: LinV, b: LinV) -> LinV {
    LinV { c: a.c - b.c, m: Map::total(|n: Seq<char>| a.m[n] - b.m[n]) }
}

pub open spec fn lin_v_scale(k: int, a: LinV) -> LinV {
    LinV { c: k * a.c, m: Map::total(|n: Seq<char>| k * a.m[n]) }
}

/// No symbol occurs: the expression is a plain integer.
pub open spec fn lin_v_is_const(a: LinV) -> bool {
    forall|n: Seq<char>| a.m[n] == 0
}

pub open spec fn i32_fits(x: int) -> bool {
    i32::MIN <= x <= i32::MAX
}

/// The constant and every coefficient fit in the machine representation.
pub open spec fn lin_v_fits(a: LinV) -> bool {
    i32_fits(a.c) && forall|n: Seq<char>| i32_fits(a.m[n])
}

/// Subtraction undoes addition exactly on the ghost model.
pub proof fn lemma_lin_add_sub_cancel(a: LinV, b: LinV)
    requires
        b.m.dom() =~= Set::full(),
    ensures
        lin_v_sub(lin_v_add(a, b), a) == b,
{
    assert(lin_v_sub(lin_v_add(a, b), a).m =~= b.m);
    assert(lin_v_sub(lin_v_add(a, b), a) =~= b);
}

// ---------------------------------------------------------------------------
// Executable representation
// ---------------------------------------------------------------------------

/// The coefficient of `name` in a term list: the coefficient of the first
/// entry carrying that name, and zero when no entry does.
pub open spec fn term_coeff(s: Seq<(String, i32)>, name: Seq<char>) -> int
    decreases s.len(),
{
    if s.len() == 0 {
        0
    } else if s[0].0@ == name {
        s[0].1 as int
    } else {
        term_coeff(s.skip(1), name)
    }
}

/// No two entries carry the same name.
pub open spec fn term_names_unique(s: Seq<(String, i32)>) -> bool {
    forall|i: int, j: int| 0 <= i < j < s.len() ==> s[i].0@ != s[j].0@
}

proof fn lemma_coeff_first(s: Seq<(String, i32)>, i: int, name: Seq<char>)
    requires
        0 <= i < s.len(),
        s[i].0@ == name,
        forall|k: int| 0 <= k < i ==> s[k].0@ != name,
    ensures
        term_coeff(s, name) == s[i].1 as int,
    decreases i,
{
    if i == 0 {
    } else {
        assert(s.skip(1)[i - 1] == s[i]);
        assert(forall|k: int| 0 <= k < i - 1 ==> s.skip(1)[k] == s[k + 1]);
        lemma_coeff_first(s.skip(1), i - 1, name);
    }
}

proof fn lemma_coeff_at(s: Seq<(String, i32)>, i: int, name: Seq<char>)
    requires
        term_names_unique(s),
        0 <= i < s.len(),
        s[i].0@ == name,
    ensures
        term_coeff(s, name) == s[i].1 as int,
{
    assert(forall|k: int| 0 <= k < i ==> s[k].0@ != name);
    lemma_coeff_first(s, i, name);
}

proof fn lemma_coeff_absent(s: Seq<(String, i32)>, name: Seq<char>)
    requires
        forall|k: int| 0 <= k < s.len() ==> s[k].0@ != name,
    ensures
        term_coeff(s, name) == 0,
    decreases s.len(),
{
    if s.len() > 0 {
        assert(forall|k: int| 0 <= k < s.len() - 1 ==> s.skip(1)[k] == s[k + 1]);
        lemma_coeff_absent(s.skip(1), name);
    }
}

proof fn lemma_coeff_nonzero_has_entry(s: Seq<(String, i32)>, name: Seq<char>)
    requires
        term_coeff(s, name) != 0,
    ensures
        exists|i: int| 0 <= i < s.len() && s[i].0@ == name,
{
    if !(exists|i: int| 0 <= i < s.len() && s[i].0@ == name) {
        assert(forall|k: int| 0 <= k < s.len() ==> s[k].0@ != name);
        lemma_coeff_absent(s, name);
    }
}

proof fn lemma_coeff_fits(s: Seq<(String, i32)>, name: Seq<char>)
    ensures
        i32_fits(term_coeff(s, name)),
    decreases s.len(),
{
    if s.len() > 0 && s[0].0@ != name {
        lemma_coeff_fits(s.skip(1), name);
    }
}

/// A linear expression over named symbols: a machine-integer constant plus a
/// list of (symbol, coefficient) terms, no symbol listed twice.
pub struct LinearExpr {
    c: i32,
    terms: Vec<(String, i32)>,
}

impl View for LinearExpr {
    type V = LinV;

    closed spec fn view(&self) -> LinV {
        LinV { c: self.c as int, m: Map::total(|n: Seq<char>| term_coeff(self.terms@, n)) }
    }
}

/// The view of every linear expression is a total map.
pub proof fn lemma_lin_view_total(l: &LinearExpr)
    ensures
        l@.m.dom() =~= Set::full(),
{
}

impl LinearExpr {
    #[verifier::type_invariant]
    spec fn inv(&self) -> bool {
        term_names_unique(self.terms@)
    }

    /// The expression that is the plain integer `k`.
    pub fn from_const(k: i32) -> (r: LinearExpr)
        ensures
            r@ == lin_v_const(k as int),
    {
        let r = LinearExpr { c: k, terms: Vec::new() };
        proof {
            assert(r@.m =~= lin_v_const(k as int).m);
            assert(r@ =~= lin_v_const(k as int));
        }
        r
    }

    /// The expression that is the symbol `name` with coefficient one.
    pub fn from_symbol(name: String) -> (r: LinearExpr)
        ensures
            r@ == lin_v_symbol(name@),
    {
        let mut terms: Vec<(String, i32)> = Vec::new();
        let ghost n0 = name@;
        terms.push((name, 1));
        let r = LinearExpr { c: 0, terms };
        proof {
            assert forall|n: Seq<char>| r@.m[n] == lin_v_symbol(n0).m[n] by {
                if n == n0 {
                    lemma_coeff_at(r.terms@, 0, n);
                } else {
                    lemma_coeff_absent(r.terms@, n);
                }
            }
            assert(r@.m =~= lin_v_symbol(n0).m);
            assert(r@ =~= lin_v_symbol(n0));
        }
        r
    }

    /// The constant part of the expression.
    pub fn constant(&self) -> (r: i32)
        ensures
            r as int == self@.c,
    {
        self.c
    }

    /// The coefficient attached to `name`; zero when `name` does not occur.
    pub fn coeff(&self, name: &String) -> (r: i32)
        ensures
            r as int == self@.m[name@],
    {
        proof {
            use_type_invariant(self);
        }
        let n = self.terms.len();
        let mut i: usize = 0;
        while i < n
            invariant
                n == self.terms@.len(),
                0 <= i <= n,
                forall|k: int| 0 <= k < i ==> self.terms@[k].0@ != name@,
            decreases n - i,
        {
            if self.terms[i].0 == *name {
                proof {
                    lemma_coeff_first(self.terms@, i as int, name@);
                }
                return self.terms[i].1;
            }
            i += 1;
        }
        proof {
            lemma_coeff_absent(self.terms@, name@);
        }
        0
    }

    fn index_of_name(&self, name: &String) -> (r: Option<usize>)
        ensures
            match r {
                Some(i) => i < self.terms@.len() && self.terms@[i as int].0@ == name@,
                None => forall|k: int| 0 <= k < self.terms@.len() ==> self.terms@[k].0@ != name@,
            },
    {
        let n = self.terms.len();
        let mut i: usize = 0;
        while i < n
            invariant
                n == self.terms@.len(),
                0 <= i <= n,
                forall|k: int| 0 <= k < i ==> self.terms@[k].0@ != name@,
            decreases n - i,
        {
            if self.terms[i].0 == *name {
                return Some(i);
            }
            i += 1;
        }
        None
    }

    /// Whether no symbol occurs: the expression is a plain integer.
    pub fn is_const(&self) -> (r: bool)
        ensures
            r == lin_v_is_const(self@),
    {
        proof {
            use_type_invariant(self);
        }
        let n = self.terms.len();
        let mut i: usize = 0;
        while i < n
            invariant
                n == self.terms@.len(),
                0 <= i <= n,
                term_names_unique(self.terms@),
                forall|k: int| 0 <= k < i ==> self.terms@[k].1 == 0,
            decreases n - i,
        {
            if self.terms[i].1 != 0 {
                proof {
                    let nm = self.terms@[i as int].0@;
                    lemma_coeff_at(self.terms@, i as int, nm);
                    assert(self@.m[nm] == term_coeff(self.terms@, nm));
                    assert(self@.m[nm] != 0);
                }
                return false;
            }
            i += 1;
        }
        proof {
            assert forall|nm: Seq<char>| self@.m[nm] == 0 by {
                assert(self@.m[nm] == term_coeff(self.terms@, nm));
                if term_coeff(self.terms@, nm) != 0 {
                    lemma_coeff_nonzero_has_entry(self.terms@, nm);
                    let i = choose|i: int| 0 <= i < self.terms@.len() && self.terms@[i].0@ == nm;
                    lemma_coeff_at(self.terms@, i, nm);
                }
            }
        }
        true
    }

    /// The plain integer the expression stands for, when no symbol occurs.
    pub fn as_const(&self) -> (r: Option<i32>)
        ensures
            match r {
                Some(k) => lin_v_is_const(self@) && k as int == self@.c,
                None => !lin_v_is_const(self@),
            },
    {
        if self.is_const() {
            Some(self.c)
        } else {
            None
        }
    }

    /// The sum of two linear expressions, or `None` when the constant or some
    /// coefficient of the sum leaves the machine-integer range.
    pub fn try_add(&self, other: &LinearExpr) -> (r: Option<LinearExpr>)
        ensures
            r matches Some(x) ==> x@ == lin_v_add(self@, other@),
            r is Some <==> lin_v_fits(lin_v_add(self@, other@)),
    {
        proof {
            use_type_invariant(self);
            use_type_invariant(other);
        }
        let ghost goal = lin_v_add(self@, other@);
        proof {
            assert(forall|n: Seq<char>| goal.m[n] == self@.m[n] + other@.m[n]);
        }
        let new_c = match self.c.checked_add(other.c) {
            Some(v) => v,
            None => {
                return None;
            },
        };
        let slen = self.terms.len();
        let mut out: Vec<(String, i32)> = Vec::new();
        let mut i: usize = 0;
        while i < slen
            invariant
                slen == self.terms@.len(),
                0 <= i <= slen,
                term_names_unique(self.terms@),
                term_names_unique(other.terms@),
                out@.len() == i,
                forall|k: int| 0 <= k < i ==> out@[k].0@ == self.terms@[k].0@,
                forall|k: int|
                    0 <= k < i ==> out@[k].1 as int == self@.m[out@[k].0@] + other@.m[out@[k].0@],
                goal == lin_v_add(self@, other@),
            decreases slen - i,
        {
            let sv = self.terms[i].1;
            let oc = other.coeff(&self.terms[i].0);
            proof {
                lemma_coeff_at(self.terms@, i as int, self.terms@[i as int].0@);
            }
            match sv.checked_add(oc) {
                Some(v) => {
                    let nm = self.terms[i].0.clone();
                    out.push((nm, v));
                },
                None => {
                    proof {
                        let nm = self.terms@[i as int].0@;
                        assert(goal.m[nm] == sv as int + oc as int);
                        assert(!i32_fits(goal.m[nm]));
                    }
                    return None;
                },
            }
            i += 1;
        }
        let olen = other.terms.len();
        let mut j: usize = 0;
        while j < olen
            invariant
                slen == self.terms@.len(),
                olen == other.terms@.len(),
                0 <= j <= olen,
                term_names_unique(self.terms@),
                term_names_unique(other.terms@),
                term_names_unique(out@),
                out@.len() >= slen,
                forall|k: int| 0 <= k < slen ==> out@[k].0@ == self.terms@[k].0@,
                forall|k: int|
                    0 <= k < out@.len() ==> out@[k].1 as int == self@.m[out@[k].0@]
                        + other@.m[out@[k].0@],
                forall|k: int| #![trigger out@[k]]
                    slen <= k < out@.len() ==> exists|t: int|
                        #![trigger other.terms@[t]]
                        0 <= t < j && out@[k].0@ == other.terms@[t].0@,
                forall|k: int, q: int| #![trigger out@[k], self.terms@[q]]
                    slen <= k < out@.len() && 0 <= q < slen ==> self.terms@[q].0@ != out@[k].0@,
                forall|t: int| #![trigger other.terms@[t]]
                    0 <= t < j ==> (exists|q: int|
                        #![trigger self.terms@[q]]
                        0 <= q < slen && self.terms@[q].0@ == other.terms@[t].0@) || (exists|k: int|
                        #![trigger out@[k]]
                        slen <= k < out@.len() && out@[k].0@ == other.terms@[t].0@),
                goal == lin_v_add(self@, other@),
            decreases olen - j,
        {
            match self.index_of_name(&other.terms[j].0) {
                Some(q) => {
                    proof {
                        assert(self.terms@[q as int].0@ == other.terms@[j as int].0@);
                    }
                },
                None => {
                    proof {
                        let nm = other.terms@[j as int].0@;
                        lemma_coeff_absent(self.terms@, nm);
                        lemma_coeff_at(other.terms@, j as int, nm);
                    }
                    let ghost out0 = out@;
                    let nm = other.terms[j].0.clone();
                    let cv = other.terms[j].1;
                    out.push((nm, cv));
                    proof {
                        let l = out@.len() - 1;
                        assert(out@[l].0@ == other.terms@[j as int].0@);
                        assert forall|t: int|
                            #![trigger other.terms@[t]]
                            0 <= t < j as int && !(exists|q: int|
                                #![trigger self.terms@[q]]
                                0 <= q < slen && self.terms@[q].0@
                                    == other.terms@[t].0@) implies exists|k: int|
                            #![trigger out@[k]]
                            slen <= k < out@.len() && out@[k].0@ == other.terms@[t].0@ by {
                            let k = choose|k: int|
                                #![trigger out0[k]]
                                slen <= k < out0.len() && out0[k].0@ == other.terms@[t].0@;
                            assert(out@[k] == out0[k]);
                        }
                    }
                },
            }
            j += 1;
        }
        let result = LinearExpr { c: new_c, terms: out };
        proof {
            assert forall|n: Seq<char>| result@.m[n] == goal.m[n] by {
                assert(result@.m[n] == term_coeff(result.terms@, n));
                if exists|k: int|
                    #![trigger result.terms@[k]]
                    0 <= k < result.terms@.len() && result.terms@[k].0@ == n {
                    let k = choose|k: int|
                        #![trigger result.terms@[k]]
                        0 <= k < result.terms@.len() && result.terms@[k].0@ == n;
                    lemma_coeff_at(result.terms@, k, n);
                } else {
                    assert(forall|k: int|
                        0 <= k < result.terms@.len() ==> #[trigger] result.terms@[k].0@ != n);
                    lemma_coeff_absent(result.terms@, n);
                    if self@.m[n] != 0 {
                        lemma_coeff_nonzero_has_entry(self.terms@, n);
                        let q = choose|q: int|
                            0 <= q < self.terms@.len() && self.terms@[q].0@ == n;
                        assert(result.terms@[q].0@ == n);
                    }
                    if other@.m[n] != 0 {
                        lemma_coeff_nonzero_has_entry(other.terms@, n);
                        let t = choose|t: int|
                            0 <= t < other.terms@.len() && other.terms@[t].0@ == n;
                        assert(other.terms@[t].0@ == n);
                        if exists|q2: int|
                            #![trigger self.terms@[q2]]
                            0 <= q2 < slen && self.terms@[q2].0@ == other.terms@[t].0@ {
                            let q2 = choose|q2: int|
                                #![trigger self.terms@[q2]]
                                0 <= q2 < slen && self.terms@[q2].0@ == other.terms@[t].0@;
                            assert(result.terms@[q2].0@ == n);
                        } else {
                            let k2 = choose|k2: int|
                                #![trigger result.terms@[k2]]
                                slen <= k2 < result.terms@.len() && result.terms@[k2].0@
                                    == other.terms@[t].0@;
                            assert(result.terms@[k2].0@ == n);
                        }
                    }
                }
            }
            assert(result@.m =~= goal.m);
            assert(result@ =~= goal);
            assert forall|n: Seq<char>| i32_fits(goal.m[n]) by {
                lemma_coeff_fits(result.terms@, n);
            }
        }
        Some(result)
    }

    /// The difference of two linear expressions, or `None` when the constant
    /// or some coefficient of the difference leaves the machine-integer range.
    pub fn try_sub(&self, other: &LinearExpr) -> (r: Option<LinearExpr>)
        ensures
            r matches Some(x) ==> x@ == lin_v_sub(self@, other@),
            r is Some <==> lin_v_fits(lin_v_sub(self@, other@)),
    {
        proof {
            use_type_invariant(self);
            use_type_invariant(other);
        }
        let ghost goal = lin_v_sub(self@, other@);
        proof {
            assert(forall|n: Seq<char>| goal.m[n] == self@.m[n] - other@.m[n]);
        }
        let new_c = match self.c.checked_sub(other.c) {
            Some(v) => v,
            None => {
                return None;
            },
        };
        let slen = self.terms.len();
        let mut out: Vec<(String, i32)> = Vec::new();
        let mut i: usize = 0;
        while i < slen
            invariant
                slen == self.terms@.len(),
                0 <= i <= slen,
                term_names_unique(self.terms@),
                term_names_unique(other.terms@),
                out@.len() == i,
                forall|k: int| 0 <= k < i ==> out@[k].0@ == self.terms@[k].0@,
                forall|k: int|
                    0 <= k < i ==> out@[k].1 as int == self@.m[out@[k].0@] - other@.m[out@[k].0@],
                goal == lin_v_sub(self@, other@),
            decreases slen - i,
        {
            let sv = self.terms[i].1;
            let oc = other.coeff(&self.terms[i].0);
            proof {
                lemma_coeff_at(self.terms@, i as int, self.terms@[i as int].0@);
            }
            match sv.checked_sub(oc) {
                Some(v) => {
                    let nm = self.terms[i].0.clone();
                    out.push((nm, v));
                },
                None => {
                    proof {
                        let nm = self.terms@[i as int].0@;
                        assert(goal.m[nm] == sv as int - oc as int);
                        assert(!i32_fits(goal.m[nm]));
                    }
                    return None;
                },
            }
            i += 1;
        }
        let olen = other.terms.len();
        let mut j: usize = 0;
        while j < olen
            invariant
                slen == self.terms@.len(),
                olen == other.terms@.len(),
                0 <= j <= olen,
                term_names_unique(self.terms@),
                term_names_unique(other.terms@),
                term_names_unique(out@),
                out@.len() >= slen,
                forall|k: int| 0 <= k < slen ==> out@[k].0@ == self.terms@[k].0@,
                forall|k: int|
                    0 <= k < out@.len() ==> out@[k].1 as int == self@.m[out@[k].0@]
                        - other@.m[out@[k].0@],
                forall|k: int| #![trigger out@[k]]
                    slen <= k < out@.len() ==> exists|t: int|
                        #![trigger other.terms@[t]]
                        0 <= t < j && out@[k].0@ == other.terms@[t].0@,
                forall|k: int, q: int| #![trigger out@[k], self.terms@[q]]
                    slen <= k < out@.len() && 0 <= q < slen ==> self.terms@[q].0@ != out@[k].0@,
                forall|t: int| #![trigger other.terms@[t]]
                    0 <= t < j ==> (exists|q: int|
                        #![trigger self.terms@[q]]
                        0 <= q < slen && self.terms@[q].0@ == other.terms@[t].0@) || (exists|k: int|
                        #![trigger out@[k]]
                        slen <= k < out@.len() && out@[k].0@ == other.terms@[t].0@),
                goal == lin_v_sub(self@, other@),
            decreases olen - j,
        {
            match self.index_of_name(&other.terms[j].0) {
                Some(q) => {
                    proof {
                        assert(self.terms@[q as int].0@ == other.terms@[j as int].0@);
                    }
                },
                None => {
                    proof {
                        let nm = other.terms@[j as int].0@;
                        lemma_coeff_absent(self.terms@, nm);
                        lemma_coeff_at(other.terms@, j as int, nm);
                    }
                    let zero: i32 = 0;
                    match zero.checked_sub(other.terms[j].1) {
                        Some(v) => {
                            let ghost out0 = out@;
                            let nm = other.terms[j].0.clone();
                            out.push((nm, v));
                            proof {
                                let l = out@.len() - 1;
                                assert(out@[l].0@ == other.terms@[j as int].0@);
                                assert forall|t: int|
                                    #![trigger other.terms@[t]]
                                    0 <= t < j as int && !(exists|q: int|
                                        #![trigger self.terms@[q]]
                                        0 <= q < slen && self.terms@[q].0@
                                            == other.terms@[t].0@) implies exists|k: int|
                                    #![trigger out@[k]]
                                    slen <= k < out@.len() && out@[k].0@ == other.terms@[t].0@ by {
                                    let k = choose|k: int|
                                        #![trigger out0[k]]
                                        slen <= k < out0.len() && out0[k].0@ == other.terms@[t].0@;
                                    assert(out@[k] == out0[k]);
                                }
                            }
                        },
                        None => {
                            proof {
                                let nm = other.terms@[j as int].0@;
                                assert(goal.m[nm] == 0 - other@.m[nm]);
                                assert(!i32_fits(goal.m[nm]));
                            }
                            return None;
                        },
                    }
                },
            }
            j += 1;
        }
        let result = LinearExpr { c: new_c, terms: out };
        proof {
            assert forall|n: Seq<char>| result@.m[n] == goal.m[n] by {
                assert(result@.m[n] == term_coeff(result.terms@, n));
                if exists|k: int|
                    #![trigger result.terms@[k]]
                    0 <= k < result.terms@.len() && result.terms@[k].0@ == n {
                    let k = choose|k: int|
                        #![trigger result.terms@[k]]
                        0 <= k < result.terms@.len() && result.terms@[k].0@ == n;
                    lemma_coeff_at(result.terms@, k, n);
                } else {
                    assert(forall|k: int|
                        0 <= k < result.terms@.len() ==> #[trigger] result.terms@[k].0@ != n);
                    lemma_coeff_absent(result.terms@, n);
                    if self@.m[n] != 0 {
                        lemma_coeff_nonzero_has_entry(self.terms@, n);
                        let q = choose|q: int|
                            0 <= q < self.terms@.len() && self.terms@[q].0@ == n;
                        assert(result.terms@[q].0@ == n);
                    }
                    if other@.m[n] != 0 {
                        lemma_coeff_nonzero_has_entry(other.terms@, n);
                        let t = choose|t: int|
                            0 <= t < other.terms@.len() && other.terms@[t].0@ == n;
                        assert(other.terms@[t].0@ == n);
                        if exists|q2: int|
                            #![trigger self.terms@[q2]]
                            0 <= q2 < slen && self.terms@[q2].0@ == other.terms@[t].0@ {
                            let q2 = choose|q2: int|
                                #![trigger self.terms@[q2]]
                                0 <= q2 < slen && self.terms@[q2].0@ == other.terms@[t].0@;
                            assert(result.terms@[q2].0@ == n);
                        } else {
                            let k2 = choose|k2: int|
                                #![trigger result.terms@[k2]]
                                slen <= k2 < result.terms@.len() && result.terms@[k2].0@
                                    == other.terms@[t].0@;
                            assert(result.terms@[k2].0@ == n);
                        }
                    }
                }
            }
            assert(result@.m =~= goal.m);
            assert(result@ =~= goal);
            assert forall|n: Seq<char>| i32_fits(goal.m[n]) by {
                lemma_coeff_fits(result.terms@, n);
            }
        }
        Some(result)
    }

    /// The expression scaled by the plain integer `k`, or `None` when the
    /// scaled constant or some scaled coefficient leaves the machine range.
    fn try_scale(&self, k: i32) -> (r: Option<LinearExpr>)
        ensures
            r matches Some(x) ==> x@ == lin_v_scale(k as int, self@),
            r is Some <==> lin_v_fits(lin_v_scale(k as int, self@)),
    {
        proof {
            use_type_invariant(self);
        }
        let ghost goal = lin_v_scale(k as int, self@);
        proof {
            assert(forall|n: Seq<char>| goal.m[n] == k as int * self@.m[n]);
        }
        let new_c = match self.c.checked_mul(k) {
            Some(v) => {
                proof {
                    assert(goal.c == self.c as int * k as int) by (nonlinear_arith)
                        requires
                            goal.c == k as int * self@.c,
                            self@.c == self.c as int,
                    ;
                }
                v
            },
            None => {
                proof {
                    assert(goal.c == self.c as int * k as int) by (nonlinear_arith)
                        requires
                            goal.c == k as int * self@.c,
                            self@.c == self.c as int,
                    ;
                }
                return None;
            },
        };
        let slen = self.terms.len();
        let mut out: Vec<(String, i32)> = Vec::new();
        let mut i: usize = 0;
        while i < slen
            invariant
                slen == self.terms@.len(),
                0 <= i <= slen,
                term_names_unique(self.terms@),
                out@.len() == i,
                forall|k2: int| 0 <= k2 < i ==> out@[k2].0@ == self.terms@[k2].0@,
                forall|k2: int|
                    0 <= k2 < i ==> out@[k2].1 as int == k as int * self@.m[out@[k2].0@],
                goal == lin_v_scale(k as int, self@),
            decreases slen - i,
        {
            proof {
                lemma_coeff_at(self.terms@, i as int, self.terms@[i as int].0@);
            }
            match self.terms[i].1.checked_mul(k) {
                Some(v) => {
                    proof {
                        let nm = self.terms@[i as int].0@;
                        assert(v as int == k as int * self@.m[nm]) by (nonlinear_arith)
                            requires
                                v as int == self.terms@[i as int].1 as int * k as int,
                                self@.m[nm] == self.terms@[i as int].1 as int,
                        ;
                    }
                    let nm = self.terms[i].0.clone();
                    out.push((nm, v));
                },
                None => {
                    proof {
                        let nm = self.terms@[i as int].0@;
                        assert(goal.m[nm] == self.terms@[i as int].1 as int * k as int)
                            by (nonlinear_arith)
                            requires
                                goal.m[nm] == k as int * self@.m[nm],
                                self@.m[nm] == self.terms@[i as int].1 as int,
                        ;
                        assert(!i32_fits(goal.m[nm]));
                    }
                    return None;
                },
            }
            i += 1;
        }
        let result = LinearExpr { c: new_c, terms: out };
        proof {
            assert forall|n: Seq<char>| result@.m[n] == goal.m[n] by {
                assert(result@.m[n] == term_coeff(result.terms@, n));
                if exists|k2: int| 0 <= k2 < result.terms@.len() && result.terms@[k2].0@ == n {
                    let k2 = choose|k2: int|
                        0 <= k2 < result.terms@.len() && result.terms@[k2].0@ == n;
                    lemma_coeff_at(result.terms@, k2, n);
                } else {
                    lemma_coeff_absent(result.terms@, n);
                    if self@.m[n] != 0 {
                        lemma_coeff_nonzero_has_entry(self.terms@, n);
                        let q = choose|q: int|
                            0 <= q < self.terms@.len() && self.terms@[q].0@ == n;
                        assert(result.terms@[q].0@ == n);
                    }
                    assert(self@.m[n] == 0);
                    assert(goal.m[n] == k as int * 0) by (nonlinear_arith)
                        requires
                            goal.m[n] == k as int * self@.m[n],
                            self@.m[n] == 0,
                    ;
                }
            }
            assert(result@.m =~= goal.m);
            assert(result@ =~= goal);
            assert forall|n: Seq<char>| i32_fits(goal.m[n]) by {
                lemma_coeff_fits(result.terms@, n);
            }
        }
        Some(result)
    }

    /// The product of two linear expressions.  At least one side must be a
    /// plain integer: multiplying two symbolic expressions would leave the
    /// linear fragment, and yields `None`.  `None` also reports a constant or
    /// coefficient of the product leaving the machine range.
    pub fn try_mul(&self, other: &LinearExpr) -> (r: Option<LinearExpr>)
        ensures
            lin_v_is_const(other@) ==> {
                &&& (r matches Some(x) ==> x@ == lin_v_scale(other@.c, self@))
                &&& (r is Some <==> lin_v_fits(lin_v_scale(other@.c, self@)))
            },
            !lin_v_is_const(other@) && lin_v_is_const(self@) ==> {
                &&& (r matches Some(x) ==> x@ == lin_v_scale(self@.c, other@))
                &&& (r is Some <==> lin_v_fits(lin_v_scale(self@.c, other@)))
            },
            !lin_v_is_const(other@) && !lin_v_is_const(self@) ==> r is None,
    {
        if other.is_const() {
            self.try_scale(other.constant())
        } else if self.is_const() {
            other.try_scale(self.constant())
        } else {
            None
        }
    }
}

spec fn render_terms(s: Seq<(String, i32)>, i: int) -> Seq<char>
    decreases s.len() - i,
{
    if i < 0 || i >= s.len() {
        Seq::empty()
    } else if i == s.len() - 1 {
        crate::concrete::dec_int(s[i].1 as int) + s[i].0@
    } else {
        crate::concrete::dec_int(s[i].1 as int) + s[i].0@ + (" + ")@ + render_terms(s, i + 1)
    }
}

impl LinearExpr {
    /// The rendering of the expression: a plain integer spells as a decimal,
    /// and a symbolic expression as its coefficient-name terms joined by
    /// plus signs, with the constant last when it is not zero.
    pub closed spec fn render_spec(&self) -> Seq<char> {
        if self.terms@.len() == 0 {
            crate::concrete::dec_int(self.c as int)
        } else if self.c == 0 {
            render_terms(self.terms@, 0)
        } else {
            render_terms(self.terms@, 0) + (" + ")@ + crate::concrete::dec_int(self.c as int)
        }
    }

    /// Renders the expression.
    pub fn render(&self) -> (r: String)
        ensures
            r@ == self.render_spec(),
    {
        if self.terms.len() == 0 {
            crate::concrete::int_to_string(self.c)
        } else {
            let mut s = self.render_terms_from(0);
            if self.c != 0 {
                s.append(" + ");
                s.append(crate::concrete::int_to_string(self.c).as_str());
            }
            s
        }
    }

    fn render_terms_from(&self, i: usize) -> (r: String)
        requires
            i < self.terms@.len(),
        ensures
            r@ == render_terms(self.terms@, i as int),
        decreases self.terms@.len() - i,
    {
        let mut s = crate::concrete::int_to_string(self.terms[i].1);
        s.append(self.terms[i].0.as_str());
        if i < self.terms.len() - 1 {
            s.append(" + ");
            s.append(self.render_terms_from(i + 1).as_str());
        }
        s
    }
}

impl Clone for LinearExpr {
    /// Cloning keeps the value: the copy has the same ghost form.
    fn clone(&self) -> (r: Self)
        ensures
            r@ == self@,
    {
        proof {
            use_type_invariant(self);
        }
        let slen = self.terms.len();
        let mut out: Vec<(String, i32)> = Vec::new();
        let mut i: usize = 0;
        while i < slen
            invariant
                slen == self.terms@.len(),
                0 <= i <= slen,
                out@.len() == i,
                forall|k: int| 0 <= k < i ==> out@[k] == self.terms@[k],
            decreases slen - i,
        {
            let nm = self.terms[i].0.clone();
            let cv = self.terms[i].1;
            out.push((nm, cv));
            i += 1;
        }
        let r = LinearExpr { c: self.c, terms: out };
        proof {
            assert(r.terms@ =~= self.terms@);
            assert(r@.m =~= self@.m);
            assert(r@ =~= self@);
        }
        r
    }
}

impl PartialEq for LinearExpr {
    /// Two linear expressions are equal when they have the same constant and
    /// give every symbol the same coefficient.
    fn eq(&self, other: &Self) -> (r: bool) {
        proof {
            use_type_invariant(self);
            use_type_invariant(other);
        }
        if self.c != other.c {
            return false;
        }
        let slen = self.terms.len();
        let mut i: usize = 0;
        while i < slen
            invariant
                slen == self.terms@.len(),
                0 <= i <= slen,
                term_names_unique(self.terms@),
                forall|k: int|
                    0 <= k < i ==> self@.m[self.terms@[k].0@] == other@.m[self.terms@[k].0@],
            decreases slen - i,
        {
            proof {
                lemma_coeff_at(self.terms@, i as int, self.terms@[i as int].0@);
            }
            if self.terms[i].1 != other.coeff(&self.terms[i].0) {
                proof {
                    let nm = self.terms@[i as int].0@;
                    assert(self@.m[nm] != other@.m[nm]);
                }
                return false;
            }
            i += 1;
        }
        let olen = other.terms.len();
        let mut j: usize = 0;
        while j < olen
            invariant
                olen == other.terms@.len(),
                0 <= j <= olen,
                term_names_unique(other.terms@),
                forall|k: int|
                    0 <= k < self.terms@.len() ==> self@.m[self.terms@[k].0@]
                        == other@.m[self.terms@[k].0@],
                forall|k: int|
                    0 <= k < j ==> self@.m[other.terms@[k].0@] == other@.m[other.terms@[k].0@],
            decreases olen - j,
        {
            proof {
                lemma_coeff_at(other.terms@, j as int, other.terms@[j as int].0@);
            }
            if other.terms[j].1 != self.coeff(&other.terms[j].0) {
                proof {
                    let nm = other.terms@[j as int].0@;
                    assert(self@.m[nm] != other@.m[nm]);
                }
                return false;
            }
            j += 1;
        }
        proof {
            assert forall|n: Seq<char>| self@.m[n] == other@.m[n] by {
                if self@.m[n] != 0 {
                    lemma_coeff_nonzero_has_entry(self.terms@, n);
                } else if other@.m[n] != 0 {
                    lemma_coeff_nonzero_has_entry(other.terms@, n);
                }
            }
            assert(self@.m =~= other@.m);
            assert(self@ =~= other@);
        }
        true
    }
}

impl vstd::std_specs::cmp::PartialEqSpecImpl for LinearExpr {
    open spec fn obeys_eq_spec() -> bool {
        true
    }

    open spec fn eq_spec(&self, other: &Self) -> bool {
        self@ == other@
    }
}

impl From<i32> for LinearExpr {
    /// The expression that is the plain integer `item`.
    fn from(item: i32) -> Self {
        LinearExpr::from_const(item)
    }
}

impl From<String> for LinearExpr {
    /// The expression that is the symbol `item` with coefficient one.
    fn from(item: String) -> Self {
        LinearExpr::from_symbol(item)
    }
}

impl vstd::std_specs::convert::FromSpecImpl<i32> for LinearExpr {
    open spec fn obeys_from_spec() -> bool {
        false
    }

    open spec fn from_spec(v: i32) -> Self {
        arbitrary()
    }
}

impl vstd::std_specs::convert::FromSpecImpl<String> for LinearExpr {
    open spec fn obeys_from_spec() -> bool {
        false
    }

    open spec fn from_spec(v: String) -> Self {
        arbitrary()
    }
}

} // verus!
