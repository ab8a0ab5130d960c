use crate::abstraction::{
    abs_interp, mix_le_v, mix_res_view, mixed_le, spec_abs_eval, try_abstract, try_alpha_v, MixV,
    StrValAbs,
};
use crate::concrete::{
    arg_name, arg_name_exec, lemma_arg_name_injective, EvalError, StrVal, ValV,
};
use crate::environment::{
    env_distinct, env_lookup, lemma_lookup_absent, lemma_lookup_insert, lemma_lookup_present,
    Environment,
};
use crate::interpreter::EvalResult;
use crate::strlenlat::{lat_v_sub, LatV, StrLenLat};
use crate::syguslang::{
    rc_dup, rc_get, spec_expr_has_hole, spec_expr_size, spec_func_has_hole, spec_func_size, sat32,
    Expr, Func, Term,
};
use crate::values::MixedValue;
use itertools::Itertools;
use std::collections::HashMap;
use std::rc::Rc;
use vstd::prelude::*;

verus! {

broadcast use vstd::std_specs::hash::group_hash_axioms;

/// A shared partial program over search values.
pub type TermA = Term<StrValAbs, StrLenLat>;

/// What every entry of the concretize cache satisfies: under key `sz` stand
/// only hole-free expressions of size exactly `sz` whose abstract evaluation
/// against the search environment succeeds.
pub open spec fn cache_entry_wf(s: Seq<TermA>, sz: u32, env: Seq<(String, StrValAbs)>) -> bool {
    forall|i: int|
        0 <= i < s.len() ==> {
            &&& !spec_expr_has_hole(*#[trigger] s[i])
            &&& spec_expr_size(*s[i]) == sz
            &&& spec_abs_eval(*s[i], env) is Ok
        }
}

/// The whole cache is coherent with the search environment.
pub open spec fn cache_wf(m: Map<u32, Vec<TermA>>, env: Seq<(String, StrValAbs)>) -> bool {
    forall|sz: u32| #[trigger] m.contains_key(sz) ==> cache_entry_wf(m[sz]@, sz, env)
}

/// One map keeps every entry of another: the concretize cache only grows,
/// and an entry, once computed, never changes.
pub open spec fn cache_preserved(m0: Map<u32, Vec<TermA>>, m1: Map<u32, Vec<TermA>>) -> bool {
    forall|sz: u32| #[trigger] m0.contains_key(sz) ==> m1.contains_key(sz) && m1[sz] == m0[sz]
}

/// Whether the list holds a term denoting exactly the expression `e`.
pub open spec fn contains_expr(s: Seq<TermA>, e: Expr<StrValAbs, StrLenLat>) -> bool {
    exists|k: int| 0 <= k < s.len() && *#[trigger] s[k] == e
}

/// A term contained in a list is contained in any extension of it.
proof fn lemma_contains_expr_extend(s0: Seq<TermA>, s1: Seq<TermA>, e: Expr<StrValAbs, StrLenLat>)
    requires
        contains_expr(s0, e),
        s1.len() >= s0.len(),
        forall|k: int| 0 <= k < s0.len() ==> s1[k] == s0[k],
    ensures
        contains_expr(s1, e),
{
    let k = choose|k: int| 0 <= k < s0.len() && *#[trigger] s0[k] == e;
    assert(*s1[k] == e);
}

/// Preservation of table entries composes.
proof fn lemma_cache_preserved_trans(
    m0: Map<u32, Vec<TermA>>,
    m1: Map<u32, Vec<TermA>>,
    m2: Map<u32, Vec<TermA>>,
)
    requires
        cache_preserved(m0, m1),
        cache_preserved(m1, m2),
    ensures
        cache_preserved(m0, m2),
{
    assert forall|sz: u32| #[trigger] m0.contains_key(sz) implies m2.contains_key(sz) && m2[sz]
        == m0[sz] by {
        assert(m1.contains_key(sz));
    }
}

/// Duplicates a list of shared terms; the copies are the same values.
fn clone_terms(src: &Vec<TermA>) -> (r: Vec<TermA>)
    ensures
        r@ == src@,
{
    let n = src.len();
    let mut out: Vec<TermA> = Vec::new();
    let mut i: usize = 0;
    while i < n
        invariant
            n == src@.len(),
            0 <= i <= n,
            out@.len() == i,
            forall|k: int| 0 <= k < i ==> out@[k] == src@[k],
        decreases n - i,
    {
        out.push(rc_dup(&src[i]));
        i += 1;
    }
    proof {
        assert(out@ =~= src@);
    }
    out
}

/// Relies on itertools' cartesian_product: the result pairs each element of
/// the first list with each of the second exactly once, in row-major order;
/// elements are duplicated shared handles, so the very same values.
#[verifier::external_body]
fn all_pairs(xs: &Vec<TermA>, ys: &Vec<TermA>) -> (r: Vec<(TermA, TermA)>)
    ensures
        r@.len() == xs@.len() * ys@.len(),
        forall|k: int| #![trigger r@[k]]
            0 <= k < r@.len() ==> xs@.contains(r@[k].0) && ys@.contains(r@[k].1),
        forall|i: int, j: int|
            0 <= i < xs@.len() && 0 <= j < ys@.len() ==> #[trigger] r@[i * ys@.len() + j] == (
            xs@[i],
            ys@[j],
            ),
{
    xs.iter().cloned().cartesian_product(ys.iter().cloned()).collect()
}

/// The per-call search state: the memoized table of fully concrete
/// expressions by size, and the hard size bound of the search.
pub struct Context {
    conc_exprs: HashMap<u32, Vec<TermA>>,
    max_size: u32,
}

impl Context {
    /// The memoized table, as a ghost map.
    pub closed spec fn cache_view(&self) -> Map<u32, Vec<TermA>> {
        self.conc_exprs@
    }

    /// The size bound of the search.
    pub closed spec fn max_size_spec(&self) -> u32 {
        self.max_size
    }

    /// Whether the table is coherent with the search environment.
    pub open spec fn wf(&self, env: Seq<(String, StrValAbs)>) -> bool {
        cache_wf(self.cache_view(), env)
    }

    /// A fresh search context: the size-zero entry of the table holds one
    /// constant expression per given literal and one variable expression per
    /// name bound in the environment, no other size is populated, and the
    /// size bound is ten.  The environment is a mapping, so no name may be
    /// bound twice.
    pub fn new(consts: &Vec<StrVal>, env: &Environment<StrValAbs>) -> (r: Context)
        requires
            env_distinct(env@),
        ensures
            r.wf(env@),
            r.max_size_spec() == 10,
            r.cache_view().dom() =~= set![0u32],
            r.cache_view().contains_key(0),
            r.cache_view()[0]@.len() == consts@.len() + env@.len(),
            forall|i: int|
                0 <= i < consts@.len() ==> ((*#[trigger] r.cache_view()[0]@[i]) matches Expr::Const(
                    v,
                ) && v@ == MixV::Conc(consts@[i]@)),
            forall|i: int|
                consts@.len() <= i < consts@.len() + env@.len() ==> ((*#[trigger] r.cache_view()[0]@[i]) matches Expr::Var(x)
                    && x@ == env@[i - consts@.len()].0@),
    {
        let n = consts.len();
        let mut exprs0: Vec<TermA> = Vec::new();
        let mut i: usize = 0;
        while i < n
            invariant
                n == consts@.len(),
                0 <= i <= n,
                exprs0@.len() == i,
                forall|k: int|
                    0 <= k < i ==> ((*#[trigger] exprs0@[k]) matches Expr::Const(v) && v@
                        == MixV::Conc(consts@[k]@)),
            decreases n - i,
        {
            let v: StrValAbs = MixedValue::from_concrete(consts[i].clone());
            exprs0.push(Rc::new(Expr::Const(v)));
            i += 1;
        }
        let ks = env.keys();
        let m = ks.len();
        let mut j: usize = 0;
        while j < m
            invariant
                n == consts@.len(),
                m == ks@.len(),
                ks@.len() == env@.len(),
                forall|k: int| 0 <= k < ks@.len() ==> #[trigger] ks@[k]@ == env@[k].0@,
                0 <= j <= m,
                exprs0@.len() == n + j,
                forall|k: int|
                    0 <= k < n ==> ((*#[trigger] exprs0@[k]) matches Expr::Const(v) && v@
                        == MixV::Conc(consts@[k]@)),
                forall|k: int|
                    n <= k < n + j ==> ((*#[trigger] exprs0@[k]) matches Expr::Var(x) && x@ == env@[k
                        - n].0@),
            decreases m - j,
        {
            exprs0.push(Rc::new(Expr::Var(ks[j].clone())));
            j += 1;
        }
        let ghost e0 = exprs0@;
        let mut table: HashMap<u32, Vec<TermA>> = HashMap::new();
        table.insert(0, exprs0);
        let r = Context { conc_exprs: table, max_size: 10 };
        proof {
            assert(r.cache_view() =~= Map::<u32, Vec<TermA>>::empty().insert(0, exprs0));
            assert(r.cache_view().dom() =~= set![0u32]);
            assert(r.cache_view()[0]@ == e0);
            assert forall|i2: int| 0 <= i2 < e0.len() implies {
                &&& !spec_expr_has_hole(*#[trigger] e0[i2])
                &&& spec_expr_size(*e0[i2]) == 0
                &&& spec_abs_eval(*e0[i2], env@) is Ok
            } by {
                if i2 >= n {
                    let x = (*e0[i2])->Var_0;
                    assert(x@ == env@[i2 - n as int].0@);
                    lemma_lookup_present(env@, x@);
                }
            }
            assert forall|sz: u32| #[trigger] r.cache_view().contains_key(sz) implies cache_entry_wf(
                r.cache_view()[sz]@,
                sz,
                env@,
            ) by {
                assert(sz == 0);
            }
        }
        r
    }
}

// ---------------------------------------------------------------------------
// Concretization: all hole-free expressions of a given size
// ---------------------------------------------------------------------------

/// The two-argument function shapes enumeration ranges over.
pub enum BinOp {
    Append,
    Add,
    Sub,
    At,
    PrefixOf,
    SuffixOf,
    Contains,
}

/// The one-argument function shapes enumeration ranges over.
pub enum UnOp {
    Len,
    ToStr,
    ToInt,
}

/// The three-argument function shapes enumeration ranges over.
pub enum TriOp {
    Replace,
    Substr,
    IndexOf,
}

pub open spec fn mk_bin_spec(tag: BinOp, a: TermA, b: TermA) -> Func<StrValAbs, StrLenLat> {
    match tag {
        BinOp::Append => Func::Append(a, b),
        BinOp::Add => Func::Add(a, b),
        BinOp::Sub => Func::Sub(a, b),
        BinOp::At => Func::At(a, b),
        BinOp::PrefixOf => Func::PrefixOf(a, b),
        BinOp::SuffixOf => Func::SuffixOf(a, b),
        BinOp::Contains => Func::Contains(a, b),
    }
}

pub open spec fn mk_tri_spec(tag: TriOp, a: TermA, b: TermA, c: TermA) -> Func<StrValAbs, StrLenLat> {
    match tag {
        TriOp::Replace => Func::Replace(a, b, c),
        TriOp::Substr => Func::Substr(a, b, c),
        TriOp::IndexOf => Func::IndexOf(a, b, c),
    }
}

fn mk_bin(tag: &BinOp, a: TermA, b: TermA) -> (r: Func<StrValAbs, StrLenLat>)
    ensures
        r == mk_bin_spec(*tag, a, b),
{
    match tag {
        BinOp::Append => Func::Append(a, b),
        BinOp::Add => Func::Add(a, b),
        BinOp::Sub => Func::Sub(a, b),
        BinOp::At => Func::At(a, b),
        BinOp::PrefixOf => Func::PrefixOf(a, b),
        BinOp::SuffixOf => Func::SuffixOf(a, b),
        BinOp::Contains => Func::Contains(a, b),
    }
}

fn mk_tri(tag: &TriOp, a: TermA, b: TermA, c: TermA) -> (r: Func<StrValAbs, StrLenLat>)
    ensures
        r == mk_tri_spec(*tag, a, b, c),
{
    match tag {
        TriOp::Replace => Func::Replace(a, b, c),
        TriOp::Substr => Func::Substr(a, b, c),
        TriOp::IndexOf => Func::IndexOf(a, b, c),
    }
}

/// Appends `e`, wrapped as a shared term, exactly when its abstract
/// evaluation against the environment succeeds; drops it otherwise.
fn push_checked(
    out: &mut Vec<TermA>,
    e: Expr<StrValAbs, StrLenLat>,
    env: &Environment<StrValAbs>,
)
    ensures
        forall|k: int| 0 <= k < old(out)@.len() ==> final(out)@[k] == old(out)@[k],
        spec_abs_eval(e, env@) is Ok ==> final(out)@.len() == old(out)@.len() + 1
            && *final(out)@[old(out)@.len() as int] == e,
        !(spec_abs_eval(e, env@) is Ok) ==> final(out)@ == old(out)@,
        contains_expr(old(out)@, e) || spec_abs_eval(e, env@) is Ok ==> contains_expr(
            final(out)@,
            e,
        ),
{
    let ghost pre = out@;
    match abs_interp(&e, env) {
        Ok(_) => {
            out.push(Rc::new(e));
        },
        Err(_) => {},
    }
    proof {
        if contains_expr(pre, e) {
            lemma_contains_expr_extend(pre, out@, e);
        }
    }
}

/// The duty one two-argument combination of cached sub-results puts on an
/// enumeration list: when both sub-entries stand in the table and the
/// combined call evaluates abstractly, the list holds that call.
pub open spec fn bin_combo_in(
    m: Map<u32, Vec<TermA>>,
    size: u32,
    tag: BinOp,
    a: u32,
    i: int,
    j: int,
    s: Seq<TermA>,
    env: Seq<(String, StrValAbs)>,
) -> bool {
    (a + 2 <= size && m.contains_key(a) && m.contains_key((size - 2 - a) as u32) && 0 <= i
        < m[a]@.len() && 0 <= j < m[(size - 2 - a) as u32]@.len() && spec_abs_eval(
        Expr::Call(mk_bin_spec(tag, m[a]@[i], m[(size - 2 - a) as u32]@[j])),
        env,
    ) is Ok) ==> contains_expr(
        s,
        Expr::Call(mk_bin_spec(tag, m[a]@[i], m[(size - 2 - a) as u32]@[j])),
    )
}

/// The enumeration of a two-argument shape misses no combination.
pub open spec fn bin_complete(
    m: Map<u32, Vec<TermA>>,
    size: u32,
    tag: BinOp,
    s: Seq<TermA>,
    env: Seq<(String, StrValAbs)>,
) -> bool {
    forall|a: u32, i: int, j: int| #[trigger] bin_combo_in(m, size, tag, a, i, j, s, env)
}

/// As `bin_combo_in`, for a three-argument shape.
pub open spec fn tri_combo_in(
    m: Map<u32, Vec<TermA>>,
    size: u32,
    tag: TriOp,
    a: u32,
    b: u32,
    i: int,
    j: int,
    w: int,
    s: Seq<TermA>,
    env: Seq<(String, StrValAbs)>,
) -> bool {
    (a + b + 3 <= size && m.contains_key(a) && m.contains_key(b) && m.contains_key(
        (size - 3 - a - b) as u32,
    ) && 0 <= i < m[a]@.len() && 0 <= j < m[b]@.len() && 0 <= w < m[(size - 3 - a
        - b) as u32]@.len() && spec_abs_eval(
        Expr::Call(mk_tri_spec(tag, m[a]@[i], m[b]@[j], m[(size - 3 - a - b) as u32]@[w])),
        env,
    ) is Ok) ==> contains_expr(
        s,
        Expr::Call(mk_tri_spec(tag, m[a]@[i], m[b]@[j], m[(size - 3 - a - b) as u32]@[w])),
    )
}

/// The enumeration of a three-argument shape misses no combination.
pub open spec fn tri_complete(
    m: Map<u32, Vec<TermA>>,
    size: u32,
    tag: TriOp,
    s: Seq<TermA>,
    env: Seq<(String, StrValAbs)>,
) -> bool {
    forall|a: u32, b: u32, i: int, j: int, w: int| #[trigger] tri_combo_in(
        m,
        size,
        tag,
        a,
        b,
        i,
        j,
        w,
        s,
        env,
    )
}

/// As `bin_combo_in`, for a one-argument shape.
pub open spec fn un_combo_in(
    m: Map<u32, Vec<TermA>>,
    size: u32,
    tag: UnOp,
    i: int,
    s: Seq<TermA>,
    env: Seq<(String, StrValAbs)>,
) -> bool {
    (size >= 1 && m.contains_key((size - 1) as u32) && 0 <= i < m[(size - 1) as u32]@.len()
        && spec_abs_eval(Expr::Call(mk_un_spec(tag, m[(size - 1) as u32]@[i])), env) is Ok)
        ==> contains_expr(s, Expr::Call(mk_un_spec(tag, m[(size - 1) as u32]@[i])))
}

/// The enumeration of a one-argument shape misses no combination.
pub open spec fn un_complete(
    m: Map<u32, Vec<TermA>>,
    size: u32,
    tag: UnOp,
    s: Seq<TermA>,
    env: Seq<(String, StrValAbs)>,
) -> bool {
    forall|i: int| #[trigger] un_combo_in(m, size, tag, i, s, env)
}

/// What a freshly computed table entry owes the enumeration: every
/// combination of cached sub-results, under every call shape of the language,
/// whose sizes sum to the entry's size and whose abstract evaluation
/// succeeds, is present.
pub open spec fn enumeration_complete(
    m: Map<u32, Vec<TermA>>,
    size: u32,
    s: Seq<TermA>,
    env: Seq<(String, StrValAbs)>,
) -> bool {
    &&& (size >= 2 ==> bin_complete(m, size, BinOp::Append, s, env) && bin_complete(
        m,
        size,
        BinOp::Add,
        s,
        env,
    ) && bin_complete(m, size, BinOp::Sub, s, env) && bin_complete(m, size, BinOp::At, s, env)
        && bin_complete(m, size, BinOp::PrefixOf, s, env) && bin_complete(
        m,
        size,
        BinOp::SuffixOf,
        s,
        env,
    ) && bin_complete(m, size, BinOp::Contains, s, env))
    &&& (size >= 3 ==> tri_complete(m, size, TriOp::Replace, s, env) && tri_complete(
        m,
        size,
        TriOp::Substr,
        s,
        env,
    ) && tri_complete(m, size, TriOp::IndexOf, s, env))
    &&& (size >= 1 ==> un_complete(m, size, UnOp::Len, s, env) && un_complete(
        m,
        size,
        UnOp::ToStr,
        s,
        env,
    ) && un_complete(m, size, UnOp::ToInt, s, env))
}

/// One map keeps every entry of another below a bound.
pub open spec fn preserved_below(m0: Map<u32, Vec<TermA>>, m1: Map<u32, Vec<TermA>>, size: u32) -> bool {
    forall|k2: u32|
        k2 < size && #[trigger] m0.contains_key(k2) ==> m1.contains_key(k2) && m1[k2] == m0[k2]
}

proof fn lemma_preserved_below_from_insert(
    m0: Map<u32, Vec<TermA>>,
    pre: Map<u32, Vec<TermA>>,
    m1: Map<u32, Vec<TermA>>,
    size: u32,
)
    requires
        cache_preserved(m0, pre),
        forall|k2: u32| k2 != size ==> #[trigger] pre.contains_key(k2) == m1.contains_key(k2),
        forall|k2: u32| k2 != size && #[trigger] pre.contains_key(k2) ==> m1[k2] == pre[k2],
    ensures
        preserved_below(m0, m1, size),
{
    assert forall|k2: u32| k2 < size && #[trigger] m0.contains_key(k2) implies m1.contains_key(k2)
        && m1[k2] == m0[k2] by {
        assert(pre.contains_key(k2));
    }
}

/// Completeness survives growing the table elsewhere and growing the list:
/// preserved entries below the size keep the same combinations, and a list
/// extension keeps every contained call.
proof fn lemma_bin_complete_lift(
    m1: Map<u32, Vec<TermA>>,
    m2: Map<u32, Vec<TermA>>,
    size: u32,
    tag: BinOp,
    s1: Seq<TermA>,
    s2: Seq<TermA>,
    env: Seq<(String, StrValAbs)>,
)
    requires
        bin_complete(m1, size, tag, s1, env),
        preserved_below(m1, m2, size),
        forall|a2: u32| a2 + 2 <= size ==> #[trigger] m1.contains_key(a2),
        forall|e: Expr<StrValAbs, StrLenLat>| #[trigger] contains_expr(s1, e) ==> contains_expr(
            s2,
            e,
        ),
    ensures
        bin_complete(m2, size, tag, s2, env),
{
    assert forall|a: u32, i: int, j: int| #[trigger] bin_combo_in(
        m2,
        size,
        tag,
        a,
        i,
        j,
        s2,
        env,
    ) by {
        if a + 2 <= size {
            assert(m1.contains_key(a));
            assert(m1.contains_key((size - 2 - a) as u32));
            assert(m2[a] == m1[a]);
            assert(m2[(size - 2 - a) as u32] == m1[(size - 2 - a) as u32]);
            assert(bin_combo_in(m1, size, tag, a, i, j, s1, env));
        }
    }
}

proof fn lemma_tri_complete_lift(
    m1: Map<u32, Vec<TermA>>,
    m2: Map<u32, Vec<TermA>>,
    size: u32,
    tag: TriOp,
    s1: Seq<TermA>,
    s2: Seq<TermA>,
    env: Seq<(String, StrValAbs)>,
)
    requires
        tri_complete(m1, size, tag, s1, env),
        preserved_below(m1, m2, size),
        forall|k: u32| k + 3 <= size ==> #[trigger] m1.contains_key(k),
        forall|e: Expr<StrValAbs, StrLenLat>| #[trigger] contains_expr(s1, e) ==> contains_expr(
            s2,
            e,
        ),
    ensures
        tri_complete(m2, size, tag, s2, env),
{
    assert forall|a: u32, b: u32, i: int, j: int, w: int| #[trigger] tri_combo_in(
        m2,
        size,
        tag,
        a,
        b,
        i,
        j,
        w,
        s2,
        env,
    ) by {
        if a + b + 3 <= size {
            assert(m1.contains_key(a));
            assert(m1.contains_key(b));
            assert(m1.contains_key((size - 3 - a - b) as u32));
            assert(m2[a] == m1[a]);
            assert(m2[b] == m1[b]);
            assert(m2[(size - 3 - a - b) as u32] == m1[(size - 3 - a - b) as u32]);
            assert(tri_combo_in(m1, size, tag, a, b, i, j, w, s1, env));
        }
    }
}

proof fn lemma_un_complete_lift(
    m1: Map<u32, Vec<TermA>>,
    m2: Map<u32, Vec<TermA>>,
    size: u32,
    tag: UnOp,
    s1: Seq<TermA>,
    s2: Seq<TermA>,
    env: Seq<(String, StrValAbs)>,
)
    requires
        un_complete(m1, size, tag, s1, env),
        preserved_below(m1, m2, size),
        size >= 1 ==> m1.contains_key((size - 1) as u32),
        forall|e: Expr<StrValAbs, StrLenLat>| #[trigger] contains_expr(s1, e) ==> contains_expr(
            s2,
            e,
        ),
    ensures
        un_complete(m2, size, tag, s2, env),
{
    assert forall|i: int| #[trigger] un_combo_in(m2, size, tag, i, s2, env) by {
        if size >= 1 {
            assert(m1.contains_key((size - 1) as u32));
            assert(m2[(size - 1) as u32] == m1[(size - 1) as u32]);
            assert(un_combo_in(m1, size, tag, i, s1, env));
        }
    }
}

/// A combination duty met by a list is met by any extension of it.
proof fn lemma_bin_combo_push(
    m: Map<u32, Vec<TermA>>,
    size: u32,
    tag: BinOp,
    a: u32,
    i: int,
    j: int,
    s0: Seq<TermA>,
    s1: Seq<TermA>,
    env: Seq<(String, StrValAbs)>,
)
    requires
        bin_combo_in(m, size, tag, a, i, j, s0, env),
        s1.len() >= s0.len(),
        forall|k: int| 0 <= k < s0.len() ==> s1[k] == s0[k],
    ensures
        bin_combo_in(m, size, tag, a, i, j, s1, env),
{
    if a + 2 <= size && m.contains_key(a) && m.contains_key((size - 2 - a) as u32) && 0 <= i
        < m[a]@.len() && 0 <= j < m[(size - 2 - a) as u32]@.len() && spec_abs_eval(
        Expr::Call(mk_bin_spec(tag, m[a]@[i], m[(size - 2 - a) as u32]@[j])),
        env,
    ) is Ok {
        lemma_contains_expr_extend(
            s0,
            s1,
            Expr::Call(mk_bin_spec(tag, m[a]@[i], m[(size - 2 - a) as u32]@[j])),
        );
    }
}

proof fn lemma_un_combo_push(
    m: Map<u32, Vec<TermA>>,
    size: u32,
    tag: UnOp,
    i: int,
    s0: Seq<TermA>,
    s1: Seq<TermA>,
    env: Seq<(String, StrValAbs)>,
)
    requires
        un_combo_in(m, size, tag, i, s0, env),
        s1.len() >= s0.len(),
        forall|k: int| 0 <= k < s0.len() ==> s1[k] == s0[k],
    ensures
        un_combo_in(m, size, tag, i, s1, env),
{
    if size >= 1 && m.contains_key((size - 1) as u32) && 0 <= i < m[(size - 1) as u32]@.len()
        && spec_abs_eval(Expr::Call(mk_un_spec(tag, m[(size - 1) as u32]@[i])), env) is Ok {
        lemma_contains_expr_extend(
            s0,
            s1,
            Expr::Call(mk_un_spec(tag, m[(size - 1) as u32]@[i])),
        );
    }
}

proof fn lemma_tri_combo_push(
    m: Map<u32, Vec<TermA>>,
    size: u32,
    tag: TriOp,
    a: u32,
    b: u32,
    i: int,
    j: int,
    w: int,
    s0: Seq<TermA>,
    s1: Seq<TermA>,
    env: Seq<(String, StrValAbs)>,
)
    requires
        tri_combo_in(m, size, tag, a, b, i, j, w, s0, env),
        s1.len() >= s0.len(),
        forall|k: int| 0 <= k < s0.len() ==> s1[k] == s0[k],
    ensures
        tri_combo_in(m, size, tag, a, b, i, j, w, s1, env),
{
    if a + b + 3 <= size && m.contains_key(a) && m.contains_key(b) && m.contains_key(
        (size - 3 - a - b) as u32,
    ) && 0 <= i < m[a]@.len() && 0 <= j < m[b]@.len() && 0 <= w < m[(size - 3 - a
        - b) as u32]@.len() && spec_abs_eval(
        Expr::Call(mk_tri_spec(tag, m[a]@[i], m[b]@[j], m[(size - 3 - a - b) as u32]@[w])),
        env,
    ) is Ok {
        lemma_contains_expr_extend(
            s0,
            s1,
            Expr::Call(mk_tri_spec(tag, m[a]@[i], m[b]@[j], m[(size - 3 - a - b) as u32]@[w])),
        );
    }
}

/// A combination duty met against one table is met against a grown table
/// whose relevant entries are preserved.
proof fn lemma_bin_combo_cachegrow(
    m0: Map<u32, Vec<TermA>>,
    m1: Map<u32, Vec<TermA>>,
    size: u32,
    tag: BinOp,
    a: u32,
    i: int,
    j: int,
    s: Seq<TermA>,
    env: Seq<(String, StrValAbs)>,
)
    requires
        bin_combo_in(m0, size, tag, a, i, j, s, env),
        cache_preserved(m0, m1),
        a + 2 <= size ==> m0.contains_key(a) && m0.contains_key((size - 2 - a) as u32),
    ensures
        bin_combo_in(m1, size, tag, a, i, j, s, env),
{
    if a + 2 <= size {
        assert(m1[a] == m0[a]);
        assert(m1[(size - 2 - a) as u32] == m0[(size - 2 - a) as u32]);
    }
}

fn concretize_bin(
    env: &Environment<StrValAbs>,
    size: u32,
    cache: &mut HashMap<u32, Vec<TermA>>,
    tag: &BinOp,
) -> (r: Vec<TermA>)
    requires
        size >= 2,
        cache_wf(old(cache)@, env@),
    ensures
        cache_wf(final(cache)@, env@),
        cache_preserved(old(cache)@, final(cache)@),
        cache_entry_wf(r@, size, env@),
        forall|a2: u32| a2 + 2 <= size ==> #[trigger] final(cache)@.contains_key(a2),
        bin_complete(final(cache)@, size, *tag, r@, env@),
    decreases size, 0int,
{
    let mut out: Vec<TermA> = Vec::new();
    let mut a: u32 = 0;
    while a <= size - 2
        invariant
            size >= 2,
            0 <= a <= size - 1,
            cache_wf(cache@, env@),
            cache_preserved(old(cache)@, cache@),
            cache_entry_wf(out@, size, env@),
            forall|a2: u32| #![trigger cache@.contains_key(a2)]
                a2 < a ==> cache@.contains_key(a2),
            forall|a2: u32| #![trigger cache@.contains_key((size - 2 - a2) as u32)]
                a2 < a ==> cache@.contains_key((size - 2 - a2) as u32),
            forall|a2: u32, i2: int, j2: int|
                a2 < a ==> #[trigger] bin_combo_in(cache@, size, *tag, a2, i2, j2, out@, env@),
        decreases size - a,
    {
        let b = size - 2 - a;
        let ghost m0 = cache@;
        proof {
            assert(forall|a2: u32| #![trigger m0.contains_key(a2)]
                a2 < a ==> m0.contains_key(a2));
            assert(forall|a2: u32| #![trigger m0.contains_key((size - 2 - a2) as u32)]
                a2 < a ==> m0.contains_key((size - 2 - a2) as u32));
            assert(forall|a2: u32, i2: int, j2: int|
                a2 < a ==> #[trigger] bin_combo_in(m0, size, *tag, a2, i2, j2, out@, env@));
        }
        let va = concretize(env, a, cache);
        let ghost m1 = cache@;
        let vb = concretize(env, b, cache);
        proof {
            lemma_cache_preserved_trans(old(cache)@, m0, m1);
            lemma_cache_preserved_trans(old(cache)@, m1, cache@);
            lemma_cache_preserved_trans(m0, m1, cache@);
            assert(va@ == cache@[a]@);
            assert(vb@ == cache@[b]@);
            assert forall|a2: u32| #![trigger cache@.contains_key(a2)]
                a2 < a implies cache@.contains_key(a2) by {
                assert(m0.contains_key(a2));
            }
            assert forall|a2: u32| #![trigger cache@.contains_key((size - 2 - a2) as u32)]
                a2 < a implies cache@.contains_key((size - 2 - a2) as u32) by {
                assert(m0.contains_key((size - 2 - a2) as u32));
            }
            assert forall|a2: u32, i2: int, j2: int| a2 < a implies #[trigger] bin_combo_in(
                cache@,
                size,
                *tag,
                a2,
                i2,
                j2,
                out@,
                env@,
            ) by {
                assert(bin_combo_in(m0, size, *tag, a2, i2, j2, out@, env@));
                if a2 + 2 <= size {
                    assert(a2 < a);
                    assert(m0.contains_key(a2));
                    assert(m0.contains_key((size - 2 - a2) as u32));
                }
                lemma_bin_combo_cachegrow(m0, cache@, size, *tag, a2, i2, j2, out@, env@);
            }
        }
        let na = va.len();
        let mut i: usize = 0;
        while i < na
            invariant
                size >= 2,
                a + b + 2 == size,
                a <= size - 2,
                na == va@.len(),
                0 <= i <= na,
                cache_wf(cache@, env@),
                cache_preserved(old(cache)@, cache@),
                cache@.contains_key(a),
                cache@.contains_key(b),
                va@ == cache@[a]@,
                vb@ == cache@[b]@,
                cache_entry_wf(va@, a, env@),
                cache_entry_wf(vb@, b, env@),
                cache_entry_wf(out@, size, env@),
                forall|a2: u32| #![trigger cache@.contains_key(a2)]
                    a2 < a ==> cache@.contains_key(a2),
                forall|a2: u32| #![trigger cache@.contains_key((size - 2 - a2) as u32)]
                    a2 < a ==> cache@.contains_key((size - 2 - a2) as u32),
                forall|a2: u32, i2: int, j2: int|
                    a2 < a ==> #[trigger] bin_combo_in(cache@, size, *tag, a2, i2, j2, out@, env@),
                forall|i2: int, j2: int|
                    0 <= i2 < i ==> #[trigger] bin_combo_in(
                        cache@,
                        size,
                        *tag,
                        a,
                        i2,
                        j2,
                        out@,
                        env@,
                    ),
            decreases na - i,
        {
            let nb2 = vb.len();
            let mut j: usize = 0;
            while j < nb2
                invariant
                    size >= 2,
                    a + b + 2 == size,
                    a <= size - 2,
                    na == va@.len(),
                    nb2 == vb@.len(),
                    0 <= i < na,
                    0 <= j <= nb2,
                    cache_wf(cache@, env@),
                    cache_preserved(old(cache)@, cache@),
                    cache@.contains_key(a),
                    cache@.contains_key(b),
                    va@ == cache@[a]@,
                    vb@ == cache@[b]@,
                    cache_entry_wf(va@, a, env@),
                    cache_entry_wf(vb@, b, env@),
                    cache_entry_wf(out@, size, env@),
                    forall|a2: u32| #![trigger cache@.contains_key(a2)]
                        a2 < a ==> cache@.contains_key(a2),
                    forall|a2: u32| #![trigger cache@.contains_key((size - 2 - a2) as u32)]
                        a2 < a ==> cache@.contains_key((size - 2 - a2) as u32),
                    forall|a2: u32, i2: int, j2: int|
                        a2 < a ==> #[trigger] bin_combo_in(
                            cache@,
                            size,
                            *tag,
                            a2,
                            i2,
                            j2,
                            out@,
                            env@,
                        ),
                    forall|i2: int, j2: int|
                        0 <= i2 < i ==> #[trigger] bin_combo_in(
                            cache@,
                            size,
                            *tag,
                            a,
                            i2,
                            j2,
                            out@,
                            env@,
                        ),
                    forall|j2: int|
                        0 <= j2 < j ==> #[trigger] bin_combo_in(
                            cache@,
                            size,
                            *tag,
                            a,
                            i as int,
                            j2,
                            out@,
                            env@,
                        ),
                decreases nb2 - j,
            {
                let x = rc_dup(&va[i]);
                let y = rc_dup(&vb[j]);
                let ghost out0 = out@;
                proof {
                    assert(x == va@[i as int]);
                    assert(y == vb@[j as int]);
                    assert(!spec_expr_has_hole(*x) && spec_expr_size(*x) == a);
                    assert(!spec_expr_has_hole(*y) && spec_expr_size(*y) == b);
                }
                let e = Expr::Call(mk_bin(tag, x, y));
                let ghost eg = e;
                proof {
                    reveal_with_fuel(spec_expr_has_hole, 2);
                    reveal_with_fuel(spec_func_has_hole, 2);
                    reveal_with_fuel(spec_expr_size, 2);
                    reveal_with_fuel(spec_func_size, 2);
                    match *tag {
                        BinOp::Append => {
                            assert(eg == Expr::<StrValAbs, StrLenLat>::Call(Func::Append(x, y)));
                        },
                        BinOp::Add => {
                            assert(eg == Expr::<StrValAbs, StrLenLat>::Call(Func::Add(x, y)));
                        },
                        BinOp::Sub => {
                            assert(eg == Expr::<StrValAbs, StrLenLat>::Call(Func::Sub(x, y)));
                        },
                        BinOp::At => {
                            assert(eg == Expr::<StrValAbs, StrLenLat>::Call(Func::At(x, y)));
                        },
                        BinOp::PrefixOf => {
                            assert(eg == Expr::<StrValAbs, StrLenLat>::Call(Func::PrefixOf(x, y)));
                        },
                        BinOp::SuffixOf => {
                            assert(eg == Expr::<StrValAbs, StrLenLat>::Call(Func::SuffixOf(x, y)));
                        },
                        BinOp::Contains => {
                            assert(eg == Expr::<StrValAbs, StrLenLat>::Call(Func::Contains(x, y)));
                        },
                    }
                    assert(!spec_expr_has_hole(eg));
                    assert(spec_expr_size(eg) == size);
                }
                push_checked(&mut out, e, env);
                proof {
                    assert forall|t: int| 0 <= t < out@.len() implies {
                        &&& !spec_expr_has_hole(*#[trigger] out@[t])
                        &&& spec_expr_size(*out@[t]) == size
                        &&& spec_abs_eval(*out@[t], env@) is Ok
                    } by {
                        if t < out0.len() {
                            assert(out@[t] == out0[t]);
                        } else {
                            assert(*out@[t] == eg);
                        }
                    }
                    assert(b == (size - 2 - a) as u32);
                    assert(eg == Expr::Call(
                        mk_bin_spec(*tag, cache@[a]@[i as int], cache@[(size - 2 - a) as u32]@[
                            j as int]),
                    ));
                    assert(bin_combo_in(cache@, size, *tag, a, i as int, j as int, out@, env@));
                    assert forall|a2: u32, i2: int, j2: int| a2 < a implies #[trigger] bin_combo_in(
                        cache@,
                        size,
                        *tag,
                        a2,
                        i2,
                        j2,
                        out@,
                        env@,
                    ) by {
                        assert(bin_combo_in(cache@, size, *tag, a2, i2, j2, out0, env@));
                        lemma_bin_combo_push(cache@, size, *tag, a2, i2, j2, out0, out@, env@);
                    }
                    assert forall|i2: int, j2: int| 0 <= i2 < i implies #[trigger] bin_combo_in(
                        cache@,
                        size,
                        *tag,
                        a,
                        i2,
                        j2,
                        out@,
                        env@,
                    ) by {
                        assert(bin_combo_in(cache@, size, *tag, a, i2, j2, out0, env@));
                        lemma_bin_combo_push(cache@, size, *tag, a, i2, j2, out0, out@, env@);
                    }
                    assert forall|j2: int| 0 <= j2 < j + 1 implies #[trigger] bin_combo_in(
                        cache@,
                        size,
                        *tag,
                        a,
                        i as int,
                        j2,
                        out@,
                        env@,
                    ) by {
                        if j2 < j {
                            assert(bin_combo_in(cache@, size, *tag, a, i as int, j2, out0, env@));
                            lemma_bin_combo_push(
                                cache@,
                                size,
                                *tag,
                                a,
                                i as int,
                                j2,
                                out0,
                                out@,
                                env@,
                            );
                        }
                    }
                }
                j += 1;
            }
            proof {
                assert forall|i2: int, j2: int| 0 <= i2 < i + 1 implies #[trigger] bin_combo_in(
                    cache@,
                    size,
                    *tag,
                    a,
                    i2,
                    j2,
                    out@,
                    env@,
                ) by {
                    if i2 == i as int {
                        if 0 <= j2 < vb@.len() {
                            assert(bin_combo_in(cache@, size, *tag, a, i as int, j2, out@, env@));
                        } else {
                            assert(bin_combo_in(cache@, size, *tag, a, i2, j2, out@, env@));
                        }
                    }
                }
            }
            i += 1;
        }
        proof {
            assert forall|i2: int, j2: int| #[trigger] bin_combo_in(
                cache@,
                size,
                *tag,
                a,
                i2,
                j2,
                out@,
                env@,
            ) by {
                if !(0 <= i2 < va@.len()) {
                    assert(bin_combo_in(cache@, size, *tag, a, i2, j2, out@, env@));
                }
            }
            assert forall|a2: u32| #![trigger cache@.contains_key(a2)]
                a2 < a + 1 implies cache@.contains_key(a2) by {
                if a2 == a {
                    assert(cache@.contains_key(a));
                }
            }
            assert forall|a2: u32| #![trigger cache@.contains_key((size - 2 - a2) as u32)]
                a2 < a + 1 implies cache@.contains_key((size - 2 - a2) as u32) by {
                if a2 == a {
                    assert(b == (size - 2 - a) as u32);
                    assert(cache@.contains_key(b));
                }
            }
            assert forall|a2: u32, i2: int, j2: int|
                a2 < a + 1 implies #[trigger] bin_combo_in(
                cache@,
                size,
                *tag,
                a2,
                i2,
                j2,
                out@,
                env@,
            ) by {
                if a2 == a {
                    assert(bin_combo_in(cache@, size, *tag, a, i2, j2, out@, env@));
                }
            }
        }
        a += 1;
    }
    proof {
        assert forall|a2: u32, i2: int, j2: int| #[trigger] bin_combo_in(
            cache@,
            size,
            *tag,
            a2,
            i2,
            j2,
            out@,
            env@,
        ) by {
            if a2 + 2 <= size {
                assert(a2 < a);
            }
        }
    }
    out
}

fn concretize_tri(
    env: &Environment<StrValAbs>,
    size: u32,
    cache: &mut HashMap<u32, Vec<TermA>>,
    tag: &TriOp,
) -> (r: Vec<TermA>)
    requires
        size >= 3,
        cache_wf(old(cache)@, env@),
    ensures
        cache_wf(final(cache)@, env@),
        cache_preserved(old(cache)@, final(cache)@),
        cache_entry_wf(r@, size, env@),
        forall|k2: u32| k2 + 3 <= size ==> #[trigger] final(cache)@.contains_key(k2),
        tri_complete(final(cache)@, size, *tag, r@, env@),
    decreases size, 0int,
{
    let mut out: Vec<TermA> = Vec::new();
    let mut a: u32 = 0;
    while a <= size - 3
        invariant
            size >= 3,
            0 <= a <= size - 2,
            cache_wf(cache@, env@),
            cache_preserved(old(cache)@, cache@),
            cache_entry_wf(out@, size, env@),
            forall|k2: u32| #![trigger cache@.contains_key(k2)]
                a > 0 && k2 + 3 <= size ==> cache@.contains_key(k2),
            forall|a2: u32, b2: u32, i2: int, j2: int, w2: int|
                a2 < a ==> #[trigger] tri_combo_in(
                    cache@,
                    size,
                    *tag,
                    a2,
                    b2,
                    i2,
                    j2,
                    w2,
                    out@,
                    env@,
                ),
        decreases size - a,
    {
        let mut b: u32 = 0;
        while b <= size - 3 - a
            invariant
                size >= 3,
                0 <= a <= size - 3,
                0 <= b <= size - 2 - a,
                cache_wf(cache@, env@),
                cache_preserved(old(cache)@, cache@),
                cache_entry_wf(out@, size, env@),
                forall|k2: u32| #![trigger cache@.contains_key(k2)]
                    a > 0 && k2 + 3 <= size ==> cache@.contains_key(k2),
                b > 0 ==> cache@.contains_key(a),
                forall|b2: u32| #![trigger cache@.contains_key(b2)]
                    b2 < b ==> cache@.contains_key(b2),
                forall|b2: u32| #![trigger cache@.contains_key((size - 3 - a - b2) as u32)]
                    b2 < b ==> cache@.contains_key((size - 3 - a - b2) as u32),
                forall|a2: u32, b2: u32, i2: int, j2: int, w2: int|
                    a2 < a ==> #[trigger] tri_combo_in(
                        cache@,
                        size,
                        *tag,
                        a2,
                        b2,
                        i2,
                        j2,
                        w2,
                        out@,
                        env@,
                    ),
                forall|b2: u32, i2: int, j2: int, w2: int|
                    b2 < b ==> #[trigger] tri_combo_in(
                        cache@,
                        size,
                        *tag,
                        a,
                        b2,
                        i2,
                        j2,
                        w2,
                        out@,
                        env@,
                    ),
            decreases size - a - b,
        {
            let c = size - 3 - a - b;
            let ghost m0 = cache@;
            proof {
                assert(forall|k2: u32| #![trigger m0.contains_key(k2)]
                    a > 0 && k2 + 3 <= size ==> m0.contains_key(k2));
                assert(b > 0 ==> m0.contains_key(a));
                assert(forall|b2: u32| #![trigger m0.contains_key(b2)]
                    b2 < b ==> m0.contains_key(b2));
                assert(forall|b2: u32| #![trigger m0.contains_key((size - 3 - a - b2) as u32)]
                    b2 < b ==> m0.contains_key((size - 3 - a - b2) as u32));
                assert(forall|a2: u32, b2: u32, i2: int, j2: int, w2: int|
                    a2 < a ==> #[trigger] tri_combo_in(
                        m0,
                        size,
                        *tag,
                        a2,
                        b2,
                        i2,
                        j2,
                        w2,
                        out@,
                        env@,
                    ));
                assert(forall|b2: u32, i2: int, j2: int, w2: int|
                    b2 < b ==> #[trigger] tri_combo_in(
                        m0,
                        size,
                        *tag,
                        a,
                        b2,
                        i2,
                        j2,
                        w2,
                        out@,
                        env@,
                    ));
            }
            let va = concretize(env, a, cache);
            let ghost m1 = cache@;
            let vb = concretize(env, b, cache);
            let ghost m2 = cache@;
            let vc = concretize(env, c, cache);
            proof {
                lemma_cache_preserved_trans(old(cache)@, m0, m1);
                lemma_cache_preserved_trans(old(cache)@, m1, m2);
                lemma_cache_preserved_trans(old(cache)@, m2, cache@);
                lemma_cache_preserved_trans(m0, m1, m2);
                lemma_cache_preserved_trans(m0, m2, cache@);
                assert(va@ == cache@[a]@);
                assert(vb@ == cache@[b]@);
                assert(vc@ == cache@[c]@);
                assert forall|k2: u32| #![trigger cache@.contains_key(k2)]
                    a > 0 && k2 + 3 <= size implies cache@.contains_key(k2) by {
                    assert(m0.contains_key(k2));
                }
                assert forall|b2: u32| #![trigger cache@.contains_key(b2)]
                    b2 < b implies cache@.contains_key(b2) by {
                    assert(m0.contains_key(b2));
                }
                assert forall|b2: u32| #![trigger cache@.contains_key((size - 3 - a - b2) as u32)]
                    b2 < b implies cache@.contains_key((size - 3 - a - b2) as u32) by {
                    assert(m0.contains_key((size - 3 - a - b2) as u32));
                }
                assert forall|a2: u32, b2: u32, i2: int, j2: int, w2: int|
                    a2 < a implies #[trigger] tri_combo_in(
                    cache@,
                    size,
                    *tag,
                    a2,
                    b2,
                    i2,
                    j2,
                    w2,
                    out@,
                    env@,
                ) by {
                    assert(tri_combo_in(m0, size, *tag, a2, b2, i2, j2, w2, out@, env@));
                    if a2 + b2 + 3 <= size {
                        assert(m0.contains_key(a2));
                        assert(m0.contains_key(b2));
                        assert(m0.contains_key((size - 3 - a2 - b2) as u32));
                        assert(cache@[a2] == m0[a2]);
                        assert(cache@[b2] == m0[b2]);
                        assert(cache@[(size - 3 - a2 - b2) as u32] == m0[(size - 3 - a2
                            - b2) as u32]);
                    }
                }
                assert forall|b2: u32, i2: int, j2: int, w2: int|
                    b2 < b implies #[trigger] tri_combo_in(
                    cache@,
                    size,
                    *tag,
                    a,
                    b2,
                    i2,
                    j2,
                    w2,
                    out@,
                    env@,
                ) by {
                    assert(tri_combo_in(m0, size, *tag, a, b2, i2, j2, w2, out@, env@));
                    if a + b2 + 3 <= size {
                        assert(m0.contains_key(a));
                        assert(m0.contains_key(b2));
                        assert(m0.contains_key((size - 3 - a - b2) as u32));
                        assert(cache@[a] == m0[a]);
                        assert(cache@[b2] == m0[b2]);
                        assert(cache@[(size - 3 - a - b2) as u32] == m0[(size - 3 - a
                            - b2) as u32]);
                    }
                }
            }
            let na = va.len();
            let mut i: usize = 0;
            while i < na
                invariant
                    size >= 3,
                    a + b + c + 3 == size,
                    a <= size - 3,
                    b <= size - 3 - a,
                    na == va@.len(),
                    0 <= i <= na,
                    cache_wf(cache@, env@),
                    cache@.contains_key(a),
                    cache@.contains_key(b),
                    cache@.contains_key(c),
                    va@ == cache@[a]@,
                    vb@ == cache@[b]@,
                    vc@ == cache@[c]@,
                    cache_entry_wf(va@, a, env@),
                    cache_entry_wf(vb@, b, env@),
                    cache_entry_wf(vc@, c, env@),
                    cache_entry_wf(out@, size, env@),
                    forall|a2: u32, b2: u32, i2: int, j2: int, w2: int|
                        a2 < a ==> #[trigger] tri_combo_in(
                            cache@,
                            size,
                            *tag,
                            a2,
                            b2,
                            i2,
                            j2,
                            w2,
                            out@,
                            env@,
                        ),
                    forall|b2: u32, i2: int, j2: int, w2: int|
                        b2 < b ==> #[trigger] tri_combo_in(
                            cache@,
                            size,
                            *tag,
                            a,
                            b2,
                            i2,
                            j2,
                            w2,
                            out@,
                            env@,
                        ),
                    forall|i2: int, j2: int, w2: int|
                        0 <= i2 < i ==> #[trigger] tri_combo_in(
                            cache@,
                            size,
                            *tag,
                            a,
                            b,
                            i2,
                            j2,
                            w2,
                            out@,
                            env@,
                        ),
                decreases na - i,
            {
                let nb2 = vb.len();
                let mut j: usize = 0;
                while j < nb2
                    invariant
                        size >= 3,
                        a + b + c + 3 == size,
                        a <= size - 3,
                        b <= size - 3 - a,
                        na == va@.len(),
                        nb2 == vb@.len(),
                        0 <= i < na,
                        0 <= j <= nb2,
                        cache_wf(cache@, env@),
                        cache@.contains_key(a),
                        cache@.contains_key(b),
                        cache@.contains_key(c),
                        va@ == cache@[a]@,
                        vb@ == cache@[b]@,
                        vc@ == cache@[c]@,
                        cache_entry_wf(va@, a, env@),
                        cache_entry_wf(vb@, b, env@),
                        cache_entry_wf(vc@, c, env@),
                        cache_entry_wf(out@, size, env@),
                        forall|a2: u32, b2: u32, i2: int, j2: int, w2: int|
                            a2 < a ==> #[trigger] tri_combo_in(
                                cache@,
                                size,
                                *tag,
                                a2,
                                b2,
                                i2,
                                j2,
                                w2,
                                out@,
                                env@,
                            ),
                        forall|b2: u32, i2: int, j2: int, w2: int|
                            b2 < b ==> #[trigger] tri_combo_in(
                                cache@,
                                size,
                                *tag,
                                a,
                                b2,
                                i2,
                                j2,
                                w2,
                                out@,
                                env@,
                            ),
                        forall|i2: int, j2: int, w2: int|
                            0 <= i2 < i ==> #[trigger] tri_combo_in(
                                cache@,
                                size,
                                *tag,
                                a,
                                b,
                                i2,
                                j2,
                                w2,
                                out@,
                                env@,
                            ),
                        forall|j2: int, w2: int|
                            0 <= j2 < j ==> #[trigger] tri_combo_in(
                                cache@,
                                size,
                                *tag,
                                a,
                                b,
                                i as int,
                                j2,
                                w2,
                                out@,
                                env@,
                            ),
                    decreases nb2 - j,
                {
                    let nc2 = vc.len();
                    let mut w: usize = 0;
                    while w < nc2
                        invariant
                            size >= 3,
                            a + b + c + 3 == size,
                            a <= size - 3,
                            b <= size - 3 - a,
                            na == va@.len(),
                            nb2 == vb@.len(),
                            nc2 == vc@.len(),
                            0 <= i < na,
                            0 <= j < nb2,
                            0 <= w <= nc2,
                            cache_wf(cache@, env@),
                            cache@.contains_key(a),
                            cache@.contains_key(b),
                            cache@.contains_key(c),
                            va@ == cache@[a]@,
                            vb@ == cache@[b]@,
                            vc@ == cache@[c]@,
                            cache_entry_wf(va@, a, env@),
                            cache_entry_wf(vb@, b, env@),
                            cache_entry_wf(vc@, c, env@),
                            cache_entry_wf(out@, size, env@),
                            forall|a2: u32, b2: u32, i2: int, j2: int, w2: int|
                                a2 < a ==> #[trigger] tri_combo_in(
                                    cache@,
                                    size,
                                    *tag,
                                    a2,
                                    b2,
                                    i2,
                                    j2,
                                    w2,
                                    out@,
                                    env@,
                                ),
                            forall|b2: u32, i2: int, j2: int, w2: int|
                                b2 < b ==> #[trigger] tri_combo_in(
                                    cache@,
                                    size,
                                    *tag,
                                    a,
                                    b2,
                                    i2,
                                    j2,
                                    w2,
                                    out@,
                                    env@,
                                ),
                            forall|i2: int, j2: int, w2: int|
                                0 <= i2 < i ==> #[trigger] tri_combo_in(
                                    cache@,
                                    size,
                                    *tag,
                                    a,
                                    b,
                                    i2,
                                    j2,
                                    w2,
                                    out@,
                                    env@,
                                ),
                            forall|j2: int, w2: int|
                                0 <= j2 < j ==> #[trigger] tri_combo_in(
                                    cache@,
                                    size,
                                    *tag,
                                    a,
                                    b,
                                    i as int,
                                    j2,
                                    w2,
                                    out@,
                                    env@,
                                ),
                            forall|w2: int|
                                0 <= w2 < w ==> #[trigger] tri_combo_in(
                                    cache@,
                                    size,
                                    *tag,
                                    a,
                                    b,
                                    i as int,
                                    j as int,
                                    w2,
                                    out@,
                                    env@,
                                ),
                        decreases nc2 - w,
                    {
                        let x = rc_dup(&va[i]);
                        let y = rc_dup(&vb[j]);
                        let z = rc_dup(&vc[w]);
                        let ghost out0 = out@;
                        proof {
                            assert(x == va@[i as int]);
                            assert(y == vb@[j as int]);
                            assert(z == vc@[w as int]);
                            assert(!spec_expr_has_hole(*x) && spec_expr_size(*x) == a);
                            assert(!spec_expr_has_hole(*y) && spec_expr_size(*y) == b);
                            assert(!spec_expr_has_hole(*z) && spec_expr_size(*z) == c);
                        }
                        let e = Expr::Call(mk_tri(tag, x, y, z));
                        let ghost eg = e;
                        proof {
                            reveal_with_fuel(spec_expr_has_hole, 2);
                            reveal_with_fuel(spec_func_has_hole, 2);
                            reveal_with_fuel(spec_expr_size, 2);
                            reveal_with_fuel(spec_func_size, 2);
                            match *tag {
                                TriOp::Replace => {
                                    assert(eg == Expr::<StrValAbs, StrLenLat>::Call(
                                        Func::Replace(x, y, z),
                                    ));
                                },
                                TriOp::Substr => {
                                    assert(eg == Expr::<StrValAbs, StrLenLat>::Call(
                                        Func::Substr(x, y, z),
                                    ));
                                },
                                TriOp::IndexOf => {
                                    assert(eg == Expr::<StrValAbs, StrLenLat>::Call(
                                        Func::IndexOf(x, y, z),
                                    ));
                                },
                            }
                            assert(!spec_expr_has_hole(eg));
                            assert(spec_expr_size(eg) == size);
                        }
                        push_checked(&mut out, e, env);
                        proof {
                            assert forall|t: int| 0 <= t < out@.len() implies {
                                &&& !spec_expr_has_hole(*#[trigger] out@[t])
                                &&& spec_expr_size(*out@[t]) == size
                                &&& spec_abs_eval(*out@[t], env@) is Ok
                            } by {
                                if t < out0.len() {
                                    assert(out@[t] == out0[t]);
                                } else {
                                    assert(*out@[t] == eg);
                                }
                            }
                            assert(c == (size - 3 - a - b) as u32);
                            assert(eg == Expr::Call(
                                mk_tri_spec(*tag, cache@[a]@[i as int], cache@[b]@[j as int],
                                    cache@[(size - 3 - a - b) as u32]@[w as int]),
                            ));
                            assert(tri_combo_in(
                                cache@,
                                size,
                                *tag,
                                a,
                                b,
                                i as int,
                                j as int,
                                w as int,
                                out@,
                                env@,
                            ));
                            assert forall|a2: u32, b2: u32, i2: int, j2: int, w2: int|
                                a2 < a implies #[trigger] tri_combo_in(
                                cache@,
                                size,
                                *tag,
                                a2,
                                b2,
                                i2,
                                j2,
                                w2,
                                out@,
                                env@,
                            ) by {
                                assert(tri_combo_in(
                                    cache@,
                                    size,
                                    *tag,
                                    a2,
                                    b2,
                                    i2,
                                    j2,
                                    w2,
                                    out0,
                                    env@,
                                ));
                                lemma_tri_combo_push(
                                    cache@,
                                    size,
                                    *tag,
                                    a2,
                                    b2,
                                    i2,
                                    j2,
                                    w2,
                                    out0,
                                    out@,
                                    env@,
                                );
                            }
                            assert forall|b2: u32, i2: int, j2: int, w2: int|
                                b2 < b implies #[trigger] tri_combo_in(
                                cache@,
                                size,
                                *tag,
                                a,
                                b2,
                                i2,
                                j2,
                                w2,
                                out@,
                                env@,
                            ) by {
                                assert(tri_combo_in(cache@, size, *tag, a, b2, i2, j2, w2, out0, env@));
                                lemma_tri_combo_push(
                                    cache@,
                                    size,
                                    *tag,
                                    a,
                                    b2,
                                    i2,
                                    j2,
                                    w2,
                                    out0,
                                    out@,
                                    env@,
                                );
                            }
                            assert forall|i2: int, j2: int, w2: int|
                                0 <= i2 < i implies #[trigger] tri_combo_in(
                                cache@,
                                size,
                                *tag,
                                a,
                                b,
                                i2,
                                j2,
                                w2,
                                out@,
                                env@,
                            ) by {
                                assert(tri_combo_in(cache@, size, *tag, a, b, i2, j2, w2, out0, env@));
                                lemma_tri_combo_push(
                                    cache@,
                                    size,
                                    *tag,
                                    a,
                                    b,
                                    i2,
                                    j2,
                                    w2,
                                    out0,
                                    out@,
                                    env@,
                                );
                            }
                            assert forall|j2: int, w2: int|
                                0 <= j2 < j implies #[trigger] tri_combo_in(
                                cache@,
                                size,
                                *tag,
                                a,
                                b,
                                i as int,
                                j2,
                                w2,
                                out@,
                                env@,
                            ) by {
                                assert(tri_combo_in(
                                    cache@,
                                    size,
                                    *tag,
                                    a,
                                    b,
                                    i as int,
                                    j2,
                                    w2,
                                    out0,
                                    env@,
                                ));
                                lemma_tri_combo_push(
                                    cache@,
                                    size,
                                    *tag,
                                    a,
                                    b,
                                    i as int,
                                    j2,
                                    w2,
                                    out0,
                                    out@,
                                    env@,
                                );
                            }
                            assert forall|w2: int|
                                0 <= w2 < w + 1 implies #[trigger] tri_combo_in(
                                cache@,
                                size,
                                *tag,
                                a,
                                b,
                                i as int,
                                j as int,
                                w2,
                                out@,
                                env@,
                            ) by {
                                if w2 < w {
                                    assert(tri_combo_in(
                                        cache@,
                                        size,
                                        *tag,
                                        a,
                                        b,
                                        i as int,
                                        j as int,
                                        w2,
                                        out0,
                                        env@,
                                    ));
                                    lemma_tri_combo_push(
                                        cache@,
                                        size,
                                        *tag,
                                        a,
                                        b,
                                        i as int,
                                        j as int,
                                        w2,
                                        out0,
                                        out@,
                                        env@,
                                    );
                                }
                            }
                        }
                        w += 1;
                    }
                    proof {
                        assert forall|j2: int, w2: int|
                            0 <= j2 < j + 1 implies #[trigger] tri_combo_in(
                            cache@,
                            size,
                            *tag,
                            a,
                            b,
                            i as int,
                            j2,
                            w2,
                            out@,
                            env@,
                        ) by {
                            if j2 == j as int {
                                if !(0 <= w2 < vc@.len()) {
                                    assert(tri_combo_in(
                                        cache@,
                                        size,
                                        *tag,
                                        a,
                                        b,
                                        i as int,
                                        j2,
                                        w2,
                                        out@,
                                        env@,
                                    ));
                                }
                            }
                        }
                    }
                    j += 1;
                }
                proof {
                    assert forall|i2: int, j2: int, w2: int|
                        0 <= i2 < i + 1 implies #[trigger] tri_combo_in(
                        cache@,
                        size,
                        *tag,
                        a,
                        b,
                        i2,
                        j2,
                        w2,
                        out@,
                        env@,
                    ) by {
                        if i2 == i as int {
                            if !(0 <= j2 < vb@.len()) {
                                assert(tri_combo_in(
                                    cache@,
                                    size,
                                    *tag,
                                    a,
                                    b,
                                    i2,
                                    j2,
                                    w2,
                                    out@,
                                    env@,
                                ));
                            }
                        }
                    }
                }
                i += 1;
            }
            proof {
                assert forall|b2: u32, i2: int, j2: int, w2: int|
                    b2 < b + 1 implies #[trigger] tri_combo_in(
                    cache@,
                    size,
                    *tag,
                    a,
                    b2,
                    i2,
                    j2,
                    w2,
                    out@,
                    env@,
                ) by {
                    if b2 == b {
                        if !(0 <= i2 < va@.len()) {
                            assert(tri_combo_in(cache@, size, *tag, a, b, i2, j2, w2, out@, env@));
                        }
                    }
                }
                assert forall|b2: u32| #![trigger cache@.contains_key(b2)]
                    b2 < b + 1 implies cache@.contains_key(b2) by {
                    if b2 == b {
                        assert(cache@.contains_key(b));
                    }
                }
                assert forall|b2: u32| #![trigger cache@.contains_key((size - 3 - a - b2) as u32)]
                    b2 < b + 1 implies cache@.contains_key((size - 3 - a - b2) as u32) by {
                    if b2 == b {
                        assert(c == (size - 3 - a - b) as u32);
                        assert(cache@.contains_key(c));
                    }
                }
            }
            b += 1;
        }
        proof {
            assert forall|a2: u32, b2: u32, i2: int, j2: int, w2: int|
                a2 < a + 1 implies #[trigger] tri_combo_in(
                cache@,
                size,
                *tag,
                a2,
                b2,
                i2,
                j2,
                w2,
                out@,
                env@,
            ) by {
                if a2 == a {
                    if b2 < (size - 2 - a) as u32 {
                        assert(tri_combo_in(cache@, size, *tag, a, b2, i2, j2, w2, out@, env@));
                    } else {
                        assert(!(a2 + b2 + 3 <= size));
                        assert(tri_combo_in(cache@, size, *tag, a2, b2, i2, j2, w2, out@, env@));
                    }
                }
            }
            assert forall|k2: u32| #![trigger cache@.contains_key(k2)]
                a + 1 > 0 && k2 + 3 <= size implies cache@.contains_key(k2) by {
                if a == 0 {
                    assert(k2 < (size - 2 - a) as u32);
                    assert(cache@.contains_key(k2));
                }
            }
        }
        a += 1;
    }
    proof {
        assert forall|a2: u32, b2: u32, i2: int, j2: int, w2: int| #[trigger] tri_combo_in(
            cache@,
            size,
            *tag,
            a2,
            b2,
            i2,
            j2,
            w2,
            out@,
            env@,
        ) by {
            if a2 + b2 + 3 <= size {
                assert(a2 < a);
            } else {
                assert(tri_combo_in(cache@, size, *tag, a2, b2, i2, j2, w2, out@, env@));
            }
        }
    }
    out
}

pub open spec fn mk_un_spec(tag: UnOp, a: TermA) -> Func<StrValAbs, StrLenLat> {
    match tag {
        UnOp::Len => Func::Len(a),
        UnOp::ToStr => Func::ToStr(a),
        UnOp::ToInt => Func::ToInt(a),
    }
}

fn mk_un(tag: &UnOp, a: TermA) -> (r: Func<StrValAbs, StrLenLat>)
    ensures
        r == mk_un_spec(*tag, a),
{
    match tag {
        UnOp::Len => Func::Len(a),
        UnOp::ToStr => Func::ToStr(a),
        UnOp::ToInt => Func::ToInt(a),
    }
}

fn concretize_un(
    env: &Environment<StrValAbs>,
    size: u32,
    cache: &mut HashMap<u32, Vec<TermA>>,
    tag: &UnOp,
) -> (r: Vec<TermA>)
    requires
        size >= 1,
        cache_wf(old(cache)@, env@),
    ensures
        cache_wf(final(cache)@, env@),
        cache_preserved(old(cache)@, final(cache)@),
        cache_entry_wf(r@, size, env@),
        final(cache)@.contains_key((size - 1) as u32),
        un_complete(final(cache)@, size, *tag, r@, env@),
    decreases size, 0int,
{
    let mut out: Vec<TermA> = Vec::new();
    let va = concretize(env, size - 1, cache);
    let n = va.len();
    proof {
        assert(cache_preserved(old(cache)@, cache@));
        assert(va@ == cache@[(size - 1) as u32]@);
    }
    let mut k: usize = 0;
    while k < n
        invariant
            size >= 1,
            n == va@.len(),
            0 <= k <= n,
            cache_wf(cache@, env@),
            cache_preserved(old(cache)@, cache@),
            cache@.contains_key((size - 1) as u32),
            va@ == cache@[(size - 1) as u32]@,
            cache_entry_wf(va@, (size - 1) as u32, env@),
            cache_entry_wf(out@, size, env@),
            forall|i2: int|
                0 <= i2 < k ==> #[trigger] un_combo_in(cache@, size, *tag, i2, out@, env@),
        decreases n - k,
    {
        let x = rc_dup(&va[k]);
        let ghost out0 = out@;
        proof {
            assert(x == va@[k as int]);
            assert(!spec_expr_has_hole(*x) && spec_expr_size(*x) == size - 1);
        }
        let e = Expr::Call(mk_un(tag, x));
        let ghost eg = e;
        proof {
            reveal_with_fuel(spec_expr_has_hole, 2);
            reveal_with_fuel(spec_func_has_hole, 2);
            reveal_with_fuel(spec_expr_size, 2);
            reveal_with_fuel(spec_func_size, 2);
            match *tag {
                UnOp::Len => {
                    assert(eg == Expr::<StrValAbs, StrLenLat>::Call(Func::Len(x)));
                },
                UnOp::ToStr => {
                    assert(eg == Expr::<StrValAbs, StrLenLat>::Call(Func::ToStr(x)));
                },
                UnOp::ToInt => {
                    assert(eg == Expr::<StrValAbs, StrLenLat>::Call(Func::ToInt(x)));
                },
            }
            assert(!spec_expr_has_hole(eg));
            assert(spec_expr_size(eg) == size);
        }
        push_checked(&mut out, e, env);
        proof {
            assert forall|t: int| 0 <= t < out@.len() implies {
                &&& !spec_expr_has_hole(*#[trigger] out@[t])
                &&& spec_expr_size(*out@[t]) == size
                &&& spec_abs_eval(*out@[t], env@) is Ok
            } by {
                if t < out0.len() {
                    assert(out@[t] == out0[t]);
                } else {
                    assert(*out@[t] == eg);
                }
            }
            assert(eg == Expr::Call(mk_un_spec(*tag, cache@[(size - 1) as u32]@[k as int])));
            assert(un_combo_in(cache@, size, *tag, k as int, out@, env@));
            assert forall|i2: int| 0 <= i2 < k implies #[trigger] un_combo_in(
                cache@,
                size,
                *tag,
                i2,
                out@,
                env@,
            ) by {
                assert(un_combo_in(cache@, size, *tag, i2, out0, env@));
                lemma_un_combo_push(cache@, size, *tag, i2, out0, out@, env@);
            }
        }
        k += 1;
    }
    proof {
        assert forall|i2: int| #[trigger] un_combo_in(cache@, size, *tag, i2, out@, env@) by {
            if !(0 <= i2 < va@.len()) {
                assert(un_combo_in(cache@, size, *tag, i2, out@, env@));
            }
        }
    }
    out
}

/// All length expressions of exactly `size`.
pub fn concretize_lens(
    env: &Environment<StrValAbs>,
    size: u32,
    cache: &mut HashMap<u32, Vec<TermA>>,
) -> (r: Vec<TermA>)
    requires
        size >= 1,
        cache_wf(old(cache)@, env@),
    ensures
        cache_wf(final(cache)@, env@),
        cache_preserved(old(cache)@, final(cache)@),
        cache_entry_wf(r@, size, env@),
        final(cache)@.contains_key((size - 1) as u32),
        un_complete(final(cache)@, size, UnOp::Len, r@, env@),
    decreases size, 1int,
{
    concretize_un(env, size, cache, &UnOp::Len)
}

/// All concatenation expressions of exactly `size`.
pub fn concretize_appends(
    env: &Environment<StrValAbs>,
    size: u32,
    cache: &mut HashMap<u32, Vec<TermA>>,
) -> (r: Vec<TermA>)
    requires
        size >= 2,
        cache_wf(old(cache)@, env@),
    ensures
        cache_wf(final(cache)@, env@),
        cache_preserved(old(cache)@, final(cache)@),
        cache_entry_wf(r@, size, env@),
        forall|a2: u32| a2 + 2 <= size ==> #[trigger] final(cache)@.contains_key(a2),
        bin_complete(final(cache)@, size, BinOp::Append, r@, env@),
    decreases size, 1int,
{
    concretize_bin(env, size, cache, &BinOp::Append)
}

/// All addition expressions of exactly `size`.
pub fn concretize_adds(
    env: &Environment<StrValAbs>,
    size: u32,
    cache: &mut HashMap<u32, Vec<TermA>>,
) -> (r: Vec<TermA>)
    requires
        size >= 2,
        cache_wf(old(cache)@, env@),
    ensures
        cache_wf(final(cache)@, env@),
        cache_preserved(old(cache)@, final(cache)@),
        cache_entry_wf(r@, size, env@),
        forall|a2: u32| a2 + 2 <= size ==> #[trigger] final(cache)@.contains_key(a2),
        bin_complete(final(cache)@, size, BinOp::Add, r@, env@),
    decreases size, 1int,
{
    concretize_bin(env, size, cache, &BinOp::Add)
}

/// All subtraction expressions of exactly `size`.
pub fn concretize_subs(
    env: &Environment<StrValAbs>,
    size: u32,
    cache: &mut HashMap<u32, Vec<TermA>>,
) -> (r: Vec<TermA>)
    requires
        size >= 2,
        cache_wf(old(cache)@, env@),
    ensures
        cache_wf(final(cache)@, env@),
        cache_preserved(old(cache)@, final(cache)@),
        cache_entry_wf(r@, size, env@),
        forall|a2: u32| a2 + 2 <= size ==> #[trigger] final(cache)@.contains_key(a2),
        bin_complete(final(cache)@, size, BinOp::Sub, r@, env@),
    decreases size, 1int,
{
    concretize_bin(env, size, cache, &BinOp::Sub)
}

/// All replacement expressions of exactly `size`.
pub fn concretize_replaces(
    env: &Environment<StrValAbs>,
    size: u32,
    cache: &mut HashMap<u32, Vec<TermA>>,
) -> (r: Vec<TermA>)
    requires
        size >= 3,
        cache_wf(old(cache)@, env@),
    ensures
        cache_wf(final(cache)@, env@),
        cache_preserved(old(cache)@, final(cache)@),
        cache_entry_wf(r@, size, env@),
        forall|k2: u32| k2 + 3 <= size ==> #[trigger] final(cache)@.contains_key(k2),
        tri_complete(final(cache)@, size, TriOp::Replace, r@, env@),
    decreases size, 1int,
{
    concretize_tri(env, size, cache, &TriOp::Replace)
}

/// All substring expressions of exactly `size`.
pub fn concretize_substrs(
    env: &Environment<StrValAbs>,
    size: u32,
    cache: &mut HashMap<u32, Vec<TermA>>,
) -> (r: Vec<TermA>)
    requires
        size >= 3,
        cache_wf(old(cache)@, env@),
    ensures
        cache_wf(final(cache)@, env@),
        cache_preserved(old(cache)@, final(cache)@),
        cache_entry_wf(r@, size, env@),
        forall|k2: u32| k2 + 3 <= size ==> #[trigger] final(cache)@.contains_key(k2),
        tri_complete(final(cache)@, size, TriOp::Substr, r@, env@),
    decreases size, 1int,
{
    concretize_tri(env, size, cache, &TriOp::Substr)
}

/// All fully concrete, hole-free expressions of exactly `size`, memoized:
/// the first call under a size fills the table, later calls hand the entry
/// back unchanged without re-enumerating.
pub fn concretize(
    env: &Environment<StrValAbs>,
    size: u32,
    cache: &mut HashMap<u32, Vec<TermA>>,
) -> (r: Vec<TermA>)
    requires
        cache_wf(old(cache)@, env@),
    ensures
        cache_wf(final(cache)@, env@),
        cache_preserved(old(cache)@, final(cache)@),
        final(cache)@.contains_key(size),
        r@ == final(cache)@[size]@,
        cache_entry_wf(r@, size, env@),
        old(cache)@.contains_key(size) ==> final(cache)@ == old(cache)@ && r@ == old(cache)@[size]@,
        !old(cache)@.contains_key(size) ==> enumeration_complete(final(cache)@, size, r@, env@),
    decreases size, 2int,
{
    let cached = cache.get(&size);
    match cached {
        Some(res) => clone_terms(res),
        None => {
            let ghost m_ent = cache@;
            let mut generated: Vec<TermA> = Vec::new();
            let ghost g_ent = generated@;
            let ghost mut m_app: Map<u32, Vec<TermA>> = cache@;
            let ghost mut g_app: Seq<TermA> = Seq::empty();
            let ghost mut v_app: Seq<TermA> = Seq::empty();
            let ghost mut m_rep: Map<u32, Vec<TermA>> = cache@;
            let ghost mut g_rep: Seq<TermA> = Seq::empty();
            let ghost mut v_rep: Seq<TermA> = Seq::empty();
            let ghost mut m_sst: Map<u32, Vec<TermA>> = cache@;
            let ghost mut g_sst: Seq<TermA> = Seq::empty();
            let ghost mut v_sst: Seq<TermA> = Seq::empty();
            let ghost mut m_add: Map<u32, Vec<TermA>> = cache@;
            let ghost mut g_add: Seq<TermA> = Seq::empty();
            let ghost mut v_add: Seq<TermA> = Seq::empty();
            let ghost mut m_sub: Map<u32, Vec<TermA>> = cache@;
            let ghost mut g_sub: Seq<TermA> = Seq::empty();
            let ghost mut v_sub: Seq<TermA> = Seq::empty();
            let ghost mut m_len: Map<u32, Vec<TermA>> = cache@;
            let ghost mut g_len: Seq<TermA> = Seq::empty();
            let ghost mut v_len: Seq<TermA> = Seq::empty();
            let ghost mut m_ata: Map<u32, Vec<TermA>> = cache@;
            let ghost mut g_ata: Seq<TermA> = Seq::empty();
            let ghost mut v_ata: Seq<TermA> = Seq::empty();
            let ghost mut m_tos: Map<u32, Vec<TermA>> = cache@;
            let ghost mut g_tos: Seq<TermA> = Seq::empty();
            let ghost mut v_tos: Seq<TermA> = Seq::empty();
            let ghost mut m_toi: Map<u32, Vec<TermA>> = cache@;
            let ghost mut g_toi: Seq<TermA> = Seq::empty();
            let ghost mut v_toi: Seq<TermA> = Seq::empty();
            let ghost mut m_idx: Map<u32, Vec<TermA>> = cache@;
            let ghost mut g_idx: Seq<TermA> = Seq::empty();
            let ghost mut v_idx: Seq<TermA> = Seq::empty();
            let ghost mut m_pfx: Map<u32, Vec<TermA>> = cache@;
            let ghost mut g_pfx: Seq<TermA> = Seq::empty();
            let ghost mut v_pfx: Seq<TermA> = Seq::empty();
            let ghost mut m_sfx: Map<u32, Vec<TermA>> = cache@;
            let ghost mut g_sfx: Seq<TermA> = Seq::empty();
            let ghost mut v_sfx: Seq<TermA> = Seq::empty();
            let ghost mut m_con: Map<u32, Vec<TermA>> = cache@;
            let ghost mut g_con: Seq<TermA> = Seq::empty();
            let ghost mut v_con: Seq<TermA> = Seq::empty();
            if size >= 2 {
                let mut v = concretize_appends(env, size, cache);
                proof {
                    v_app = v@;
                }
                append_entries(&mut generated, &mut v, size, Ghost(env@));
                proof {
                    m_app = cache@;
                    g_app = generated@;
                    assert(cache_preserved(m_ent, m_app));
                    assert(forall|q2: u32| q2 + 2 <= size ==> #[trigger] m_app.contains_key(q2));
                    assert(bin_complete(m_app, size, BinOp::Append, v_app, env@));
                    assert forall|e2: Expr<StrValAbs, StrLenLat>| #[trigger] contains_expr(
                        g_ent,
                        e2,
                    ) implies contains_expr(g_app, e2) by {
                        lemma_contains_expr_extend(g_ent, g_app, e2);
                    }
                    assert forall|e2: Expr<StrValAbs, StrLenLat>| #[trigger] contains_expr(
                        v_app,
                        e2,
                    ) implies contains_expr(g_app, e2) by {
                        let kk = choose|kk: int|
                            0 <= kk < v_app.len() && *#[trigger] v_app[kk] == e2;
                        assert(g_app[g_ent.len() + kk] == v_app[kk]);
                    }
                }
            } else {
                proof {
                    m_app = cache@;
                    g_app = generated@;
                    v_app = Seq::empty();
                    assert(cache_preserved(m_ent, m_app));
                    assert(forall|q2: u32| q2 + 2 <= size ==> #[trigger] m_app.contains_key(q2));
                    assert(bin_complete(m_app, size, BinOp::Append, v_app, env@));
                    assert forall|e2: Expr<StrValAbs, StrLenLat>| #[trigger] contains_expr(
                        g_ent,
                        e2,
                    ) implies contains_expr(g_app, e2) by {
                        lemma_contains_expr_extend(g_ent, g_app, e2);
                    }
                    assert(forall|e2: Expr<StrValAbs, StrLenLat>| !contains_expr(v_app, e2));
                }
            }
            if size >= 3 {
                let mut v = concretize_replaces(env, size, cache);
                proof {
                    v_rep = v@;
                }
                append_entries(&mut generated, &mut v, size, Ghost(env@));
                proof {
                    m_rep = cache@;
                    g_rep = generated@;
                    assert(cache_preserved(m_app, m_rep));
                    assert(forall|q2: u32| q2 + 3 <= size ==> #[trigger] m_rep.contains_key(q2));
                    assert(tri_complete(m_rep, size, TriOp::Replace, v_rep, env@));
                    assert forall|e2: Expr<StrValAbs, StrLenLat>| #[trigger] contains_expr(
                        g_app,
                        e2,
                    ) implies contains_expr(g_rep, e2) by {
                        lemma_contains_expr_extend(g_app, g_rep, e2);
                    }
                    assert forall|e2: Expr<StrValAbs, StrLenLat>| #[trigger] contains_expr(
                        v_rep,
                        e2,
                    ) implies contains_expr(g_rep, e2) by {
                        let kk = choose|kk: int|
                            0 <= kk < v_rep.len() && *#[trigger] v_rep[kk] == e2;
                        assert(g_rep[g_app.len() + kk] == v_rep[kk]);
                    }
                }
            } else {
                proof {
                    m_rep = cache@;
                    g_rep = generated@;
                    v_rep = Seq::empty();
                    assert(cache_preserved(m_app, m_rep));
                    assert(forall|q2: u32| q2 + 3 <= size ==> #[trigger] m_rep.contains_key(q2));
                    assert(tri_complete(m_rep, size, TriOp::Replace, v_rep, env@));
                    assert forall|e2: Expr<StrValAbs, StrLenLat>| #[trigger] contains_expr(
                        g_app,
                        e2,
                    ) implies contains_expr(g_rep, e2) by {
                        lemma_contains_expr_extend(g_app, g_rep, e2);
                    }
                    assert(forall|e2: Expr<StrValAbs, StrLenLat>| !contains_expr(v_rep, e2));
                }
            }
            if size >= 3 {
                let mut v = concretize_substrs(env, size, cache);
                proof {
                    v_sst = v@;
                }
                append_entries(&mut generated, &mut v, size, Ghost(env@));
                proof {
                    m_sst = cache@;
                    g_sst = generated@;
                    assert(cache_preserved(m_rep, m_sst));
                    assert(forall|q2: u32| q2 + 3 <= size ==> #[trigger] m_sst.contains_key(q2));
                    assert(tri_complete(m_sst, size, TriOp::Substr, v_sst, env@));
                    assert forall|e2: Expr<StrValAbs, StrLenLat>| #[trigger] contains_expr(
                        g_rep,
                        e2,
                    ) implies contains_expr(g_sst, e2) by {
                        lemma_contains_expr_extend(g_rep, g_sst, e2);
                    }
                    assert forall|e2: Expr<StrValAbs, StrLenLat>| #[trigger] contains_expr(
                        v_sst,
                        e2,
                    ) implies contains_expr(g_sst, e2) by {
                        let kk = choose|kk: int|
                            0 <= kk < v_sst.len() && *#[trigger] v_sst[kk] == e2;
                        assert(g_sst[g_rep.len() + kk] == v_sst[kk]);
                    }
                }
            } else {
                proof {
                    m_sst = cache@;
                    g_sst = generated@;
                    v_sst = Seq::empty();
                    assert(cache_preserved(m_rep, m_sst));
                    assert(forall|q2: u32| q2 + 3 <= size ==> #[trigger] m_sst.contains_key(q2));
                    assert(tri_complete(m_sst, size, TriOp::Substr, v_sst, env@));
                    assert forall|e2: Expr<StrValAbs, StrLenLat>| #[trigger] contains_expr(
                        g_rep,
                        e2,
                    ) implies contains_expr(g_sst, e2) by {
                        lemma_contains_expr_extend(g_rep, g_sst, e2);
                    }
                    assert(forall|e2: Expr<StrValAbs, StrLenLat>| !contains_expr(v_sst, e2));
                }
            }
            if size >= 2 {
                let mut v = concretize_adds(env, size, cache);
                proof {
                    v_add = v@;
                }
                append_entries(&mut generated, &mut v, size, Ghost(env@));
                proof {
                    m_add = cache@;
                    g_add = generated@;
                    assert(cache_preserved(m_sst, m_add));
                    assert(forall|q2: u32| q2 + 2 <= size ==> #[trigger] m_add.contains_key(q2));
                    assert(bin_complete(m_add, size, BinOp::Add, v_add, env@));
                    assert forall|e2: Expr<StrValAbs, StrLenLat>| #[trigger] contains_expr(
                        g_sst,
                        e2,
                    ) implies contains_expr(g_add, e2) by {
                        lemma_contains_expr_extend(g_sst, g_add, e2);
                    }
                    assert forall|e2: Expr<StrValAbs, StrLenLat>| #[trigger] contains_expr(
                        v_add,
                        e2,
                    ) implies contains_expr(g_add, e2) by {
                        let kk = choose|kk: int|
                            0 <= kk < v_add.len() && *#[trigger] v_add[kk] == e2;
                        assert(g_add[g_sst.len() + kk] == v_add[kk]);
                    }
                }
            } else {
                proof {
                    m_add = cache@;
                    g_add = generated@;
                    v_add = Seq::empty();
                    assert(cache_preserved(m_sst, m_add));
                    assert(forall|q2: u32| q2 + 2 <= size ==> #[trigger] m_add.contains_key(q2));
                    assert(bin_complete(m_add, size, BinOp::Add, v_add, env@));
                    assert forall|e2: Expr<StrValAbs, StrLenLat>| #[trigger] contains_expr(
                        g_sst,
                        e2,
                    ) implies contains_expr(g_add, e2) by {
                        lemma_contains_expr_extend(g_sst, g_add, e2);
                    }
                    assert(forall|e2: Expr<StrValAbs, StrLenLat>| !contains_expr(v_add, e2));
                }
            }
            if size >= 2 {
                let mut v = concretize_subs(env, size, cache);
                proof {
                    v_sub = v@;
                }
                append_entries(&mut generated, &mut v, size, Ghost(env@));
                proof {
                    m_sub = cache@;
                    g_sub = generated@;
                    assert(cache_preserved(m_add, m_sub));
                    assert(forall|q2: u32| q2 + 2 <= size ==> #[trigger] m_sub.contains_key(q2));
                    assert(bin_complete(m_sub, size, BinOp::Sub, v_sub, env@));
                    assert forall|e2: Expr<StrValAbs, StrLenLat>| #[trigger] contains_expr(
                        g_add,
                        e2,
                    ) implies contains_expr(g_sub, e2) by {
                        lemma_contains_expr_extend(g_add, g_sub, e2);
                    }
                    assert forall|e2: Expr<StrValAbs, StrLenLat>| #[trigger] contains_expr(
                        v_sub,
                        e2,
                    ) implies contains_expr(g_sub, e2) by {
                        let kk = choose|kk: int|
                            0 <= kk < v_sub.len() && *#[trigger] v_sub[kk] == e2;
                        assert(g_sub[g_add.len() + kk] == v_sub[kk]);
                    }
                }
            } else {
                proof {
                    m_sub = cache@;
                    g_sub = generated@;
                    v_sub = Seq::empty();
                    assert(cache_preserved(m_add, m_sub));
                    assert(forall|q2: u32| q2 + 2 <= size ==> #[trigger] m_sub.contains_key(q2));
                    assert(bin_complete(m_sub, size, BinOp::Sub, v_sub, env@));
                    assert forall|e2: Expr<StrValAbs, StrLenLat>| #[trigger] contains_expr(
                        g_add,
                        e2,
                    ) implies contains_expr(g_sub, e2) by {
                        lemma_contains_expr_extend(g_add, g_sub, e2);
                    }
                    assert(forall|e2: Expr<StrValAbs, StrLenLat>| !contains_expr(v_sub, e2));
                }
            }
            if size >= 1 {
                let mut v = concretize_lens(env, size, cache);
                proof {
                    v_len = v@;
                }
                append_entries(&mut generated, &mut v, size, Ghost(env@));
                proof {
                    m_len = cache@;
                    g_len = generated@;
                    assert(cache_preserved(m_sub, m_len));
                    assert(size >= 1 ==> m_len.contains_key((size - 1) as u32));
                    assert(un_complete(m_len, size, UnOp::Len, v_len, env@));
                    assert forall|e2: Expr<StrValAbs, StrLenLat>| #[trigger] contains_expr(
                        g_sub,
                        e2,
                    ) implies contains_expr(g_len, e2) by {
                        lemma_contains_expr_extend(g_sub, g_len, e2);
                    }
                    assert forall|e2: Expr<StrValAbs, StrLenLat>| #[trigger] contains_expr(
                        v_len,
                        e2,
                    ) implies contains_expr(g_len, e2) by {
                        let kk = choose|kk: int|
                            0 <= kk < v_len.len() && *#[trigger] v_len[kk] == e2;
                        assert(g_len[g_sub.len() + kk] == v_len[kk]);
                    }
                }
            } else {
                proof {
                    m_len = cache@;
                    g_len = generated@;
                    v_len = Seq::empty();
                    assert(cache_preserved(m_sub, m_len));
                    assert(size >= 1 ==> m_len.contains_key((size - 1) as u32));
                    assert(un_complete(m_len, size, UnOp::Len, v_len, env@));
                    assert forall|e2: Expr<StrValAbs, StrLenLat>| #[trigger] contains_expr(
                        g_sub,
                        e2,
                    ) implies contains_expr(g_len, e2) by {
                        lemma_contains_expr_extend(g_sub, g_len, e2);
                    }
                    assert(forall|e2: Expr<StrValAbs, StrLenLat>| !contains_expr(v_len, e2));
                }
            }
            if size >= 2 {
                let mut v = concretize_bin(env, size, cache, &BinOp::At);
                proof {
                    v_ata = v@;
                }
                append_entries(&mut generated, &mut v, size, Ghost(env@));
                proof {
                    m_ata = cache@;
                    g_ata = generated@;
                    assert(cache_preserved(m_len, m_ata));
                    assert(forall|q2: u32| q2 + 2 <= size ==> #[trigger] m_ata.contains_key(q2));
                    assert(bin_complete(m_ata, size, BinOp::At, v_ata, env@));
                    assert forall|e2: Expr<StrValAbs, StrLenLat>| #[trigger] contains_expr(
                        g_len,
                        e2,
                    ) implies contains_expr(g_ata, e2) by {
                        lemma_contains_expr_extend(g_len, g_ata, e2);
                    }
                    assert forall|e2: Expr<StrValAbs, StrLenLat>| #[trigger] contains_expr(
                        v_ata,
                        e2,
                    ) implies contains_expr(g_ata, e2) by {
                        let kk = choose|kk: int|
                            0 <= kk < v_ata.len() && *#[trigger] v_ata[kk] == e2;
                        assert(g_ata[g_len.len() + kk] == v_ata[kk]);
                    }
                }
            } else {
                proof {
                    m_ata = cache@;
                    g_ata = generated@;
                    v_ata = Seq::empty();
                    assert(cache_preserved(m_len, m_ata));
                    assert(forall|q2: u32| q2 + 2 <= size ==> #[trigger] m_ata.contains_key(q2));
                    assert(bin_complete(m_ata, size, BinOp::At, v_ata, env@));
                    assert forall|e2: Expr<StrValAbs, StrLenLat>| #[trigger] contains_expr(
                        g_len,
                        e2,
                    ) implies contains_expr(g_ata, e2) by {
                        lemma_contains_expr_extend(g_len, g_ata, e2);
                    }
                    assert(forall|e2: Expr<StrValAbs, StrLenLat>| !contains_expr(v_ata, e2));
                }
            }
            if size >= 1 {
                let mut v = concretize_un(env, size, cache, &UnOp::ToStr);
                proof {
                    v_tos = v@;
                }
                append_entries(&mut generated, &mut v, size, Ghost(env@));
                proof {
                    m_tos = cache@;
                    g_tos = generated@;
                    assert(cache_preserved(m_ata, m_tos));
                    assert(size >= 1 ==> m_tos.contains_key((size - 1) as u32));
                    assert(un_complete(m_tos, size, UnOp::ToStr, v_tos, env@));
                    assert forall|e2: Expr<StrValAbs, StrLenLat>| #[trigger] contains_expr(
                        g_ata,
                        e2,
                    ) implies contains_expr(g_tos, e2) by {
                        lemma_contains_expr_extend(g_ata, g_tos, e2);
                    }
                    assert forall|e2: Expr<StrValAbs, StrLenLat>| #[trigger] contains_expr(
                        v_tos,
                        e2,
                    ) implies contains_expr(g_tos, e2) by {
                        let kk = choose|kk: int|
                            0 <= kk < v_tos.len() && *#[trigger] v_tos[kk] == e2;
                        assert(g_tos[g_ata.len() + kk] == v_tos[kk]);
                    }
                }
            } else {
                proof {
                    m_tos = cache@;
                    g_tos = generated@;
                    v_tos = Seq::empty();
                    assert(cache_preserved(m_ata, m_tos));
                    assert(size >= 1 ==> m_tos.contains_key((size - 1) as u32));
                    assert(un_complete(m_tos, size, UnOp::ToStr, v_tos, env@));
                    assert forall|e2: Expr<StrValAbs, StrLenLat>| #[trigger] contains_expr(
                        g_ata,
                        e2,
                    ) implies contains_expr(g_tos, e2) by {
                        lemma_contains_expr_extend(g_ata, g_tos, e2);
                    }
                    assert(forall|e2: Expr<StrValAbs, StrLenLat>| !contains_expr(v_tos, e2));
                }
            }
            if size >= 1 {
                let mut v = concretize_un(env, size, cache, &UnOp::ToInt);
                proof {
                    v_toi = v@;
                }
                append_entries(&mut generated, &mut v, size, Ghost(env@));
                proof {
                    m_toi = cache@;
                    g_toi = generated@;
                    assert(cache_preserved(m_tos, m_toi));
                    assert(size >= 1 ==> m_toi.contains_key((size - 1) as u32));
                    assert(un_complete(m_toi, size, UnOp::ToInt, v_toi, env@));
                    assert forall|e2: Expr<StrValAbs, StrLenLat>| #[trigger] contains_expr(
                        g_tos,
                        e2,
                    ) implies contains_expr(g_toi, e2) by {
                        lemma_contains_expr_extend(g_tos, g_toi, e2);
                    }
                    assert forall|e2: Expr<StrValAbs, StrLenLat>| #[trigger] contains_expr(
                        v_toi,
                        e2,
                    ) implies contains_expr(g_toi, e2) by {
                        let kk = choose|kk: int|
                            0 <= kk < v_toi.len() && *#[trigger] v_toi[kk] == e2;
                        assert(g_toi[g_tos.len() + kk] == v_toi[kk]);
                    }
                }
            } else {
                proof {
                    m_toi = cache@;
                    g_toi = generated@;
                    v_toi = Seq::empty();
                    assert(cache_preserved(m_tos, m_toi));
                    assert(size >= 1 ==> m_toi.contains_key((size - 1) as u32));
                    assert(un_complete(m_toi, size, UnOp::ToInt, v_toi, env@));
                    assert forall|e2: Expr<StrValAbs, StrLenLat>| #[trigger] contains_expr(
                        g_tos,
                        e2,
                    ) implies contains_expr(g_toi, e2) by {
                        lemma_contains_expr_extend(g_tos, g_toi, e2);
                    }
                    assert(forall|e2: Expr<StrValAbs, StrLenLat>| !contains_expr(v_toi, e2));
                }
            }
            if size >= 3 {
                let mut v = concretize_tri(env, size, cache, &TriOp::IndexOf);
                proof {
                    v_idx = v@;
                }
                append_entries(&mut generated, &mut v, size, Ghost(env@));
                proof {
                    m_idx = cache@;
                    g_idx = generated@;
                    assert(cache_preserved(m_toi, m_idx));
                    assert(forall|q2: u32| q2 + 3 <= size ==> #[trigger] m_idx.contains_key(q2));
                    assert(tri_complete(m_idx, size, TriOp::IndexOf, v_idx, env@));
                    assert forall|e2: Expr<StrValAbs, StrLenLat>| #[trigger] contains_expr(
                        g_toi,
                        e2,
                    ) implies contains_expr(g_idx, e2) by {
                        lemma_contains_expr_extend(g_toi, g_idx, e2);
                    }
                    assert forall|e2: Expr<StrValAbs, StrLenLat>| #[trigger] contains_expr(
                        v_idx,
                        e2,
                    ) implies contains_expr(g_idx, e2) by {
                        let kk = choose|kk: int|
                            0 <= kk < v_idx.len() && *#[trigger] v_idx[kk] == e2;
                        assert(g_idx[g_toi.len() + kk] == v_idx[kk]);
                    }
                }
            } else {
                proof {
                    m_idx = cache@;
                    g_idx = generated@;
                    v_idx = Seq::empty();
                    assert(cache_preserved(m_toi, m_idx));
                    assert(forall|q2: u32| q2 + 3 <= size ==> #[trigger] m_idx.contains_key(q2));
                    assert(tri_complete(m_idx, size, TriOp::IndexOf, v_idx, env@));
                    assert forall|e2: Expr<StrValAbs, StrLenLat>| #[trigger] contains_expr(
                        g_toi,
                        e2,
                    ) implies contains_expr(g_idx, e2) by {
                        lemma_contains_expr_extend(g_toi, g_idx, e2);
                    }
                    assert(forall|e2: Expr<StrValAbs, StrLenLat>| !contains_expr(v_idx, e2));
                }
            }
            if size >= 2 {
                let mut v = concretize_bin(env, size, cache, &BinOp::PrefixOf);
                proof {
                    v_pfx = v@;
                }
                append_entries(&mut generated, &mut v, size, Ghost(env@));
                proof {
                    m_pfx = cache@;
                    g_pfx = generated@;
                    assert(cache_preserved(m_idx, m_pfx));
                    assert(forall|q2: u32| q2 + 2 <= size ==> #[trigger] m_pfx.contains_key(q2));
                    assert(bin_complete(m_pfx, size, BinOp::PrefixOf, v_pfx, env@));
                    assert forall|e2: Expr<StrValAbs, StrLenLat>| #[trigger] contains_expr(
                        g_idx,
                        e2,
                    ) implies contains_expr(g_pfx, e2) by {
                        lemma_contains_expr_extend(g_idx, g_pfx, e2);
                    }
                    assert forall|e2: Expr<StrValAbs, StrLenLat>| #[trigger] contains_expr(
                        v_pfx,
                        e2,
                    ) implies contains_expr(g_pfx, e2) by {
                        let kk = choose|kk: int|
                            0 <= kk < v_pfx.len() && *#[trigger] v_pfx[kk] == e2;
                        assert(g_pfx[g_idx.len() + kk] == v_pfx[kk]);
                    }
                }
            } else {
                proof {
                    m_pfx = cache@;
                    g_pfx = generated@;
                    v_pfx = Seq::empty();
                    assert(cache_preserved(m_idx, m_pfx));
                    assert(forall|q2: u32| q2 + 2 <= size ==> #[trigger] m_pfx.contains_key(q2));
                    assert(bin_complete(m_pfx, size, BinOp::PrefixOf, v_pfx, env@));
                    assert forall|e2: Expr<StrValAbs, StrLenLat>| #[trigger] contains_expr(
                        g_idx,
                        e2,
                    ) implies contains_expr(g_pfx, e2) by {
                        lemma_contains_expr_extend(g_idx, g_pfx, e2);
                    }
                    assert(forall|e2: Expr<StrValAbs, StrLenLat>| !contains_expr(v_pfx, e2));
                }
            }
            if size >= 2 {
                let mut v = concretize_bin(env, size, cache, &BinOp::SuffixOf);
                proof {
                    v_sfx = v@;
                }
                append_entries(&mut generated, &mut v, size, Ghost(env@));
                proof {
                    m_sfx = cache@;
                    g_sfx = generated@;
                    assert(cache_preserved(m_pfx, m_sfx));
                    assert(forall|q2: u32| q2 + 2 <= size ==> #[trigger] m_sfx.contains_key(q2));
                    assert(bin_complete(m_sfx, size, BinOp::SuffixOf, v_sfx, env@));
                    assert forall|e2: Expr<StrValAbs, StrLenLat>| #[trigger] contains_expr(
                        g_pfx,
                        e2,
                    ) implies contains_expr(g_sfx, e2) by {
                        lemma_contains_expr_extend(g_pfx, g_sfx, e2);
                    }
                    assert forall|e2: Expr<StrValAbs, StrLenLat>| #[trigger] contains_expr(
                        v_sfx,
                        e2,
                    ) implies contains_expr(g_sfx, e2) by {
                        let kk = choose|kk: int|
                            0 <= kk < v_sfx.len() && *#[trigger] v_sfx[kk] == e2;
                        assert(g_sfx[g_pfx.len() + kk] == v_sfx[kk]);
                    }
                }
            } else {
                proof {
                    m_sfx = cache@;
                    g_sfx = generated@;
                    v_sfx = Seq::empty();
                    assert(cache_preserved(m_pfx, m_sfx));
                    assert(forall|q2: u32| q2 + 2 <= size ==> #[trigger] m_sfx.contains_key(q2));
                    assert(bin_complete(m_sfx, size, BinOp::SuffixOf, v_sfx, env@));
                    assert forall|e2: Expr<StrValAbs, StrLenLat>| #[trigger] contains_expr(
                        g_pfx,
                        e2,
                    ) implies contains_expr(g_sfx, e2) by {
                        lemma_contains_expr_extend(g_pfx, g_sfx, e2);
                    }
                    assert(forall|e2: Expr<StrValAbs, StrLenLat>| !contains_expr(v_sfx, e2));
                }
            }
            if size >= 2 {
                let mut v = concretize_bin(env, size, cache, &BinOp::Contains);
                proof {
                    v_con = v@;
                }
                append_entries(&mut generated, &mut v, size, Ghost(env@));
                proof {
                    m_con = cache@;
                    g_con = generated@;
                    assert(cache_preserved(m_sfx, m_con));
                    assert(forall|q2: u32| q2 + 2 <= size ==> #[trigger] m_con.contains_key(q2));
                    assert(bin_complete(m_con, size, BinOp::Contains, v_con, env@));
                    assert forall|e2: Expr<StrValAbs, StrLenLat>| #[trigger] contains_expr(
                        g_sfx,
                        e2,
                    ) implies contains_expr(g_con, e2) by {
                        lemma_contains_expr_extend(g_sfx, g_con, e2);
                    }
                    assert forall|e2: Expr<StrValAbs, StrLenLat>| #[trigger] contains_expr(
                        v_con,
                        e2,
                    ) implies contains_expr(g_con, e2) by {
                        let kk = choose|kk: int|
                            0 <= kk < v_con.len() && *#[trigger] v_con[kk] == e2;
                        assert(g_con[g_sfx.len() + kk] == v_con[kk]);
                    }
                }
            } else {
                proof {
                    m_con = cache@;
                    g_con = generated@;
                    v_con = Seq::empty();
                    assert(cache_preserved(m_sfx, m_con));
                    assert(forall|q2: u32| q2 + 2 <= size ==> #[trigger] m_con.contains_key(q2));
                    assert(bin_complete(m_con, size, BinOp::Contains, v_con, env@));
                    assert forall|e2: Expr<StrValAbs, StrLenLat>| #[trigger] contains_expr(
                        g_sfx,
                        e2,
                    ) implies contains_expr(g_con, e2) by {
                        lemma_contains_expr_extend(g_sfx, g_con, e2);
                    }
                    assert(forall|e2: Expr<StrValAbs, StrLenLat>| !contains_expr(v_con, e2));
                }
            }
            let copy = clone_terms(&generated);
            let ghost pre_ins = cache@;
            cache.insert(size, copy);
            proof {
                assert(cache@ =~= pre_ins.insert(size, copy));
                assert(cache@[size]@ == generated@);
                assert forall|sz: u32| #[trigger] cache@.contains_key(sz) implies cache_entry_wf(
                    cache@[sz]@,
                    sz,
                    env@,
                ) by {
                    if sz != size {
                        assert(pre_ins.contains_key(sz));
                        assert(cache@[sz] == pre_ins[sz]);
                    }
                }
                assert forall|sz: u32| #[trigger] old(cache)@.contains_key(sz) implies cache@.contains_key(
                    sz,
                ) && cache@[sz] == old(cache)@[sz] by {
                    assert(sz != size);
                    assert(pre_ins.contains_key(sz) && pre_ins[sz] == old(cache)@[sz]);
                }
                assert(cache_preserved(m_con, pre_ins));
                lemma_cache_preserved_trans(m_sfx, m_con, pre_ins);
                lemma_cache_preserved_trans(m_pfx, m_sfx, pre_ins);
                lemma_cache_preserved_trans(m_idx, m_pfx, pre_ins);
                lemma_cache_preserved_trans(m_toi, m_idx, pre_ins);
                lemma_cache_preserved_trans(m_tos, m_toi, pre_ins);
                lemma_cache_preserved_trans(m_ata, m_tos, pre_ins);
                lemma_cache_preserved_trans(m_len, m_ata, pre_ins);
                lemma_cache_preserved_trans(m_sub, m_len, pre_ins);
                lemma_cache_preserved_trans(m_add, m_sub, pre_ins);
                lemma_cache_preserved_trans(m_sst, m_add, pre_ins);
                lemma_cache_preserved_trans(m_rep, m_sst, pre_ins);
                lemma_cache_preserved_trans(m_app, m_rep, pre_ins);
                assert forall|k2: u32| k2 != size implies #[trigger] pre_ins.contains_key(k2)
                    == cache@.contains_key(k2) by {}
                assert forall|k2: u32| k2 != size && #[trigger] pre_ins.contains_key(k2) implies cache@[k2]
                    == pre_ins[k2] by {}
                lemma_preserved_below_from_insert(m_app, pre_ins, cache@, size);
                lemma_preserved_below_from_insert(m_rep, pre_ins, cache@, size);
                lemma_preserved_below_from_insert(m_sst, pre_ins, cache@, size);
                lemma_preserved_below_from_insert(m_add, pre_ins, cache@, size);
                lemma_preserved_below_from_insert(m_sub, pre_ins, cache@, size);
                lemma_preserved_below_from_insert(m_len, pre_ins, cache@, size);
                lemma_preserved_below_from_insert(m_ata, pre_ins, cache@, size);
                lemma_preserved_below_from_insert(m_tos, pre_ins, cache@, size);
                lemma_preserved_below_from_insert(m_toi, pre_ins, cache@, size);
                lemma_preserved_below_from_insert(m_idx, pre_ins, cache@, size);
                lemma_preserved_below_from_insert(m_pfx, pre_ins, cache@, size);
                lemma_preserved_below_from_insert(m_sfx, pre_ins, cache@, size);
                lemma_preserved_below_from_insert(m_con, pre_ins, cache@, size);
                assert forall|e2: Expr<StrValAbs, StrLenLat>| #[trigger] contains_expr(
                    g_con,
                    e2,
                ) implies contains_expr(generated@, e2) by {}
                assert forall|e2: Expr<StrValAbs, StrLenLat>| #[trigger] contains_expr(
                    g_sfx,
                    e2,
                ) implies contains_expr(generated@, e2) by {
                    assert(contains_expr(g_con, e2));
                }
                assert forall|e2: Expr<StrValAbs, StrLenLat>| #[trigger] contains_expr(
                    g_pfx,
                    e2,
                ) implies contains_expr(generated@, e2) by {
                    assert(contains_expr(g_sfx, e2));
                }
                assert forall|e2: Expr<StrValAbs, StrLenLat>| #[trigger] contains_expr(
                    g_idx,
                    e2,
                ) implies contains_expr(generated@, e2) by {
                    assert(contains_expr(g_pfx, e2));
                }
                assert forall|e2: Expr<StrValAbs, StrLenLat>| #[trigger] contains_expr(
                    g_toi,
                    e2,
                ) implies contains_expr(generated@, e2) by {
                    assert(contains_expr(g_idx, e2));
                }
                assert forall|e2: Expr<StrValAbs, StrLenLat>| #[trigger] contains_expr(
                    g_tos,
                    e2,
                ) implies contains_expr(generated@, e2) by {
                    assert(contains_expr(g_toi, e2));
                }
                assert forall|e2: Expr<StrValAbs, StrLenLat>| #[trigger] contains_expr(
                    g_ata,
                    e2,
                ) implies contains_expr(generated@, e2) by {
                    assert(contains_expr(g_tos, e2));
                }
                assert forall|e2: Expr<StrValAbs, StrLenLat>| #[trigger] contains_expr(
                    g_len,
                    e2,
                ) implies contains_expr(generated@, e2) by {
                    assert(contains_expr(g_ata, e2));
                }
                assert forall|e2: Expr<StrValAbs, StrLenLat>| #[trigger] contains_expr(
                    g_sub,
                    e2,
                ) implies contains_expr(generated@, e2) by {
                    assert(contains_expr(g_len, e2));
                }
                assert forall|e2: Expr<StrValAbs, StrLenLat>| #[trigger] contains_expr(
                    g_add,
                    e2,
                ) implies contains_expr(generated@, e2) by {
                    assert(contains_expr(g_sub, e2));
                }
                assert forall|e2: Expr<StrValAbs, StrLenLat>| #[trigger] contains_expr(
                    g_sst,
                    e2,
                ) implies contains_expr(generated@, e2) by {
                    assert(contains_expr(g_add, e2));
                }
                assert forall|e2: Expr<StrValAbs, StrLenLat>| #[trigger] contains_expr(
                    g_rep,
                    e2,
                ) implies contains_expr(generated@, e2) by {
                    assert(contains_expr(g_sst, e2));
                }
                assert forall|e2: Expr<StrValAbs, StrLenLat>| #[trigger] contains_expr(
                    g_app,
                    e2,
                ) implies contains_expr(generated@, e2) by {
                    assert(contains_expr(g_rep, e2));
                }
                assert forall|e2: Expr<StrValAbs, StrLenLat>| #[trigger] contains_expr(
                    v_app,
                    e2,
                ) implies contains_expr(generated@, e2) by {
                    assert(contains_expr(g_app, e2));
                }
                assert forall|e2: Expr<StrValAbs, StrLenLat>| #[trigger] contains_expr(
                    v_rep,
                    e2,
                ) implies contains_expr(generated@, e2) by {
                    assert(contains_expr(g_rep, e2));
                }
                assert forall|e2: Expr<StrValAbs, StrLenLat>| #[trigger] contains_expr(
                    v_sst,
                    e2,
                ) implies contains_expr(generated@, e2) by {
                    assert(contains_expr(g_sst, e2));
                }
                assert forall|e2: Expr<StrValAbs, StrLenLat>| #[trigger] contains_expr(
                    v_add,
                    e2,
                ) implies contains_expr(generated@, e2) by {
                    assert(contains_expr(g_add, e2));
                }
                assert forall|e2: Expr<StrValAbs, StrLenLat>| #[trigger] contains_expr(
                    v_sub,
                    e2,
                ) implies contains_expr(generated@, e2) by {
                    assert(contains_expr(g_sub, e2));
                }
                assert forall|e2: Expr<StrValAbs, StrLenLat>| #[trigger] contains_expr(
                    v_len,
                    e2,
                ) implies contains_expr(generated@, e2) by {
                    assert(contains_expr(g_len, e2));
                }
                assert forall|e2: Expr<StrValAbs, StrLenLat>| #[trigger] contains_expr(
                    v_ata,
                    e2,
                ) implies contains_expr(generated@, e2) by {
                    assert(contains_expr(g_ata, e2));
                }
                assert forall|e2: Expr<StrValAbs, StrLenLat>| #[trigger] contains_expr(
                    v_tos,
                    e2,
                ) implies contains_expr(generated@, e2) by {
                    assert(contains_expr(g_tos, e2));
                }
                assert forall|e2: Expr<StrValAbs, StrLenLat>| #[trigger] contains_expr(
                    v_toi,
                    e2,
                ) implies contains_expr(generated@, e2) by {
                    assert(contains_expr(g_toi, e2));
                }
                assert forall|e2: Expr<StrValAbs, StrLenLat>| #[trigger] contains_expr(
                    v_idx,
                    e2,
                ) implies contains_expr(generated@, e2) by {
                    assert(contains_expr(g_idx, e2));
                }
                assert forall|e2: Expr<StrValAbs, StrLenLat>| #[trigger] contains_expr(
                    v_pfx,
                    e2,
                ) implies contains_expr(generated@, e2) by {
                    assert(contains_expr(g_pfx, e2));
                }
                assert forall|e2: Expr<StrValAbs, StrLenLat>| #[trigger] contains_expr(
                    v_sfx,
                    e2,
                ) implies contains_expr(generated@, e2) by {
                    assert(contains_expr(g_sfx, e2));
                }
                assert forall|e2: Expr<StrValAbs, StrLenLat>| #[trigger] contains_expr(
                    v_con,
                    e2,
                ) implies contains_expr(generated@, e2) by {
                    assert(contains_expr(g_con, e2));
                }
                lemma_bin_complete_lift(m_app, cache@, size, BinOp::Append, v_app, generated@, env@);
                lemma_tri_complete_lift(m_rep, cache@, size, TriOp::Replace, v_rep, generated@, env@);
                lemma_tri_complete_lift(m_sst, cache@, size, TriOp::Substr, v_sst, generated@, env@);
                lemma_bin_complete_lift(m_add, cache@, size, BinOp::Add, v_add, generated@, env@);
                lemma_bin_complete_lift(m_sub, cache@, size, BinOp::Sub, v_sub, generated@, env@);
                lemma_un_complete_lift(m_len, cache@, size, UnOp::Len, v_len, generated@, env@);
                lemma_bin_complete_lift(m_ata, cache@, size, BinOp::At, v_ata, generated@, env@);
                lemma_un_complete_lift(m_tos, cache@, size, UnOp::ToStr, v_tos, generated@, env@);
                lemma_un_complete_lift(m_toi, cache@, size, UnOp::ToInt, v_toi, generated@, env@);
                lemma_tri_complete_lift(m_idx, cache@, size, TriOp::IndexOf, v_idx, generated@, env@);
                lemma_bin_complete_lift(m_pfx, cache@, size, BinOp::PrefixOf, v_pfx, generated@, env@);
                lemma_bin_complete_lift(m_sfx, cache@, size, BinOp::SuffixOf, v_sfx, generated@, env@);
                lemma_bin_complete_lift(m_con, cache@, size, BinOp::Contains, v_con, generated@, env@);
                assert(enumeration_complete(cache@, size, generated@, env@));
            }
            generated
        },
    }
}

/// Moves the entries of `src` to the end of `dst`, both lists holding only
/// well-formed entries for `size`.
fn append_entries(
    dst: &mut Vec<TermA>,
    src: &mut Vec<TermA>,
    size: u32,
    Ghost(env): Ghost<Seq<(String, StrValAbs)>>,
)
    requires
        cache_entry_wf(old(dst)@, size, env),
        cache_entry_wf(old(src)@, size, env),
    ensures
        final(dst)@ == old(dst)@ + old(src)@,
        cache_entry_wf(final(dst)@, size, env),
{
    let ghost d0 = dst@;
    let ghost s0 = src@;
    dst.append(src);
    proof {
        assert forall|i: int| 0 <= i < dst@.len() implies {
            &&& !spec_expr_has_hole(*#[trigger] dst@[i])
            &&& spec_expr_size(*dst@[i]) == size
            &&& spec_abs_eval(*dst@[i], env) is Ok
        } by {
            if i < d0.len() {
                assert(dst@[i] == d0[i]);
            } else {
                assert(dst@[i] == s0[i - d0.len()]);
            }
        }
    }
}

// ---------------------------------------------------------------------------
// Hole expansion
// ---------------------------------------------------------------------------

/// The call shapes a fresh hole can commit to: `append` with an enumerated
/// left argument and a dependent right argument, and `substr` with a
/// dependent receiver and enumerated bounds.
pub fn gen_call() -> (r: Vec<Func<StrValAbs, StrLenLat>>)
    ensures
        r@.len() == 2,
        (r@[0] matches Func::Append(a, b) && *a == Expr::<StrValAbs, StrLenLat>::ConcHole(0) && *b
            == Expr::<StrValAbs, StrLenLat>::DepHole),
        (r@[1] matches Func::Substr(a, b, c) && *a == Expr::<StrValAbs, StrLenLat>::DepHole && *b
            == Expr::<StrValAbs, StrLenLat>::ConcHole(0) && *c == Expr::<
            StrValAbs,
            StrLenLat,
        >::ConcHole(0)),
{
    let mut v: Vec<Func<StrValAbs, StrLenLat>> = Vec::new();
    v.push(Func::Append(Rc::new(Expr::ConcHole(0)), Rc::new(Expr::DepHole)));
    v.push(
        Func::Substr(
            Rc::new(Expr::DepHole),
            Rc::new(Expr::ConcHole(0)),
            Rc::new(Expr::ConcHole(0)),
        ),
    );
    v
}

/// The target a dependent `append` argument must reach: the overall target
/// minus the abstraction of the fixed argument, when that argument abstracts
/// at all.
pub fn str_append_inv(
    target: &StrLenLat,
    arg1: &Expr<StrValAbs, StrLenLat>,
    env: &Environment<StrValAbs>,
) -> (r: Option<StrLenLat>)
    ensures
        match spec_abs_eval(*arg1, env@) {
            Ok(v) => match v {
                MixV::Abs(l) => (r matches Some(x) && x@ == lat_v_sub(target@, l)),
                MixV::Conc(cv) => match try_alpha_v(cv) {
                    Some(l) => (r matches Some(x) && x@ == lat_v_sub(target@, l)),
                    None => r is None,
                },
            },
            Err(_) => r is None,
        },
{
    match abs_interp(arg1, env) {
        Ok(MixedValue::Abs(l)) => Some(target.sub(&l)),
        Ok(MixedValue::Conc(c)) => match try_abstract(&c) {
            Some(l) => Some(target.sub(&l)),
            None => None,
        },
        Err(_) => None,
    }
}

/// The target a dependent `substr` receiver must reach.  Substring bounds do
/// not constrain the receiver's length in this domain, so the inverse is
/// deliberately conservative: `Top` whenever both bounds are concrete
/// integers, nothing otherwise.
pub fn str_substr_inv(
    target: &StrLenLat,
    arg2: &Expr<StrValAbs, StrLenLat>,
    arg3: &Expr<StrValAbs, StrLenLat>,
    env: &Environment<StrValAbs>,
) -> (r: Option<StrLenLat>)
    ensures
        match (spec_abs_eval(*arg2, env@), spec_abs_eval(*arg3, env@)) {
            (Ok(MixV::Conc(ValV::Int(_))), Ok(MixV::Conc(ValV::Int(_)))) => (r matches Some(x)
                && x@ == LatV::Top),
            _ => r is None,
        },
{
    let r2 = abs_interp(arg2, env);
    let r3 = abs_interp(arg3, env);
    match (r2, r3) {
        (Ok(MixedValue::Conc(StrVal::Int(_))), Ok(MixedValue::Conc(StrVal::Int(_)))) => Some(
            StrLenLat::Top,
        ),
        _ => None,
    }
}

/// What expanding a committed hole produces besides re-queued holes: a call
/// whose enumerated arguments are hole-free and whose dependent argument has
/// become an open hole carrying the inverted target.
pub open spec fn committed_child(g: Func<StrValAbs, StrLenLat>) -> bool {
    ||| (g matches Func::Append(c, h) && !spec_expr_has_hole(*c) && (*h) matches Expr::Hole(
        _,
        _,
    ))
    ||| (g matches Func::Substr(h, c1, c2) && (*h) matches Expr::Hole(_, _)
        && !spec_expr_has_hole(*c1) && !spec_expr_has_hole(*c2))
}

/// The committed `append` shape with enumeration budget `n`.
pub open spec fn pending_is_append(p: Option<Func<StrValAbs, StrLenLat>>, sz: u32) -> bool {
    p matches Some(f) && (f matches Func::Append(ch, dh) && *ch == Expr::<
        StrValAbs,
        StrLenLat,
    >::ConcHole(sz) && *dh == Expr::<StrValAbs, StrLenLat>::DepHole)
}

/// The committed `substr` shape with enumeration budgets `s1`, `s2`.
pub open spec fn pending_is_substr(p: Option<Func<StrValAbs, StrLenLat>>, s1: u32, s2: u32) -> bool {
    p matches Some(f) && (f matches Func::Substr(dh, c1, c2) && *dh == Expr::<
        StrValAbs,
        StrLenLat,
    >::DepHole && *c1 == Expr::<StrValAbs, StrLenLat>::ConcHole(s1) && *c2 == Expr::<
        StrValAbs,
        StrLenLat,
    >::ConcHole(s2))
}

/// A hole committed to the `append` shape with budget `n` and target `t`.
pub open spec fn is_append_seed(e: Expr<StrValAbs, StrLenLat>, t: LatV, n: u32) -> bool {
    e matches Expr::Hole(l, p) && l@ == t && pending_is_append(p, n)
}

/// A hole committed to the `substr` shape with budgets `n1`, `n2` and target
/// `t`.
pub open spec fn is_substr_seed(e: Expr<StrValAbs, StrLenLat>, t: LatV, n1: u32, n2: u32) -> bool {
    e matches Expr::Hole(l, p) && l@ == t && pending_is_substr(p, n1, n2)
}

/// Whether the `append` inverse is defined for a fixed argument: its
/// abstract value stands for a lattice element.
pub open spec fn append_inv_defined(c: TermA, env: Seq<(String, StrValAbs)>) -> bool {
    match spec_abs_eval(*c, env) {
        Ok(v) => match v {
            MixV::Abs(_) => true,
            MixV::Conc(cv) => try_alpha_v(cv) is Some,
        },
        Err(_) => false,
    }
}

/// The target the dependent `append` argument must reach: the overall target
/// minus the fixed argument's element.
pub open spec fn append_inv_val(c: TermA, t: LatV, env: Seq<(String, StrValAbs)>) -> LatV {
    match spec_abs_eval(*c, env) {
        Ok(v) => match v {
            MixV::Abs(l) => lat_v_sub(t, l),
            MixV::Conc(cv) => match try_alpha_v(cv) {
                Some(l) => lat_v_sub(t, l),
                None => LatV::Top,
            },
        },
        Err(_) => LatV::Top,
    }
}

/// Position `k` of `s` holds the expanded `append` child for the fixed
/// argument `c`: the call with `c` kept and an open hole at the inverted
/// target.
pub open spec fn append_child_at(
    s: Seq<TermA>,
    k: int,
    c: TermA,
    t: LatV,
    env: Seq<(String, StrValAbs)>,
) -> bool {
    (*s[k]) matches Expr::Call(g) && (g matches Func::Append(c2, h) && c2 == c && ((*h) matches Expr::Hole(
        l,
        pp,
    ) && l@ == append_inv_val(c, t, env) && pp is None))
}

/// The expanded `append` child for `c` stands somewhere in `s`, whenever the
/// inverse is defined for `c`.
pub open spec fn append_child_in(
    c: TermA,
    t: LatV,
    env: Seq<(String, StrValAbs)>,
    s: Seq<TermA>,
) -> bool {
    append_inv_defined(c, env) ==> exists|k: int|
        0 <= k < s.len() && #[trigger] append_child_at(s, k, c, t, env)
}

/// Whether the `substr` inverse is defined for fixed bounds: both evaluate
/// to concrete integers.
pub open spec fn substr_inv_defined(c1: TermA, c2: TermA, env: Seq<(String, StrValAbs)>) -> bool {
    (spec_abs_eval(*c1, env) matches Ok(MixV::Conc(ValV::Int(_)))) && (spec_abs_eval(
        *c2,
        env,
    ) matches Ok(MixV::Conc(ValV::Int(_))))
}

/// Position `k` of `s` holds the expanded `substr` child for fixed bounds
/// `c1`, `c2`: the call with both bounds kept and an open hole at `Top`.
pub open spec fn substr_child_at(s: Seq<TermA>, k: int, c1: TermA, c2: TermA) -> bool {
    (*s[k]) matches Expr::Call(g) && (g matches Func::Substr(h, d1, d2) && d1 == c1 && d2 == c2 && (
    (*h) matches Expr::Hole(l, pp) && l@ == LatV::Top && pp is None))
}

/// The expanded `substr` child for `c1`, `c2` stands somewhere in `s`,
/// whenever the inverse is defined.
pub open spec fn substr_child_in(
    c1: TermA,
    c2: TermA,
    env: Seq<(String, StrValAbs)>,
    s: Seq<TermA>,
) -> bool {
    substr_inv_defined(c1, c2, env) ==> exists|k: int|
        0 <= k < s.len() && #[trigger] substr_child_at(s, k, c1, c2)
}

/// Expands an open hole.  A hole that has not committed to a call shape
/// yields every enumerated leaf whose value sits below the target, plus one
/// committed hole per call shape; a committed hole resolves its enumerated
/// arguments, inverts the sibling target, and also re-queues itself with a
/// larger enumeration budget.
pub fn visit_hole(
    target: &StrLenLat,
    pending: &Option<Func<StrValAbs, StrLenLat>>,
    env: &Environment<StrValAbs>,
    cache: &mut HashMap<u32, Vec<TermA>>,
) -> (r: Vec<TermA>)
    requires
        cache_wf(old(cache)@, env@),
    ensures
        cache_wf(final(cache)@, env@),
        cache_preserved(old(cache)@, final(cache)@),
        pending is None ==> forall|i: int|
            0 <= i < r@.len() ==> ((*#[trigger] r@[i]) matches Expr::Hole(_, _) || (
            !spec_expr_has_hole(*r@[i]) && (spec_abs_eval(*r@[i], env@) matches Ok(w)
                && mix_le_v(w, MixV::Abs(target@))))),
        pending is Some ==> forall|i: int|
            0 <= i < r@.len() ==> ((*#[trigger] r@[i]) matches Expr::Hole(_, _) || ((*r@[i]) matches Expr::Call(g)
                && committed_child(g))),
        pending is None ==> {
            &&& final(cache)@.contains_key(0)
            &&& (forall|i: int|
                0 <= i < final(cache)@[0]@.len() ==> ((spec_abs_eval(
                    *#[trigger] final(cache)@[0]@[i],
                    env@,
                ) matches Ok(w) && mix_le_v(w, MixV::Abs(target@))) ==> r@.contains(
                    final(cache)@[0]@[i],
                )))
            &&& (exists|k: int| 0 <= k < r@.len() && is_append_seed(*#[trigger] r@[k], target@, 0))
            &&& (exists|k: int|
                0 <= k < r@.len() && is_substr_seed(*#[trigger] r@[k], target@, 0, 0))
        },
        forall|sz: u32|
            #[trigger] pending_is_append(*pending, sz) ==> {
                &&& final(cache)@.contains_key(sz)
                &&& (forall|i: int|
                    0 <= i < final(cache)@[sz]@.len() ==> append_child_in(
                        #[trigger] final(cache)@[sz]@[i],
                        target@,
                        env@,
                        r@,
                    ))
                &&& (sz < u32::MAX ==> exists|k: int|
                    0 <= k < r@.len() && is_append_seed(*#[trigger] r@[k], target@, (sz
                        + 1) as u32))
            },
        forall|s1: u32, s2: u32|
            #[trigger] pending_is_substr(*pending, s1, s2) ==> {
                &&& final(cache)@.contains_key(s1)
                &&& final(cache)@.contains_key(s2)
                &&& (forall|i: int, j: int|
                    0 <= i < final(cache)@[s1]@.len() && 0 <= j < final(cache)@[s2]@.len()
                        ==> substr_child_in(
                        #[trigger] final(cache)@[s1]@[i],
                        #[trigger] final(cache)@[s2]@[j],
                        env@,
                        r@,
                    ))
                &&& (s1 < u32::MAX ==> exists|k: int|
                    0 <= k < r@.len() && is_substr_seed(*#[trigger] r@[k], target@, (s1
                        + 1) as u32, s2))
                &&& (s2 < u32::MAX ==> exists|k: int|
                    0 <= k < r@.len() && is_substr_seed(*#[trigger] r@[k], target@, s1, (s2
                        + 1) as u32))
            },
{
    match pending {
        None => {
            let leaves = concretize(env, 0, cache);
            let mut out: Vec<TermA> = Vec::new();
            let n = leaves.len();
            let mut i: usize = 0;
            while i < n
                invariant
                    n == leaves@.len(),
                    0 <= i <= n,
                    cache_wf(cache@, env@),
                    cache_preserved(old(cache)@, cache@),
                    cache@.contains_key(0),
                    leaves@ == cache@[0]@,
                    cache_entry_wf(leaves@, 0, env@),
                    forall|k: int|
                        0 <= k < out@.len() ==> (!spec_expr_has_hole(*#[trigger] out@[k]) && (
                        spec_abs_eval(*out@[k], env@) matches Ok(w) && mix_le_v(
                            w,
                            MixV::Abs(target@),
                        ))),
                    forall|i2: int| #![trigger leaves@[i2]]
                        0 <= i2 < i ==> ((spec_abs_eval(*leaves@[i2], env@) matches Ok(w)
                            && mix_le_v(w, MixV::Abs(target@))) ==> out@.contains(leaves@[i2])),
                decreases n - i,
            {
                let ghost out0 = out@;
                match abs_interp(rc_get(&leaves[i]), env) {
                    Ok(v) => {
                        let bound: StrValAbs = MixedValue::Abs(target.clone());
                        if mixed_le(&v, &bound) {
                            out.push(rc_dup(&leaves[i]));
                            proof {
                                assert(out@[out@.len() - 1] == leaves@[i as int]);
                            }
                        }
                    },
                    Err(_) => {},
                }
                proof {
                    assert forall|i2: int| #![trigger leaves@[i2]]
                        0 <= i2 < i + 1 implies ((spec_abs_eval(*leaves@[i2], env@) matches Ok(w)
                            && mix_le_v(w, MixV::Abs(target@))) ==> out@.contains(leaves@[i2])) by {
                        if i2 < i {
                            if out0.contains(leaves@[i2]) {
                                let k = choose|k: int|
                                    0 <= k < out0.len() && out0[k] == leaves@[i2];
                                assert(out@[k] == leaves@[i2]);
                            }
                        }
                    }
                }
                i += 1;
            }
            let ghost out_leaves = out@;
            out.push(
                Rc::new(
                    Expr::Hole(
                        target.clone(),
                        Some(Func::Append(Rc::new(Expr::ConcHole(0)), Rc::new(Expr::DepHole))),
                    ),
                ),
            );
            out.push(
                Rc::new(
                    Expr::Hole(
                        target.clone(),
                        Some(
                            Func::Substr(
                                Rc::new(Expr::DepHole),
                                Rc::new(Expr::ConcHole(0)),
                                Rc::new(Expr::ConcHole(0)),
                            ),
                        ),
                    ),
                ),
            );
            proof {
                let l = out@.len();
                assert(is_append_seed(*out@[l - 2], target@, 0));
                assert(is_substr_seed(*out@[l - 1], target@, 0, 0));
                assert forall|i2: int| #![trigger leaves@[i2]]
                    0 <= i2 < leaves@.len() implies ((spec_abs_eval(*leaves@[i2], env@) matches Ok(
                    w,
                ) && mix_le_v(w, MixV::Abs(target@))) ==> out@.contains(leaves@[i2])) by {
                    if out_leaves.contains(leaves@[i2]) {
                        let k = choose|k: int|
                            0 <= k < out_leaves.len() && out_leaves[k] == leaves@[i2];
                        assert(out@[k] == leaves@[i2]);
                    }
                }
            }
            out
        },
        Some(f) => match f {
            Func::Append(ch, dh) => match (rc_get(ch), rc_get(dh)) {
                (Expr::ConcHole(sz), Expr::DepHole) => {
                    let concs = concretize(env, *sz, cache);
                    let mut out: Vec<TermA> = Vec::new();
                    let n = concs.len();
                    let mut i: usize = 0;
                    while i < n
                        invariant
                            n == concs@.len(),
                            0 <= i <= n,
                            cache_wf(cache@, env@),
                            cache_preserved(old(cache)@, cache@),
                            cache@.contains_key(*sz),
                            concs@ == cache@[*sz]@,
                            forall|k: int|
                                0 <= k < out@.len() ==> ((*#[trigger] out@[k]) matches Expr::Call(
                                    g,
                                ) && committed_child(g)),
                            forall|i2: int| #![trigger concs@[i2]]
                                0 <= i2 < i ==> append_child_in(concs@[i2], target@, env@, out@),
                        decreases n - i,
                    {
                        let ghost out0 = out@;
                        match str_append_inv(target, rc_get(&concs[i]), env) {
                            Some(lat) => {
                                let ca = rc_dup(&concs[i]);
                                proof {
                                    assert(ca == concs@[i as int]);
                                    assert(lat@ == append_inv_val(ca, target@, env@));
                                }
                                out.push(
                                    Rc::new(
                                        Expr::Call(Func::Append(ca, Rc::new(Expr::Hole(lat, None)))),
                                    ),
                                );
                                proof {
                                    let l = out@.len() - 1;
                                    assert(append_child_at(out@, l, ca, target@, env@));
                                }
                            },
                            None => {
                                proof {
                                    assert(!append_inv_defined(concs@[i as int], env@));
                                }
                            },
                        }
                        proof {
                            assert forall|i2: int| #![trigger concs@[i2]]
                                0 <= i2 < i + 1 implies append_child_in(
                                concs@[i2],
                                target@,
                                env@,
                                out@,
                            ) by {
                                if i2 < i && append_inv_defined(concs@[i2], env@) {
                                    let k = choose|k: int|
                                        0 <= k < out0.len() && #[trigger] append_child_at(
                                            out0,
                                            k,
                                            concs@[i2],
                                            target@,
                                            env@,
                                        );
                                    assert(out@[k] == out0[k]);
                                    assert(append_child_at(out@, k, concs@[i2], target@, env@));
                                }
                            }
                        }
                        i += 1;
                    }
                    let ghost out_children = out@;
                    if *sz < u32::MAX {
                        out.push(
                            Rc::new(
                                Expr::Hole(
                                    target.clone(),
                                    Some(
                                        Func::Append(
                                            Rc::new(Expr::ConcHole(*sz + 1)),
                                            Rc::new(Expr::DepHole),
                                        ),
                                    ),
                                ),
                            ),
                        );
                        proof {
                            assert(is_append_seed(*out@[out@.len() - 1], target@, (*sz + 1) as u32));
                        }
                    }
                    proof {
                        assert forall|i2: int| #![trigger concs@[i2]]
                            0 <= i2 < concs@.len() implies append_child_in(
                            concs@[i2],
                            target@,
                            env@,
                            out@,
                        ) by {
                            if append_inv_defined(concs@[i2], env@) {
                                let k = choose|k: int|
                                    0 <= k < out_children.len() && #[trigger] append_child_at(
                                        out_children,
                                        k,
                                        concs@[i2],
                                        target@,
                                        env@,
                                    );
                                assert(out@[k] == out_children[k]);
                                assert(append_child_at(out@, k, concs@[i2], target@, env@));
                            }
                        }
                        assert forall|sz2: u32| #[trigger] pending_is_append(*pending, sz2) implies sz2
                            == *sz by {}
                    }
                    out
                },
                _ => {
                    proof {
                        assert(forall|sz2: u32| !pending_is_append(*pending, sz2));
                    }
                    Vec::new()
                },
            },
            Func::Substr(dh, c1, c2) => match (rc_get(dh), rc_get(c1), rc_get(c2)) {
                (Expr::DepHole, Expr::ConcHole(s1), Expr::ConcHole(s2)) => {
                    let ghost m0 = cache@;
                    let concs1 = concretize(env, *s1, cache);
                    let ghost m1 = cache@;
                    let concs2 = concretize(env, *s2, cache);
                    proof {
                        lemma_cache_preserved_trans(m0, m1, cache@);
                        assert(concs1@ == cache@[*s1]@);
                        assert(concs2@ == cache@[*s2]@);
                    }
                    let mut out: Vec<TermA> = Vec::new();
                    let n1 = concs1.len();
                    let mut i: usize = 0;
                    while i < n1
                        invariant
                            n1 == concs1@.len(),
                            0 <= i <= n1,
                            cache_wf(cache@, env@),
                            cache_preserved(old(cache)@, cache@),
                            cache@.contains_key(*s1),
                            cache@.contains_key(*s2),
                            concs1@ == cache@[*s1]@,
                            concs2@ == cache@[*s2]@,
                            forall|k: int|
                                0 <= k < out@.len() ==> ((*#[trigger] out@[k]) matches Expr::Call(
                                    g,
                                ) && committed_child(g)),
                            forall|i2: int, j2: int| #![trigger concs1@[i2], concs2@[j2]]
                                0 <= i2 < i && 0 <= j2 < concs2@.len() ==> substr_child_in(
                                    concs1@[i2],
                                    concs2@[j2],
                                    env@,
                                    out@,
                                ),
                        decreases n1 - i,
                    {
                        let n2 = concs2.len();
                        let mut j: usize = 0;
                        while j < n2
                            invariant
                                n1 == concs1@.len(),
                                n2 == concs2@.len(),
                                0 <= i < n1,
                                0 <= j <= n2,
                                cache_wf(cache@, env@),
                                cache_preserved(old(cache)@, cache@),
                                cache@.contains_key(*s1),
                                cache@.contains_key(*s2),
                                concs1@ == cache@[*s1]@,
                                concs2@ == cache@[*s2]@,
                                forall|k: int|
                                    0 <= k < out@.len() ==> ((*#[trigger] out@[k]) matches Expr::Call(
                                        g,
                                    ) && committed_child(g)),
                                forall|i2: int, j2: int| #![trigger concs1@[i2], concs2@[j2]]
                                    0 <= i2 < i && 0 <= j2 < concs2@.len() ==> substr_child_in(
                                        concs1@[i2],
                                        concs2@[j2],
                                        env@,
                                        out@,
                                    ),
                                forall|j2: int| #![trigger concs2@[j2]]
                                    0 <= j2 < j ==> substr_child_in(
                                        concs1@[i as int],
                                        concs2@[j2],
                                        env@,
                                        out@,
                                    ),
                            decreases n2 - j,
                        {
                            let ghost out0 = out@;
                            match str_substr_inv(target, rc_get(&concs1[i]), rc_get(&concs2[j]), env) {
                                Some(lat) => {
                                    let ca = rc_dup(&concs1[i]);
                                    let cb = rc_dup(&concs2[j]);
                                    proof {
                                        assert(ca == concs1@[i as int]);
                                        assert(cb == concs2@[j as int]);
                                        assert(lat@ == LatV::Top);
                                    }
                                    out.push(
                                        Rc::new(
                                            Expr::Call(
                                                Func::Substr(
                                                    Rc::new(Expr::Hole(lat, None)),
                                                    ca,
                                                    cb,
                                                ),
                                            ),
                                        ),
                                    );
                                    proof {
                                        let l = out@.len() - 1;
                                        assert(substr_child_at(out@, l, ca, cb));
                                    }
                                },
                                None => {
                                    proof {
                                        assert(!substr_inv_defined(
                                            concs1@[i as int],
                                            concs2@[j as int],
                                            env@,
                                        ));
                                    }
                                },
                            }
                            proof {
                                assert forall|i2: int, j2: int| #![trigger concs1@[i2], concs2@[j2]]
                                    0 <= i2 < i && 0 <= j2 < concs2@.len() implies substr_child_in(
                                    concs1@[i2],
                                    concs2@[j2],
                                    env@,
                                    out@,
                                ) by {
                                    if substr_inv_defined(concs1@[i2], concs2@[j2], env@) {
                                        let k = choose|k: int|
                                            0 <= k < out0.len() && #[trigger] substr_child_at(
                                                out0,
                                                k,
                                                concs1@[i2],
                                                concs2@[j2],
                                            );
                                        assert(out@[k] == out0[k]);
                                        assert(substr_child_at(out@, k, concs1@[i2], concs2@[j2]));
                                    }
                                }
                                assert forall|j2: int| #![trigger concs2@[j2]]
                                    0 <= j2 < j + 1 implies substr_child_in(
                                    concs1@[i as int],
                                    concs2@[j2],
                                    env@,
                                    out@,
                                ) by {
                                    if j2 < j && substr_inv_defined(
                                        concs1@[i as int],
                                        concs2@[j2],
                                        env@,
                                    ) {
                                        let k = choose|k: int|
                                            0 <= k < out0.len() && #[trigger] substr_child_at(
                                                out0,
                                                k,
                                                concs1@[i as int],
                                                concs2@[j2],
                                            );
                                        assert(out@[k] == out0[k]);
                                        assert(substr_child_at(
                                            out@,
                                            k,
                                            concs1@[i as int],
                                            concs2@[j2],
                                        ));
                                    }
                                }
                            }
                            j += 1;
                        }
                        i += 1;
                    }
                    let ghost out_children = out@;
                    if *s1 < u32::MAX {
                        out.push(
                            Rc::new(
                                Expr::Hole(
                                    target.clone(),
                                    Some(
                                        Func::Substr(
                                            Rc::new(Expr::DepHole),
                                            Rc::new(Expr::ConcHole(*s1 + 1)),
                                            Rc::new(Expr::ConcHole(*s2)),
                                        ),
                                    ),
                                ),
                            ),
                        );
                        proof {
                            assert(is_substr_seed(
                                *out@[out@.len() - 1],
                                target@,
                                (*s1 + 1) as u32,
                                *s2,
                            ));
                        }
                    }
                    if *s2 < u32::MAX {
                        out.push(
                            Rc::new(
                                Expr::Hole(
                                    target.clone(),
                                    Some(
                                        Func::Substr(
                                            Rc::new(Expr::DepHole),
                                            Rc::new(Expr::ConcHole(*s1)),
                                            Rc::new(Expr::ConcHole(*s2 + 1)),
                                        ),
                                    ),
                                ),
                            ),
                        );
                        proof {
                            assert(is_substr_seed(
                                *out@[out@.len() - 1],
                                target@,
                                *s1,
                                (*s2 + 1) as u32,
                            ));
                        }
                    }
                    proof {
                        if *s1 < u32::MAX && *s2 < u32::MAX {
                            assert(is_substr_seed(
                                *out@[out@.len() - 2],
                                target@,
                                (*s1 + 1) as u32,
                                *s2,
                            ));
                            assert(is_substr_seed(
                                *out@[out@.len() - 1],
                                target@,
                                *s1,
                                (*s2 + 1) as u32,
                            ));
                        }
                        assert forall|i2: int, j2: int| #![trigger concs1@[i2], concs2@[j2]]
                            0 <= i2 < concs1@.len() && 0 <= j2 < concs2@.len() implies substr_child_in(
                            concs1@[i2],
                            concs2@[j2],
                            env@,
                            out@,
                        ) by {
                            if substr_inv_defined(concs1@[i2], concs2@[j2], env@) {
                                let k = choose|k: int|
                                    0 <= k < out_children.len() && #[trigger] substr_child_at(
                                        out_children,
                                        k,
                                        concs1@[i2],
                                        concs2@[j2],
                                    );
                                assert(out@[k] == out_children[k]);
                                assert(substr_child_at(out@, k, concs1@[i2], concs2@[j2]));
                            }
                        }
                        assert forall|t1: u32, t2: u32| #[trigger] pending_is_substr(
                            *pending,
                            t1,
                            t2,
                        ) implies t1 == *s1 by {}
                        assert forall|t1: u32, t2: u32| #[trigger] pending_is_substr(
                            *pending,
                            t1,
                            t2,
                        ) implies t2 == *s2 by {}
                    }
                    out
                },
                _ => {
                    proof {
                        assert(forall|t1: u32, t2: u32| !pending_is_substr(*pending, t1, t2));
                    }
                    Vec::new()
                },
            },
            _ => Vec::new(),
        },
    }
}

// ---------------------------------------------------------------------------
// Structural recombination
// ---------------------------------------------------------------------------

/// Wraps each expansion under the one-argument constructor: the result is
/// exactly the list of calls, in order.
fn combine1(va: &Vec<TermA>, tag: &UnOp) -> (r: Vec<TermA>)
    ensures
        r@.len() == va@.len(),
        forall|i: int|
            0 <= i < va@.len() ==> *#[trigger] r@[i] == Expr::Call(mk_un_spec(*tag, va@[i])),
        forall|k: int| 0 <= k < r@.len() ==> (*#[trigger] r@[k]) matches Expr::Call(_),
        combine1_view(va@, *tag, r@),
{
    let mut out: Vec<TermA> = Vec::new();
    let n = va.len();
    let mut i: usize = 0;
    while i < n
        invariant
            n == va@.len(),
            0 <= i <= n,
            out@.len() == i,
            forall|t: int|
                0 <= t < i ==> *#[trigger] out@[t] == Expr::Call(mk_un_spec(*tag, va@[t])),
        decreases n - i,
    {
        let x = rc_dup(&va[i]);
        out.push(Rc::new(Expr::Call(mk_un(tag, x))));
        i += 1;
    }
    out
}

/// Recombines two expansion lists under a two-argument constructor: the
/// result is exactly the calls over every pair, in row-major order.
fn combine2(va: &Vec<TermA>, vb: &Vec<TermA>, tag: &BinOp) -> (r: Vec<TermA>)
    ensures
        r@.len() == va@.len() * vb@.len(),
        forall|i: int, j: int|
            0 <= i < va@.len() && 0 <= j < vb@.len() ==> *#[trigger] r@[i * vb@.len() + j]
                == Expr::Call(mk_bin_spec(*tag, va@[i], vb@[j])),
        forall|k: int| 0 <= k < r@.len() ==> (*#[trigger] r@[k]) matches Expr::Call(_),
        combine2_view(va@, vb@, *tag, r@),
{
    let ps = all_pairs(va, vb);
    let mut out: Vec<TermA> = Vec::new();
    let n = ps.len();
    let mut k: usize = 0;
    while k < n
        invariant
            n == ps@.len(),
            0 <= k <= n,
            out@.len() == k,
            forall|t: int|
                0 <= t < k ==> *#[trigger] out@[t] == Expr::Call(
                    mk_bin_spec(*tag, ps@[t].0, ps@[t].1),
                ),
        decreases n - k,
    {
        let x = rc_dup(&ps[k].0);
        let y = rc_dup(&ps[k].1);
        out.push(Rc::new(Expr::Call(mk_bin(tag, x, y))));
        k += 1;
    }
    proof {
        assert forall|i: int, j: int|
            0 <= i < va@.len() && 0 <= j < vb@.len() implies *#[trigger] out@[i * vb@.len() + j]
            == Expr::Call(mk_bin_spec(*tag, va@[i], vb@[j])) by {
            let t = i * vb@.len() + j;
            assert(0 <= t < ps@.len()) by (nonlinear_arith)
                requires
                    t == i * vb@.len() + j,
                    0 <= i < va@.len(),
                    0 <= j < vb@.len(),
                    ps@.len() == va@.len() * vb@.len(),
            ;
            assert(ps@[t] == (va@[i], vb@[j]));
        }
    }
    out
}

/// Recombines three expansion lists under a three-argument constructor: the
/// result is exactly the calls over every triple, in row-major order.
fn combine3(va: &Vec<TermA>, vb: &Vec<TermA>, vc: &Vec<TermA>, tag: &TriOp) -> (r: Vec<TermA>)
    ensures
        r@.len() == va@.len() * vb@.len() * vc@.len(),
        forall|i: int, j: int, w: int|
            0 <= i < va@.len() && 0 <= j < vb@.len() && 0 <= w < vc@.len() ==> *#[trigger] r@[(i
                * vb@.len() + j) * vc@.len() + w] == Expr::Call(
                mk_tri_spec(*tag, va@[i], vb@[j], vc@[w]),
            ),
        forall|k: int| 0 <= k < r@.len() ==> (*#[trigger] r@[k]) matches Expr::Call(_),
        combine3_view(va@, vb@, vc@, *tag, r@),
{
    let ps = all_pairs(va, vb);
    let mut out: Vec<TermA> = Vec::new();
    let n = ps.len();
    let m = vc.len();
    let mut k: usize = 0;
    while k < n
        invariant
            n == ps@.len(),
            m == vc@.len(),
            0 <= k <= n,
            out@.len() == k * m,
            forall|t: int, w2: int|
                0 <= t < k && 0 <= w2 < m ==> *#[trigger] out@[t * m + w2] == Expr::Call(
                    mk_tri_spec(*tag, ps@[t].0, ps@[t].1, vc@[w2]),
                ),
            forall|t: int| 0 <= t < out@.len() ==> (*#[trigger] out@[t]) matches Expr::Call(_),
        decreases n - k,
    {
        let mut w: usize = 0;
        while w < m
            invariant
                n == ps@.len(),
                m == vc@.len(),
                0 <= k < n,
                0 <= w <= m,
                out@.len() == k * m + w,
                forall|t: int, w2: int|
                    0 <= t < k && 0 <= w2 < m ==> *#[trigger] out@[t * m + w2] == Expr::Call(
                        mk_tri_spec(*tag, ps@[t].0, ps@[t].1, vc@[w2]),
                    ),
                forall|t: int| 0 <= t < out@.len() ==> (*#[trigger] out@[t]) matches Expr::Call(_),
                forall|w2: int|
                    0 <= w2 < w ==> *#[trigger] out@[k * m + w2] == Expr::Call(
                        mk_tri_spec(*tag, ps@[k as int].0, ps@[k as int].1, vc@[w2]),
                    ),
            decreases m - w,
        {
            proof {
                assert(k * m + w < n * m) by (nonlinear_arith)
                    requires
                        0 <= k < n,
                        0 <= w < m,
                ;
            }
            let x = rc_dup(&ps[k].0);
            let y = rc_dup(&ps[k].1);
            let z = rc_dup(&vc[w]);
            let ghost len0 = out@.len();
            out.push(Rc::new(Expr::Call(mk_tri(tag, x, y, z))));
            proof {
                assert forall|t: int, w2: int|
                    0 <= t < k && 0 <= w2 < m implies *#[trigger] out@[t * m + w2] == Expr::Call(
                    mk_tri_spec(*tag, ps@[t].0, ps@[t].1, vc@[w2]),
                ) by {
                    assert(0 <= t * m + w2 < len0) by (nonlinear_arith)
                        requires
                            0 <= t < k as int,
                            0 <= w2 < m as int,
                            len0 == k as int * m as int + w as int,
                    ;
                }
                assert forall|w2: int|
                    0 <= w2 < w + 1 implies *#[trigger] out@[k * m + w2] == Expr::Call(
                    mk_tri_spec(*tag, ps@[k as int].0, ps@[k as int].1, vc@[w2]),
                ) by {
                    if w2 < w {
                        assert(0 <= k * m + w2 < len0) by (nonlinear_arith)
                            requires
                                0 <= w2 < w as int,
                                0 <= k as int,
                                0 <= m as int,
                                len0 == k as int * m as int + w as int,
                        ;
                    }
                }
            }
            w += 1;
        }
        proof {
            assert((k + 1) * m == k * m + m) by (nonlinear_arith);
            assert forall|t: int, w2: int|
                0 <= t < k + 1 && 0 <= w2 < m implies *#[trigger] out@[t * m + w2] == Expr::Call(
                mk_tri_spec(*tag, ps@[t].0, ps@[t].1, vc@[w2]),
            ) by {
                if t == k {
                    assert(*out@[k * m + w2] == Expr::Call(
                        mk_tri_spec(*tag, ps@[k as int].0, ps@[k as int].1, vc@[w2]),
                    ));
                }
            }
        }
        k += 1;
    }
    proof {
        assert(out@.len() == va@.len() * vb@.len() * vc@.len()) by (nonlinear_arith)
            requires
                out@.len() == n * m,
                n == va@.len() * vb@.len(),
                m == vc@.len(),
        ;
        assert forall|i: int, j: int, w: int|
            0 <= i < va@.len() && 0 <= j < vb@.len() && 0 <= w < vc@.len() implies *#[trigger] out@[(
        i * vb@.len() + j) * vc@.len() + w] == Expr::Call(mk_tri_spec(*tag, va@[i], vb@[j], vc@[w]))
            by {
            let t = i * vb@.len() + j;
            assert(0 <= t < ps@.len()) by (nonlinear_arith)
                requires
                    t == i * vb@.len() + j,
                    0 <= i < va@.len(),
                    0 <= j < vb@.len(),
                    ps@.len() == va@.len() * vb@.len(),
            ;
            assert(ps@[t] == (va@[i], vb@[j]));
            assert(*out@[t * m + w] == Expr::Call(mk_tri_spec(*tag, ps@[t].0, ps@[t].1, vc@[w])));
        }
    }
    out
}

pub open spec fn min3(a: nat, b: nat, c: nat) -> nat {
    if a <= b && a <= c {
        a
    } else if b <= c {
        b
    } else {
        c
    }
}

/// The exact recombination of one expansion list under a one-argument
/// constructor.
pub open spec fn combine1_view(sa: Seq<TermA>, tag: UnOp, r: Seq<TermA>) -> bool {
    &&& r.len() == sa.len()
    &&& forall|i: int| 0 <= i < sa.len() ==> *#[trigger] r[i] == Expr::Call(mk_un_spec(tag, sa[i]))
}

/// The exact recombination of two expansion lists under a two-argument
/// constructor: every pair, in row-major order.
pub open spec fn combine2_view(sa: Seq<TermA>, sb: Seq<TermA>, tag: BinOp, r: Seq<TermA>) -> bool {
    &&& r.len() == sa.len() * sb.len()
    &&& forall|i: int, j: int|
        0 <= i < sa.len() && 0 <= j < sb.len() ==> *#[trigger] r[i * sb.len() + j] == Expr::Call(
            mk_bin_spec(tag, sa[i], sb[j]),
        )
}

/// The exact recombination of three expansion lists under a three-argument
/// constructor: every triple, in row-major order.
pub open spec fn combine3_view(
    sa: Seq<TermA>,
    sb: Seq<TermA>,
    sc: Seq<TermA>,
    tag: TriOp,
    r: Seq<TermA>,
) -> bool {
    &&& r.len() == sa.len() * sb.len() * sc.len()
    &&& forall|i: int, j: int, w: int|
        0 <= i < sa.len() && 0 <= j < sb.len() && 0 <= w < sc.len() ==> *#[trigger] r[(i * sb.len()
            + j) * sc.len() + w] == Expr::Call(mk_tri_spec(tag, sa[i], sb[j], sc[w]))
}

/// The pointwise recombination of three expansion lists under the
/// conditional, up to the shortest.
pub open spec fn zip3_view(sa: Seq<TermA>, sb: Seq<TermA>, sc: Seq<TermA>, r: Seq<TermA>) -> bool {
    &&& r.len() == min3(sa.len(), sb.len(), sc.len())
    &&& forall|i: int| 0 <= i < r.len() ==> *#[trigger] r[i] == Expr::If(sa[i], sb[i], sc[i])
}

/// What one expansion step returns, by the shape of the expression: a leaf
/// expands to itself alone, a stray argument placeholder to nothing, and a
/// call or conditional to the exact recombination of its children's
/// expansions under the same constructor.  An open hole expands as
/// `visit_hole`'s own contract states, so the relation leaves it free here.
pub open spec fn expansion_of(t: TermA, r: Seq<TermA>) -> bool
    decreases *t,
{
    match *t {
        Expr::Const(_) => r.len() == 1 && r[0] == t,
        Expr::Var(_) => r.len() == 1 && r[0] == t,
        Expr::Call(f) => expansion_of_func(f, r),
        Expr::If(c, t2, o) => exists|rc2: Seq<TermA>, rt2: Seq<TermA>, ro2: Seq<TermA>|
                #![trigger zip3_view(rc2, rt2, ro2, r)]
                (expansion_of(c, rc2) && expansion_of(t2, rt2) && expansion_of(o, ro2) && zip3_view(rc2, rt2, ro2, r)),
        Expr::Hole(_, _) => true,
        Expr::ConcHole(_) => r.len() == 0,
        Expr::DepHole => r.len() == 0,
    }
}

pub open spec fn expansion_of_func(f: Func<StrValAbs, StrLenLat>, r: Seq<TermA>) -> bool
    decreases f,
{
    match f {
        Func::Append(a, b) => exists|ra: Seq<TermA>, rb: Seq<TermA>|
                #![trigger combine2_view(ra, rb, BinOp::Append, r)]
                (expansion_of(a, ra) && expansion_of(b, rb) && combine2_view(ra, rb, BinOp::Append, r)),
        Func::Replace(a, b, c) => exists|ra: Seq<TermA>, rb: Seq<TermA>, rc2: Seq<TermA>|
                #![trigger combine3_view(ra, rb, rc2, TriOp::Replace, r)]
                (expansion_of(a, ra) && expansion_of(b, rb) && expansion_of(c, rc2) && combine3_view(ra, rb, rc2, TriOp::Replace, r)),
        Func::Substr(a, b, c) => exists|ra: Seq<TermA>, rb: Seq<TermA>, rc2: Seq<TermA>|
                #![trigger combine3_view(ra, rb, rc2, TriOp::Substr, r)]
                (expansion_of(a, ra) && expansion_of(b, rb) && expansion_of(c, rc2) && combine3_view(ra, rb, rc2, TriOp::Substr, r)),
        Func::Add(a, b) => exists|ra: Seq<TermA>, rb: Seq<TermA>|
                #![trigger combine2_view(ra, rb, BinOp::Add, r)]
                (expansion_of(a, ra) && expansion_of(b, rb) && combine2_view(ra, rb, BinOp::Add, r)),
        Func::Sub(a, b) => exists|ra: Seq<TermA>, rb: Seq<TermA>|
                #![trigger combine2_view(ra, rb, BinOp::Sub, r)]
                (expansion_of(a, ra) && expansion_of(b, rb) && combine2_view(ra, rb, BinOp::Sub, r)),
        Func::Len(a) => exists|ra: Seq<TermA>|
                #![trigger combine1_view(ra, UnOp::Len, r)]
                (expansion_of(a, ra) && combine1_view(ra, UnOp::Len, r)),
        Func::At(a, b) => exists|ra: Seq<TermA>, rb: Seq<TermA>|
                #![trigger combine2_view(ra, rb, BinOp::At, r)]
                (expansion_of(a, ra) && expansion_of(b, rb) && combine2_view(ra, rb, BinOp::At, r)),
        Func::ToStr(a) => exists|ra: Seq<TermA>|
                #![trigger combine1_view(ra, UnOp::ToStr, r)]
                (expansion_of(a, ra) && combine1_view(ra, UnOp::ToStr, r)),
        Func::ToInt(a) => exists|ra: Seq<TermA>|
                #![trigger combine1_view(ra, UnOp::ToInt, r)]
                (expansion_of(a, ra) && combine1_view(ra, UnOp::ToInt, r)),
        Func::IndexOf(a, b, c) => exists|ra: Seq<TermA>, rb: Seq<TermA>, rc2: Seq<TermA>|
                #![trigger combine3_view(ra, rb, rc2, TriOp::IndexOf, r)]
                (expansion_of(a, ra) && expansion_of(b, rb) && expansion_of(c, rc2) && combine3_view(ra, rb, rc2, TriOp::IndexOf, r)),
        Func::PrefixOf(a, b) => exists|ra: Seq<TermA>, rb: Seq<TermA>|
                #![trigger combine2_view(ra, rb, BinOp::PrefixOf, r)]
                (expansion_of(a, ra) && expansion_of(b, rb) && combine2_view(ra, rb, BinOp::PrefixOf, r)),
        Func::SuffixOf(a, b) => exists|ra: Seq<TermA>, rb: Seq<TermA>|
                #![trigger combine2_view(ra, rb, BinOp::SuffixOf, r)]
                (expansion_of(a, ra) && expansion_of(b, rb) && combine2_view(ra, rb, BinOp::SuffixOf, r)),
        Func::Contains(a, b) => exists|ra: Seq<TermA>, rb: Seq<TermA>|
                #![trigger combine2_view(ra, rb, BinOp::Contains, r)]
                (expansion_of(a, ra) && expansion_of(b, rb) && combine2_view(ra, rb, BinOp::Contains, r)),
    }
}

/// Expands a partial program one step: conditionals and calls expand each
/// child and recombine, holes expand as `visit_hole` says, and leaves stand
/// as they are.
pub fn visit(
    e: &TermA,
    env: &Environment<StrValAbs>,
    cache: &mut HashMap<u32, Vec<TermA>>,
) -> (r: Vec<TermA>)
    requires
        cache_wf(old(cache)@, env@),
    ensures
        cache_wf(final(cache)@, env@),
        cache_preserved(old(cache)@, final(cache)@),
        expansion_of(*e, r@),
        ((**e) matches Expr::Const(..) || (**e) matches Expr::Var(..)) ==> r@.len() == 1
            && spec_abs_eval(*r@[0], env@) == spec_abs_eval(**e, env@),
        ((**e) matches Expr::ConcHole(_) || (**e) matches Expr::DepHole) ==> r@.len() == 0,
        (**e) matches Expr::Call(..) ==> forall|i: int|
            0 <= i < r@.len() ==> (*#[trigger] r@[i]) matches Expr::Call(_),
    decreases **e, 1int,
{
    match rc_get(e) {
        Expr::Const(_) => {
            let mut out: Vec<TermA> = Vec::new();
            out.push(rc_dup(e));
            out
        },
        Expr::Var(_) => {
            let mut out: Vec<TermA> = Vec::new();
            out.push(rc_dup(e));
            out
        },
        Expr::Call(f) => {
            let res = visit_func(f, env, cache);
            proof {
                assert(expansion_of(*e, res@));
            }
            res
        },
        Expr::If(c, t, o) => {
            let ghost m0 = cache@;
            let vc = visit(c, env, cache);
            let ghost m1 = cache@;
            let vt = visit(t, env, cache);
            let ghost m2 = cache@;
            let vo = visit(o, env, cache);
            proof {
                lemma_cache_preserved_trans(m0, m1, m2);
                lemma_cache_preserved_trans(m0, m2, cache@);
            }
            let mut n = vc.len();
            if vt.len() < n {
                n = vt.len();
            }
            if vo.len() < n {
                n = vo.len();
            }
            let mut out: Vec<TermA> = Vec::new();
            let mut i: usize = 0;
            while i < n
                invariant
                    n <= vc@.len(),
                    n <= vt@.len(),
                    n <= vo@.len(),
                    0 <= i <= n,
                    out@.len() == i,
                    forall|i2: int|
                        0 <= i2 < i ==> *#[trigger] out@[i2] == Expr::If(
                            vc@[i2],
                            vt@[i2],
                            vo@[i2],
                        ),
                decreases n - i,
            {
                out.push(
                    Rc::new(Expr::If(rc_dup(&vc[i]), rc_dup(&vt[i]), rc_dup(&vo[i]))),
                );
                i += 1;
            }
            proof {
                reveal_with_fuel(expansion_of, 2);
                reveal_with_fuel(expansion_of_func, 2);
                assert(**e == Expr::If(*c, *t, *o));
                assert(expansion_of((**e)->If_0, vc@));
                assert(expansion_of((**e)->If_1, vt@));
                assert(expansion_of((**e)->If_2, vo@));
                assert(n as nat == min3(vc@.len(), vt@.len(), vo@.len()));
                assert(zip3_view(vc@, vt@, vo@, out@));
                assert(expansion_of(*e, out@));
            }
            out
        },
        Expr::Hole(abs, pending) => visit_hole(abs, pending, env, cache),
        Expr::ConcHole(_) => Vec::new(),
        Expr::DepHole => Vec::new(),
    }
}

fn visit_func(
    f: &Func<StrValAbs, StrLenLat>,
    env: &Environment<StrValAbs>,
    cache: &mut HashMap<u32, Vec<TermA>>,
) -> (r: Vec<TermA>)
    requires
        cache_wf(old(cache)@, env@),
    ensures
        cache_wf(final(cache)@, env@),
        cache_preserved(old(cache)@, final(cache)@),
        expansion_of_func(*f, r@),
        forall|i: int| 0 <= i < r@.len() ==> (*#[trigger] r@[i]) matches Expr::Call(_),
    decreases *f, 0int,
{
    match f {
        Func::Append(a, b) => {
            let ghost m0 = cache@;
            let va = visit(a, env, cache);
            let ghost m1 = cache@;
            let vb = visit(b, env, cache);
            proof {
                lemma_cache_preserved_trans(m0, m1, cache@);
            }
            let res = combine2(&va, &vb, &BinOp::Append);
            proof {
                reveal_with_fuel(expansion_of, 2);
                reveal_with_fuel(expansion_of_func, 2);
                assert(*f == Func::Append(*a, *b));
                assert(expansion_of((*f)->Append_0, va@));
                assert(expansion_of((*f)->Append_1, vb@));
                assert(expansion_of(*a, va@));
                assert(expansion_of(*b, vb@));
                assert(combine2_view(va@, vb@, BinOp::Append, res@));
                assert(expansion_of_func(*f, res@));
            }
            res
        },
        Func::Replace(a, b, c) => {
            let ghost m0 = cache@;
            let va = visit(a, env, cache);
            let ghost m1 = cache@;
            let vb = visit(b, env, cache);
            let ghost m2 = cache@;
            let vc = visit(c, env, cache);
            proof {
                lemma_cache_preserved_trans(m0, m1, m2);
                lemma_cache_preserved_trans(m0, m2, cache@);
            }
            let res = combine3(&va, &vb, &vc, &TriOp::Replace);
            proof {
                reveal_with_fuel(expansion_of, 2);
                reveal_with_fuel(expansion_of_func, 2);
                assert(*f == Func::Replace(*a, *b, *c));
                assert(expansion_of((*f)->Replace_0, va@));
                assert(expansion_of((*f)->Replace_1, vb@));
                assert(expansion_of((*f)->Replace_2, vc@));
                assert(expansion_of(*a, va@));
                assert(expansion_of(*b, vb@));
                assert(expansion_of(*c, vc@));
                assert(combine3_view(va@, vb@, vc@, TriOp::Replace, res@));
                assert(expansion_of_func(*f, res@));
            }
            res
        },
        Func::Substr(a, b, c) => {
            let ghost m0 = cache@;
            let va = visit(a, env, cache);
            let ghost m1 = cache@;
            let vb = visit(b, env, cache);
            let ghost m2 = cache@;
            let vc = visit(c, env, cache);
            proof {
                lemma_cache_preserved_trans(m0, m1, m2);
                lemma_cache_preserved_trans(m0, m2, cache@);
            }
            let res = combine3(&va, &vb, &vc, &TriOp::Substr);
            proof {
                reveal_with_fuel(expansion_of, 2);
                reveal_with_fuel(expansion_of_func, 2);
                assert(*f == Func::Substr(*a, *b, *c));
                assert(expansion_of((*f)->Substr_0, va@));
                assert(expansion_of((*f)->Substr_1, vb@));
                assert(expansion_of((*f)->Substr_2, vc@));
                assert(expansion_of(*a, va@));
                assert(expansion_of(*b, vb@));
                assert(expansion_of(*c, vc@));
                assert(combine3_view(va@, vb@, vc@, TriOp::Substr, res@));
                assert(expansion_of_func(*f, res@));
            }
            res
        },
        Func::Add(a, b) => {
            let ghost m0 = cache@;
            let va = visit(a, env, cache);
            let ghost m1 = cache@;
            let vb = visit(b, env, cache);
            proof {
                lemma_cache_preserved_trans(m0, m1, cache@);
            }
            let res = combine2(&va, &vb, &BinOp::Add);
            proof {
                reveal_with_fuel(expansion_of, 2);
                reveal_with_fuel(expansion_of_func, 2);
                assert(*f == Func::Add(*a, *b));
                assert(expansion_of((*f)->Add_0, va@));
                assert(expansion_of((*f)->Add_1, vb@));
                assert(expansion_of(*a, va@));
                assert(expansion_of(*b, vb@));
                assert(combine2_view(va@, vb@, BinOp::Add, res@));
                assert(expansion_of_func(*f, res@));
            }
            res
        },
        Func::Sub(a, b) => {
            let ghost m0 = cache@;
            let va = visit(a, env, cache);
            let ghost m1 = cache@;
            let vb = visit(b, env, cache);
            proof {
                lemma_cache_preserved_trans(m0, m1, cache@);
            }
            let res = combine2(&va, &vb, &BinOp::Sub);
            proof {
                reveal_with_fuel(expansion_of, 2);
                reveal_with_fuel(expansion_of_func, 2);
                assert(*f == Func::Sub(*a, *b));
                assert(expansion_of((*f)->Sub_0, va@));
                assert(expansion_of((*f)->Sub_1, vb@));
                assert(expansion_of(*a, va@));
                assert(expansion_of(*b, vb@));
                assert(combine2_view(va@, vb@, BinOp::Sub, res@));
                assert(expansion_of_func(*f, res@));
            }
            res
        },
        Func::Len(a) => {
            let va = visit(a, env, cache);
            let res = combine1(&va, &UnOp::Len);
            proof {
                reveal_with_fuel(expansion_of, 2);
                reveal_with_fuel(expansion_of_func, 2);
                assert(*f == Func::Len(*a));
                assert(expansion_of((*f)->Len_0, va@));
                assert(expansion_of(*a, va@));
                assert(combine1_view(va@, UnOp::Len, res@));
                assert(expansion_of_func(*f, res@));
            }
            res
        },
        Func::At(a, b) => {
            let ghost m0 = cache@;
            let va = visit(a, env, cache);
            let ghost m1 = cache@;
            let vb = visit(b, env, cache);
            proof {
                lemma_cache_preserved_trans(m0, m1, cache@);
            }
            let res = combine2(&va, &vb, &BinOp::At);
            proof {
                reveal_with_fuel(expansion_of, 2);
                reveal_with_fuel(expansion_of_func, 2);
                assert(*f == Func::At(*a, *b));
                assert(expansion_of((*f)->At_0, va@));
                assert(expansion_of((*f)->At_1, vb@));
                assert(expansion_of(*a, va@));
                assert(expansion_of(*b, vb@));
                assert(combine2_view(va@, vb@, BinOp::At, res@));
                assert(expansion_of_func(*f, res@));
            }
            res
        },
        Func::ToStr(a) => {
            let va = visit(a, env, cache);
            let res = combine1(&va, &UnOp::ToStr);
            proof {
                reveal_with_fuel(expansion_of, 2);
                reveal_with_fuel(expansion_of_func, 2);
                assert(*f == Func::ToStr(*a));
                assert(expansion_of((*f)->ToStr_0, va@));
                assert(expansion_of(*a, va@));
                assert(combine1_view(va@, UnOp::ToStr, res@));
                assert(expansion_of_func(*f, res@));
            }
            res
        },
        Func::ToInt(a) => {
            let va = visit(a, env, cache);
            let res = combine1(&va, &UnOp::ToInt);
            proof {
                reveal_with_fuel(expansion_of, 2);
                reveal_with_fuel(expansion_of_func, 2);
                assert(*f == Func::ToInt(*a));
                assert(expansion_of((*f)->ToInt_0, va@));
                assert(expansion_of(*a, va@));
                assert(combine1_view(va@, UnOp::ToInt, res@));
                assert(expansion_of_func(*f, res@));
            }
            res
        },
        Func::IndexOf(a, b, c) => {
            let ghost m0 = cache@;
            let va = visit(a, env, cache);
            let ghost m1 = cache@;
            let vb = visit(b, env, cache);
            let ghost m2 = cache@;
            let vc = visit(c, env, cache);
            proof {
                lemma_cache_preserved_trans(m0, m1, m2);
                lemma_cache_preserved_trans(m0, m2, cache@);
            }
            let res = combine3(&va, &vb, &vc, &TriOp::IndexOf);
            proof {
                reveal_with_fuel(expansion_of, 2);
                reveal_with_fuel(expansion_of_func, 2);
                assert(*f == Func::IndexOf(*a, *b, *c));
                assert(expansion_of((*f)->IndexOf_0, va@));
                assert(expansion_of((*f)->IndexOf_1, vb@));
                assert(expansion_of((*f)->IndexOf_2, vc@));
                assert(expansion_of(*a, va@));
                assert(expansion_of(*b, vb@));
                assert(expansion_of(*c, vc@));
                assert(combine3_view(va@, vb@, vc@, TriOp::IndexOf, res@));
                assert(expansion_of_func(*f, res@));
            }
            res
        },
        Func::PrefixOf(a, b) => {
            let ghost m0 = cache@;
            let va = visit(a, env, cache);
            let ghost m1 = cache@;
            let vb = visit(b, env, cache);
            proof {
                lemma_cache_preserved_trans(m0, m1, cache@);
            }
            let res = combine2(&va, &vb, &BinOp::PrefixOf);
            proof {
                reveal_with_fuel(expansion_of, 2);
                reveal_with_fuel(expansion_of_func, 2);
                assert(*f == Func::PrefixOf(*a, *b));
                assert(expansion_of((*f)->PrefixOf_0, va@));
                assert(expansion_of((*f)->PrefixOf_1, vb@));
                assert(expansion_of(*a, va@));
                assert(expansion_of(*b, vb@));
                assert(combine2_view(va@, vb@, BinOp::PrefixOf, res@));
                assert(expansion_of_func(*f, res@));
            }
            res
        },
        Func::SuffixOf(a, b) => {
            let ghost m0 = cache@;
            let va = visit(a, env, cache);
            let ghost m1 = cache@;
            let vb = visit(b, env, cache);
            proof {
                lemma_cache_preserved_trans(m0, m1, cache@);
            }
            let res = combine2(&va, &vb, &BinOp::SuffixOf);
            proof {
                reveal_with_fuel(expansion_of, 2);
                reveal_with_fuel(expansion_of_func, 2);
                assert(*f == Func::SuffixOf(*a, *b));
                assert(expansion_of((*f)->SuffixOf_0, va@));
                assert(expansion_of((*f)->SuffixOf_1, vb@));
                assert(expansion_of(*a, va@));
                assert(expansion_of(*b, vb@));
                assert(combine2_view(va@, vb@, BinOp::SuffixOf, res@));
                assert(expansion_of_func(*f, res@));
            }
            res
        },
        Func::Contains(a, b) => {
            let ghost m0 = cache@;
            let va = visit(a, env, cache);
            let ghost m1 = cache@;
            let vb = visit(b, env, cache);
            proof {
                lemma_cache_preserved_trans(m0, m1, cache@);
            }
            let res = combine2(&va, &vb, &BinOp::Contains);
            proof {
                reveal_with_fuel(expansion_of, 2);
                reveal_with_fuel(expansion_of_func, 2);
                assert(*f == Func::Contains(*a, *b));
                assert(expansion_of((*f)->Contains_0, va@));
                assert(expansion_of((*f)->Contains_1, vb@));
                assert(expansion_of(*a, va@));
                assert(expansion_of(*b, vb@));
                assert(combine2_view(va@, vb@, BinOp::Contains, res@));
                assert(expansion_of_func(*f, res@));
            }
            res
        },
    }
}

// ---------------------------------------------------------------------------
// The search
// ---------------------------------------------------------------------------

/// The typed failure of a search that ran out of candidates: no program
/// within the carried size bound satisfies the examples.
#[derive(Clone, Copy, PartialEq, Eq, Structural, Debug)]
pub enum SynthesisError {
    Exhausted(u32),
}

/// How many expansion steps a search may take before giving up: enumerative
/// search grows combinatorially, so a run that has not finished within this
/// budget is reported as exhausted rather than left to run without bound.
pub const SEARCH_BUDGET: u64 = 10000000;

/// Appends an item to the bucket of its size.  Buckets keep the worklist
/// ordered by size with ties in discovery order, which is what best-first
/// expansion asks for.
fn bucket_push(buckets: &mut Vec<Vec<TermA>>, idx: usize, item: TermA)
    requires
        idx < old(buckets)@.len(),
    ensures
        final(buckets)@.len() == old(buckets)@.len(),
{
    let mut b = buckets.remove(idx);
    b.push(item);
    buckets.insert(idx, b);
}

/// Takes the next item in size order: the unread front of the lowest
/// non-exhausted bucket.
fn bucket_pop(buckets: &Vec<Vec<TermA>>, cursors: &mut Vec<usize>) -> (r: Option<TermA>)
    requires
        old(cursors)@.len() == buckets@.len(),
    ensures
        final(cursors)@.len() == buckets@.len(),
{
    let nb = buckets.len();
    let mut i: usize = 0;
    while i < nb
        invariant
            nb == buckets@.len(),
            cursors@.len() == nb,
            0 <= i <= nb,
        decreases nb - i,
    {
        let cur = cursors[i];
        if cur < buckets[i].len() {
            let item = rc_dup(&buckets[i][cur]);
            let _ = cursors.remove(i);
            cursors.insert(i, cur + 1);
            return Some(item);
        }
        i += 1;
    }
    None
}

/// The search engine.


pub struct Synthesizer;

impl Synthesizer {
    /// Binds the positional arguments as `arg0`, `arg1`, ... and runs the
    /// abstract evaluator, which on fully concrete programs and arguments
    /// computes concretely.
    pub fn wrap_func(expr: &Expr<StrValAbs, StrLenLat>, args: &Vec<StrValAbs>) -> (r: EvalResult<
        StrValAbs,
    >)
        ensures
            exists|env2: Seq<(String, StrValAbs)>|
                {
                    &&& env2.len() == args@.len()
                    &&& (forall|i: int|
                        0 <= i < args@.len() ==> (#[trigger] env_lookup(env2, arg_name(i)) matches Some(
                            v,
                        ) && v@ == args@[i]@))
                    &&& (forall|name: Seq<char>|
                        (forall|i: int| 0 <= i < args@.len() ==> name != #[trigger] arg_name(i))
                            ==> #[trigger] env_lookup(env2, name) is None)
                    &&& mix_res_view(r) == spec_abs_eval(*expr, env2)
                },
    {
        let env = Self::make_arg_env(args);
        let r = abs_interp(expr, &env);
        proof {
            let ghost e0 = env@;
            assert forall|name: Seq<char>|
                (forall|i: int| 0 <= i < args@.len() ==> name != #[trigger] arg_name(i)) implies #[trigger] env_lookup(
                e0,
                name,
            ) is None by {
                assert forall|k: int| 0 <= k < e0.len() implies e0[k].0@ != name by {
                    assert(e0[k].0@ == arg_name(args@.len() - 1 - k));
                    assert(name != arg_name(args@.len() - 1 - k));
                }
                lemma_lookup_absent(e0, name);
            }
            assert({
                &&& e0.len() == args@.len()
                &&& (forall|i: int|
                    0 <= i < args@.len() ==> (#[trigger] env_lookup(e0, arg_name(i)) matches Some(
                        v,
                    ) && v@ == args@[i]@))
                &&& (forall|name: Seq<char>|
                    (forall|i: int| 0 <= i < args@.len() ==> name != #[trigger] arg_name(i))
                        ==> #[trigger] env_lookup(e0, name) is None)
                &&& mix_res_view(r) == spec_abs_eval(*expr, e0)
            });
        }
        r
    }

    fn make_arg_env(args: &Vec<StrValAbs>) -> (r: Environment<StrValAbs>)
        ensures
            r@.len() == args@.len(),
            forall|k: int| 0 <= k < r@.len() ==> (#[trigger] r@[k]).0@ == arg_name(
                args@.len() - 1 - k,
            ),
            forall|k: int| 0 <= k < r@.len() ==> (#[trigger] r@[k]).1@ == args@[args@.len() - 1
                - k]@,
            forall|i: int|
                0 <= i < args@.len() ==> (#[trigger] env_lookup(r@, arg_name(i)) matches Some(v)
                    && v@ == args@[i]@),
    {
        let mut env: Environment<StrValAbs> = Environment::new();
        let n = args.len();
        let mut i: usize = 0;
        while i < n
            invariant
                n == args@.len(),
                0 <= i <= n,
                env@.len() == i,
                forall|k: int| 0 <= k < i ==> (#[trigger] env@[k]).0@ == arg_name(i - 1 - k),
                forall|k: int| 0 <= k < i ==> (#[trigger] env@[k]).1@ == args@[i - 1 - k]@,
                forall|k: int|
                    0 <= k < i ==> (#[trigger] env_lookup(env@, arg_name(k)) matches Some(v) && v@
                        == args@[k]@),
            decreases n - i,
        {
            let name = arg_name_exec(i);
            let ghost pre = env@;
            let ghost nameg = name;
            let v = args[i].clone();
            let ghost vg = v;
            env.put(name, v);
            proof {
                assert(env@ =~= seq![(nameg, vg)].add(pre));
                assert forall|k: int|
                    0 <= k <= i implies (#[trigger] env_lookup(env@, arg_name(k)) matches Some(v2)
                    && v2@ == args@[k]@) by {
                    lemma_lookup_insert(pre, nameg, vg, arg_name(k));
                    if k < i {
                        if arg_name(k) == arg_name(i as int) {
                            lemma_arg_name_injective(k, i as int);
                        }
                        assert(arg_name(k) != nameg@);
                    } else {
                        assert(arg_name(k) == nameg@);
                    }
                }
            }
            i += 1;
        }
        env
    }

    /// The best-first worklist search: starting from a single open hole with
    /// the given target, repeatedly expands a smallest item; fully concrete
    /// candidates within the size bound go to the example oracle, and
    /// partial ones are re-queued only while they stay within the bound and
    /// their abstract value is comparable with the target.  Success returns
    /// the accepted hole-free candidates of one expansion, all of one size.
    /// The `Exhausted` failure, carrying the size bound, arises in exactly
    /// two ways: the worklist emptied with every tested candidate failing
    /// the oracle, or the step budget `SEARCH_BUDGET` elapsed first.
    pub fn synthesize<F: Fn(&Expr<StrValAbs, StrLenLat>) -> bool>(
        ctx: &mut Context,
        target: StrLenLat,
        env: &Environment<StrValAbs>,
        test: F,
    ) -> (r: Result<Vec<TermA>, SynthesisError>)
        requires
            old(ctx).wf(env@),
            forall|e: Expr<StrValAbs, StrLenLat>| #[trigger] call_requires(test, (&e,)),
        ensures
            final(ctx).wf(env@),
            final(ctx).max_size_spec() == old(ctx).max_size_spec(),
            cache_preserved(old(ctx).cache_view(), final(ctx).cache_view()),
            r matches Ok(v) ==> v@.len() > 0 && (forall|i: int|
                0 <= i < v@.len() ==> !spec_expr_has_hole(*#[trigger] v@[i]) && spec_expr_size(
                    *v@[i],
                ) <= old(ctx).max_size_spec() && call_ensures(test, (&*v@[i],), true)),
            r matches Ok(v) ==> forall|i: int, j: int|
                0 <= i < v@.len() && 0 <= j < v@.len() ==> spec_expr_size(*#[trigger] v@[i])
                    == spec_expr_size(*#[trigger] v@[j]),
            r matches Err(e2) ==> e2 == SynthesisError::Exhausted(old(ctx).max_size_spec()),
    {
        let nb_cap: u32 = if ctx.max_size < u32::MAX {
            ctx.max_size + 1
        } else {
            u32::MAX
        };
        let nb: usize = nb_cap as usize;
        let mut buckets: Vec<Vec<TermA>> = Vec::new();
        let mut cursors: Vec<usize> = Vec::new();
        let mut b: usize = 0;
        while b < nb
            invariant
                0 <= b <= nb,
                buckets@.len() == b,
                cursors@.len() == b,
            decreases nb - b,
        {
            buckets.push(Vec::new());
            cursors.push(0);
            b += 1;
        }
        bucket_push(&mut buckets, 0, Rc::new(Expr::Hole(target.clone(), None)));
        let mut budget: u64 = SEARCH_BUDGET;
        while budget > 0
            invariant
                nb == nb_cap as usize,
                ctx.max_size < u32::MAX ==> nb_cap == ctx.max_size + 1,
                ctx.max_size == u32::MAX ==> nb_cap == u32::MAX,
                cache_wf(ctx.conc_exprs@, env@),
                ctx.max_size == old(ctx).max_size,
                cache_preserved(old(ctx).conc_exprs@, ctx.conc_exprs@),
                buckets@.len() == nb,
                cursors@.len() == nb,
                forall|e: Expr<StrValAbs, StrLenLat>| #[trigger] call_requires(test, (&e,)),
            decreases budget,
        {
            budget = budget - 1;
            let work_item = match bucket_pop(&buckets, &mut cursors) {
                Some(x) => x,
                None => {
                    return Err(SynthesisError::Exhausted(ctx.max_size));
                },
            };
            let ghost mh = ctx.conc_exprs@;
            let expanded = visit(&work_item, env, &mut ctx.conc_exprs);
            proof {
                lemma_cache_preserved_trans(old(ctx).conc_exprs@, mh, ctx.conc_exprs@);
            }
            let mut correct: Vec<TermA> = Vec::new();
            let mut with_holes: Vec<TermA> = Vec::new();
            let mut tie_size: u32 = 0;
            let ne = expanded.len();
            let mut k: usize = 0;
            while k < ne
                invariant
                    ne == expanded@.len(),
                    0 <= k <= ne,
                    ctx.max_size == old(ctx).max_size,
                    forall|e: Expr<StrValAbs, StrLenLat>| #[trigger] call_requires(test, (&e,)),
                    forall|i: int|
                        0 <= i < correct@.len() ==> !spec_expr_has_hole(*#[trigger] correct@[i])
                            && spec_expr_size(*correct@[i]) <= ctx.max_size && call_ensures(
                            test,
                            (&*correct@[i],),
                            true,
                        ),
                    tie_size < u32::MAX,
                    forall|i: int|
                        0 <= i < correct@.len() ==> spec_expr_size(*#[trigger] correct@[i])
                            == tie_size,
                decreases ne - k,
            {
                let cand = rc_dup(&expanded[k]);
                if rc_get(&cand).has_hole() {
                    with_holes.push(cand);
                } else {
                    let csz = rc_get(&cand).size();
                    // only same-size candidates join the returned tie set
                    if csz <= ctx.max_size && csz < u32::MAX && (correct.len() == 0 || csz
                        == tie_size) {
                        let ok = test(rc_get(&cand));
                        if ok {
                            if correct.len() == 0 {
                                tie_size = csz;
                            }
                            correct.push(cand);
                        }
                    }
                }
                k += 1;
            }
            if correct.len() > 0 {
                return Ok(correct);
            }
            let nw = with_holes.len();
            let mut w: usize = 0;
            while w < nw
                invariant
                    nb == nb_cap as usize,
                    ctx.max_size < u32::MAX ==> nb_cap == ctx.max_size + 1,
                    ctx.max_size == u32::MAX ==> nb_cap == u32::MAX,
                    nw == with_holes@.len(),
                    cache_wf(ctx.conc_exprs@, env@),
                    ctx.max_size == old(ctx).max_size,
                    cache_preserved(old(ctx).conc_exprs@, ctx.conc_exprs@),
                    buckets@.len() == nb,
                    cursors@.len() == nb,
                    0 <= w <= nw,
                decreases nw - w,
            {
                let sz = rc_get(&with_holes[w]).size();
                if sz <= ctx.max_size && sz < nb_cap {
                    // a partial program is kept only while its abstract value
                    // is comparable with the target: a different exact length
                    // can never meet it, while an approximation above the
                    // target may still be refined into it
                    match abs_interp(rc_get(&with_holes[w]), env) {
                        Ok(v) => {
                            let bound: StrValAbs = MixedValue::Abs(target.clone());
                            if mixed_le(&v, &bound) || mixed_le(&bound, &v) {
                                bucket_push(&mut buckets, sz as usize, rc_dup(&with_holes[w]));
                            }
                        },
                        Err(_) => {},
                    }
                }
                w += 1;
            }
        }
        Err(SynthesisError::Exhausted(ctx.max_size))
    }
}

} // verus!