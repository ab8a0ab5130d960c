use crate::interpreter::EvalResult;
use crate::linear::{
    i32_fits, lin_v_add, lin_v_const, lin_v_fits, lin_v_is_const, lin_v_sub, LinV, LinearExpr,
};
use crate::values::Value;
use vstd::prelude::*;
use vstd::string::*;

verus! {

// ---------------------------------------------------------------------------
// Errors
// ---------------------------------------------------------------------------

/// What can go wrong when a candidate program is run.
#[derive(Clone, Copy, PartialEq, Eq, Structural, Debug)]
pub enum EvalError {
    /// A variable is not bound in the environment.
    UnboundVariable,
    /// An operator was applied to a value of the wrong shape.
    TypeMismatch,
    /// Concrete evaluation reached a hole.
    UnresolvedHole,
    /// A substring, character or conversion index is not a plain integer.
    NonConstantIndex,
    /// A character index lies outside the string.
    InvalidIndex,
    /// A string does not spell an integer.
    NotANumber,
    /// An integer result leaves the machine range.
    Overflow,
}

// ---------------------------------------------------------------------------
// Ghost value model
// ---------------------------------------------------------------------------

/// Ghost form of a concrete value.
#[verifier::ext_equal]
pub ghost enum ValV {
    Str(Seq<char>),
    Int(LinV),
    Bool(bool),
    Error,
}

// ---------------------------------------------------------------------------
// Concrete values
// ---------------------------------------------------------------------------

/// A concrete value of the string language: a string, an integer held as a
/// linear expression so symbolic lengths stay exact, a boolean, or the error
/// sentinel of ill-typed runs.
#[derive(PartialEq)]
pub enum StrVal {
    Str(String),
    Int(LinearExpr),
    Bool(bool),
    Error,
}

impl View for StrVal {
    type V = ValV;

    open spec fn view(&self) -> ValV {
        match self {
            StrVal::Str(s) => ValV::Str(s@),
            StrVal::Int(l) => ValV::Int(l@),
            StrVal::Bool(b) => ValV::Bool(*b),
            StrVal::Error => ValV::Error,
        }
    }
}

impl Value for StrVal {
    open spec fn is_abstract_spec(&self) -> bool {
        false
    }

    fn is_abstract(&self) -> (r: bool) {
        false
    }
}

impl Clone for StrVal {
    /// Cloning keeps the value: the copy has the same ghost form.
    fn clone(&self) -> (r: Self)
        ensures
            r@ == self@,
    {
        match self {
            StrVal::Str(s) => StrVal::Str(s.clone()),
            StrVal::Int(l) => StrVal::Int(l.clone()),
            StrVal::Bool(b) => StrVal::Bool(*b),
            StrVal::Error => StrVal::Error,
        }
    }
}

impl From<i32> for StrVal {
    /// The integer value `item`.
    fn from(item: i32) -> Self {
        StrVal::Int(LinearExpr::from_const(item))
    }
}

impl vstd::std_specs::convert::FromSpecImpl<i32> for StrVal {
    open spec fn obeys_from_spec() -> bool {
        false
    }

    open spec fn from_spec(v: i32) -> Self {
        arbitrary()
    }
}

impl From<String> for StrVal {
    /// The string value `item`.
    fn from(item: String) -> Self {
        StrVal::Str(item)
    }
}

impl vstd::std_specs::convert::FromSpecImpl<String> for StrVal {
    open spec fn obeys_from_spec() -> bool {
        true
    }

    open spec fn from_spec(v: String) -> Self {
        StrVal::Str(v)
    }
}

impl From<LinearExpr> for StrVal {
    /// The integer value `item`, kept symbolic.
    fn from(item: LinearExpr) -> Self {
        StrVal::Int(item)
    }
}

impl vstd::std_specs::convert::FromSpecImpl<LinearExpr> for StrVal {
    open spec fn obeys_from_spec() -> bool {
        true
    }

    open spec fn from_spec(v: LinearExpr) -> Self {
        StrVal::Int(v)
    }
}

/// A value of the embedded table-indexing language: only plain integers
/// appear there.
#[derive(PartialEq)]
pub enum PyVal {
    Int(LinearExpr),
}

impl View for PyVal {
    type V = LinV;

    open spec fn view(&self) -> LinV {
        match self {
            PyVal::Int(l) => l@,
        }
    }
}

impl Value for PyVal {
    open spec fn is_abstract_spec(&self) -> bool {
        false
    }

    fn is_abstract(&self) -> (r: bool) {
        false
    }
}

impl Clone for PyVal {
    /// Cloning keeps the value: the copy has the same ghost form.
    fn clone(&self) -> (r: Self)
        ensures
            r@ == self@,
    {
        match self {
            PyVal::Int(l) => PyVal::Int(l.clone()),
        }
    }
}

impl From<i32> for PyVal {
    /// The integer value `item`.
    fn from(item: i32) -> Self {
        PyVal::Int(LinearExpr::from_const(item))
    }
}

impl vstd::std_specs::convert::FromSpecImpl<i32> for PyVal {
    open spec fn obeys_from_spec() -> bool {
        false
    }

    open spec fn from_spec(v: i32) -> Self {
        arbitrary()
    }
}

impl From<LinearExpr> for PyVal {
    /// The integer value `item`, kept symbolic.
    fn from(item: LinearExpr) -> Self {
        PyVal::Int(item)
    }
}

impl vstd::std_specs::convert::FromSpecImpl<LinearExpr> for PyVal {
    open spec fn obeys_from_spec() -> bool {
        true
    }

    open spec fn from_spec(v: LinearExpr) -> Self {
        PyVal::Int(v)
    }
}

/// The ghost form of an evaluation outcome.
pub open spec fn res_view(r: EvalResult<StrVal>) -> Result<ValV, EvalError> {
    match r {
        Ok(v) => Ok(v@),
        Err(e) => Err(e),
    }
}

// ---------------------------------------------------------------------------
// Character-sequence helpers
// ---------------------------------------------------------------------------

/// Whether `pat` occurs in `s` at position `i`.
pub open spec fn occurs_at(s: Seq<char>, pat: Seq<char>, i: int) -> bool {
    0 <= i && i + pat.len() <= s.len() && s.subrange(i, i + pat.len()) =~= pat
}

/// The first position at or after `from` where `pat` occurs in `s`, and -1
/// when there is none.
pub open spec fn index_of_from(s: Seq<char>, pat: Seq<char>, from: int) -> int
    recommends
        0 <= from,
    decreases s.len() - from,
{
    if from < 0 || from + pat.len() > s.len() {
        -1
    } else if occurs_at(s, pat, from) {
        from
    } else {
        index_of_from(s, pat, from + 1)
    }
}

/// `index_of_from` finds exactly the first occurrence at or after `from`.
pub proof fn lemma_index_of_from(s: Seq<char>, pat: Seq<char>, from: int)
    requires
        0 <= from,
    ensures
        index_of_from(s, pat, from) == -1 ==> forall|i: int|
            from <= i ==> !occurs_at(s, pat, i),
        index_of_from(s, pat, from) != -1 ==> {
            &&& from <= index_of_from(s, pat, from)
            &&& occurs_at(s, pat, index_of_from(s, pat, from))
            &&& forall|i: int|
                from <= i < index_of_from(s, pat, from) ==> !occurs_at(s, pat, i)
        },
    decreases s.len() - from,
{
    if from + pat.len() > s.len() {
        assert forall|i: int| from <= i implies !occurs_at(s, pat, i) by {}
    } else if occurs_at(s, pat, from) {
    } else {
        lemma_index_of_from(s, pat, from + 1);
    }
}

pub open spec fn clamp(x: int, lo: int, hi: int) -> int {
    if x < lo {
        lo
    } else if x > hi {
        hi
    } else {
        x
    }
}

/// The characters of `s` with index in `[start, end)`, bounds clamped to the
/// string: a negative start behaves as zero, an end beyond the string as its
/// length, and a crossed pair as the empty range.
pub open spec fn substr_view(s: Seq<char>, start: int, end: int) -> Seq<char> {
    let lo = clamp(start, 0, s.len() as int);
    let hi = clamp(end, lo, s.len() as int);
    s.subrange(lo, hi)
}

/// `s` with the first occurrence of `pat` replaced by `rep`, and unchanged
/// when `pat` does not occur.
pub open spec fn replace_view(s: Seq<char>, pat: Seq<char>, rep: Seq<char>) -> Seq<char> {
    let i = index_of_from(s, pat, 0);
    if i == -1 {
        s
    } else {
        s.subrange(0, i) + rep + s.subrange(i + pat.len(), s.len() as int)
    }
}

// ---------------------------------------------------------------------------
// Ghost operation semantics
// ---------------------------------------------------------------------------

pub open spec fn spec_str_append(a: ValV, b: ValV) -> Result<ValV, EvalError> {
    match (a, b) {
        (ValV::Str(s1), ValV::Str(s2)) => Ok(ValV::Str(s1 + s2)),
        _ => Err(EvalError::TypeMismatch),
    }
}

pub open spec fn spec_str_replace(a: ValV, b: ValV, c: ValV) -> Result<ValV, EvalError> {
    match (a, b, c) {
        (ValV::Str(s), ValV::Str(p), ValV::Str(r)) => Ok(ValV::Str(replace_view(s, p, r))),
        _ => Err(EvalError::TypeMismatch),
    }
}

pub open spec fn spec_str_substr(a: ValV, b: ValV, c: ValV) -> Result<ValV, EvalError> {
    match (a, b, c) {
        (ValV::Str(s), ValV::Int(i), ValV::Int(j)) => if !lin_v_is_const(i) || !lin_v_is_const(j) {
            Err(EvalError::NonConstantIndex)
        } else {
            Ok(ValV::Str(substr_view(s, i.c, j.c)))
        },
        _ => Err(EvalError::TypeMismatch),
    }
}

pub open spec fn spec_num_add(a: ValV, b: ValV) -> Result<ValV, EvalError> {
    match (a, b) {
        (ValV::Int(x), ValV::Int(y)) => if lin_v_fits(lin_v_add(x, y)) {
            Ok(ValV::Int(lin_v_add(x, y)))
        } else {
            Err(EvalError::Overflow)
        },
        _ => Err(EvalError::TypeMismatch),
    }
}

pub open spec fn spec_num_sub(a: ValV, b: ValV) -> Result<ValV, EvalError> {
    match (a, b) {
        (ValV::Int(x), ValV::Int(y)) => if lin_v_fits(lin_v_sub(x, y)) {
            Ok(ValV::Int(lin_v_sub(x, y)))
        } else {
            Err(EvalError::Overflow)
        },
        _ => Err(EvalError::TypeMismatch),
    }
}

pub open spec fn spec_str_len(a: ValV) -> Result<ValV, EvalError> {
    match a {
        ValV::Str(s) => if s.len() <= i32::MAX {
            Ok(ValV::Int(lin_v_const(s.len() as int)))
        } else {
            Err(EvalError::Overflow)
        },
        _ => Err(EvalError::TypeMismatch),
    }
}

pub open spec fn spec_str_at(a: ValV, b: ValV) -> Result<ValV, EvalError> {
    match (a, b) {
        (ValV::Str(s), ValV::Int(i)) => if !lin_v_is_const(i) {
            Err(EvalError::NonConstantIndex)
        } else if 0 <= i.c < s.len() {
            Ok(ValV::Str(s.subrange(i.c, i.c + 1)))
        } else {
            Err(EvalError::InvalidIndex)
        },
        _ => Err(EvalError::TypeMismatch),
    }
}

pub open spec fn spec_prefix_of(a: ValV, b: ValV) -> Result<ValV, EvalError> {
    match (a, b) {
        (ValV::Str(p), ValV::Str(s)) => Ok(
            ValV::Bool(p.len() <= s.len() && s.subrange(0, p.len() as int) == p),
        ),
        _ => Err(EvalError::TypeMismatch),
    }
}

pub open spec fn spec_suffix_of(a: ValV, b: ValV) -> Result<ValV, EvalError> {
    match (a, b) {
        (ValV::Str(p), ValV::Str(s)) => Ok(
            ValV::Bool(
                p.len() <= s.len() && s.subrange(s.len() - p.len(), s.len() as int) == p,
            ),
        ),
        _ => Err(EvalError::TypeMismatch),
    }
}

pub open spec fn spec_contains(a: ValV, b: ValV) -> Result<ValV, EvalError> {
    match (a, b) {
        (ValV::Str(s), ValV::Str(p)) => Ok(ValV::Bool(index_of_from(s, p, 0) != -1)),
        _ => Err(EvalError::TypeMismatch),
    }
}

pub open spec fn spec_index_of(a: ValV, b: ValV, c: ValV) -> Result<ValV, EvalError> {
    match (a, b, c) {
        (ValV::Str(s), ValV::Str(p), ValV::Int(i)) => if !lin_v_is_const(i) {
            Err(EvalError::NonConstantIndex)
        } else {
            let from = if i.c < 0 {
                0
            } else {
                i.c
            };
            let r = index_of_from(s, p, from);
            if r <= i32::MAX {
                Ok(ValV::Int(lin_v_const(r)))
            } else {
                Err(EvalError::Overflow)
            }
        },
        _ => Err(EvalError::TypeMismatch),
    }
}

// ---------------------------------------------------------------------------
// Executable string helpers
// ---------------------------------------------------------------------------

/// Whether `pat` occurs in `s` at character position `i`.
fn match_at(s: &str, pat: &str, i: usize) -> (r: bool)
    requires
        i + pat@.len() <= s@.len(),
    ensures
        r == occurs_at(s@, pat@, i as int),
{
    let n = s.unicode_len();
    let m = pat.unicode_len();
    let mut k: usize = 0;
    while k < m
        invariant
            n == s@.len(),
            m == pat@.len(),
            i + m <= s@.len(),
            0 <= k <= m,
            forall|t: int| 0 <= t < k ==> s@[i + t] == pat@[t],
        decreases m - k,
    {
        if s.get_char(i + k) != pat.get_char(k) {
            proof {
                assert(s@.subrange(i as int, i + pat@.len())[k as int] == s@[i + k]);
                assert(s@.subrange(i as int, i + pat@.len()) != pat@);
            }
            return false;
        }
        k += 1;
    }
    proof {
        assert(s@.subrange(i as int, i + pat@.len()) =~= pat@);
    }
    true
}

/// The first character position at or after `from` where `pat` occurs in `s`.
fn find_from(s: &str, pat: &str, from: usize) -> (r: Option<usize>)
    ensures
        match r {
            Some(i) => index_of_from(s@, pat@, from as int) == i as int,
            None => index_of_from(s@, pat@, from as int) == -1,
        },
{
    proof {
        lemma_index_of_from(s@, pat@, from as int);
    }
    let n = s.unicode_len();
    let m = pat.unicode_len();
    if from > n || m > n - from {
        proof {
            let r0 = index_of_from(s@, pat@, from as int);
            if r0 != -1 {
                assert(occurs_at(s@, pat@, r0));
            }
        }
        return None;
    }
    let mut i: usize = from;
    while m <= n - i
        invariant
            n == s@.len(),
            m == pat@.len(),
            from <= i <= n,
            forall|j: int| from <= j < i ==> !occurs_at(s@, pat@, j),
        decreases n - i,
    {
        if match_at(s, pat, i) {
            proof {
                let r0 = index_of_from(s@, pat@, from as int);
                lemma_index_of_from(s@, pat@, from as int);
                assert(occurs_at(s@, pat@, i as int));
                assert(r0 != -1);
                assert(r0 == i as int);
            }
            return Some(i);
        }
        proof {
            if m == 0 {
                assert(s@.subrange(i as int, i as int) =~= pat@);
                assert(occurs_at(s@, pat@, i as int));
            }
        }
        i += 1;
    }
    proof {
        let r0 = index_of_from(s@, pat@, from as int);
        lemma_index_of_from(s@, pat@, from as int);
        if r0 != -1 {
            assert(occurs_at(s@, pat@, r0));
            assert(r0 >= i);
            assert(r0 + pat@.len() <= s@.len());
        }
    }
    None
}

/// The characters of `s` with index in `[start, end)`, clamped as in
/// `substr_view`.
fn substr_chars(s: &str, start: i32, end: i32) -> (r: String)
    ensures
        r@ == substr_view(s@, start as int, end as int),
{
    let n = s.unicode_len();
    let lo: usize = if start < 0 {
        0
    } else if start as usize > n {
        n
    } else {
        start as usize
    };
    let hi: usize = if end < 0 {
        lo
    } else if end as usize > n {
        n
    } else if (end as usize) < lo {
        lo
    } else {
        end as usize
    };
    let sub = s.substring_char(lo, hi);
    sub.to_owned()
}

// ---------------------------------------------------------------------------
// Decimal rendering and parsing
// ---------------------------------------------------------------------------

pub open spec fn dec_digit(d: int) -> char {
    if d == 0 {
        '0'
    } else if d == 1 {
        '1'
    } else if d == 2 {
        '2'
    } else if d == 3 {
        '3'
    } else if d == 4 {
        '4'
    } else if d == 5 {
        '5'
    } else if d == 6 {
        '6'
    } else if d == 7 {
        '7'
    } else if d == 8 {
        '8'
    } else {
        '9'
    }
}

/// The decimal spelling of a natural number.
pub open spec fn dec_nat(n: nat) -> Seq<char>
    decreases n,
{
    if n < 10 {
        seq![dec_digit(n as int)]
    } else {
        dec_nat(n / 10) + seq![dec_digit((n % 10) as int)]
    }
}

/// The decimal spelling of an integer, with a leading minus sign when
/// negative.
pub open spec fn dec_int(n: int) -> Seq<char> {
    if n < 0 {
        seq!['-'] + dec_nat((-n) as nat)
    } else {
        dec_nat(n as nat)
    }
}

pub open spec fn is_dec_digit(c: char) -> bool {
    48 <= c as u32 <= 57
}

pub open spec fn digit_val(c: char) -> int {
    c as u32 - 48
}

pub open spec fn all_digits(s: Seq<char>) -> bool {
    forall|i: int| 0 <= i < s.len() ==> is_dec_digit(s[i])
}

/// The value of a digit string, most significant digit first.
pub open spec fn digits_val(s: Seq<char>) -> int
    decreases s.len(),
{
    if s.len() == 0 {
        0
    } else {
        digits_val(s.drop_last()) * 10 + digit_val(s.last())
    }
}

/// The integer a string spells: an optional minus sign followed by at least
/// one decimal digit; anything else does not parse.
pub open spec fn parse_int(s: Seq<char>) -> Option<int> {
    if s.len() > 0 && s[0] == '-' {
        if s.len() >= 2 && all_digits(s.skip(1)) {
            Some(-digits_val(s.skip(1)))
        } else {
            None
        }
    } else if s.len() >= 1 && all_digits(s) {
        Some(digits_val(s))
    } else {
        None
    }
}

pub open spec fn spec_to_str(a: ValV) -> Result<ValV, EvalError> {
    match a {
        ValV::Int(x) => if lin_v_is_const(x) {
            Ok(ValV::Str(dec_int(x.c)))
        } else {
            Err(EvalError::NonConstantIndex)
        },
        _ => Err(EvalError::TypeMismatch),
    }
}

pub open spec fn spec_to_int(a: ValV) -> Result<ValV, EvalError> {
    match a {
        ValV::Str(s) => match parse_int(s) {
            Some(w) => if i32_fits(w) {
            Ok(ValV::Int(lin_v_const(w)))
        } else {
            Err(EvalError::Overflow)
        },
            None => Err(EvalError::NotANumber),
        },
        _ => Err(EvalError::TypeMismatch),
    }
}

proof fn lemma_digits_val_nonneg(s: Seq<char>)
    requires
        all_digits(s),
    ensures
        digits_val(s) >= 0,
    decreases s.len(),
{
    if s.len() > 0 {
        assert(all_digits(s.drop_last()));
        lemma_digits_val_nonneg(s.drop_last());
    }
}

/// A digit string is worth at least any of its prefixes.
proof fn lemma_digits_val_prefix(s: Seq<char>, k: int)
    requires
        all_digits(s),
        0 <= k <= s.len(),
    ensures
        digits_val(s.subrange(0, k)) <= digits_val(s),
    decreases s.len() - k,
{
    if k == s.len() {
        assert(s.subrange(0, k) =~= s);
    } else {
        lemma_digits_val_prefix(s, k + 1);
        let t = s.subrange(0, k + 1);
        assert(t.drop_last() =~= s.subrange(0, k));
        assert(t.last() == s[k]);
        assert(all_digits(s.subrange(0, k)));
        lemma_digits_val_nonneg(s.subrange(0, k));
        assert(digits_val(s.subrange(0, k)) <= digits_val(t));
    }
}

fn digit_str(d: u64) -> (r: &'static str)
    requires
        d < 10,
    ensures
        r@ =~= seq![dec_digit(d as int)],
{
    if d == 0 {
        proof {
            reveal_strlit("0");
        }
        "0"
    } else if d == 1 {
        proof {
            reveal_strlit("1");
        }
        "1"
    } else if d == 2 {
        proof {
            reveal_strlit("2");
        }
        "2"
    } else if d == 3 {
        proof {
            reveal_strlit("3");
        }
        "3"
    } else if d == 4 {
        proof {
            reveal_strlit("4");
        }
        "4"
    } else if d == 5 {
        proof {
            reveal_strlit("5");
        }
        "5"
    } else if d == 6 {
        proof {
            reveal_strlit("6");
        }
        "6"
    } else if d == 7 {
        proof {
            reveal_strlit("7");
        }
        "7"
    } else if d == 8 {
        proof {
            reveal_strlit("8");
        }
        "8"
    } else {
        proof {
            reveal_strlit("9");
        }
        "9"
    }
}

fn dec_str_nat(n: u64) -> (r: String)
    ensures
        r@ == dec_nat(n as nat),
    decreases n,
{
    if n < 10 {
        digit_str(n).to_owned()
    } else {
        let mut s = dec_str_nat(n / 10);
        s.append(digit_str(n % 10));
        s
    }
}

/// The decimal spelling of a natural number.
pub fn nat_to_string(n: u64) -> (r: String)
    ensures
        r@ == dec_nat(n as nat),
{
    dec_str_nat(n)
}

/// The decimal spelling of `k`.
pub fn int_to_string(k: i32) -> (r: String)
    ensures
        r@ == dec_int(k as int),
{
    if k < 0 {
        let neg: i64 = -(k as i64);
        let mag: u64 = neg as u64;
        proof {
            assert(mag as int == -(k as int));
        }
        let mut s = "-".to_owned();
        proof {
            reveal_strlit("-");
        }
        s.append(dec_str_nat(mag).as_str());
        proof {
            assert(s@ =~= dec_int(k as int));
        }
        s
    } else {
        dec_str_nat(k as u64)
    }
}

/// Parses the integer a string spells, reporting a malformed string and a
/// value outside the machine range apart.
fn parse_int_chars(s: &str) -> (r: EvalResult<i32>)
    ensures
        r matches Ok(v) ==> parse_int(s@) == Some(v as int),
        r == Err::<i32, EvalError>(EvalError::NotANumber) <==> parse_int(s@) is None,
        r == Err::<i32, EvalError>(EvalError::Overflow) <==> (parse_int(s@) matches Some(w)
            && !i32_fits(w)),
        (parse_int(s@) matches Some(w) && i32_fits(w)) ==> r is Ok,
{
    let n = s.unicode_len();
    let neg = n > 0 && s.get_char(0) == '-';
    let start: usize = if neg {
        1
    } else {
        0
    };
    if n == start {
        return Err(EvalError::NotANumber);
    }
    let ghost digs = s@.subrange(start as int, n as int);
    proof {
        if neg {
            assert(digs =~= s@.skip(1));
        } else {
            assert(digs =~= s@);
        }
    }
    let mut i: usize = start;
    while i < n
        invariant
            n == s@.len(),
            start < n,
            neg ==> n > 0 && s@[0] == '-' && start == 1,
            !neg ==> start == 0 && (n == 0 || s@[0] != '-'),
            digs == s@.subrange(start as int, n as int),
            start <= i <= n,
            forall|t: int| start <= t < i ==> is_dec_digit(s@[t]),
        decreases n - i,
    {
        let c = s.get_char(i);
        if (c as u32) < 48 || (c as u32) > 57 {
            proof {
                assert(!is_dec_digit(s@[i as int]));
                assert(digs[i as int - start as int] == s@[i as int]);
                assert(!all_digits(digs));
                assert(parse_int(s@) is None);
            }
            return Err(EvalError::NotANumber);
        }
        i += 1;
    }
    proof {
        assert forall|t: int| 0 <= t < digs.len() implies is_dec_digit(digs[t]) by {
            assert(digs[t] == s@[t + start]);
        }
        assert(all_digits(digs));
        if neg {
            assert(parse_int(s@) == Some(-digits_val(digs)));
        } else {
            assert(parse_int(s@) == Some(digits_val(digs)));
        }
    }
    let ghost goal = parse_int(s@);
    let mut acc: i64 = 0;
    let mut j: usize = start;
    while j < n
        invariant
            n == s@.len(),
            start < n,
            start <= j <= n,
            digs == s@.subrange(start as int, n as int),
            all_digits(digs),
            forall|t: int| start <= t < n ==> is_dec_digit(s@[t]),
            acc == digits_val(s@.subrange(start as int, j as int)),
            0 <= acc <= 2147483648i64,
            neg ==> goal == Some(-digits_val(digs)),
            !neg ==> goal == Some(digits_val(digs)),
            goal == parse_int(s@),
        decreases n - j,
    {
        let c = s.get_char(j);
        let d: u32 = (c as u32) - 48;
        let ghost pref = s@.subrange(start as int, j as int);
        acc = acc * 10 + (d as i64);
        proof {
            let pref2 = s@.subrange(start as int, j + 1);
            assert(pref2.drop_last() =~= pref);
            assert(pref2.last() == s@[j as int]);
            assert(acc == digits_val(pref2));
        }
        if acc > 2147483648i64 {
            proof {
                assert(s@.subrange(start as int, j + 1) =~= digs.subrange(0, j + 1 - start));
                lemma_digits_val_prefix(digs, j + 1 - start);
                assert(digits_val(digs) >= acc);
                assert(goal matches Some(w) && !i32_fits(w));
            }
            return Err(EvalError::Overflow);
        }
        j += 1;
    }
    proof {
        assert(s@.subrange(start as int, n as int) =~= digs);
        assert(acc == digits_val(digs));
    }
    if neg {
        let v: i64 = -acc;
        proof {
            assert(goal == Some(v as int));
            assert(i32_fits(v as int));
        }
        Ok(v as i32)
    } else {
        if acc > 2147483647i64 {
            proof {
                assert(goal matches Some(w) && !i32_fits(w));
            }
            return Err(EvalError::Overflow);
        }
        proof {
            assert(goal == Some(acc as int));
            assert(i32_fits(acc as int));
        }
        Ok(acc as i32)
    }
}

/// Rendering a digit and reading it back are inverse.
pub proof fn lemma_digit_roundtrip(d: int)
    requires
        0 <= d < 10,
    ensures
        is_dec_digit(dec_digit(d)),
        digit_val(dec_digit(d)) == d,
{
}

/// Reading a rendered natural number back gives the number: decimal
/// rendering loses nothing.
pub proof fn lemma_dec_nat_val(n: nat)
    ensures
        dec_nat(n).len() >= 1,
        all_digits(dec_nat(n)),
        digits_val(dec_nat(n)) == n,
    decreases n,
{
    if n < 10 {
        reveal_with_fuel(digits_val, 2);
        lemma_digit_roundtrip(n as int);
        let s = dec_nat(n);
        assert(s =~= seq![dec_digit(n as int)]);
        assert(s.drop_last() =~= Seq::<char>::empty());
        assert(s.last() == dec_digit(n as int));
        assert(digits_val(s) == digits_val(s.drop_last()) * 10 + digit_val(s.last()));
    } else {
        lemma_dec_nat_val(n / 10);
        lemma_digit_roundtrip((n % 10) as int);
        let s = dec_nat(n);
        assert(s.drop_last() =~= dec_nat(n / 10));
        assert(s.last() == dec_digit((n % 10) as int));
        assert forall|i: int| 0 <= i < s.len() implies is_dec_digit(s[i]) by {
            if i < s.len() - 1 {
                assert(s[i] == dec_nat(n / 10)[i]);
            }
        }
        assert(digits_val(s) == (n / 10) * 10 + (n % 10));
        assert(n == (n / 10) * 10 + (n % 10)) by (nonlinear_arith);
    }
}

/// The name of the positional argument `i`.
pub open spec fn arg_name(i: int) -> Seq<char> {
    seq!['a', 'r', 'g'] + dec_nat(i as nat)
}

/// Different positions carry different names.
pub proof fn lemma_arg_name_injective(a: int, b: int)
    requires
        0 <= a,
        0 <= b,
        arg_name(a) == arg_name(b),
    ensures
        a == b,
{
    lemma_dec_nat_val(a as nat);
    lemma_dec_nat_val(b as nat);
    assert(arg_name(a).skip(3) =~= dec_nat(a as nat));
    assert(arg_name(b).skip(3) =~= dec_nat(b as nat));
    assert(dec_nat(a as nat) == dec_nat(b as nat));
}

/// The name of the positional argument `i`, as a string.
pub fn arg_name_exec(i: usize) -> (r: String)
    ensures
        r@ == arg_name(i as int),
{
    let mut s = "arg".to_owned();
    proof {
        reveal_strlit("arg");
    }
    s.append(dec_str_nat(i as u64).as_str());
    proof {
        assert(s@ =~= arg_name(i as int));
    }
    s
}

// ---------------------------------------------------------------------------
// Executable operations
// ---------------------------------------------------------------------------

/// String concatenation.
pub fn str_append(v1: StrVal, v2: StrVal) -> (r: EvalResult<StrVal>)
    ensures
        res_view(r) == spec_str_append(v1@, v2@),
{
    match (v1, v2) {
        (StrVal::Str(s1), StrVal::Str(s2)) => Ok(StrVal::Str(s1.concat(s2.as_str()))),
        _ => Err(EvalError::TypeMismatch),
    }
}

/// Replacement of the first occurrence of a pattern.
pub fn str_replace(v1: StrVal, v2: StrVal, v3: StrVal) -> (r: EvalResult<StrVal>)
    ensures
        res_view(r) == spec_str_replace(v1@, v2@, v3@),
{
    match (v1, v2, v3) {
        (StrVal::Str(s), StrVal::Str(p), StrVal::Str(rep)) => {
            match find_from(s.as_str(), p.as_str(), 0) {
                None => Ok(StrVal::Str(s)),
                Some(ix) => {
                    let n = s.as_str().unicode_len();
                    let m = p.as_str().unicode_len();
                    proof {
                        lemma_index_of_from(s@, p@, 0);
                        assert(occurs_at(s@, p@, ix as int));
                    }
                    let head = s.as_str().substring_char(0, ix).to_owned();
                    let mut out = head;
                    out.append(rep.as_str());
                    out.append(s.as_str().substring_char(ix + m, n));
                    proof {
                        assert(out@ =~= replace_view(s@, p@, rep@));
                    }
                    Ok(StrVal::Str(out))
                },
            }
        },
        _ => Err(EvalError::TypeMismatch),
    }
}

/// Substring by character positions, `[start, end)`, clamped to the string.
pub fn str_substr(v1: StrVal, v2: StrVal, v3: StrVal) -> (r: EvalResult<StrVal>)
    ensures
        res_view(r) == spec_str_substr(v1@, v2@, v3@),
{
    match (v1, v2, v3) {
        (StrVal::Str(s), StrVal::Int(i), StrVal::Int(j)) => match (i.as_const(), j.as_const()) {
            (Some(ci), Some(cj)) => Ok(StrVal::Str(substr_chars(s.as_str(), ci, cj))),
            _ => Err(EvalError::NonConstantIndex),
        },
        _ => Err(EvalError::TypeMismatch),
    }
}

/// Integer addition on linear expressions.
pub fn num_add(v1: StrVal, v2: StrVal) -> (r: EvalResult<StrVal>)
    ensures
        res_view(r) == spec_num_add(v1@, v2@),
{
    match (v1, v2) {
        (StrVal::Int(x), StrVal::Int(y)) => match x.try_add(&y) {
            Some(l) => Ok(StrVal::Int(l)),
            None => Err(EvalError::Overflow),
        },
        _ => Err(EvalError::TypeMismatch),
    }
}

/// Integer subtraction on linear expressions.
pub fn num_sub(v1: StrVal, v2: StrVal) -> (r: EvalResult<StrVal>)
    ensures
        res_view(r) == spec_num_sub(v1@, v2@),
{
    match (v1, v2) {
        (StrVal::Int(x), StrVal::Int(y)) => match x.try_sub(&y) {
            Some(l) => Ok(StrVal::Int(l)),
            None => Err(EvalError::Overflow),
        },
        _ => Err(EvalError::TypeMismatch),
    }
}

/// String length in characters.
pub fn str_len(v: StrVal) -> (r: EvalResult<StrVal>)
    ensures
        res_view(r) == spec_str_len(v@),
{
    match v {
        StrVal::Str(s) => {
            let n = s.as_str().unicode_len();
            if n > 2147483647 {
                Err(EvalError::Overflow)
            } else {
                Ok(StrVal::Int(LinearExpr::from_const(n as i32)))
            }
        },
        _ => Err(EvalError::TypeMismatch),
    }
}

/// The one-character string at a given position.
pub fn str_at(v1: StrVal, v2: StrVal) -> (r: EvalResult<StrVal>)
    ensures
        res_view(r) == spec_str_at(v1@, v2@),
{
    match (v1, v2) {
        (StrVal::Str(s), StrVal::Int(i)) => match i.as_const() {
            None => Err(EvalError::NonConstantIndex),
            Some(ci) => {
                let n = s.as_str().unicode_len();
                if ci < 0 || ci as usize >= n {
                    Err(EvalError::InvalidIndex)
                } else {
                    let c = ci as usize;
                    Ok(StrVal::Str(s.as_str().substring_char(c, c + 1).to_owned()))
                }
            },
        },
        _ => Err(EvalError::TypeMismatch),
    }
}

/// The decimal spelling of a plain integer.
pub fn to_str(v: StrVal) -> (r: EvalResult<StrVal>)
    ensures
        res_view(r) == spec_to_str(v@),
{
    match v {
        StrVal::Int(x) => match x.as_const() {
            Some(c) => Ok(StrVal::Str(int_to_string(c))),
            None => Err(EvalError::NonConstantIndex),
        },
        _ => Err(EvalError::TypeMismatch),
    }
}

/// The integer a string spells.
pub fn to_int(v: StrVal) -> (r: EvalResult<StrVal>)
    ensures
        res_view(r) == spec_to_int(v@),
{
    match v {
        StrVal::Str(s) => match parse_int_chars(s.as_str()) {
            Ok(c) => Ok(StrVal::Int(LinearExpr::from_const(c))),
            Err(e) => Err(e),
        },
        _ => Err(EvalError::TypeMismatch),
    }
}

/// The first position of a pattern at or after a starting index, -1 when the
/// pattern does not occur there.
pub fn str_index_of(v1: StrVal, v2: StrVal, v3: StrVal) -> (r: EvalResult<StrVal>)
    ensures
        res_view(r) == spec_index_of(v1@, v2@, v3@),
{
    match (v1, v2, v3) {
        (StrVal::Str(s), StrVal::Str(p), StrVal::Int(i)) => match i.as_const() {
            None => Err(EvalError::NonConstantIndex),
            Some(ci) => {
                let from: usize = if ci < 0 {
                    0
                } else {
                    ci as usize
                };
                match find_from(s.as_str(), p.as_str(), from) {
                    Some(ix) => {
                        if ix > 2147483647 {
                            Err(EvalError::Overflow)
                        } else {
                            Ok(StrVal::Int(LinearExpr::from_const(ix as i32)))
                        }
                    },
                    None => Ok(StrVal::Int(LinearExpr::from_const(-1))),
                }
            },
        },
        _ => Err(EvalError::TypeMismatch),
    }
}

/// Whether the first string is a prefix of the second.
pub fn str_prefix_of(v1: StrVal, v2: StrVal) -> (r: EvalResult<StrVal>)
    ensures
        res_view(r) == spec_prefix_of(v1@, v2@),
{
    match (v1, v2) {
        (StrVal::Str(p), StrVal::Str(s)) => {
            let n = s.as_str().unicode_len();
            let m = p.as_str().unicode_len();
            if m > n {
                Ok(StrVal::Bool(false))
            } else {
                let b = match_at(s.as_str(), p.as_str(), 0);
                Ok(StrVal::Bool(b))
            }
        },
        _ => Err(EvalError::TypeMismatch),
    }
}

/// Whether the first string is a suffix of the second.
pub fn str_suffix_of(v1: StrVal, v2: StrVal) -> (r: EvalResult<StrVal>)
    ensures
        res_view(r) == spec_suffix_of(v1@, v2@),
{
    match (v1, v2) {
        (StrVal::Str(p), StrVal::Str(s)) => {
            let n = s.as_str().unicode_len();
            let m = p.as_str().unicode_len();
            if m > n {
                Ok(StrVal::Bool(false))
            } else {
                let b = match_at(s.as_str(), p.as_str(), n - m);
                Ok(StrVal::Bool(b))
            }
        },
        _ => Err(EvalError::TypeMismatch),
    }
}

/// Whether the second string occurs in the first.
pub fn str_contains(v1: StrVal, v2: StrVal) -> (r: EvalResult<StrVal>)
    ensures
        res_view(r) == spec_contains(v1@, v2@),
{
    match (v1, v2) {
        (StrVal::Str(s), StrVal::Str(p)) => match find_from(s.as_str(), p.as_str(), 0) {
            Some(_) => Ok(StrVal::Bool(true)),
            None => Ok(StrVal::Bool(false)),
        },
        _ => Err(EvalError::TypeMismatch),
    }
}

} // verus!
