use vstd::prelude::*;

verus! {

/// The binding that `name` carries in an entry list: the value of the first
/// entry with that name, shadowing any later one.
pub open spec fn env_lookup<T>(s: Seq<(String, T)>, name: Seq<char>) -> Option<T>
    decreases s.len(),
{
    if s.len() == 0 {
        None
    } else if s[0].0@ == name {
        Some(s[0].1)
    } else {
        env_lookup(s.skip(1), name)
    }
}

proof fn lemma_lookup_first<T>(s: Seq<(String, T)>, i: int, name: Seq<char>)
    requires
        0 <= i < s.len(),
        s[i].0@ == name,
        forall|k: int| 0 <= k < i ==> s[k].0@ != name,
    ensures
        env_lookup(s, name) == Some(s[i].1),
    decreases i,
{
    if i == 0 {
    } else {
        assert(s.skip(1)[i - 1] == s[i]);
        assert(forall|k: int| 0 <= k < i - 1 ==> s.skip(1)[k] == s[k + 1]);
        lemma_lookup_first(s.skip(1), i - 1, name);
    }
}

/// A name no entry carries is unbound.
pub proof fn lemma_lookup_absent<T>(s: Seq<(String, T)>, name: Seq<char>)
    requires
        forall|k: int| 0 <= k < s.len() ==> s[k].0@ != name,
    ensures
        env_lookup(s, name) is None,
    decreases s.len(),
{
    if s.len() > 0 {
        assert(forall|k: int| 0 <= k < s.len() - 1 ==> s.skip(1)[k] == s[k + 1]);
        lemma_lookup_absent(s.skip(1), name);
    }
}

/// No name is bound twice: the environment is a plain mapping.
pub open spec fn env_distinct<T>(s: Seq<(String, T)>) -> bool {
    forall|i: int, j: int| 0 <= i < j < s.len() ==> s[i].0@ != s[j].0@
}

/// A newly added binding shadows an old one and leaves every other name as it
/// was.
pub proof fn lemma_lookup_insert<T>(s: Seq<(String, T)>, var: String, val: T, name: Seq<char>)
    ensures
        env_lookup(seq![(var, val)].add(s), name) == if name == var@ {
            Some(val)
        } else {
            env_lookup(s, name)
        },
{
    let s2 = seq![(var, val)].add(s);
    assert(s2[0] == (var, val));
    assert(s2.skip(1) =~= s);
}

/// A name that some entry carries is always bound.
pub proof fn lemma_lookup_present<T>(s: Seq<(String, T)>, name: Seq<char>)
    requires
        exists|j: int| 0 <= j < s.len() && s[j].0@ == name,
    ensures
        env_lookup(s, name) is Some,
    decreases s.len(),
{
    if s.len() > 0 && s[0].0@ != name {
        let j = choose|j: int| 0 <= j < s.len() && s[j].0@ == name;
        assert(s.skip(1)[j - 1] == s[j]);
        lemma_lookup_present(s.skip(1), name);
    }
}

/// A read-only mapping from variable names to values; a binding added later
/// shadows an earlier one of the same name.
pub struct Environment<T> {
    entries: Vec<(String, T)>,
}

impl<T> View for Environment<T> {
    type V = Seq<(String, T)>;

    closed spec fn view(&self) -> Seq<(String, T)> {
        self.entries@
    }
}

impl<T> Environment<T> {
    /// The empty environment.
    pub fn new() -> (r: Environment<T>)
        ensures
            r@ =~= Seq::<(String, T)>::empty(),
    {
        Environment { entries: Vec::new() }
    }

    /// Binds `var` to `val`, shadowing any earlier binding of `var`.
    pub fn put(&mut self, var: String, val: T)
        ensures
            final(self)@ =~= seq![(var, val)].add(old(self)@),
    {
        self.entries.insert(0, (var, val));
    }

    /// The value bound to `var`, if any.
    pub fn get(&self, var: String) -> (r: Option<&T>)
        ensures
            match r {
                Some(v) => env_lookup(self@, var@) == Some(*v),
                None => env_lookup(self@, var@) is None,
            },
    {
        let n = self.entries.len();
        let mut i: usize = 0;
        while i < n
            invariant
                n == self.entries@.len(),
                0 <= i <= n,
                forall|k: int| 0 <= k < i ==> self.entries@[k].0@ != var@,
            decreases n - i,
        {
            if self.entries[i].0 == var {
                proof {
                    lemma_lookup_first(self.entries@, i as int, var@);
                }
                return Some(&self.entries[i].1);
            }
            i += 1;
        }
        proof {
            lemma_lookup_absent(self.entries@, var@);
        }
        None
    }

    /// The bound names, newest first; a shadowed name appears once per
    /// binding.
    pub fn keys(&self) -> (r: Vec<String>)
        ensures
            r@.len() == self@.len(),
            forall|k: int| 0 <= k < r@.len() ==> r@[k]@ == self@[k].0@,
    {
        let n = self.entries.len();
        let mut out: Vec<String> = Vec::new();
        let mut i: usize = 0;
        while i < n
            invariant
                n == self.entries@.len(),
                0 <= i <= n,
                out@.len() == i,
                forall|k: int| 0 <= k < i ==> out@[k]@ == self.entries@[k].0@,
            decreases n - i,
        {
            out.push(self.entries[i].0.clone());
            i += 1;
        }
        out
    }

    /// The bindings themselves, newest first.
    pub fn iter(&self) -> (r: &Vec<(String, T)>)
        ensures
            r@ == self@,
    {
        &self.entries
    }
}

} // verus!
