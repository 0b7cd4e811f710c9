//! The variables that a template is rendered against, the substitution of
//! one variable into a text, and the variables that a remote contributes.
use vstd::prelude::*;
use crate::model::Remote;

verus! {

/// An ordered list of bindings of names to values.
pub type Pairs = Seq<(Seq<char>, Seq<char>)>;

/// The value bound to `k` by `ps`, the last binding winning.
pub open spec fn lookup(ps: Pairs, k: Seq<char>) -> Option<Seq<char>>
    decreases ps.len(),
{
    if ps.len() == 0 {
        None
    } else if ps.last().0 == k {
        Some(ps.last().1)
    } else {
        lookup(ps.drop_last(), k)
    }
}

/// The mapping that `ps` makes.
pub open spec fn pairs_map(ps: Pairs) -> Map<Seq<char>, Seq<char>> {
    Map::new(|k: Seq<char>| lookup(ps, k) is Some, |k: Seq<char>| lookup(ps, k)->0)
}

/// The place of the last binding of `k` in `ps`, if any.
pub open spec fn last_index(ps: Pairs, k: Seq<char>) -> Option<int>
    decreases ps.len(),
{
    if ps.len() == 0 {
        None
    } else if ps.last().0 == k {
        Some(ps.len() - 1)
    } else {
        last_index(ps.drop_last(), k)
    }
}

/// `ps` with `k` bound to `v`: the last binding of `k` is replaced in place,
/// or the binding is added at the end.
pub open spec fn insert_pair(ps: Pairs, k: Seq<char>, v: Seq<char>) -> Pairs {
    match last_index(ps, k) {
        Some(i) => ps.update(i, (k, v)),
        None => ps.push((k, v)),
    }
}

proof fn lemma_last_index(ps: Pairs, k: Seq<char>)
    ensures
        match last_index(ps, k) {
            Some(i) => 0 <= i < ps.len() && ps[i].0 == k && forall|j: int|
                i < j < ps.len() ==> ps[j].0 != k,
            None => forall|j: int| 0 <= j < ps.len() ==> ps[j].0 != k,
        },
    decreases ps.len(),
{
    if ps.len() > 0 {
        lemma_last_index(ps.drop_last(), k);
        assert(forall|j: int| 0 <= j < ps.len() - 1 ==> ps.drop_last()[j] == ps[j]);
    }
}

proof fn lemma_lookup_update(ps: Pairs, i: int, e: (Seq<char>, Seq<char>), k: Seq<char>)
    requires
        0 <= i < ps.len(),
        ps[i].0 == e.0,
        forall|j: int| i < j < ps.len() ==> ps[j].0 != e.0,
    ensures
        lookup(ps.update(i, e), k) == if k == e.0 { Some(e.1) } else { lookup(ps, k) },
    decreases ps.len(),
{
    let us = ps.update(i, e);
    if i == ps.len() - 1 {
        assert(us.drop_last() =~= ps.drop_last());
    } else {
        assert(us.drop_last() =~= ps.drop_last().update(i, e));
        lemma_lookup_update(ps.drop_last(), i, e, k);
    }
}

proof fn lemma_lookup_last_index(ps: Pairs, k: Seq<char>)
    ensures
        match last_index(ps, k) {
            Some(i) => lookup(ps, k) == Some(ps[i].1),
            None => lookup(ps, k) is None,
        },
    decreases ps.len(),
{
    lemma_last_index(ps, k);
    if ps.len() > 0 {
        lemma_lookup_last_index(ps.drop_last(), k);
        lemma_last_index(ps.drop_last(), k);
        assert(forall|j: int| 0 <= j < ps.len() - 1 ==> ps.drop_last()[j] == ps[j]);
    }
}

/// Binding in the list agrees with binding in the mapping.
pub proof fn lemma_insert_pair(ps: Pairs, k: Seq<char>, v: Seq<char>)
    ensures
        pairs_map(insert_pair(ps, k, v)) == pairs_map(ps).insert(k, v),
{
    lemma_last_index(ps, k);
    match last_index(ps, k) {
        Some(i) => {
            assert forall|x: Seq<char>| lookup(ps.update(i, (k, v)), x) == if x == k {
                Some(v)
            } else {
                lookup(ps, x)
            } by {
                lemma_lookup_update(ps, i, (k, v), x);
            }
        },
        None => {
            assert(ps.push((k, v)).drop_last() =~= ps);
        },
    }
    assert(pairs_map(insert_pair(ps, k, v)) =~= pairs_map(ps).insert(k, v));
}

/// Adding a binding at the end binds its name in the mapping.
pub proof fn lemma_push_pair(ps: Pairs, e: (Seq<char>, Seq<char>))
    ensures
        pairs_map(ps.push(e)) == pairs_map(ps).insert(e.0, e.1),
{
    assert(ps.push(e).drop_last() =~= ps);
    assert(pairs_map(ps.push(e)) =~= pairs_map(ps).insert(e.0, e.1));
}

/// Variables bound to values, in the order in which they were first bound.
#[derive(Debug)]
pub struct Context {
    entries: Vec<(String, String)>,
}

impl View for Context {
    type V = Pairs;

    closed spec fn view(&self) -> Pairs {
        self.entries@.map_values(|e: (String, String)| (e.0@, e.1@))
    }
}

/// The text `t` with every occurrence of `pat`, taken from the left without
/// overlap, replaced by `v`.
pub open spec fn replace_all(t: Seq<char>, pat: Seq<char>, v: Seq<char>) -> Seq<char>
    decreases t.len(),
{
    if pat.len() == 0 || t.len() < pat.len() {
        t
    } else if t.subrange(0, pat.len() as int) == pat {
        v + replace_all(t.subrange(pat.len() as int, t.len() as int), pat, v)
    } else {
        seq![t[0]] + replace_all(t.subrange(1, t.len() as int), pat, v)
    }
}

/// The placeholder `${k}` of variable `k`.
pub open spec fn placeholder(k: Seq<char>) -> Seq<char> {
    "${"@ + k + "}"@
}

/// `s` holds one of the characters that the substitution engine refuses in
/// variable names and values.
pub open spec fn has_forbidden_char(s: Seq<char>) -> bool {
    exists|i: int| 0 <= i < s.len() && (s[i] == '$' || s[i] == '{' || s[i] == '}')
}

/// Relies on `envsubst::substitute` given a single variable: it fails exactly
/// when the name or the value holds `$`, `{` or `}`, and otherwise replaces
/// every `${name}` of the template with the value, by `str::replace`.
#[verifier::external_body]
fn substitute_one(template: &str, name: &String, value: &String) -> (r: Result<
    String,
    envsubst::Error,
>)
    ensures
        r is Err <==> (has_forbidden_char(name@) || has_forbidden_char(value@)),
        r is Ok ==> r->Ok_0@ == replace_all(template@, placeholder(name@), value@),
{
    let mut vars = std::collections::HashMap::new();
    vars.insert(name.clone(), value.clone());
    envsubst::substitute(template, &vars)
}

/// The text `t` with the variables of `ps` substituted one after another,
/// in their order.
pub open spec fn substituted(t: Seq<char>, ps: Pairs) -> Seq<char>
    decreases ps.len(),
{
    if ps.len() == 0 {
        t
    } else {
        replace_all(substituted(t, ps.drop_last()), placeholder(ps.last().0), ps.last().1)
    }
}

/// The name or the value of binding `e` is refused by the substitution engine.
pub open spec fn pair_rejected(e: (Seq<char>, Seq<char>)) -> bool {
    has_forbidden_char(e.0) || has_forbidden_char(e.1)
}

/// Some variable of `ps` has a name or a value that the substitution engine
/// refuses.
pub open spec fn pairs_rejected(ps: Pairs) -> bool {
    exists|i: int| 0 <= i < ps.len() && pair_rejected(#[trigger] ps[i])
}

/// Substitutes the variables of `vars` into `template`, one after another in
/// their order.
pub fn substitute_all(template: &str, vars: &Context) -> (r: Result<String, envsubst::Error>)
    ensures
        r is Err <==> pairs_rejected(vars@),
        r is Ok ==> r->Ok_0@ == substituted(template@, vars@),
{
    let ghost ps = vars@;
    let mut out = String::from_str(template);
    let n = vars.entries.len();
    let mut i: usize = 0;
    proof {
        assert(ps.subrange(0, 0) =~= Seq::<(Seq<char>, Seq<char>)>::empty());
    }
    while i < n
        invariant
            n == ps.len(),
            ps == vars@,
            i <= n,
            out@ == substituted(template@, ps.subrange(0, i as int)),
            forall|j: int| 0 <= j < i ==> !pair_rejected(#[trigger] ps[j]),
        decreases n - i,
    {
        let (k, v) = &vars.entries[i];
        proof {
            assert(ps[i as int] == (k@, v@));
            assert(ps.subrange(0, i + 1).drop_last() =~= ps.subrange(0, i as int));
        }
        match substitute_one(out.as_str(), k, v) {
            Ok(s) => {
                proof {
                    assert(!pair_rejected(ps[i as int]));
                }
                out = s;
            },
            Err(e) => {
                proof {
                    assert(pair_rejected(ps[i as int]));
                }
                return Err(e);
            },
        }
        i += 1;
    }
    proof {
        assert(ps.subrange(0, n as int) =~= ps);
        assert(!pairs_rejected(ps));
    }
    Ok(out)
}

impl Context {
    /// A context without variables.
    pub fn new() -> (r: Context)
        ensures
            r@ == Seq::<(Seq<char>, Seq<char>)>::empty(),
    {
        let r = Context { entries: Vec::new() };
        assert(r@ =~= Seq::<(Seq<char>, Seq<char>)>::empty());
        r
    }

    /// The number of variables.
    pub fn len(&self) -> (r: usize)
        ensures
            r == self@.len(),
    {
        self.entries.len()
    }

    /// The `i`-th variable and its value.
    pub fn entry(&self, i: usize) -> (r: (&String, &String))
        requires
            i < self@.len(),
        ensures
            (r.0@, r.1@) == self@[i as int],
    {
        (&self.entries[i].0, &self.entries[i].1)
    }

    /// The place of the last binding of `k`, if any.
    fn position(&self, k: &String) -> (r: Option<usize>)
        ensures
            r matches Some(i) ==> last_index(self@, k@) == Some(i as int),
            r is None ==> last_index(self@, k@) is None,
    {
        let ghost ps = self@;
        let mut i = self.entries.len();
        proof {
            assert(ps.subrange(0, i as int) =~= ps);
        }
        while i > 0
            invariant
                i <= ps.len(),
                ps == self@,
                last_index(ps, k@) == last_index(ps.subrange(0, i as int), k@),
            decreases i,
        {
            proof {
                assert(ps.subrange(0, i as int).drop_last() =~= ps.subrange(0, i - 1));
            }
            if self.entries[i - 1].0.eq(k) {
                return Some(i - 1);
            }
            i -= 1;
        }
        None
    }

    /// Binds `k` to `v`, replacing an earlier binding of `k` in its place.
    pub fn insert(&mut self, k: String, v: String)
        ensures
            final(self)@ == insert_pair(old(self)@, k@, v@),
    {
        let ghost ps = self@;
        let ghost e = (k@, v@);
        proof {
            lemma_last_index(ps, k@);
        }
        match self.position(&k) {
            Some(i) => {
                self.entries.set(i, (k, v));
                assert(self@ =~= ps.update(i as int, e));
            },
            None => {
                self.entries.push((k, v));
                assert(self@ =~= ps.push(e));
            },
        }
    }

    /// The value bound to `k`, if any.
    pub fn get(&self, k: &String) -> (r: Option<&String>)
        ensures
            match r {
                Some(v) => pairs_map(self@).contains_key(k@) && pairs_map(self@)[k@] == v@,
                None => !pairs_map(self@).contains_key(k@),
            },
    {
        proof {
            lemma_last_index(self@, k@);
            lemma_lookup_last_index(self@, k@);
        }
        match self.position(k) {
            Some(i) => {
                assert(self@[i as int].1 == self.entries@[i as int].1@);
                assert(lookup(self@, k@) == Some(self@[i as int].1));
                Some(&self.entries[i].1)
            },
            None => {
                assert(lookup(self@, k@) is None);
                None
            },
        }
    }
}

/// `c` with the variables of remote `r` bound: its name and fetch URL, and
/// its push and review URLs where it has them.
pub open spec fn with_remote_vars(r: Remote, c: Pairs) -> Pairs {
    let c1 = insert_pair(c, "remote_name"@, r.name@);
    let c2 = match r.pushurl {
        Some(u) => insert_pair(c1, "push_url"@, u@),
        None => c1,
    };
    let c3 = insert_pair(c2, "fetch_url"@, r.fetch@);
    match r.review {
        Some(u) => insert_pair(c3, "review_url"@, u@),
        None => c3,
    }
}

impl Remote {
    /// Binds the variables of this remote in `context`; variables that the
    /// remote does not define keep what `context` held.
    pub fn into_hash(&self, context: &mut Context)
        ensures
            final(context)@ == with_remote_vars(*self, old(context)@),
    {
        context.insert(String::from_str("remote_name"), self.name.clone());
        if let Some(u) = &self.pushurl {
            context.insert(String::from_str("push_url"), u.clone());
        }
        context.insert(String::from_str("fetch_url"), self.fetch.clone());
        if let Some(u) = &self.review {
            context.insert(String::from_str("review_url"), u.clone());
        }
    }
}

} // verus!
