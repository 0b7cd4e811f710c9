//! Rendering templates against the variables of remotes and projects.
use vstd::prelude::*;
use crate::context::{
    Context, Pairs, insert_pair, pairs_map, pairs_rejected, substitute_all, substituted,
    with_remote_vars,
};
use crate::error::ResolveError;
use crate::model::{Manifest, Project, Remote};

verus! {

/// A placeholder opens at `i` of `t` with `${`, and `j` is the first `}`
/// after that opening.
pub open spec fn closes_at(t: Seq<char>, i: int, j: int) -> bool {
    &&& 0 <= i && i + 2 <= j < t.len()
    &&& t[i] == '$' && t[i + 1] == '{' && t[j] == '}'
    &&& forall|m: int| i + 2 <= m < j ==> t[m] != '}'
}

/// The placeholder that opens at `i` and closes at `j` names a variable that
/// `vars` does not bind.
pub open spec fn undefined_at(t: Seq<char>, vars: Map<Seq<char>, Seq<char>>, i: int, j: int) -> bool {
    closes_at(t, i, j) && !vars.contains_key(t.subrange(i + 2, j))
}

/// Some placeholder of `t` names a variable that `vars` does not bind.
pub open spec fn has_undefined(t: Seq<char>, vars: Map<Seq<char>, Seq<char>>) -> bool {
    exists|i: int, j: int| undefined_at(t, vars, i, j)
}

/// `n` is the name in a placeholder of `t` that `vars` does not bind.
pub open spec fn undefined_name(t: Seq<char>, vars: Map<Seq<char>, Seq<char>>, n: Seq<char>) -> bool {
    exists|i: int, j: int| undefined_at(t, vars, i, j) && n == t.subrange(i + 2, j)
}

/// Rendering `t` against `ps` succeeds.
pub open spec fn renders(t: Seq<char>, ps: Pairs) -> bool {
    !has_undefined(t, pairs_map(ps)) && !pairs_rejected(ps)
}

/// `res` is the outcome of rendering `t` against `ps`: a placeholder of an
/// unbound variable is reported first, then a variable that the substitution
/// engine refuses; otherwise the variables are substituted in their order.
pub open spec fn render_result(t: Seq<char>, ps: Pairs, res: Result<String, ResolveError>) -> bool {
    if has_undefined(t, pairs_map(ps)) {
        res matches Err(ResolveError::UndefinedVariable(n)) && undefined_name(t, pairs_map(ps), n@)
    } else if pairs_rejected(ps) {
        res matches Err(e) && e is Envsubst
    } else {
        res matches Ok(s) && s@ == substituted(t, ps)
    }
}

/// The name of a placeholder of `template` that `vars` does not bind, if any.
pub fn undefined_variable(template: &str, vars: &Context) -> (r: Option<String>)
    ensures
        match r {
            Some(n) => undefined_name(template@, pairs_map(vars@), n@),
            None => !has_undefined(template@, pairs_map(vars@)),
        },
{
    let ghost t = template@;
    let ghost m = pairs_map(vars@);
    let n = template.unicode_len();
    let mut i: usize = 0;
    while n >= 2 && i < n - 2
        invariant
            n == t.len(),
            t == template@,
            m == pairs_map(vars@),
            forall|a: int, b: int| 0 <= a < i ==> !#[trigger] undefined_at(t, m, a, b),
        decreases n - i,
    {
        if template.get_char(i) == '$' && template.get_char(i + 1) == '{' {
            let mut j: usize = i + 2;
            while j < n && template.get_char(j) != '}'
                invariant
                    i + 2 <= j <= n,
                    n == t.len(),
                    t == template@,
                    forall|x: int| i + 2 <= x < j ==> t[x] != '}',
                decreases n - j,
            {
                j += 1;
            }
            if j < n {
                let name = template.substring_char(i + 2, j);
                proof {
                    assert(closes_at(t, i as int, j as int));
                    assert forall|b: int| closes_at(t, i as int, b) implies b == j by {
                        if b < j {
                            assert(t[b] != '}');
                        } else if b > j {
                            assert(t[j as int] != '}');
                        }
                    }
                }
                if vars.get(&String::from_str(name)).is_none() {
                    proof {
                        assert(undefined_at(t, m, i as int, j as int));
                    }
                    return Some(String::from_str(name));
                }
            } else {
                proof {
                    assert forall|b: int| !closes_at(t, i as int, b) by {
                        if closes_at(t, i as int, b) {
                            assert(t[b] != '}');
                        }
                    }
                }
            }
        }
        i += 1;
    }
    proof {
        assert forall|a: int, b: int| !undefined_at(t, m, a, b) by {
            if a >= i && undefined_at(t, m, a, b) {
                assert(false);
            }
        }
    }
    None
}

/// Renders `template` against `vars`: every placeholder must name a bound
/// variable, and the variables are then substituted in their order.
pub fn render(template: &str, vars: &Context) -> (r: Result<String, ResolveError>)
    ensures
        render_result(template@, vars@, r),
{
    if let Some(n) = undefined_variable(template, vars) {
        return Err(ResolveError::UndefinedVariable(n));
    }
    match substitute_all(template, vars) {
        Ok(s) => Ok(s),
        Err(e) => Err(ResolveError::Envsubst(e)),
    }
}

/// The last remote of `rs` that is called `name`, if any.
pub open spec fn remote_named(rs: Seq<Remote>, name: Seq<char>) -> Option<Remote>
    decreases rs.len(),
{
    if rs.len() == 0 {
        None
    } else if rs.last().name@ == name {
        Some(rs.last())
    } else {
        remote_named(rs.drop_last(), name)
    }
}

/// The variables of remote `r` alone.
pub open spec fn remote_vars(r: Remote) -> Pairs {
    with_remote_vars(r, Seq::empty())
}

/// The variables of project `p`: those of the remote that it names, when a
/// remote of `rs` has that name, and then its own name.
pub open spec fn project_vars(rs: Seq<Remote>, p: Project) -> Pairs {
    let base = match p.remote {
        Some(n) => match remote_named(rs, n@) {
            Some(r) => remote_vars(r),
            None => Seq::empty(),
        },
        None => Seq::empty(),
    };
    insert_pair(base, "project_name"@, p.name@)
}

/// `t` rendered once for each list of variables of `vs`, in order, when all
/// of them render.
pub open spec fn rendered_all(t: Seq<char>, vs: Seq<Pairs>) -> Seq<char>
    decreases vs.len(),
{
    if vs.len() == 0 {
        Seq::empty()
    } else {
        rendered_all(t, vs.drop_last()) + substituted(t, vs.last())
    }
}

/// `res` is the outcome of rendering `t` once for each list of `vs`, in
/// order, stopping at the first failure.
pub open spec fn render_all_result(t: Seq<char>, vs: Seq<Pairs>, res: Result<String, ResolveError>) -> bool {
    if forall|i: int| 0 <= i < vs.len() ==> renders(t, #[trigger] vs[i]) {
        res matches Ok(s) && s@ == rendered_all(t, vs)
    } else {
        res matches Err(e) && exists|i: int|
            0 <= i < vs.len() && (forall|j: int| 0 <= j < i ==> renders(t, #[trigger] vs[j]))
                && render_result(t, vs[i], Err(e))
    }
}

/// The last remote of `remotes` that is called `name`, if any.
pub fn find_remote<'a>(remotes: &'a Vec<Remote>, name: &String) -> (r: Option<&'a Remote>)
    ensures
        match remote_named(remotes@, name@) {
            Some(x) => r == Some(&x),
            None => r is None,
        },
{
    let mut i = remotes.len();
    proof {
        assert(remotes@.subrange(0, i as int) =~= remotes@);
    }
    while i > 0
        invariant
            i <= remotes@.len(),
            remote_named(remotes@, name@) == remote_named(remotes@.subrange(0, i as int), name@),
        decreases i,
    {
        let ghost pre = remotes@.subrange(0, i as int);
        proof {
            assert(pre.drop_last() =~= remotes@.subrange(0, i - 1));
        }
        if remotes[i - 1].name.eq(name) {
            return Some(&remotes[i - 1]);
        }
        i -= 1;
    }
    None
}

/// The variables of `project`, looking its remote up among `remotes`.
pub fn project_context(remotes: &Vec<Remote>, project: &Project) -> (r: Context)
    ensures
        r@ == project_vars(remotes@, *project),
{
    let mut context = Context::new();
    if let Some(name) = &project.remote {
        if let Some(remote) = find_remote(remotes, name) {
            remote.into_hash(&mut context);
        }
    }
    context.insert(String::from_str("project_name"), project.name.clone());
    context
}

/// The variables of `remote` alone.
pub fn remote_context(remote: &Remote) -> (r: Context)
    ensures
        r@ == remote_vars(*remote),
{
    let mut context = Context::new();
    remote.into_hash(&mut context);
    context
}

/// Appends the rendering of `template` against `vars` to `out`.
fn render_into(out: &mut String, template: &str, vars: &Context) -> (r: Result<(), ResolveError>)
    ensures
        match r {
            Ok(()) => renders(template@, vars@) && final(out)@ == old(out)@ + substituted(
                template@,
                vars@,
            ),
            Err(e) => !renders(template@, vars@) && render_result(template@, vars@, Err(e)),
        },
{
    match render(template, vars) {
        Ok(s) => {
            out.append(s.as_str());
            Ok(())
        },
        Err(e) => Err(e),
    }
}

proof fn lemma_render_all_step(t: Seq<char>, vs: Seq<Pairs>, i: int)
    requires
        0 <= i < vs.len(),
    ensures
        rendered_all(t, vs.subrange(0, i + 1)) == rendered_all(t, vs.subrange(0, i)) + substituted(
            t,
            vs[i],
        ),
{
    assert(vs.subrange(0, i + 1).drop_last() =~= vs.subrange(0, i));
}

/// Renders `template` once for each project of the manifest, in order, with
/// the variables of the project and of its remote.
pub fn render_projects(manifest: &Manifest, template: &str) -> (r: Result<String, ResolveError>)
    ensures
        render_all_result(
            template@,
            manifest.projects@.map_values(|p: Project| project_vars(manifest.remotes@, p)),
            r,
        ),
{
    let ghost vs = manifest.projects@.map_values(|p: Project| project_vars(manifest.remotes@, p));
    let mut out = String::new();
    let n = manifest.projects.len();
    let mut i: usize = 0;
    while i < n
        invariant
            n == manifest.projects@.len(),
            vs == manifest.projects@.map_values(|p: Project| project_vars(manifest.remotes@, p)),
            i <= n,
            forall|j: int| 0 <= j < i ==> renders(template@, #[trigger] vs[j]),
            out@ == rendered_all(template@, vs.subrange(0, i as int)),
        decreases n - i,
    {
        let context = project_context(&manifest.remotes, &manifest.projects[i]);
        proof {
            lemma_render_all_step(template@, vs, i as int);
        }
        if let Err(e) = render_into(&mut out, template, &context) {
            return Err(e);
        }
        i += 1;
    }
    proof {
        assert(vs.subrange(0, n as int) =~= vs);
    }
    Ok(out)
}

/// Renders `template` once for each remote of the manifest, in order, each
/// time against the variables of that remote alone.
pub fn render_remotes(manifest: &Manifest, template: &str) -> (r: Result<String, ResolveError>)
    ensures
        render_all_result(template@, manifest.remotes@.map_values(|x: Remote| remote_vars(x)), r),
{
    let ghost vs = manifest.remotes@.map_values(|x: Remote| remote_vars(x));
    let mut out = String::new();
    let n = manifest.remotes.len();
    let mut i: usize = 0;
    while i < n
        invariant
            n == manifest.remotes@.len(),
            vs == manifest.remotes@.map_values(|x: Remote| remote_vars(x)),
            i <= n,
            forall|j: int| 0 <= j < i ==> renders(template@, #[trigger] vs[j]),
            out@ == rendered_all(template@, vs.subrange(0, i as int)),
        decreases n - i,
    {
        let context = remote_context(&manifest.remotes[i]);
        proof {
            lemma_render_all_step(template@, vs, i as int);
        }
        if let Err(e) = render_into(&mut out, template, &context) {
            return Err(e);
        }
        i += 1;
    }
    proof {
        assert(vs.subrange(0, n as int) =~= vs);
    }
    Ok(out)
}

} // verus!
