//! Resolving remotes against local configuration, and assembling the local
//! manifest that overrides them.
use vstd::prelude::*;
use crate::context::{Context, Pairs, lemma_insert_pair, lemma_push_pair, pairs_map, substituted};
use crate::dotenv::{dotenv_of, read_dot_env};
use crate::error::ResolveError;
use crate::model::{Manifest, Remote};
use crate::protocol::{ProtocolTypeError, ReviewProtocolType, lowercase_of, protocol_of_lowercase};
use crate::template::{
    remote_context, remote_vars, render, render_result, renders, has_undefined, undefined_name,
};

verus! {

/// The view of an optional text.
pub open spec fn opt_view(o: Option<String>) -> Option<Seq<char>> {
    match o {
        Some(s) => Some(s@),
        None => None,
    }
}

/// The value that `m` binds to `k`, if any.
pub open spec fn bound(m: Map<Seq<char>, Seq<char>>, k: Seq<char>) -> Option<Seq<char>> {
    if m.contains_key(k) {
        Some(m[k])
    } else {
        None
    }
}

/// The override templates `ov` with each value rendered against `vars`.
pub open spec fn rendered_pairs(ov: Pairs, vars: Pairs) -> Pairs {
    ov.map_values(|e: (Seq<char>, Seq<char>)| (e.0, substituted(e.1, vars)))
}

/// Some override template of `ov` names a variable that `vars` does not bind.
pub open spec fn override_undefined(ov: Pairs, vars: Pairs) -> bool {
    exists|j: int| 0 <= j < ov.len() && has_undefined(#[trigger] ov[j].1, pairs_map(vars))
}

/// The configuration of remote `r`: the bindings of the configuration
/// template `t` rendered against the remote's variables, overlaid by the
/// override templates `ov` rendered against the same variables; none where a
/// configuration line has no `=`.
pub open spec fn merged_config(r: Remote, t: Seq<char>, ov: Pairs) -> Option<
    Map<Seq<char>, Seq<char>>,
> {
    match dotenv_of(substituted(t, remote_vars(r))) {
        Some(cfg) => Some(cfg.union_prefer_right(pairs_map(rendered_pairs(ov, remote_vars(r))))),
        None => None,
    }
}

/// The review protocol that configuration `m` sets, if it sets a known one.
pub open spec fn configured_protocol(m: Map<Seq<char>, Seq<char>>) -> Option<ReviewProtocolType> {
    if m.contains_key("review_protocol"@) {
        protocol_of_lowercase(lowercase_of(m["review_protocol"@]))
    } else {
        None
    }
}

/// `x` is the local remote called `name` that configuration `m` describes.
pub open spec fn is_local_remote(x: Remote, name: Seq<char>, m: Map<Seq<char>, Seq<char>>) -> bool {
    &&& x.name@ == name
    &&& x.fetch@ == m["fetch_url"@]
    &&& opt_view(x.pushurl) == bound(m, "push_url"@)
    &&& opt_view(x.review) == bound(m, "review_url"@)
    &&& x.review_protocol == configured_protocol(m)
    &&& x.alias is None
    &&& x.revision is None
    &&& x.override_remote == Some(true)
}

/// What resolving remote `r` against configuration template `t` and
/// override templates `ov` gives: `res` is that outcome. The steps fail in
/// this order: rendering the configuration template, reading its lines,
/// rendering an override, a missing fetch URL, an unknown review protocol.
pub open spec fn local_remote_result(
    r: Remote,
    t: Seq<char>,
    ov: Pairs,
    res: Result<Remote, ResolveError>,
) -> bool {
    let vars = remote_vars(r);
    if !renders(t, vars) {
        match res {
            Ok(_) => false,
            Err(e) => render_result(t, vars, Err(e)),
        }
    } else {
        match dotenv_of(substituted(t, vars)) {
            None => res matches Err(ResolveError::ConfigFileFormat),
            Some(cfg) => if override_undefined(ov, vars) {
                res matches Err(ResolveError::UndefinedVariable(n)) && exists|j: int|
                    0 <= j < ov.len() && undefined_name(#[trigger] ov[j].1, pairs_map(vars), n@)
            } else {
                let m = cfg.union_prefer_right(pairs_map(rendered_pairs(ov, vars)));
                if !m.contains_key("fetch_url"@) {
                    res matches Err(ResolveError::FetchRequired)
                } else if m.contains_key("review_protocol"@) && configured_protocol(m) is None {
                    res matches Err(ResolveError::Protocol(ProtocolTypeError::UnexpectedProtocol(e)))
                        && e@ == m["review_protocol"@]
                } else {
                    res matches Ok(x) && is_local_remote(x, r.name@, m)
                }
            },
        }
    }
}

/// Resolving remote `r` succeeds.
pub open spec fn resolves(r: Remote, t: Seq<char>, ov: Pairs) -> bool {
    &&& renders(t, remote_vars(r))
    &&& !override_undefined(ov, remote_vars(r))
    &&& merged_config(r, t, ov) matches Some(m)
    &&& m.contains_key("fetch_url"@)
    &&& (m.contains_key("review_protocol"@) ==> configured_protocol(m) is Some)
}

/// The value of `k` in `config`, copied.
fn config_value(config: &Context, k: &str) -> (r: Option<String>)
    ensures
        opt_view(r) == bound(pairs_map(config@), k@),
{
    match config.get(&String::from_str(k)) {
        Some(v) => Some(v.clone()),
        None => None,
    }
}

/// Binds in `config` each name of `overrides` to its template rendered
/// against `vars`, in order, replacing the configured value.
fn apply_overrides(config: &mut Context, overrides: &Context, vars: &Context) -> (r: Result<
    (),
    ResolveError,
>)
    requires
        !crate::context::pairs_rejected(vars@),
    ensures
        match r {
            Ok(()) => !override_undefined(overrides@, vars@) && pairs_map(final(config)@)
                == pairs_map(old(config)@).union_prefer_right(
                pairs_map(rendered_pairs(overrides@, vars@)),
            ),
            Err(e) => e matches ResolveError::UndefinedVariable(n) && exists|j: int|
                0 <= j < overrides@.len() && undefined_name(
                    #[trigger] overrides@[j].1,
                    pairs_map(vars@),
                    n@,
                ),
        },
{
    let ghost ov = overrides@;
    let ghost base = pairs_map(config@);
    let n = overrides.len();
    let mut j: usize = 0;
    proof {
        assert(rendered_pairs(ov.subrange(0, 0), vars@) =~= Seq::<(Seq<char>, Seq<char>)>::empty());
        assert(base =~= base.union_prefer_right(pairs_map(Seq::<(Seq<char>, Seq<char>)>::empty())));
    }
    while j < n
        invariant
            n == ov.len(),
            ov == overrides@,
            j <= n,
            !crate::context::pairs_rejected(vars@),
            forall|x: int| 0 <= x < j ==> !has_undefined(#[trigger] ov[x].1, pairs_map(vars@)),
            pairs_map(config@) == base.union_prefer_right(
                pairs_map(rendered_pairs(ov.subrange(0, j as int), vars@)),
            ),
        decreases n - j,
    {
        let (k, t) = overrides.entry(j);
        match render(t.as_str(), vars) {
            Ok(s) => {
                proof {
                    let pre = rendered_pairs(ov.subrange(0, j as int), vars@);
                    let e = (k@, s@);
                    assert(rendered_pairs(ov.subrange(0, j + 1), vars@) =~= pre.push(e));
                    lemma_push_pair(pre, e);
                    lemma_insert_pair(config@, k@, s@);
                    assert(base.union_prefer_right(pairs_map(pre).insert(k@, s@)) =~= base.union_prefer_right(
                        pairs_map(pre),
                    ).insert(k@, s@));
                }
                config.insert(k.clone(), s);
            },
            Err(e) => {
                proof {
                    assert(overrides@[j as int].1 == t@);
                }
                return Err(e);
            },
        }
        j += 1;
    }
    proof {
        assert(ov.subrange(0, n as int) =~= ov);
        assert(rendered_pairs(ov.subrange(0, n as int), vars@) == rendered_pairs(ov, vars@));
        assert(pairs_map(config@) == base.union_prefer_right(
            pairs_map(rendered_pairs(overrides@, vars@)),
        ));
        assert forall|x: int| 0 <= x < ov.len() implies !has_undefined(
            #[trigger] ov[x].1,
            pairs_map(vars@),
        ) by {}
        assert(!override_undefined(overrides@, vars@));
    }
    Ok(())
}

/// Resolves `remote` into a local remote that overrides it. The
/// configuration template is rendered against the remote's variables and
/// read as `KEY=VALUE` lines; each override template, rendered against the
/// same variables, then replaces the configured value of its key. The fetch
/// URL is required; push and review URLs and the review protocol are taken
/// where configured.
pub fn local_remote(remote: &Remote, config_template: &str, overrides: &Context) -> (r: Result<
    Remote,
    ResolveError,
>)
    ensures
        local_remote_result(*remote, config_template@, overrides@, r),
        r is Ok <==> resolves(*remote, config_template@, overrides@),
{
    let vars = remote_context(remote);
    let text = match render(config_template, &vars) {
        Ok(text) => text,
        Err(e) => return Err(e),
    };
    let mut config = match read_dot_env(text.as_str()) {
        Ok(c) => c,
        Err(e) => return Err(e),
    };
    if let Err(e) = apply_overrides(&mut config, overrides, &vars) {
        return Err(e);
    }
    let fetch = match config_value(&config, "fetch_url") {
        Some(f) => f,
        None => return Err(ResolveError::FetchRequired),
    };
    let review_protocol = match config.get(&String::from_str("review_protocol")) {
        Some(p) => match ReviewProtocolType::parse(p.as_str()) {
            Ok(x) => Some(x),
            Err(e) => return Err(ResolveError::Protocol(e)),
        },
        None => None,
    };
    Ok(
        Remote {
            name: remote.name.clone(),
            alias: None,
            pushurl: config_value(&config, "push_url"),
            fetch,
            review: config_value(&config, "review_url"),
            revision: None,
            review_protocol,
            override_remote: Some(true),
        },
    )
}

/// Precedence of the configuration layers for the fetch URL: an override of
/// `fetch_url` wins over the configuration file; without an override the
/// file's value is taken; with neither, resolution fails for want of a fetch
/// URL.
pub proof fn lemma_merge_precedence(
    r: Remote,
    t: Seq<char>,
    ov: Pairs,
    res: Result<Remote, ResolveError>,
)
    requires
        renders(t, remote_vars(r)),
        dotenv_of(substituted(t, remote_vars(r))) is Some,
        !override_undefined(ov, remote_vars(r)),
        local_remote_result(r, t, ov, res),
    ensures
        ({
            let cfg = dotenv_of(substituted(t, remote_vars(r)))->0;
            let ovm = pairs_map(ov);
            &&& ovm.contains_key("fetch_url"@) ==> (res matches Ok(x) ==> x.fetch@ == substituted(
                ovm["fetch_url"@],
                remote_vars(r),
            ))
            &&& (!ovm.contains_key("fetch_url"@) && cfg.contains_key("fetch_url"@)) ==> (
            res matches Ok(x) ==> x.fetch@ == cfg["fetch_url"@])
            &&& (!ovm.contains_key("fetch_url"@) && !cfg.contains_key("fetch_url"@))
                ==> res matches Err(ResolveError::FetchRequired)
        }),
{
    lemma_rendered_pairs_map(ov, remote_vars(r));
}

proof fn lemma_rendered_pairs_map(ov: Pairs, vars: Pairs)
    ensures
        forall|k: Seq<char>|
            #[trigger] pairs_map(rendered_pairs(ov, vars)).contains_key(k) == pairs_map(
                ov,
            ).contains_key(k),
        forall|k: Seq<char>|
            pairs_map(ov).contains_key(k) ==> #[trigger] pairs_map(rendered_pairs(ov, vars))[k]
                == substituted(pairs_map(ov)[k], vars),
    decreases ov.len(),
{
    if ov.len() > 0 {
        let d = ov.drop_last();
        let e = ov.last();
        let f = (e.0, substituted(e.1, vars));
        lemma_rendered_pairs_map(d, vars);
        assert(ov =~= d.push(e));
        assert(rendered_pairs(ov, vars) =~= rendered_pairs(d, vars).push(f));
        lemma_push_pair(d, e);
        lemma_push_pair(rendered_pairs(d, vars), f);
    } else {
        assert(rendered_pairs(ov, vars) =~= ov);
    }
}

/// `lm` carries remotes and nothing else.
pub open spec fn only_remotes(lm: Manifest) -> bool {
    &&& lm.notice is None
    &&& lm.manifest_server is None
    &&& lm.default is None
    &&& lm.remove_projects@.len() == 0
    &&& lm.projects@.len() == 0
    &&& lm.extend_projects@.len() == 0
    &&& lm.repo_hooks is None
    &&& lm.includes@.len() == 0
}

/// `r` is the outcome of building the local manifest for remotes `rs`: it
/// succeeds exactly when every remote resolves, and then holds only the
/// resolved remotes, in order; otherwise it fails with the error of the first
/// remote that does not resolve.
pub open spec fn local_manifest_result(
    rs: Seq<Remote>,
    t: Seq<char>,
    ov: Pairs,
    r: Result<Manifest, ResolveError>,
) -> bool {
    &&& r is Ok <==> forall|i: int| 0 <= i < rs.len() ==> resolves(#[trigger] rs[i], t, ov)
    &&& r matches Ok(lm) ==> {
        &&& only_remotes(lm)
        &&& lm.remotes@.len() == rs.len()
        &&& forall|i: int|
            0 <= i < rs.len() ==> local_remote_result(#[trigger] rs[i], t, ov, Ok(lm.remotes@[i]))
    }
    &&& r matches Err(e) ==> exists|i: int|
        0 <= i < rs.len() && (forall|j: int| 0 <= j < i ==> resolves(#[trigger] rs[j], t, ov))
            && local_remote_result(rs[i], t, ov, Err(e))
}

/// A remote whose merged configuration has no fetch URL fails the whole
/// local manifest with the fetch-required error, once the remotes before it
/// resolve.
pub proof fn lemma_batch_fetch_required(
    rs: Seq<Remote>,
    t: Seq<char>,
    ov: Pairs,
    k: int,
    r: Result<Manifest, ResolveError>,
)
    requires
        local_manifest_result(rs, t, ov, r),
        0 <= k < rs.len(),
        forall|j: int| 0 <= j < k ==> resolves(#[trigger] rs[j], t, ov),
        renders(t, remote_vars(rs[k])),
        !override_undefined(ov, remote_vars(rs[k])),
        merged_config(rs[k], t, ov) matches Some(m) && !m.contains_key("fetch_url"@),
    ensures
        r matches Err(ResolveError::FetchRequired),
{
    assert(!resolves(rs[k], t, ov));
    if let Err(e) = r {
        let i = choose|i: int|
            0 <= i < rs.len() && (forall|j: int| 0 <= j < i ==> resolves(#[trigger] rs[j], t, ov))
                && local_remote_result(rs[i], t, ov, Err(e));
        if i < k {
            assert(resolves(rs[i], t, ov));
        } else if i > k {
            assert(resolves(rs[k], t, ov));
        }
    }
}

/// Builds the local manifest of `manifest`: one resolved local remote for
/// each of its remotes, in order, and nothing else. The first remote that
/// fails to resolve fails the whole manifest with its error.
pub fn local_manifest(manifest: &Manifest, config_template: &str, overrides: &Context) -> (r:
    Result<Manifest, ResolveError>)
    ensures
        local_manifest_result(manifest.remotes@, config_template@, overrides@, r),
{
    let n = manifest.remotes.len();
    let mut remotes: Vec<Remote> = Vec::new();
    let mut i: usize = 0;
    while i < n
        invariant
            n == manifest.remotes@.len(),
            i <= n,
            remotes@.len() == i,
            forall|j: int|
                0 <= j < i ==> resolves(
                    #[trigger] manifest.remotes@[j],
                    config_template@,
                    overrides@,
                ),
            forall|j: int|
                0 <= j < i ==> local_remote_result(
                    #[trigger] manifest.remotes@[j],
                    config_template@,
                    overrides@,
                    Ok(remotes@[j]),
                ),
        decreases n - i,
    {
        match local_remote(&manifest.remotes[i], config_template, overrides) {
            Ok(x) => {
                remotes.push(x);
            },
            Err(e) => {
                return Err(e);
            },
        }
        i += 1;
    }
    Ok(
        Manifest {
            notice: None,
            manifest_server: None,
            remotes,
            default: None,
            remove_projects: Vec::new(),
            projects: Vec::new(),
            extend_projects: Vec::new(),
            repo_hooks: None,
            includes: Vec::new(),
        },
    )
}

} // verus!
