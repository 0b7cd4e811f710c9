//! The manifest entities and the propagation of manifest-level defaults.
use vstd::prelude::*;

verus! {

/// The root of a manifest document.
#[derive(Debug, PartialEq)]
pub struct Manifest {
    pub notice: Option<Notice>,
    pub manifest_server: Option<ManifestServer>,
    pub remotes: Vec<Remote>,
    pub default: Option<DefaultTag>,
    pub remove_projects: Vec<RemoveProject>,
    pub projects: Vec<Project>,
    pub extend_projects: Vec<ExtendProject>,
    pub repo_hooks: Option<RepoHooks>,
    pub includes: Vec<Include>,
}

/// Free text shown to users of the manifest.
#[derive(Debug, PartialEq)]
pub struct Notice {
    pub notice: Option<String>,
}

/// A named source-control endpoint.
#[derive(Debug, PartialEq)]
pub struct Remote {
    pub name: String,
    pub alias: Option<String>,
    pub pushurl: Option<String>,
    pub fetch: String,
    pub review: Option<String>,
    pub revision: Option<String>,
    pub review_protocol: Option<crate::protocol::ReviewProtocolType>,
    pub override_remote: Option<bool>,
}

/// Manifest-wide fallback values for projects.
#[derive(Debug, PartialEq)]
pub struct DefaultTag {
    pub remote: Option<String>,
    pub revision: Option<String>,
    pub dest_branch: Option<String>,
    pub upstream: Option<String>,
    pub sync_j: Option<String>,
    pub sync_c: Option<String>,
    pub sync_s: Option<String>,
}

/// The URL of a server that hands out manifests.
#[derive(Debug, PartialEq)]
pub struct ManifestServer {
    pub url: String,
}

/// A project removed from an included manifest.
#[derive(Debug, PartialEq)]
pub struct RemoveProject {
    pub name: String,
}

/// A project of an included manifest whose attributes are extended.
#[derive(Debug, PartialEq)]
pub struct ExtendProject {
    pub name: String,
}

/// A unit checked out from a remote.
#[derive(Debug, PartialEq)]
pub struct Project {
    pub name: String,
    pub path: Option<String>,
    pub remote: Option<String>,
    pub revision: Option<String>,
    pub dest_branch: Option<String>,
    pub groups: Option<String>,
    pub rebase: Option<String>,
    pub sync_c: Option<String>,
    pub sync_s: Option<String>,
    pub sync_tags: Option<String>,
    pub upstream: Option<String>,
    pub clone_depth: Option<usize>,
    pub force_path: Option<String>,
}

/// The project that holds the repo hooks, and the hooks that are enabled.
#[derive(Debug, PartialEq)]
pub struct RepoHooks {
    pub in_project: String,
    pub enabled_list: Vec<String>,
}

/// Another manifest file pulled into this one.
#[derive(Debug, PartialEq)]
pub struct Include {
    pub name: String,
}

impl Manifest {
    /// A value with the given attributes.
    pub fn new(
        notice: Option<Notice>,
        manifest_server: Option<ManifestServer>,
        remotes: Vec<Remote>,
        default: Option<DefaultTag>,
        remove_projects: Vec<RemoveProject>,
        projects: Vec<Project>,
        extend_projects: Vec<ExtendProject>,
        repo_hooks: Option<RepoHooks>,
        includes: Vec<Include>,
    ) -> (r: Manifest)
        ensures
            r.notice == notice,
            r.manifest_server == manifest_server,
            r.remotes == remotes,
            r.default == default,
            r.remove_projects == remove_projects,
            r.projects == projects,
            r.extend_projects == extend_projects,
            r.repo_hooks == repo_hooks,
            r.includes == includes,
    {
        Manifest {
            notice,
            manifest_server,
            remotes,
            default,
            remove_projects,
            projects,
            extend_projects,
            repo_hooks,
            includes,
        }
    }
}

impl Notice {
    /// A value with the given attributes.
    pub fn new(notice: Option<String>) -> (r: Notice)
        ensures
            r.notice == notice,
    {
        Notice { notice }
    }
}

impl Remote {
    /// A value with the given attributes.
    pub fn new(
        name: String,
        alias: Option<String>,
        pushurl: Option<String>,
        fetch: String,
        review: Option<String>,
        revision: Option<String>,
        review_protocol: Option<crate::protocol::ReviewProtocolType>,
        override_remote: Option<bool>,
    ) -> (r: Remote)
        ensures
            r.name == name,
            r.alias == alias,
            r.pushurl == pushurl,
            r.fetch == fetch,
            r.review == review,
            r.revision == revision,
            r.review_protocol == review_protocol,
            r.override_remote == override_remote,
    {
        Remote { name, alias, pushurl, fetch, review, revision, review_protocol, override_remote }
    }
}

impl DefaultTag {
    /// A value with the given attributes.
    pub fn new(
        remote: Option<String>,
        revision: Option<String>,
        dest_branch: Option<String>,
        upstream: Option<String>,
        sync_j: Option<String>,
        sync_c: Option<String>,
        sync_s: Option<String>,
    ) -> (r: DefaultTag)
        ensures
            r.remote == remote,
            r.revision == revision,
            r.dest_branch == dest_branch,
            r.upstream == upstream,
            r.sync_j == sync_j,
            r.sync_c == sync_c,
            r.sync_s == sync_s,
    {
        DefaultTag { remote, revision, dest_branch, upstream, sync_j, sync_c, sync_s }
    }
}

impl ManifestServer {
    /// A value with the given attributes.
    pub fn new(url: String) -> (r: ManifestServer)
        ensures
            r.url == url,
    {
        ManifestServer { url }
    }
}

impl RemoveProject {
    /// A value with the given attributes.
    pub fn new(name: String) -> (r: RemoveProject)
        ensures
            r.name == name,
    {
        RemoveProject { name }
    }
}

impl ExtendProject {
    /// A value with the given attributes.
    pub fn new(name: String) -> (r: ExtendProject)
        ensures
            r.name == name,
    {
        ExtendProject { name }
    }
}

impl Project {
    /// A value with the given attributes.
    pub fn new(
        name: String,
        path: Option<String>,
        remote: Option<String>,
        revision: Option<String>,
        dest_branch: Option<String>,
        groups: Option<String>,
        rebase: Option<String>,
        sync_c: Option<String>,
        sync_s: Option<String>,
        sync_tags: Option<String>,
        upstream: Option<String>,
        clone_depth: Option<usize>,
        force_path: Option<String>,
    ) -> (r: Project)
        ensures
            r.name == name,
            r.path == path,
            r.remote == remote,
            r.revision == revision,
            r.dest_branch == dest_branch,
            r.groups == groups,
            r.rebase == rebase,
            r.sync_c == sync_c,
            r.sync_s == sync_s,
            r.sync_tags == sync_tags,
            r.upstream == upstream,
            r.clone_depth == clone_depth,
            r.force_path == force_path,
    {
        Project {
            name,
            path,
            remote,
            revision,
            dest_branch,
            groups,
            rebase,
            sync_c,
            sync_s,
            sync_tags,
            upstream,
            clone_depth,
            force_path,
        }
    }
}

impl RepoHooks {
    /// A value with the given attributes.
    pub fn new(in_project: String, enabled_list: Vec<String>) -> (r: RepoHooks)
        ensures
            r.in_project == in_project,
            r.enabled_list == enabled_list,
    {
        RepoHooks { in_project, enabled_list }
    }
}

impl Include {
    /// A value with the given attributes.
    pub fn new(name: String) -> (r: Include)
        ensures
            r.name == name,
    {
        Include { name }
    }
}

/// The character has the Unicode `White_Space` property: the ASCII tab, line
/// feed, vertical tab, form feed, carriage return and space, and the code
/// points U+0085, U+00A0, U+1680, U+2000 to U+200A, U+2028, U+2029, U+202F,
/// U+205F and U+3000.
pub open spec fn white_space(c: char) -> bool {
    let u = c as u32;
    ||| 0x09 <= u <= 0x0d
    ||| u == 0x20
    ||| u == 0x85
    ||| u == 0xa0
    ||| u == 0x1680
    ||| 0x2000 <= u <= 0x200a
    ||| u == 0x2028
    ||| u == 0x2029
    ||| u == 0x202f
    ||| u == 0x205f
    ||| u == 0x3000
}

/// Whether `c` is white space, as `char::is_whitespace` decides it.
pub fn is_white_space(c: char) -> (r: bool)
    ensures
        r == white_space(c),
{
    let u = c as u32;
    (0x09 <= u && u <= 0x0d) || u == 0x20 || u == 0x85 || u == 0xa0 || u == 0x1680 || (0x2000 <= u
        && u <= 0x200a) || u == 0x2028 || u == 0x2029 || u == 0x202f || u == 0x205f || u == 0x3000
}

/// The words found so far in `s`, and the word being read at its end.
pub open spec fn scan_words(s: Seq<char>) -> (Seq<Seq<char>>, Seq<char>)
    decreases s.len(),
{
    if s.len() == 0 {
        (seq![], seq![])
    } else {
        let (ws, cur) = scan_words(s.drop_last());
        if white_space(s.last()) {
            if cur.len() > 0 {
                (ws.push(cur), seq![])
            } else {
                (ws, seq![])
            }
        } else {
            (ws, cur.push(s.last()))
        }
    }
}

/// The maximal runs of characters of `s` that are not white space, in order.
pub open spec fn words_of(s: Seq<char>) -> Seq<Seq<char>> {
    let (ws, cur) = scan_words(s);
    if cur.len() > 0 {
        ws.push(cur)
    } else {
        ws
    }
}

/// Splits the `enabled-list` of the repo hooks into the names it holds:
/// the runs of characters between white space, with no empty name.
pub fn split_enabled_list(s: &str) -> (r: Vec<String>)
    ensures
        r@.map_values(|w: String| w@) == words_of(s@),
{
    let n = s.unicode_len();
    let mut words: Vec<String> = Vec::new();
    let mut cur = String::new();
    let mut i: usize = 0;
    while i < n
        invariant
            n == s@.len(),
            i <= n,
            scan_words(s@.subrange(0, i as int)) == (words@.map_values(|w: String| w@), cur@),
        decreases n - i,
    {
        let c = s.get_char(i);
        proof {
            assert(s@.subrange(0, i + 1).drop_last() =~= s@.subrange(0, i as int));
        }
        let ghost ws0 = words@.map_values(|w: String| w@);
        let ghost cur0 = cur@;
        if is_white_space(c) {
            if cur.unicode_len() > 0 {
                words.push(cur);
                proof {
                    assert(words@.map_values(|w: String| w@) =~= ws0.push(cur0));
                }
            }
            cur = String::new();
        } else {
            proof {
                assert(s@.subrange(i as int, i + 1) =~= seq![c]);
            }
            cur.append(s.substring_char(i, i + 1));
            proof {
                assert(cur@ =~= cur0.push(c));
            }
        }
        i += 1;
    }
    proof {
        assert(s@.subrange(0, n as int) =~= s@);
    }
    if cur.unicode_len() > 0 {
        let ghost ws0 = words@.map_values(|w: String| w@);
        let ghost cur0 = cur@;
        words.push(cur);
        proof {
            assert(words@.map_values(|w: String| w@) =~= ws0.push(cur0));
        }
    }
    words
}

/// The names of `v` joined with one space between each two.
pub open spec fn join_with_spaces(v: Seq<Seq<char>>) -> Seq<char>
    decreases v.len(),
{
    if v.len() == 0 {
        seq![]
    } else if v.len() == 1 {
        v[0]
    } else {
        join_with_spaces(v.drop_last()) + seq![' '] + v.last()
    }
}

/// `w` is a name that an enabled list can hold: not empty, and without white
/// space.
pub open spec fn is_word(w: Seq<char>) -> bool {
    w.len() > 0 && forall|i: int| 0 <= i < w.len() ==> !white_space(#[trigger] w[i])
}

proof fn lemma_scan_append_word(s: Seq<char>, w: Seq<char>)
    requires
        forall|i: int| 0 <= i < w.len() ==> !white_space(#[trigger] w[i]),
    ensures
        scan_words(s + w) == (scan_words(s).0, scan_words(s).1 + w),
    decreases w.len(),
{
    if w.len() == 0 {
        assert(s + w =~= s);
        assert(scan_words(s).1 + w =~= scan_words(s).1);
    } else {
        lemma_scan_append_word(s, w.drop_last());
        assert((s + w).drop_last() =~= s + w.drop_last());
        assert((s + w).last() == w.last());
        assert(scan_words(s).1 + w.drop_last() + seq![w.last()] =~= scan_words(s).1 + w);
        assert((scan_words(s).1 + w.drop_last()).push(w.last()) =~= scan_words(s).1 + w);
    }
}

proof fn lemma_scan_join(v: Seq<Seq<char>>)
    requires
        v.len() > 0,
        forall|i: int| 0 <= i < v.len() ==> is_word(#[trigger] v[i]),
    ensures
        scan_words(join_with_spaces(v)) == (v.drop_last(), v.last()),
    decreases v.len(),
{
    if v.len() == 1 {
        lemma_scan_append_word(seq![], v[0]);
        assert(Seq::<char>::empty() + v[0] =~= v[0]);
        assert(v.drop_last() =~= Seq::<Seq<char>>::empty());
    } else {
        let d = v.drop_last();
        assert(forall|i: int| 0 <= i < d.len() ==> d[i] == v[i]);
        lemma_scan_join(d);
        let j = join_with_spaces(d);
        let sp = j + seq![' '];
        assert(sp.drop_last() =~= j);
        assert(white_space(' '));
        assert(is_word(d.last()));
        assert(scan_words(sp) == (d.drop_last().push(d.last()), Seq::<char>::empty()));
        assert(d.drop_last().push(d.last()) =~= d);
        assert(is_word(v.last()));
        lemma_scan_append_word(sp, v.last());
        assert(Seq::<char>::empty() + v.last() =~= v.last());
    }
}

/// Splitting the names of an enabled list written with single spaces between
/// them gives back those names.
pub proof fn lemma_enabled_list_round_trip(v: Seq<Seq<char>>)
    requires
        forall|i: int| 0 <= i < v.len() ==> is_word(#[trigger] v[i]),
    ensures
        words_of(join_with_spaces(v)) == v,
{
    if v.len() == 0 {
        assert(scan_words(Seq::<char>::empty()) == (Seq::<Seq<char>>::empty(), Seq::<char>::empty()));
    } else {
        lemma_scan_join(v);
        assert(is_word(v.last()));
        assert(v.drop_last().push(v.last()) =~= v);
    }
}

/// The remote that the manifest's default names, if any.
pub open spec fn default_remote(m: Manifest) -> Option<String> {
    match m.default {
        Some(d) => d.remote,
        None => None,
    }
}

/// A project after the default remote `d` has been applied: a project without
/// a remote takes `d`; every other project is left as it is.
pub open spec fn project_with_default(p: Project, d: Option<String>) -> Project {
    if p.remote is None && d is Some {
        Project { remote: d, ..p }
    } else {
        p
    }
}

/// Every project of `ps` after the default remote `d` has been applied.
pub open spec fn projects_with_default(ps: Seq<Project>, d: Option<String>) -> Seq<Project> {
    ps.map_values(|p: Project| project_with_default(p, d))
}

impl Manifest {
    /// Gives every project that names no remote the remote of the manifest's
    /// default, when the default names one. No other default is propagated.
    pub fn set_defaults(&mut self)
        ensures
            final(self).projects@ == projects_with_default(
                old(self).projects@,
                default_remote(*old(self)),
            ),
            final(self).notice == old(self).notice,
            final(self).manifest_server == old(self).manifest_server,
            final(self).remotes == old(self).remotes,
            final(self).default == old(self).default,
            final(self).remove_projects == old(self).remove_projects,
            final(self).extend_projects == old(self).extend_projects,
            final(self).repo_hooks == old(self).repo_hooks,
            final(self).includes == old(self).includes,
    {
        let d = match &self.default {
            Some(d) => match &d.remote {
                Some(r) => Some(r.clone()),
                None => None,
            },
            None => None,
        };
        if let Some(remote) = d {
            let ghost d0 = default_remote(*self);
            let ghost ps0 = self.projects@;
            let n = self.projects.len();
            let mut i: usize = 0;
            while i < n
                invariant
                    n == ps0.len(),
                    d0 == Some(remote),
                    self.projects@.len() == n,
                    i <= n,
                    forall|j: int| 0 <= j < i ==> self.projects@[j] == project_with_default(ps0[j], d0),
                    forall|j: int| i <= j < n ==> self.projects@[j] == ps0[j],
                    self.notice == old(self).notice,
                    self.manifest_server == old(self).manifest_server,
                    self.remotes == old(self).remotes,
                    self.default == old(self).default,
                    self.remove_projects == old(self).remove_projects,
                    self.extend_projects == old(self).extend_projects,
                    self.repo_hooks == old(self).repo_hooks,
                    self.includes == old(self).includes,
                decreases n - i,
            {
                if self.projects[i].remote.is_none() {
                    self.projects[i].remote = Some(remote.clone());
                }
                i += 1;
            }
            assert(self.projects@ =~= projects_with_default(ps0, d0));
        } else {
            assert(self.projects@ =~= projects_with_default(self.projects@, None));
        }
    }
}

/// Propagating the default remote twice has the effect of propagating it once.
pub proof fn lemma_set_defaults_idempotent(m: Manifest)
    ensures
        projects_with_default(
            projects_with_default(m.projects@, default_remote(m)),
            default_remote(m),
        ) == projects_with_default(m.projects@, default_remote(m)),
{
    let d = default_remote(m);
    assert(projects_with_default(projects_with_default(m.projects@, d), d) =~= projects_with_default(
        m.projects@,
        d,
    ));
}

/// When the default names a remote, a project without a remote gets it, its
/// other attributes unchanged; a project with a remote is left as it is.
pub proof fn lemma_set_defaults_scope(m: Manifest, i: int)
    requires
        0 <= i < m.projects@.len(),
    ensures
        ({
            let p = m.projects@[i];
            let q = projects_with_default(m.projects@, default_remote(m))[i];
            &&& (p.remote is None && default_remote(m) is Some) ==> q == (Project {
                remote: default_remote(m),
                ..p
            })
            &&& p.remote is Some ==> q == p
        }),
{
}

} // verus!
