use git_repo_manifest::context::Context;
use git_repo_manifest::convert::{local_manifest, local_remote};
use git_repo_manifest::dotenv::{read_dot_env, split_once};
use git_repo_manifest::error::ResolveError;
use git_repo_manifest::model::{is_white_space, split_enabled_list, DefaultTag, Manifest, Project, Remote};
use git_repo_manifest::protocol::{ProtocolTypeError, ReviewProtocolType};
use git_repo_manifest::template::{render_projects, render_remotes};

use std::convert::TryFrom;
use std::str::FromStr;

fn s(x: &str) -> String {
    x.to_string()
}

fn remote(name: &str, fetch: &str) -> Remote {
    Remote::new(s(name), None, None, s(fetch), None, None, None, None)
}

fn project(name: &str, remote: Option<&str>) -> Project {
    Project::new(
        s(name),
        None,
        remote.map(s),
        None,
        None,
        None,
        None,
        None,
        None,
        None,
        None,
        None,
        None,
    )
}

fn default_tag(remote: Option<&str>) -> DefaultTag {
    DefaultTag::new(remote.map(s), None, None, None, None, None, None)
}

fn manifest(remotes: Vec<Remote>, default: Option<DefaultTag>, projects: Vec<Project>) -> Manifest {
    Manifest::new(None, None, remotes, default, vec![], projects, vec![], None, vec![])
}

fn ctx(pairs: &[(&str, &str)]) -> Context {
    let mut c = Context::new();
    for (k, v) in pairs {
        c.insert(s(k), s(v));
    }
    c
}

fn get(c: &Context, k: &str) -> Option<String> {
    c.get(&s(k)).cloned()
}

#[test]
fn protocol_agit_any_case() {
    for t in ["agit", "AGit", "AGIT"] {
        assert_eq!(ReviewProtocolType::parse(t).unwrap(), ReviewProtocolType::AGit);
    }
}

#[test]
fn protocol_gerrit_any_case() {
    for t in ["gerrit", "Gerrit", "GERRIT"] {
        assert_eq!(ReviewProtocolType::parse(t).unwrap(), ReviewProtocolType::Gerrit);
    }
    let p: ReviewProtocolType = "GeRrIt".parse().unwrap();
    assert_eq!(p, ReviewProtocolType::Gerrit);
}

#[test]
fn protocol_unknown_names_the_text() {
    match ReviewProtocolType::parse("Svn") {
        Err(e) => {
            assert!(matches!(&e, ProtocolTypeError::UnexpectedProtocol(t) if t == "Svn"));
            assert_eq!(e.message(), "Unknown protocol: Svn");
        }
        Ok(_) => panic!("unknown protocol accepted"),
    }
    assert!(ReviewProtocolType::parse("").is_err());
}

#[test]
fn split_on_first_delimiter() {
    assert_eq!(split_once("KEY=VALUE=X", '='), Some(("KEY", "VALUE=X")));
    assert_eq!(split_once("=x", '='), Some(("", "x")));
    assert_eq!(split_once("k=", '='), Some(("k", "")));
    assert_eq!(split_once("NOEQUALS", '='), None);
}

#[test]
fn dot_env_first_equals_only() {
    let c = read_dot_env("KEY=VALUE=X").unwrap();
    assert_eq!(get(&c, "KEY"), Some(s("VALUE=X")));
    assert_eq!(get(&c, "VALUE"), None);
}

#[test]
fn dot_env_missing_equals_is_format_error() {
    assert!(matches!(read_dot_env("NOEQUALS"), Err(ResolveError::ConfigFileFormat)));
    assert!(matches!(read_dot_env("a=1\nbad\nb=2\n"), Err(ResolveError::ConfigFileFormat)));
    assert!(matches!(read_dot_env("a=1\n\nb=2\n"), Err(ResolveError::ConfigFileFormat)));
}

#[test]
fn dot_env_lines_and_endings() {
    let c = read_dot_env("a=1\r\nb=2\nc=3").unwrap();
    assert_eq!(get(&c, "a"), Some(s("1")));
    assert_eq!(get(&c, "b"), Some(s("2")));
    assert_eq!(get(&c, "c"), Some(s("3")));
    let d = read_dot_env("a=1\r").unwrap();
    assert_eq!(get(&d, "a"), Some(s("1\r")));
    let e = read_dot_env("").unwrap();
    assert_eq!(get(&e, "a"), None);
}

#[test]
fn dot_env_later_line_wins() {
    let c = read_dot_env("fetch_url=A\nfetch_url=B\n").unwrap();
    assert_eq!(get(&c, "fetch_url"), Some(s("B")));
}

#[test]
fn context_insert_replaces() {
    let mut c = ctx(&[("a", "1"), ("b", "2")]);
    c.insert(s("a"), s("3"));
    assert_eq!(get(&c, "a"), Some(s("3")));
    assert_eq!(get(&c, "b"), Some(s("2")));
    assert_eq!(get(&c, "z"), None);
}

#[test]
fn remote_variables() {
    let r = Remote::new(
        s("origin"),
        None,
        Some(s("ssh://push/")),
        s("https://a.example/"),
        Some(s("https://review/")),
        None,
        None,
        None,
    );
    let mut c = Context::new();
    r.into_hash(&mut c);
    assert_eq!(get(&c, "remote_name"), Some(s("origin")));
    assert_eq!(get(&c, "push_url"), Some(s("ssh://push/")));
    assert_eq!(get(&c, "fetch_url"), Some(s("https://a.example/")));
    assert_eq!(get(&c, "review_url"), Some(s("https://review/")));
    let mut d = Context::new();
    remote("o", "f").into_hash(&mut d);
    assert_eq!(get(&d, "push_url"), None);
    assert_eq!(get(&d, "review_url"), None);
}

#[test]
fn defaults_fill_missing_remote_only() {
    let mut m = manifest(
        vec![],
        Some(default_tag(Some("origin"))),
        vec![project("app", None), project("lib", Some("other"))],
    );
    m.set_defaults();
    assert_eq!(m.projects[0].remote, Some(s("origin")));
    assert_eq!(m.projects[1].remote, Some(s("other")));
    assert_eq!(m.projects[0].name, "app");
}

#[test]
fn defaults_idempotent() {
    let mut once = manifest(
        vec![],
        Some(default_tag(Some("origin"))),
        vec![project("app", None), project("lib", Some("other"))],
    );
    once.set_defaults();
    let mut twice = manifest(
        vec![],
        Some(default_tag(Some("origin"))),
        vec![project("app", None), project("lib", Some("other"))],
    );
    twice.set_defaults();
    twice.set_defaults();
    assert_eq!(once, twice);
}

#[test]
fn defaults_without_default_remote() {
    let mut m = manifest(vec![], Some(default_tag(None)), vec![project("app", None)]);
    m.set_defaults();
    assert_eq!(m.projects[0].remote, None);
    let mut n = manifest(vec![], None, vec![project("app", None)]);
    n.set_defaults();
    assert_eq!(n.projects[0].remote, None);
}

#[test]
fn render_projects_scenario() {
    let m = manifest(
        vec![remote("origin", "https://a.example/")],
        None,
        vec![project("app", Some("origin"))],
    );
    let out = render_projects(&m, "${project_name}:${fetch_url}\n").unwrap();
    assert_eq!(out, "app:https://a.example/\n");
}

#[test]
fn render_projects_after_defaults() {
    let mut m = manifest(
        vec![remote("origin", "https://a.example/")],
        Some(default_tag(Some("origin"))),
        vec![project("app", None)],
    );
    m.set_defaults();
    let out = render_projects(&m, "${project_name}:${fetch_url}\n").unwrap();
    assert_eq!(out, "app:https://a.example/\n");
}

#[test]
fn render_projects_in_order() {
    let m = manifest(
        vec![remote("origin", "https://a.example/"), remote("origin", "https://b.example/")],
        None,
        vec![project("x", Some("origin")), project("y", Some("origin"))],
    );
    let out = render_projects(&m, "${project_name}=${fetch_url};").unwrap();
    assert_eq!(out, "x=https://b.example/;y=https://b.example/;");
}

#[test]
fn render_projects_unknown_remote_is_undefined_variable() {
    let m = manifest(
        vec![remote("origin", "https://a.example/")],
        None,
        vec![project("x", Some("nowhere"))],
    );
    let res = render_projects(&m, "${project_name}=${fetch_url};");
    assert!(matches!(res, Err(ResolveError::UndefinedVariable(n)) if n == "fetch_url"));
}

#[test]
fn render_remotes_fresh_variables() {
    let with_push = Remote::new(s("r1"), None, Some(s("P")), s("F1"), None, None, None, None);
    let m = manifest(vec![with_push, remote("r2", "F2")], None, vec![]);
    let res = render_remotes(&m, "${remote_name} ${push_url} ${fetch_url}\n");
    assert!(matches!(res, Err(ResolveError::UndefinedVariable(n)) if n == "push_url"));
    let out = render_remotes(&m, "${remote_name} ${fetch_url}\n").unwrap();
    assert_eq!(out, "r1 F1\nr2 F2\n");
}

#[test]
fn render_undefined_variable_in_empty_context() {
    let m = manifest(vec![], None, vec![project("app", None)]);
    let res = render_projects(&m, "${v}");
    assert!(matches!(res, Err(ResolveError::UndefinedVariable(n)) if n == "v"));
}

#[test]
fn render_substitutes_in_variable_order() {
    let r = Remote::new(s("o"), None, Some(s("")), s("F"), None, None, None, None);
    let m = manifest(vec![r], None, vec![]);
    let out = render_remotes(&m, "$${push_url}{fetch_url}").unwrap();
    assert_eq!(out, "F");
}

#[test]
fn render_text_without_placeholders() {
    let m = manifest(vec![remote("a", "F")], None, vec![]);
    assert_eq!(render_remotes(&m, "plain $ { } text").unwrap(), "plain $ { } text");
}

#[test]
fn render_rejects_forbidden_variable() {
    let m = manifest(vec![remote("bad$name", "F")], None, vec![]);
    assert!(matches!(render_remotes(&m, "${remote_name}"), Err(ResolveError::Envsubst(_))));
}

#[test]
fn merge_override_wins() {
    let r = remote("origin", "https://upstream/");
    let over = ctx(&[("fetch_url", "B")]);
    let x = local_remote(&r, "fetch_url=A\n", &over).unwrap();
    assert_eq!(x.fetch, "B");
}

#[test]
fn merge_config_without_override() {
    let r = remote("origin", "https://upstream/");
    let x = local_remote(&r, "fetch_url=A\n", &Context::new()).unwrap();
    assert_eq!(x.fetch, "A");
}

#[test]
fn merge_neither_is_fetch_required() {
    let r = remote("origin", "https://upstream/");
    let res = local_remote(&r, "push_url=P\n", &Context::new());
    assert!(matches!(res, Err(ResolveError::FetchRequired)));
}

#[test]
fn local_remote_full_resolution() {
    let r = Remote::new(
        s("origin"),
        Some(s("al")),
        None,
        s("https://upstream/"),
        None,
        Some(s("main")),
        None,
        None,
    );
    let template = "fetch_url=https://mirror/${remote_name}\npush_url=ssh://${remote_name}\nreview_protocol=AGIT\n";
    let over = ctx(&[("review_url", "https://review/${remote_name}")]);
    let x = local_remote(&r, template, &over).unwrap();
    let expected = Remote::new(
        s("origin"),
        None,
        Some(s("ssh://origin")),
        s("https://mirror/origin"),
        Some(s("https://review/origin")),
        None,
        Some(ReviewProtocolType::AGit),
        Some(true),
    );
    assert_eq!(x, expected);
}

#[test]
fn local_remote_bad_protocol() {
    let r = remote("origin", "https://upstream/");
    let res = local_remote(&r, "fetch_url=A\nreview_protocol=svn\n", &Context::new());
    match res {
        Err(ResolveError::Protocol(ProtocolTypeError::UnexpectedProtocol(t))) => assert_eq!(t, "svn"),
        other => panic!("unexpected {:?}", other),
    }
}

#[test]
fn local_remote_undefined_in_override() {
    let r = remote("origin", "https://upstream/");
    let over = ctx(&[("push_url", "${nothing}")]);
    let res = local_remote(&r, "fetch_url=A\n", &over);
    assert!(matches!(res, Err(ResolveError::UndefinedVariable(n)) if n == "nothing"));
}

#[test]
fn local_remote_undefined_in_config() {
    let r = remote("origin", "https://upstream/");
    let res = local_remote(&r, "fetch_url=${review_url}\n", &Context::new());
    assert!(matches!(res, Err(ResolveError::UndefinedVariable(n)) if n == "review_url"));
}

#[test]
fn local_remote_bad_config_line() {
    let r = remote("origin", "https://upstream/");
    let res = local_remote(&r, "fetch_url=A\nnonsense\n", &Context::new());
    assert!(matches!(res, Err(ResolveError::ConfigFileFormat)));
}

#[test]
fn local_manifest_keeps_only_remotes() {
    let m = manifest(
        vec![remote("a", "fa"), remote("b", "fb")],
        Some(default_tag(Some("a"))),
        vec![project("app", None)],
    );
    let lm = local_manifest(&m, "fetch_url=https://m/${remote_name}\n", &Context::new()).unwrap();
    let expected = manifest(
        vec![
            Remote::new(s("a"), None, None, s("https://m/a"), None, None, None, Some(true)),
            Remote::new(s("b"), None, None, s("https://m/b"), None, None, None, Some(true)),
        ],
        None,
        vec![],
    );
    assert_eq!(lm, expected);
}

#[test]
fn local_manifest_fetch_required_fails_batch() {
    let m = manifest(vec![remote("a", "fa"), remote("b", "fb")], None, vec![]);
    let res = local_manifest(&m, "push_url=${remote_name}\n", &Context::new());
    assert!(matches!(res, Err(ResolveError::FetchRequired)));
}

#[test]
fn enabled_list_words() {
    assert_eq!(split_enabled_list("  pre-upload  commit-msg\tx\n"), vec!["pre-upload", "commit-msg", "x"]);
    assert_eq!(split_enabled_list(""), Vec::<String>::new());
    assert_eq!(split_enabled_list(" \t "), Vec::<String>::new());
    assert_eq!(split_enabled_list("a\u{3000}b"), vec!["a", "b"]);
}

#[test]
fn from_str_any_case_and_unknown() {
    for t in ["agit", "AGit", "AGIT"] {
        assert_eq!(ReviewProtocolType::from_str(t).unwrap(), ReviewProtocolType::AGit);
    }
    for t in ["gerrit", "Gerrit", "GERRIT", "gErRiT"] {
        assert_eq!(ReviewProtocolType::from_str(t).unwrap(), ReviewProtocolType::Gerrit);
    }
    for t in ["GitHub", "", "agit ", "gerritt"] {
        match ReviewProtocolType::from_str(t) {
            Err(e) => {
                assert!(matches!(&e, ProtocolTypeError::UnexpectedProtocol(x) if x == t));
                assert_eq!(e.message(), format!("Unknown protocol: {}", t));
            }
            Ok(p) => panic!("accepted {:?}", p),
        }
    }
}

#[test]
fn try_from_agrees_with_from_str() {
    for t in ["agit", "AGit", "Gerrit", "GERRIT", "GitHub", ""] {
        let a = ReviewProtocolType::try_from(t.to_string());
        let b = ReviewProtocolType::from_str(t);
        match (a, b) {
            (Ok(x), Ok(y)) => assert_eq!(x, y),
            (Err(ProtocolTypeError::UnexpectedProtocol(x)), Err(ProtocolTypeError::UnexpectedProtocol(y))) => {
                assert_eq!(x, t);
                assert_eq!(y, t);
            }
            _ => panic!("try_from and from_str disagree on {:?}", t),
        }
    }
}

#[test]
fn white_space_matches_std() {
    for u in 0u32..0x3100 {
        if let Some(c) = char::from_u32(u) {
            assert_eq!(is_white_space(c), c.is_whitespace(), "U+{:04X}", u);
        }
    }
}

#[test]
fn enabled_list_round_trip() {
    let v = vec![s("pre-upload"), s("commit-msg"), s("x")];
    assert_eq!(split_enabled_list(&v.join(" ")), v);
    assert_eq!(split_enabled_list(&Vec::<String>::new().join(" ")), Vec::<String>::new());
}
