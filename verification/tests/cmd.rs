use starlists::cli::{ListsCommand, ReposCommand};
use starlists::cmd::{
    assign, import_proposal, list_detail, list_table, lists, load_proposal, plan_table, repo_detail, repo_table, repos,
    save_lists, save_starred, unlisted_names, ListsOutcome, ReposOutcome,
};
use starlists::cmd::{doctor_report, doctor_table};
use starlists::config::{AppConfig, Paths, TokenSource};
use starlists::db::{RepoRow, Stats, Store};
use starlists::output::value_to_sexp;
use starlists::github::RemoteList;
use starlists::proposal::{ListChanges, ListCreate, MembershipSet, ProposalFile};

const NOW: &str = "2026-01-02T03:04:05Z";

fn repo(id: i64, name: &str) -> RepoRow {
    RepoRow {
        id,
        node_id: format!("R_{id}"),
        name_with_owner: name.into(),
        url: format!("https://github.com/{name}"),
        description: Some("d".into()),
        homepage_url: None,
        primary_language: Some("Rust".into()),
        license: None,
        stars: Some(7),
        forks: None,
        is_private: false,
        is_archived: false,
        is_fork: false,
        pushed_at: None,
        updated_at: None,
        starred_at: Some(format!("2026-01-0{id}")),
        topics: vec!["a".into(), "b".into()],
        lists: vec![],
    }
}

fn seeded() -> Store {
    let mut store = Store::new(0);
    store.upsert_repo(&repo(1, "o/one"), NOW).unwrap();
    store.upsert_repo(&repo(2, "o/two"), NOW).unwrap();
    store
}

#[test]
fn tables_render_rows() {
    let mut store = seeded();
    let row = store.create_list("Web", None, Some("maps"), true, NOW).unwrap();
    assert_eq!(list_table(&[row.dup()]), "SLUG  NAME  STATUS  N  GITHUB\nweb   Web   draft   0  -     \n");
    assert_eq!(
        list_detail(&row),
        "id       1\nslug     web\nname     Web\nstatus   draft\nprivate  true\nrepos    0\ngithub   -\ndesc     maps\n"
    );
    store.set_membership(1, &[row.id], "local").unwrap();
    let r = store.resolve_repo("o/one").unwrap();
    assert_eq!(repo_table(&[r.dup()]), "REPO   LANG  STARS  LISTS\no/one  Rust  7      web  \n");
    assert_eq!(repo_detail(&r), "repo    o/one\nurl     https://github.com/o/one\nlang    Rust\nstars   7\nlists   web\ndesc    d\ntopics  a, b\n");
    assert_eq!(list_table(&[]), "SLUG  NAME  STATUS  N  GITHUB\n");
}

#[test]
fn lists_and_repos_commands() {
    let mut store = seeded();
    let out = lists(&mut store, ListsCommand::Create { name: "Web".into(), desc: None, slug: None, public: true }, NOW).unwrap();
    assert!(matches!(out, ListsOutcome::Row(ref r) if r.slug == "web" && !r.is_private));
    lists(&mut store, ListsCommand::Rename { id: "web".into(), name: "Web 2".into() }, NOW).unwrap();
    let out = lists(&mut store, ListsCommand::Update { id: "web".into(), desc: Some("x".into()), public: Some(false) }, NOW).unwrap();
    assert!(matches!(out, ListsOutcome::Row(ref r) if r.name == "Web 2" && r.is_private && r.description.as_deref() == Some("x")));
    assign(&mut store, "o/two", &vec!["web".into()], &vec![], &vec![]).unwrap();
    let out = lists(&mut store, ListsCommand::Show { id: "web".into(), limit: 50 }, NOW).unwrap();
    assert!(matches!(out, ListsOutcome::Shown(ref l, ref rs) if l.repo_count == 1 && rs.len() == 1 && rs[0].id == 2));
    let out = repos(&store, ReposCommand::List { list: None, unlisted: true, limit: 50, query: None }).unwrap();
    assert!(matches!(out, ReposOutcome::Rows(ref rs) if rs.len() == 1 && rs[0].id == 1));
    let out = repos(&store, ReposCommand::List { list: None, unlisted: false, limit: 1, query: Some("TWO".into()) }).unwrap();
    assert!(matches!(out, ReposOutcome::Rows(ref rs) if rs.len() == 1 && rs[0].id == 2));
    let e = repos(&store, ReposCommand::List { list: Some("nope".into()), unlisted: false, limit: 5, query: None }).unwrap_err();
    assert_eq!(e.message, "list not found: nope");
    let out = lists(&mut store, ListsCommand::Delete { id: "web".into() }, NOW).unwrap();
    assert!(matches!(out, ListsOutcome::Row(ref r) if r.status == "draft"));
    let out = lists(&mut store, ListsCommand::List { all: true }, NOW).unwrap();
    assert!(matches!(out, ListsOutcome::Rows(ref rs) if rs.is_empty()));
}

#[test]
fn assign_adds_removes_and_sets() {
    let mut store = seeded();
    store.create_list("B", None, None, true, NOW).unwrap();
    store.create_list("A", None, None, true, NOW).unwrap();
    store.create_list("C", None, None, true, NOW).unwrap();
    let r = assign(&mut store, "o/one", &vec!["b".into(), "A".into(), "b".into()], &vec![], &vec![]).unwrap();
    assert_eq!(r.lists, vec!["b", "a"]);
    assert_eq!(store.membership_slugs(1), vec!["a", "b"]);
    let r = assign(&mut store, "o/one", &vec!["c".into()], &vec!["a".into()], &vec![]).unwrap();
    assert_eq!(r.lists, vec!["b", "c"]);
    let r = assign(&mut store, "o/one", &vec![], &vec![], &vec!["a".into()]).unwrap();
    assert_eq!(r.lists, vec!["a"]);
    let e = assign(&mut store, "o/one", &vec!["zzz".into()], &vec![], &vec![]).unwrap_err();
    assert_eq!((e.code, e.message.as_str()), ("not_found", "list not found: zzz"));
    let e = assign(&mut store, "x/y", &vec![], &vec![], &vec![]).unwrap_err();
    assert_eq!(e.code, "not_found");
}

#[test]
fn import_stores_compiles_and_applies() {
    let mut store = seeded();
    let p = ProposalFile {
        version: 1,
        id: None,
        notes: Some("n".into()),
        lists: ListChanges {
            create: vec![ListCreate { slug: Some("web".into()), name: "Web".into(), description: None, is_private: None }],
            ..Default::default()
        },
        memberships: vec![MembershipSet { repo: "o/one".into(), lists: vec!["web".into()] }],
    };
    let imported = import_proposal(&mut store, &p, "{}", "p.json", false, NOW).unwrap();
    assert_eq!(imported.id, "PLAN_20260102030405");
    assert_eq!(imported.local_changes, vec!["draft list web", "membership o/one"]);
    assert_eq!(imported.plan.list_ops.len(), 1);
    let e = import_proposal(&mut store, &p, "{}", "p.json", false, NOW).unwrap_err();
    assert_eq!((e.code, e.message.as_str(), e.hint.as_deref()), ("conflict", "proposal PLAN_20260102030405 already exists", Some("pass --replace")));
    let row = load_proposal(&store, None).unwrap();
    assert_eq!((row.id.as_str(), row.source_path.as_deref()), ("PLAN_20260102030405", Some("p.json")));
    let e = load_proposal(&store, Some("X")).unwrap_err();
    assert_eq!(e.message, "proposal not found: X");
    let e = load_proposal(&Store::new(0), None).unwrap_err();
    assert_eq!(e.message, "no proposal imported yet");
    let again = import_proposal(&mut store, &p, "{}", "p.json", true, NOW).unwrap();
    assert_eq!(again.local_changes, vec!["draft list web-2", "membership o/one"]);
    assert_eq!(store.membership_slugs(1), vec!["web"]);
}

#[test]
fn plan_summary_lists_warnings() {
    let mut store = seeded();
    store.create_list("Web", None, None, true, NOW).unwrap();
    store.mark_list_created("web", "UL_1", NOW).unwrap();
    let p = ProposalFile {
        version: 1,
        id: None,
        notes: None,
        lists: ListChanges {
            create: vec![ListCreate { slug: Some("web".into()), name: "Web".into(), description: None, is_private: None }],
            ..Default::default()
        },
        memberships: vec![],
    };
    let plan = starlists::proposal::compile_plan(&store, "P1", &p).unwrap();
    assert_eq!(
        plan_table("P1", &plan),
        "plan      P1\nremote    1 -> 1 / 32\nops       0\nmembers   0\nwarning   create skipped, list already on GitHub: web\n"
    );
}

#[test]
fn snapshots_save_all_or_nothing() {
    let mut store = Store::new(0);
    let removed = save_starred(&mut store, &vec![repo(1, "o/one"), repo(2, "o/two")], "me", NOW).unwrap();
    assert_eq!(removed, 0);
    assert_eq!(store.get_meta("github_login").as_deref(), Some("me"));
    let removed = save_starred(&mut store, &vec![repo(2, "o/two")], "me", "later").unwrap();
    assert_eq!(removed, 1);
    assert_eq!(store.get_meta("last_snapshot_at").as_deref(), Some("later"));
    let clash = RepoRow { node_id: "R_2".into(), ..repo(3, "o/three") };
    let e = save_starred(&mut store, &vec![repo(4, "o/four"), clash], "x", "t").unwrap_err();
    assert_eq!(e.message, "UNIQUE constraint failed: repo.node_id");
    assert_eq!(store.repo_count(), 1);
    assert_eq!(store.get_meta("github_login").as_deref(), Some("me"));
    let remote = RemoteList {
        github_id: "UL_1".into(),
        name: "Web".into(),
        slug: Some("web".into()),
        description: None,
        is_private: true,
        repos: vec![repo(2, "o/two"), repo(5, "o/five")],
    };
    save_lists(&mut store, &vec![remote], NOW).unwrap();
    assert_eq!(store.membership_slugs(5), vec!["web"]);
    let l = store.resolve_list("UL_1").unwrap();
    assert_eq!((l.status.as_str(), l.repo_count), ("synced", 2));
    assert_eq!(unlisted_names(&store.all_repos()), Vec::<String>::new());
    save_lists(&mut store, &vec![], NOW).unwrap();
    assert!(store.resolve_list("UL_1").is_err());
    assert_eq!(unlisted_names(&store.all_repos()), vec!["o/five", "o/two"]);
}

fn config(token: Option<&str>) -> AppConfig {
    AppConfig {
        paths: Paths {
            config_file: "/c/config.toml".into(),
            data_dir: "/d".into(),
            db_file: "/d/stars.db".into(),
        },
        token: token.map(|t| t.to_string()),
        token_source: if token.is_some() { TokenSource::Env } else { TokenSource::Missing },
        api_url: "https://api.github.com/graphql".into(),
    }
}

#[test]
fn doctor_table_fills_dashes() {
    let out = doctor_table(&config(None), "0.1.0", false, &None, &Some("2026-01-01T00:00:00Z".to_string()));
    assert_eq!(
        out,
        "version    0.1.0\nconfig     /c/config.toml\ndb         /d/stars.db\ndb_exists  false\nauth       missing\nlogin      -\nsnapshot   2026-01-01T00:00:00Z\n"
    );
}

#[test]
fn doctor_never_shows_the_token() {
    let stats = Some(Stats { repos: 3, lists: 2, unlisted: 1 });
    let login = Some("me".to_string());
    let a = doctor_report(&config(Some("ghp_first")), "0.1.0", true, &login, &None, &stats);
    let b = doctor_report(&config(Some("ghp_second")), "0.1.0", true, &login, &None, &stats);
    let sa = value_to_sexp(&a);
    assert_eq!(sa, value_to_sexp(&b));
    assert!(!sa.contains("ghp_"));
    assert_eq!(
        sa,
        "((version . \"0.1.0\") (config_file . \"/c/config.toml\") (db_file . \"/d/stars.db\") (db_exists . t) (auth_source . \"env\") (auth_present . t) (github_login . \"me\") (last_snapshot_at . nil) (stats . ((repos . 3) (lists . 2) (unlisted . 1))) (github_list_cap . 32))"
    );
    let ta = doctor_table(&config(Some("ghp_first")), "0.1.0", true, &login, &None);
    assert_eq!(ta, doctor_table(&config(Some("ghp_second")), "0.1.0", true, &login, &None));
    assert!(!ta.contains("ghp_"));
}

#[test]
fn local_list_create_then_import_and_plan() {
    let mut store = Store::new(0);
    let out = lists(
        &mut store,
        ListsCommand::Create { name: "Web Mapping".into(), desc: Some("maps".into()), slug: None, public: false },
        NOW,
    )
    .unwrap();
    match out {
        ListsOutcome::Row(r) => {
            assert_eq!((r.slug.as_str(), r.status.as_str()), ("web-mapping", "draft"));
        }
        _ => panic!("expected one row"),
    }
    match lists(&mut store, ListsCommand::List { all: false }, NOW).unwrap() {
        ListsOutcome::Rows(rows) => assert_eq!(rows[0].name, "Web Mapping"),
        _ => panic!("expected rows"),
    }
    let p = ProposalFile {
        version: 1,
        id: Some("PLAN_FIXTURE".into()),
        notes: None,
        lists: ListChanges {
            create: vec![ListCreate { slug: Some("emacs".into()), name: "Emacs".into(), description: None, is_private: None }],
            ..Default::default()
        },
        memberships: vec![],
    };
    let imported = import_proposal(&mut store, &p, "{}", "proposal.json", false, NOW).unwrap();
    assert_eq!(imported.id, "PLAN_FIXTURE");
    let row = load_proposal(&store, Some("PLAN_FIXTURE")).unwrap();
    let plan = starlists::proposal::compile_plan(&store, &row.id, &p).unwrap();
    assert_eq!(plan.id, "PLAN_FIXTURE");
    assert!(matches!(plan.list_ops[0], starlists::proposal::ListOp::Create { .. }));
}

#[test]
fn import_naming_an_unknown_repo_is_not_found() {
    let mut store = Store::new(0);
    let p = ProposalFile {
        version: 1,
        id: None,
        notes: Some("fixture".into()),
        lists: ListChanges {
            create: vec![ListCreate { slug: Some("emacs".into()), name: "Emacs".into(), description: None, is_private: None }],
            ..Default::default()
        },
        memberships: vec![MembershipSet { repo: "foo/bar".into(), lists: vec!["emacs".into()] }],
    };
    let e = import_proposal(&mut store, &p, "{}", "proposal.json", false, NOW).unwrap_err();
    assert_eq!(e.code, "not_found");
}

#[test]
fn repo_search_reads_topics_as_json_text() {
    let store = seeded();
    let out = repos(&store, ReposCommand::List { list: None, unlisted: false, limit: 50, query: Some("\"a\",\"b\"".into()) })
        .unwrap();
    assert!(matches!(out, ReposOutcome::Rows(ref rs) if rs.len() == 2));
    let out = repos(&store, ReposCommand::List { list: None, unlisted: false, limit: 50, query: Some("a, b".into()) }).unwrap();
    assert!(matches!(out, ReposOutcome::Rows(ref rs) if rs.is_empty()));
}

#[test]
fn repo_search_sees_escaped_topics() {
    let mut store = Store::new(0);
    let mut r = repo(1, "o/one");
    r.topics = vec!["say \"hi\"".into(), "tab\there".into()];
    store.upsert_repo(&r, NOW).unwrap();
    let hit = |q: &str| match repos(&store, ReposCommand::List { list: None, unlisted: false, limit: 50, query: Some(q.into()) }).unwrap() {
        ReposOutcome::Rows(rs) => rs.len(),
        _ => panic!("expected rows"),
    };
    assert_eq!(hit("\\\"hi\\\""), 1);
    assert_eq!(hit("tab\\there"), 1);
    assert_eq!(hit("\\\"\",\"tab"), 1);
    assert_eq!(hit("\"hi\""), 0);
    assert_eq!(
        serde_json::to_string(&vec!["a\"b\\".to_string(), "\u{1}\u{8}\n".to_string(), "é".to_string()]).unwrap(),
        "[\"a\\\"b\\\\\",\"\\u0001\\b\\n\",\"é\"]"
    );
}
