use starlists::db::{RepoRow, Store};
use starlists::proposal::{
    apply_proposal_locally, check_proposal_version, compile_plan, example_proposal, ListChanges, ListCreate,
    ListMerge, ListOp, ListRename, ListUpdate, MembershipSet, ProposalFile,
};

const NOW: &str = "2026-01-01T00:00:00Z";

fn seed_repo(store: &mut Store) {
    let repo = RepoRow {
        id: 1,
        node_id: "R_kgDOTest".into(),
        name_with_owner: "foo/bar".into(),
        url: "https://github.com/foo/bar".into(),
        description: Some("demo".into()),
        homepage_url: None,
        primary_language: Some("Rust".into()),
        license: Some("MIT".into()),
        stars: Some(10),
        forks: Some(1),
        is_private: false,
        is_archived: false,
        is_fork: false,
        pushed_at: None,
        updated_at: None,
        starred_at: None,
        topics: vec!["cli".into()],
        lists: vec![],
    };
    store.upsert_repo(&repo, NOW).unwrap();
}

fn create(slug: &str, name: &str) -> ListCreate {
    ListCreate { slug: Some(slug.into()), name: name.into(), description: None, is_private: None }
}

fn proposal(lists: ListChanges, memberships: Vec<MembershipSet>) -> ProposalFile {
    ProposalFile { version: 1, id: None, notes: None, lists, memberships }
}

#[test]
fn compile_plan_multi_list() {
    let mut store = Store::new(0);
    seed_repo(&mut store);
    let proposal = ProposalFile {
        version: 1,
        id: Some("PLAN_TEST".into()),
        notes: None,
        lists: ListChanges {
            create: vec![
                ListCreate { slug: Some("emacs".into()), name: "Emacs".into(), description: None, is_private: Some(true) },
                ListCreate { slug: Some("cli".into()), name: "CLI".into(), description: None, is_private: Some(true) },
            ],
            ..Default::default()
        },
        memberships: vec![MembershipSet { repo: "foo/bar".into(), lists: vec!["emacs".into(), "cli".into()] }],
    };
    let plan = compile_plan(&store, "PLAN_TEST", &proposal).unwrap();
    assert_eq!(plan.list_ops.len(), 2);
    assert_eq!(plan.memberships[0].lists, vec!["cli", "emacs"]);
    assert!(plan.memberships[0].list_github_ids.iter().all(|id| id.starts_with("pending:")));
}

#[test]
fn apply_locally_sets_full_membership() {
    let mut store = Store::new(0);
    seed_repo(&mut store);
    let parsed = check_proposal_version(proposal(
        ListChanges { create: vec![create("emacs", "Emacs"), create("cli", "CLI")], ..Default::default() },
        vec![MembershipSet { repo: "foo/bar".into(), lists: vec!["emacs".into(), "cli".into()] }],
    ))
    .unwrap();
    apply_proposal_locally(&mut store, &parsed, NOW).unwrap();
    let slugs = store.membership_slugs(1);
    assert_eq!(slugs, vec!["cli", "emacs"]);
}

#[test]
fn list_cap_ignores_already_tombstoned_deletes() {
    let mut store = Store::new(0);
    seed_repo(&mut store);
    store.create_list("Keep", Some("keep"), None, true, NOW).unwrap();
    store.create_list("Gone", Some("gone"), None, true, NOW).unwrap();
    store.mark_list_created("keep", "UL_keep", NOW).unwrap();
    store.mark_list_created("gone", "UL_gone", NOW).unwrap();
    let gone = store.delete_list("gone", NOW).unwrap();
    assert_eq!(gone.status, "tombstone");
    let parsed = check_proposal_version(proposal(
        ListChanges { delete: vec!["gone".into()], ..Default::default() },
        vec![],
    ))
    .unwrap();
    let plan = compile_plan(&store, "PLAN_CAP", &parsed).unwrap();
    assert_eq!(plan.list_cap.current_remote, 1);
    assert_eq!(plan.list_cap.after_apply, 1);
}

#[test]
fn version_other_than_one_is_refused() {
    let mut p = example_proposal();
    p.version = 2;
    let e = check_proposal_version(p).unwrap_err();
    assert_eq!(e.code, "invalid");
    assert_eq!(e.message, "unsupported proposal version 2, expected 1");
}

#[test]
fn example_proposal_is_valid() {
    let p = example_proposal();
    assert_eq!(p.version, 1);
    assert_eq!(p.lists.create[0].slug.as_deref(), Some("web-mapping"));
    assert_eq!(p.memberships[0].repo, "owner/example");
    let mut store = Store::new(0);
    let e = compile_plan(&store, "X", &p).unwrap_err();
    assert_eq!((e.code, e.message.as_str()), ("not_found", "repository not found: owner/example"));
    let e = apply_proposal_locally(&mut store, &p, NOW).unwrap_err();
    assert_eq!(e.code, "not_found");
    assert_eq!(store.list_lists(true).len(), 1);
}

#[test]
fn plan_skips_creates_on_github_and_counts_the_cap() {
    let mut store = Store::new(0);
    seed_repo(&mut store);
    store.create_list("Web", Some("web"), None, true, NOW).unwrap();
    store.mark_list_created("web", "UL_web", NOW).unwrap();
    let p = proposal(
        ListChanges {
            create: vec![create("web", "Web"), create("Maps & GIS", "ignored"), ListCreate {
                slug: None,
                name: "Dev Tools".into(),
                description: Some("d".into()),
                is_private: Some(false),
            }],
            rename: vec![ListRename { slug: "web".into(), name: "Web Stuff".into() }],
            update: vec![ListUpdate { slug: "maps-gis".into(), description: Some("m".into()), is_private: None }],
            delete: vec!["web".into()],
            ..Default::default()
        },
        vec![MembershipSet { repo: "1".into(), lists: vec!["web".into(), "maps-gis".into(), "web".into()] }],
    );
    let plan = compile_plan(&store, "P", &p).unwrap();
    assert_eq!(plan.warnings, vec!["create skipped, list already on GitHub: web"]);
    assert_eq!(plan.list_ops.len(), 5);
    assert!(matches!(&plan.list_ops[0], ListOp::Create { slug, is_private: false, .. } if slug == "dev-tools"));
    assert!(matches!(&plan.list_ops[1], ListOp::Create { slug, is_private: true, .. } if slug == "maps-gis"));
    assert!(matches!(&plan.list_ops[2], ListOp::Update { slug, github_id: Some(g), name: Some(n), .. } if slug == "web" && g == "UL_web" && n == "Web Stuff"));
    assert!(matches!(&plan.list_ops[3], ListOp::Update { slug, github_id: None, name: None, .. } if slug == "maps-gis"));
    assert!(matches!(&plan.list_ops[4], ListOp::Delete { slug, github_id: Some(g) } if slug == "web" && g == "UL_web"));
    assert_eq!(plan.memberships[0].repo, "foo/bar");
    assert_eq!(plan.memberships[0].lists, vec!["maps-gis", "web"]);
    assert_eq!(plan.memberships[0].list_github_ids, vec!["pending:maps-gis", "UL_web"]);
    assert_eq!((plan.list_cap.current_remote, plan.list_cap.after_apply, plan.list_cap.max), (1, 2, 32));
}

#[test]
fn plan_errors_name_what_is_missing() {
    let store = Store::new(0);
    let e = compile_plan(&store, "P", &proposal(
        ListChanges { rename: vec![ListRename { slug: "nope".into(), name: "N".into() }], ..Default::default() },
        vec![],
    ))
    .unwrap_err();
    assert_eq!((e.code, e.message.as_str()), ("not_found", "rename target missing: nope"));
    let e = compile_plan(&store, "P", &proposal(
        ListChanges { update: vec![ListUpdate { slug: "nope".into(), description: None, is_private: None }], ..Default::default() },
        vec![],
    ))
    .unwrap_err();
    assert_eq!(e.message, "update target missing: nope");
    let e = compile_plan(&store, "P", &proposal(
        ListChanges { create: vec![create("!!!", "???")], ..Default::default() },
        vec![],
    ))
    .unwrap_err();
    assert_eq!((e.code, e.message.as_str()), ("invalid", "proposal create list has empty slug"));
    let mut store = Store::new(0);
    seed_repo(&mut store);
    let e = compile_plan(&store, "P", &proposal(
        ListChanges::default(),
        vec![MembershipSet { repo: "foo/bar".into(), lists: vec!["ghost".into()] }],
    ))
    .unwrap_err();
    assert_eq!(e.message, "membership refers to unknown list ghost for foo/bar");
}

#[test]
fn cap_warning_over_thirty_two() {
    let store = Store::new(0);
    let creates: Vec<ListCreate> = (0..33).map(|i| create(&format!("l{i}"), "L")).collect();
    let plan = compile_plan(&store, "P", &proposal(ListChanges { create: creates, ..Default::default() }, vec![]))
        .unwrap();
    assert_eq!(plan.list_cap.after_apply, 33);
    assert_eq!(plan.warnings, vec!["apply would leave 33 GitHub lists; cap is 32"]);
}

#[test]
fn merges_fold_memberships_in_plan_and_store() {
    let mut store = Store::new(0);
    seed_repo(&mut store);
    store.create_list("Old", Some("old"), None, true, NOW).unwrap();
    let old = store.resolve_list("old").unwrap();
    store.set_membership(1, &[old.id], "local").unwrap();
    let p = proposal(
        ListChanges { merge: vec![ListMerge { from: vec!["old".into(), "new".into()], into: "new".into() }], ..Default::default() },
        vec![MembershipSet { repo: "foo/bar".into(), lists: vec!["old".into()] }],
    );
    let plan = compile_plan(&store, "P", &p).unwrap();
    assert!(matches!(&plan.list_ops[0], ListOp::Create { slug, name, .. } if slug == "new" && name == "new"));
    assert!(matches!(&plan.list_ops[1], ListOp::Delete { slug, github_id: None } if slug == "old"));
    assert_eq!(plan.memberships[0].lists, vec!["new"]);
    let log = apply_proposal_locally(&mut store, &ProposalFile { memberships: vec![], ..p }, NOW).unwrap();
    assert_eq!(log, vec!["merge old -> new"]);
    assert_eq!(store.membership_slugs(1), vec!["new"]);
    assert!(store.resolve_list("old").is_err());
}

#[test]
fn apply_locally_logs_each_change() {
    let mut store = Store::new(0);
    seed_repo(&mut store);
    let p = proposal(
        ListChanges {
            create: vec![create("a", "A"), create("b", "B")],
            rename: vec![ListRename { slug: "a".into(), name: "Alpha".into() }],
            update: vec![ListUpdate { slug: "b".into(), description: Some("bee".into()), is_private: Some(false) }],
            delete: vec!["b".into()],
            ..Default::default()
        },
        vec![MembershipSet { repo: "R_kgDOTest".into(), lists: vec!["a".into()] }],
    );
    let log = apply_proposal_locally(&mut store, &p, NOW).unwrap();
    assert_eq!(log, vec!["draft list a", "draft list b", "rename a", "update b", "delete b", "membership foo/bar"]);
    let a = store.resolve_list("a").unwrap();
    assert_eq!(a.name, "Alpha");
    assert_eq!(a.repo_count, 1);
    assert!(store.resolve_list("b").is_err());
}
