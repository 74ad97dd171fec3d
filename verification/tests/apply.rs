use starlists::apply::{check_cap, finish_apply, ApplyAction, ApplyResult, ApplyRun, ApplyStep};
use starlists::db::{RepoRow, Store};
use starlists::proposal::{compile_plan, ListChanges, ListCreate, ListRename, MembershipSet, ProposalFile};

const NOW: &str = "2026-01-01T00:00:00Z";

fn repo(id: i64, name: &str) -> RepoRow {
    RepoRow {
        id,
        node_id: format!("R_{id}"),
        name_with_owner: name.into(),
        url: String::new(),
        description: None,
        homepage_url: None,
        primary_language: None,
        license: None,
        stars: None,
        forks: None,
        is_private: false,
        is_archived: false,
        is_fork: false,
        pushed_at: None,
        updated_at: None,
        starred_at: None,
        topics: vec![],
        lists: vec![],
    }
}

#[test]
fn apply_runs_creates_then_memberships_then_deletes() {
    let mut store = Store::new(0);
    store.upsert_repo(&repo(1, "o/one"), NOW).unwrap();
    store.create_list("Old", None, None, true, NOW).unwrap();
    store.mark_list_created("old", "UL_old", NOW).unwrap();
    store.insert_proposal("P", None, None, "{}", NOW).unwrap();
    store.create_list("New", Some("new"), None, true, NOW).unwrap();
    let p = ProposalFile {
        version: 1,
        id: Some("P".into()),
        notes: None,
        lists: ListChanges {
            create: vec![ListCreate { slug: Some("new".into()), name: "New".into(), description: None, is_private: None }],
            rename: vec![ListRename { slug: "new".into(), name: "Newer".into() }],
            delete: vec!["old".into()],
            ..Default::default()
        },
        memberships: vec![MembershipSet { repo: "o/one".into(), lists: vec!["new".into()] }],
    };
    let plan = compile_plan(&store, "P", &p).unwrap();
    assert!(check_cap(&plan).is_ok());
    let mut run = ApplyRun::new(&plan);
    let mut seen = Vec::new();
    loop {
        match run.next_action(&plan).unwrap() {
            ApplyAction::Create { slug, .. } => {
                seen.push(format!("create {slug}"));
                run.record_created(&plan, &mut store, "UL_new", NOW).unwrap();
            },
            ApplyAction::Update { slug, github_id, .. } => {
                seen.push(format!("update {slug} {github_id}"));
                run.record_updated(&plan, &mut store, NOW);
            },
            ApplyAction::SetItemLists { repo, list_ids, .. } => {
                seen.push(format!("lists {repo} {}", list_ids.join(",")));
                run.record_item_lists(&plan, vec!["Newer".into()]);
            },
            ApplyAction::Delete { slug, github_id } => {
                seen.push(format!("delete {slug} {}", github_id.unwrap_or_default()));
                run.record_deleted(&plan, &mut store);
            },
            ApplyAction::Finish => {
                finish_apply(&run, &plan, &mut store, "P");
                break;
            },
        }
    }
    assert_eq!(seen, vec!["create new", "update new UL_new", "lists o/one UL_new", "delete old UL_old"]);
    assert_eq!(run.results().len(), 4);
    assert!(matches!(&run.results()[0], ApplyResult::Created { slug, github_id } if slug == "new" && github_id == "UL_new"));
    assert_eq!(store.get_proposal("P").unwrap().status, "applied");
    assert!(store.resolve_list("old").is_err());
    assert_eq!(store.resolve_list("UL_new").unwrap().status, "synced");
}

#[test]
fn steps_put_deletes_last() {
    let mut store = Store::new(0);
    store.upsert_repo(&repo(1, "o/one"), NOW).unwrap();
    store.create_list("A", None, None, true, NOW).unwrap();
    let p = ProposalFile {
        version: 1,
        id: None,
        notes: None,
        lists: ListChanges { delete: vec!["a".into()], create: vec![ListCreate { slug: Some("b".into()), name: "B".into(), description: None, is_private: None }], ..Default::default() },
        memberships: vec![MembershipSet { repo: "o/one".into(), lists: vec!["b".into()] }],
    };
    let plan = compile_plan(&store, "P", &p).unwrap();
    let steps = starlists::apply::apply_steps(&plan);
    assert_eq!(steps, vec![ApplyStep::ListOp(0), ApplyStep::Membership(0), ApplyStep::Delete(1)]);
    let run = ApplyRun::new(&plan);
    let e = {
        let mut r = run;
        match r.next_action(&plan).unwrap() {
            ApplyAction::Create { .. } => {},
            _ => panic!("create first"),
        }
        r.record_created(&plan, &mut store, "UL_b", NOW).unwrap();
        match r.next_action(&plan).unwrap() {
            ApplyAction::SetItemLists { list_ids, .. } => assert_eq!(list_ids, vec!["UL_b"]),
            _ => panic!("membership second"),
        }
        r.record_item_lists(&plan, vec![]);
        r.next_action(&plan)
    };
    assert!(matches!(e.unwrap(), ApplyAction::Delete { slug, github_id: None } if slug == "a"));
}

#[test]
fn pending_lists_without_ids_stop_the_run() {
    let mut store = Store::new(0);
    store.upsert_repo(&repo(1, "o/one"), NOW).unwrap();
    let p = ProposalFile {
        version: 1,
        id: None,
        notes: None,
        lists: ListChanges { create: vec![ListCreate { slug: Some("b".into()), name: "B".into(), description: None, is_private: None }], ..Default::default() },
        memberships: vec![MembershipSet { repo: "o/one".into(), lists: vec!["b".into()] }],
    };
    let mut plan = compile_plan(&store, "P", &p).unwrap();
    plan.list_ops.clear();
    let run = ApplyRun::new(&plan);
    let e = run.next_action(&plan).unwrap_err();
    assert_eq!((e.code, e.message.as_str()), ("conflict", "missing GitHub id for list b"));
    plan.list_cap.after_apply = 33;
    let e = check_cap(&plan).unwrap_err();
    assert_eq!(e.message, "apply would leave 33 GitHub lists (cap 32)");
}
