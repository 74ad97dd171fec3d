use starlists::db::{RepoRow, Store};

const NOW: &str = "2026-01-01T00:00:00Z";

fn repo(id: i64, name: &str) -> RepoRow {
    RepoRow {
        id,
        node_id: format!("R_{id}"),
        name_with_owner: name.into(),
        url: format!("https://github.com/{name}"),
        description: None,
        homepage_url: None,
        primary_language: None,
        license: None,
        stars: None,
        forks: None,
        is_private: false,
        is_archived: false,
        is_fork: false,
        pushed_at: None,
        updated_at: None,
        starred_at: None,
        topics: vec![],
        lists: vec![],
    }
}

#[test]
fn set_membership_replaces_the_full_set() {
    let mut store = Store::new(0);
    store.upsert_repo(&repo(1, "a/one"), NOW).unwrap();
    store.upsert_repo(&repo(2, "a/two"), NOW).unwrap();
    let x = store.create_list("X", None, None, true, NOW).unwrap();
    let y = store.create_list("Y", None, None, true, NOW).unwrap();
    store.set_membership(1, &[x.id, y.id], "local").unwrap();
    store.set_membership(2, &[x.id], "local").unwrap();
    store.set_membership(1, &[y.id], "local").unwrap();
    assert_eq!(store.membership_slugs(1), vec!["y"]);
    assert_eq!(store.membership_slugs(2), vec!["x"]);
    let e = store.set_membership(1, &[99], "local").unwrap_err();
    assert_eq!(e.message, "FOREIGN KEY constraint failed");
    assert!(store.set_membership(7, &[], "local").is_ok());
}

#[test]
fn meta_reads_back_what_was_written() {
    let mut store = Store::new(0);
    assert_eq!(store.get_meta("k"), None);
    store.set_meta("k", "v1");
    store.set_meta("other", "o");
    store.set_meta("k", "v2");
    assert_eq!(store.get_meta("k").as_deref(), Some("v2"));
    assert_eq!(store.get_meta("other").as_deref(), Some("o"));
}

#[test]
fn proposals_are_stored_once_and_marked_applied() {
    let mut store = Store::new(0);
    store.insert_proposal("P1", Some("n"), None, "{}", NOW).unwrap();
    let e = store.insert_proposal("P1", None, None, "{}", NOW).unwrap_err();
    assert_eq!(e.message, "UNIQUE constraint failed: proposal.id");
    let p = store.get_proposal("P1").unwrap();
    assert_eq!((p.status.as_str(), p.notes.as_deref()), ("draft", Some("n")));
    assert_eq!(store.latest_proposal().unwrap().id, "P1");
    store.mark_proposal_applied("P1");
    assert_eq!(store.get_proposal("P1").unwrap().status, "applied");
}

#[test]
fn created_lists_are_drafts_with_free_slugs() {
    let mut store = Store::new(0);
    let a = store.create_list("Web Mapping", None, Some("maps"), true, NOW).unwrap();
    let b = store.create_list("Web Mapping", None, None, false, NOW).unwrap();
    assert_eq!((a.slug.as_str(), a.status.as_str(), a.github_id.clone()), ("web-mapping", "draft", None));
    assert_eq!(b.slug, "web-mapping-2");
    assert_eq!((a.id, b.id), (1, 2));
    let e = store.create_list("!!!", None, None, true, NOW).unwrap_err();
    assert_eq!((e.code, e.message.as_str()), ("invalid", "list slug is empty"));
}

#[test]
fn edits_mark_synced_lists_dirty_and_refuse_tombstones() {
    let mut store = Store::new(0);
    store.create_list("Web", None, None, true, NOW).unwrap();
    store.mark_list_created("web", "UL_1", NOW).unwrap();
    let r = store.update_list("web", Some("Web 2"), None, None, NOW).unwrap();
    assert_eq!((r.name.as_str(), r.status.as_str()), ("Web 2", "dirty"));
    let d = store.delete_list("UL_1", NOW).unwrap();
    assert_eq!(d.status, "tombstone");
    let e = store.update_list("web", None, Some(Some("x")), None, NOW).unwrap_err();
    assert_eq!(e.code, "conflict");
    assert_eq!(e.message, "cannot edit a tombstoned list");
    store.create_list("Draft", None, None, true, NOW).unwrap();
    let gone = store.delete_list("draft", NOW).unwrap();
    assert_eq!(gone.status, "draft");
    assert!(store.resolve_list("draft").is_err());
    assert_eq!(store.list_lists(false).len(), 0);
    assert_eq!(store.list_lists(true).len(), 1);
}

#[test]
fn repositories_resolve_by_id_node_or_name() {
    let mut store = Store::new(0);
    store.upsert_repo(&repo(5, "Foo/Bar"), NOW).unwrap();
    assert_eq!(store.resolve_repo(" 5 ").unwrap().name_with_owner, "Foo/Bar");
    assert_eq!(store.resolve_repo("R_5").unwrap().id, 5);
    assert_eq!(store.resolve_repo("foo/bar").unwrap().id, 5);
    let e = store.resolve_repo("x/y").unwrap_err();
    assert_eq!((e.code, e.message.as_str()), ("not_found", "repository not found: x/y"));
    let e = store.upsert_repo(&repo(6, "Foo/Bar"), NOW).unwrap_err();
    assert_eq!(e.message, "UNIQUE constraint failed: repo.name_with_owner");
}

#[test]
fn stats_count_unlisted() {
    let mut store = Store::new(0);
    store.upsert_repo(&repo(1, "a/one"), NOW).unwrap();
    store.upsert_repo(&repo(2, "a/two"), NOW).unwrap();
    let x = store.create_list("X", None, None, true, NOW).unwrap();
    store.add_membership(1, x.id, "local").unwrap();
    let s = store.stats();
    assert_eq!((s.repos, s.lists, s.unlisted), (2, 1, 1));
    assert_eq!(store.delete_repos_not_in(&[1]), 1);
    assert_eq!(store.repo_count(), 1);
}

#[test]
fn recording_a_github_list_twice_changes_nothing() {
    let mut store = Store::new(0);
    store.create_list("Maps", None, None, true, NOW).unwrap();
    let a = store.upsert_synced_list("UL_1", "Maps", Some("d"), false, Some("maps"), NOW).unwrap();
    let after_first: Vec<(i64, String, Option<String>, String)> = store
        .list_lists(true)
        .iter()
        .map(|l| (l.id, l.slug.clone(), l.github_id.clone(), l.status.clone()))
        .collect();
    let b = store.upsert_synced_list("UL_1", "Maps", Some("d"), false, Some("maps"), NOW).unwrap();
    let after_second: Vec<(i64, String, Option<String>, String)> = store
        .list_lists(true)
        .iter()
        .map(|l| (l.id, l.slug.clone(), l.github_id.clone(), l.status.clone()))
        .collect();
    assert_eq!(a, b);
    assert_eq!(after_first, after_second);
    assert_eq!(after_first.iter().filter(|l| l.2.as_deref() == Some("UL_1")).count(), 1);
    let c = store.upsert_synced_list("UL_2", "Other", None, true, None, NOW).unwrap();
    assert_eq!(store.upsert_synced_list("UL_2", "Other", None, true, None, NOW).unwrap(), c);
    assert_eq!(store.list_lists(true).len(), 2);
}
