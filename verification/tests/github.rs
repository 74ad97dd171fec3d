use starlists::github::{
    check_request, created_list, decode_graphql_body, graphql_data, item_list_names, items_page, lists_page, looks_like_mutation,
    non_json_error, parse_repo, retry_wait, starred_page,
};
use starlists::output::JsonValue;

fn s(x: &str) -> JsonValue {
    JsonValue::Str(x.to_string())
}

fn n(x: &str) -> JsonValue {
    JsonValue::Number(x.to_string())
}

fn obj(pairs: Vec<(&str, JsonValue)>) -> JsonValue {
    JsonValue::Object(pairs.into_iter().map(|(k, v)| (k.to_string(), v)).collect())
}

fn repo_node() -> JsonValue {
    obj(vec![
        ("id", s("R_kgDOAbcd")),
        ("databaseId", n("42")),
        ("nameWithOwner", s("foo/bar")),
        ("url", s("https://github.com/foo/bar")),
        ("description", s("demo")),
        ("homepageUrl", JsonValue::Null),
        ("primaryLanguage", obj(vec![("name", s("Rust"))])),
        ("licenseInfo", obj(vec![("spdxId", s("MIT"))])),
        ("stargazerCount", n("10")),
        ("forkCount", n("1")),
        ("isPrivate", JsonValue::Bool(false)),
        ("isArchived", JsonValue::Bool(false)),
        ("isFork", JsonValue::Bool(false)),
        ("pushedAt", s("2026-01-01T00:00:00Z")),
        ("updatedAt", s("2026-01-01T00:00:00Z")),
        (
            "repositoryTopics",
            obj(vec![("nodes", JsonValue::Array(vec![obj(vec![("topic", obj(vec![("name", s("cli"))]))])]))]),
        ),
    ])
}

#[test]
fn parse_starred_edge() {
    let node = repo_node();
    let repo = parse_repo(&node, Some("2026-02-01T00:00:00Z")).unwrap();
    assert_eq!(repo.name_with_owner, "foo/bar");
    assert_eq!(repo.topics, vec!["cli"]);
    assert_eq!(repo.starred_at.as_deref(), Some("2026-02-01T00:00:00Z"));
}

#[test]
fn mutation_detect() {
    assert!(looks_like_mutation("mutation { foo }"));
    assert!(!looks_like_mutation("query { viewer { login } }"));
}

#[test]
fn decode_502_html_is_readable() {
    let html = b"<html>\r\n<head><title>502 Bad Gateway</title></head>\r\n<body>\r\n<center><h1>502 Bad Gateway</h1></center>\r\n</body>\r\n</html>\r\n";
    let err = decode_graphql_body(502, html).unwrap_err();
    let msg = err.message.clone();
    assert!(msg.contains("502"), "{msg}");
    assert!(msg.contains("non-JSON"), "{msg}");
}

#[test]
fn decode_empty_body() {
    let err = decode_graphql_body(200, b"").unwrap_err();
    assert!(err.message.contains("empty body"));
}

#[test]
fn parse_repo_reads_every_field() {
    let repo = parse_repo(&repo_node(), None).unwrap();
    assert_eq!(repo.id, 42);
    assert_eq!(repo.node_id, "R_kgDOAbcd");
    assert_eq!(repo.url, "https://github.com/foo/bar");
    assert_eq!(repo.description.as_deref(), Some("demo"));
    assert_eq!(repo.homepage_url, None);
    assert_eq!(repo.primary_language.as_deref(), Some("Rust"));
    assert_eq!(repo.license.as_deref(), Some("MIT"));
    assert_eq!(repo.stars, Some(10));
    assert_eq!(repo.forks, Some(1));
    assert!(!repo.is_private && !repo.is_archived && !repo.is_fork);
    assert_eq!(repo.starred_at, None);
    assert!(repo.lists.is_empty());
}

#[test]
fn parse_repo_needs_ids_and_name() {
    assert!(parse_repo(&obj(vec![("id", s("R_x")), ("nameWithOwner", s("a/b"))]), None).is_none());
    assert!(parse_repo(&obj(vec![("databaseId", n("1.5")), ("id", s("R_x")), ("nameWithOwner", s("a/b"))]), None).is_none());
    let minimal = parse_repo(&obj(vec![("databaseId", n("-7")), ("id", s("R_x")), ("nameWithOwner", s("a/b"))]), None)
        .unwrap();
    assert_eq!(minimal.id, -7);
    assert_eq!(minimal.url, "");
    assert!(minimal.topics.is_empty());
}

#[test]
fn mutation_detect_ignores_case_and_leading_space() {
    assert!(looks_like_mutation("\n\t  MuTaTiOn { x }"));
    assert!(looks_like_mutation("mutation{ x }"));
    assert!(looks_like_mutation("mutation($name: String!) { createUserList(input: {name: $name}) { list { id } } }"));
    assert!(looks_like_mutation("mutation Named { x }"));
    assert!(looks_like_mutation(", # a comment\n  mutation { x }"));
    assert!(looks_like_mutation("\u{feff}mutation{x}"));
    assert!(!looks_like_mutation("# mutation { x }\nquery { y }"));
    assert!(!looks_like_mutation("mutationFoo { x }"));
    assert!(!looks_like_mutation("{ viewer { login } }"));
    assert!(!looks_like_mutation("mutations { x }"));
    assert!(!looks_like_mutation("   "));
    assert!(!looks_like_mutation(""));
}

#[test]
fn decode_json_body_gives_the_value() {
    let v = decode_graphql_body(200, br#"{"data": {"viewer": {"login": "me"}}, "n": 1.5}"#).unwrap();
    let data = graphql_data(&v).unwrap();
    let page = starred_page(&data, "before");
    assert_eq!(page.login, "me");
    assert!(page.repos.is_empty());
    assert_eq!(page.next, None);
}

#[test]
fn non_json_error_keeps_eighty_chars_and_hints_at_502() {
    let long = "x".repeat(100);
    let e = non_json_error(200, &long);
    assert_eq!(e.code, "github_http");
    assert_eq!(e.message, format!("GitHub GraphQL HTTP 200, non-JSON body: {}", "x".repeat(80)));
    assert_eq!(e.hint, None);
    let e = non_json_error(502, "bad gateway 502");
    assert_eq!(e.hint.as_deref(), Some("query was too heavy or GitHub timed out; retry with a smaller page"));
    let tail = format!("{}502", "y".repeat(80));
    assert_eq!(non_json_error(502, &tail).hint, None);
}

#[test]
fn decode_invalid_utf8_is_replaced() {
    let err = decode_graphql_body(500, &[0x66, 0xff, 0x6f]).unwrap_err();
    assert_eq!(err.message, "GitHub GraphQL HTTP 500, non-JSON body: f\u{fffd}o");
}

#[test]
fn graphql_errors_are_reported() {
    let body = obj(vec![(
        "errors",
        JsonValue::Array(vec![obj(vec![("message", s("Your token has not been granted the required SCOPES"))]), obj(vec![("message", s("second"))])]),
    )]);
    let e = graphql_data(&body).unwrap_err();
    assert_eq!(e.code, "auth_scope");
    assert_eq!(e.message, "Your token has not been granted the required SCOPES; second");
    assert_eq!(e.hint.as_deref(), Some("run `gh auth refresh -h github.com -s user` for Star List writes"));
    let body = obj(vec![("errors", JsonValue::Array(vec![obj(vec![("message", s("boom"))])])), ("data", JsonValue::Null)]);
    let e = graphql_data(&body).unwrap_err();
    assert_eq!(e.code, "github_graphql");
    assert_eq!(e.hint, None);
    let e = graphql_data(&obj(vec![("message", s("Bad credentials"))])).unwrap_err();
    assert_eq!((e.code, e.message.as_str()), ("github_http", "Bad credentials"));
    let e = graphql_data(&obj(vec![("errors", JsonValue::Array(vec![]))])).unwrap_err();
    assert_eq!((e.code, e.message.as_str()), ("github_graphql", "GraphQL response missing data"));
    let ok = graphql_data(&obj(vec![("data", JsonValue::Null), ("errors", JsonValue::Array(vec![]))])).unwrap();
    assert!(matches!(ok, JsonValue::Null));
}

#[test]
fn retry_waits_double() {
    assert_eq!(retry_wait(502, false, 1), Some(400));
    assert_eq!(retry_wait(503, false, 2), Some(800));
    assert_eq!(retry_wait(429, false, 3), Some(1600));
    assert_eq!(retry_wait(200, true, 1), Some(400));
    assert_eq!(retry_wait(502, false, 4), None);
    assert_eq!(retry_wait(500, false, 1), None);
}

#[test]
fn pages_follow_cursors() {
    let data = obj(vec![(
        "viewer",
        obj(vec![
            ("login", s("octo")),
            (
                "starredRepositories",
                obj(vec![
                    ("pageInfo", obj(vec![("hasNextPage", JsonValue::Bool(true)), ("endCursor", s("C1"))])),
                    ("edges", JsonValue::Array(vec![obj(vec![("starredAt", s("2026-03-01")), ("node", repo_node())]), obj(vec![("node", JsonValue::Null)])])),
                ]),
            ),
        ]),
    )]);
    let page = starred_page(&data, "");
    assert_eq!(page.login, "octo");
    assert_eq!(page.repos.len(), 1);
    assert_eq!(page.repos[0].starred_at.as_deref(), Some("2026-03-01"));
    assert_eq!(page.next, Some(Some("C1".to_string())));

    let items = obj(vec![(
        "node",
        obj(vec![(
            "items",
            obj(vec![("nodes", JsonValue::Array(vec![repo_node()])), ("pageInfo", obj(vec![("hasNextPage", JsonValue::Bool(true))]))]),
        )]),
    )]);
    let page = items_page(&items);
    assert_eq!(page.repos.len(), 1);
    assert_eq!(page.next, Some(None));
}

#[test]
fn lists_page_reads_heads_and_refuses_missing_lists() {
    let e = lists_page(&obj(vec![("viewer", obj(vec![]))])).unwrap_err();
    assert_eq!(e.code, "github_graphql");
    assert_eq!(e.message, "viewer.lists is not available on this account");
    let data = obj(vec![(
        "viewer",
        obj(vec![(
            "lists",
            obj(vec![(
                "nodes",
                JsonValue::Array(vec![
                    obj(vec![("id", s("UL_1")), ("slug", s("web")), ("isPrivate", JsonValue::Bool(false))]),
                    obj(vec![("id", s("")), ("name", s("skipped"))]),
                ]),
            )]),
        )]),
    )]);
    let page = lists_page(&data).unwrap();
    assert_eq!(page.lists.len(), 1);
    assert_eq!(page.lists[0].github_id, "UL_1");
    assert_eq!(page.lists[0].name, "untitled");
    assert_eq!(page.lists[0].slug.as_deref(), Some("web"));
    assert!(!page.lists[0].is_private);
    assert_eq!(page.next, None);
}

#[test]
fn mutation_replies_are_read() {
    let data = obj(vec![("createUserList", obj(vec![("list", obj(vec![("id", s("UL_9")), ("slug", s("maps"))]))]))]);
    let c = created_list(&data, "Maps").unwrap();
    assert_eq!((c.github_id.as_str(), c.name.as_str(), c.slug.as_deref()), ("UL_9", "Maps", Some("maps")));
    let e = created_list(&obj(vec![]), "Maps").unwrap_err();
    assert_eq!(e.message, "createUserList returned no id");
    let data = obj(vec![(
        "updateUserListsForItem",
        obj(vec![("lists", JsonValue::Array(vec![obj(vec![("name", s("A"))]), obj(vec![("id", s("x"))]), obj(vec![("name", s("B"))])]))]),
    )]);
    assert_eq!(item_list_names(&data), vec!["A", "B"]);
    assert!(item_list_names(&obj(vec![])).is_empty());
}

#[test]
fn raw_mutations_need_write() {
    let e = check_request("mutation{x}", false).unwrap_err();
    assert_eq!((e.code, e.message.as_str()), ("conflict", "GraphQL mutation requires --write"));
    assert!(check_request("mutation($n: String!) { x(n: $n) }", false).is_err());
    assert!(check_request("mutation{x}", true).is_ok());
    assert!(check_request("query { viewer { login } }", false).is_ok());
}
