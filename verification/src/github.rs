//! What the library reads from GitHub's GraphQL API: response bodies, the pages
//! of stars and lists, and the errors GitHub reports.
use vstd::prelude::*;

use vstd::arithmetic::power2::pow2;
use vstd::utf8::{decode_utf8, valid_utf8};

use crate::db::{RepoRow, RepoRowV};
use crate::ids::{all_ascii, to_lowercase, unicode_lowercase};
use crate::output::{copy_json, err_v, join, AppError, AppErrorV};
use crate::order::{first_index, first_where, lemma_first_index_found, lemma_first_index_none};
use crate::output::{
    json_member_views, json_view, json_views, lemma_json_member_views_index, lemma_json_views_index, JsonV,
    JsonValue,
};
use crate::text::{
    char_is_whitespace, chars_of, contains, eq_ignore_ascii_case, fold, is_white_space, owned, parse_i64,
    parse_int, push_char, push_str, str_contains, str_eq, string_of, trim_start, u64_text, decimal,
};

verus! {

/// The most Star Lists GitHub lets one account have.
pub const GITHUB_LIST_CAP: usize = 32;

// ---------------------------------------------------------------------
// Queries.
/// A character GraphQL skips between tokens: white space, a comma, or the byte
/// order mark.
pub open spec fn ignored_char(c: char) -> bool {
    is_white_space(c) || c == ',' || c == '\u{feff}'
}

/// A character that ends a `#` comment.
pub open spec fn line_end(c: char) -> bool {
    c == '\n' || c == '\r'
}

/// `s` from its first token on: ignored characters and `#` comments dropped;
/// `in_comment` says whether a comment is already under way.
pub open spec fn skip_ignored(s: Seq<char>, in_comment: bool) -> Seq<char>
    decreases s.len(),
{
    if s.len() == 0 {
        s
    } else if in_comment {
        skip_ignored(s.drop_first(), !line_end(s[0]))
    } else if ignored_char(s[0]) {
        skip_ignored(s.drop_first(), false)
    } else if s[0] == '#' {
        skip_ignored(s.drop_first(), true)
    } else {
        s
    }
}

/// A character a GraphQL name can hold: `_`, an ASCII letter or a digit.
pub open spec fn name_char(c: char) -> bool {
    c == '_' || ('a' <= c && c <= 'z') || ('A' <= c && c <= 'Z') || ('0' <= c && c <= '9')
}

/// How many leading characters of `s` are name characters.
pub open spec fn name_len(s: Seq<char>) -> nat
    decreases s.len(),
{
    if s.len() == 0 || !name_char(s[0]) {
        0
    } else {
        1 + name_len(s.drop_first())
    }
}

/// The name characters the document's first token starts with (empty when that
/// token is punctuation such as `{`).
pub open spec fn first_name(query: Seq<char>) -> Seq<char> {
    let t = skip_ignored(query, false);
    t.take(name_len(t) as int)
}

/// A GraphQL document whose first token is the keyword `mutation`, in any ASCII
/// case, whatever follows it (`{`, `(`, white space or a name after a space).
pub open spec fn is_mutation(query: Seq<char>) -> bool {
    fold(first_name(query)) == "mutation"@
}

/// The document is a mutation: its first token is `mutation`, ignoring ASCII case.
pub fn looks_like_mutation(query: &str) -> (r: bool)
    ensures
        r == is_mutation(query@),
{
    let cs = chars_of(query);
    let mut i: usize = 0;
    let mut in_comment = false;
    assert(query@.skip(0) =~= query@);
    while i < cs.len()
        invariant
            cs@ == query@,
            i <= cs.len(),
            skip_ignored(query@, false) == skip_ignored(query@.skip(i as int), in_comment),
        ensures
            i <= cs.len(),
            skip_ignored(query@, false) == skip_ignored(query@.skip(i as int), in_comment),
            i < cs.len() ==> !in_comment && !ignored_char(cs@[i as int]) && cs@[i as int] != '#',
        decreases cs.len() - i,
    {
        let c = cs[i];
        assert(query@.skip(i as int)[0] == c);
        assert(query@.skip(i as int).drop_first() =~= query@.skip(i + 1));
        if in_comment {
            in_comment = !(c == '\n' || c == '\r');
        } else if char_is_whitespace(c) || c == ',' || c == '\u{feff}' {
        } else if c == '#' {
            in_comment = true;
        } else {
            break;
        }
        i = i + 1;
    }
    let ghost t = query@.skip(i as int);
    assert(skip_ignored(query@, false) == t) by {
        if i == cs.len() {
            assert(t.len() == 0);
        }
    }
    let mut word = String::new();
    let mut j: usize = i;
    while j < cs.len() && (cs[j] == '_' || ('a' <= cs[j] && cs[j] <= 'z') || ('A' <= cs[j] && cs[j] <= 'Z') || ('0' <= cs[j] && cs[j] <= '9'))
        invariant
            cs@ == query@,
            t == query@.skip(i as int),
            i <= j <= cs.len(),
            word@ == t.take(j - i),
            name_len(t) == (j - i) + name_len(query@.skip(j as int)),
        decreases cs.len() - j,
    {
        assert(query@.skip(j as int).drop_first() =~= query@.skip(j + 1));
        push_char(&mut word, cs[j]);
        assert(word@ =~= t.take(j + 1 - i));
        j = j + 1;
    }
    assert(name_len(query@.skip(j as int)) == 0);
    assert(name_len(t) == j - i);
    proof {
        reveal_strlit("mutation");
        assert(fold("mutation"@) =~= "mutation"@);
    }
    eq_ignore_ascii_case(word.as_str(), "mutation")
}

/// The error for a mutation sent without `--write`.
pub open spec fn write_required_err() -> AppErrorV {
    err_v("conflict"@, "GraphQL mutation requires --write"@)
}

/// A raw request may go out: a mutation only with `write`, any other document
/// always.
pub fn check_request(query: &str, write: bool) -> (r: Result<(), AppError>)
    ensures
        r is Ok <==> (write || !is_mutation(query@)),
        r matches Err(e) ==> e@ == write_required_err(),
{
    if looks_like_mutation(query) && !write {
        Err(AppError::new("conflict", owned("GraphQL mutation requires --write")))
    } else {
        Ok(())
    }
}

// ---------------------------------------------------------------------
// Reading JSON the way `serde_json::Value` indexing does.
pub open spec fn member_key_is(key: Seq<char>) -> spec_fn((Seq<char>, JsonV)) -> bool {
    |p: (Seq<char>, JsonV)| p.0 == key
}

/// `value.get(key)`: the member named `key` of an object, if it has one.
pub open spec fn lookup(v: JsonV, key: Seq<char>) -> Option<JsonV> {
    match v {
        JsonV::Object(ps) => match first_where(ps, member_key_is(key)) {
            Some(p) => Some(p.1),
            None => None,
        },
        _ => None,
    }
}

/// `value[key]`: the member named `key` of an object, else null.
pub open spec fn member(v: JsonV, key: Seq<char>) -> JsonV {
    match lookup(v, key) {
        Some(x) => x,
        None => JsonV::Null,
    }
}

/// `as_str`.
pub open spec fn as_str(v: JsonV) -> Option<Seq<char>> {
    match v {
        JsonV::Str(s) => Some(s),
        _ => None,
    }
}

/// `as_i64`: an integer number within `i64`.
pub open spec fn as_i64(v: JsonV) -> Option<i64> {
    match v {
        JsonV::Number(t) => parse_i64(t),
        _ => None,
    }
}

/// `as_bool`.
pub open spec fn as_bool(v: JsonV) -> Option<bool> {
    match v {
        JsonV::Bool(b) => Some(b),
        _ => None,
    }
}

/// The member named `key` of an object (`Value::get`).
pub fn member_of<'a>(v: &'a JsonValue, key: &str) -> (r: Option<&'a JsonValue>)
    ensures
        match r {
            Some(x) => lookup(v@, key@) == Some(x@),
            None => lookup(v@, key@) is None,
        },
{
    match v {
        JsonValue::Object(pairs) => {
            let ghost mv = json_member_views(pairs@);
            proof {
                lemma_json_member_views_index(pairs@);
            }
            assert(v@ == JsonV::Object(mv));
            let mut i: usize = 0;
            while i < pairs.len()
                invariant
                    mv == json_member_views(pairs@),
                    v@ == JsonV::Object(mv),
                    mv.len() == pairs@.len(),
                    forall|k: int| 0 <= k < pairs@.len() ==> #[trigger] mv[k] == (pairs@[k].0@, json_view(pairs@[k].1)),
                    i <= pairs.len(),
                    forall|k: int| 0 <= k < i ==> !(member_key_is(key@))(#[trigger] mv[k]),
                decreases pairs.len() - i,
            {
                if str_eq(pairs[i].0.as_str(), key) {
                    proof {
                        lemma_first_index_found(mv, member_key_is(key@), i as int);
                    }
                    return Some(&pairs[i].1);
                }
                i = i + 1;
            }
            proof {
                lemma_first_index_none(mv, member_key_is(key@));
            }
            None
        },
        _ => None,
    }
}

/// `value[key].as_str()`, owned.
pub fn text_at(v: &JsonValue, key: &str) -> (r: Option<String>)
    ensures
        r.deep_view() == as_str(member(v@, key@)),
{
    match member_of(v, key) {
        Some(JsonValue::Str(s)) => Some(s.clone()),
        _ => None,
    }
}

/// `value[key].as_i64()`.
pub fn int_at(v: &JsonValue, key: &str) -> (r: Option<i64>)
    ensures
        r == as_i64(member(v@, key@)),
{
    match member_of(v, key) {
        Some(JsonValue::Number(t)) => parse_int(t.as_str()),
        _ => None,
    }
}

/// `value[key].as_bool()`.
pub fn bool_at(v: &JsonValue, key: &str) -> (r: Option<bool>)
    ensures
        r == as_bool(member(v@, key@)),
{
    match member_of(v, key) {
        Some(JsonValue::Bool(b)) => Some(*b),
        _ => None,
    }
}

/// `value[outer][inner].as_str()`, owned.
pub fn text_in(v: &JsonValue, outer: &str, inner: &str) -> (r: Option<String>)
    ensures
        r.deep_view() == as_str(member(member(v@, outer@), inner@)),
{
    match member_of(v, outer) {
        Some(x) => text_at(x, inner),
        None => None,
    }
}


// ---------------------------------------------------------------------
// Repositories.
pub open spec fn text_or_empty(o: Option<Seq<char>>) -> Seq<char> {
    match o {
        Some(s) => s,
        None => seq![],
    }
}

pub open spec fn bool_or(o: Option<bool>, d: bool) -> bool {
    match o {
        Some(b) => b,
        None => d,
    }
}

/// `item[outer][inner].as_str()` for each item that has one, in order.
pub open spec fn names_in(items: Seq<JsonV>, outer: Seq<char>, inner: Seq<char>) -> Seq<Seq<char>>
    decreases items.len(),
{
    if items.len() == 0 {
        seq![]
    } else {
        let r = names_in(items.drop_last(), outer, inner);
        match as_str(member(member(items.last(), outer), inner)) {
            Some(n) => r.push(n),
            None => r,
        }
    }
}

/// The names a JSON array holds at `[outer][inner]`, or none when it is not an array.
pub open spec fn names_of(v: JsonV, outer: Seq<char>, inner: Seq<char>) -> Seq<Seq<char>> {
    match v {
        JsonV::Array(items) => names_in(items, outer, inner),
        _ => seq![],
    }
}

/// The repository a GraphQL `Repository` node describes, if it has a database id,
/// a node id and an `owner/name`.
pub open spec fn repo_of_node(node: JsonV, starred_at: Option<Seq<char>>) -> Option<RepoRowV> {
    match (as_i64(member(node, "databaseId"@)), as_str(member(node, "id"@)), as_str(member(node, "nameWithOwner"@))) {
        (Some(id), Some(node_id), Some(name_with_owner)) => Some(
            RepoRowV {
                id,
                node_id,
                name_with_owner,
                url: text_or_empty(as_str(member(node, "url"@))),
                description: as_str(member(node, "description"@)),
                homepage_url: as_str(member(node, "homepageUrl"@)),
                primary_language: as_str(member(member(node, "primaryLanguage"@), "name"@)),
                license: as_str(member(member(node, "licenseInfo"@), "spdxId"@)),
                stars: as_i64(member(node, "stargazerCount"@)),
                forks: as_i64(member(node, "forkCount"@)),
                is_private: bool_or(as_bool(member(node, "isPrivate"@)), false),
                is_archived: bool_or(as_bool(member(node, "isArchived"@)), false),
                is_fork: bool_or(as_bool(member(node, "isFork"@)), false),
                pushed_at: as_str(member(node, "pushedAt"@)),
                updated_at: as_str(member(node, "updatedAt"@)),
                starred_at,
                topics: names_of(member(member(node, "repositoryTopics"@), "nodes"@), "topic"@, "name"@),
                lists: seq![],
            },
        ),
        _ => None,
    }
}

/// `value[outer][inner].as_str()` for each item of the array `v`.
fn names_from(v: Option<&JsonValue>, outer: &str, inner: &str) -> (r: Vec<String>)
    ensures
        r.deep_view() == names_of(
            match v {
                Some(x) => x@,
                None => JsonV::Null,
            },
            outer@,
            inner@,
        ),
{
    match v {
        Some(JsonValue::Array(items)) => {
            let ghost iv = json_views(items@);
            proof {
                lemma_json_views_index(items@);
            }
            let mut out: Vec<String> = Vec::new();
            let mut i: usize = 0;
            assert(out.deep_view() =~= names_in(iv.take(0), outer@, inner@));
            while i < items.len()
                invariant
                    iv == json_views(items@),
                    iv.len() == items@.len(),
                    forall|k: int| 0 <= k < items@.len() ==> #[trigger] iv[k] == json_view(items@[k]),
                    i <= items.len(),
                    out.deep_view() == names_in(iv.take(i as int), outer@, inner@),
                decreases items.len() - i,
            {
                assert(iv.take(i + 1).drop_last() =~= iv.take(i as int));
                assert(iv.take(i + 1).last() == items@[i as int]@);
                match text_in(&items[i], outer, inner) {
                    Some(n) => {
                        let ghost ov = out.deep_view();
                        let ghost nv = n@;
                        out.push(n);
                        assert(out.deep_view() =~= ov.push(nv));
                    },
                    None => {},
                }
                i = i + 1;
            }
            assert(iv.take(items.len() as int) =~= iv);
            out
        },
        _ => Vec::new(),
    }
}

/// Reads a starred repository from a GraphQL `Repository` node, with the time it
/// was starred; `None` when the node lacks its ids or name.
pub fn parse_repo(node: &JsonValue, starred_at: Option<&str>) -> (r: Option<RepoRow>)
    ensures
        match r {
            Some(row) => repo_of_node(node@, starred_at.deep_view()) == Some(row@),
            None => repo_of_node(node@, starred_at.deep_view()) is None,
        },
{
    let id = match int_at(node, "databaseId") {
        Some(x) => x,
        None => return None,
    };
    let node_id = match text_at(node, "id") {
        Some(x) => x,
        None => return None,
    };
    let name_with_owner = match text_at(node, "nameWithOwner") {
        Some(x) => x,
        None => return None,
    };
    let topics_node = match member_of(node, "repositoryTopics") {
        Some(x) => member_of(x, "nodes"),
        None => None,
    };
    let topics = names_from(topics_node, "topic", "name");
    let row = RepoRow {
        id,
        node_id,
        name_with_owner,
        url: match text_at(node, "url") {
            Some(u) => u,
            None => String::new(),
        },
        description: text_at(node, "description"),
        homepage_url: text_at(node, "homepageUrl"),
        primary_language: text_in(node, "primaryLanguage", "name"),
        license: text_in(node, "licenseInfo", "spdxId"),
        stars: int_at(node, "stargazerCount"),
        forks: int_at(node, "forkCount"),
        is_private: match bool_at(node, "isPrivate") {
            Some(b) => b,
            None => false,
        },
        is_archived: match bool_at(node, "isArchived") {
            Some(b) => b,
            None => false,
        },
        is_fork: match bool_at(node, "isFork") {
            Some(b) => b,
            None => false,
        },
        pushed_at: text_at(node, "pushedAt"),
        updated_at: text_at(node, "updatedAt"),
        starred_at: match starred_at {
            Some(s) => Some(owned(s)),
            None => None,
        },
        topics,
        lists: Vec::new(),
    };
    assert(row.lists.deep_view() =~= Seq::<Seq<char>>::empty());
    Some(row)
}


// ---------------------------------------------------------------------
// Pages of a connection.
/// Where a paged connection goes next: `None` when there is no next page, else
/// the cursor to ask for it with (which GitHub may leave out).
pub open spec fn next_cursor(conn: JsonV) -> Option<Option<Seq<char>>> {
    let page = member(conn, "pageInfo"@);
    if bool_or(as_bool(member(page, "hasNextPage"@)), false) {
        Some(as_str(member(page, "endCursor"@)))
    } else {
        None
    }
}

fn page_next(conn: Option<&JsonValue>) -> (r: Option<Option<String>>)
    ensures
        r.deep_view() == next_cursor(
            match conn {
                Some(x) => x@,
                None => JsonV::Null,
            },
        ),
{
    let page = match conn {
        Some(c) => member_of(c, "pageInfo"),
        None => None,
    };
    let more = match page {
        Some(p) => match bool_at(p, "hasNextPage") {
            Some(b) => b,
            None => false,
        },
        None => false,
    };
    if more {
        match page {
            Some(p) => Some(text_at(p, "endCursor")),
            None => Some(None),
        }
    } else {
        None
    }
}

/// The repositories of starred-repository edges, each with the time it was starred.
pub open spec fn starred_in(edges: Seq<JsonV>) -> Seq<RepoRowV>
    decreases edges.len(),
{
    if edges.len() == 0 {
        seq![]
    } else {
        let r = starred_in(edges.drop_last());
        match repo_of_node(member(edges.last(), "node"@), as_str(member(edges.last(), "starredAt"@))) {
            Some(repo) => r.push(repo),
            None => r,
        }
    }
}

/// The repositories of bare `Repository` nodes.
pub open spec fn repos_in(nodes: Seq<JsonV>) -> Seq<RepoRowV>
    decreases nodes.len(),
{
    if nodes.len() == 0 {
        seq![]
    } else {
        let r = repos_in(nodes.drop_last());
        match repo_of_node(nodes.last(), None) {
            Some(repo) => r.push(repo),
            None => r,
        }
    }
}

/// One page of the viewer's stars.
#[derive(Debug)]
pub struct StarredPage {
    pub login: String,
    pub repos: Vec<RepoRow>,
    pub next: Option<Option<String>>,
}

/// The login a page names, or the one known before.
pub open spec fn login_of(data: JsonV, login: Seq<char>) -> Seq<char> {
    match as_str(member(member(data, "viewer"@), "login"@)) {
        Some(l) => l,
        None => login,
    }
}

pub open spec fn starred_conn(data: JsonV) -> JsonV {
    member(member(data, "viewer"@), "starredRepositories"@)
}

pub open spec fn starred_repos(data: JsonV) -> Seq<RepoRowV> {
    match member(starred_conn(data), "edges"@) {
        JsonV::Array(edges) => starred_in(edges),
        _ => seq![],
    }
}

/// The repositories of a JSON array of nodes, read by `node_repos`.
fn array_repos(v: Option<&JsonValue>, edges: bool) -> (r: Vec<RepoRow>)
    ensures
        r@.map_values(|x: RepoRow| x@) == match (match v {
            Some(x) => x@,
            None => JsonV::Null,
        }) {
            JsonV::Array(items) => if edges {
                starred_in(items)
            } else {
                repos_in(items)
            },
            _ => seq![],
        },
{
    match v {
        Some(JsonValue::Array(items)) => {
            let ghost iv = json_views(items@);
            proof {
                lemma_json_views_index(items@);
            }
            let mut out: Vec<RepoRow> = Vec::new();
            let mut i: usize = 0;
            assert(iv.take(0).len() == 0);
            assert(out@.map_values(|x: RepoRow| x@) =~= Seq::<RepoRowV>::empty());
            while i < items.len()
                invariant
                    iv == json_views(items@),
                    iv.len() == items@.len(),
                    forall|k: int| 0 <= k < items@.len() ==> #[trigger] iv[k] == json_view(items@[k]),
                    i <= items.len(),
                    out@.map_values(|x: RepoRow| x@) == if edges {
                        starred_in(iv.take(i as int))
                    } else {
                        repos_in(iv.take(i as int))
                    },
                decreases items.len() - i,
            {
                assert(iv.take(i + 1).drop_last() =~= iv.take(i as int));
                assert(iv.take(i + 1).last() == items@[i as int]@);
                let item = &items[i];
                let parsed = if edges {
                    let starred = text_at(item, "starredAt");
                    let at: Option<&str> = match &starred {
                        Some(s) => Some(s.as_str()),
                        None => None,
                    };
                    match member_of(item, "node") {
                        Some(n) => parse_repo(n, at),
                        None => {
                            let null = JsonValue::Null;
                            parse_repo(&null, at)
                        },
                    }
                } else {
                    parse_repo(item, None)
                };
                match parsed {
                    Some(row) => {
                        let ghost ov = out@.map_values(|x: RepoRow| x@);
                        let ghost rv = row@;
                        out.push(row);
                        assert(out@.map_values(|x: RepoRow| x@) =~= ov.push(rv));
                    },
                    None => {},
                }
                i = i + 1;
            }
            assert(iv.take(items.len() as int) =~= iv);
            out
        },
        _ => Vec::new(),
    }
}

/// Reads one page of the viewer's stars: the login (else `login`), the starred
/// repositories with their star times, and where the next page starts.
pub fn starred_page(data: &JsonValue, login: &str) -> (r: StarredPage)
    ensures
        r.login@ == login_of(data@, login@),
        r.repos@.map_values(|x: RepoRow| x@) == starred_repos(data@),
        r.next.deep_view() == next_cursor(starred_conn(data@)),
{
    let viewer = member_of(data, "viewer");
    let new_login = match viewer {
        Some(v) => match text_at(v, "login") {
            Some(l) => l,
            None => owned(login),
        },
        None => owned(login),
    };
    let conn = match viewer {
        Some(v) => member_of(v, "starredRepositories"),
        None => None,
    };
    let edges = match conn {
        Some(c) => member_of(c, "edges"),
        None => None,
    };
    let repos = array_repos(edges, true);
    let next = page_next(conn);
    StarredPage { login: new_login, repos, next }
}

/// One page of a list's repositories.
#[derive(Debug)]
pub struct ItemsPage {
    pub repos: Vec<RepoRow>,
    pub next: Option<Option<String>>,
}

pub open spec fn items_conn(data: JsonV) -> JsonV {
    member(member(data, "node"@), "items"@)
}

pub open spec fn item_repos(data: JsonV) -> Seq<RepoRowV> {
    match member(items_conn(data), "nodes"@) {
        JsonV::Array(nodes) => repos_in(nodes),
        _ => seq![],
    }
}

/// Reads one page of a list's items: its repositories and where the next page
/// starts.
pub fn items_page(data: &JsonValue) -> (r: ItemsPage)
    ensures
        r.repos@.map_values(|x: RepoRow| x@) == item_repos(data@),
        r.next.deep_view() == next_cursor(items_conn(data@)),
{
    let conn = match member_of(data, "node") {
        Some(n) => member_of(n, "items"),
        None => None,
    };
    let nodes = match conn {
        Some(c) => member_of(c, "nodes"),
        None => None,
    };
    ItemsPage { repos: array_repos(nodes, false), next: page_next(conn) }
}


// ---------------------------------------------------------------------
// Lists.
/// A Star List as GitHub has it, with its repositories.
#[derive(Debug)]
pub struct RemoteList {
    pub github_id: String,
    pub name: String,
    pub slug: Option<String>,
    pub description: Option<String>,
    pub is_private: bool,
    pub repos: Vec<RepoRow>,
}

pub struct RemoteListV {
    pub github_id: Seq<char>,
    pub name: Seq<char>,
    pub slug: Option<Seq<char>>,
    pub description: Option<Seq<char>>,
    pub is_private: bool,
    pub repos: Seq<RepoRowV>,
}

impl View for RemoteList {
    type V = RemoteListV;

    open spec fn view(&self) -> RemoteListV {
        RemoteListV {
            github_id: self.github_id@,
            name: self.name@,
            slug: self.slug.deep_view(),
            description: self.description.deep_view(),
            is_private: self.is_private,
            repos: self.repos@.map_values(|r: RepoRow| r@),
        }
    }
}

/// The list a `UserList` node describes, with no repositories yet; `None` when it
/// has no id.
pub open spec fn list_head(node: JsonV) -> Option<RemoteListV> {
    let gid = text_or_empty(as_str(member(node, "id"@)));
    if gid.len() == 0 {
        None
    } else {
        Some(
            RemoteListV {
                github_id: gid,
                name: match as_str(member(node, "name"@)) {
                    Some(n) => n,
                    None => "untitled"@,
                },
                slug: as_str(member(node, "slug"@)),
                description: as_str(member(node, "description"@)),
                is_private: bool_or(as_bool(member(node, "isPrivate"@)), true),
                repos: seq![],
            },
        )
    }
}

pub open spec fn heads_in(nodes: Seq<JsonV>) -> Seq<RemoteListV>
    decreases nodes.len(),
{
    if nodes.len() == 0 {
        seq![]
    } else {
        let r = heads_in(nodes.drop_last());
        match list_head(nodes.last()) {
            Some(l) => r.push(l),
            None => r,
        }
    }
}

pub open spec fn lists_conn(data: JsonV) -> JsonV {
    member(member(data, "viewer"@), "lists"@)
}

pub open spec fn lists_missing_err() -> AppErrorV {
    AppErrorV {
        code: "github_graphql"@,
        message: "viewer.lists is not available on this account"@,
        hint: Some("Star Lists are a GitHub preview feature; confirm they appear on github.com?tab=stars"@),
    }
}

/// The lists of one page of the viewer's Star Lists, or the error for an
/// account without Star Lists.
pub open spec fn list_heads(data: JsonV) -> Result<Seq<RemoteListV>, AppErrorV> {
    if lists_conn(data) == JsonV::Null {
        Err(lists_missing_err())
    } else {
        Ok(
            match member(lists_conn(data), "nodes"@) {
                JsonV::Array(nodes) => heads_in(nodes),
                _ => seq![],
            },
        )
    }
}

/// One page of the viewer's Star Lists.
#[derive(Debug)]
pub struct ListsPage {
    pub lists: Vec<RemoteList>,
    pub next: Option<Option<String>>,
}

/// Reads one page of the viewer's Star Lists (their repositories are fetched
/// separately), and where the next page starts.
pub fn lists_page(data: &JsonValue) -> (r: Result<ListsPage, AppError>)
    ensures
        match r {
            Ok(p) => list_heads(data@) == Ok::<Seq<RemoteListV>, AppErrorV>(p.lists@.map_values(|l: RemoteList| l@))
                && p.next.deep_view() == next_cursor(lists_conn(data@)),
            Err(e) => list_heads(data@) == Err::<Seq<RemoteListV>, AppErrorV>(e@),
        },
{
    let conn = match member_of(data, "viewer") {
        Some(v) => member_of(v, "lists"),
        None => None,
    };
    let is_null = match conn {
        Some(JsonValue::Null) => true,
        None => true,
        _ => false,
    };
    if is_null {
        return Err(
            AppError::new("github_graphql", owned("viewer.lists is not available on this account")).hint(
                owned("Star Lists are a GitHub preview feature; confirm they appear on github.com?tab=stars"),
            ),
        );
    }
    let mut lists: Vec<RemoteList> = Vec::new();
    assert(lists@.map_values(|l: RemoteList| l@) =~= Seq::<RemoteListV>::empty());
    match conn {
        Some(c) => match member_of(c, "nodes") {
            Some(JsonValue::Array(nodes)) => {
                let ghost nv = json_views(nodes@);
                proof {
                    lemma_json_views_index(nodes@);
                }
                let mut i: usize = 0;
                assert(nv.take(0).len() == 0);
                assert(lists@.map_values(|l: RemoteList| l@) =~= Seq::<RemoteListV>::empty());
                while i < nodes.len()
                    invariant
                        nv == json_views(nodes@),
                        nv.len() == nodes@.len(),
                        forall|k: int| 0 <= k < nodes@.len() ==> #[trigger] nv[k] == json_view(nodes@[k]),
                        i <= nodes.len(),
                        lists@.map_values(|l: RemoteList| l@) == heads_in(nv.take(i as int)),
                    decreases nodes.len() - i,
                {
                    assert(nv.take(i + 1).drop_last() =~= nv.take(i as int));
                    assert(nv.take(i + 1).last() == nodes@[i as int]@);
                    let node = &nodes[i];
                    let gid = match text_at(node, "id") {
                        Some(g) => g,
                        None => String::new(),
                    };
                    if !gid.as_str().is_empty() {
                        let head = RemoteList {
                            github_id: gid,
                            name: match text_at(node, "name") {
                                Some(n) => n,
                                None => owned("untitled"),
                            },
                            slug: text_at(node, "slug"),
                            description: text_at(node, "description"),
                            is_private: match bool_at(node, "isPrivate") {
                                Some(b) => b,
                                None => true,
                            },
                            repos: Vec::new(),
                        };
                        assert(head.repos@.map_values(|r: RepoRow| r@) =~= Seq::<RepoRowV>::empty());
                        let ghost lv = lists@.map_values(|l: RemoteList| l@);
                        let ghost hv = head@;
                        lists.push(head);
                        assert(lists@.map_values(|l: RemoteList| l@) =~= lv.push(hv));
                    }
                    i = i + 1;
                }
                assert(nv.take(nodes.len() as int) =~= nv);
            },
            _ => {},
        },
        None => {},
    }
    Ok(ListsPage { lists, next: page_next(conn) })
}

/// A list `createUserList` made.
#[derive(Debug)]
pub struct CreatedList {
    pub github_id: String,
    pub name: String,
    pub slug: Option<String>,
}

pub struct CreatedListV {
    pub github_id: Seq<char>,
    pub name: Seq<char>,
    pub slug: Option<Seq<char>>,
}

impl View for CreatedList {
    type V = CreatedListV;

    open spec fn view(&self) -> CreatedListV {
        CreatedListV { github_id: self.github_id@, name: self.name@, slug: self.slug.deep_view() }
    }
}

/// What a `createUserList` reply says was made; the name asked for stands in
/// when the reply has none.
pub open spec fn created_list_v(data: JsonV, name: Seq<char>) -> Result<CreatedListV, AppErrorV> {
    let list = member(member(data, "createUserList"@), "list"@);
    match as_str(member(list, "id"@)) {
        None => Err(err_v("github_graphql"@, "createUserList returned no id"@)),
        Some(gid) => Ok(
            CreatedListV {
                github_id: gid,
                name: match as_str(member(list, "name"@)) {
                    Some(n) => n,
                    None => name,
                },
                slug: as_str(member(list, "slug"@)),
            },
        ),
    }
}

/// Reads the reply of a `createUserList` mutation.
pub fn created_list(data: &JsonValue, name: &str) -> (r: Result<CreatedList, AppError>)
    ensures
        match r {
            Ok(c) => created_list_v(data@, name@) == Ok::<CreatedListV, AppErrorV>(c@),
            Err(e) => created_list_v(data@, name@) == Err::<CreatedListV, AppErrorV>(e@),
        },
{
    let list = match member_of(data, "createUserList") {
        Some(c) => member_of(c, "list"),
        None => None,
    };
    let null = JsonValue::Null;
    let list = match list {
        Some(l) => l,
        None => &null,
    };
    match text_at(list, "id") {
        None => Err(AppError::new("github_graphql", owned("createUserList returned no id"))),
        Some(gid) => Ok(
            CreatedList {
                github_id: gid,
                name: match text_at(list, "name") {
                    Some(n) => n,
                    None => owned(name),
                },
                slug: text_at(list, "slug"),
            },
        ),
    }
}

/// `item[key].as_str()` for each item that has one, in order.
pub open spec fn strs_in(items: Seq<JsonV>, key: Seq<char>) -> Seq<Seq<char>>
    decreases items.len(),
{
    if items.len() == 0 {
        seq![]
    } else {
        let r = strs_in(items.drop_last(), key);
        match as_str(member(items.last(), key)) {
            Some(n) => r.push(n),
            None => r,
        }
    }
}

/// `item[key].as_str()` for each item of `items`.
fn strs_from(items: &Vec<JsonValue>, key: &str) -> (r: Vec<String>)
    ensures
        r.deep_view() == strs_in(json_views(items@), key@),
{
    let ghost iv = json_views(items@);
    proof {
        lemma_json_views_index(items@);
    }
    let mut out: Vec<String> = Vec::new();
    let mut i: usize = 0;
    assert(out.deep_view() =~= strs_in(iv.take(0), key@));
    while i < items.len()
        invariant
            iv == json_views(items@),
            iv.len() == items@.len(),
            forall|k: int| 0 <= k < items@.len() ==> #[trigger] iv[k] == json_view(items@[k]),
            i <= items.len(),
            out.deep_view() == strs_in(iv.take(i as int), key@),
        decreases items.len() - i,
    {
        assert(iv.take(i + 1).drop_last() =~= iv.take(i as int));
        assert(iv.take(i + 1).last() == items@[i as int]@);
        match text_at(&items[i], key) {
            Some(n) => {
                let ghost ov = out.deep_view();
                let ghost nv = n@;
                out.push(n);
                assert(out.deep_view() =~= ov.push(nv));
            },
            None => {},
        }
        i = i + 1;
    }
    assert(iv.take(items.len() as int) =~= iv);
    out
}

/// The names of the lists an `updateUserListsForItem` reply says the item is in.
pub open spec fn item_list_names_v(data: JsonV) -> Seq<Seq<char>> {
    match member(member(data, "updateUserListsForItem"@), "lists"@) {
        JsonV::Array(items) => strs_in(items, "name"@),
        _ => seq![],
    }
}

/// Reads the reply of an `updateUserListsForItem` mutation: the names of the
/// item's lists.
pub fn item_list_names(data: &JsonValue) -> (r: Vec<String>)
    ensures
        r.deep_view() == item_list_names_v(data@),
{
    let lists = match member_of(data, "updateUserListsForItem") {
        Some(u) => member_of(u, "lists"),
        None => None,
    };
    match lists {
        Some(JsonValue::Array(items)) => strs_from(items, "name"),
        _ => {
            let out: Vec<String> = Vec::new();
            assert(out.deep_view() =~= Seq::<Seq<char>>::empty());
            out
        },
    }
}

// ---------------------------------------------------------------------
// Responses.
pub open spec fn scope_hint() -> Seq<char> {
    "run `gh auth refresh -h github.com -s user` for Star List writes"@
}

/// A text lower-cased as `str::to_lowercase` does: ASCII case folding on ASCII
/// text, the Unicode mapping otherwise.
pub open spec fn lowered(s: Seq<char>) -> Seq<char> {
    if all_ascii(s) {
        fold(s)
    } else {
        unicode_lowercase(s)
    }
}

/// The error GraphQL `errors` report: their messages joined by `; `, as a missing
/// scope when the lower-cased text mentions a scope.
pub open spec fn graphql_errors_err(errs: Seq<JsonV>) -> AppErrorV {
    let message = join(strs_in(errs, "message"@), "; "@);
    if contains(lowered(message), "scope"@) {
        AppErrorV { code: "auth_scope"@, message, hint: Some(scope_hint()) }
    } else {
        err_v("github_graphql"@, message)
    }
}

/// What a GraphQL response body comes to: a bare HTTP error message when there is
/// no data, the reported errors when there are any, else the data.
pub open spec fn graphql_data_v(body: JsonV) -> Result<JsonV, AppErrorV> {
    if lookup(body, "data"@) is None && lookup(body, "message"@) is Some && as_str(lookup(body, "message"@)->0) is Some {
        Err(err_v("github_http"@, as_str(lookup(body, "message"@)->0)->0))
    } else if lookup(body, "errors"@) is Some && lookup(body, "errors"@)->0 is Array
        && lookup(body, "errors"@)->0->Array_0.len() > 0 {
        Err(graphql_errors_err(lookup(body, "errors"@)->0->Array_0))
    } else {
        match lookup(body, "data"@) {
            Some(d) => Ok(d),
            None => Err(err_v("github_graphql"@, "GraphQL response missing data"@)),
        }
    }
}

/// Reads a GraphQL response body: the `data`, or the error GitHub reported.
pub fn graphql_data(body: &JsonValue) -> (r: Result<JsonValue, AppError>)
    ensures
        match r {
            Ok(d) => graphql_data_v(body@) == Ok::<JsonV, AppErrorV>(d@),
            Err(e) => graphql_data_v(body@) == Err::<JsonV, AppErrorV>(e@),
        },
{
    let data = member_of(body, "data");
    if data.is_none() {
        match member_of(body, "message") {
            Some(JsonValue::Str(m)) => return Err(AppError::new("github_http", m.clone())),
            _ => {},
        }
    }
    match member_of(body, "errors") {
        Some(JsonValue::Array(errs)) => {
            if errs.len() > 0 {
                let messages = strs_from(errs, "message");
                let message = join_texts(&messages, "; ");
                let lower = to_lowercase(message.as_str());
                if str_contains(lower.as_str(), "scope") {
                    return Err(
                        AppError::new("auth_scope", message).hint(
                            owned("run `gh auth refresh -h github.com -s user` for Star List writes"),
                        ),
                    );
                }
                return Err(AppError::new("github_graphql", message));
            }
        },
        _ => {},
    }
    match data {
        Some(d) => Ok(copy_json(d)),
        None => Err(AppError::new("github_graphql", owned("GraphQL response missing data"))),
    }
}

/// `parts` joined by `sep`.
pub fn join_texts(parts: &Vec<String>, sep: &str) -> (r: String)
    ensures
        r@ == join(parts.deep_view(), sep@),
{
    let ghost pv = parts.deep_view();
    let mut out = String::new();
    let mut i: usize = 0;
    assert(out@ =~= join(pv.take(0), sep@));
    while i < parts.len()
        invariant
            pv == parts.deep_view(),
            i <= parts.len(),
            out@ == join(pv.take(i as int), sep@),
        decreases parts.len() - i,
    {
        assert(pv.take(i + 1).drop_last() =~= pv.take(i as int));
        assert(pv.take(i + 1).last() == pv[i as int]);
        if i > 0 {
            push_str(&mut out, sep);
        }
        push_str(&mut out, parts[i].as_str());
        assert(out@ =~= join(pv.take(i + 1), sep@));
        i = i + 1;
    }
    assert(pv.take(parts.len() as int) =~= pv);
    out
}


// ---------------------------------------------------------------------
// Retrying.
/// How many times a GraphQL request is tried in all.
pub const GRAPHQL_ATTEMPTS: u32 = 4;

/// The pause in milliseconds before trying again after attempt `attempt` failed,
/// or `None` when the failure is final. HTTP 502, 503 and 429 and empty bodies
/// are retried while attempts remain, waiting 400 ms and twice as long each time.
pub open spec fn retry_wait_v(status: u16, empty: bool, attempt: u32) -> Option<u64> {
    if (status == 502 || status == 503 || status == 429 || empty) && attempt < GRAPHQL_ATTEMPTS {
        Some((400 * pow2((attempt - 1) as nat)) as u64)
    } else {
        None
    }
}

/// Whether and how long to wait before the next attempt of a GraphQL request.
pub fn retry_wait(status: u16, empty: bool, attempt: u32) -> (r: Option<u64>)
    requires
        1 <= attempt <= GRAPHQL_ATTEMPTS,
    ensures
        r == retry_wait_v(status, empty, attempt),
{
    let retryable = status == 502 || status == 503 || status == 429 || empty;
    if !(retryable && attempt < GRAPHQL_ATTEMPTS) {
        return None;
    }
    let mut wait: u64 = 400;
    let mut k: u32 = 1;
    proof {
        vstd::arithmetic::power2::lemma2_to64();
    }
    while k < attempt
        invariant
            1 <= k <= attempt < GRAPHQL_ATTEMPTS,
            wait == 400 * pow2((k - 1) as nat),
        decreases attempt - k,
    {
        proof {
            lemma_pow2_unfold((k as nat));
        }
        wait = wait * 2;
        k = k + 1;
    }
    Some(wait)
}

proof fn lemma_pow2_unfold(e: nat)
    requires
        1 <= e <= 3,
    ensures
        pow2(e) == 2 * pow2((e - 1) as nat),
        pow2((e - 1) as nat) <= 4,
{
    vstd::arithmetic::power2::lemma2_to64();
}

// ---------------------------------------------------------------------
// Response bodies.
/// The JSON value serde_json reads from `bytes`, or `None` when they are not JSON.
pub uninterp spec fn json_of_bytes(bytes: Seq<u8>) -> Option<JsonV>;

/// The text `String::from_utf8_lossy` makes of `bytes`.
pub uninterp spec fn utf8_lossy(bytes: Seq<u8>) -> Seq<char>;

#[verifier::external_type_specification]
#[verifier::external_body]
pub struct ExSerdeJsonValue(serde_json::Value);

/// Moves a `serde_json::Value` into the library's JSON type variant for variant,
/// each number as the text serde_json displays for it and each object's members
/// in the map's order. It only converts; nothing is claimed of it on its own.
#[verifier::external_body]
fn json_value_from(v: serde_json::Value) -> JsonValue {
    match v {
        serde_json::Value::Null => JsonValue::Null,
        serde_json::Value::Bool(b) => JsonValue::Bool(b),
        serde_json::Value::Number(n) => JsonValue::Number(n.to_string()),
        serde_json::Value::String(s) => JsonValue::Str(s),
        serde_json::Value::Array(items) => JsonValue::Array(items.into_iter().map(json_value_from).collect()),
        serde_json::Value::Object(map) => JsonValue::Object(map.into_iter().map(|(k, x)| (k, json_value_from(x))).collect()),
    }
}

/// `serde_json::from_slice::<serde_json::Value>`, with the value moved into the
/// library's JSON type. The contract claims only that the outcome is a function
/// of the bytes; JSON's grammar is not restated.
#[verifier::external_body]
fn parse_json_bytes(bytes: &[u8]) -> (r: Option<JsonValue>)
    ensures
        match r {
            Some(v) => json_of_bytes(bytes@) == Some(v@),
            None => json_of_bytes(bytes@) is None,
        },
{
    serde_json::from_slice::<serde_json::Value>(bytes).ok().map(json_value_from)
}

/// `String::from_utf8_lossy`, owned. The contract claims that the text is a
/// function of the bytes and, as std documents, that valid UTF-8 is decoded as
/// it is; how invalid sequences are replaced is not restated.
#[verifier::external_body]
fn lossy_text(bytes: &[u8]) -> (r: String)
    ensures
        r@ == utf8_lossy(bytes@),
        valid_utf8(bytes@) ==> r@ == decode_utf8(bytes@),
{
    String::from_utf8_lossy(bytes).into_owned()
}

pub open spec fn bad_gateway_hint() -> Seq<char> {
    "query was too heavy or GitHub timed out; retry with a smaller page"@
}

/// The error for a body that is not JSON: the status and the first 80 characters
/// of the body, with a hint when those mention a 502.
pub open spec fn non_json_err(status: u16, text: Seq<char>) -> AppErrorV {
    let prefix = if text.len() <= 80 {
        text
    } else {
        text.take(80)
    };
    AppErrorV {
        code: "github_http"@,
        message: "GitHub GraphQL HTTP "@ + decimal(status as nat) + ", non-JSON body: "@ + prefix,
        hint: if contains(prefix, "502"@) {
            Some(bad_gateway_hint())
        } else {
            None
        },
    }
}

/// The error for a GraphQL body that is not JSON, given the body as text.
pub fn non_json_error(status: u16, text: &str) -> (e: AppError)
    ensures
        e@ == non_json_err(status, text@),
{
    let cs = chars_of(text);
    let n: usize = if cs.len() <= 80 {
        cs.len()
    } else {
        80
    };
    let prefix = string_of(&cs, 0, n);
    assert(prefix@ =~= if text@.len() <= 80 {
        text@
    } else {
        text@.take(80)
    });
    let mut m = owned("GitHub GraphQL HTTP ");
    let code = u64_text(status as u64);
    push_str(&mut m, code.as_str());
    push_str(&mut m, ", non-JSON body: ");
    push_str(&mut m, prefix.as_str());
    let e = AppError::new("github_http", m);
    if str_contains(prefix.as_str(), "502") {
        e.hint(owned("query was too heavy or GitHub timed out; retry with a smaller page"))
    } else {
        e
    }
}

/// What a GraphQL response body decodes to: its JSON value, or an error for an
/// empty body or one that is not JSON.
pub open spec fn decode_body_v(status: u16, bytes: Seq<u8>) -> Result<JsonV, AppErrorV> {
    if bytes.len() == 0 {
        Err(err_v("github_http"@, "GitHub GraphQL returned empty body (HTTP "@ + decimal(status as nat) + ")"@))
    } else {
        match json_of_bytes(bytes) {
            Some(v) => Ok(v),
            None => Err(non_json_err(status, utf8_lossy(bytes))),
        }
    }
}

/// Decodes a GraphQL response body received with HTTP status `status`.
pub fn decode_graphql_body(status: u16, bytes: &[u8]) -> (r: Result<JsonValue, AppError>)
    ensures
        match r {
            Ok(v) => decode_body_v(status, bytes@) == Ok::<JsonV, AppErrorV>(v@),
            Err(e) => decode_body_v(status, bytes@) == Err::<JsonV, AppErrorV>(e@),
        },
{
    if bytes.len() == 0 {
        let mut m = owned("GitHub GraphQL returned empty body (HTTP ");
        let code = u64_text(status as u64);
        push_str(&mut m, code.as_str());
        push_str(&mut m, ")");
        return Err(AppError::new("github_http", m));
    }
    match parse_json_bytes(bytes) {
        Some(v) => Ok(v),
        None => {
            let text = lossy_text(bytes);
            Err(non_json_error(status, text.as_str()))
        },
    }
}

} // verus!
