//! What each command does with the local store, and how its results read as
//! tables. Reading files, talking to GitHub and printing belong to the program.
use vstd::prelude::*;

use crate::cli::{ListsCommand, ReposCommand};
use crate::db::{
    add_membership_v, by_text, clear_synced_v, create_list_v, delete_list_v, delete_repos_v, remove_missing_v,
    set_meta_v, upsert_repo_v, upsert_synced_list_v, dup_strings, insert_proposal_v, latest_proposal_v, proposal_id_not, listed, member_slugs, proposal_with_id,
    queried, resolve_list_v, resolve_repo_v, set_membership_v, sort_texts, update_list_v, ListRow, ListRowV,
    ProposalRow, ProposalRowV, RepoRow, RepoRowV, Store, StoreV,
};
use crate::order::{keep_where, sort_by};
use crate::output::{
    cells_of, columns, columns_text, err_v, error_with, join, kv_table, kv_text, texts_of, AppError, AppErrorV,
};
use crate::github::{RemoteList, RemoteListV};
use crate::ids::{new_plan_id, plan_id_of, texts};
use crate::proposal::{
    apply_proposal_locally, apply_proposal_v, compile_plan, compile_plan_v, dedup_texts, dedup_v, resolve_ids,
    resolve_ids_v, texts_contain, Plan, PlanV, ProposalFile, ProposalFileV,
};
use crate::text::{decimal, i64_text, int_text, owned, push_str, usize_text};
use crate::config::{source_name, AppConfig};
use crate::db::Stats;
use crate::github::GITHUB_LIST_CAP;
use crate::output::{json_member_views, JsonV, JsonValue};

verus! {

// ---------------------------------------------------------------------
// Tables.
/// A text, or `-` when there is none.
pub open spec fn or_dash(o: Option<Seq<char>>) -> Seq<char> {
    match o {
        Some(s) => s,
        None => "-"@,
    }
}

pub open spec fn bool_text(b: bool) -> Seq<char> {
    if b {
        "true"@
    } else {
        "false"@
    }
}

fn text_or_dash(o: &Option<String>) -> (r: String)
    ensures
        r@ == or_dash(o.deep_view()),
{
    match o {
        Some(s) => s.clone(),
        None => owned("-"),
    }
}

fn bool_string(b: bool) -> (r: String)
    ensures
        r@ == bool_text(b),
{
    if b {
        owned("true")
    } else {
        owned("false")
    }
}

/// The cells of a list's line in the list table.
pub open spec fn list_cells(r: ListRowV) -> Seq<Seq<char>> {
    seq![r.slug, r.name, r.status, int_text(r.repo_count as int), or_dash(r.github_id)]
}

pub open spec fn list_headers() -> Seq<Seq<char>> {
    seq!["SLUG"@, "NAME"@, "STATUS"@, "N"@, "GITHUB"@]
}

/// The lists as a table: slug, name, status, repository count and GitHub id.
pub fn list_table(rows: &[ListRow]) -> (r: String)
    ensures
        r@ == columns_text(list_headers(), rows@.map_values(|l: ListRow| list_cells(l@))),
{
    let mut headers: Vec<&str> = Vec::new();
    headers.push("SLUG");
    headers.push("NAME");
    headers.push("STATUS");
    headers.push("N");
    headers.push("GITHUB");
    let mut cells: Vec<Vec<String>> = Vec::new();
    let mut i: usize = 0;
    while i < rows.len()
        invariant
            i <= rows.len(),
            cells@.len() == i,
            forall|k: int| 0 <= k < i ==> (#[trigger] cells@[k]).deep_view() == list_cells(rows@[k]@),
        decreases rows.len() - i,
    {
        let r = &rows[i];
        let mut line: Vec<String> = Vec::new();
        line.push(r.slug.clone());
        line.push(r.name.clone());
        line.push(r.status.clone());
        line.push(i64_text(r.repo_count));
        line.push(text_or_dash(&r.github_id));
        assert(line.deep_view() =~= list_cells(r@));
        cells.push(line);
        i = i + 1;
    }
    proof {
        reveal_strlit("SLUG");
        reveal_strlit("NAME");
        reveal_strlit("STATUS");
        reveal_strlit("N");
        reveal_strlit("GITHUB");
    }
    assert(texts_of(headers@) =~= list_headers());
    assert(cells_of(cells@) =~= rows@.map_values(|l: ListRow| list_cells(l@)));
    columns(headers.as_slice(), cells.as_slice())
}

/// The key/value lines of a list's details.
pub open spec fn list_detail_rows(r: ListRowV) -> Seq<(Seq<char>, Seq<char>)> {
    seq![
        ("id"@, int_text(r.id as int)),
        ("slug"@, r.slug),
        ("name"@, r.name),
        ("status"@, r.status),
        ("private"@, bool_text(r.is_private)),
        ("repos"@, int_text(r.repo_count as int)),
        ("github"@, or_dash(r.github_id)),
        ("desc"@, or_dash(r.description)),
    ]
}

/// One list's details as key/value lines.
pub fn list_detail(row: &ListRow) -> (r: String)
    ensures
        r@ == kv_text(list_detail_rows(row@)),
{
    let mut rows: Vec<(&str, String)> = Vec::new();
    rows.push(("id", i64_text(row.id)));
    rows.push(("slug", row.slug.clone()));
    rows.push(("name", row.name.clone()));
    rows.push(("status", row.status.clone()));
    rows.push(("private", bool_string(row.is_private)));
    rows.push(("repos", i64_text(row.repo_count)));
    rows.push(("github", text_or_dash(&row.github_id)));
    rows.push(("desc", text_or_dash(&row.description)));
    proof {
        reveal_strlit("id");
        reveal_strlit("slug");
        reveal_strlit("name");
        reveal_strlit("status");
        reveal_strlit("private");
        reveal_strlit("repos");
        reveal_strlit("github");
        reveal_strlit("desc");
    }
    assert(rows@.map_values(|x: (&str, String)| (x.0@, x.1@)) =~= list_detail_rows(row@));
    kv_table(rows.as_slice())
}

/// A repository's star count, or `-`.
pub open spec fn stars_text(s: Option<i64>) -> Seq<char> {
    match s {
        Some(n) => int_text(n as int),
        None => "-"@,
    }
}

fn stars_string(s: Option<i64>) -> (r: String)
    ensures
        r@ == stars_text(s),
{
    match s {
        Some(n) => i64_text(n),
        None => owned("-"),
    }
}

/// The cells of a repository's line in the repository table.
pub open spec fn repo_cells(r: RepoRowV) -> Seq<Seq<char>> {
    seq![
        r.name_with_owner,
        or_dash(r.primary_language),
        stars_text(r.stars),
        if r.lists.len() == 0 {
            "-"@
        } else {
            join(r.lists, ","@)
        },
    ]
}

pub open spec fn repo_headers() -> Seq<Seq<char>> {
    seq!["REPO"@, "LANG"@, "STARS"@, "LISTS"@]
}

/// The repositories as a table: name, language, stars and lists.
pub fn repo_table(rows: &[RepoRow]) -> (r: String)
    ensures
        r@ == columns_text(repo_headers(), rows@.map_values(|x: RepoRow| repo_cells(x@))),
{
    let mut headers: Vec<&str> = Vec::new();
    headers.push("REPO");
    headers.push("LANG");
    headers.push("STARS");
    headers.push("LISTS");
    let mut cells: Vec<Vec<String>> = Vec::new();
    let mut i: usize = 0;
    while i < rows.len()
        invariant
            i <= rows.len(),
            cells@.len() == i,
            forall|k: int| 0 <= k < i ==> (#[trigger] cells@[k]).deep_view() == repo_cells(rows@[k]@),
        decreases rows.len() - i,
    {
        let r = &rows[i];
        let mut line: Vec<String> = Vec::new();
        line.push(r.name_with_owner.clone());
        line.push(text_or_dash(&r.primary_language));
        line.push(stars_string(r.stars));
        line.push(
            if r.lists.len() == 0 {
                owned("-")
            } else {
                crate::github::join_texts(&r.lists, ",")
            },
        );
        assert(line.deep_view() =~= repo_cells(r@));
        cells.push(line);
        i = i + 1;
    }
    proof {
        reveal_strlit("REPO");
        reveal_strlit("LANG");
        reveal_strlit("STARS");
        reveal_strlit("LISTS");
    }
    assert(texts_of(headers@) =~= repo_headers());
    assert(cells_of(cells@) =~= rows@.map_values(|x: RepoRow| repo_cells(x@)));
    columns(headers.as_slice(), cells.as_slice())
}

/// The key/value lines of a repository's details.
pub open spec fn repo_detail_rows(r: RepoRowV) -> Seq<(Seq<char>, Seq<char>)> {
    seq![
        ("repo"@, r.name_with_owner),
        ("url"@, r.url),
        ("lang"@, or_dash(r.primary_language)),
        ("stars"@, stars_text(r.stars)),
        ("lists"@, join(r.lists, ", "@)),
        ("desc"@, or_dash(r.description)),
        ("topics"@, join(r.topics, ", "@)),
    ]
}

/// One repository's details as key/value lines.
pub fn repo_detail(row: &RepoRow) -> (r: String)
    ensures
        r@ == kv_text(repo_detail_rows(row@)),
{
    let mut rows: Vec<(&str, String)> = Vec::new();
    rows.push(("repo", row.name_with_owner.clone()));
    rows.push(("url", row.url.clone()));
    rows.push(("lang", text_or_dash(&row.primary_language)));
    rows.push(("stars", stars_string(row.stars)));
    rows.push(("lists", crate::github::join_texts(&row.lists, ", ")));
    rows.push(("desc", text_or_dash(&row.description)));
    rows.push(("topics", crate::github::join_texts(&row.topics, ", ")));
    proof {
        reveal_strlit("repo");
        reveal_strlit("url");
        reveal_strlit("lang");
        reveal_strlit("stars");
        reveal_strlit("lists");
        reveal_strlit("desc");
        reveal_strlit("topics");
    }
    assert(rows@.map_values(|x: (&str, String)| (x.0@, x.1@)) =~= repo_detail_rows(row@));
    kv_table(rows.as_slice())
}

/// A plan's summary: its id, the GitHub list count now and after, the cap, the
/// number of list operations and memberships, and a line per warning.
pub open spec fn plan_text(id: Seq<char>, p: PlanV) -> Seq<char> {
    "plan      "@ + id + "\nremote    "@ + decimal(p.current_remote) + " -> "@ + decimal(p.after_apply) + " / "@
        + decimal(p.max) + "\nops       "@ + decimal(p.list_ops.len()) + "\nmembers   "@ + decimal(
        p.memberships.len(),
    ) + "\n"@ + warning_lines(p.warnings)
}

pub open spec fn warning_lines(ws: Seq<Seq<char>>) -> Seq<char>
    decreases ws.len(),
{
    if ws.len() == 0 {
        seq![]
    } else {
        warning_lines(ws.drop_last()) + "warning   "@ + ws.last() + "\n"@
    }
}

/// A plan's summary as text.
pub fn plan_table(id: &str, plan: &Plan) -> (r: String)
    ensures
        r@ == plan_text(id@, plan@),
{
    let mut out = owned("plan      ");
    push_str(&mut out, id);
    push_str(&mut out, "\nremote    ");
    push_str(&mut out, usize_text(plan.list_cap.current_remote).as_str());
    push_str(&mut out, " -> ");
    push_str(&mut out, usize_text(plan.list_cap.after_apply).as_str());
    push_str(&mut out, " / ");
    push_str(&mut out, usize_text(plan.list_cap.max).as_str());
    push_str(&mut out, "\nops       ");
    push_str(&mut out, usize_text(plan.list_ops.len()).as_str());
    push_str(&mut out, "\nmembers   ");
    push_str(&mut out, usize_text(plan.memberships.len()).as_str());
    push_str(&mut out, "\n");
    let ghost head = out@;
    let ghost wv = plan.warnings.deep_view();
    let mut i: usize = 0;
    assert(wv.take(0).len() == 0);
    assert(out@ =~= head + warning_lines(wv.take(0)));
    while i < plan.warnings.len()
        invariant
            wv == plan.warnings.deep_view(),
            i <= plan.warnings.len(),
            out@ == head + warning_lines(wv.take(i as int)),
        decreases plan.warnings.len() - i,
    {
        assert(wv.take(i + 1).drop_last() =~= wv.take(i as int));
        assert(wv.take(i + 1).last() == wv[i as int]);
        push_str(&mut out, "warning   ");
        push_str(&mut out, plan.warnings[i].as_str());
        push_str(&mut out, "\n");
        assert(out@ =~= head + warning_lines(wv.take(i + 1)));
        i = i + 1;
    }
    assert(wv.take(plan.warnings.len() as int) =~= wv);
    assert(plan@.list_ops.len() == plan.list_ops@.len());
    assert(plan@.memberships.len() == plan.memberships@.len());
    assert(out@ =~= plan_text(id@, plan@));
    out
}


// ---------------------------------------------------------------------
// Local commands.
/// What a `lists` command gives back.
#[derive(Debug)]
pub enum ListsOutcome {
    Rows(Vec<ListRow>),
    Row(ListRow),
    Shown(ListRow, Vec<RepoRow>),
}

pub enum ListsOutcomeV {
    Rows(Seq<ListRowV>),
    Row(ListRowV),
    Shown(ListRowV, Seq<RepoRowV>),
}

impl View for ListsOutcome {
    type V = ListsOutcomeV;

    open spec fn view(&self) -> ListsOutcomeV {
        match self {
            ListsOutcome::Rows(rs) => ListsOutcomeV::Rows(rs@.map_values(|l: ListRow| l@)),
            ListsOutcome::Row(r) => ListsOutcomeV::Row(r@),
            ListsOutcome::Shown(r, repos) => ListsOutcomeV::Shown(r@, repos@.map_values(|x: RepoRow| x@)),
        }
    }
}

/// A store operation's outcome with its row as a `lists` outcome.
pub open spec fn as_row(o: (StoreV, Result<ListRowV, AppErrorV>)) -> (StoreV, Result<ListsOutcomeV, AppErrorV>) {
    match o.1 {
        Ok(r) => (o.0, Ok(ListsOutcomeV::Row(r))),
        Err(e) => (o.0, Err(e)),
    }
}

/// What a `lists` command does to the store and gives back.
pub open spec fn lists_v(s: StoreV, cmd: ListsCommand, now: Seq<char>) -> (StoreV, Result<ListsOutcomeV, AppErrorV>) {
    match cmd {
        ListsCommand::List { all } => (s, Ok(ListsOutcomeV::Rows(listed(s, all)))),
        ListsCommand::Resolve { name } => as_row((s, resolve_list_v(s, name@))),
        ListsCommand::Show { id, limit } => match resolve_list_v(s, id@) {
            Ok(l) => (s, Ok(ListsOutcomeV::Shown(l, queried(s, Some(l.id), false, None, limit as nat)))),
            Err(e) => (s, Err(e)),
        },
        ListsCommand::Create { name, desc, slug, public } => as_row(
            create_list_v(s, name@, slug.deep_view(), desc.deep_view(), !public, now),
        ),
        ListsCommand::Rename { id, name } => as_row(update_list_v(s, id@, Some(name@), None, None, now)),
        ListsCommand::Update { id, desc, public } => as_row(
            update_list_v(
                s,
                id@,
                None,
                match desc {
                    Some(d) => Some(Some(d@)),
                    None => None,
                },
                match public {
                    Some(p) => Some(!p),
                    None => None,
                },
                now,
            ),
        ),
        ListsCommand::Delete { id } => as_row(delete_list_v(s, id@, now)),
    }
}

fn opt_str(o: &Option<String>) -> (r: Option<&str>)
    ensures
        match r {
            Some(x) => Some(x@),
            None => None,
        } == o.deep_view(),
{
    match o {
        Some(x) => Some(x.as_str()),
        None => None,
    }
}

/// Runs a `lists` command on the store.
pub fn lists(store: &mut Store, cmd: ListsCommand, now: &str) -> (r: Result<ListsOutcome, AppError>)
    requires
        old(store).wf(),
    ensures
        final(store).wf(),
        (final(store)@, match r {
            Ok(o) => Ok::<ListsOutcomeV, AppErrorV>(o@),
            Err(e) => Err(e@),
        }) == lists_v(old(store)@, cmd, now@),
{
    match cmd {
        ListsCommand::List { all } => Ok(ListsOutcome::Rows(store.list_lists(all))),
        ListsCommand::Resolve { name } => match store.resolve_list(name.as_str()) {
            Ok(r) => Ok(ListsOutcome::Row(r)),
            Err(e) => Err(e),
        },
        ListsCommand::Show { id, limit } => match store.resolve_list(id.as_str()) {
            Ok(row) => {
                let repos = store.query_repos(Some(&row), false, None, limit);
                Ok(ListsOutcome::Shown(row, repos))
            },
            Err(e) => Err(e),
        },
        ListsCommand::Create { name, desc, slug, public } => match store.create_list(
            name.as_str(),
            opt_str(&slug),
            opt_str(&desc),
            !public,
            now,
        ) {
            Ok(r) => Ok(ListsOutcome::Row(r)),
            Err(e) => Err(e),
        },
        ListsCommand::Rename { id, name } => match store.update_list(id.as_str(), Some(name.as_str()), None, None, now) {
            Ok(r) => Ok(ListsOutcome::Row(r)),
            Err(e) => Err(e),
        },
        ListsCommand::Update { id, desc, public } => {
            let d: Option<Option<&str>> = match &desc {
                Some(x) => Some(Some(x.as_str())),
                None => None,
            };
            let p: Option<bool> = match public {
                Some(b) => Some(!b),
                None => None,
            };
            match store.update_list(id.as_str(), None, d, p, now) {
                Ok(r) => Ok(ListsOutcome::Row(r)),
                Err(e) => Err(e),
            }
        },
        ListsCommand::Delete { id } => match store.delete_list(id.as_str(), now) {
            Ok(r) => Ok(ListsOutcome::Row(r)),
            Err(e) => Err(e),
        },
    }
}

/// What a `repos` command gives back.
#[derive(Debug)]
pub enum ReposOutcome {
    Rows(Vec<RepoRow>),
    Row(RepoRow),
}

pub enum ReposOutcomeV {
    Rows(Seq<RepoRowV>),
    Row(RepoRowV),
}

impl View for ReposOutcome {
    type V = ReposOutcomeV;

    open spec fn view(&self) -> ReposOutcomeV {
        match self {
            ReposOutcome::Rows(rs) => ReposOutcomeV::Rows(rs@.map_values(|x: RepoRow| x@)),
            ReposOutcome::Row(r) => ReposOutcomeV::Row(r@),
        }
    }
}

/// What a `repos` command gives back.
pub open spec fn repos_v(s: StoreV, cmd: ReposCommand) -> Result<ReposOutcomeV, AppErrorV> {
    match cmd {
        ReposCommand::List { list, unlisted, limit, query } => match list {
            Some(spec) => match resolve_list_v(s, spec@) {
                Ok(l) => Ok(ReposOutcomeV::Rows(queried(s, Some(l.id), unlisted, query.deep_view(), limit as nat))),
                Err(e) => Err(e),
            },
            None => Ok(ReposOutcomeV::Rows(queried(s, None, unlisted, query.deep_view(), limit as nat))),
        },
        ReposCommand::Show { id } => match resolve_repo_v(s, id@) {
            Ok(r) => Ok(ReposOutcomeV::Row(r)),
            Err(e) => Err(e),
        },
    }
}

/// Runs a `repos` command: the repositories in a list (or in none), matching a
/// query, newest star first; or one repository.
pub fn repos(store: &Store, cmd: ReposCommand) -> (r: Result<ReposOutcome, AppError>)
    requires
        store.wf(),
    ensures
        match r {
            Ok(o) => repos_v(store@, cmd) == Ok::<ReposOutcomeV, AppErrorV>(o@),
            Err(e) => repos_v(store@, cmd) == Err::<ReposOutcomeV, AppErrorV>(e@),
        },
{
    match cmd {
        ReposCommand::List { list, unlisted, limit, query } => {
            let row = match &list {
                Some(spec) => match store.resolve_list(spec.as_str()) {
                    Ok(l) => Some(l),
                    Err(e) => return Err(e),
                },
                None => None,
            };
            let l: Option<&ListRow> = match &row {
                Some(x) => Some(x),
                None => None,
            };
            Ok(ReposOutcome::Rows(store.query_repos(l, unlisted, opt_str(&query), limit)))
        },
        ReposCommand::Show { id } => match store.resolve_repo(id.as_str()) {
            Ok(r) => Ok(ReposOutcome::Row(r)),
            Err(e) => Err(e),
        },
    }
}

/// The slugs of the lists `specs` name, or the first that does not resolve.
pub open spec fn resolve_slugs_v(s: StoreV, specs: Seq<Seq<char>>) -> Result<Seq<Seq<char>>, AppErrorV>
    decreases specs.len(),
{
    if specs.len() == 0 {
        Ok(seq![])
    } else {
        match resolve_slugs_v(s, specs.drop_last()) {
            Err(e) => Err(e),
            Ok(slugs) => match resolve_list_v(s, specs.last()) {
                Err(e) => Err(e),
                Ok(l) => Ok(slugs.push(l.slug)),
            },
        }
    }
}

pub open spec fn not_among(xs: Seq<Seq<char>>) -> spec_fn(Seq<char>) -> bool {
    |x: Seq<char>| !xs.contains(x)
}

/// The lists `assign` sets: `set` when given, else the current lists with the
/// added ones and without the removed ones, sorted and without repeats.
pub open spec fn assign_target(
    s: StoreV,
    repo_id: i64,
    add: Seq<Seq<char>>,
    remove: Seq<Seq<char>>,
    set: Seq<Seq<char>>,
) -> Result<Seq<Seq<char>>, AppErrorV> {
    if set.len() > 0 {
        Ok(set)
    } else {
        match resolve_slugs_v(s, add) {
            Err(e) => Err(e),
            Ok(added) => match resolve_slugs_v(s, remove) {
                Err(e) => Err(e),
                Ok(removed) => Ok(
                    dedup_v(sort_by(keep_where(member_slugs(s, repo_id) + added, not_among(removed)), by_text())),
                ),
            },
        }
    }
}

/// What `assign` does to the store and gives back.
pub open spec fn assign_v(
    s: StoreV,
    repo: Seq<char>,
    add: Seq<Seq<char>>,
    remove: Seq<Seq<char>>,
    set: Seq<Seq<char>>,
) -> (StoreV, Result<RepoRowV, AppErrorV>) {
    match resolve_repo_v(s, repo) {
        Err(e) => (s, Err(e)),
        Ok(r) => match assign_target(s, r.id, add, remove, set) {
            Err(e) => (s, Err(e)),
            Ok(next) => match resolve_ids_v(s, next) {
                Err(e) => (s, Err(e)),
                Ok(ids) => {
                    let o = set_membership_v(s, r.id, ids, "local"@);
                    match o.1 {
                        Err(e) => (o.0, Err(e)),
                        Ok(_) => (o.0, resolve_repo_v(o.0, r.name_with_owner)),
                    }
                },
            },
        },
    }
}

fn resolve_slugs(store: &Store, specs: &Vec<String>) -> (r: Result<Vec<String>, AppError>)
    requires
        store.wf(),
    ensures
        match r {
            Ok(v) => resolve_slugs_v(store@, specs.deep_view()) == Ok::<Seq<Seq<char>>, AppErrorV>(v.deep_view()),
            Err(e) => resolve_slugs_v(store@, specs.deep_view()) == Err::<Seq<Seq<char>>, AppErrorV>(e@),
        },
{
    let ghost sv = specs.deep_view();
    let mut out: Vec<String> = Vec::new();
    let mut i: usize = 0;
    assert(sv.take(0).len() == 0);
    assert(out.deep_view() =~= Seq::<Seq<char>>::empty());
    while i < specs.len()
        invariant
            store.wf(),
            sv == specs.deep_view(),
            i <= specs.len(),
            resolve_slugs_v(store@, sv.take(i as int)) == Ok::<Seq<Seq<char>>, AppErrorV>(out.deep_view()),
        decreases specs.len() - i,
    {
        assert(sv.take(i + 1).drop_last() =~= sv.take(i as int));
        assert(sv.take(i + 1).last() == sv[i as int]);
        match store.resolve_list(specs[i].as_str()) {
            Ok(l) => {
                let ghost ov = out.deep_view();
                let ghost lv = l.slug@;
                out.push(l.slug);
                assert(out.deep_view() =~= ov.push(lv));
            },
            Err(e) => {
                proof {
                    lemma_slugs_err_stops(store@, sv, i as int + 1);
                }
                return Err(e);
            },
        }
        i = i + 1;
    }
    assert(sv.take(specs.len() as int) =~= sv);
    Ok(out)
}

proof fn lemma_slugs_err_stops(s: StoreV, specs: Seq<Seq<char>>, k: int)
    requires
        0 <= k <= specs.len(),
        resolve_slugs_v(s, specs.take(k)) is Err,
    ensures
        resolve_slugs_v(s, specs) == resolve_slugs_v(s, specs.take(k)),
    decreases specs.len() - k,
{
    if k < specs.len() {
        assert(specs.take(k + 1).drop_last() =~= specs.take(k));
        lemma_slugs_err_stops(s, specs, k + 1);
    } else {
        assert(specs.take(k) =~= specs);
    }
}

/// The texts of `v` that are not among `xs`.
fn keep_not_among(v: &Vec<String>, xs: &Vec<String>) -> (r: Vec<String>)
    ensures
        r.deep_view() == keep_where(v.deep_view(), not_among(xs.deep_view())),
{
    let ghost vv = v.deep_view();
    let mut out: Vec<String> = Vec::new();
    let mut i: usize = 0;
    assert(out.deep_view() =~= keep_where(vv.take(0), not_among(xs.deep_view())));
    while i < v.len()
        invariant
            vv == v.deep_view(),
            i <= v.len(),
            out.deep_view() == keep_where(vv.take(i as int), not_among(xs.deep_view())),
        decreases v.len() - i,
    {
        assert(vv.take(i + 1).drop_last() =~= vv.take(i as int));
        assert(vv.take(i + 1).last() == vv[i as int]);
        if !texts_contain(xs, v[i].as_str()) {
            let ghost ov = out.deep_view();
            out.push(v[i].clone());
            assert(out.deep_view() =~= ov.push(vv[i as int]));
        }
        i = i + 1;
    }
    assert(vv.take(v.len() as int) =~= vv);
    out
}

/// Changes a repository's local lists: replaces them by `set` when it is given,
/// else adds the lists `add` names and drops those `remove` names. GitHub is not
/// written; the repository is read back.
pub fn assign(store: &mut Store, repo: &str, add: &Vec<String>, remove: &Vec<String>, set: &Vec<String>) -> (r: Result<
    RepoRow,
    AppError,
>)
    requires
        old(store).wf(),
    ensures
        final(store).wf(),
        (final(store)@, match r {
            Ok(row) => Ok::<RepoRowV, AppErrorV>(row@),
            Err(e) => Err(e@),
        }) == assign_v(old(store)@, repo@, add.deep_view(), remove.deep_view(), set.deep_view()),
{
    let row = match store.resolve_repo(repo) {
        Ok(r) => r,
        Err(e) => return Err(e),
    };
    let next: Vec<String> = if set.len() > 0 {
        dup_strings(set)
    } else {
        let current = store.membership_slugs(row.id);
        let added = match resolve_slugs(store, add) {
            Ok(a) => a,
            Err(e) => return Err(e),
        };
        let removed = match resolve_slugs(store, remove) {
            Ok(x) => x,
            Err(e) => return Err(e),
        };
        let mut all = current;
        let ghost cv = all.deep_view();
        let ghost av = added.deep_view();
        let mut extra = added;
        all.append(&mut extra);
        assert(all.deep_view() =~= cv + av);
        let kept = keep_not_among(&all, &removed);
        let sorted = sort_texts(&kept);
        dedup_texts(&sorted)
    };
    let ids = match resolve_ids(store, &next) {
        Ok(ids) => ids,
        Err(e) => return Err(e),
    };
    match store.set_membership(row.id, ids.as_slice(), "local") {
        Ok(_) => {},
        Err(e) => return Err(e),
    }
    store.resolve_repo(row.name_with_owner.as_str())
}

/// The proposal a command names, or the one imported last.
pub open spec fn load_proposal_v(s: StoreV, id: Option<Seq<char>>) -> Result<ProposalRowV, AppErrorV> {
    match id {
        Some(i) => match proposal_with_id(s, i) {
            Some(p) => Ok(p),
            None => Err(err_v("not_found"@, "proposal not found: "@ + i)),
        },
        None => match latest_proposal_v(s) {
            Some(p) => Ok(p),
            None => Err(err_v("not_found"@, "no proposal imported yet"@)),
        },
    }
}

/// Finds the proposal `id`, or the one imported last.
pub fn load_proposal(store: &Store, id: Option<&str>) -> (r: Result<ProposalRow, AppError>)
    requires
        store.wf(),
    ensures
        match r {
            Ok(p) => load_proposal_v(
                store@,
                match id {
                    Some(x) => Some(x@),
                    None => None,
                },
            ) == Ok::<ProposalRowV, AppErrorV>(p@),
            Err(e) => load_proposal_v(
                store@,
                match id {
                    Some(x) => Some(x@),
                    None => None,
                },
            ) == Err::<ProposalRowV, AppErrorV>(e@),
        },
{
    match id {
        Some(i) => match store.get_proposal(i) {
            Some(p) => Ok(p),
            None => Err(error_with("not_found", "proposal not found: ", i)),
        },
        None => match store.latest_proposal() {
            Some(p) => Ok(p),
            None => Err(AppError::new("not_found", owned("no proposal imported yet"))),
        },
    }
}


/// What importing a proposal gives back: its id, the local changes and the plan.
#[derive(Debug)]
pub struct Imported {
    pub id: String,
    pub local_changes: Vec<String>,
    pub plan: Plan,
}

/// The id a proposal is stored under: its own, else one made from the time.
pub open spec fn import_id(p: ProposalFileV, now: Seq<char>) -> Seq<char> {
    match p.id {
        Some(i) => i,
        None => plan_id_of(now),
    }
}

pub open spec fn exists_err(id: Seq<char>) -> AppErrorV {
    AppErrorV {
        code: "conflict"@,
        message: "proposal "@ + id + " already exists"@,
        hint: Some("pass --replace"@),
    }
}

/// Storing an imported proposal: a new id is inserted; an existing one is
/// replaced only when asked to.
pub open spec fn store_import_v(
    s: StoreV,
    id: Seq<char>,
    notes: Option<Seq<char>>,
    raw: Seq<char>,
    path: Seq<char>,
    replace: bool,
    now: Seq<char>,
) -> (StoreV, Result<(), AppErrorV>) {
    if proposal_with_id(s, id) is Some {
        if replace {
            insert_proposal_v(
                StoreV { proposals: keep_where(s.proposals, proposal_id_not(id)), ..s },
                id,
                notes,
                Some(path),
                raw,
                now,
            )
        } else {
            (s, Err(exists_err(id)))
        }
    } else {
        insert_proposal_v(s, id, notes, Some(path), raw, now)
    }
}

/// What `propose import` does to the store and gives back, once the file is read
/// and parsed: the proposal is stored, compiled into a plan against the store
/// as it then is, and applied to the local lists.
pub open spec fn import_v(
    s: StoreV,
    p: ProposalFileV,
    raw: Seq<char>,
    path: Seq<char>,
    replace: bool,
    now: Seq<char>,
) -> (StoreV, Result<(Seq<char>, Seq<Seq<char>>, PlanV), AppErrorV>) {
    let id = import_id(p, now);
    let stored = store_import_v(s, id, p.notes, raw, path, replace, now);
    match stored.1 {
        Err(e) => (stored.0, Err(e)),
        Ok(_) => match compile_plan_v(stored.0, id, p) {
            Err(e) => (stored.0, Err(e)),
            Ok(plan) => {
                let applied = apply_proposal_v(stored.0, p, now);
                match applied.1 {
                    Err(e) => (applied.0, Err(e)),
                    Ok(log) => (applied.0, Ok((id, log, plan))),
                }
            },
        },
    }
}

/// Imports a parsed proposal read from `path` (whose text is `raw`).
pub fn import_proposal(
    store: &mut Store,
    parsed: &ProposalFile,
    raw: &str,
    path: &str,
    replace: bool,
    now: &str,
) -> (r: Result<Imported, AppError>)
    requires
        old(store).wf(),
    ensures
        final(store).wf(),
        (final(store)@, match r {
            Ok(i) => Ok::<(Seq<char>, Seq<Seq<char>>, PlanV), AppErrorV>((i.id@, i.local_changes.deep_view(), i.plan@)),
            Err(e) => Err(e@),
        }) == import_v(old(store)@, parsed@, raw@, path@, replace, now@),
{
    let id = match &parsed.id {
        Some(i) => i.clone(),
        None => new_plan_id(now),
    };
    let notes = opt_str(&parsed.notes);
    if store.get_proposal(id.as_str()).is_some() {
        if replace {
            match store.replace_proposal(id.as_str(), notes, Some(path), raw, now) {
                Ok(_) => {},
                Err(e) => return Err(e),
            }
        } else {
            let mut m = owned("proposal ");
            push_str(&mut m, id.as_str());
            push_str(&mut m, " already exists");
            return Err(AppError::new("conflict", m).hint(owned("pass --replace")));
        }
    } else {
        match store.insert_proposal(id.as_str(), notes, Some(path), raw, now) {
            Ok(_) => {},
            Err(e) => return Err(e),
        }
    }
    let plan = match compile_plan(store, id.as_str(), parsed) {
        Ok(p) => p,
        Err(e) => return Err(e),
    };
    let local_changes = match apply_proposal_locally(store, parsed, now) {
        Ok(l) => l,
        Err(e) => return Err(e),
    };
    Ok(Imported { id, local_changes, plan })
}


// ---------------------------------------------------------------------
// Snapshots.
/// Running `step` on each of `xs` in turn, stopping at the first error.
pub open spec fn store_steps<A>(
    s: StoreV,
    xs: Seq<A>,
    step: spec_fn(StoreV, A) -> (StoreV, Result<(), AppErrorV>),
) -> (StoreV, Result<(), AppErrorV>)
    decreases xs.len(),
{
    if xs.len() == 0 {
        (s, Ok(()))
    } else {
        let prev = store_steps(s, xs.drop_last(), step);
        match prev.1 {
            Err(e) => (prev.0, Err(e)),
            Ok(_) => step(prev.0, xs.last()),
        }
    }
}

proof fn lemma_store_steps_stops<A>(
    s: StoreV,
    xs: Seq<A>,
    step: spec_fn(StoreV, A) -> (StoreV, Result<(), AppErrorV>),
    k: int,
)
    requires
        0 <= k <= xs.len(),
        store_steps(s, xs.take(k), step).1 is Err,
    ensures
        store_steps(s, xs, step) == store_steps(s, xs.take(k), step),
    decreases xs.len() - k,
{
    if k < xs.len() {
        assert(xs.take(k + 1).drop_last() =~= xs.take(k));
        lemma_store_steps_stops(s, xs, step, k + 1);
    } else {
        assert(xs.take(k) =~= xs);
    }
}

proof fn lemma_store_steps_next<A>(
    s: StoreV,
    xs: Seq<A>,
    step: spec_fn(StoreV, A) -> (StoreV, Result<(), AppErrorV>),
    i: int,
)
    requires
        0 <= i < xs.len(),
    ensures
        store_steps(s, xs.take(i + 1), step) == (match store_steps(s, xs.take(i), step).1 {
            Err(e) => (store_steps(s, xs.take(i), step).0, Err(e)),
            Ok(_) => step(store_steps(s, xs.take(i), step).0, xs[i]),
        }),
{
    assert(xs.take(i + 1).drop_last() =~= xs.take(i));
    assert(xs.take(i + 1).last() == xs[i]);
}

pub open spec fn upsert_step(now: Seq<char>) -> spec_fn(StoreV, RepoRowV) -> (StoreV, Result<(), AppErrorV>) {
    |s: StoreV, r: RepoRowV| upsert_repo_v(s, r, now)
}

pub open spec fn member_step(list_id: i64) -> spec_fn(StoreV, RepoRowV) -> (StoreV, Result<(), AppErrorV>) {
    |s: StoreV, r: RepoRowV| add_membership_v(s, r.id, list_id, "snapshot"@)
}

/// One list read from GitHub: its repositories are stored, the list is linked or
/// made, and the repositories join it.
pub open spec fn sync_list_v(s: StoreV, l: RemoteListV, now: Seq<char>) -> (StoreV, Result<(), AppErrorV>) {
    let up = store_steps(s, l.repos, upsert_step(now));
    match up.1 {
        Err(e) => (up.0, Err(e)),
        Ok(_) => {
            let linked = upsert_synced_list_v(up.0, l.github_id, l.name, l.description, l.is_private, l.slug, now);
            match linked.1 {
                Err(e) => (linked.0, Err(e)),
                Ok(id) => store_steps(linked.0, l.repos, member_step(id)),
            }
        },
    }
}

pub open spec fn sync_step(now: Seq<char>) -> spec_fn(StoreV, RemoteListV) -> (StoreV, Result<(), AppErrorV>) {
    |s: StoreV, l: RemoteListV| sync_list_v(s, l, now)
}

/// What saving the starred repositories does, all or nothing: each is stored,
/// those no longer starred go, and the snapshot time and login are recorded.
/// Gives the number of repositories that went.
pub open spec fn save_starred_v(s: StoreV, starred: Seq<RepoRowV>, login: Seq<char>, now: Seq<char>) -> (
    StoreV,
    Result<nat, AppErrorV>,
) {
    let up = store_steps(s, starred, upsert_step(now));
    match up.1 {
        Err(e) => (s, Err(e)),
        Ok(_) => {
            let gone = delete_repos_v(up.0, starred.map_values(|r: RepoRowV| r.id));
            (set_meta_v(set_meta_v(gone.0, "last_snapshot_at"@, now), "github_login"@, login), Ok(gone.1))
        },
    }
}

/// What saving the lists read from GitHub does, all or nothing: synced lists gone
/// from GitHub go, synced memberships are cleared, and each list is synced.
pub open spec fn save_lists_v(s: StoreV, lists: Seq<RemoteListV>, now: Seq<char>) -> (StoreV, Result<(), AppErrorV>) {
    let pruned = remove_missing_v(s, lists.map_values(|l: RemoteListV| l.github_id)).0;
    let synced = store_steps(clear_synced_v(pruned), lists, sync_step(now));
    match synced.1 {
        Err(e) => (s, Err(e)),
        Ok(_) => (synced.0, Ok(())),
    }
}

fn upsert_all(store: &mut Store, repos: &Vec<RepoRow>, now: &str) -> (r: Result<(), AppError>)
    requires
        old(store).wf(),
    ensures
        final(store).wf(),
        (final(store)@, match r {
            Ok(_) => Ok::<(), AppErrorV>(()),
            Err(e) => Err(e@),
        }) == store_steps(old(store)@, repos@.map_values(|x: RepoRow| x@), upsert_step(now@)),
{
    let ghost s0 = store@;
    let ghost rv = repos@.map_values(|x: RepoRow| x@);
    let mut i: usize = 0;
    assert(rv.take(0).len() == 0);
    while i < repos.len()
        invariant
            store.wf(),
            s0 == old(store)@,
            rv == repos@.map_values(|x: RepoRow| x@),
            i <= repos.len(),
            store_steps(s0, rv.take(i as int), upsert_step(now@)) == (store@, Ok::<(), AppErrorV>(())),
        decreases repos.len() - i,
    {
        proof {
            lemma_store_steps_next(s0, rv, upsert_step(now@), i as int);
        }
        match store.upsert_repo(&repos[i], now) {
            Ok(_) => {},
            Err(e) => {
                proof {
                    lemma_store_steps_stops(s0, rv, upsert_step(now@), i as int + 1);
                }
                return Err(e);
            },
        }
        i = i + 1;
    }
    assert(rv.take(repos.len() as int) =~= rv);
    Ok(())
}

fn add_all_to(store: &mut Store, repos: &Vec<RepoRow>, list_id: i64) -> (r: Result<(), AppError>)
    requires
        old(store).wf(),
    ensures
        final(store).wf(),
        (final(store)@, match r {
            Ok(_) => Ok::<(), AppErrorV>(()),
            Err(e) => Err(e@),
        }) == store_steps(old(store)@, repos@.map_values(|x: RepoRow| x@), member_step(list_id)),
{
    let ghost s0 = store@;
    let ghost rv = repos@.map_values(|x: RepoRow| x@);
    let mut i: usize = 0;
    assert(rv.take(0).len() == 0);
    while i < repos.len()
        invariant
            store.wf(),
            s0 == old(store)@,
            rv == repos@.map_values(|x: RepoRow| x@),
            i <= repos.len(),
            store_steps(s0, rv.take(i as int), member_step(list_id)) == (store@, Ok::<(), AppErrorV>(())),
        decreases repos.len() - i,
    {
        proof {
            lemma_store_steps_next(s0, rv, member_step(list_id), i as int);
        }
        assert(repos@[i as int]@ == rv[i as int]);
        match store.add_membership(repos[i].id, list_id, "snapshot") {
            Ok(_) => {},
            Err(e) => {
                proof {
                    lemma_store_steps_stops(s0, rv, member_step(list_id), i as int + 1);
                }
                return Err(e);
            },
        }
        i = i + 1;
    }
    assert(rv.take(repos.len() as int) =~= rv);
    Ok(())
}

/// Saves the starred repositories a snapshot read, as one transaction: on an
/// error the store is left as it was. Returns how many repositories went
/// because they are no longer starred.
pub fn save_starred(store: &mut Store, starred: &Vec<RepoRow>, login: &str, now: &str) -> (r: Result<usize, AppError>)
    requires
        old(store).wf(),
    ensures
        final(store).wf(),
        (final(store)@, match r {
            Ok(n) => Ok::<nat, AppErrorV>(n as nat),
            Err(e) => Err(e@),
        }) == save_starred_v(old(store)@, starred@.map_values(|x: RepoRow| x@), login@, now@),
{
    let backup = store.dup();
    match upsert_all(store, starred, now) {
        Ok(_) => {},
        Err(e) => {
            *store = backup;
            return Err(e);
        },
    }
    let mut ids: Vec<i64> = Vec::new();
    let mut i: usize = 0;
    while i < starred.len()
        invariant
            i <= starred.len(),
            ids@.len() == i,
            forall|k: int| 0 <= k < i ==> #[trigger] ids@[k] == starred@[k].id,
        decreases starred.len() - i,
    {
        ids.push(starred[i].id);
        i = i + 1;
    }
    assert(ids@ =~= starred@.map_values(|x: RepoRow| x@).map_values(|r: RepoRowV| r.id));
    let removed = store.delete_repos_not_in(ids.as_slice());
    store.set_meta("last_snapshot_at", now);
    store.set_meta("github_login", login);
    Ok(removed)
}

/// Saves the lists a snapshot read from GitHub, as one transaction: on an error
/// the store is left as it was.
pub fn save_lists(store: &mut Store, lists: &Vec<RemoteList>, now: &str) -> (r: Result<(), AppError>)
    requires
        old(store).wf(),
    ensures
        final(store).wf(),
        (final(store)@, match r {
            Ok(_) => Ok::<(), AppErrorV>(()),
            Err(e) => Err(e@),
        }) == save_lists_v(old(store)@, lists@.map_values(|l: RemoteList| l@), now@),
{
    let backup = store.dup();
    let ghost lv = lists@.map_values(|l: RemoteList| l@);
    let mut remote_ids: Vec<String> = Vec::new();
    let mut i: usize = 0;
    while i < lists.len()
        invariant
            i <= lists.len(),
            remote_ids@.len() == i,
            forall|k: int| 0 <= k < i ==> #[trigger] remote_ids@[k]@ == lists@[k].github_id@,
        decreases lists.len() - i,
    {
        remote_ids.push(lists[i].github_id.clone());
        i = i + 1;
    }
    assert(texts(remote_ids@) =~= lv.map_values(|l: RemoteListV| l.github_id));
    store.remove_remote_synced_lists_missing(remote_ids.as_slice());
    store.clear_synced_memberships();
    let ghost s0 = store@;
    let mut j: usize = 0;
    assert(lv.take(0).len() == 0);
    while j < lists.len()
        invariant
            store.wf(),
            backup@ == old(store)@,
            old(store).wf(),
            s0 == clear_synced_v(remove_missing_v(old(store)@, lv.map_values(|l: RemoteListV| l.github_id)).0),
            lv == lists@.map_values(|l: RemoteList| l@),
            j <= lists.len(),
            store_steps(s0, lv.take(j as int), sync_step(now@)) == (store@, Ok::<(), AppErrorV>(())),
        decreases lists.len() - j,
    {
        proof {
            lemma_store_steps_next(s0, lv, sync_step(now@), j as int);
        }
        let l = &lists[j];
        assert(l@ == lv[j as int]);
        let failed = match upsert_all(store, &l.repos, now) {
            Ok(_) => match store.upsert_synced_list(
                l.github_id.as_str(),
                l.name.as_str(),
                opt_str(&l.description),
                l.is_private,
                opt_str(&l.slug),
                now,
            ) {
                Ok(id) => match add_all_to(store, &l.repos, id) {
                    Ok(_) => None,
                    Err(e) => Some(e),
                },
                Err(e) => Some(e),
            },
            Err(e) => Some(e),
        };
        match failed {
            Some(e) => {
                proof {
                    lemma_store_steps_stops(s0, lv, sync_step(now@), j as int + 1);
                }
                *store = backup;
                return Err(e);
            },
            None => {},
        }
        j = j + 1;
    }
    assert(lv.take(lists.len() as int) =~= lv);
    Ok(())
}

/// The names of the repositories in no live list, as the agent corpus lists them.
pub open spec fn unlisted_names_v(repos: Seq<RepoRowV>) -> Seq<Seq<char>>
    decreases repos.len(),
{
    if repos.len() == 0 {
        seq![]
    } else if repos.last().lists.len() == 0 {
        unlisted_names_v(repos.drop_last()).push(repos.last().name_with_owner)
    } else {
        unlisted_names_v(repos.drop_last())
    }
}

/// The names of the repositories in no live list.
pub fn unlisted_names(repos: &Vec<RepoRow>) -> (r: Vec<String>)
    ensures
        r.deep_view() == unlisted_names_v(repos@.map_values(|x: RepoRow| x@)),
{
    let ghost rv = repos@.map_values(|x: RepoRow| x@);
    let mut out: Vec<String> = Vec::new();
    let mut i: usize = 0;
    assert(out.deep_view() =~= unlisted_names_v(rv.take(0)));
    while i < repos.len()
        invariant
            rv == repos@.map_values(|x: RepoRow| x@),
            i <= repos.len(),
            out.deep_view() == unlisted_names_v(rv.take(i as int)),
        decreases repos.len() - i,
    {
        assert(rv.take(i + 1).drop_last() =~= rv.take(i as int));
        assert(rv.take(i + 1).last() == repos@[i as int]@);
        if repos[i].lists.len() == 0 {
            let ghost ov = out.deep_view();
            out.push(repos[i].name_with_owner.clone());
            assert(out.deep_view() =~= ov.push(repos@[i as int]@.name_with_owner));
        }
        i = i + 1;
    }
    assert(rv.take(repos.len() as int) =~= rv);
    out
}


/// The key/value lines `doctor` prints: nothing of the token but where it came
/// from.
pub open spec fn doctor_rows(
    cfg: AppConfig,
    version: Seq<char>,
    db_exists: bool,
    login: Option<Seq<char>>,
    last_snapshot: Option<Seq<char>>,
) -> Seq<(Seq<char>, Seq<char>)> {
    seq![
        ("version"@, version),
        ("config"@, cfg.paths.config_file@),
        ("db"@, cfg.paths.db_file@),
        ("db_exists"@, bool_text(db_exists)),
        ("auth"@, source_name(cfg.token_source)),
        ("login"@, or_dash(login)),
        ("snapshot"@, or_dash(last_snapshot)),
    ]
}

/// What `doctor` prints as a table: the version, the paths, whether the database
/// exists, where the token came from, the GitHub login and the last snapshot time.
pub fn doctor_table(
    cfg: &AppConfig,
    version: &str,
    db_exists: bool,
    login: &Option<String>,
    last_snapshot: &Option<String>,
) -> (r: String)
    ensures
        r@ == kv_text(doctor_rows(*cfg, version@, db_exists, login.deep_view(), last_snapshot.deep_view())),
{
    let mut rows: Vec<(&str, String)> = Vec::new();
    rows.push(("version", owned(version)));
    rows.push(("config", cfg.paths.config_file.clone()));
    rows.push(("db", cfg.paths.db_file.clone()));
    rows.push(("db_exists", bool_string(db_exists)));
    rows.push(("auth", owned(cfg.token_source.as_str())));
    rows.push(("login", text_or_dash(login)));
    rows.push(("snapshot", text_or_dash(last_snapshot)));
    proof {
        reveal_strlit("version");
        reveal_strlit("config");
        reveal_strlit("db");
        reveal_strlit("db_exists");
        reveal_strlit("auth");
        reveal_strlit("login");
        reveal_strlit("snapshot");
    }
    assert(rows@.map_values(|x: (&str, String)| (x.0@, x.1@)) =~= doctor_rows(
        *cfg,
        version@,
        db_exists,
        login.deep_view(),
        last_snapshot.deep_view(),
    ));
    kv_table(rows.as_slice())
}

/// A text as JSON, or `null`.
pub open spec fn opt_json(o: Option<Seq<char>>) -> JsonV {
    match o {
        Some(s) => JsonV::Str(s),
        None => JsonV::Null,
    }
}

/// The counts as a JSON object, or `null`.
pub open spec fn stats_json_v(stats: Option<Stats>) -> JsonV {
    match stats {
        Some(st) => JsonV::Object(
            seq![
                ("repos"@, JsonV::Number(int_text(st.repos as int))),
                ("lists"@, JsonV::Number(int_text(st.lists as int))),
                ("unlisted"@, JsonV::Number(int_text(st.unlisted as int))),
            ],
        ),
        None => JsonV::Null,
    }
}

/// The report `doctor` prints under `--json` and `--sexp`: of the token only where
/// it came from and whether there is one.
pub open spec fn doctor_report_v(
    cfg: AppConfig,
    version: Seq<char>,
    db_exists: bool,
    login: Option<Seq<char>>,
    last_snapshot: Option<Seq<char>>,
    stats: Option<Stats>,
) -> JsonV {
    JsonV::Object(
        seq![
            ("version"@, JsonV::Str(version)),
            ("config_file"@, JsonV::Str(cfg.paths.config_file@)),
            ("db_file"@, JsonV::Str(cfg.paths.db_file@)),
            ("db_exists"@, JsonV::Bool(db_exists)),
            ("auth_source"@, JsonV::Str(source_name(cfg.token_source))),
            ("auth_present"@, JsonV::Bool(cfg.token is Some)),
            ("github_login"@, opt_json(login)),
            ("last_snapshot_at"@, opt_json(last_snapshot)),
            ("stats"@, stats_json_v(stats)),
            ("github_list_cap"@, JsonV::Number(decimal(GITHUB_LIST_CAP as nat))),
        ],
    )
}

fn opt_json_value(o: &Option<String>) -> (r: JsonValue)
    ensures
        r@ == opt_json(o.deep_view()),
{
    match o {
        Some(s) => JsonValue::Str(s.clone()),
        None => JsonValue::Null,
    }
}

fn stats_json_value(stats: &Option<Stats>) -> (r: JsonValue)
    ensures
        r@ == stats_json_v(*stats),
{
    match stats {
        Some(st) => {
            let mut m: Vec<(String, JsonValue)> = Vec::new();
            m.push((owned("repos"), JsonValue::Number(i64_text(st.repos))));
            m.push((owned("lists"), JsonValue::Number(i64_text(st.lists))));
            m.push((owned("unlisted"), JsonValue::Number(i64_text(st.unlisted))));
            proof {
                reveal_with_fuel(json_member_views, 4);
                assert(json_member_views(m@) =~= stats_json_v(*stats)->Object_0);
            }
            JsonValue::Object(m)
        },
        None => JsonValue::Null,
    }
}

/// The report `doctor` prints: the version, the paths, whether the database
/// exists, where the token came from and whether there is one, the GitHub login,
/// the last snapshot time, the counts and the list cap.
pub fn doctor_report(
    cfg: &AppConfig,
    version: &str,
    db_exists: bool,
    login: &Option<String>,
    last_snapshot: &Option<String>,
    stats: &Option<Stats>,
) -> (r: JsonValue)
    ensures
        r@ == doctor_report_v(*cfg, version@, db_exists, login.deep_view(), last_snapshot.deep_view(), *stats),
{
    let mut m: Vec<(String, JsonValue)> = Vec::new();
    m.push((owned("version"), JsonValue::Str(owned(version))));
    m.push((owned("config_file"), JsonValue::Str(cfg.paths.config_file.clone())));
    m.push((owned("db_file"), JsonValue::Str(cfg.paths.db_file.clone())));
    m.push((owned("db_exists"), JsonValue::Bool(db_exists)));
    m.push((owned("auth_source"), JsonValue::Str(owned(cfg.token_source.as_str()))));
    m.push((owned("auth_present"), JsonValue::Bool(cfg.token.is_some())));
    m.push((owned("github_login"), opt_json_value(login)));
    m.push((owned("last_snapshot_at"), opt_json_value(last_snapshot)));
    m.push((owned("stats"), stats_json_value(stats)));
    m.push((owned("github_list_cap"), JsonValue::Number(usize_text(GITHUB_LIST_CAP))));
    proof {
        reveal_with_fuel(json_member_views, 11);
        assert(json_member_views(m@) =~= doctor_report_v(
            *cfg,
            version@,
            db_exists,
            login.deep_view(),
            last_snapshot.deep_view(),
            *stats,
        )->Object_0);
    }
    JsonValue::Object(m)
}

} // verus!
