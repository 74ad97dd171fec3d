//! The local store of starred repositories, Star Lists, memberships, proposals and
//! metadata, with the rules the SQLite schema enforces.
//!
//! The store is held in memory; reading it from disk and writing it back is the
//! caller's business. Lists and repositories are kept in id order, which is the
//! order SQLite scans them in.
use vstd::prelude::*;

use crate::ids::{is_taken, texts, slug_of, slugify, taken_contains, unique_slug, unique_slug_of};
use crate::order::{
    first_index, keep_where, lemma_keep_where, insert_pos, lemma_first_index_found, lemma_first_index_none,
    lemma_first_index_props, lemma_insert_pos, lemma_insert_pos_bounds, lemma_insert_pos_props, lemma_sort_len, sort_by,
};
use crate::output::{err_v, error_with, AppError, AppErrorV};
use crate::text::{
    chars_of, fold, has_prefix, less_than, owned, parse_i64, parse_int, starts_with, str_eq,
    text_lt, trim, trim_str, eq_ignore_ascii_case,
};

verus! {

/// A Star List as stored locally. `repo_count` is the number of repositories in it
/// when the row is read.
#[derive(Debug)]
pub struct ListRow {
    pub id: i64,
    pub slug: String,
    pub name: String,
    pub description: Option<String>,
    pub is_private: bool,
    pub github_id: Option<String>,
    pub status: String,
    pub repo_count: i64,
    pub created_at: String,
    pub updated_at: String,
}

pub struct ListRowV {
    pub id: i64,
    pub slug: Seq<char>,
    pub name: Seq<char>,
    pub description: Option<Seq<char>>,
    pub is_private: bool,
    pub github_id: Option<Seq<char>>,
    pub status: Seq<char>,
    pub repo_count: i64,
    pub created_at: Seq<char>,
    pub updated_at: Seq<char>,
}

impl View for ListRow {
    type V = ListRowV;

    open spec fn view(&self) -> ListRowV {
        ListRowV {
            id: self.id,
            slug: self.slug@,
            name: self.name@,
            description: self.description.deep_view(),
            is_private: self.is_private,
            github_id: self.github_id.deep_view(),
            status: self.status@,
            repo_count: self.repo_count,
            created_at: self.created_at@,
            updated_at: self.updated_at@,
        }
    }
}

/// A starred repository. `lists` holds the slugs of the live lists it belongs to
/// when the row is read.
#[derive(Debug)]
pub struct RepoRow {
    pub id: i64,
    pub node_id: String,
    pub name_with_owner: String,
    pub url: String,
    pub description: Option<String>,
    pub homepage_url: Option<String>,
    pub primary_language: Option<String>,
    pub license: Option<String>,
    pub stars: Option<i64>,
    pub forks: Option<i64>,
    pub is_private: bool,
    pub is_archived: bool,
    pub is_fork: bool,
    pub pushed_at: Option<String>,
    pub updated_at: Option<String>,
    pub starred_at: Option<String>,
    pub topics: Vec<String>,
    pub lists: Vec<String>,
}

pub struct RepoRowV {
    pub id: i64,
    pub node_id: Seq<char>,
    pub name_with_owner: Seq<char>,
    pub url: Seq<char>,
    pub description: Option<Seq<char>>,
    pub homepage_url: Option<Seq<char>>,
    pub primary_language: Option<Seq<char>>,
    pub license: Option<Seq<char>>,
    pub stars: Option<i64>,
    pub forks: Option<i64>,
    pub is_private: bool,
    pub is_archived: bool,
    pub is_fork: bool,
    pub pushed_at: Option<Seq<char>>,
    pub updated_at: Option<Seq<char>>,
    pub starred_at: Option<Seq<char>>,
    pub topics: Seq<Seq<char>>,
    pub lists: Seq<Seq<char>>,
}

impl View for RepoRow {
    type V = RepoRowV;

    open spec fn view(&self) -> RepoRowV {
        RepoRowV {
            id: self.id,
            node_id: self.node_id@,
            name_with_owner: self.name_with_owner@,
            url: self.url@,
            description: self.description.deep_view(),
            homepage_url: self.homepage_url.deep_view(),
            primary_language: self.primary_language.deep_view(),
            license: self.license.deep_view(),
            stars: self.stars,
            forks: self.forks,
            is_private: self.is_private,
            is_archived: self.is_archived,
            is_fork: self.is_fork,
            pushed_at: self.pushed_at.deep_view(),
            updated_at: self.updated_at.deep_view(),
            starred_at: self.starred_at.deep_view(),
            topics: self.topics.deep_view(),
            lists: self.lists.deep_view(),
        }
    }
}

/// An imported proposal as stored locally.
#[derive(Debug)]
pub struct ProposalRow {
    pub id: String,
    pub created_at: String,
    pub notes: Option<String>,
    pub status: String,
    pub source_path: Option<String>,
    pub raw_json: String,
}

pub struct ProposalRowV {
    pub id: Seq<char>,
    pub created_at: Seq<char>,
    pub notes: Option<Seq<char>>,
    pub status: Seq<char>,
    pub source_path: Option<Seq<char>>,
    pub raw_json: Seq<char>,
}

impl View for ProposalRow {
    type V = ProposalRowV;

    open spec fn view(&self) -> ProposalRowV {
        ProposalRowV {
            id: self.id@,
            created_at: self.created_at@,
            notes: self.notes.deep_view(),
            status: self.status@,
            source_path: self.source_path.deep_view(),
            raw_json: self.raw_json@,
        }
    }
}

/// A repository stored with the time of the snapshot that last wrote it.
#[derive(Debug)]
pub struct StoredRepo {
    pub repo: RepoRow,
    pub snapshot_at: String,
}

pub struct StoredRepoV {
    pub repo: RepoRowV,
    pub snapshot_at: Seq<char>,
}

impl View for StoredRepo {
    type V = StoredRepoV;

    open spec fn view(&self) -> StoredRepoV {
        StoredRepoV { repo: self.repo@, snapshot_at: self.snapshot_at@ }
    }
}

/// A repository's place in a list, and where that came from.
#[derive(Debug)]
pub struct Membership {
    pub repo_id: i64,
    pub list_id: i64,
    pub source: String,
}

pub struct MembershipV {
    pub repo_id: i64,
    pub list_id: i64,
    pub source: Seq<char>,
}

impl View for Membership {
    type V = MembershipV;

    open spec fn view(&self) -> MembershipV {
        MembershipV { repo_id: self.repo_id, list_id: self.list_id, source: self.source@ }
    }
}

/// One key/value pair of store metadata.
#[derive(Debug)]
pub struct MetaEntry {
    pub key: String,
    pub value: String,
}

pub struct MetaV {
    pub key: Seq<char>,
    pub value: Seq<char>,
}

impl View for MetaEntry {
    type V = MetaV;

    open spec fn view(&self) -> MetaV {
        MetaV { key: self.key@, value: self.value@ }
    }
}

/// The whole local store.
pub struct Store {
    lists: Vec<ListRow>,
    repos: Vec<StoredRepo>,
    memberships: Vec<Membership>,
    proposals: Vec<ProposalRow>,
    meta: Vec<MetaEntry>,
    list_seq: i64,
}

/// What the store holds.
pub struct StoreV {
    pub lists: Seq<ListRowV>,
    pub repos: Seq<StoredRepoV>,
    pub memberships: Seq<MembershipV>,
    pub proposals: Seq<ProposalRowV>,
    pub meta: Seq<MetaV>,
    /// The largest list id ever handed out (SQLite's `AUTOINCREMENT` counter).
    pub list_seq: i64,
}

impl View for Store {
    type V = StoreV;

    closed spec fn view(&self) -> StoreV {
        StoreV {
            lists: self.lists@.map_values(|l: ListRow| l@),
            repos: self.repos@.map_values(|r: StoredRepo| r@),
            memberships: self.memberships@.map_values(|m: Membership| m@),
            proposals: self.proposals@.map_values(|p: ProposalRow| p@),
            meta: self.meta@.map_values(|m: MetaEntry| m@),
            list_seq: self.list_seq,
        }
    }
}

// ---------------------------------------------------------------------
// The schema's constraints.
/// Two lists, the first stored before the second, keep the schema's order and
/// uniqueness rules.
pub open spec fn list_pair_ok(a: ListRowV, b: ListRowV) -> bool {
    &&& a.id < b.id
    &&& a.slug != b.slug
    &&& (a.github_id is Some ==> a.github_id != b.github_id)
}

pub open spec fn list_pair_rel() -> spec_fn(ListRowV, ListRowV) -> bool {
    |a: ListRowV, b: ListRowV| list_pair_ok(a, b)
}

pub open spec fn lists_wf(ls: Seq<ListRowV>, list_seq: i64) -> bool {
    &&& forall|i: int, j: int| 0 <= i < j < ls.len() ==> list_pair_ok(ls[i], ls[j])
    &&& forall|i: int| 0 <= i < ls.len() ==> 1 <= #[trigger] ls[i].id <= list_seq
}

pub open spec fn repo_pair_ok(a: StoredRepoV, b: StoredRepoV) -> bool {
    &&& a.repo.id < b.repo.id
    &&& a.repo.node_id != b.repo.node_id
    &&& a.repo.name_with_owner != b.repo.name_with_owner
}

pub open spec fn repo_pair_rel() -> spec_fn(StoredRepoV, StoredRepoV) -> bool {
    |a: StoredRepoV, b: StoredRepoV| repo_pair_ok(a, b)
}

pub open spec fn repos_wf(rs: Seq<StoredRepoV>) -> bool {
    forall|i: int, j: int| 0 <= i < j < rs.len() ==> repo_pair_ok(rs[i], rs[j])
}

pub open spec fn membership_pair_ok(a: MembershipV, b: MembershipV) -> bool {
    !(a.repo_id == b.repo_id && a.list_id == b.list_id)
}

pub open spec fn membership_pair_rel() -> spec_fn(MembershipV, MembershipV) -> bool {
    |a: MembershipV, b: MembershipV| membership_pair_ok(a, b)
}

pub open spec fn has_list_id(s: StoreV, id: i64) -> bool {
    exists|i: int| 0 <= i < s.lists.len() && s.lists[i].id == id
}

pub open spec fn has_repo_id(s: StoreV, id: i64) -> bool {
    exists|i: int| 0 <= i < s.repos.len() && s.repos[i].repo.id == id
}

pub open spec fn memberships_wf(s: StoreV) -> bool {
    &&& forall|i: int, j: int|
        0 <= i < j < s.memberships.len() ==> membership_pair_ok(s.memberships[i], s.memberships[j])
    &&& forall|i: int|
        0 <= i < s.memberships.len() ==> has_repo_id(s, #[trigger] s.memberships[i].repo_id)
            && has_list_id(s, s.memberships[i].list_id)
}

pub open spec fn proposals_wf(ps: Seq<ProposalRowV>) -> bool {
    forall|i: int, j: int| 0 <= i < j < ps.len() ==> ps[i].id != ps[j].id
}

pub open spec fn meta_wf(ms: Seq<MetaV>) -> bool {
    forall|i: int, j: int| 0 <= i < j < ms.len() ==> ms[i].key != ms[j].key
}

/// The store keeps every constraint of the schema: ids ordered and unique, unique
/// slugs, GitHub ids, node ids, repository names, proposal ids and metadata keys,
/// and memberships that name existing repositories and lists, once each.
pub open spec fn store_wf(s: StoreV) -> bool {
    &&& s.list_seq >= 0
    &&& lists_wf(s.lists, s.list_seq)
    &&& repos_wf(s.repos)
    &&& memberships_wf(s)
    &&& proposals_wf(s.proposals)
    &&& meta_wf(s.meta)
}

impl Store {
    pub open spec fn wf(&self) -> bool {
        store_wf(self@)
    }
}

// ---------------------------------------------------------------------
// Reading lists.
/// Number of repositories in the list `list_id`.
pub open spec fn count_in_list(ms: Seq<MembershipV>, list_id: i64) -> nat
    decreases ms.len(),
{
    if ms.len() == 0 {
        0
    } else {
        count_in_list(ms.drop_last(), list_id) + if ms.last().list_id == list_id {
            1nat
        } else {
            0nat
        }
    }
}

/// A list as read, with its repository count.
pub open spec fn with_count(s: StoreV, l: ListRowV) -> ListRowV {
    ListRowV { repo_count: count_in_list(s.memberships, l.id) as i64, ..l }
}

pub open spec fn is_tombstone(l: ListRowV) -> bool {
    l.status == "tombstone"@
}

/// The lists, tombstoned ones only when `all`.
pub open spec fn filter_lists(ls: Seq<ListRowV>, all: bool) -> Seq<ListRowV>
    decreases ls.len(),
{
    if ls.len() == 0 {
        ls
    } else {
        let r = filter_lists(ls.drop_last(), all);
        if all || !is_tombstone(ls.last()) {
            r.push(ls.last())
        } else {
            r
        }
    }
}

/// Order by name, ignoring ASCII case (`COLLATE NOCASE`).
pub open spec fn by_name() -> spec_fn(ListRowV, ListRowV) -> bool {
    |a: ListRowV, b: ListRowV| text_lt(fold(a.name), fold(b.name))
}

/// What `list_lists` returns.
pub open spec fn listed(s: StoreV, all: bool) -> Seq<ListRowV> {
    sort_by(filter_lists(s.lists, all), by_name()).map_values(|l: ListRowV| with_count(s, l))
}

pub open spec fn id_is(id: i64) -> spec_fn(ListRowV) -> bool {
    |l: ListRowV| l.id == id
}

pub open spec fn github_id_is(gid: Seq<char>) -> spec_fn(ListRowV) -> bool {
    |l: ListRowV| l.github_id == Some(gid)
}

pub open spec fn name_ci_is(name: Seq<char>) -> spec_fn(ListRowV) -> bool {
    |l: ListRowV| fold(l.name) == fold(name)
}

pub open spec fn slug_or_name_is(spec: Seq<char>) -> spec_fn(ListRowV) -> bool {
    |l: ListRowV| l.slug == spec || fold(l.name) == fold(spec)
}

/// The stored list with id `id`.
pub open spec fn list_with_id(s: StoreV, id: i64) -> Option<ListRowV> {
    match crate::order::first_where(s.lists, id_is(id)) {
        Some(l) => Some(with_count(s, l)),
        None => None,
    }
}

/// The stored list with GitHub id `gid`.
pub open spec fn list_with_github_id(s: StoreV, gid: Seq<char>) -> Option<ListRowV> {
    match crate::order::first_where(s.lists, github_id_is(gid)) {
        Some(l) => Some(with_count(s, l)),
        None => None,
    }
}

/// The first stored list whose name equals `name` ignoring ASCII case.
pub open spec fn list_with_name_ci(s: StoreV, name: Seq<char>) -> Option<ListRowV> {
    match crate::order::first_where(s.lists, name_ci_is(name)) {
        Some(l) => Some(with_count(s, l)),
        None => None,
    }
}

/// The first stored list whose slug is `spec` or whose name equals it ignoring ASCII case.
pub open spec fn list_with_slug_or_name(s: StoreV, spec: Seq<char>) -> Option<ListRowV> {
    match crate::order::first_where(s.lists, slug_or_name_is(spec)) {
        Some(l) => Some(with_count(s, l)),
        None => None,
    }
}

/// How a list name, slug or id resolves: a numeric id first, then a GitHub id
/// (`UL_...`), then a slug or a name.
pub open spec fn resolve_list_v(s: StoreV, spec: Seq<char>) -> Result<ListRowV, AppErrorV> {
    let t = trim(spec);
    if parse_i64(t) is Some && list_with_id(s, parse_i64(t)->0) is Some {
        Ok(list_with_id(s, parse_i64(t)->0)->0)
    } else if has_prefix(t, "UL_"@) && list_with_github_id(s, t) is Some {
        Ok(list_with_github_id(s, t)->0)
    } else if list_with_slug_or_name(s, t) is Some {
        Ok(list_with_slug_or_name(s, t)->0)
    } else {
        Err(err_v("not_found"@, "list not found: "@ + t))
    }
}

/// A copy of an optional string.
pub fn dup_opt(o: &Option<String>) -> (r: Option<String>)
    ensures
        r.deep_view() == o.deep_view(),
{
    match o {
        Some(s) => Some(s.clone()),
        None => None,
    }
}

/// A copy of a list of strings.
pub fn dup_strings(v: &Vec<String>) -> (r: Vec<String>)
    ensures
        r.deep_view() == v.deep_view(),
{
    let mut r: Vec<String> = Vec::new();
    let mut i: usize = 0;
    while i < v.len()
        invariant
            i <= v.len(),
            r@.len() == i,
            forall|k: int| 0 <= k < i ==> #[trigger] r@[k]@ == v@[k]@,
        decreases v.len() - i,
    {
        r.push(v[i].clone());
        i = i + 1;
    }
    assert(r.deep_view() =~= v.deep_view());
    r
}

impl ListRow {
    /// A copy of this row.
    pub fn dup(&self) -> (r: ListRow)
        ensures
            r@ == self@,
    {
        ListRow {
            id: self.id,
            slug: self.slug.clone(),
            name: self.name.clone(),
            description: dup_opt(&self.description),
            is_private: self.is_private,
            github_id: dup_opt(&self.github_id),
            status: self.status.clone(),
            repo_count: self.repo_count,
            created_at: self.created_at.clone(),
            updated_at: self.updated_at.clone(),
        }
    }
}

impl RepoRow {
    /// A copy of this row.
    pub fn dup(&self) -> (r: RepoRow)
        ensures
            r@ == self@,
    {
        RepoRow {
            id: self.id,
            node_id: self.node_id.clone(),
            name_with_owner: self.name_with_owner.clone(),
            url: self.url.clone(),
            description: dup_opt(&self.description),
            homepage_url: dup_opt(&self.homepage_url),
            primary_language: dup_opt(&self.primary_language),
            license: dup_opt(&self.license),
            stars: self.stars,
            forks: self.forks,
            is_private: self.is_private,
            is_archived: self.is_archived,
            is_fork: self.is_fork,
            pushed_at: dup_opt(&self.pushed_at),
            updated_at: dup_opt(&self.updated_at),
            starred_at: dup_opt(&self.starred_at),
            topics: dup_strings(&self.topics),
            lists: dup_strings(&self.lists),
        }
    }
}

impl ProposalRow {
    /// A copy of this row.
    pub fn dup(&self) -> (r: ProposalRow)
        ensures
            r@ == self@,
    {
        ProposalRow {
            id: self.id.clone(),
            created_at: self.created_at.clone(),
            notes: dup_opt(&self.notes),
            status: self.status.clone(),
            source_path: dup_opt(&self.source_path),
            raw_json: self.raw_json.clone(),
        }
    }
}

impl Store {
    proof fn lemma_view_lists(&self)
        ensures
            self@.lists.len() == self.lists@.len(),
            forall|i: int| 0 <= i < self.lists@.len() ==> #[trigger] self@.lists[i] == self.lists@[i]@,
            self@.memberships.len() == self.memberships@.len(),
            forall|i: int|
                0 <= i < self.memberships@.len() ==> #[trigger] self@.memberships[i]
                    == self.memberships@[i]@,
            self@.repos.len() == self.repos@.len(),
            forall|i: int| 0 <= i < self.repos@.len() ==> #[trigger] self@.repos[i] == self.repos@[i]@,
            self@.proposals.len() == self.proposals@.len(),
            forall|i: int|
                0 <= i < self.proposals@.len() ==> #[trigger] self@.proposals[i] == self.proposals@[i]@,
            self@.meta.len() == self.meta@.len(),
            forall|i: int| 0 <= i < self.meta@.len() ==> #[trigger] self@.meta[i] == self.meta@[i]@,
            self@.list_seq == self.list_seq,
    {
    }

    /// Number of repositories in list `list_id`.
    fn count_members(&self, list_id: i64) -> (n: i64)
        requires
            self.wf(),
        ensures
            n == count_in_list(self@.memberships, list_id) as i64,
    {
        proof {
            self.lemma_view_lists();
        }
        let ghost ms = self@.memberships;
        let mut n: usize = 0;
        let mut i: usize = 0;
        while i < self.memberships.len()
            invariant
                ms == self@.memberships,
                ms.len() == self.memberships@.len(),
                forall|k: int| 0 <= k < ms.len() ==> #[trigger] ms[k] == self.memberships@[k]@,
                i <= ms.len(),
                n == count_in_list(ms.take(i as int), list_id),
                n <= i,
            decreases ms.len() - i,
        {
            assert(ms.take(i + 1).drop_last() =~= ms.take(i as int));
            if self.memberships[i].list_id == list_id {
                n = n + 1;
            }
            i = i + 1;
        }
        assert(ms.take(ms.len() as int) =~= ms);
        n as i64
    }

    /// The list as read, with its repository count.
    fn read_list(&self, i: usize) -> (r: ListRow)
        requires
            self.wf(),
            i < self@.lists.len(),
        ensures
            r@ == with_count(self@, self@.lists[i as int]),
    {
        proof {
            self.lemma_view_lists();
        }
        let mut r = self.lists[i].dup();
        r.repo_count = self.count_members(r.id);
        r
    }
}


impl Store {
    /// Index of the first stored list satisfying the predicate that `test` computes.
    fn find_list_by_id_index(&self, id: i64) -> (r: Option<usize>)
        requires
            self.wf(),
        ensures
            r is Some ==> r->0 < self@.lists.len() && first_index(self@.lists, id_is(id)) == r->0,
            r is None ==> first_index(self@.lists, id_is(id)) == -1,
    {
        proof {
            self.lemma_view_lists();
        }
        let mut i: usize = 0;
        while i < self.lists.len()
            invariant
                self.wf(),
                i <= self.lists@.len(),
                forall|j: int| 0 <= j < i ==> !(id_is(id))(#[trigger] self@.lists[j]),
            decreases self.lists@.len() - i,
        {
            proof {
                self.lemma_view_lists();
            }
            if self.lists[i].id == id {
                proof {
                    lemma_first_index_found(self@.lists, id_is(id), i as int);
                }
                return Some(i);
            }
            i = i + 1;
        }
        proof {
            lemma_first_index_none(self@.lists, id_is(id));
        }
        None
    }

    fn find_list_by_gid_index(&self, gid: &str) -> (r: Option<usize>)
        requires
            self.wf(),
        ensures
            r is Some ==> r->0 < self@.lists.len() && first_index(self@.lists, github_id_is(gid@)) == r->0,
            r is None ==> first_index(self@.lists, github_id_is(gid@)) == -1,
    {
        proof {
            self.lemma_view_lists();
        }
        let mut i: usize = 0;
        while i < self.lists.len()
            invariant
                self.wf(),
                i <= self.lists@.len(),
                forall|j: int| 0 <= j < i ==> !(github_id_is(gid@))(#[trigger] self@.lists[j]),
            decreases self.lists@.len() - i,
        {
            proof {
                self.lemma_view_lists();
            }
            let hit = match &self.lists[i].github_id {
                Some(g) => str_eq(g.as_str(), gid),
                None => false,
            };
            if hit {
                proof {
                    lemma_first_index_found(self@.lists, github_id_is(gid@), i as int);
                }
                return Some(i);
            }
            i = i + 1;
        }
        proof {
            lemma_first_index_none(self@.lists, github_id_is(gid@));
        }
        None
    }

    fn find_list_by_name_index(&self, name: &str) -> (r: Option<usize>)
        requires
            self.wf(),
        ensures
            r is Some ==> r->0 < self@.lists.len() && first_index(self@.lists, name_ci_is(name@)) == r->0,
            r is None ==> first_index(self@.lists, name_ci_is(name@)) == -1,
    {
        proof {
            self.lemma_view_lists();
        }
        let mut i: usize = 0;
        while i < self.lists.len()
            invariant
                self.wf(),
                i <= self.lists@.len(),
                forall|j: int| 0 <= j < i ==> !(name_ci_is(name@))(#[trigger] self@.lists[j]),
            decreases self.lists@.len() - i,
        {
            proof {
                self.lemma_view_lists();
            }
            if eq_ignore_ascii_case(self.lists[i].name.as_str(), name) {
                proof {
                    lemma_first_index_found(self@.lists, name_ci_is(name@), i as int);
                }
                return Some(i);
            }
            i = i + 1;
        }
        proof {
            lemma_first_index_none(self@.lists, name_ci_is(name@));
        }
        None
    }

    fn find_list_by_slug_or_name_index(&self, spec: &str) -> (r: Option<usize>)
        requires
            self.wf(),
        ensures
            r is Some ==> r->0 < self@.lists.len() && first_index(self@.lists, slug_or_name_is(spec@)) == r->0,
            r is None ==> first_index(self@.lists, slug_or_name_is(spec@)) == -1,
    {
        proof {
            self.lemma_view_lists();
        }
        let mut i: usize = 0;
        while i < self.lists.len()
            invariant
                self.wf(),
                i <= self.lists@.len(),
                forall|j: int| 0 <= j < i ==> !(slug_or_name_is(spec@))(#[trigger] self@.lists[j]),
            decreases self.lists@.len() - i,
        {
            proof {
                self.lemma_view_lists();
            }
            if str_eq(self.lists[i].slug.as_str(), spec) || eq_ignore_ascii_case(self.lists[i].name.as_str(), spec) {
                proof {
                    lemma_first_index_found(self@.lists, slug_or_name_is(spec@), i as int);
                }
                return Some(i);
            }
            i = i + 1;
        }
        proof {
            lemma_first_index_none(self@.lists, slug_or_name_is(spec@));
        }
        None
    }

    /// The list with id `id`.
    pub fn get_list(&self, id: i64) -> (r: Option<ListRow>)
        requires
            self.wf(),
        ensures
            match r {
                Some(l) => list_with_id(self@, id) == Some(l@),
                None => list_with_id(self@, id) is None,
            },
    {
        match self.find_list_by_id_index(id) {
            Some(i) => Some(self.read_list(i)),
            None => None,
        }
    }

    /// The list with GitHub id `github_id`.
    pub fn find_list_by_github_id(&self, github_id: &str) -> (r: Option<ListRow>)
        requires
            self.wf(),
        ensures
            match r {
                Some(l) => list_with_github_id(self@, github_id@) == Some(l@),
                None => list_with_github_id(self@, github_id@) is None,
            },
    {
        match self.find_list_by_gid_index(github_id) {
            Some(i) => Some(self.read_list(i)),
            None => None,
        }
    }

    /// The first list whose name equals `name`, ignoring ASCII case.
    pub fn find_list_by_name_ci(&self, name: &str) -> (r: Option<ListRow>)
        requires
            self.wf(),
        ensures
            match r {
                Some(l) => list_with_name_ci(self@, name@) == Some(l@),
                None => list_with_name_ci(self@, name@) is None,
            },
    {
        match self.find_list_by_name_index(name) {
            Some(i) => Some(self.read_list(i)),
            None => None,
        }
    }

    /// Resolves a numeric id, a GitHub id (`UL_...`), a slug or a name to a list.
    pub fn resolve_list(&self, spec: &str) -> (r: Result<ListRow, AppError>)
        requires
            self.wf(),
        ensures
            match r {
                Ok(l) => resolve_list_v(self@, spec@) == Ok::<ListRowV, AppErrorV>(l@),
                Err(e) => resolve_list_v(self@, spec@) == Err::<ListRowV, AppErrorV>(e@),
            },
    {
        let t = trim_str(spec);
        match parse_int(t.as_str()) {
            Some(id) => {
                match self.get_list(id) {
                    Some(l) => {
                        return Ok(l);
                    },
                    None => {},
                }
            },
            None => {},
        }
        if starts_with(t.as_str(), "UL_") {
            match self.find_list_by_github_id(t.as_str()) {
                Some(l) => {
                    return Ok(l);
                },
                None => {},
            }
        }
        match self.find_list_by_slug_or_name_index(t.as_str()) {
            Some(i) => Ok(self.read_list(i)),
            None => Err(error_with("not_found", "list not found: ", t.as_str())),
        }
    }
}


impl Store {
    /// Stable insertion of list rows by name, ignoring ASCII case.
    fn sort_lists_by_name(v: &Vec<ListRow>) -> (r: Vec<ListRow>)
        ensures
            r@.map_values(|l: ListRow| l@) == sort_by(v@.map_values(|l: ListRow| l@), by_name()),
    {
        let ghost vv = v@.map_values(|l: ListRow| l@);
        let mut r: Vec<ListRow> = Vec::new();
        let mut i: usize = 0;
        assert(vv.take(0) =~= Seq::<ListRowV>::empty());
        while i < v.len()
            invariant
                vv == v@.map_values(|l: ListRow| l@),
                i <= v.len(),
                r@.map_values(|l: ListRow| l@) == sort_by(vv.take(i as int), by_name()),
            decreases v.len() - i,
        {
            let x = v[i].dup();
            let key = crate::text::fold_ascii(x.name.as_str());
            let ghost rv = r@.map_values(|l: ListRow| l@);
            let mut k: usize = 0;
            while k < r.len() && !less_than(key.as_str(), crate::text::fold_ascii(r[k].name.as_str()).as_str())
                invariant
                    rv == r@.map_values(|l: ListRow| l@),
                    k <= r.len(),
                    key@ == fold(x@.name),
                    forall|j: int| 0 <= j < k ==> !(by_name())(x@, #[trigger] rv[j]),
                decreases r.len() - k,
            {
                k = k + 1;
            }
            proof {
                lemma_insert_pos(rv, x@, by_name(), k as int);
                assert(vv.take(i + 1).drop_last() =~= vv.take(i as int));
                assert(vv.take(i + 1).last() == x@);
            }
            r.insert(k, x);
            assert(r@.map_values(|l: ListRow| l@) =~= rv.insert(k as int, vv[i as int]));
            i = i + 1;
        }
        assert(vv.take(v.len() as int) =~= vv);
        r
    }

    /// The lists ordered by name ignoring ASCII case; tombstoned lists only when
    /// `include_tombstone`.
    pub fn list_lists(&self, include_tombstone: bool) -> (r: Vec<ListRow>)
        requires
            self.wf(),
        ensures
            r@.map_values(|l: ListRow| l@) == listed(self@, include_tombstone),
    {
        proof {
            self.lemma_view_lists();
        }
        let ghost ls = self@.lists;
        let mut kept: Vec<ListRow> = Vec::new();
        let mut i: usize = 0;
        while i < self.lists.len()
            invariant
                self.wf(),
                ls == self@.lists,
                ls.len() == self.lists@.len(),
                i <= ls.len(),
                kept@.map_values(|l: ListRow| l@) == filter_lists(ls.take(i as int), include_tombstone),
            decreases ls.len() - i,
        {
            proof {
                self.lemma_view_lists();
            }
            assert(ls.take(i + 1).drop_last() =~= ls.take(i as int));
            if include_tombstone || !str_eq(self.lists[i].status.as_str(), "tombstone") {
                kept.push(self.lists[i].dup());
                assert(kept@.map_values(|l: ListRow| l@) =~= filter_lists(ls.take(i as int), include_tombstone).push(ls[i as int]));
            }
            i = i + 1;
        }
        assert(ls.take(ls.len() as int) =~= ls);
        let sorted = Store::sort_lists_by_name(&kept);
        let ghost sv = sorted@.map_values(|l: ListRow| l@);
        proof {
            lemma_sort_len(filter_lists(ls, include_tombstone), by_name());
        }
        let mut out: Vec<ListRow> = Vec::new();
        let mut j: usize = 0;
        while j < sorted.len()
            invariant
                self.wf(),
                sv == sorted@.map_values(|l: ListRow| l@),
                j <= sorted.len(),
                out@.len() == j,
                forall|k: int| 0 <= k < j ==> #[trigger] out@[k]@ == with_count(self@, sv[k]),
            decreases sorted.len() - j,
        {
            let mut row = sorted[j].dup();
            row.repo_count = self.count_members(row.id);
            out.push(row);
            j = j + 1;
        }
        assert(out@.map_values(|l: ListRow| l@) =~= sv.map_values(|l: ListRowV| with_count(self@, l)));
        out
    }
}


// ---------------------------------------------------------------------
// Reading repositories.
/// A lower-case hexadecimal digit.
pub open spec fn hex_digit(n: u32) -> char {
    if n < 10 {
        (48 + n) as char
    } else {
        (87 + n) as char
    }
}

/// How serde_json writes one character inside a JSON string: `"` and `\` and the
/// control characters below U+0020 escaped (the short forms `\b \t \n \f \r`
/// where JSON has them, else `\u00XX` in lower-case hex), every other character
/// as it is.
pub open spec fn json_escaped_char(c: char) -> Seq<char> {
    let u = c as u32;
    if c == '"' || c == '\\' {
        seq!['\\', c]
    } else if u == 0x08 {
        seq!['\\', 'b']
    } else if u == 0x09 {
        seq!['\\', 't']
    } else if u == 0x0a {
        seq!['\\', 'n']
    } else if u == 0x0c {
        seq!['\\', 'f']
    } else if u == 0x0d {
        seq!['\\', 'r']
    } else if u < 0x20 {
        seq!['\\', 'u', '0', '0', hex_digit(u / 16), hex_digit(u % 16)]
    } else {
        seq![c]
    }
}

/// The characters of `s`, each escaped.
pub open spec fn json_escaped(s: Seq<char>) -> Seq<char>
    decreases s.len(),
{
    if s.len() == 0 {
        seq![]
    } else {
        json_escaped(s.drop_last()) + json_escaped_char(s.last())
    }
}

/// The JSON strings of `items`, separated by commas.
pub open spec fn json_string_items(items: Seq<Seq<char>>) -> Seq<char>
    decreases items.len(),
{
    if items.len() == 0 {
        seq![]
    } else {
        let rest = json_string_items(items.drop_last());
        let item = seq!['"'] + json_escaped(items.last()) + seq!['"'];
        if items.len() == 1 {
            item
        } else {
            rest + seq![','] + item
        }
    }
}

/// What `serde_json::to_string` writes for a list of strings: compact, with no
/// space.
pub open spec fn json_text_of_strings(items: Seq<Seq<char>>) -> Seq<char> {
    seq!['['] + json_string_items(items) + seq![']']
}

/// `serde_json::to_string` on a list of strings: the compact JSON array text.
/// Serializing a `Vec<String>` cannot fail, so the `unwrap` does not panic.
#[verifier::external_body]
fn topics_json_text(topics: &Vec<String>) -> (r: String)
    ensures
        r@ == json_text_of_strings(topics.deep_view()),
{
    serde_json::to_string(topics).unwrap()
}

/// `repo_id` is in list `list_id`.
pub open spec fn is_member(ms: Seq<MembershipV>, repo_id: i64, list_id: i64) -> bool {
    exists|i: int| 0 <= i < ms.len() && ms[i].repo_id == repo_id && ms[i].list_id == list_id
}

/// Slugs of the live lists holding `repo_id`, in list order.
pub open spec fn lists_of_repo(ls: Seq<ListRowV>, ms: Seq<MembershipV>, repo_id: i64) -> Seq<Seq<char>>
    decreases ls.len(),
{
    if ls.len() == 0 {
        seq![]
    } else {
        let r = lists_of_repo(ls.drop_last(), ms, repo_id);
        if !is_tombstone(ls.last()) && is_member(ms, repo_id, ls.last().id) {
            r.push(ls.last().slug)
        } else {
            r
        }
    }
}

/// A repository as read, with the slugs of its live lists.
pub open spec fn repo_read(s: StoreV, r: StoredRepoV) -> RepoRowV {
    RepoRowV { lists: lists_of_repo(s.lists, s.memberships, r.repo.id), ..r.repo }
}

pub open spec fn repo_id_is(id: i64) -> spec_fn(StoredRepoV) -> bool {
    |r: StoredRepoV| r.repo.id == id
}

pub open spec fn node_id_is(n: Seq<char>) -> spec_fn(StoredRepoV) -> bool {
    |r: StoredRepoV| r.repo.node_id == n
}

pub open spec fn repo_name_is(n: Seq<char>) -> spec_fn(StoredRepoV) -> bool {
    |r: StoredRepoV| r.repo.name_with_owner == n || fold(r.repo.name_with_owner) == fold(n)
}

/// Which predicate a repository spec selects by: a numeric id, a node id (`R_...`),
/// or `owner/name` ignoring ASCII case.
pub open spec fn repo_selector(t: Seq<char>) -> spec_fn(StoredRepoV) -> bool {
    if parse_i64(t) is Some {
        repo_id_is(parse_i64(t)->0)
    } else if has_prefix(t, "R_"@) {
        node_id_is(t)
    } else {
        repo_name_is(t)
    }
}

/// How `resolve_repo` resolves a repository spec.
pub open spec fn resolve_repo_v(s: StoreV, spec: Seq<char>) -> Result<RepoRowV, AppErrorV> {
    let t = trim(spec);
    match crate::order::first_where(s.repos, repo_selector(t)) {
        Some(r) => Ok(repo_read(s, r)),
        None => Err(err_v("not_found"@, "repository not found: "@ + t)),
    }
}

/// Order by text (`BINARY` collation).
pub open spec fn by_text() -> spec_fn(Seq<char>, Seq<char>) -> bool {
    |a: Seq<char>, b: Seq<char>| text_lt(a, b)
}

/// Slugs of the live lists holding `repo_id`, sorted.
pub open spec fn member_slugs(s: StoreV, repo_id: i64) -> Seq<Seq<char>> {
    sort_by(lists_of_repo(s.lists, s.memberships, repo_id), by_text())
}

/// `a` comes before `b` under `ORDER BY starred_at DESC, stars DESC` (NULLs last).
pub open spec fn starred_before(a: StoredRepoV, b: StoredRepoV) -> bool {
    match (a.repo.starred_at, b.repo.starred_at) {
        (Some(x), Some(y)) => if x != y {
            text_lt(y, x)
        } else {
            stars_before(a.repo.stars, b.repo.stars)
        },
        (Some(_), None) => true,
        (None, Some(_)) => false,
        (None, None) => stars_before(a.repo.stars, b.repo.stars),
    }
}

pub open spec fn stars_before(a: Option<i64>, b: Option<i64>) -> bool {
    match (a, b) {
        (Some(x), Some(y)) => y < x,
        (Some(_), None) => true,
        _ => false,
    }
}

pub open spec fn by_starred() -> spec_fn(StoredRepoV, StoredRepoV) -> bool {
    |a: StoredRepoV, b: StoredRepoV| starred_before(a, b)
}

pub open spec fn by_repo_name() -> spec_fn(StoredRepoV, StoredRepoV) -> bool {
    |a: StoredRepoV, b: StoredRepoV| text_lt(a.repo.name_with_owner, b.repo.name_with_owner)
}

/// The description, or the empty text (`IFNULL(description, '')`).
pub open spec fn desc_text(d: Option<Seq<char>>) -> Seq<char> {
    match d {
        Some(x) => x,
        None => seq![],
    }
}

/// A repository passes the filters of `query_repos`.
pub open spec fn repo_selected(
    s: StoreV,
    r: StoredRepoV,
    list: Option<i64>,
    unlisted: bool,
    query: Option<Seq<char>>,
) -> bool {
    &&& match list {
        Some(lid) => is_member(s.memberships, r.repo.id, lid),
        None => !unlisted || lists_of_repo(s.lists, s.memberships, r.repo.id).len() == 0,
    }
    &&& match query {
        Some(q) => {
            let p = seq!['%'] + q + seq!['%'];
            ||| crate::text::like(p, r.repo.name_with_owner)
            ||| crate::text::like(p, desc_text(r.repo.description))
            ||| crate::text::like(p, json_text_of_strings(r.repo.topics))
        },
        None => true,
    }
}

pub open spec fn select_repos(
    s: StoreV,
    rs: Seq<StoredRepoV>,
    list: Option<i64>,
    unlisted: bool,
    query: Option<Seq<char>>,
) -> Seq<StoredRepoV>
    decreases rs.len(),
{
    if rs.len() == 0 {
        rs
    } else {
        let r = select_repos(s, rs.drop_last(), list, unlisted, query);
        if repo_selected(s, rs.last(), list, unlisted, query) {
            r.push(rs.last())
        } else {
            r
        }
    }
}

/// What `query_repos` returns.
pub open spec fn queried(
    s: StoreV,
    list: Option<i64>,
    unlisted: bool,
    query: Option<Seq<char>>,
    limit: nat,
) -> Seq<RepoRowV> {
    let all = sort_by(select_repos(s, s.repos, list, unlisted, query), by_starred()).map_values(
        |r: StoredRepoV| repo_read(s, r),
    );
    if all.len() <= limit {
        all
    } else {
        all.take(limit as int)
    }
}

/// Number of repositories in no live list.
pub open spec fn count_unlisted(s: StoreV, rs: Seq<StoredRepoV>) -> nat
    decreases rs.len(),
{
    if rs.len() == 0 {
        0
    } else {
        count_unlisted(s, rs.drop_last()) + if lists_of_repo(
            s.lists,
            s.memberships,
            rs.last().repo.id,
        ).len() == 0 {
            1nat
        } else {
            0nat
        }
    }
}

/// Counts of repositories, live lists and unlisted repositories.
#[derive(Debug)]
pub struct Stats {
    pub repos: i64,
    pub lists: i64,
    pub unlisted: i64,
}

impl StoredRepo {
    /// A copy of this stored repository.
    pub fn dup(&self) -> (r: StoredRepo)
        ensures
            r@ == self@,
    {
        StoredRepo { repo: self.repo.dup(), snapshot_at: self.snapshot_at.clone() }
    }
}

/// Stable insertion sort of texts.
pub fn sort_texts(v: &Vec<String>) -> (r: Vec<String>)
    ensures
        r.deep_view() == sort_by(v.deep_view(), by_text()),
{
    let ghost vv = v.deep_view();
    let mut r: Vec<String> = Vec::new();
    let mut i: usize = 0;
    assert(vv.take(0) =~= Seq::<Seq<char>>::empty());
    assert(r.deep_view() =~= Seq::<Seq<char>>::empty());
    while i < v.len()
        invariant
            vv == v.deep_view(),
            i <= v.len(),
            r.deep_view() == sort_by(vv.take(i as int), by_text()),
        decreases v.len() - i,
    {
        let x = v[i].clone();
        let ghost rv = r.deep_view();
        let mut k: usize = 0;
        while k < r.len() && !less_than(x.as_str(), r[k].as_str())
            invariant
                rv == r.deep_view(),
                k <= r.len(),
                x@ == vv[i as int],
                forall|j: int| 0 <= j < k ==> !(by_text())(x@, #[trigger] rv[j]),
            decreases r.len() - k,
        {
            k = k + 1;
        }
        proof {
            lemma_insert_pos(rv, x@, by_text(), k as int);
            assert(vv.take(i + 1).drop_last() =~= vv.take(i as int));
        }
        r.insert(k, x);
        assert(r.deep_view() =~= rv.insert(k as int, vv[i as int]));
        i = i + 1;
    }
    assert(vv.take(v.len() as int) =~= vv);
    r
}

impl Store {
    /// Whether the membership (`repo_id`, `list_id`) is stored.
    fn has_membership(&self, repo_id: i64, list_id: i64) -> (r: bool)
        requires
            self.wf(),
        ensures
            r == is_member(self@.memberships, repo_id, list_id),
    {
        proof {
            self.lemma_view_lists();
        }
        let mut i: usize = 0;
        while i < self.memberships.len()
            invariant
                self.wf(),
                i <= self.memberships@.len(),
                forall|k: int|
                    0 <= k < i ==> !(#[trigger] self@.memberships[k].repo_id == repo_id
                        && self@.memberships[k].list_id == list_id),
            decreases self.memberships@.len() - i,
        {
            proof {
                self.lemma_view_lists();
            }
            if self.memberships[i].repo_id == repo_id && self.memberships[i].list_id == list_id {
                assert(self@.memberships[i as int].repo_id == repo_id && self@.memberships[i as int].list_id == list_id);
                return true;
            }
            i = i + 1;
        }
        false
    }

    /// Slugs of the live lists holding `repo_id`, in list order.
    fn repo_list_slugs(&self, repo_id: i64) -> (r: Vec<String>)
        requires
            self.wf(),
        ensures
            r.deep_view() == lists_of_repo(self@.lists, self@.memberships, repo_id),
    {
        proof {
            self.lemma_view_lists();
        }
        let ghost ls = self@.lists;
        let mut r: Vec<String> = Vec::new();
        let mut i: usize = 0;
        while i < self.lists.len()
            invariant
                self.wf(),
                ls == self@.lists,
                ls.len() == self.lists@.len(),
                i <= ls.len(),
                r.deep_view() == lists_of_repo(ls.take(i as int), self@.memberships, repo_id),
            decreases ls.len() - i,
        {
            proof {
                self.lemma_view_lists();
            }
            assert(ls.take(i + 1).drop_last() =~= ls.take(i as int));
            if !str_eq(self.lists[i].status.as_str(), "tombstone") && self.has_membership(
                repo_id,
                self.lists[i].id,
            ) {
                let ghost before = r.deep_view();
                r.push(self.lists[i].slug.clone());
                assert(r.deep_view() =~= before.push(ls[i as int].slug));
            }
            i = i + 1;
        }
        assert(ls.take(ls.len() as int) =~= ls);
        r
    }

    /// The stored repository at `i`, as read.
    fn read_repo(&self, r: &StoredRepo) -> (row: RepoRow)
        requires
            self.wf(),
        ensures
            row@ == repo_read(self@, r@),
    {
        let mut row = r.repo.dup();
        row.lists = self.repo_list_slugs(r.repo.id);
        row
    }

    /// Resolves a numeric id, a node id (`R_...`) or `owner/name` to a repository.
    pub fn resolve_repo(&self, spec: &str) -> (r: Result<RepoRow, AppError>)
        requires
            self.wf(),
        ensures
            match r {
                Ok(row) => resolve_repo_v(self@, spec@) == Ok::<RepoRowV, AppErrorV>(row@),
                Err(e) => resolve_repo_v(self@, spec@) == Err::<RepoRowV, AppErrorV>(e@),
            },
    {
        proof {
            self.lemma_view_lists();
        }
        let t = trim_str(spec);
        let parsed = parse_int(t.as_str());
        let by_node = starts_with(t.as_str(), "R_");
        let folded = crate::text::fold_ascii(t.as_str());
        let ghost sel = repo_selector(t@);
        let mut i: usize = 0;
        while i < self.repos.len()
            invariant
                self.wf(),
                i <= self.repos@.len(),
                t@ == trim(spec@),
                parsed == parse_i64(t@),
                by_node == has_prefix(t@, "R_"@),
                folded@ == fold(t@),
                sel == repo_selector(t@),
                forall|j: int| 0 <= j < i ==> !sel(#[trigger] self@.repos[j]),
            decreases self.repos@.len() - i,
        {
            proof {
                self.lemma_view_lists();
            }
            let r = &self.repos[i];
            let hit = match parsed {
                Some(id) => r.repo.id == id,
                None => if by_node {
                    r.repo.node_id == t
                } else {
                    r.repo.name_with_owner == t || crate::text::fold_ascii(
                        r.repo.name_with_owner.as_str(),
                    ) == folded
                },
            };
            if hit {
                proof {
                    assert(r@ == self@.repos[i as int]);
                    assert(sel(self@.repos[i as int]));
                    lemma_first_index_found(self@.repos, sel, i as int);
                    assert(crate::order::first_where(self@.repos, repo_selector(t@)) == Some(self@.repos[i as int]));
                }
                let row = self.read_repo(r);
                assert(resolve_repo_v(self@, spec@) == Ok::<RepoRowV, AppErrorV>(repo_read(self@, self@.repos[i as int])));
                return Ok(row);
            }
            i = i + 1;
        }
        proof {
            lemma_first_index_none(self@.repos, sel);
        }
        Err(error_with("not_found", "repository not found: ", t.as_str()))
    }

    /// Slugs of the live lists holding `repo_id`, sorted.
    pub fn membership_slugs(&self, repo_id: i64) -> (r: Vec<String>)
        requires
            self.wf(),
        ensures
            r.deep_view() == member_slugs(self@, repo_id),
    {
        let v = self.repo_list_slugs(repo_id);
        sort_texts(&v)
    }

    fn repo_selected_exec(&self, r: &StoredRepo, list: Option<i64>, unlisted: bool, query: Option<&str>) -> (b: bool)
        requires
            self.wf(),
        ensures
            b == repo_selected(
                self@,
                r@,
                list,
                unlisted,
                match query {
                    Some(q) => Some(q@),
                    None => None,
                },
            ),
    {
        let first = match list {
            Some(lid) => self.has_membership(r.repo.id, lid),
            None => !unlisted || self.repo_list_slugs(r.repo.id).len() == 0,
        };
        if !first {
            return false;
        }
        match query {
            Some(q) => {
                if crate::text::like_contains(q, r.repo.name_with_owner.as_str()) {
                    return true;
                }
                let d = match &r.repo.description {
                    Some(d) => d.clone(),
                    None => String::new(),
                };
                if crate::text::like_contains(q, d.as_str()) {
                    return true;
                }
                let tj = topics_json_text(&r.repo.topics);
                crate::text::like_contains(q, tj.as_str())
            },
            None => true,
        }
    }

    fn sort_repos(v: &Vec<StoredRepo>, by_name: bool) -> (r: Vec<StoredRepo>)
        ensures
            r@.map_values(|x: StoredRepo| x@) == sort_by(
                v@.map_values(|x: StoredRepo| x@),
                if by_name {
                    by_repo_name()
                } else {
                    by_starred()
                },
            ),
    {
        let ghost before = if by_name {
            by_repo_name()
        } else {
            by_starred()
        };
        let ghost vv = v@.map_values(|x: StoredRepo| x@);
        let mut r: Vec<StoredRepo> = Vec::new();
        let mut i: usize = 0;
        assert(vv.take(0) =~= Seq::<StoredRepoV>::empty());
        while i < v.len()
            invariant
                vv == v@.map_values(|x: StoredRepo| x@),
                before == (if by_name {
                    by_repo_name()
                } else {
                    by_starred()
                }),
                i <= v.len(),
                r@.map_values(|x: StoredRepo| x@) == sort_by(vv.take(i as int), before),
            decreases v.len() - i,
        {
            let x = v[i].dup();
            let ghost rv = r@.map_values(|x: StoredRepo| x@);
            let mut k: usize = 0;
            while k < r.len() && !Store::repo_before(&x, &r[k], by_name)
                invariant
                    rv == r@.map_values(|x: StoredRepo| x@),
                    before == (if by_name {
                        by_repo_name()
                    } else {
                        by_starred()
                    }),
                    k <= r.len(),
                    forall|j: int| 0 <= j < k ==> !before(x@, #[trigger] rv[j]),
                decreases r.len() - k,
            {
                k = k + 1;
            }
            proof {
                lemma_insert_pos(rv, x@, before, k as int);
                assert(vv.take(i + 1).drop_last() =~= vv.take(i as int));
            }
            r.insert(k, x);
            assert(r@.map_values(|x: StoredRepo| x@) =~= rv.insert(k as int, vv[i as int]));
            i = i + 1;
        }
        assert(vv.take(v.len() as int) =~= vv);
        r
    }

    fn repo_before(a: &StoredRepo, b: &StoredRepo, by_name: bool) -> (r: bool)
        ensures
            r == (if by_name {
                by_repo_name()
            } else {
                by_starred()
            })(a@, b@),
    {
        if by_name {
            return less_than(a.repo.name_with_owner.as_str(), b.repo.name_with_owner.as_str());
        }
        let stars = match (a.repo.stars, b.repo.stars) {
            (Some(x), Some(y)) => y < x,
            (Some(_), None) => true,
            _ => false,
        };
        match (&a.repo.starred_at, &b.repo.starred_at) {
            (Some(x), Some(y)) => if !str_eq(x.as_str(), y.as_str()) {
                less_than(y.as_str(), x.as_str())
            } else {
                stars
            },
            (Some(_), None) => true,
            (None, Some(_)) => false,
            (None, None) => stars,
        }
    }

    /// Repositories in `list` (or in no live list when `unlisted`), matching `query`
    /// in name, description or topics, newest star first, at most `limit`.
    pub fn query_repos(
        &self,
        list: Option<&ListRow>,
        unlisted: bool,
        query: Option<&str>,
        limit: usize,
    ) -> (r: Vec<RepoRow>)
        requires
            self.wf(),
        ensures
            r@.map_values(|x: RepoRow| x@) == queried(
                self@,
                match list {
                    Some(l) => Some(l.id),
                    None => None,
                },
                unlisted,
                match query {
                    Some(q) => Some(q@),
                    None => None,
                },
                limit as nat,
            ),
    {
        proof {
            self.lemma_view_lists();
        }
        let lid: Option<i64> = match list {
            Some(l) => Some(l.id),
            None => None,
        };
        let ghost qv: Option<Seq<char>> = match query {
            Some(q) => Some(q@),
            None => None,
        };
        let ghost rs = self@.repos;
        let mut kept: Vec<StoredRepo> = Vec::new();
        let mut i: usize = 0;
        while i < self.repos.len()
            invariant
                self.wf(),
                rs == self@.repos,
                rs.len() == self.repos@.len(),
                i <= rs.len(),
                qv == (match query {
                    Some(q) => Some(q@),
                    None => None::<Seq<char>>,
                }),
                kept@.map_values(|x: StoredRepo| x@) == select_repos(self@, rs.take(i as int), lid, unlisted, qv),
            decreases rs.len() - i,
        {
            proof {
                self.lemma_view_lists();
            }
            assert(rs.take(i + 1).drop_last() =~= rs.take(i as int));
            if self.repo_selected_exec(&self.repos[i], lid, unlisted, query) {
                let ghost b = kept@.map_values(|x: StoredRepo| x@);
                kept.push(self.repos[i].dup());
                assert(kept@.map_values(|x: StoredRepo| x@) =~= b.push(rs[i as int]));
            }
            i = i + 1;
        }
        assert(rs.take(rs.len() as int) =~= rs);
        let sorted = Store::sort_repos(&kept, false);
        let ghost sv = sorted@.map_values(|x: StoredRepo| x@);
        let mut out: Vec<RepoRow> = Vec::new();
        let mut j: usize = 0;
        while j < sorted.len() && j < limit
            invariant
                self.wf(),
                sv == sorted@.map_values(|x: StoredRepo| x@),
                j <= sorted.len(),
                j <= limit,
                out@.len() == j,
                forall|k: int| 0 <= k < j ==> #[trigger] out@[k]@ == repo_read(self@, sv[k]),
            decreases sorted.len() - j,
        {
            out.push(self.read_repo(&sorted[j]));
            j = j + 1;
        }
        let ghost all = sv.map_values(|r: StoredRepoV| repo_read(self@, r));
        if sorted.len() <= limit {
            assert(out@.map_values(|x: RepoRow| x@) =~= all);
        } else {
            assert(out@.map_values(|x: RepoRow| x@) =~= all.take(limit as int));
        }
        out
    }

    /// All repositories ordered by `owner/name`.
    pub fn all_repos(&self) -> (r: Vec<RepoRow>)
        requires
            self.wf(),
        ensures
            r@.map_values(|x: RepoRow| x@) == sort_by(self@.repos, by_repo_name()).map_values(
                |x: StoredRepoV| repo_read(self@, x),
            ),
    {
        proof {
            self.lemma_view_lists();
        }
        assert(self.repos@.map_values(|x: StoredRepo| x@) =~= self@.repos);
        let sorted = Store::sort_repos(&self.repos, true);
        let ghost sv = sorted@.map_values(|x: StoredRepo| x@);
        let mut out: Vec<RepoRow> = Vec::new();
        let mut j: usize = 0;
        while j < sorted.len()
            invariant
                self.wf(),
                sv == sorted@.map_values(|x: StoredRepo| x@),
                j <= sorted.len(),
                out@.len() == j,
                forall|k: int| 0 <= k < j ==> #[trigger] out@[k]@ == repo_read(self@, sv[k]),
            decreases sorted.len() - j,
        {
            out.push(self.read_repo(&sorted[j]));
            j = j + 1;
        }
        assert(out@.map_values(|x: RepoRow| x@) =~= sv.map_values(|x: StoredRepoV| repo_read(self@, x)));
        out
    }

    /// Number of stored repositories.
    pub fn repo_count(&self) -> (n: i64)
        requires
            self.wf(),
        ensures
            n == self@.repos.len() as i64,
    {
        proof {
            self.lemma_view_lists();
        }
        self.repos.len() as i64
    }
}


// ---------------------------------------------------------------------
// Changing lists.
pub open spec fn list_not(id: i64) -> spec_fn(ListRowV) -> bool {
    |l: ListRowV| l.id != id
}

pub open spec fn membership_list_not(id: i64) -> spec_fn(MembershipV) -> bool {
    |m: MembershipV| m.list_id != id
}

/// The store without list `id` and without its memberships (`ON DELETE CASCADE`).
pub open spec fn without_list(s: StoreV, id: i64) -> StoreV {
    StoreV {
        lists: keep_where(s.lists, list_not(id)),
        memberships: keep_where(s.memberships, membership_list_not(id)),
        ..s
    }
}

/// The store with the list whose id is `new.id` replaced by `new`.
pub open spec fn with_list(s: StoreV, new: ListRowV) -> StoreV {
    StoreV {
        lists: s.lists.map_values(|l: ListRowV| if l.id == new.id { new } else { l }),
        ..s
    }
}

/// The slug texts of the stored lists, in order.
pub open spec fn slugs_of(ls: Seq<ListRowV>) -> Seq<Seq<char>> {
    ls.map_values(|l: ListRowV| l.slug)
}

/// The slug a new list starts from: the given slug if it is not blank, else the
/// name, slugified.
pub open spec fn create_base(name: Seq<char>, slug: Option<Seq<char>>) -> Seq<char> {
    match slug {
        Some(x) => if trim(x).len() > 0 {
            slug_of(trim(x))
        } else {
            slug_of(name)
        },
        None => slug_of(name),
    }
}

/// The SQLite error a violated uniqueness rule raises.
pub open spec fn unique_err(what: Seq<char>) -> AppErrorV {
    err_v("error"@, "UNIQUE constraint failed: "@ + what)
}

/// The error SQLite raises when the id counter is exhausted.
pub open spec fn full_err() -> AppErrorV {
    err_v("error"@, "database or disk is full"@)
}

/// The new draft row `create_list` inserts.
pub open spec fn draft_row(
    s: StoreV,
    slug: Seq<char>,
    name: Seq<char>,
    description: Option<Seq<char>>,
    is_private: bool,
    now: Seq<char>,
) -> ListRowV {
    ListRowV {
        id: (s.list_seq + 1) as i64,
        slug,
        name,
        description,
        is_private,
        github_id: None,
        status: "draft"@,
        repo_count: 0,
        created_at: now,
        updated_at: now,
    }
}

/// What `create_list` does to the store and returns.
pub open spec fn create_list_v(
    s: StoreV,
    name: Seq<char>,
    slug: Option<Seq<char>>,
    description: Option<Seq<char>>,
    is_private: bool,
    now: Seq<char>,
) -> (StoreV, Result<ListRowV, AppErrorV>) {
    let base = create_base(name, slug);
    let chosen = unique_slug_of(base, slugs_of(s.lists));
    if base.len() == 0 {
        (s, Err(err_v("invalid"@, "list slug is empty"@)))
    } else if is_taken(slugs_of(s.lists), chosen) {
        (s, Err(unique_err("list.slug"@)))
    } else if s.list_seq == i64::MAX {
        (s, Err(full_err()))
    } else {
        let row = draft_row(s, chosen, name, description, is_private, now);
        let s2 = StoreV { lists: s.lists.push(row), list_seq: row.id, ..s };
        (s2, Ok(with_count(s2, row)))
    }
}

/// The row `update_list` writes for list `l`.
pub open spec fn updated_row(
    l: ListRowV,
    name: Option<Seq<char>>,
    description: Option<Option<Seq<char>>>,
    is_private: Option<bool>,
    now: Seq<char>,
) -> ListRowV {
    ListRowV {
        name: match name {
            Some(n) => n,
            None => l.name,
        },
        description: match description {
            Some(d) => d,
            None => l.description,
        },
        is_private: match is_private {
            Some(p) => p,
            None => l.is_private,
        },
        status: if l.status == "synced"@ {
            "dirty"@
        } else {
            l.status
        },
        updated_at: now,
        ..l
    }
}

pub open spec fn tombstone_edit_err() -> AppErrorV {
    AppErrorV {
        code: "conflict"@,
        message: "cannot edit a tombstoned list"@,
        hint: Some("create a new list or wait until apply finishes"@),
    }
}

/// What `update_list` does: tombstoned lists refuse edits, synced lists become dirty.
pub open spec fn update_list_v(
    s: StoreV,
    spec: Seq<char>,
    name: Option<Seq<char>>,
    description: Option<Option<Seq<char>>>,
    is_private: Option<bool>,
    now: Seq<char>,
) -> (StoreV, Result<ListRowV, AppErrorV>) {
    match resolve_list_v(s, spec) {
        Err(e) => (s, Err(e)),
        Ok(l) => if is_tombstone(l) {
            (s, Err(tombstone_edit_err()))
        } else {
            let row = updated_row(l, name, description, is_private, now);
            let s2 = with_list(s, row);
            (s2, Ok(with_count(s2, row)))
        },
    }
}

/// What `delete_list` does: a draft never pushed to GitHub is removed with its
/// memberships; any other list becomes a tombstone.
pub open spec fn delete_list_v(s: StoreV, spec: Seq<char>, now: Seq<char>) -> (
    StoreV,
    Result<ListRowV, AppErrorV>,
) {
    match resolve_list_v(s, spec) {
        Err(e) => (s, Err(e)),
        Ok(l) => if l.github_id is None && l.status == "draft"@ {
            (without_list(s, l.id), Ok(l))
        } else {
            let row = ListRowV { status: "tombstone"@, updated_at: now, ..l };
            let s2 = with_list(s, row);
            (s2, Ok(with_count(s2, row)))
        },
    }
}

/// Replacing a list by a row with the same id, slug and GitHub id keeps the store
/// well formed.
pub proof fn lemma_with_list_wf(s: StoreV, new: ListRowV)
    requires
        store_wf(s),
        forall|i: int|
            0 <= i < s.lists.len() && #[trigger] s.lists[i].id == new.id ==> s.lists[i].slug == new.slug
                && s.lists[i].github_id == new.github_id,
    ensures
        store_wf(with_list(s, new)),
        with_list(s, new).lists.len() == s.lists.len(),
        forall|i: int| 0 <= i < s.lists.len() ==> #[trigger] with_list(s, new).lists[i].id == s.lists[i].id,
{
    let s2 = with_list(s, new);
    assert forall|i: int, j: int| 0 <= i < j < s2.lists.len() implies list_pair_ok(s2.lists[i], s2.lists[j]) by {
        assert(list_pair_ok(s.lists[i], s.lists[j]));
    }
    assert forall|id: i64| has_list_id(s, id) implies has_list_id(s2, id) by {
        let i = choose|i: int| 0 <= i < s.lists.len() && s.lists[i].id == id;
        assert(s2.lists[i].id == id);
    }
    assert forall|i: int| 0 <= i < s2.lists.len() implies 1 <= #[trigger] s2.lists[i].id <= s2.list_seq by {
        assert(s2.lists[i].id == s.lists[i].id);
    }
}

/// Removing a list and its memberships keeps the store well formed.
#[verifier::spinoff_prover]
#[verifier::rlimit(40)]
proof fn lemma_without_list_wf(s: StoreV, id: i64)
    requires
        store_wf(s),
    ensures
        store_wf(without_list(s, id)),
{
    let s2 = without_list(s, id);
    lemma_keep_where(s.lists, list_not(id), list_pair_rel());
    lemma_keep_where(s.memberships, membership_list_not(id), membership_pair_rel());
    assert forall|i: int| 0 <= i < s2.lists.len() implies 1 <= #[trigger] s2.lists[i].id <= s2.list_seq by {
        let a = choose|a: int| 0 <= a < s.lists.len() && s.lists[a] == s2.lists[i];
        assert(1 <= s.lists[a].id <= s.list_seq);
    }
    assert forall|i: int| 0 <= i < s2.memberships.len() implies has_repo_id(s2, #[trigger] s2.memberships[i].repo_id)
        && has_list_id(s2, s2.memberships[i].list_id) by {
        let m = s2.memberships[i];
        assert((membership_list_not(id))(m));
        let a = choose|a: int| 0 <= a < s.memberships.len() && s.memberships[a] == m;
        assert(has_repo_id(s, s.memberships[a].repo_id));
        assert(has_list_id(s, m.list_id));
        let b = choose|b: int| 0 <= b < s.lists.len() && s.lists[b].id == m.list_id;
        assert((list_not(id))(s.lists[b]));
        let k = choose|k: int| 0 <= k < s2.lists.len() && s2.lists[k] == s.lists[b];
        assert(s2.lists[k].id == m.list_id);
    }
}

/// A resolved list is a stored list, read with its count.
pub proof fn lemma_resolved_is_stored(s: StoreV, spec: Seq<char>)
    ensures
        resolve_list_v(s, spec) is Ok ==> exists|k: int|
            0 <= k < s.lists.len() && resolve_list_v(s, spec)->Ok_0 == with_count(s, #[trigger] s.lists[k]),
{
    let t = trim(spec);
    if parse_i64(t) is Some {
        lemma_first_index_props(s.lists, id_is(parse_i64(t)->0));
    }
    lemma_first_index_props(s.lists, github_id_is(t));
    lemma_first_index_props(s.lists, slug_or_name_is(t));
}

/// Ids that rise from 1 bound the number of lists.
proof fn lemma_lists_len(ls: Seq<ListRowV>, list_seq: i64)
    requires
        lists_wf(ls, list_seq),
        list_seq >= 0,
    ensures
        ls.len() <= list_seq,
{
    if ls.len() > 0 {
        assert forall|i: int| 0 <= i < ls.len() implies #[trigger] ls[i].id >= i + 1 by {
            lemma_id_at_least(ls, list_seq, i);
        }
        assert(ls[ls.len() - 1].id >= ls.len());
        assert(ls[ls.len() - 1].id <= list_seq);
    }
}

proof fn lemma_id_at_least(ls: Seq<ListRowV>, list_seq: i64, i: int)
    requires
        lists_wf(ls, list_seq),
        0 <= i < ls.len(),
    ensures
        ls[i].id >= i + 1,
    decreases i,
{
    if i > 0 {
        lemma_id_at_least(ls, list_seq, i - 1);
        assert(list_pair_ok(ls[i - 1], ls[i]));
    }
}

impl Store {
    /// The slugs of all lists.
    pub fn all_slugs(&self) -> (r: Vec<String>)
        requires
            self.wf(),
        ensures
            r@.map_values(|x: String| x@) == slugs_of(self@.lists),
    {
        proof {
            self.lemma_view_lists();
        }
        let mut r: Vec<String> = Vec::new();
        let mut i: usize = 0;
        while i < self.lists.len()
            invariant
                self.wf(),
                i <= self.lists@.len(),
                r@.len() == i,
                forall|k: int| 0 <= k < i ==> #[trigger] r@[k]@ == self@.lists[k].slug,
            decreases self.lists@.len() - i,
        {
            proof {
                self.lemma_view_lists();
            }
            r.push(self.lists[i].slug.clone());
            i = i + 1;
        }
        assert(r@.map_values(|x: String| x@) =~= slugs_of(self@.lists));
        r
    }

    /// Removes list `id` and its memberships.
    fn remove_list(&mut self, id: i64)
        requires
            old(self).wf(),
        ensures
            final(self)@ == without_list(old(self)@, id),
            final(self).wf(),
    {
        proof {
            self.lemma_view_lists();
            lemma_without_list_wf(self@, id);
        }
        let ghost s0 = self@;
        let mut lists: Vec<ListRow> = Vec::new();
        let mut i: usize = 0;
        while i < self.lists.len()
            invariant
                s0 == self@,
                self.lists@.len() == s0.lists.len(),
                forall|k: int| 0 <= k < s0.lists.len() ==> #[trigger] s0.lists[k] == self.lists@[k]@,
                i <= s0.lists.len(),
                lists@.map_values(|l: ListRow| l@) == keep_where(s0.lists.take(i as int), list_not(id)),
            decreases s0.lists.len() - i,
        {
            assert(s0.lists.take(i + 1).drop_last() =~= s0.lists.take(i as int));
            if self.lists[i].id != id {
                let ghost b = lists@.map_values(|l: ListRow| l@);
                lists.push(self.lists[i].dup());
                assert(lists@.map_values(|l: ListRow| l@) =~= b.push(s0.lists[i as int]));
            }
            i = i + 1;
        }
        assert(s0.lists.take(s0.lists.len() as int) =~= s0.lists);
        let mut ms: Vec<Membership> = Vec::new();
        let mut j: usize = 0;
        while j < self.memberships.len()
            invariant
                s0 == self@,
                self.memberships@.len() == s0.memberships.len(),
                forall|k: int| 0 <= k < s0.memberships.len() ==> #[trigger] s0.memberships[k] == self.memberships@[k]@,
                j <= s0.memberships.len(),
                ms@.map_values(|m: Membership| m@) == keep_where(s0.memberships.take(j as int), membership_list_not(id)),
            decreases s0.memberships.len() - j,
        {
            assert(s0.memberships.take(j + 1).drop_last() =~= s0.memberships.take(j as int));
            if self.memberships[j].list_id != id {
                let ghost b = ms@.map_values(|m: Membership| m@);
                let m = &self.memberships[j];
                ms.push(Membership { repo_id: m.repo_id, list_id: m.list_id, source: m.source.clone() });
                assert(ms@.map_values(|m: Membership| m@) =~= b.push(s0.memberships[j as int]));
            }
            j = j + 1;
        }
        assert(s0.memberships.take(s0.memberships.len() as int) =~= s0.memberships);
        self.lists = lists;
        self.memberships = ms;
        proof {
            assert(self@.lists =~= without_list(s0, id).lists);
            assert(self@.memberships =~= without_list(s0, id).memberships);
            assert(self@.repos =~= s0.repos);
            assert(self@.proposals =~= s0.proposals);
            assert(self@.meta =~= s0.meta);
        }
    }

    /// Replaces the list whose id is `new.id` by `new`.
    fn put_list(&mut self, new: ListRow)
        requires
            old(self).wf(),
            forall|i: int|
                0 <= i < old(self)@.lists.len() && #[trigger] old(self)@.lists[i].id == new.id
                    ==> old(self)@.lists[i].slug == new@.slug && old(self)@.lists[i].github_id
                    == new@.github_id,
        ensures
            final(self)@ == with_list(old(self)@, new@),
            final(self).wf(),
    {
        proof {
            self.lemma_view_lists();
            lemma_with_list_wf(self@, new@);
        }
        let ghost s0 = self@;
        let mut i: usize = 0;
        while i < self.lists.len()
            invariant
                self.lists@.len() == s0.lists.len(),
                i <= s0.lists.len(),
                forall|k: int| 0 <= k < i ==> #[trigger] self.lists@[k]@ == (if s0.lists[k].id == new.id { new@ } else { s0.lists[k] }),
                forall|k: int| i <= k < s0.lists.len() ==> #[trigger] self.lists@[k]@ == s0.lists[k],
                self.repos == old(self).repos,
                self.memberships == old(self).memberships,
                self.proposals == old(self).proposals,
                self.meta == old(self).meta,
                self.list_seq == old(self).list_seq,
                s0 == old(self)@,
            decreases s0.lists.len() - i,
        {
            let ghost before = self.lists@;
            if self.lists[i].id == new.id {
                self.lists.set(i, new.dup());
                assert(self.lists@[i as int]@ == new@);
            }
            assert forall|k: int| 0 <= k < i + 1 implies #[trigger] self.lists@[k]@ == (if s0.lists[k].id == new.id { new@ } else { s0.lists[k] }) by {
                if k < i {
                    assert(self.lists@[k] == before[k]);
                } else {
                    assert(before[k]@ == s0.lists[k]);
                    if s0.lists[k].id != new.id {
                        assert(self.lists@[k] == before[k]);
                    }
                }
            }
            i = i + 1;
        }
        proof {
            assert(self@.lists =~= with_list(s0, new@).lists);
        }
    }

    /// Creates a local draft list; its slug is the given slug (or the name)
    /// slugified, made unique among the stored slugs.
    pub fn create_list(
        &mut self,
        name: &str,
        slug: Option<&str>,
        description: Option<&str>,
        is_private: bool,
        now: &str,
    ) -> (r: Result<ListRow, AppError>)
        requires
            old(self).wf(),
        ensures
            final(self).wf(),
            (final(self)@, match r {
                Ok(l) => Ok::<ListRowV, AppErrorV>(l@),
                Err(e) => Err(e@),
            }) == create_list_v(
                old(self)@,
                name@,
                match slug {
                    Some(x) => Some(x@),
                    None => None,
                },
                match description {
                    Some(x) => Some(x@),
                    None => None,
                },
                is_private,
                now@,
            ),
    {
        proof {
            self.lemma_view_lists();
        }
        let taken = self.all_slugs();
        let base = match slug {
            Some(x) => {
                let t = trim_str(x);
                if !t.as_str().is_empty() {
                    slugify(t.as_str())
                } else {
                    slugify(name)
                }
            },
            None => slugify(name),
        };
        if base.as_str().is_empty() {
            return Err(AppError::new("invalid", owned("list slug is empty")));
        }
        assert(texts(taken@) == slugs_of(self@.lists));
        let chosen = unique_slug(base.as_str(), taken.as_slice());
        if taken_contains(taken.as_slice(), &chosen) {
            return Err(error_with("error", "UNIQUE constraint failed: ", "list.slug"));
        }
        if self.list_seq == i64::MAX {
            return Err(AppError::new("error", owned("database or disk is full")));
        }
        let id = self.list_seq + 1;
        let row = ListRow {
            id,
            slug: chosen,
            name: owned(name),
            description: match description {
                Some(d) => Some(owned(d)),
                None => None,
            },
            is_private,
            github_id: None,
            status: owned("draft"),
            repo_count: 0,
            created_at: owned(now),
            updated_at: owned(now),
        };
        let ghost s0 = self@;
        let ghost rv = row@;
        proof {
            lemma_lists_len(s0.lists, s0.list_seq);
            assert forall|i: int| 0 <= i < s0.lists.len() implies list_pair_ok(s0.lists[i], rv) by {
                assert(s0.lists[i].id <= s0.list_seq);
                if s0.lists[i].slug == rv.slug {
                    assert(slugs_of(s0.lists)[i] == rv.slug);
                }
            }
        }
        self.lists.push(row);
        self.list_seq = id;
        proof {
            self.lemma_view_lists();
            assert(self@.lists =~= s0.lists.push(rv));
            assert(self@.memberships =~= s0.memberships);
            assert(self@.repos =~= s0.repos);
            assert(self@.proposals =~= s0.proposals);
            assert(self@.meta =~= s0.meta);
            assert forall|k: i64| has_list_id(s0, k) implies has_list_id(self@, k) by {
                let i = choose|i: int| 0 <= i < s0.lists.len() && s0.lists[i].id == k;
                assert(self@.lists[i].id == k);
            }
            let ls = self@.lists;
            assert forall|i: int, j: int| 0 <= i < j < ls.len() implies list_pair_ok(ls[i], ls[j]) by {
                if j < ls.len() - 1 {
                    assert(list_pair_ok(s0.lists[i], s0.lists[j]));
                } else {
                    assert(list_pair_ok(s0.lists[i], rv));
                }
            }
            assert forall|i: int| 0 <= i < ls.len() implies 1 <= #[trigger] ls[i].id <= self@.list_seq by {
                if i < ls.len() - 1 {
                    assert(1 <= s0.lists[i].id <= s0.list_seq);
                }
            }
        }
        let n = self.lists.len() - 1;
        Ok(self.read_list(n))
    }

    /// Renames or edits a list; a synced list becomes dirty, a tombstoned one refuses.
    pub fn update_list(
        &mut self,
        spec: &str,
        name: Option<&str>,
        description: Option<Option<&str>>,
        is_private: Option<bool>,
        now: &str,
    ) -> (r: Result<ListRow, AppError>)
        requires
            old(self).wf(),
        ensures
            final(self).wf(),
            (final(self)@, match r {
                Ok(l) => Ok::<ListRowV, AppErrorV>(l@),
                Err(e) => Err(e@),
            }) == update_list_v(
                old(self)@,
                spec@,
                match name {
                    Some(x) => Some(x@),
                    None => None,
                },
                match description {
                    Some(Some(x)) => Some(Some(x@)),
                    Some(None) => Some(None),
                    None => None,
                },
                is_private,
                now@,
            ),
    {
        let list = match self.resolve_list(spec) {
            Ok(l) => l,
            Err(e) => {
                return Err(e);
            },
        };
        proof {
            lemma_resolved_is_stored(self@, spec@);
        }
        if str_eq(list.status.as_str(), "tombstone") {
            return Err(
                AppError::new("conflict", owned("cannot edit a tombstoned list")).hint(
                    owned("create a new list or wait until apply finishes"),
                ),
            );
        }
        let mut row = list.dup();
        match name {
            Some(n) => {
                row.name = owned(n);
            },
            None => {},
        }
        match description {
            Some(d) => {
                row.description = match d {
                    Some(x) => Some(owned(x)),
                    None => None,
                };
            },
            None => {},
        }
        match is_private {
            Some(p) => {
                row.is_private = p;
            },
            None => {},
        }
        if str_eq(list.status.as_str(), "synced") {
            row.status = owned("dirty");
        }
        row.updated_at = owned(now);
        self.store_row(row)
    }

    /// Writes back a row read from the store with the same keys, and reads it again.
    fn store_row(&mut self, row: ListRow) -> (r: Result<ListRow, AppError>)
        requires
            old(self).wf(),
            exists|k: int|
                0 <= k < old(self)@.lists.len() && old(self)@.lists[k].id == row.id
                    && old(self)@.lists[k].slug == row@.slug && old(self)@.lists[k].github_id
                    == row@.github_id,
        ensures
            final(self).wf(),
            final(self)@ == with_list(old(self)@, row@),
            r matches Ok(l) && l@ == with_count(final(self)@, row@),
    {
        proof {
            let s = self@;
            let k = choose|k: int|
                0 <= k < s.lists.len() && s.lists[k].id == row.id && s.lists[k].slug == row@.slug
                    && s.lists[k].github_id == row@.github_id;
            assert forall|i: int| 0 <= i < s.lists.len() && #[trigger] s.lists[i].id == row.id implies s.lists[i].slug
                == row@.slug && s.lists[i].github_id == row@.github_id by {
                if i < k {
                    assert(list_pair_ok(s.lists[i], s.lists[k]));
                } else if i > k {
                    assert(list_pair_ok(s.lists[k], s.lists[i]));
                }
            }
        }
        let id = row.id;
        let ghost rv = row@;
        self.put_list(row);
        match self.find_list_by_id_index(id) {
            Some(i) => {
                proof {
                    lemma_first_index_props(self@.lists, id_is(id));
                    assert(self@.lists[i as int] == rv);
                }
                Ok(self.read_list(i))
            },
            None => {
                proof {
                    let s = old(self)@;
                    let k = choose|k: int| 0 <= k < s.lists.len() && s.lists[k].id == id;
                    lemma_first_index_props(self@.lists, id_is(id));
                    assert(self@.lists[k].id == id);
                }
                Err(AppError::new("error", owned("list update vanished")))
            },
        }
    }

    /// Deletes a list: a draft never pushed to GitHub is removed, any other list is
    /// marked as a tombstone until apply deletes it on GitHub.
    pub fn delete_list(&mut self, spec: &str, now: &str) -> (r: Result<ListRow, AppError>)
        requires
            old(self).wf(),
        ensures
            final(self).wf(),
            (final(self)@, match r {
                Ok(l) => Ok::<ListRowV, AppErrorV>(l@),
                Err(e) => Err(e@),
            }) == delete_list_v(old(self)@, spec@, now@),
    {
        let list = match self.resolve_list(spec) {
            Ok(l) => l,
            Err(e) => {
                return Err(e);
            },
        };
        proof {
            lemma_resolved_is_stored(self@, spec@);
        }
        if list.github_id.is_none() && str_eq(list.status.as_str(), "draft") {
            self.remove_list(list.id);
            return Ok(list);
        }
        let mut row = list.dup();
        row.status = owned("tombstone");
        row.updated_at = owned(now);
        self.store_row(row)
    }
}


// ---------------------------------------------------------------------
// Changing memberships.
pub open spec fn fk_err() -> AppErrorV {
    err_v("error"@, "FOREIGN KEY constraint failed"@)
}

/// What `add_membership` does (`INSERT OR REPLACE` under foreign keys).
pub open spec fn add_membership_v(s: StoreV, repo_id: i64, list_id: i64, source: Seq<char>) -> (
    StoreV,
    Result<(), AppErrorV>,
) {
    if !has_repo_id(s, repo_id) || !has_list_id(s, list_id) {
        (s, Err(fk_err()))
    } else if is_member(s.memberships, repo_id, list_id) {
        (
            StoreV {
                memberships: s.memberships.map_values(
                    |m: MembershipV|
                        if m.repo_id == repo_id && m.list_id == list_id {
                            MembershipV { source, ..m }
                        } else {
                            m
                        },
                ),
                ..s
            },
            Ok(()),
        )
    } else {
        (
            StoreV {
                memberships: s.memberships.push(MembershipV { repo_id, list_id, source }),
                ..s
            },
            Ok(()),
        )
    }
}

pub open spec fn membership_repo_not(repo_id: i64) -> spec_fn(MembershipV) -> bool {
    |m: MembershipV| m.repo_id != repo_id
}

/// Adds `repo_id` to each list of `ids` in turn, stopping at the first failure.
pub open spec fn add_all_v(s: StoreV, repo_id: i64, ids: Seq<i64>, source: Seq<char>) -> (
    StoreV,
    Result<(), AppErrorV>,
)
    decreases ids.len(),
{
    if ids.len() == 0 {
        (s, Ok(()))
    } else {
        let (s1, r) = add_all_v(s, repo_id, ids.drop_last(), source);
        match r {
            Err(e) => (s1, Err(e)),
            Ok(_) => add_membership_v(s1, repo_id, ids.last(), source),
        }
    }
}

/// What `set_membership` does: the repository's memberships become exactly `ids`.
pub open spec fn set_membership_v(s: StoreV, repo_id: i64, ids: Seq<i64>, source: Seq<char>) -> (
    StoreV,
    Result<(), AppErrorV>,
) {
    add_all_v(
        StoreV { memberships: keep_where(s.memberships, membership_repo_not(repo_id)), ..s },
        repo_id,
        ids,
        source,
    )
}

pub open spec fn list_is_synced(s: StoreV, list_id: i64) -> bool {
    exists|i: int| 0 <= i < s.lists.len() && s.lists[i].id == list_id && s.lists[i].status == "synced"@
}

pub open spec fn not_in_synced(s: StoreV) -> spec_fn(MembershipV) -> bool {
    |m: MembershipV| !list_is_synced(s, m.list_id)
}

/// What `clear_synced_memberships` does: memberships of synced lists are dropped.
pub open spec fn clear_synced_v(s: StoreV) -> StoreV {
    StoreV { memberships: keep_where(s.memberships, not_in_synced(s)), ..s }
}

proof fn lemma_keep_memberships_wf(s: StoreV, p: spec_fn(MembershipV) -> bool)
    requires
        store_wf(s),
    ensures
        store_wf(StoreV { memberships: keep_where(s.memberships, p), ..s }),
{
    let s2 = StoreV { memberships: keep_where(s.memberships, p), ..s };
    lemma_keep_where(s.memberships, p, membership_pair_rel());
    assert forall|i: int| 0 <= i < s2.memberships.len() implies has_repo_id(s2, #[trigger] s2.memberships[i].repo_id)
        && has_list_id(s2, s2.memberships[i].list_id) by {
        let a = choose|a: int| 0 <= a < s.memberships.len() && s.memberships[a] == s2.memberships[i];
        assert(has_repo_id(s, s.memberships[a].repo_id));
    }
}

proof fn lemma_add_membership_wf(s: StoreV, repo_id: i64, list_id: i64, source: Seq<char>)
    requires
        store_wf(s),
    ensures
        store_wf(add_membership_v(s, repo_id, list_id, source).0),
        add_membership_v(s, repo_id, list_id, source).0.lists == s.lists,
        add_membership_v(s, repo_id, list_id, source).0.repos == s.repos,
        add_membership_v(s, repo_id, list_id, source).0.proposals == s.proposals,
        add_membership_v(s, repo_id, list_id, source).0.meta == s.meta,
        add_membership_v(s, repo_id, list_id, source).0.list_seq == s.list_seq,
{
    let s2 = add_membership_v(s, repo_id, list_id, source).0;
    if has_repo_id(s, repo_id) && has_list_id(s, list_id) {
        if is_member(s.memberships, repo_id, list_id) {
            assert forall|i: int, j: int| 0 <= i < j < s2.memberships.len() implies membership_pair_ok(
                s2.memberships[i],
                s2.memberships[j],
            ) by {
                assert(membership_pair_ok(s.memberships[i], s.memberships[j]));
            }
            assert forall|i: int| 0 <= i < s2.memberships.len() implies has_repo_id(s2, #[trigger] s2.memberships[i].repo_id)
                && has_list_id(s2, s2.memberships[i].list_id) by {
                assert(has_repo_id(s, s.memberships[i].repo_id));
            }
        } else {
            let n = s.memberships.len();
            assert forall|i: int, j: int| 0 <= i < j < s2.memberships.len() implies membership_pair_ok(
                s2.memberships[i],
                s2.memberships[j],
            ) by {
                if j < n {
                    assert(membership_pair_ok(s.memberships[i], s.memberships[j]));
                } else {
                    assert(s2.memberships[i] == s.memberships[i]);
                }
            }
            assert forall|i: int| 0 <= i < s2.memberships.len() implies has_repo_id(s2, #[trigger] s2.memberships[i].repo_id)
                && has_list_id(s2, s2.memberships[i].list_id) by {
                if i < n {
                    assert(has_repo_id(s, s.memberships[i].repo_id));
                }
            }
        }
    }
}

/// A failure while adding memberships ends the sequence of additions.
proof fn lemma_add_all_stops(s: StoreV, repo_id: i64, ids: Seq<i64>, source: Seq<char>, k: int)
    requires
        0 <= k <= ids.len(),
        add_all_v(s, repo_id, ids.take(k), source).1 is Err,
    ensures
        add_all_v(s, repo_id, ids, source) == add_all_v(s, repo_id, ids.take(k), source),
    decreases ids.len() - k,
{
    if k < ids.len() {
        assert(ids.take(k + 1).drop_last() =~= ids.take(k));
        lemma_add_all_stops(s, repo_id, ids, source, k + 1);
    } else {
        assert(ids.take(k) =~= ids);
    }
}

impl Store {
    fn membership_index(&self, repo_id: i64, list_id: i64) -> (r: Option<usize>)
        requires
            self.wf(),
        ensures
            r is None ==> !is_member(self@.memberships, repo_id, list_id),
            r matches Some(i) ==> i < self@.memberships.len() && self@.memberships[i as int].repo_id == repo_id
                && self@.memberships[i as int].list_id == list_id,
    {
        proof {
            self.lemma_view_lists();
        }
        let mut i: usize = 0;
        while i < self.memberships.len()
            invariant
                self.wf(),
                i <= self.memberships@.len(),
                forall|k: int|
                    0 <= k < i ==> !(#[trigger] self@.memberships[k].repo_id == repo_id
                        && self@.memberships[k].list_id == list_id),
            decreases self.memberships@.len() - i,
        {
            proof {
                self.lemma_view_lists();
            }
            if self.memberships[i].repo_id == repo_id && self.memberships[i].list_id == list_id {
                return Some(i);
            }
            i = i + 1;
        }
        None
    }

    fn has_repo(&self, repo_id: i64) -> (r: bool)
        requires
            self.wf(),
        ensures
            r == has_repo_id(self@, repo_id),
    {
        proof {
            self.lemma_view_lists();
        }
        let mut i: usize = 0;
        while i < self.repos.len()
            invariant
                self.wf(),
                i <= self.repos@.len(),
                forall|k: int| 0 <= k < i ==> #[trigger] self@.repos[k].repo.id != repo_id,
            decreases self.repos@.len() - i,
        {
            proof {
                self.lemma_view_lists();
            }
            if self.repos[i].repo.id == repo_id {
                assert(self@.repos[i as int].repo.id == repo_id);
                return true;
            }
            i = i + 1;
        }
        false
    }

    fn has_list(&self, list_id: i64) -> (r: bool)
        requires
            self.wf(),
        ensures
            r == has_list_id(self@, list_id),
    {
        match self.find_list_by_id_index(list_id) {
            Some(i) => {
                proof {
                    lemma_first_index_props(self@.lists, id_is(list_id));
                }
                true
            },
            None => {
                proof {
                    lemma_first_index_props(self@.lists, id_is(list_id));
                }
                false
            },
        }
    }

    /// Puts a repository in a list (or records a new source for a membership it has).
    pub fn add_membership(&mut self, repo_id: i64, list_id: i64, source: &str) -> (r: Result<(), AppError>)
        requires
            old(self).wf(),
        ensures
            final(self).wf(),
            (final(self)@, match r {
                Ok(_) => Ok::<(), AppErrorV>(()),
                Err(e) => Err(e@),
            }) == add_membership_v(old(self)@, repo_id, list_id, source@),
    {
        proof {
            lemma_add_membership_wf(self@, repo_id, list_id, source@);
            self.lemma_view_lists();
        }
        if !self.has_repo(repo_id) || !self.has_list(list_id) {
            return Err(AppError::new("error", owned("FOREIGN KEY constraint failed")));
        }
        let ghost s0 = self@;
        match self.membership_index(repo_id, list_id) {
            Some(i) => {
                proof {
                    assert(is_member(s0.memberships, repo_id, list_id));
                }
                let ghost before = self.memberships@;
                self.memberships.set(i, Membership { repo_id, list_id, source: owned(source) });
                proof {
                    let target = add_membership_v(s0, repo_id, list_id, source@).0;
                    assert forall|k: int| 0 <= k < s0.memberships.len() implies #[trigger] self.memberships@[k]@
                        == target.memberships[k] by {
                        if k != i {
                            assert(membership_pair_ok(s0.memberships[k], s0.memberships[i as int]) || membership_pair_ok(s0.memberships[i as int], s0.memberships[k]));
                            assert(self.memberships@[k] == before[k]);
                        }
                    }
                    assert(self@.memberships =~= target.memberships);
                    assert(self@.lists =~= s0.lists);
                    assert(self@.repos =~= s0.repos);
                    assert(self@.proposals =~= s0.proposals);
                    assert(self@.meta =~= s0.meta);
                }
            },
            None => {
                self.memberships.push(Membership { repo_id, list_id, source: owned(source) });
                proof {
                    assert(self@.memberships =~= s0.memberships.push(MembershipV { repo_id, list_id, source: source@ }));
                    assert(self@.lists =~= s0.lists);
                    assert(self@.repos =~= s0.repos);
                    assert(self@.proposals =~= s0.proposals);
                    assert(self@.meta =~= s0.meta);
                }
            },
        }
        Ok(())
    }

    /// Keeps only the memberships `keep` accepts; `keep` is given as the predicate
    /// the exec test computes.
    fn drop_repo_memberships(&mut self, repo_id: i64)
        requires
            old(self).wf(),
        ensures
            final(self).wf(),
            final(self)@ == (StoreV {
                memberships: keep_where(old(self)@.memberships, membership_repo_not(repo_id)),
                ..old(self)@
            }),
    {
        proof {
            self.lemma_view_lists();
            lemma_keep_memberships_wf(self@, membership_repo_not(repo_id));
        }
        let ghost s0 = self@;
        let mut ms: Vec<Membership> = Vec::new();
        let mut j: usize = 0;
        while j < self.memberships.len()
            invariant
                s0 == self@,
                self.memberships@.len() == s0.memberships.len(),
                forall|k: int| 0 <= k < s0.memberships.len() ==> #[trigger] s0.memberships[k] == self.memberships@[k]@,
                j <= s0.memberships.len(),
                ms@.map_values(|m: Membership| m@) == keep_where(s0.memberships.take(j as int), membership_repo_not(repo_id)),
            decreases s0.memberships.len() - j,
        {
            assert(s0.memberships.take(j + 1).drop_last() =~= s0.memberships.take(j as int));
            if self.memberships[j].repo_id != repo_id {
                let ghost b = ms@.map_values(|m: Membership| m@);
                let m = &self.memberships[j];
                ms.push(Membership { repo_id: m.repo_id, list_id: m.list_id, source: m.source.clone() });
                assert(ms@.map_values(|m: Membership| m@) =~= b.push(s0.memberships[j as int]));
            }
            j = j + 1;
        }
        assert(s0.memberships.take(s0.memberships.len() as int) =~= s0.memberships);
        self.memberships = ms;
        proof {
            assert(self@.memberships =~= keep_where(s0.memberships, membership_repo_not(repo_id)));
            assert(self@.lists =~= s0.lists);
            assert(self@.repos =~= s0.repos);
            assert(self@.proposals =~= s0.proposals);
            assert(self@.meta =~= s0.meta);
        }
    }

    /// Replaces a repository's memberships by the lists `list_ids`.
    pub fn set_membership(&mut self, repo_id: i64, list_ids: &[i64], source: &str) -> (r: Result<(), AppError>)
        requires
            old(self).wf(),
        ensures
            final(self).wf(),
            (final(self)@, match r {
                Ok(_) => Ok::<(), AppErrorV>(()),
                Err(e) => Err(e@),
            }) == set_membership_v(old(self)@, repo_id, list_ids@, source@),
    {
        let ghost s0 = self@;
        self.drop_repo_memberships(repo_id);
        let ghost s1 = self@;
        let mut i: usize = 0;
        assert(list_ids@.take(0) =~= Seq::<i64>::empty());
        while i < list_ids.len()
            invariant
                self.wf(),
                i <= list_ids.len(),
                add_all_v(s1, repo_id, list_ids@.take(i as int), source@) == (self@, Ok::<(), AppErrorV>(())),
                s0 == old(self)@,
                s1 == (StoreV { memberships: keep_where(s0.memberships, membership_repo_not(repo_id)), ..s0 }),
            decreases list_ids.len() - i,
        {
            assert(list_ids@.take(i + 1).drop_last() =~= list_ids@.take(i as int));
            let ghost pre = self@;
            match self.add_membership(repo_id, list_ids[i], source) {
                Ok(_) => {},
                Err(e) => {
                    proof {
                        assert(list_ids@.take(i + 1).last() == list_ids@[i as int]);
                        assert(add_all_v(s1, repo_id, list_ids@.take(i + 1), source@) == (self@, Err::<(), AppErrorV>(e@)));
                        lemma_add_all_stops(s1, repo_id, list_ids@, source@, i + 1);
                    }
                    return Err(e);
                },
            }
            i = i + 1;
        }
        assert(list_ids@.take(list_ids.len() as int) =~= list_ids@);
        Ok(())
    }

    fn list_synced(&self, list_id: i64) -> (r: bool)
        requires
            self.wf(),
        ensures
            r == list_is_synced(self@, list_id),
    {
        proof {
            self.lemma_view_lists();
        }
        let mut i: usize = 0;
        while i < self.lists.len()
            invariant
                self.wf(),
                i <= self.lists@.len(),
                forall|k: int| 0 <= k < i ==> !(#[trigger] self@.lists[k].id == list_id && self@.lists[k].status == "synced"@),
            decreases self.lists@.len() - i,
        {
            proof {
                self.lemma_view_lists();
            }
            if self.lists[i].id == list_id && str_eq(self.lists[i].status.as_str(), "synced") {
                assert(self@.lists[i as int].id == list_id && self@.lists[i as int].status == "synced"@);
                return true;
            }
            i = i + 1;
        }
        false
    }

    /// Drops every membership of a synced list.
    pub fn clear_synced_memberships(&mut self)
        requires
            old(self).wf(),
        ensures
            final(self).wf(),
            final(self)@ == clear_synced_v(old(self)@),
    {
        proof {
            self.lemma_view_lists();
            lemma_keep_memberships_wf(self@, not_in_synced(self@));
        }
        let ghost s0 = self@;
        let mut ms: Vec<Membership> = Vec::new();
        let mut j: usize = 0;
        while j < self.memberships.len()
            invariant
                self.wf(),
                s0 == self@,
                self.memberships@.len() == s0.memberships.len(),
                forall|k: int| 0 <= k < s0.memberships.len() ==> #[trigger] s0.memberships[k] == self.memberships@[k]@,
                j <= s0.memberships.len(),
                ms@.map_values(|m: Membership| m@) == keep_where(s0.memberships.take(j as int), not_in_synced(s0)),
            decreases s0.memberships.len() - j,
        {
            assert(s0.memberships.take(j + 1).drop_last() =~= s0.memberships.take(j as int));
            if !self.list_synced(self.memberships[j].list_id) {
                let ghost b = ms@.map_values(|m: Membership| m@);
                let m = &self.memberships[j];
                ms.push(Membership { repo_id: m.repo_id, list_id: m.list_id, source: m.source.clone() });
                assert(ms@.map_values(|m: Membership| m@) =~= b.push(s0.memberships[j as int]));
            }
            j = j + 1;
        }
        assert(s0.memberships.take(s0.memberships.len() as int) =~= s0.memberships);
        self.memberships = ms;
        proof {
            assert(self@.memberships =~= keep_where(s0.memberships, not_in_synced(s0)));
            assert(self@.lists =~= s0.lists);
            assert(self@.repos =~= s0.repos);
            assert(self@.proposals =~= s0.proposals);
            assert(self@.meta =~= s0.meta);
        }
    }
}


// ---------------------------------------------------------------------
// Changing repositories.
pub open spec fn coalesce<A>(new: Option<A>, old: Option<A>) -> Option<A> {
    match new {
        Some(x) => Some(x),
        None => old,
    }
}

/// The row an upsert writes over an existing repository: new values, except that
/// missing ones keep the old (`COALESCE`), an empty URL keeps the old URL and an
/// empty topic list keeps the old topics.
pub open spec fn merged_repo(new: RepoRowV, old: RepoRowV) -> RepoRowV {
    RepoRowV {
        id: new.id,
        node_id: new.node_id,
        name_with_owner: new.name_with_owner,
        url: if new.url.len() > 0 {
            new.url
        } else {
            old.url
        },
        description: coalesce(new.description, old.description),
        homepage_url: coalesce(new.homepage_url, old.homepage_url),
        primary_language: coalesce(new.primary_language, old.primary_language),
        license: coalesce(new.license, old.license),
        stars: coalesce(new.stars, old.stars),
        forks: coalesce(new.forks, old.forks),
        is_private: new.is_private,
        is_archived: new.is_archived,
        is_fork: new.is_fork,
        pushed_at: coalesce(new.pushed_at, old.pushed_at),
        updated_at: coalesce(new.updated_at, old.updated_at),
        starred_at: coalesce(new.starred_at, old.starred_at),
        topics: if new.topics.len() > 0 {
            new.topics
        } else {
            old.topics
        },
        lists: seq![],
    }
}

pub open spec fn by_repo_id() -> spec_fn(StoredRepoV, StoredRepoV) -> bool {
    |a: StoredRepoV, b: StoredRepoV| a.repo.id < b.repo.id
}

pub open spec fn node_clash(s: StoreV, new: RepoRowV) -> bool {
    exists|i: int| 0 <= i < s.repos.len() && s.repos[i].repo.id != new.id && s.repos[i].repo.node_id == new.node_id
}

pub open spec fn name_clash(s: StoreV, new: RepoRowV) -> bool {
    exists|i: int|
        0 <= i < s.repos.len() && s.repos[i].repo.id != new.id && s.repos[i].repo.name_with_owner
            == new.name_with_owner
}

/// What `upsert_repo` does: insert the repository in id order, or merge it into
/// the stored one with the same id; another repository with the same node id or
/// name is a uniqueness failure.
pub open spec fn upsert_repo_v(s: StoreV, new: RepoRowV, snapshot_at: Seq<char>) -> (
    StoreV,
    Result<(), AppErrorV>,
) {
    if node_clash(s, new) {
        (s, Err(unique_err("repo.node_id"@)))
    } else if name_clash(s, new) {
        (s, Err(unique_err("repo.name_with_owner"@)))
    } else {
        match crate::order::first_where(s.repos, repo_id_is(new.id)) {
            Some(old) => (
                StoreV {
                    repos: s.repos.map_values(
                        |r: StoredRepoV|
                            if r.repo.id == new.id {
                                StoredRepoV { repo: merged_repo(new, old.repo), snapshot_at }
                            } else {
                                r
                            },
                    ),
                    ..s
                },
                Ok(()),
            ),
            None => (
                StoreV {
                    repos: crate::order::insert_sorted(
                        s.repos,
                        StoredRepoV { repo: RepoRowV { lists: seq![], ..new }, snapshot_at },
                        by_repo_id(),
                    ),
                    ..s
                },
                Ok(()),
            ),
        }
    }
}

pub open spec fn repo_in(ids: Seq<i64>) -> spec_fn(StoredRepoV) -> bool {
    |r: StoredRepoV| ids.contains(r.repo.id)
}

pub open spec fn membership_repo_in(ids: Seq<i64>) -> spec_fn(MembershipV) -> bool {
    |m: MembershipV| ids.contains(m.repo_id)
}

/// What `delete_repos_not_in` does: repositories outside `ids` go, with their
/// memberships.
pub open spec fn delete_repos_v(s: StoreV, ids: Seq<i64>) -> (StoreV, nat) {
    let kept = keep_where(s.repos, repo_in(ids));
    (
        StoreV { repos: kept, memberships: keep_where(s.memberships, membership_repo_in(ids)), ..s },
        (s.repos.len() - kept.len()) as nat,
    )
}

proof fn lemma_delete_repos_wf(s: StoreV, ids: Seq<i64>)
    requires
        store_wf(s),
    ensures
        store_wf(delete_repos_v(s, ids).0),
        keep_where(s.repos, repo_in(ids)).len() <= s.repos.len(),
{
    let s2 = delete_repos_v(s, ids).0;
    lemma_keep_where(s.repos, repo_in(ids), repo_pair_rel());
    lemma_keep_where(s.memberships, membership_repo_in(ids), membership_pair_rel());
    assert forall|i: int| 0 <= i < s2.memberships.len() implies has_repo_id(s2, #[trigger] s2.memberships[i].repo_id)
        && has_list_id(s2, s2.memberships[i].list_id) by {
        let m = s2.memberships[i];
        assert((membership_repo_in(ids))(m));
        let a = choose|a: int| 0 <= a < s.memberships.len() && s.memberships[a] == m;
        assert(has_repo_id(s, s.memberships[a].repo_id));
        let b = choose|b: int| 0 <= b < s.repos.len() && s.repos[b].repo.id == m.repo_id;
        assert((repo_in(ids))(s.repos[b]));
        let k = choose|k: int| 0 <= k < s2.repos.len() && s2.repos[k] == s.repos[b];
        assert(s2.repos[k].repo.id == m.repo_id);
    }
}

proof fn lemma_upsert_repo_wf(s: StoreV, new: RepoRowV, snapshot_at: Seq<char>)
    requires
        store_wf(s),
    ensures
        store_wf(upsert_repo_v(s, new, snapshot_at).0),
{
    if !node_clash(s, new) && !name_clash(s, new) {
        let s2 = upsert_repo_v(s, new, snapshot_at).0;
        lemma_first_index_props(s.repos, repo_id_is(new.id));
        let fi = first_index(s.repos, repo_id_is(new.id));
        if fi >= 0 {
            assert forall|i: int, j: int| 0 <= i < j < s2.repos.len() implies repo_pair_ok(s2.repos[i], s2.repos[j]) by {
                assert(repo_pair_ok(s.repos[i], s.repos[j]));
                if s.repos[i].repo.id == new.id {
                    assert(s.repos[j].repo.id != new.id);
                } else if s.repos[j].repo.id == new.id {
                    assert(s.repos[i].repo.id != new.id);
                }
            }
            assert forall|id: i64| has_repo_id(s, id) implies has_repo_id(s2, id) by {
                let i = choose|i: int| 0 <= i < s.repos.len() && s.repos[i].repo.id == id;
                assert(s2.repos[i].repo.id == id);
            }
        } else {
            let x = StoredRepoV { repo: RepoRowV { lists: seq![], ..new }, snapshot_at };
            let p = insert_pos(s.repos, x, by_repo_id());
            lemma_insert_pos_props(s.repos, x, by_repo_id());
            let rs = s.repos;
            assert forall|j: int| 0 <= j < rs.len() implies #[trigger] rs[j].repo.id != new.id by {
                assert(!(repo_id_is(new.id))(rs[j]));
            }
            assert forall|j: int| p <= j < rs.len() implies new.id < #[trigger] rs[j].repo.id by {
                if j > p {
                    assert(repo_pair_ok(rs[p], rs[j]));
                }
            }
            assert forall|i: int, j: int| 0 <= i < j < s2.repos.len() implies repo_pair_ok(s2.repos[i], s2.repos[j]) by {
                if j < p {
                    assert(repo_pair_ok(rs[i], rs[j]));
                } else if j == p {
                    assert(s2.repos[i] == rs[i]);
                    assert(!(by_repo_id())(x, rs[i]));
                } else if i < p {
                    assert(s2.repos[j] == rs[j - 1]);
                    assert(repo_pair_ok(rs[i], rs[j - 1]));
                } else if i == p {
                    assert(s2.repos[j] == rs[j - 1]);
                } else {
                    assert(repo_pair_ok(rs[i - 1], rs[j - 1]));
                }
            }
            assert forall|id: i64| has_repo_id(s, id) implies has_repo_id(s2, id) by {
                let i = choose|i: int| 0 <= i < s.repos.len() && s.repos[i].repo.id == id;
                if i < p {
                    assert(s2.repos[i].repo.id == id);
                } else {
                    assert(s2.repos[i + 1].repo.id == id);
                }
            }
        }
    }
}

/// The row an upsert writes over `old` for `new`.
fn merge_repo(new: &RepoRow, old: &RepoRow) -> (r: RepoRow)
    ensures
        r@ == merged_repo(new@, old@),
{
    let r = RepoRow {
        id: new.id,
        node_id: new.node_id.clone(),
        name_with_owner: new.name_with_owner.clone(),
        url: if new.url.as_str().is_empty() {
            old.url.clone()
        } else {
            new.url.clone()
        },
        description: if new.description.is_some() {
            dup_opt(&new.description)
        } else {
            dup_opt(&old.description)
        },
        homepage_url: if new.homepage_url.is_some() {
            dup_opt(&new.homepage_url)
        } else {
            dup_opt(&old.homepage_url)
        },
        primary_language: if new.primary_language.is_some() {
            dup_opt(&new.primary_language)
        } else {
            dup_opt(&old.primary_language)
        },
        license: if new.license.is_some() {
            dup_opt(&new.license)
        } else {
            dup_opt(&old.license)
        },
        stars: if new.stars.is_some() {
            new.stars
        } else {
            old.stars
        },
        forks: if new.forks.is_some() {
            new.forks
        } else {
            old.forks
        },
        is_private: new.is_private,
        is_archived: new.is_archived,
        is_fork: new.is_fork,
        pushed_at: if new.pushed_at.is_some() {
            dup_opt(&new.pushed_at)
        } else {
            dup_opt(&old.pushed_at)
        },
        updated_at: if new.updated_at.is_some() {
            dup_opt(&new.updated_at)
        } else {
            dup_opt(&old.updated_at)
        },
        starred_at: if new.starred_at.is_some() {
            dup_opt(&new.starred_at)
        } else {
            dup_opt(&old.starred_at)
        },
        topics: if new.topics.len() > 0 {
            dup_strings(&new.topics)
        } else {
            dup_strings(&old.topics)
        },
        lists: Vec::new(),
    };
    assert(r.lists.deep_view() =~= Seq::<Seq<char>>::empty());
    r
}

/// The row an insert writes for `new`.
fn fresh_repo(new: &RepoRow) -> (r: RepoRow)
    ensures
        r@ == (RepoRowV { lists: seq![], ..new@ }),
{
    let mut r = new.dup();
    r.lists = Vec::new();
    assert(r.lists.deep_view() =~= Seq::<Seq<char>>::empty());
    r
}

impl Store {
    /// Whether another repository has the node id, and whether another has the name.
    fn repo_clashes(&self, repo: &RepoRow) -> (r: (bool, bool))
        requires
            self.wf(),
        ensures
            r.0 == node_clash(self@, repo@),
            r.1 == name_clash(self@, repo@),
    {
        proof {
            self.lemma_view_lists();
        }
        let ghost s0 = self@;
        let mut i: usize = 0;
        let mut clash_node = false;
        let mut clash_name = false;
        while i < self.repos.len()
            invariant
                s0 == self@,
                self.repos@.len() == s0.repos.len(),
                forall|k: int| 0 <= k < s0.repos.len() ==> #[trigger] s0.repos[k] == self.repos@[k]@,
                i <= s0.repos.len(),
                clash_node == exists|k: int|
                    0 <= k < i && s0.repos[k].repo.id != repo.id && s0.repos[k].repo.node_id == repo@.node_id,
                clash_name == exists|k: int|
                    0 <= k < i && s0.repos[k].repo.id != repo.id && s0.repos[k].repo.name_with_owner
                        == repo@.name_with_owner,
            decreases s0.repos.len() - i,
        {
            let r = &self.repos[i];
            assert(r@ == s0.repos[i as int]);
            if r.repo.id != repo.id && r.repo.node_id == repo.node_id {
                clash_node = true;
            }
            if r.repo.id != repo.id && r.repo.name_with_owner == repo.name_with_owner {
                clash_name = true;
            }
            i = i + 1;
        }
        (clash_node, clash_name)
    }

    /// Inserts a starred repository, or merges it into the stored one with the
    /// same id.
    pub fn upsert_repo(&mut self, repo: &RepoRow, snapshot_at: &str) -> (r: Result<(), AppError>)
        requires
            old(self).wf(),
        ensures
            final(self).wf(),
            (final(self)@, match r {
                Ok(_) => Ok::<(), AppErrorV>(()),
                Err(e) => Err(e@),
            }) == upsert_repo_v(old(self)@, repo@, snapshot_at@),
    {
        proof {
            self.lemma_view_lists();
            lemma_upsert_repo_wf(self@, repo@, snapshot_at@);
        }
        let ghost s0 = self@;
        let (clash_node, clash_name) = self.repo_clashes(repo);
        if clash_node {
            return Err(error_with("error", "UNIQUE constraint failed: ", "repo.node_id"));
        }
        if clash_name {
            return Err(error_with("error", "UNIQUE constraint failed: ", "repo.name_with_owner"));
        }
        let mut k: usize = 0;
        while k < self.repos.len() && self.repos[k].repo.id < repo.id
            invariant
                s0 == self@,
                self.repos@.len() == s0.repos.len(),
                forall|q: int| 0 <= q < s0.repos.len() ==> #[trigger] s0.repos[q] == self.repos@[q]@,
                k <= s0.repos.len(),
                forall|q: int| 0 <= q < k ==> #[trigger] s0.repos[q].repo.id < repo.id,
            decreases s0.repos.len() - k,
        {
            k = k + 1;
        }
        if k < self.repos.len() && self.repos[k].repo.id == repo.id {
            proof {
                lemma_first_index_found(s0.repos, repo_id_is(repo.id), k as int);
            }
            let merged = merge_repo(repo, &self.repos[k].repo);
            self.replace_repo(k, StoredRepo { repo: merged, snapshot_at: owned(snapshot_at) });
            proof {
                let target = upsert_repo_v(s0, repo@, snapshot_at@).0;
                assert forall|q: int| 0 <= q < s0.repos.len() implies #[trigger] self@.repos[q] == target.repos[q] by {
                    if q < k {
                        assert(repo_pair_ok(s0.repos[q], s0.repos[k as int]));
                    } else if q > k {
                        assert(repo_pair_ok(s0.repos[k as int], s0.repos[q]));
                    }
                }
                assert(self@.repos =~= target.repos);
            }
        } else {
            let entry = StoredRepo { repo: fresh_repo(repo), snapshot_at: owned(snapshot_at) };
            proof {
                assert forall|q: int| 0 <= q < s0.repos.len() implies !(#[trigger] (repo_id_is(repo.id))(s0.repos[q])) by {
                    if q > k {
                        assert(repo_pair_ok(s0.repos[k as int], s0.repos[q]));
                    }
                }
                lemma_first_index_none(s0.repos, repo_id_is(repo.id));
                lemma_insert_pos(s0.repos, entry@, by_repo_id(), k as int);
            }
            let ghost x = entry@;
            self.insert_repo(k, entry);
            proof {
                let target = upsert_repo_v(s0, repo@, snapshot_at@).0;
                assert(x == StoredRepoV { repo: RepoRowV { lists: seq![], ..repo@ }, snapshot_at: snapshot_at@ });
                assert(self@.repos =~= target.repos);
            }
        }
        Ok(())
    }

    fn replace_repo(&mut self, k: usize, entry: StoredRepo)
        requires
            k < old(self)@.repos.len(),
        ensures
            final(self)@ == (StoreV { repos: old(self)@.repos.update(k as int, entry@), ..old(self)@ }),
    {
        let ghost s0 = self@;
        self.repos.set(k, entry);
        proof {
            self.lemma_view_lists();
            assert(self@.repos =~= s0.repos.update(k as int, entry@));
            assert(self@.lists =~= s0.lists);
            assert(self@.memberships =~= s0.memberships);
            assert(self@.proposals =~= s0.proposals);
            assert(self@.meta =~= s0.meta);
        }
    }

    fn insert_repo(&mut self, k: usize, entry: StoredRepo)
        requires
            k <= old(self)@.repos.len(),
        ensures
            final(self)@ == (StoreV { repos: old(self)@.repos.insert(k as int, entry@), ..old(self)@ }),
    {
        let ghost s0 = self@;
        proof {
            self.lemma_view_lists();
        }
        self.repos.insert(k, entry);
        proof {
            self.lemma_view_lists();
            assert(self@.repos =~= s0.repos.insert(k as int, entry@));
            assert(self@.lists =~= s0.lists);
            assert(self@.memberships =~= s0.memberships);
            assert(self@.proposals =~= s0.proposals);
            assert(self@.meta =~= s0.meta);
        }
    }

    /// Deletes every repository whose id is not among `ids`, with its memberships;
    /// returns how many went.
    pub fn delete_repos_not_in(&mut self, ids: &[i64]) -> (n: usize)
        requires
            old(self).wf(),
        ensures
            final(self).wf(),
            (final(self)@, n as nat) == delete_repos_v(old(self)@, ids@),
    {
        proof {
            self.lemma_view_lists();
            lemma_delete_repos_wf(self@, ids@);
        }
        let ghost s0 = self@;
        let mut rs: Vec<StoredRepo> = Vec::new();
        let mut i: usize = 0;
        while i < self.repos.len()
            invariant
                s0 == self@,
                self.repos@.len() == s0.repos.len(),
                forall|k: int| 0 <= k < s0.repos.len() ==> #[trigger] s0.repos[k] == self.repos@[k]@,
                i <= s0.repos.len(),
                rs@.map_values(|r: StoredRepo| r@) == keep_where(s0.repos.take(i as int), repo_in(ids@)),
            decreases s0.repos.len() - i,
        {
            assert(s0.repos.take(i + 1).drop_last() =~= s0.repos.take(i as int));
            if slice_has(ids, self.repos[i].repo.id) {
                let ghost b = rs@.map_values(|r: StoredRepo| r@);
                rs.push(self.repos[i].dup());
                assert(rs@.map_values(|r: StoredRepo| r@) =~= b.push(s0.repos[i as int]));
            }
            i = i + 1;
        }
        assert(s0.repos.take(s0.repos.len() as int) =~= s0.repos);
        let mut ms: Vec<Membership> = Vec::new();
        let mut j: usize = 0;
        while j < self.memberships.len()
            invariant
                s0 == self@,
                self.memberships@.len() == s0.memberships.len(),
                forall|k: int| 0 <= k < s0.memberships.len() ==> #[trigger] s0.memberships[k] == self.memberships@[k]@,
                j <= s0.memberships.len(),
                ms@.map_values(|m: Membership| m@) == keep_where(s0.memberships.take(j as int), membership_repo_in(ids@)),
            decreases s0.memberships.len() - j,
        {
            assert(s0.memberships.take(j + 1).drop_last() =~= s0.memberships.take(j as int));
            if slice_has(ids, self.memberships[j].repo_id) {
                let ghost b = ms@.map_values(|m: Membership| m@);
                let m = &self.memberships[j];
                ms.push(Membership { repo_id: m.repo_id, list_id: m.list_id, source: m.source.clone() });
                assert(ms@.map_values(|m: Membership| m@) =~= b.push(s0.memberships[j as int]));
            }
            j = j + 1;
        }
        assert(s0.memberships.take(s0.memberships.len() as int) =~= s0.memberships);
        let removed = self.repos.len() - rs.len();
        self.repos = rs;
        self.memberships = ms;
        proof {
            self.lemma_view_lists();
            assert(self@.repos =~= delete_repos_v(s0, ids@).0.repos);
            assert(self@.memberships =~= delete_repos_v(s0, ids@).0.memberships);
            assert(self@.lists =~= s0.lists);
            assert(self@.proposals =~= s0.proposals);
            assert(self@.meta =~= s0.meta);
        }
        removed
    }
}

/// `x` is among `ids`.
pub fn slice_has(ids: &[i64], x: i64) -> (r: bool)
    ensures
        r == ids@.contains(x),
{
    let mut i: usize = 0;
    while i < ids.len()
        invariant
            i <= ids.len(),
            forall|k: int| 0 <= k < i ==> ids@[k] != x,
        decreases ids.len() - i,
    {
        if ids[i] == x {
            assert(ids@[i as int] == x);
            return true;
        }
        i = i + 1;
    }
    false
}


// ---------------------------------------------------------------------
// Lists mirrored from GitHub.
/// A row with a new GitHub id that no stored list has keeps the store well formed.
proof fn lemma_with_list_new_gid_wf(s: StoreV, new: ListRowV)
    requires
        store_wf(s),
        forall|i: int| 0 <= i < s.lists.len() && #[trigger] s.lists[i].id == new.id ==> s.lists[i].slug == new.slug,
        forall|i: int| 0 <= i < s.lists.len() ==> #[trigger] s.lists[i].github_id != new.github_id,
    ensures
        store_wf(with_list(s, new)),
{
    let s2 = with_list(s, new);
    assert forall|i: int, j: int| 0 <= i < j < s2.lists.len() implies list_pair_ok(s2.lists[i], s2.lists[j]) by {
        assert(list_pair_ok(s.lists[i], s.lists[j]));
        assert(s.lists[i].github_id != new.github_id);
        assert(s.lists[j].github_id != new.github_id);
    }
    assert forall|id: i64| has_list_id(s, id) implies has_list_id(s2, id) by {
        let i = choose|i: int| 0 <= i < s.lists.len() && s.lists[i].id == id;
        assert(s2.lists[i].id == id);
    }
    assert forall|i: int| 0 <= i < s2.lists.len() implies 1 <= #[trigger] s2.lists[i].id <= s2.list_seq by {
        assert(s2.lists[i].id == s.lists[i].id);
    }
}

pub open spec fn gid_used(s: StoreV, gid: Seq<char>) -> bool {
    exists|i: int| 0 <= i < s.lists.len() && s.lists[i].github_id == Some(gid)
}

/// The slug a list mirrored from GitHub starts from: GitHub's slug when it has
/// one, else the name slugified.
pub open spec fn synced_base(name: Seq<char>, github_slug: Option<Seq<char>>) -> Seq<char> {
    match github_slug {
        Some(g) => if g.len() > 0 {
            g
        } else {
            slug_of(name)
        },
        None => slug_of(name),
    }
}

/// What `upsert_synced_list` does with a list read from GitHub: update the list
/// already linked to it (only its link and time when it has local edits), else
/// link the first list with the same name that has no GitHub id yet, else insert
/// a new synced list. Returns the local id.
pub open spec fn upsert_synced_list_v(
    s: StoreV,
    github_id: Seq<char>,
    name: Seq<char>,
    description: Option<Seq<char>>,
    is_private: bool,
    github_slug: Option<Seq<char>>,
    now: Seq<char>,
) -> (StoreV, Result<i64, AppErrorV>) {
    match list_with_github_id(s, github_id) {
        Some(l) => if l.status == "synced"@ {
            (with_list(s, ListRowV { name, description, is_private, updated_at: now, ..l }), Ok(l.id))
        } else {
            (with_list(s, ListRowV { github_id: Some(github_id), updated_at: now, ..l }), Ok(l.id))
        },
        None => {
            let by_name = list_with_name_ci(s, name);
            if by_name is Some && by_name->0.github_id is None {
                let l = by_name->0;
                (
                    with_list(
                        s,
                        ListRowV {
                            github_id: Some(github_id),
                            name,
                            description,
                            is_private,
                            status: "synced"@,
                            updated_at: now,
                            ..l
                        },
                    ),
                    Ok(l.id),
                )
            } else {
                let chosen = unique_slug_of(synced_base(name, github_slug), slugs_of(s.lists));
                if is_taken(slugs_of(s.lists), chosen) {
                    (s, Err(unique_err("list.slug"@)))
                } else if s.list_seq == i64::MAX {
                    (s, Err(full_err()))
                } else {
                    let row = ListRowV {
                        id: (s.list_seq + 1) as i64,
                        slug: chosen,
                        name,
                        description,
                        is_private,
                        github_id: Some(github_id),
                        status: "synced"@,
                        repo_count: 0,
                        created_at: now,
                        updated_at: now,
                    };
                    (StoreV { lists: s.lists.push(row), list_seq: row.id, ..s }, Ok(row.id))
                }
            }
        },
    }
}

/// The lists `remove_remote_synced_lists_missing` drops: synced, linked, and not
/// among the GitHub ids still present.
pub open spec fn gone_remote(present: Seq<Seq<char>>) -> spec_fn(ListRowV) -> bool {
    |l: ListRowV| l.status == "synced"@ && l.github_id is Some && !present.contains(l.github_id->0)
}

pub open spec fn not_gone_remote(present: Seq<Seq<char>>) -> spec_fn(ListRowV) -> bool {
    |l: ListRowV| !(gone_remote(present))(l)
}

pub open spec fn list_id_gone(s: StoreV, present: Seq<Seq<char>>, id: i64) -> bool {
    exists|i: int| 0 <= i < s.lists.len() && s.lists[i].id == id && (gone_remote(present))(s.lists[i])
}

pub open spec fn membership_not_gone(s: StoreV, present: Seq<Seq<char>>) -> spec_fn(MembershipV) -> bool {
    |m: MembershipV| !list_id_gone(s, present, m.list_id)
}

/// What `remove_remote_synced_lists_missing` does, and how many lists it drops.
pub open spec fn remove_missing_v(s: StoreV, present: Seq<Seq<char>>) -> (StoreV, nat) {
    let kept = keep_where(s.lists, not_gone_remote(present));
    (
        StoreV { lists: kept, memberships: keep_where(s.memberships, membership_not_gone(s, present)), ..s },
        (s.lists.len() - kept.len()) as nat,
    )
}

proof fn lemma_remove_missing_wf(s: StoreV, present: Seq<Seq<char>>)
    requires
        store_wf(s),
    ensures
        store_wf(remove_missing_v(s, present).0),
        keep_where(s.lists, not_gone_remote(present)).len() <= s.lists.len(),
{
    let s2 = remove_missing_v(s, present).0;
    lemma_keep_where(s.lists, not_gone_remote(present), list_pair_rel());
    lemma_keep_where(s.memberships, membership_not_gone(s, present), membership_pair_rel());
    assert forall|i: int| 0 <= i < s2.lists.len() implies 1 <= #[trigger] s2.lists[i].id <= s2.list_seq by {
        let a = choose|a: int| 0 <= a < s.lists.len() && s.lists[a] == s2.lists[i];
        assert(1 <= s.lists[a].id <= s.list_seq);
    }
    assert forall|i: int| 0 <= i < s2.memberships.len() implies has_repo_id(s2, #[trigger] s2.memberships[i].repo_id)
        && has_list_id(s2, s2.memberships[i].list_id) by {
        let m = s2.memberships[i];
        assert((membership_not_gone(s, present))(m));
        let a = choose|a: int| 0 <= a < s.memberships.len() && s.memberships[a] == m;
        assert(has_repo_id(s, s.memberships[a].repo_id));
        assert(has_list_id(s, m.list_id));
        let b = choose|b: int| 0 <= b < s.lists.len() && s.lists[b].id == m.list_id;
        assert((not_gone_remote(present))(s.lists[b]));
        let k = choose|k: int| 0 <= k < s2.lists.len() && s2.lists[k] == s.lists[b];
        assert(s2.lists[k].id == m.list_id);
    }
}

impl Store {
    /// Appends a new list row with the next id, when its slug and GitHub id are free.
    fn push_new_list(&mut self, row: ListRow) -> (id: i64)
        requires
            old(self).wf(),
            old(self)@.list_seq < i64::MAX,
            row.id == old(self)@.list_seq + 1,
            !is_taken(slugs_of(old(self)@.lists), row@.slug),
            row@.github_id is Some ==> !gid_used(old(self)@, row@.github_id->0),
        ensures
            final(self).wf(),
            id == row.id,
            final(self)@ == (StoreV { lists: old(self)@.lists.push(row@), list_seq: row.id, ..old(self)@ }),
    {
        let ghost s0 = self@;
        let ghost rv = row@;
        proof {
            self.lemma_view_lists();
            assert forall|i: int| 0 <= i < s0.lists.len() implies list_pair_ok(s0.lists[i], rv) by {
                assert(s0.lists[i].id <= s0.list_seq);
                if s0.lists[i].slug == rv.slug {
                    assert(slugs_of(s0.lists)[i] == rv.slug);
                }
            }
        }
        let id = row.id;
        self.lists.push(row);
        self.list_seq = id;
        proof {
            self.lemma_view_lists();
            assert(self@.lists =~= s0.lists.push(rv));
            assert(self@.memberships =~= s0.memberships);
            assert(self@.repos =~= s0.repos);
            assert(self@.proposals =~= s0.proposals);
            assert(self@.meta =~= s0.meta);
            assert forall|k: i64| has_list_id(s0, k) implies has_list_id(self@, k) by {
                let i = choose|i: int| 0 <= i < s0.lists.len() && s0.lists[i].id == k;
                assert(self@.lists[i].id == k);
            }
            let ls = self@.lists;
            assert forall|i: int, j: int| 0 <= i < j < ls.len() implies list_pair_ok(ls[i], ls[j]) by {
                if j < ls.len() - 1 {
                    assert(list_pair_ok(s0.lists[i], s0.lists[j]));
                } else {
                    assert(list_pair_ok(s0.lists[i], rv));
                }
            }
            assert forall|i: int| 0 <= i < ls.len() implies 1 <= #[trigger] ls[i].id <= self@.list_seq by {
                if i < ls.len() - 1 {
                    assert(1 <= s0.lists[i].id <= s0.list_seq);
                }
            }
        }
        id
    }

    /// Records a list read from GitHub and returns its local id.
    pub fn upsert_synced_list(
        &mut self,
        github_id: &str,
        name: &str,
        description: Option<&str>,
        is_private: bool,
        github_slug: Option<&str>,
        now: &str,
    ) -> (r: Result<i64, AppError>)
        requires
            old(self).wf(),
        ensures
            final(self).wf(),
            (final(self)@, match r {
                Ok(id) => Ok::<i64, AppErrorV>(id),
                Err(e) => Err(e@),
            }) == upsert_synced_list_v(
                old(self)@,
                github_id@,
                name@,
                match description {
                    Some(x) => Some(x@),
                    None => None,
                },
                is_private,
                match github_slug {
                    Some(x) => Some(x@),
                    None => None,
                },
                now@,
            ),
    {
        let ghost s0 = self@;
        let desc: Option<String> = match description {
            Some(d) => Some(owned(d)),
            None => None,
        };
        proof {
            lemma_first_index_props(s0.lists, github_id_is(github_id@));
            lemma_first_index_props(s0.lists, name_ci_is(name@));
        }
        match self.find_list_by_github_id(github_id) {
            Some(existing) => {
                let mut row = existing.dup();
                if str_eq(existing.status.as_str(), "synced") {
                    row.name = owned(name);
                    row.description = desc;
                    row.is_private = is_private;
                } else {
                    row.github_id = Some(owned(github_id));
                }
                row.updated_at = owned(now);
                let id = row.id;
                let _ = self.store_row(row);
                return Ok(id);
            },
            None => {},
        }
        match self.find_list_by_name_ci(name) {
            Some(existing) => {
                if existing.github_id.is_none() {
                    let mut row = existing.dup();
                    row.github_id = Some(owned(github_id));
                    row.name = owned(name);
                    row.description = desc;
                    row.is_private = is_private;
                    row.status = owned("synced");
                    row.updated_at = owned(now);
                    let id = row.id;
                    proof {
                        let k = first_index(s0.lists, name_ci_is(name@));
                        assert forall|i: int| 0 <= i < s0.lists.len() && #[trigger] s0.lists[i].id == row.id implies s0.lists[i].slug == row@.slug by {
                            if i < k {
                                assert(list_pair_ok(s0.lists[i], s0.lists[k]));
                            } else if i > k {
                                assert(list_pair_ok(s0.lists[k], s0.lists[i]));
                            }
                        }
                        assert forall|i: int| 0 <= i < s0.lists.len() implies #[trigger] s0.lists[i].github_id != row@.github_id by {
                            assert(!(github_id_is(github_id@))(s0.lists[i]));
                        }
                        lemma_with_list_new_gid_wf(s0, row@);
                    }
                    self.put_list_unchecked(row);
                    return Ok(id);
                }
            },
            None => {},
        }
        let taken = self.all_slugs();
        let base = match github_slug {
            Some(g) => {
                if !g.is_empty() {
                    owned(g)
                } else {
                    slugify(name)
                }
            },
            None => slugify(name),
        };
        let chosen = unique_slug(base.as_str(), taken.as_slice());
        if taken_contains(taken.as_slice(), &chosen) {
            return Err(error_with("error", "UNIQUE constraint failed: ", "list.slug"));
        }
        if self.list_seq == i64::MAX {
            return Err(AppError::new("error", owned("database or disk is full")));
        }
        let row = ListRow {
            id: self.list_seq + 1,
            slug: chosen,
            name: owned(name),
            description: desc,
            is_private,
            github_id: Some(owned(github_id)),
            status: owned("synced"),
            repo_count: 0,
            created_at: owned(now),
            updated_at: owned(now),
        };
        proof {
            assert forall|i: int| 0 <= i < s0.lists.len() implies !(#[trigger] s0.lists[i].github_id == Some(github_id@)) by {
                assert(!(github_id_is(github_id@))(s0.lists[i]));
            }
        }
        let id = self.push_new_list(row);
        Ok(id)
    }

    /// Replaces a list row by one whose wf has been shown by the caller.
    fn put_list_unchecked(&mut self, new: ListRow)
        requires
            old(self).wf(),
            store_wf(with_list(old(self)@, new@)),
        ensures
            final(self)@ == with_list(old(self)@, new@),
            final(self).wf(),
    {
        proof {
            self.lemma_view_lists();
        }
        let ghost s0 = self@;
        let mut i: usize = 0;
        while i < self.lists.len()
            invariant
                self.lists@.len() == s0.lists.len(),
                i <= s0.lists.len(),
                forall|k: int| 0 <= k < i ==> #[trigger] self.lists@[k]@ == (if s0.lists[k].id == new.id { new@ } else { s0.lists[k] }),
                forall|k: int| i <= k < s0.lists.len() ==> #[trigger] self.lists@[k]@ == s0.lists[k],
                self.repos == old(self).repos,
                self.memberships == old(self).memberships,
                self.proposals == old(self).proposals,
                self.meta == old(self).meta,
                self.list_seq == old(self).list_seq,
                s0 == old(self)@,
            decreases s0.lists.len() - i,
        {
            let ghost before = self.lists@;
            if self.lists[i].id == new.id {
                self.lists.set(i, new.dup());
                assert(self.lists@[i as int]@ == new@);
            }
            assert forall|k: int| 0 <= k < i + 1 implies #[trigger] self.lists@[k]@ == (if s0.lists[k].id == new.id { new@ } else { s0.lists[k] }) by {
                if k < i {
                    assert(self.lists@[k] == before[k]);
                } else {
                    assert(before[k]@ == s0.lists[k]);
                    if s0.lists[k].id != new.id {
                        assert(self.lists@[k] == before[k]);
                    }
                }
            }
            i = i + 1;
        }
        proof {
            assert(self@.lists =~= with_list(s0, new@).lists);
        }
    }

    /// Drops synced lists whose GitHub id is no longer present, with their
    /// memberships; returns how many went.
    pub fn remove_remote_synced_lists_missing(&mut self, present_github_ids: &[String]) -> (n: usize)
        requires
            old(self).wf(),
        ensures
            final(self).wf(),
            (final(self)@, n as nat) == remove_missing_v(old(self)@, texts(present_github_ids@)),
    {
        let ghost present = texts(present_github_ids@);
        proof {
            self.lemma_view_lists();
            lemma_remove_missing_wf(self@, present);
        }
        let ghost s0 = self@;
        let mut gone_ids: Vec<i64> = Vec::new();
        let mut lists: Vec<ListRow> = Vec::new();
        let mut i: usize = 0;
        while i < self.lists.len()
            invariant
                s0 == self@,
                self.wf(),
                present == texts(present_github_ids@),
                self.lists@.len() == s0.lists.len(),
                forall|k: int| 0 <= k < s0.lists.len() ==> #[trigger] s0.lists[k] == self.lists@[k]@,
                i <= s0.lists.len(),
                lists@.map_values(|l: ListRow| l@) == keep_where(s0.lists.take(i as int), not_gone_remote(present)),
                forall|id: i64| gone_ids@.contains(id) <==> exists|k: int|
                    0 <= k < i && s0.lists[k].id == id && (gone_remote(present))(s0.lists[k]),
            decreases s0.lists.len() - i,
        {
            assert(s0.lists.take(i + 1).drop_last() =~= s0.lists.take(i as int));
            let l = &self.lists[i];
            let gone = str_eq(l.status.as_str(), "synced") && match &l.github_id {
                Some(g) => !taken_contains(present_github_ids, g),
                None => false,
            };
            assert(gone == (gone_remote(present))(s0.lists[i as int]));
            let ghost old_gone = gone_ids@;
            if gone {
                gone_ids.push(l.id);
            } else {
                let ghost b = lists@.map_values(|l: ListRow| l@);
                lists.push(l.dup());
                assert(lists@.map_values(|l: ListRow| l@) =~= b.push(s0.lists[i as int]));
            }
            proof {
                assert forall|id: i64| gone_ids@.contains(id) <==> exists|k: int|
                    0 <= k < i + 1 && s0.lists[k].id == id && (gone_remote(present))(s0.lists[k]) by {
                    if gone_ids@.contains(id) {
                        let q = choose|q: int| 0 <= q < gone_ids@.len() && gone_ids@[q] == id;
                        if q < old_gone.len() {
                            assert(old_gone[q] == id);
                            assert(old_gone.contains(id));
                            let k = choose|k: int| 0 <= k < i && s0.lists[k].id == id && (gone_remote(present))(s0.lists[k]);
                            assert(0 <= k < i + 1 && s0.lists[k].id == id && (gone_remote(present))(s0.lists[k]));
                        } else {
                            assert(gone);
                            assert(s0.lists[i as int].id == id);
                        }
                    }
                    if exists|k: int| 0 <= k < i + 1 && s0.lists[k].id == id && (gone_remote(present))(s0.lists[k]) {
                        let k = choose|k: int| 0 <= k < i + 1 && s0.lists[k].id == id && (gone_remote(present))(s0.lists[k]);
                        if k < i {
                            assert(exists|k2: int| 0 <= k2 < i && s0.lists[k2].id == id && (gone_remote(present))(s0.lists[k2]));
                            assert(old_gone.contains(id));
                            let q = choose|q: int| 0 <= q < old_gone.len() && old_gone[q] == id;
                            assert(gone_ids@[q] == id);
                        } else {
                            assert(gone);
                            assert(gone_ids@[gone_ids@.len() - 1] == id);
                        }
                    }
                }
            }
            i = i + 1;
        }
        assert(s0.lists.take(s0.lists.len() as int) =~= s0.lists);
        let mut ms: Vec<Membership> = Vec::new();
        let mut j: usize = 0;
        while j < self.memberships.len()
            invariant
                s0 == self@,
                present == texts(present_github_ids@),
                self.memberships@.len() == s0.memberships.len(),
                forall|k: int| 0 <= k < s0.memberships.len() ==> #[trigger] s0.memberships[k] == self.memberships@[k]@,
                j <= s0.memberships.len(),
                forall|id: i64| gone_ids@.contains(id) <==> list_id_gone(s0, present, id),
                ms@.map_values(|m: Membership| m@) == keep_where(s0.memberships.take(j as int), membership_not_gone(s0, present)),
            decreases s0.memberships.len() - j,
        {
            assert(s0.memberships.take(j + 1).drop_last() =~= s0.memberships.take(j as int));
            if !slice_has(gone_ids.as_slice(), self.memberships[j].list_id) {
                let ghost b = ms@.map_values(|m: Membership| m@);
                let m = &self.memberships[j];
                ms.push(Membership { repo_id: m.repo_id, list_id: m.list_id, source: m.source.clone() });
                assert(ms@.map_values(|m: Membership| m@) =~= b.push(s0.memberships[j as int]));
            }
            j = j + 1;
        }
        assert(s0.memberships.take(s0.memberships.len() as int) =~= s0.memberships);
        let removed = self.lists.len() - lists.len();
        self.lists = lists;
        self.memberships = ms;
        proof {
            self.lemma_view_lists();
            assert(self@.lists =~= remove_missing_v(s0, present).0.lists);
            assert(self@.memberships =~= remove_missing_v(s0, present).0.memberships);
            assert(self@.repos =~= s0.repos);
            assert(self@.proposals =~= s0.proposals);
            assert(self@.meta =~= s0.meta);
        }
        removed
    }
}


// ---------------------------------------------------------------------
// Writes made while applying a plan to GitHub.
pub open spec fn slug_is(slug: Seq<char>) -> spec_fn(ListRowV) -> bool {
    |l: ListRowV| l.slug == slug
}

/// What `mark_list_created` does: the list with `slug` gets its new GitHub id and
/// becomes synced.
pub open spec fn mark_created_v(s: StoreV, slug: Seq<char>, github_id: Seq<char>, now: Seq<char>) -> (
    StoreV,
    Result<(), AppErrorV>,
) {
    match crate::order::first_where(s.lists, slug_is(slug)) {
        None => (s, Ok(())),
        Some(l) => if exists|i: int|
            0 <= i < s.lists.len() && s.lists[i].github_id == Some(github_id) && s.lists[i].id != l.id {
            (s, Err(unique_err("list.github_id"@)))
        } else {
            (
                with_list(s, ListRowV { github_id: Some(github_id), status: "synced"@, updated_at: now, ..l }),
                Ok(()),
            )
        },
    }
}

/// What `mark_list_synced` does: the list with `slug` becomes synced.
pub open spec fn mark_synced_v(s: StoreV, slug: Seq<char>, now: Seq<char>) -> StoreV {
    match crate::order::first_where(s.lists, slug_is(slug)) {
        None => s,
        Some(l) => with_list(s, ListRowV { status: "synced"@, updated_at: now, ..l }),
    }
}

/// What `remove_list_by_slug` does: the list with `slug` goes, with its memberships.
pub open spec fn remove_by_slug_v(s: StoreV, slug: Seq<char>) -> StoreV {
    match crate::order::first_where(s.lists, slug_is(slug)) {
        None => s,
        Some(l) => without_list(s, l.id),
    }
}

impl Store {
    fn find_slug_index(&self, slug: &str) -> (r: Option<usize>)
        requires
            self.wf(),
        ensures
            r is Some ==> r->0 < self@.lists.len() && first_index(self@.lists, slug_is(slug@)) == r->0,
            r is None ==> first_index(self@.lists, slug_is(slug@)) == -1,
    {
        proof {
            self.lemma_view_lists();
        }
        let mut i: usize = 0;
        while i < self.lists.len()
            invariant
                self.wf(),
                i <= self.lists@.len(),
                forall|j: int| 0 <= j < i ==> !(slug_is(slug@))(#[trigger] self@.lists[j]),
            decreases self.lists@.len() - i,
        {
            proof {
                self.lemma_view_lists();
            }
            if str_eq(self.lists[i].slug.as_str(), slug) {
                proof {
                    lemma_first_index_found(self@.lists, slug_is(slug@), i as int);
                }
                return Some(i);
            }
            i = i + 1;
        }
        proof {
            lemma_first_index_none(self@.lists, slug_is(slug@));
        }
        None
    }

    /// Records the GitHub id of a list just created on GitHub; the list becomes synced.
    pub fn mark_list_created(&mut self, slug: &str, github_id: &str, now: &str) -> (r: Result<(), AppError>)
        requires
            old(self).wf(),
        ensures
            final(self).wf(),
            (final(self)@, match r {
                Ok(_) => Ok::<(), AppErrorV>(()),
                Err(e) => Err(e@),
            }) == mark_created_v(old(self)@, slug@, github_id@, now@),
    {
        proof {
            self.lemma_view_lists();
        }
        let ghost s0 = self@;
        let i = match self.find_slug_index(slug) {
            Some(i) => i,
            None => {
                return Ok(());
            },
        };
        let id = self.lists[i].id;
        let mut clash = false;
        let mut k: usize = 0;
        while k < self.lists.len()
            invariant
                self.wf(),
                s0 == self@,
                k <= s0.lists.len(),
                clash == exists|q: int|
                    0 <= q < k && s0.lists[q].github_id == Some(github_id@) && s0.lists[q].id != id,
            decreases s0.lists.len() - k,
        {
            proof {
                self.lemma_view_lists();
            }
            let hit = match &self.lists[k].github_id {
                Some(g) => str_eq(g.as_str(), github_id),
                None => false,
            };
            if hit && self.lists[k].id != id {
                assert(s0.lists[k as int].github_id == Some(github_id@) && s0.lists[k as int].id != id);
                clash = true;
            }
            k = k + 1;
        }
        if clash {
            return Err(error_with("error", "UNIQUE constraint failed: ", "list.github_id"));
        }
        let mut row = self.lists[i].dup();
        row.github_id = Some(owned(github_id));
        row.status = owned("synced");
        row.updated_at = owned(now);
        proof {
            assert forall|q: int| 0 <= q < s0.lists.len() && #[trigger] s0.lists[q].id == row.id implies s0.lists[q].slug == row@.slug by {
                if q < i {
                    assert(list_pair_ok(s0.lists[q], s0.lists[i as int]));
                } else if q > i {
                    assert(list_pair_ok(s0.lists[i as int], s0.lists[q]));
                }
            }
            if s0.lists[i as int].github_id == Some(github_id@) {
                assert forall|q: int| 0 <= q < s0.lists.len() && #[trigger] s0.lists[q].id == row.id implies s0.lists[q].github_id == row@.github_id by {
                    if q < i {
                        assert(list_pair_ok(s0.lists[q], s0.lists[i as int]));
                    } else if q > i {
                        assert(list_pair_ok(s0.lists[i as int], s0.lists[q]));
                    }
                }
                lemma_with_list_wf(s0, row@);
            } else {
                assert forall|q: int| 0 <= q < s0.lists.len() implies #[trigger] s0.lists[q].github_id != row@.github_id by {
                    if s0.lists[q].github_id == Some(github_id@) {
                        assert(s0.lists[q].id == id);
                        if q < i {
                            assert(list_pair_ok(s0.lists[q], s0.lists[i as int]));
                        } else if q > i {
                            assert(list_pair_ok(s0.lists[i as int], s0.lists[q]));
                        }
                    }
                }
                lemma_with_list_new_gid_wf(s0, row@);
            }
        }
        self.put_list_unchecked(row);
        Ok(())
    }

    /// Marks the list with `slug` as synced after its GitHub update.
    pub fn mark_list_synced(&mut self, slug: &str, now: &str)
        requires
            old(self).wf(),
        ensures
            final(self).wf(),
            final(self)@ == mark_synced_v(old(self)@, slug@, now@),
    {
        proof {
            self.lemma_view_lists();
        }
        let ghost s0 = self@;
        match self.find_slug_index(slug) {
            Some(i) => {
                let mut row = self.lists[i].dup();
                row.status = owned("synced");
                row.updated_at = owned(now);
                proof {
                    assert forall|q: int| 0 <= q < s0.lists.len() && #[trigger] s0.lists[q].id == row.id implies s0.lists[q].slug
                        == row@.slug && s0.lists[q].github_id == row@.github_id by {
                        if q < i {
                            assert(list_pair_ok(s0.lists[q], s0.lists[i as int]));
                        } else if q > i {
                            assert(list_pair_ok(s0.lists[i as int], s0.lists[q]));
                        }
                    }
                }
                self.put_list(row);
            },
            None => {},
        }
    }

    /// Removes the list with `slug` and its memberships, after its GitHub deletion.
    pub fn remove_list_by_slug(&mut self, slug: &str)
        requires
            old(self).wf(),
        ensures
            final(self).wf(),
            final(self)@ == remove_by_slug_v(old(self)@, slug@),
    {
        proof {
            self.lemma_view_lists();
        }
        match self.find_slug_index(slug) {
            Some(i) => {
                let id = self.lists[i].id;
                self.remove_list(id);
            },
            None => {},
        }
    }
}

// ---------------------------------------------------------------------
// Proposals and metadata.
pub open spec fn key_is(key: Seq<char>) -> spec_fn(MetaV) -> bool {
    |m: MetaV| m.key == key
}

pub open spec fn proposal_id_is(id: Seq<char>) -> spec_fn(ProposalRowV) -> bool {
    |p: ProposalRowV| p.id == id
}

pub open spec fn proposal_id_not(id: Seq<char>) -> spec_fn(ProposalRowV) -> bool {
    |p: ProposalRowV| p.id != id
}

/// The value stored under `key`.
pub open spec fn meta_value(s: StoreV, key: Seq<char>) -> Option<Seq<char>> {
    match crate::order::first_where(s.meta, key_is(key)) {
        Some(m) => Some(m.value),
        None => None,
    }
}

/// What `set_meta` does: the value under `key` becomes `value`.
pub open spec fn set_meta_v(s: StoreV, key: Seq<char>, value: Seq<char>) -> StoreV {
    if exists|i: int| 0 <= i < s.meta.len() && s.meta[i].key == key {
        StoreV {
            meta: s.meta.map_values(|m: MetaV| if m.key == key { MetaV { key, value } } else { m }),
            ..s
        }
    } else {
        StoreV { meta: s.meta.push(MetaV { key, value }), ..s }
    }
}

/// The proposal with id `id`.
pub open spec fn proposal_with_id(s: StoreV, id: Seq<char>) -> Option<ProposalRowV> {
    crate::order::first_where(s.proposals, proposal_id_is(id))
}

/// The first of the proposals created last.
pub open spec fn newest(ps: Seq<ProposalRowV>) -> Option<ProposalRowV>
    decreases ps.len(),
{
    if ps.len() == 0 {
        None
    } else {
        match newest(ps.drop_last()) {
            None => Some(ps.last()),
            Some(b) => if text_lt(b.created_at, ps.last().created_at) {
                Some(ps.last())
            } else {
                Some(b)
            },
        }
    }
}

/// The proposal imported last: the one the metadata names, else the newest.
pub open spec fn latest_proposal_v(s: StoreV) -> Option<ProposalRowV> {
    match meta_value(s, "last_proposal_id"@) {
        Some(id) => if proposal_with_id(s, id) is Some {
            proposal_with_id(s, id)
        } else {
            newest(s.proposals)
        },
        None => newest(s.proposals),
    }
}

/// What `insert_proposal` does: a new draft proposal, remembered as the last one.
pub open spec fn insert_proposal_v(
    s: StoreV,
    id: Seq<char>,
    notes: Option<Seq<char>>,
    source_path: Option<Seq<char>>,
    raw_json: Seq<char>,
    now: Seq<char>,
) -> (StoreV, Result<(), AppErrorV>) {
    if proposal_with_id(s, id) is Some {
        (s, Err(unique_err("proposal.id"@)))
    } else {
        let row = ProposalRowV { id, created_at: now, notes, status: "draft"@, source_path, raw_json };
        (set_meta_v(StoreV { proposals: s.proposals.push(row), ..s }, "last_proposal_id"@, id), Ok(()))
    }
}

/// What `mark_proposal_applied` does.
pub open spec fn mark_applied_v(s: StoreV, id: Seq<char>) -> StoreV {
    StoreV {
        proposals: s.proposals.map_values(
            |p: ProposalRowV| if p.id == id { ProposalRowV { status: "applied"@, ..p } } else { p },
        ),
        ..s
    }
}

impl MetaEntry {
    pub fn dup(&self) -> (r: MetaEntry)
        ensures
            r@ == self@,
    {
        MetaEntry { key: self.key.clone(), value: self.value.clone() }
    }
}

impl Store {
    /// The value stored under `key`.
    pub fn get_meta(&self, key: &str) -> (r: Option<String>)
        requires
            self.wf(),
        ensures
            r.deep_view() == meta_value(self@, key@),
    {
        proof {
            self.lemma_view_lists();
        }
        let mut i: usize = 0;
        while i < self.meta.len()
            invariant
                self.wf(),
                i <= self.meta@.len(),
                forall|j: int| 0 <= j < i ==> !(key_is(key@))(#[trigger] self@.meta[j]),
            decreases self.meta@.len() - i,
        {
            proof {
                self.lemma_view_lists();
            }
            if str_eq(self.meta[i].key.as_str(), key) {
                proof {
                    lemma_first_index_found(self@.meta, key_is(key@), i as int);
                }
                return Some(self.meta[i].value.clone());
            }
            i = i + 1;
        }
        proof {
            lemma_first_index_none(self@.meta, key_is(key@));
        }
        None
    }

    /// Stores `value` under `key`.
    pub fn set_meta(&mut self, key: &str, value: &str)
        requires
            old(self).wf(),
        ensures
            final(self).wf(),
            final(self)@ == set_meta_v(old(self)@, key@, value@),
    {
        proof {
            self.lemma_view_lists();
        }
        let ghost s0 = self@;
        let mut i: usize = 0;
        while i < self.meta.len()
            invariant
                s0 == self@,
                s0 == old(self)@,
                store_wf(s0),
                i <= s0.meta.len(),
                self.meta@.len() == s0.meta.len(),
                forall|k: int| 0 <= k < s0.meta.len() ==> #[trigger] s0.meta[k] == self.meta@[k]@,
                forall|j: int| 0 <= j < i ==> s0.meta[j].key != key@,
            decreases s0.meta.len() - i,
        {
            if str_eq(self.meta[i].key.as_str(), key) {
                let ghost before = self.meta@;
                self.meta.set(i, MetaEntry { key: owned(key), value: owned(value) });
                proof {
                    assert(s0.meta[i as int].key == key@);
                    let target = set_meta_v(s0, key@, value@);
                    assert forall|k: int| 0 <= k < s0.meta.len() implies #[trigger] self.meta@[k]@ == target.meta[k] by {
                        if k != i {
                            assert(self.meta@[k] == before[k]);
                            if k < i {
                                assert(s0.meta[k].key != key@);
                            } else {
                                assert(s0.meta[i as int].key != s0.meta[k].key);
                            }
                        }
                    }
                    self.lemma_view_lists();
                    assert(self@.meta =~= target.meta);
                    assert(self@.lists =~= s0.lists);
                    assert(self@.repos =~= s0.repos);
                    assert(self@.memberships =~= s0.memberships);
                    assert(self@.proposals =~= s0.proposals);
                    assert forall|a: int, b: int| 0 <= a < b < self@.meta.len() implies self@.meta[a].key != self@.meta[b].key by {
                        assert(s0.meta[a].key != s0.meta[b].key);
                    }
                }
                return;
            }
            i = i + 1;
        }
        self.meta.push(MetaEntry { key: owned(key), value: owned(value) });
        proof {
            self.lemma_view_lists();
            assert(self@.meta =~= s0.meta.push(MetaV { key: key@, value: value@ }));
            assert(self@.lists =~= s0.lists);
            assert(self@.repos =~= s0.repos);
            assert(self@.memberships =~= s0.memberships);
            assert(self@.proposals =~= s0.proposals);
            assert forall|a: int, b: int| 0 <= a < b < self@.meta.len() implies self@.meta[a].key != self@.meta[b].key by {
                if b < s0.meta.len() {
                    assert(s0.meta[a].key != s0.meta[b].key);
                }
            }
        }
    }

    /// The proposal with id `id`.
    pub fn get_proposal(&self, id: &str) -> (r: Option<ProposalRow>)
        requires
            self.wf(),
        ensures
            match r {
                Some(p) => proposal_with_id(self@, id@) == Some(p@),
                None => proposal_with_id(self@, id@) is None,
            },
    {
        proof {
            self.lemma_view_lists();
        }
        let mut i: usize = 0;
        while i < self.proposals.len()
            invariant
                self.wf(),
                i <= self.proposals@.len(),
                forall|j: int| 0 <= j < i ==> !(proposal_id_is(id@))(#[trigger] self@.proposals[j]),
            decreases self.proposals@.len() - i,
        {
            proof {
                self.lemma_view_lists();
            }
            if str_eq(self.proposals[i].id.as_str(), id) {
                proof {
                    lemma_first_index_found(self@.proposals, proposal_id_is(id@), i as int);
                }
                return Some(self.proposals[i].dup());
            }
            i = i + 1;
        }
        proof {
            lemma_first_index_none(self@.proposals, proposal_id_is(id@));
        }
        None
    }

    /// The proposal imported last.
    pub fn latest_proposal(&self) -> (r: Option<ProposalRow>)
        requires
            self.wf(),
        ensures
            match r {
                Some(p) => latest_proposal_v(self@) == Some(p@),
                None => latest_proposal_v(self@) is None,
            },
    {
        proof {
            self.lemma_view_lists();
        }
        match self.get_meta("last_proposal_id") {
            Some(id) => {
                match self.get_proposal(id.as_str()) {
                    Some(p) => {
                        return Some(p);
                    },
                    None => {},
                }
            },
            None => {},
        }
        let ghost ps = self@.proposals;
        let mut best: Option<usize> = None;
        let mut i: usize = 0;
        while i < self.proposals.len()
            invariant
                self.wf(),
                ps == self@.proposals,
                i <= ps.len(),
                match best {
                    Some(b) => b < i && newest(ps.take(i as int)) == Some(ps[b as int]),
                    None => i == 0 && newest(ps.take(i as int)) is None,
                },
            decreases ps.len() - i,
        {
            proof {
                self.lemma_view_lists();
            }
            assert(ps.take(i + 1).drop_last() =~= ps.take(i as int));
            match best {
                None => {
                    best = Some(i);
                },
                Some(b) => {
                    if less_than(self.proposals[b].created_at.as_str(), self.proposals[i].created_at.as_str()) {
                        best = Some(i);
                    }
                },
            }
            i = i + 1;
        }
        assert(ps.take(ps.len() as int) =~= ps);
        match best {
            Some(b) => Some(self.proposals[b].dup()),
            None => None,
        }
    }

    /// Stores a new draft proposal and remembers it as the last one.
    pub fn insert_proposal(
        &mut self,
        id: &str,
        notes: Option<&str>,
        source_path: Option<&str>,
        raw_json: &str,
        now: &str,
    ) -> (r: Result<(), AppError>)
        requires
            old(self).wf(),
        ensures
            final(self).wf(),
            (final(self)@, match r {
                Ok(_) => Ok::<(), AppErrorV>(()),
                Err(e) => Err(e@),
            }) == insert_proposal_v(
                old(self)@,
                id@,
                match notes {
                    Some(x) => Some(x@),
                    None => None,
                },
                match source_path {
                    Some(x) => Some(x@),
                    None => None,
                },
                raw_json@,
                now@,
            ),
    {
        proof {
            self.lemma_view_lists();
        }
        if self.get_proposal(id).is_some() {
            return Err(error_with("error", "UNIQUE constraint failed: ", "proposal.id"));
        }
        let ghost s0 = self@;
        let row = ProposalRow {
            id: owned(id),
            created_at: owned(now),
            notes: match notes {
                Some(x) => Some(owned(x)),
                None => None,
            },
            status: owned("draft"),
            source_path: match source_path {
                Some(x) => Some(owned(x)),
                None => None,
            },
            raw_json: owned(raw_json),
        };
        let ghost rv = row@;
        proof {
            lemma_first_index_props(s0.proposals, proposal_id_is(id@));
        }
        self.proposals.push(row);
        proof {
            self.lemma_view_lists();
            assert(self@.proposals =~= s0.proposals.push(rv));
            assert(self@ =~= StoreV { proposals: s0.proposals.push(rv), ..s0 });
            assert forall|a: int, b: int| 0 <= a < b < self@.proposals.len() implies self@.proposals[a].id != self@.proposals[b].id by {
                if b < s0.proposals.len() {
                    assert(s0.proposals[a].id != s0.proposals[b].id);
                } else {
                    assert(!(proposal_id_is(id@))(s0.proposals[a]));
                }
            }
        }
        self.set_meta("last_proposal_id", id);
        Ok(())
    }

    /// Replaces the proposal `id` (if stored) by a new draft.
    pub fn replace_proposal(
        &mut self,
        id: &str,
        notes: Option<&str>,
        source_path: Option<&str>,
        raw_json: &str,
        now: &str,
    ) -> (r: Result<(), AppError>)
        requires
            old(self).wf(),
        ensures
            final(self).wf(),
            (final(self)@, match r {
                Ok(_) => Ok::<(), AppErrorV>(()),
                Err(e) => Err(e@),
            }) == insert_proposal_v(
                StoreV { proposals: keep_where(old(self)@.proposals, proposal_id_not(id@)), ..old(self)@ },
                id@,
                match notes {
                    Some(x) => Some(x@),
                    None => None,
                },
                match source_path {
                    Some(x) => Some(x@),
                    None => None,
                },
                raw_json@,
                now@,
            ),
    {
        proof {
            self.lemma_view_lists();
        }
        let ghost s0 = self@;
        let mut ps: Vec<ProposalRow> = Vec::new();
        let mut j: usize = 0;
        while j < self.proposals.len()
            invariant
                s0 == self@,
                self.proposals@.len() == s0.proposals.len(),
                forall|k: int| 0 <= k < s0.proposals.len() ==> #[trigger] s0.proposals[k] == self.proposals@[k]@,
                j <= s0.proposals.len(),
                ps@.map_values(|p: ProposalRow| p@) == keep_where(s0.proposals.take(j as int), proposal_id_not(id@)),
            decreases s0.proposals.len() - j,
        {
            assert(s0.proposals.take(j + 1).drop_last() =~= s0.proposals.take(j as int));
            if !str_eq(self.proposals[j].id.as_str(), id) {
                let ghost b = ps@.map_values(|p: ProposalRow| p@);
                ps.push(self.proposals[j].dup());
                assert(ps@.map_values(|p: ProposalRow| p@) =~= b.push(s0.proposals[j as int]));
            }
            j = j + 1;
        }
        assert(s0.proposals.take(s0.proposals.len() as int) =~= s0.proposals);
        self.proposals = ps;
        proof {
            lemma_keep_where(s0.proposals, proposal_id_not(id@), |a: ProposalRowV, b: ProposalRowV| a.id != b.id);
            self.lemma_view_lists();
            assert(self@ =~= StoreV { proposals: keep_where(s0.proposals, proposal_id_not(id@)), ..s0 });
        }
        self.insert_proposal(id, notes, source_path, raw_json, now)
    }

    /// Marks the proposal `id` as applied.
    pub fn mark_proposal_applied(&mut self, id: &str)
        requires
            old(self).wf(),
        ensures
            final(self).wf(),
            final(self)@ == mark_applied_v(old(self)@, id@),
    {
        proof {
            self.lemma_view_lists();
        }
        let ghost s0 = self@;
        let mut i: usize = 0;
        while i < self.proposals.len()
            invariant
                s0 == old(self)@,
                self.proposals@.len() == s0.proposals.len(),
                i <= s0.proposals.len(),
                forall|k: int| 0 <= k < i ==> #[trigger] self.proposals@[k]@ == (if s0.proposals[k].id == id@ {
                    ProposalRowV { status: "applied"@, ..s0.proposals[k] }
                } else {
                    s0.proposals[k]
                }),
                forall|k: int| i <= k < s0.proposals.len() ==> #[trigger] self.proposals@[k]@ == s0.proposals[k],
                self.lists == old(self).lists,
                self.repos == old(self).repos,
                self.memberships == old(self).memberships,
                self.meta == old(self).meta,
                self.list_seq == old(self).list_seq,
            decreases s0.proposals.len() - i,
        {
            let ghost before = self.proposals@;
            if str_eq(self.proposals[i].id.as_str(), id) {
                let mut p = self.proposals[i].dup();
                p.status = owned("applied");
                self.proposals.set(i, p);
            }
            assert forall|k: int| 0 <= k < i + 1 implies #[trigger] self.proposals@[k]@ == (if s0.proposals[k].id == id@ {
                ProposalRowV { status: "applied"@, ..s0.proposals[k] }
            } else {
                s0.proposals[k]
            }) by {
                if k < i {
                    assert(self.proposals@[k] == before[k]);
                } else {
                    assert(before[k]@ == s0.proposals[k]);
                    if s0.proposals[k].id != id@ {
                        assert(self.proposals@[k] == before[k]);
                    }
                }
            }
            i = i + 1;
        }
        proof {
            self.lemma_view_lists();
            assert(self@.proposals =~= mark_applied_v(s0, id@).proposals);
            assert forall|a: int, b: int| 0 <= a < b < self@.proposals.len() implies self@.proposals[a].id != self@.proposals[b].id by {
                assert(s0.proposals[a].id != s0.proposals[b].id);
            }
        }
    }

    /// Counts of repositories, live lists, and repositories in no live list.
    pub fn stats(&self) -> (r: Stats)
        requires
            self.wf(),
        ensures
            r.repos == self@.repos.len() as i64,
            r.lists == filter_lists(self@.lists, false).len() as i64,
            r.unlisted == count_unlisted(self@, self@.repos) as i64,
    {
        proof {
            self.lemma_view_lists();
        }
        let ghost ls = self@.lists;
        let mut lists: usize = 0;
        let mut i: usize = 0;
        while i < self.lists.len()
            invariant
                self.wf(),
                ls == self@.lists,
                i <= ls.len(),
                lists == filter_lists(ls.take(i as int), false).len(),
                lists <= i,
            decreases ls.len() - i,
        {
            proof {
                self.lemma_view_lists();
            }
            assert(ls.take(i + 1).drop_last() =~= ls.take(i as int));
            if !str_eq(self.lists[i].status.as_str(), "tombstone") {
                lists = lists + 1;
            }
            i = i + 1;
        }
        assert(ls.take(ls.len() as int) =~= ls);
        let ghost rs = self@.repos;
        let mut unlisted: usize = 0;
        let mut j: usize = 0;
        while j < self.repos.len()
            invariant
                self.wf(),
                rs == self@.repos,
                j <= rs.len(),
                unlisted == count_unlisted(self@, rs.take(j as int)),
                unlisted <= j,
            decreases rs.len() - j,
        {
            proof {
                self.lemma_view_lists();
            }
            assert(rs.take(j + 1).drop_last() =~= rs.take(j as int));
            if self.repo_list_slugs(self.repos[j].repo.id).len() == 0 {
                unlisted = unlisted + 1;
            }
            j = j + 1;
        }
        assert(rs.take(rs.len() as int) =~= rs);
        Stats { repos: self.repos.len() as i64, lists: lists as i64, unlisted: unlisted as i64 }
    }
}


// ---------------------------------------------------------------------
// Building a store from saved rows, and reading it out for saving.
pub open spec fn empty_store(list_seq: i64) -> StoreV {
    StoreV {
        lists: seq![],
        repos: seq![],
        memberships: seq![],
        proposals: seq![],
        meta: seq![],
        list_seq,
    }
}

/// A saved list row can join the store: its id follows every stored id and stays
/// within the counter, and its slug and GitHub id are free.
pub open spec fn list_loadable(s: StoreV, row: ListRowV) -> bool {
    &&& 1 <= row.id <= s.list_seq
    &&& forall|i: int| 0 <= i < s.lists.len() ==> list_pair_ok(#[trigger] s.lists[i], row)
}

/// A saved repository can join the store: its id follows every stored id and its
/// node id and name are free.
pub open spec fn repo_loadable(s: StoreV, r: StoredRepoV) -> bool {
    forall|i: int| 0 <= i < s.repos.len() ==> repo_pair_ok(#[trigger] s.repos[i], r)
}

impl Store {
    /// An empty store whose list id counter stands at `list_seq` (0 for a new store).
    pub fn new(list_seq: i64) -> (s: Store)
        requires
            list_seq >= 0,
        ensures
            s.wf(),
            s@ == empty_store(list_seq),
    {
        let s = Store {
            lists: Vec::new(),
            repos: Vec::new(),
            memberships: Vec::new(),
            proposals: Vec::new(),
            meta: Vec::new(),
            list_seq,
        };
        proof {
            assert(s@.lists =~= empty_store(list_seq).lists);
            assert(s@.repos =~= empty_store(list_seq).repos);
            assert(s@.memberships =~= empty_store(list_seq).memberships);
            assert(s@.proposals =~= empty_store(list_seq).proposals);
            assert(s@.meta =~= empty_store(list_seq).meta);
        }
        s
    }

    /// Appends a saved list row, refusing one that breaks the store's rules.
    pub fn load_list(&mut self, row: ListRow) -> (r: Result<(), AppError>)
        requires
            old(self).wf(),
        ensures
            final(self).wf(),
            r is Ok <==> list_loadable(old(self)@, row@),
            r is Ok ==> final(self)@ == (StoreV { lists: old(self)@.lists.push(row@), ..old(self)@ }),
            r is Err ==> final(self)@ == old(self)@,
    {
        proof {
            self.lemma_view_lists();
        }
        let ghost s0 = self@;
        if row.id < 1 || row.id > self.list_seq {
            return Err(AppError::new("invalid", owned("saved list id out of range")));
        }
        let mut i: usize = 0;
        while i < self.lists.len()
            invariant
                s0 == self@,
                self.lists@.len() == s0.lists.len(),
                forall|k: int| 0 <= k < s0.lists.len() ==> #[trigger] s0.lists[k] == self.lists@[k]@,
                i <= s0.lists.len(),
                forall|k: int| 0 <= k < i ==> list_pair_ok(#[trigger] s0.lists[k], row@),
                s0 == old(self)@,
                store_wf(s0),
                1 <= row.id <= s0.list_seq,
            decreases s0.lists.len() - i,
        {
            let l = &self.lists[i];
            assert(l@ == s0.lists[i as int]);
            let gid_clash = match (&l.github_id, &row.github_id) {
                (Some(a), Some(b)) => str_eq(a.as_str(), b.as_str()),
                _ => false,
            };
            if !(l.id < row.id) || str_eq(l.slug.as_str(), row.slug.as_str()) || gid_clash {
                return Err(AppError::new("invalid", owned("saved list breaks the schema")));
            }
            i = i + 1;
        }
        let ghost rv = row@;
        self.lists.push(row);
        proof {
            self.lemma_view_lists();
            assert(self@.lists =~= s0.lists.push(rv));
            assert(self@ =~= StoreV { lists: s0.lists.push(rv), ..s0 });
            assert forall|k: i64| has_list_id(s0, k) implies has_list_id(self@, k) by {
                let i = choose|i: int| 0 <= i < s0.lists.len() && s0.lists[i].id == k;
                assert(self@.lists[i].id == k);
            }
            let ls = self@.lists;
            assert forall|a: int, b: int| 0 <= a < b < ls.len() implies list_pair_ok(ls[a], ls[b]) by {
                if b < ls.len() - 1 {
                    assert(list_pair_ok(s0.lists[a], s0.lists[b]));
                }
            }
            assert forall|a: int| 0 <= a < ls.len() implies 1 <= #[trigger] ls[a].id <= self@.list_seq by {
                if a < ls.len() - 1 {
                    assert(1 <= s0.lists[a].id <= s0.list_seq);
                }
            }
        }
        Ok(())
    }

    /// Appends a saved repository, refusing one that breaks the store's rules.
    pub fn load_repo(&mut self, entry: StoredRepo) -> (r: Result<(), AppError>)
        requires
            old(self).wf(),
        ensures
            final(self).wf(),
            r is Ok <==> repo_loadable(old(self)@, entry@),
            r is Ok ==> final(self)@ == (StoreV { repos: old(self)@.repos.push(entry@), ..old(self)@ }),
            r is Err ==> final(self)@ == old(self)@,
    {
        proof {
            self.lemma_view_lists();
        }
        let ghost s0 = self@;
        let mut i: usize = 0;
        while i < self.repos.len()
            invariant
                s0 == self@,
                self.repos@.len() == s0.repos.len(),
                forall|k: int| 0 <= k < s0.repos.len() ==> #[trigger] s0.repos[k] == self.repos@[k]@,
                i <= s0.repos.len(),
                forall|k: int| 0 <= k < i ==> repo_pair_ok(#[trigger] s0.repos[k], entry@),
                s0 == old(self)@,
                store_wf(s0),
            decreases s0.repos.len() - i,
        {
            let r = &self.repos[i].repo;
            assert(self.repos@[i as int]@ == s0.repos[i as int]);
            if !(r.id < entry.repo.id) || r.node_id == entry.repo.node_id || r.name_with_owner
                == entry.repo.name_with_owner {
                return Err(AppError::new("invalid", owned("saved repository breaks the schema")));
            }
            i = i + 1;
        }
        let ghost ev = entry@;
        self.repos.push(entry);
        proof {
            self.lemma_view_lists();
            assert(self@.repos =~= s0.repos.push(ev));
            assert(self@ =~= StoreV { repos: s0.repos.push(ev), ..s0 });
            assert forall|k: i64| has_repo_id(s0, k) implies has_repo_id(self@, k) by {
                let i = choose|i: int| 0 <= i < s0.repos.len() && s0.repos[i].repo.id == k;
                assert(self@.repos[i].repo.id == k);
            }
            let rs = self@.repos;
            assert forall|a: int, b: int| 0 <= a < b < rs.len() implies repo_pair_ok(rs[a], rs[b]) by {
                if b < rs.len() - 1 {
                    assert(repo_pair_ok(s0.repos[a], s0.repos[b]));
                }
            }
        }
        Ok(())
    }

    /// Appends a saved proposal, refusing a second one with the same id.
    pub fn load_proposal(&mut self, row: ProposalRow) -> (r: Result<(), AppError>)
        requires
            old(self).wf(),
        ensures
            final(self).wf(),
            r is Ok <==> proposal_with_id(old(self)@, row@.id) is None,
            r is Ok ==> final(self)@ == (StoreV { proposals: old(self)@.proposals.push(row@), ..old(self)@ }),
            r is Err ==> final(self)@ == old(self)@,
    {
        proof {
            self.lemma_view_lists();
        }
        let ghost s0 = self@;
        if self.get_proposal(row.id.as_str()).is_some() {
            return Err(AppError::new("invalid", owned("saved proposal id repeats")));
        }
        proof {
            lemma_first_index_props(s0.proposals, proposal_id_is(row@.id));
        }
        let ghost rv = row@;
        self.proposals.push(row);
        proof {
            self.lemma_view_lists();
            assert(self@.proposals =~= s0.proposals.push(rv));
            assert(self@ =~= StoreV { proposals: s0.proposals.push(rv), ..s0 });
            assert forall|a: int, b: int| 0 <= a < b < self@.proposals.len() implies self@.proposals[a].id != self@.proposals[b].id by {
                if b < s0.proposals.len() {
                    assert(s0.proposals[a].id != s0.proposals[b].id);
                } else {
                    assert(!(proposal_id_is(rv.id))(s0.proposals[a]));
                }
            }
        }
        Ok(())
    }

    /// The stored lists, in id order (for saving).
    pub fn saved_lists(&self) -> (r: &Vec<ListRow>)
        ensures
            r@.map_values(|l: ListRow| l@) == self@.lists,
    {
        proof {
            self.lemma_view_lists();
            assert(self.lists@.map_values(|l: ListRow| l@) =~= self@.lists);
        }
        &self.lists
    }

    /// The stored repositories, in id order (for saving).
    pub fn saved_repos(&self) -> (r: &Vec<StoredRepo>)
        ensures
            r@.map_values(|x: StoredRepo| x@) == self@.repos,
    {
        proof {
            self.lemma_view_lists();
            assert(self.repos@.map_values(|x: StoredRepo| x@) =~= self@.repos);
        }
        &self.repos
    }

    /// The stored memberships (for saving).
    pub fn saved_memberships(&self) -> (r: &Vec<Membership>)
        ensures
            r@.map_values(|m: Membership| m@) == self@.memberships,
    {
        proof {
            self.lemma_view_lists();
            assert(self.memberships@.map_values(|m: Membership| m@) =~= self@.memberships);
        }
        &self.memberships
    }

    /// The stored proposals (for saving).
    pub fn saved_proposals(&self) -> (r: &Vec<ProposalRow>)
        ensures
            r@.map_values(|p: ProposalRow| p@) == self@.proposals,
    {
        proof {
            self.lemma_view_lists();
            assert(self.proposals@.map_values(|p: ProposalRow| p@) =~= self@.proposals);
        }
        &self.proposals
    }

    /// The stored metadata (for saving).
    pub fn saved_meta(&self) -> (r: &Vec<MetaEntry>)
        ensures
            r@.map_values(|m: MetaEntry| m@) == self@.meta,
    {
        proof {
            self.lemma_view_lists();
            assert(self.meta@.map_values(|m: MetaEntry| m@) =~= self@.meta);
        }
        &self.meta
    }

    /// The largest list id ever handed out.
    pub fn list_seq(&self) -> (r: i64)
        ensures
            r == self@.list_seq,
    {
        self.list_seq
    }
}


impl Membership {
    pub fn dup(&self) -> (r: Membership)
        ensures
            r@ == self@,
    {
        Membership { repo_id: self.repo_id, list_id: self.list_id, source: self.source.clone() }
    }
}

impl Store {
    /// A copy of the store, to go back to when a group of writes fails.
    pub fn dup(&self) -> (r: Store)
        ensures
            r@ == self@,
    {
        let mut lists: Vec<ListRow> = Vec::new();
        let mut i: usize = 0;
        while i < self.lists.len()
            invariant
                i <= self.lists.len(),
                lists@.len() == i,
                forall|k: int| 0 <= k < i ==> #[trigger] lists@[k]@ == self.lists@[k]@,
            decreases self.lists.len() - i,
        {
            lists.push(self.lists[i].dup());
            i = i + 1;
        }
        let mut repos: Vec<StoredRepo> = Vec::new();
        let mut i: usize = 0;
        while i < self.repos.len()
            invariant
                i <= self.repos.len(),
                repos@.len() == i,
                forall|k: int| 0 <= k < i ==> #[trigger] repos@[k]@ == self.repos@[k]@,
            decreases self.repos.len() - i,
        {
            repos.push(self.repos[i].dup());
            i = i + 1;
        }
        let mut memberships: Vec<Membership> = Vec::new();
        let mut i: usize = 0;
        while i < self.memberships.len()
            invariant
                i <= self.memberships.len(),
                memberships@.len() == i,
                forall|k: int| 0 <= k < i ==> #[trigger] memberships@[k]@ == self.memberships@[k]@,
            decreases self.memberships.len() - i,
        {
            memberships.push(self.memberships[i].dup());
            i = i + 1;
        }
        let mut proposals: Vec<ProposalRow> = Vec::new();
        let mut i: usize = 0;
        while i < self.proposals.len()
            invariant
                i <= self.proposals.len(),
                proposals@.len() == i,
                forall|k: int| 0 <= k < i ==> #[trigger] proposals@[k]@ == self.proposals@[k]@,
            decreases self.proposals.len() - i,
        {
            proposals.push(self.proposals[i].dup());
            i = i + 1;
        }
        let mut meta: Vec<MetaEntry> = Vec::new();
        let mut i: usize = 0;
        while i < self.meta.len()
            invariant
                i <= self.meta.len(),
                meta@.len() == i,
                forall|k: int| 0 <= k < i ==> #[trigger] meta@[k]@ == self.meta@[k]@,
            decreases self.meta.len() - i,
        {
            meta.push(self.meta[i].dup());
            i = i + 1;
        }
        let r = Store { lists, repos, memberships, proposals, meta, list_seq: self.list_seq };
        assert(r@.lists =~= self@.lists);
        assert(r@.repos =~= self@.repos);
        assert(r@.memberships =~= self@.memberships);
        assert(r@.proposals =~= self@.proposals);
        assert(r@.meta =~= self@.meta);
        r
    }
}

} // verus!
