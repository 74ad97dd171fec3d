//! Classification proposals: their shape, how one compiles into a plan of GitHub
//! mutations, and how one is applied to the local store.
use vstd::prelude::*;

use crate::db::{
    by_text, create_list_v, delete_list_v, dup_opt, dup_strings, is_tombstone, listed, member_slugs, queried,
    resolve_list_v, resolve_repo_v, set_membership_v, sort_texts, update_list_v, ListRow, ListRowV, RepoRow,
    RepoRowV, Store, StoreV,
};
use crate::github::GITHUB_LIST_CAP;
use crate::ids::{slug_of, slugify};
use crate::order::{
    first_index, insert_pos, keep_where, lemma_first_index_found, lemma_first_index_none,
    lemma_first_index_props, lemma_insert_pos, sort_by,
};
use crate::output::{err_v, error_with, AppError, AppErrorV};
use crate::text::{decimal, less_than, owned, push_str, str_eq, text_lt, usize_text};


verus! {

/// The proposal format version this library reads.
pub const PROPOSAL_VERSION: u32 = 1;

/// A list the proposal creates.
#[derive(Debug)]
pub struct ListCreate {
    pub slug: Option<String>,
    pub name: String,
    pub description: Option<String>,
    pub is_private: Option<bool>,
}

pub struct ListCreateV {
    pub slug: Option<Seq<char>>,
    pub name: Seq<char>,
    pub description: Option<Seq<char>>,
    pub is_private: Option<bool>,
}

impl View for ListCreate {
    type V = ListCreateV;

    open spec fn view(&self) -> ListCreateV {
        ListCreateV {
            slug: self.slug.deep_view(),
            name: self.name@,
            description: self.description.deep_view(),
            is_private: self.is_private,
        }
    }
}

impl ListCreate {
    pub fn dup(&self) -> (r: ListCreate)
        ensures
            r@ == self@,
    {
        ListCreate {
            slug: dup_opt(&self.slug),
            name: self.name.clone(),
            description: dup_opt(&self.description),
            is_private: self.is_private,
        }
    }
}

/// A list the proposal renames.
#[derive(Debug)]
pub struct ListRename {
    pub slug: String,
    pub name: String,
}

pub struct ListRenameV {
    pub slug: Seq<char>,
    pub name: Seq<char>,
}

impl View for ListRename {
    type V = ListRenameV;

    open spec fn view(&self) -> ListRenameV {
        ListRenameV { slug: self.slug@, name: self.name@ }
    }
}

/// A list whose description or visibility the proposal changes.
#[derive(Debug)]
pub struct ListUpdate {
    pub slug: String,
    pub description: Option<String>,
    pub is_private: Option<bool>,
}

pub struct ListUpdateV {
    pub slug: Seq<char>,
    pub description: Option<Seq<char>>,
    pub is_private: Option<bool>,
}

impl View for ListUpdate {
    type V = ListUpdateV;

    open spec fn view(&self) -> ListUpdateV {
        ListUpdateV { slug: self.slug@, description: self.description.deep_view(), is_private: self.is_private }
    }
}

impl ListUpdate {
    pub fn dup(&self) -> (r: ListUpdate)
        ensures
            r@ == self@,
    {
        ListUpdate { slug: self.slug.clone(), description: dup_opt(&self.description), is_private: self.is_private }
    }
}

/// Lists the proposal folds into another.
#[derive(Debug)]
pub struct ListMerge {
    pub from: Vec<String>,
    pub into: String,
}

pub struct ListMergeV {
    pub from: Seq<Seq<char>>,
    pub into: Seq<char>,
}

impl View for ListMerge {
    type V = ListMergeV;

    open spec fn view(&self) -> ListMergeV {
        ListMergeV { from: self.from.deep_view(), into: self.into@ }
    }
}

/// The full set of lists a repository should be in.
#[derive(Debug)]
pub struct MembershipSet {
    pub repo: String,
    pub lists: Vec<String>,
}

pub struct MembershipSetV {
    pub repo: Seq<char>,
    pub lists: Seq<Seq<char>>,
}

impl View for MembershipSet {
    type V = MembershipSetV;

    open spec fn view(&self) -> MembershipSetV {
        MembershipSetV { repo: self.repo@, lists: self.lists.deep_view() }
    }
}

impl MembershipSet {
    pub fn dup(&self) -> (r: MembershipSet)
        ensures
            r@ == self@,
    {
        MembershipSet { repo: self.repo.clone(), lists: dup_strings(&self.lists) }
    }
}

/// The list changes of a proposal.
#[derive(Debug)]
pub struct ListChanges {
    pub create: Vec<ListCreate>,
    pub rename: Vec<ListRename>,
    pub update: Vec<ListUpdate>,
    pub merge: Vec<ListMerge>,
    pub delete: Vec<String>,
}

pub struct ListChangesV {
    pub create: Seq<ListCreateV>,
    pub rename: Seq<ListRenameV>,
    pub update: Seq<ListUpdateV>,
    pub merge: Seq<ListMergeV>,
    pub delete: Seq<Seq<char>>,
}

impl View for ListChanges {
    type V = ListChangesV;

    open spec fn view(&self) -> ListChangesV {
        ListChangesV {
            create: self.create@.map_values(|c: ListCreate| c@),
            rename: self.rename@.map_values(|c: ListRename| c@),
            update: self.update@.map_values(|c: ListUpdate| c@),
            merge: self.merge@.map_values(|c: ListMerge| c@),
            delete: self.delete.deep_view(),
        }
    }
}

impl Default for ListChanges {
    fn default() -> (r: ListChanges)
        ensures
            r@.create.len() == 0,
            r@.rename.len() == 0,
            r@.update.len() == 0,
            r@.merge.len() == 0,
            r@.delete.len() == 0,
    {
        ListChanges {
            create: Vec::new(),
            rename: Vec::new(),
            update: Vec::new(),
            merge: Vec::new(),
            delete: Vec::new(),
        }
    }
}

/// A classification proposal as an agent writes it.
#[derive(Debug)]
pub struct ProposalFile {
    pub version: u32,
    pub id: Option<String>,
    pub notes: Option<String>,
    pub lists: ListChanges,
    pub memberships: Vec<MembershipSet>,
}

pub struct ProposalFileV {
    pub version: u32,
    pub id: Option<Seq<char>>,
    pub notes: Option<Seq<char>>,
    pub lists: ListChangesV,
    pub memberships: Seq<MembershipSetV>,
}

impl View for ProposalFile {
    type V = ProposalFileV;

    open spec fn view(&self) -> ProposalFileV {
        ProposalFileV {
            version: self.version,
            id: self.id.deep_view(),
            notes: self.notes.deep_view(),
            lists: self.lists@,
            memberships: self.memberships@.map_values(|m: MembershipSet| m@),
        }
    }
}

/// How many lists GitHub has now and would have after the plan, against the cap.
#[derive(Debug)]
pub struct ListCap {
    pub current_remote: usize,
    pub after_apply: usize,
    pub max: usize,
}

/// One mutation of a list on GitHub.
#[derive(Debug)]
#[allow(inconsistent_fields)]
pub enum ListOp {
    Create { slug: String, name: String, description: Option<String>, is_private: bool },
    Update {
        slug: String,
        github_id: Option<String>,
        name: Option<String>,
        description: Option<String>,
        is_private: Option<bool>,
    },
    Delete { slug: String, github_id: Option<String> },
}

#[allow(inconsistent_fields)]
pub enum ListOpV {
    Create { slug: Seq<char>, name: Seq<char>, description: Option<Seq<char>>, is_private: bool },
    Update {
        slug: Seq<char>,
        github_id: Option<Seq<char>>,
        name: Option<Seq<char>>,
        description: Option<Seq<char>>,
        is_private: Option<bool>,
    },
    Delete { slug: Seq<char>, github_id: Option<Seq<char>> },
}

impl View for ListOp {
    type V = ListOpV;

    open spec fn view(&self) -> ListOpV {
        match self {
            ListOp::Create { slug, name, description, is_private } => ListOpV::Create {
                slug: slug@,
                name: name@,
                description: description.deep_view(),
                is_private: *is_private,
            },
            ListOp::Update { slug, github_id, name, description, is_private } => ListOpV::Update {
                slug: slug@,
                github_id: github_id.deep_view(),
                name: name.deep_view(),
                description: description.deep_view(),
                is_private: *is_private,
            },
            ListOp::Delete { slug, github_id } => ListOpV::Delete {
                slug: slug@,
                github_id: github_id.deep_view(),
            },
        }
    }
}

/// The full list membership to send for one repository.
#[derive(Debug)]
pub struct MembershipPlan {
    pub repo: String,
    pub repo_node_id: String,
    pub lists: Vec<String>,
    pub list_github_ids: Vec<String>,
}

pub struct MembershipPlanV {
    pub repo: Seq<char>,
    pub repo_node_id: Seq<char>,
    pub lists: Seq<Seq<char>>,
    pub list_github_ids: Seq<Seq<char>>,
}

impl View for MembershipPlan {
    type V = MembershipPlanV;

    open spec fn view(&self) -> MembershipPlanV {
        MembershipPlanV {
            repo: self.repo@,
            repo_node_id: self.repo_node_id@,
            lists: self.lists.deep_view(),
            list_github_ids: self.list_github_ids.deep_view(),
        }
    }
}

/// The concrete mutations a proposal expands to.
#[derive(Debug)]
pub struct Plan {
    pub id: String,
    pub notes: Option<String>,
    pub list_cap: ListCap,
    pub list_ops: Vec<ListOp>,
    pub memberships: Vec<MembershipPlan>,
    pub warnings: Vec<String>,
}

pub struct PlanV {
    pub id: Seq<char>,
    pub notes: Option<Seq<char>>,
    pub current_remote: nat,
    pub after_apply: nat,
    pub max: nat,
    pub list_ops: Seq<ListOpV>,
    pub memberships: Seq<MembershipPlanV>,
    pub warnings: Seq<Seq<char>>,
}

impl View for Plan {
    type V = PlanV;

    open spec fn view(&self) -> PlanV {
        PlanV {
            id: self.id@,
            notes: self.notes.deep_view(),
            current_remote: self.list_cap.current_remote as nat,
            after_apply: self.list_cap.after_apply as nat,
            max: self.list_cap.max as nat,
            list_ops: self.list_ops@.map_values(|o: ListOp| o@),
            memberships: self.memberships@.map_values(|m: MembershipPlan| m@),
            warnings: self.warnings.deep_view(),
        }
    }
}

// ---------------------------------------------------------------------
// Reading a proposal.
/// The version check `parse_proposal` makes once the JSON is read.
pub open spec fn check_version_v(p: ProposalFileV) -> Result<ProposalFileV, AppErrorV> {
    if p.version == PROPOSAL_VERSION {
        Ok(p)
    } else {
        Err(err_v(
            "invalid"@,
            "unsupported proposal version "@ + decimal(p.version as nat) + ", expected 1"@,
        ))
    }
}

/// Accepts a decoded proposal of the supported version, or names the version it has.
pub fn check_proposal_version(p: ProposalFile) -> (r: Result<ProposalFile, AppError>)
    ensures
        match r {
            Ok(q) => check_version_v(p@) == Ok::<ProposalFileV, AppErrorV>(q@),
            Err(e) => check_version_v(p@) == Err::<ProposalFileV, AppErrorV>(e@),
        },
{
    if p.version == PROPOSAL_VERSION {
        Ok(p)
    } else {
        let mut m = owned("unsupported proposal version ");
        let v = crate::text::u64_text(p.version as u64);
        push_str(&mut m, v.as_str());
        push_str(&mut m, ", expected 1");
        Err(AppError::new("invalid", m))
    }
}

/// The example proposal of the agent corpus: one private list `web-mapping` to
/// create, and one repository placed in it.
pub open spec fn example_proposal_v() -> ProposalFileV {
    ProposalFileV {
        version: PROPOSAL_VERSION,
        id: None,
        notes: Some("Replace this file after classifying the export corpus."@),
        lists: ListChangesV {
            create: seq![
                ListCreateV {
                    slug: Some("web-mapping"@),
                    name: "Web Mapping"@,
                    description: Some("Browser maps, tiles, and Web GIS."@),
                    is_private: Some(true),
                },
            ],
            rename: seq![],
            update: seq![],
            merge: seq![],
            delete: seq![],
        },
        memberships: seq![MembershipSetV { repo: "owner/example"@, lists: seq!["web-mapping"@] }],
    }
}

/// The proposal written into the agent corpus as an example.
pub fn example_proposal() -> (p: ProposalFile)
    ensures
        p@ == example_proposal_v(),
{
    let mut create: Vec<ListCreate> = Vec::new();
    create.push(
        ListCreate {
            slug: Some(owned("web-mapping")),
            name: owned("Web Mapping"),
            description: Some(owned("Browser maps, tiles, and Web GIS.")),
            is_private: Some(true),
        },
    );
    let mut lists = ListChanges::default();
    lists.create = create;
    let mut member_lists: Vec<String> = Vec::new();
    member_lists.push(owned("web-mapping"));
    let mut memberships: Vec<MembershipSet> = Vec::new();
    memberships.push(MembershipSet { repo: owned("owner/example"), lists: member_lists });
    let p = ProposalFile {
        version: PROPOSAL_VERSION,
        id: None,
        notes: Some(owned("Replace this file after classifying the export corpus.")),
        lists,
        memberships,
    };
    assert(p@.memberships[0].lists =~= seq!["web-mapping"@]);
    assert(p@.lists.create =~= example_proposal_v().lists.create);
    assert(p@.lists.rename =~= example_proposal_v().lists.rename);
    assert(p@.lists.update =~= example_proposal_v().lists.update);
    assert(p@.lists.merge =~= example_proposal_v().lists.merge);
    assert(p@.lists.delete =~= example_proposal_v().lists.delete);
    assert(p@.memberships =~= example_proposal_v().memberships);
    p
}


// ---------------------------------------------------------------------
// Keyed collections the plan is built from.
pub open spec fn key_is<A>(k: Seq<char>) -> spec_fn((Seq<char>, A)) -> bool {
    |e: (Seq<char>, A)| e.0 == k
}

pub open spec fn has_key<A>(m: Seq<(Seq<char>, A)>, k: Seq<char>) -> bool {
    exists|i: int| 0 <= i < m.len() && m[i].0 == k
}

pub open spec fn key_before<A>() -> spec_fn((Seq<char>, A), (Seq<char>, A)) -> bool {
    |a: (Seq<char>, A), b: (Seq<char>, A)| text_lt(a.0, b.0)
}

/// A map kept sorted by key (a `BTreeMap`): `k` gets `v`.
pub open spec fn sorted_put<A>(m: Seq<(Seq<char>, A)>, k: Seq<char>, v: A) -> Seq<(Seq<char>, A)> {
    if has_key(m, k) {
        m.update(first_index(m, key_is(k)), (k, v))
    } else {
        m.insert(insert_pos(m, (k, v), key_before()), (k, v))
    }
}

/// A map kept in first-insertion order: `k` gets `v`.
pub open spec fn assoc_put<A>(m: Seq<(Seq<char>, A)>, k: Seq<char>, v: A) -> Seq<(Seq<char>, A)> {
    if has_key(m, k) {
        m.update(first_index(m, key_is(k)), (k, v))
    } else {
        m.push((k, v))
    }
}

/// A set kept sorted (a `BTreeSet`): `x` joins.
pub open spec fn set_insert(d: Seq<Seq<char>>, x: Seq<char>) -> Seq<Seq<char>> {
    if d.contains(x) {
        d
    } else {
        d.insert(insert_pos(d, x, by_text()), x)
    }
}

/// The slug a created list gets: its slug slugified, or its name slugified when
/// that is empty or missing.
pub open spec fn create_slug(c: ListCreateV) -> Seq<char> {
    match c.slug {
        Some(x) => if slug_of(x).len() > 0 {
            slug_of(x)
        } else {
            slug_of(c.name)
        },
        None => slug_of(c.name),
    }
}

/// The creates of a proposal keyed by slug; a later create of a slug wins.
pub open spec fn creates_v(cs: Seq<ListCreateV>) -> Result<Seq<(Seq<char>, ListCreateV)>, AppErrorV>
    decreases cs.len(),
{
    if cs.len() == 0 {
        Ok(seq![])
    } else {
        match creates_v(cs.drop_last()) {
            Err(e) => Err(e),
            Ok(m) => {
                let k = create_slug(cs.last());
                if k.len() == 0 {
                    Err(err_v("invalid"@, "proposal create list has empty slug"@))
                } else {
                    Ok(sorted_put(m, k, cs.last()))
                }
            },
        }
    }
}

pub open spec fn renames_v(rs: Seq<ListRenameV>) -> Seq<(Seq<char>, Seq<char>)>
    decreases rs.len(),
{
    if rs.len() == 0 {
        seq![]
    } else {
        assoc_put(renames_v(rs.drop_last()), rs.last().slug, rs.last().name)
    }
}

pub open spec fn updates_v(us: Seq<ListUpdateV>) -> Seq<(Seq<char>, ListUpdateV)>
    decreases us.len(),
{
    if us.len() == 0 {
        seq![]
    } else {
        assoc_put(updates_v(us.drop_last()), us.last().slug, us.last())
    }
}

pub open spec fn deletes_v(ds: Seq<Seq<char>>) -> Seq<Seq<char>>
    decreases ds.len(),
{
    if ds.len() == 0 {
        seq![]
    } else {
        set_insert(deletes_v(ds.drop_last()), ds.last())
    }
}

/// The stored list with slug `slug` among `lists`.
pub open spec fn list_by_slug(lists: Seq<ListRowV>, slug: Seq<char>) -> Option<ListRowV> {
    crate::order::first_where(lists, crate::db::slug_is(slug))
}

fn find_slug(lists: &Vec<ListRow>, slug: &str) -> (r: Option<usize>)
    ensures
        r is None ==> list_by_slug(lists@.map_values(|l: ListRow| l@), slug@) is None,
        r matches Some(i) ==> i < lists@.len() && list_by_slug(lists@.map_values(|l: ListRow| l@), slug@)
            == Some(lists@[i as int]@),
{
    let ghost ls = lists@.map_values(|l: ListRow| l@);
    let mut i: usize = 0;
    while i < lists.len()
        invariant
            ls == lists@.map_values(|l: ListRow| l@),
            i <= lists.len(),
            forall|j: int| 0 <= j < i ==> !(crate::db::slug_is(slug@))(#[trigger] ls[j]),
        decreases lists.len() - i,
    {
        if str_eq(lists[i].slug.as_str(), slug) {
            proof {
                lemma_first_index_found(ls, crate::db::slug_is(slug@), i as int);
            }
            return Some(i);
        }
        i = i + 1;
    }
    proof {
        lemma_first_index_none(ls, crate::db::slug_is(slug@));
    }
    None
}

/// A slug with the value it maps to.
struct CreateEntry {
    slug: String,
    create: ListCreate,
}

impl View for CreateEntry {
    type V = (Seq<char>, ListCreateV);

    closed spec fn view(&self) -> (Seq<char>, ListCreateV) {
        (self.slug@, self.create@)
    }
}

struct RenameEntry {
    slug: String,
    name: String,
}

impl View for RenameEntry {
    type V = (Seq<char>, Seq<char>);

    closed spec fn view(&self) -> (Seq<char>, Seq<char>) {
        (self.slug@, self.name@)
    }
}

struct UpdateEntry {
    slug: String,
    update: ListUpdate,
}

impl View for UpdateEntry {
    type V = (Seq<char>, ListUpdateV);

    closed spec fn view(&self) -> (Seq<char>, ListUpdateV) {
        (self.slug@, self.update@)
    }
}

fn creates_key_index(m: &Vec<CreateEntry>, k: &str) -> (r: Option<usize>)
    ensures
        r is None ==> !has_key(m@.map_values(|e: CreateEntry| e@), k@),
        r matches Some(i) ==> i < m@.len() && first_index(m@.map_values(|e: CreateEntry| e@), key_is(k@)) == i,
{
    let ghost mv = m@.map_values(|e: CreateEntry| e@);
    let mut i: usize = 0;
    while i < m.len()
        invariant
            mv == m@.map_values(|e: CreateEntry| e@),
            i <= m.len(),
            forall|j: int| 0 <= j < i ==> !(key_is(k@))(#[trigger] mv[j]),
        decreases m.len() - i,
    {
        if str_eq(m[i].slug.as_str(), k) {
            proof {
                lemma_first_index_found(mv, key_is(k@), i as int);
            }
            return Some(i);
        }
        i = i + 1;
    }
    assert forall|j: int| 0 <= j < mv.len() implies mv[j].0 != k@ by {
        assert(!(key_is::<ListCreateV>(k@))(mv[j]));
    }
    None
}

/// `m` with `k` mapped to `v`, keeping `m` sorted by key.
fn creates_put(m: &mut Vec<CreateEntry>, k: String, v: ListCreate)
    ensures
        final(m)@.map_values(|e: CreateEntry| e@) == sorted_put(old(m)@.map_values(|e: CreateEntry| e@), k@, v@),
{
    let ghost mv = m@.map_values(|e: CreateEntry| e@);
    match creates_key_index(m, k.as_str()) {
        Some(i) => {
            m.set(i, CreateEntry { slug: k, create: v });
            proof {
                assert(has_key(mv, k@)) by {
                    lemma_first_index_props(mv, key_is(k@));
                }
                assert(m@.map_values(|e: CreateEntry| e@) =~= mv.update(i as int, (k@, v@)));
            }
        },
        None => {
            let mut p: usize = 0;
            while p < m.len() && !less_than(k.as_str(), m[p].slug.as_str())
                invariant
                    mv == m@.map_values(|e: CreateEntry| e@),
                    p <= m.len(),
                    forall|j: int| 0 <= j < p ==> !(key_before::<ListCreateV>())((k@, v@), #[trigger] mv[j]),
                decreases m.len() - p,
            {
                p = p + 1;
            }
            proof {
                lemma_insert_pos(mv, (k@, v@), key_before(), p as int);
            }
            let ghost kv = (k@, v@);
            m.insert(p, CreateEntry { slug: k, create: v });
            assert(m@.map_values(|e: CreateEntry| e@) =~= mv.insert(p as int, kv));
        },
    }
}

/// The creates of a proposal keyed by slug.
fn collect_creates(cs: &Vec<ListCreate>) -> (r: Result<Vec<CreateEntry>, AppError>)
    ensures
        match r {
            Ok(m) => creates_v(cs@.map_values(|c: ListCreate| c@)) == Ok::<Seq<(Seq<char>, ListCreateV)>, AppErrorV>(
                m@.map_values(|e: CreateEntry| e@),
            ),
            Err(e) => creates_v(cs@.map_values(|c: ListCreate| c@)) == Err::<Seq<(Seq<char>, ListCreateV)>, AppErrorV>(e@),
        },
{
    let ghost cv = cs@.map_values(|c: ListCreate| c@);
    let mut m: Vec<CreateEntry> = Vec::new();
    let mut i: usize = 0;
    assert(m@.map_values(|e: CreateEntry| e@) =~= Seq::<(Seq<char>, ListCreateV)>::empty());
    while i < cs.len()
        invariant
            cv == cs@.map_values(|c: ListCreate| c@),
            i <= cs.len(),
            creates_v(cv.take(i as int)) == Ok::<Seq<(Seq<char>, ListCreateV)>, AppErrorV>(m@.map_values(|e: CreateEntry| e@)),
        decreases cs.len() - i,
    {
        assert(cv.take(i + 1).drop_last() =~= cv.take(i as int));
        let c = &cs[i];
        let slug = match &c.slug {
            Some(x) => {
                let s = slugify(x.as_str());
                if !s.as_str().is_empty() {
                    s
                } else {
                    slugify(c.name.as_str())
                }
            },
            None => slugify(c.name.as_str()),
        };
        assert(slug@ == create_slug(cv[i as int]));
        if slug.as_str().is_empty() {
            proof {
                lemma_creates_err_stops(cv, i as int + 1);
            }
            return Err(AppError::new("invalid", owned("proposal create list has empty slug")));
        }
        creates_put(&mut m, slug, c.dup());
        i = i + 1;
    }
    assert(cv.take(cs.len() as int) =~= cv);
    Ok(m)
}

proof fn lemma_creates_err_stops(cs: Seq<ListCreateV>, k: int)
    requires
        0 <= k <= cs.len(),
        creates_v(cs.take(k)) is Err,
    ensures
        creates_v(cs) == creates_v(cs.take(k)),
    decreases cs.len() - k,
{
    if k < cs.len() {
        assert(cs.take(k + 1).drop_last() =~= cs.take(k));
        lemma_creates_err_stops(cs, k + 1);
    } else {
        assert(cs.take(k) =~= cs);
    }
}


// ---------------------------------------------------------------------
// What a compiled plan is.
/// What the merges thread along: the creates keyed by slug, the sorted deletes
/// and the membership sets.
pub struct MergeState {
    pub creates: Seq<(Seq<char>, ListCreateV)>,
    pub deletes: Seq<Seq<char>>,
    pub memberships: Seq<MembershipSetV>,
}

pub open spec fn text_not(x: Seq<char>) -> spec_fn(Seq<char>) -> bool {
    |s: Seq<char>| s != x
}

/// A membership set once list `from` is folded into `into`: a set that held
/// `from` loses it and holds `into`.
pub open spec fn fold_membership(m: MembershipSetV, from: Seq<char>, into: Seq<char>) -> MembershipSetV {
    if m.lists.contains(from) {
        let kept = keep_where(m.lists, text_not(from));
        MembershipSetV { repo: m.repo, lists: if kept.contains(into) { kept } else { kept.push(into) } }
    } else {
        m
    }
}

/// The list a merge creates for a target that does not exist yet.
pub open spec fn merge_create(into: Seq<char>) -> ListCreateV {
    ListCreateV { slug: Some(into), name: into, description: None, is_private: Some(true) }
}

/// Folding each of `froms` other than `into` itself into `into`.
pub open spec fn fold_froms(st: MergeState, froms: Seq<Seq<char>>, into: Seq<char>) -> MergeState
    decreases froms.len(),
{
    if froms.len() == 0 {
        st
    } else {
        let prev = fold_froms(st, froms.drop_last(), into);
        let from = froms.last();
        if from == into {
            prev
        } else {
            MergeState {
                creates: prev.creates,
                deletes: set_insert(prev.deletes, from),
                memberships: prev.memberships.map_values(|m: MembershipSetV| fold_membership(m, from, into)),
            }
        }
    }
}

/// One merge: its target is created when neither stored nor created, then each
/// source is folded into it and deleted.
pub open spec fn merge_step(lists: Seq<ListRowV>, st: MergeState, m: ListMergeV) -> MergeState {
    let st1 = if list_by_slug(lists, m.into) is None && !has_key(st.creates, m.into) {
        MergeState { creates: sorted_put(st.creates, m.into, merge_create(m.into)), ..st }
    } else {
        st
    };
    fold_froms(st1, m.from, m.into)
}

pub open spec fn merges_v(lists: Seq<ListRowV>, st: MergeState, ms: Seq<ListMergeV>) -> MergeState
    decreases ms.len(),
{
    if ms.len() == 0 {
        st
    } else {
        merge_step(lists, merges_v(lists, st, ms.drop_last()), ms.last())
    }
}

/// The GitHub id of the stored list with slug `slug`, if any.
pub open spec fn github_id_of(lists: Seq<ListRowV>, slug: Seq<char>) -> Option<Seq<char>> {
    match list_by_slug(lists, slug) {
        Some(l) => l.github_id,
        None => None,
    }
}

pub open spec fn create_op(slug: Seq<char>, c: ListCreateV) -> ListOpV {
    ListOpV::Create {
        slug,
        name: c.name,
        description: c.description,
        is_private: match c.is_private {
            Some(b) => b,
            None => true,
        },
    }
}

/// The create operations, in slug order, and a warning for each create whose list
/// is already on GitHub.
pub open spec fn create_ops(lists: Seq<ListRowV>, cs: Seq<(Seq<char>, ListCreateV)>) -> (Seq<ListOpV>, Seq<Seq<char>>)
    decreases cs.len(),
{
    if cs.len() == 0 {
        (seq![], seq![])
    } else {
        let prev = create_ops(lists, cs.drop_last());
        let slug = cs.last().0;
        if github_id_of(lists, slug) is Some {
            (prev.0, prev.1.push("create skipped, list already on GitHub: "@ + slug))
        } else {
            (prev.0.push(create_op(slug, cs.last().1)), prev.1)
        }
    }
}

/// A rename or update may only name a stored list or one the plan creates.
pub open spec fn target_known(lists: Seq<ListRowV>, creates: Seq<(Seq<char>, ListCreateV)>, slug: Seq<char>) -> bool {
    list_by_slug(lists, slug) is Some || has_key(creates, slug)
}

pub open spec fn rename_ops(
    lists: Seq<ListRowV>,
    creates: Seq<(Seq<char>, ListCreateV)>,
    rs: Seq<(Seq<char>, Seq<char>)>,
) -> Result<Seq<ListOpV>, AppErrorV>
    decreases rs.len(),
{
    if rs.len() == 0 {
        Ok(seq![])
    } else {
        match rename_ops(lists, creates, rs.drop_last()) {
            Err(e) => Err(e),
            Ok(ops) => {
                let slug = rs.last().0;
                if !target_known(lists, creates, slug) {
                    Err(err_v("not_found"@, "rename target missing: "@ + slug))
                } else {
                    Ok(ops.push(ListOpV::Update {
                        slug,
                        github_id: github_id_of(lists, slug),
                        name: Some(rs.last().1),
                        description: None,
                        is_private: None,
                    }))
                }
            },
        }
    }
}

pub open spec fn update_ops(
    lists: Seq<ListRowV>,
    creates: Seq<(Seq<char>, ListCreateV)>,
    us: Seq<(Seq<char>, ListUpdateV)>,
) -> Result<Seq<ListOpV>, AppErrorV>
    decreases us.len(),
{
    if us.len() == 0 {
        Ok(seq![])
    } else {
        match update_ops(lists, creates, us.drop_last()) {
            Err(e) => Err(e),
            Ok(ops) => {
                let slug = us.last().0;
                if !target_known(lists, creates, slug) {
                    Err(err_v("not_found"@, "update target missing: "@ + slug))
                } else {
                    Ok(ops.push(ListOpV::Update {
                        slug,
                        github_id: github_id_of(lists, slug),
                        name: None,
                        description: us.last().1.description,
                        is_private: us.last().1.is_private,
                    }))
                }
            },
        }
    }
}

pub open spec fn delete_op(lists: Seq<ListRowV>, slug: Seq<char>) -> ListOpV {
    ListOpV::Delete { slug, github_id: github_id_of(lists, slug) }
}

pub open spec fn delete_ops(lists: Seq<ListRowV>, ds: Seq<Seq<char>>) -> Seq<ListOpV> {
    ds.map_values(|slug: Seq<char>| delete_op(lists, slug))
}

/// A sorted sequence without its repeats (`Vec::dedup`).
pub open spec fn dedup_v(s: Seq<Seq<char>>) -> Seq<Seq<char>>
    decreases s.len(),
{
    if s.len() == 0 {
        s
    } else {
        let r = dedup_v(s.drop_last());
        if r.len() > 0 && r.last() == s.last() {
            r
        } else {
            r.push(s.last())
        }
    }
}

/// What a membership sends for list `slug`: its GitHub id, or `pending:` and the
/// slug while the list is not on GitHub yet.
pub open spec fn list_ref(
    lists: Seq<ListRowV>,
    creates: Seq<(Seq<char>, ListCreateV)>,
    slug: Seq<char>,
    repo: Seq<char>,
) -> Result<Seq<char>, AppErrorV> {
    match list_by_slug(lists, slug) {
        Some(l) => match l.github_id {
            Some(g) => Ok(g),
            None => Ok("pending:"@ + slug),
        },
        None => if has_key(creates, slug) {
            Ok("pending:"@ + slug)
        } else {
            Err(err_v("not_found"@, "membership refers to unknown list "@ + slug + " for "@ + repo))
        },
    }
}

pub open spec fn list_refs(
    lists: Seq<ListRowV>,
    creates: Seq<(Seq<char>, ListCreateV)>,
    slugs: Seq<Seq<char>>,
    repo: Seq<char>,
) -> Result<Seq<Seq<char>>, AppErrorV>
    decreases slugs.len(),
{
    if slugs.len() == 0 {
        Ok(seq![])
    } else {
        match list_refs(lists, creates, slugs.drop_last(), repo) {
            Err(e) => Err(e),
            Ok(ids) => match list_ref(lists, creates, slugs.last(), repo) {
                Err(e) => Err(e),
                Ok(g) => Ok(ids.push(g)),
            },
        }
    }
}

/// The membership a repository is sent: its lists sorted and without repeats.
pub open spec fn membership_plan_v(
    s: StoreV,
    lists: Seq<ListRowV>,
    creates: Seq<(Seq<char>, ListCreateV)>,
    m: MembershipSetV,
) -> Result<MembershipPlanV, AppErrorV> {
    match resolve_repo_v(s, m.repo) {
        Err(e) => Err(e),
        Ok(r) => {
            let slugs = dedup_v(sort_by(m.lists, by_text()));
            match list_refs(lists, creates, slugs, m.repo) {
                Err(e) => Err(e),
                Ok(ids) => Ok(
                    MembershipPlanV {
                        repo: r.name_with_owner,
                        repo_node_id: r.node_id,
                        lists: slugs,
                        list_github_ids: ids,
                    },
                ),
            }
        },
    }
}

pub open spec fn membership_plans_v(
    s: StoreV,
    lists: Seq<ListRowV>,
    creates: Seq<(Seq<char>, ListCreateV)>,
    ms: Seq<MembershipSetV>,
) -> Result<Seq<MembershipPlanV>, AppErrorV>
    decreases ms.len(),
{
    if ms.len() == 0 {
        Ok(seq![])
    } else {
        match membership_plans_v(s, lists, creates, ms.drop_last()) {
            Err(e) => Err(e),
            Ok(ps) => match membership_plan_v(s, lists, creates, ms.last()) {
                Err(e) => Err(e),
                Ok(p) => Ok(ps.push(p)),
            },
        }
    }
}

/// A list that exists on GitHub and is not deleted locally.
pub open spec fn on_github(l: ListRowV) -> bool {
    l.github_id is Some && !is_tombstone(l)
}

pub open spec fn on_github_pred() -> spec_fn(ListRowV) -> bool {
    |l: ListRowV| on_github(l)
}

/// A deleted slug whose list is on GitHub.
pub open spec fn removes_remote(lists: Seq<ListRowV>) -> spec_fn(Seq<char>) -> bool {
    |slug: Seq<char>| list_by_slug(lists, slug) matches Some(l) && on_github(l)
}

pub open spec fn current_remote_v(lists: Seq<ListRowV>) -> nat {
    keep_where(lists, on_github_pred()).len()
}

pub open spec fn remote_deletes_v(lists: Seq<ListRowV>, ds: Seq<Seq<char>>) -> nat {
    keep_where(ds, removes_remote(lists)).len()
}

/// `a + b - c` as `usize` computes it with saturating steps.
pub open spec fn after_apply_v(a: nat, b: nat, c: nat) -> nat {
    let sum: nat = if a + b > usize::MAX {
        usize::MAX as nat
    } else {
        a + b
    };
    if sum >= c {
        (sum - c) as nat
    } else {
        0
    }
}

pub open spec fn cap_warning(after: nat) -> Seq<char> {
    "apply would leave "@ + decimal(after) + " GitHub lists; cap is 32"@
}

/// The plan `compile_plan` makes of proposal `p` against store `s`.
pub open spec fn compile_plan_v(s: StoreV, id: Seq<char>, p: ProposalFileV) -> Result<PlanV, AppErrorV> {
    let lists = listed(s, true);
    match creates_v(p.lists.create) {
        Err(e) => Err(e),
        Ok(c0) => {
            let st = merges_v(
                lists,
                MergeState { creates: c0, deletes: deletes_v(p.lists.delete), memberships: p.memberships },
                p.lists.merge,
            );
            let cw = create_ops(lists, st.creates);
            match rename_ops(lists, st.creates, renames_v(p.lists.rename)) {
                Err(e) => Err(e),
                Ok(rops) => match update_ops(lists, st.creates, updates_v(p.lists.update)) {
                    Err(e) => Err(e),
                    Ok(uops) => match membership_plans_v(s, lists, st.creates, st.memberships) {
                        Err(e) => Err(e),
                        Ok(mps) => {
                            let current = current_remote_v(lists);
                            let after = after_apply_v(current, cw.0.len(), remote_deletes_v(lists, st.deletes));
                            Ok(
                                PlanV {
                                    id,
                                    notes: p.notes,
                                    current_remote: current,
                                    after_apply: after,
                                    max: GITHUB_LIST_CAP as nat,
                                    list_ops: cw.0 + rops + uops + delete_ops(lists, st.deletes),
                                    memberships: mps,
                                    warnings: if after > GITHUB_LIST_CAP {
                                        cw.1.push(cap_warning(after))
                                    } else {
                                        cw.1
                                    },
                                },
                            )
                        },
                    },
                },
            }
        },
    }
}


// ---------------------------------------------------------------------
// Building the keyed collections.
fn renames_key_index(m: &Vec<RenameEntry>, k: &str) -> (r: Option<usize>)
    ensures
        r is None ==> !has_key(m@.map_values(|e: RenameEntry| e@), k@),
        r matches Some(i) ==> i < m@.len() && first_index(m@.map_values(|e: RenameEntry| e@), key_is(k@)) == i,
{
    let ghost mv = m@.map_values(|e: RenameEntry| e@);
    let mut i: usize = 0;
    while i < m.len()
        invariant
            mv == m@.map_values(|e: RenameEntry| e@),
            i <= m.len(),
            forall|j: int| 0 <= j < i ==> !(key_is(k@))(#[trigger] mv[j]),
        decreases m.len() - i,
    {
        if str_eq(m[i].slug.as_str(), k) {
            proof {
                lemma_first_index_found(mv, key_is(k@), i as int);
            }
            return Some(i);
        }
        i = i + 1;
    }
    assert forall|j: int| 0 <= j < mv.len() implies mv[j].0 != k@ by {
        assert(!(key_is::<Seq<char>>(k@))(mv[j]));
    }
    None
}

fn updates_key_index(m: &Vec<UpdateEntry>, k: &str) -> (r: Option<usize>)
    ensures
        r is None ==> !has_key(m@.map_values(|e: UpdateEntry| e@), k@),
        r matches Some(i) ==> i < m@.len() && first_index(m@.map_values(|e: UpdateEntry| e@), key_is(k@)) == i,
{
    let ghost mv = m@.map_values(|e: UpdateEntry| e@);
    let mut i: usize = 0;
    while i < m.len()
        invariant
            mv == m@.map_values(|e: UpdateEntry| e@),
            i <= m.len(),
            forall|j: int| 0 <= j < i ==> !(key_is(k@))(#[trigger] mv[j]),
        decreases m.len() - i,
    {
        if str_eq(m[i].slug.as_str(), k) {
            proof {
                lemma_first_index_found(mv, key_is(k@), i as int);
            }
            return Some(i);
        }
        i = i + 1;
    }
    assert forall|j: int| 0 <= j < mv.len() implies mv[j].0 != k@ by {
        assert(!(key_is::<ListUpdateV>(k@))(mv[j]));
    }
    None
}

/// The renames of a proposal keyed by slug, in first-mention order; a later
/// rename of a slug wins.
fn collect_renames(rs: &Vec<ListRename>) -> (r: Vec<RenameEntry>)
    ensures
        r@.map_values(|e: RenameEntry| e@) == renames_v(rs@.map_values(|x: ListRename| x@)),
{
    let ghost rv = rs@.map_values(|x: ListRename| x@);
    let mut m: Vec<RenameEntry> = Vec::new();
    let mut i: usize = 0;
    assert(m@.map_values(|e: RenameEntry| e@) =~= renames_v(rv.take(0)));
    while i < rs.len()
        invariant
            rv == rs@.map_values(|x: ListRename| x@),
            i <= rs.len(),
            m@.map_values(|e: RenameEntry| e@) == renames_v(rv.take(i as int)),
        decreases rs.len() - i,
    {
        assert(rv.take(i + 1).drop_last() =~= rv.take(i as int));
        let ghost mv = m@.map_values(|e: RenameEntry| e@);
        let slug = rs[i].slug.clone();
        let name = rs[i].name.clone();
        match renames_key_index(&m, slug.as_str()) {
            Some(j) => {
                proof {
                    lemma_first_index_props(mv, key_is(slug@));
                }
                let ghost kv = (slug@, name@);
                m.set(j, RenameEntry { slug, name });
                assert(m@.map_values(|e: RenameEntry| e@) =~= mv.update(j as int, kv));
            },
            None => {
                let ghost kv = (slug@, name@);
                m.push(RenameEntry { slug, name });
                assert(m@.map_values(|e: RenameEntry| e@) =~= mv.push(kv));
            },
        }
        i = i + 1;
    }
    assert(rv.take(rs.len() as int) =~= rv);
    m
}

/// The updates of a proposal keyed by slug, in first-mention order; a later
/// update of a slug wins.
fn collect_updates(us: &Vec<ListUpdate>) -> (r: Vec<UpdateEntry>)
    ensures
        r@.map_values(|e: UpdateEntry| e@) == updates_v(us@.map_values(|x: ListUpdate| x@)),
{
    let ghost uv = us@.map_values(|x: ListUpdate| x@);
    let mut m: Vec<UpdateEntry> = Vec::new();
    let mut i: usize = 0;
    assert(m@.map_values(|e: UpdateEntry| e@) =~= updates_v(uv.take(0)));
    while i < us.len()
        invariant
            uv == us@.map_values(|x: ListUpdate| x@),
            i <= us.len(),
            m@.map_values(|e: UpdateEntry| e@) == updates_v(uv.take(i as int)),
        decreases us.len() - i,
    {
        assert(uv.take(i + 1).drop_last() =~= uv.take(i as int));
        let ghost mv = m@.map_values(|e: UpdateEntry| e@);
        let slug = us[i].slug.clone();
        let update = us[i].dup();
        match updates_key_index(&m, slug.as_str()) {
            Some(j) => {
                proof {
                    lemma_first_index_props(mv, key_is(slug@));
                }
                let ghost kv = (slug@, update@);
                m.set(j, UpdateEntry { slug, update });
                assert(m@.map_values(|e: UpdateEntry| e@) =~= mv.update(j as int, kv));
            },
            None => {
                let ghost kv = (slug@, update@);
                m.push(UpdateEntry { slug, update });
                assert(m@.map_values(|e: UpdateEntry| e@) =~= mv.push(kv));
            },
        }
        i = i + 1;
    }
    assert(uv.take(us.len() as int) =~= uv);
    m
}

/// `x` is among `v`.
pub(crate) fn texts_contain(v: &Vec<String>, x: &str) -> (r: bool)
    ensures
        r == v.deep_view().contains(x@),
{
    let ghost vv = v.deep_view();
    let mut j: usize = 0;
    while j < v.len()
        invariant
            vv == v.deep_view(),
            j <= v.len(),
            forall|k: int| 0 <= k < j ==> vv[k] != x@,
        decreases v.len() - j,
    {
        if str_eq(v[j].as_str(), x) {
            assert(vv[j as int] == x@);
            return true;
        }
        j = j + 1;
    }
    false
}

/// `x` joins the sorted set `d`.
fn set_add(d: &mut Vec<String>, x: String)
    ensures
        final(d).deep_view() == set_insert(old(d).deep_view(), x@),
{
    let ghost dv = d.deep_view();
    if texts_contain(d, x.as_str()) {
        return;
    }
    let mut p: usize = 0;
    while p < d.len() && !less_than(x.as_str(), d[p].as_str())
        invariant
            dv == d.deep_view(),
            p <= d.len(),
            forall|j: int| 0 <= j < p ==> !(by_text())(x@, #[trigger] dv[j]),
        decreases d.len() - p,
    {
        p = p + 1;
    }
    proof {
        lemma_insert_pos(dv, x@, by_text(), p as int);
    }
    let ghost xv = x@;
    d.insert(p, x);
    assert(d.deep_view() =~= dv.insert(p as int, xv));
}

/// The deleted slugs of a proposal as a sorted set.
fn collect_deletes(ds: &Vec<String>) -> (r: Vec<String>)
    ensures
        r.deep_view() == deletes_v(ds.deep_view()),
{
    let ghost dv = ds.deep_view();
    let mut d: Vec<String> = Vec::new();
    let mut i: usize = 0;
    assert(d.deep_view() =~= deletes_v(dv.take(0)));
    while i < ds.len()
        invariant
            dv == ds.deep_view(),
            i <= ds.len(),
            d.deep_view() == deletes_v(dv.take(i as int)),
        decreases ds.len() - i,
    {
        assert(dv.take(i + 1).drop_last() =~= dv.take(i as int));
        set_add(&mut d, ds[i].clone());
        i = i + 1;
    }
    assert(dv.take(ds.len() as int) =~= dv);
    d
}


// ---------------------------------------------------------------------
// Merges.
/// A membership set with list `from` folded into `into`.
fn fold_one(m: &MembershipSet, from: &str, into: &str) -> (r: MembershipSet)
    ensures
        r@ == fold_membership(m@, from@, into@),
{
    if !texts_contain(&m.lists, from) {
        return m.dup();
    }
    let ghost lv = m.lists.deep_view();
    let mut kept: Vec<String> = Vec::new();
    let mut i: usize = 0;
    assert(kept.deep_view() =~= keep_where(lv.take(0), text_not(from@)));
    while i < m.lists.len()
        invariant
            lv == m.lists.deep_view(),
            i <= m.lists.len(),
            kept.deep_view() == keep_where(lv.take(i as int), text_not(from@)),
        decreases m.lists.len() - i,
    {
        assert(lv.take(i + 1).drop_last() =~= lv.take(i as int));
        if !str_eq(m.lists[i].as_str(), from) {
            let ghost kv = kept.deep_view();
            kept.push(m.lists[i].clone());
            assert(kept.deep_view() =~= kv.push(lv[i as int]));
        }
        i = i + 1;
    }
    assert(lv.take(m.lists.len() as int) =~= lv);
    if !texts_contain(&kept, into) {
        let ghost kv = kept.deep_view();
        kept.push(owned(into));
        assert(kept.deep_view() =~= kv.push(into@));
    }
    MembershipSet { repo: m.repo.clone(), lists: kept }
}

/// Every membership set with list `from` folded into `into`.
fn fold_all(ms: &Vec<MembershipSet>, from: &str, into: &str) -> (r: Vec<MembershipSet>)
    ensures
        r@.map_values(|m: MembershipSet| m@) == ms@.map_values(|m: MembershipSet| m@).map_values(
            |m: MembershipSetV| fold_membership(m, from@, into@),
        ),
{
    let mut out: Vec<MembershipSet> = Vec::new();
    let mut i: usize = 0;
    while i < ms.len()
        invariant
            i <= ms.len(),
            out@.len() == i,
            forall|j: int| 0 <= j < i ==> #[trigger] out@[j]@ == fold_membership(ms@[j]@, from@, into@),
        decreases ms.len() - i,
    {
        out.push(fold_one(&ms[i], from, into));
        i = i + 1;
    }
    assert(out@.map_values(|m: MembershipSet| m@) =~= ms@.map_values(|m: MembershipSet| m@).map_values(
        |m: MembershipSetV| fold_membership(m, from@, into@),
    ));
    out
}

/// The collections the merges change.
struct MergeWork {
    creates: Vec<CreateEntry>,
    deletes: Vec<String>,
    memberships: Vec<MembershipSet>,
}

impl View for MergeWork {
    type V = MergeState;

    closed spec fn view(&self) -> MergeState {
        MergeState {
            creates: self.creates@.map_values(|e: CreateEntry| e@),
            deletes: self.deletes.deep_view(),
            memberships: self.memberships@.map_values(|m: MembershipSet| m@),
        }
    }
}

/// Folds each of `froms` other than `into` into `into`.
fn fold_sources(w: MergeWork, froms: &Vec<String>, into: &str) -> (r: MergeWork)
    ensures
        r@ == fold_froms(w@, froms.deep_view(), into@),
{
    let ghost fv = froms.deep_view();
    let ghost w0 = w@;
    let mut w = w;
    let mut i: usize = 0;
    assert(fv.take(0) =~= Seq::<Seq<char>>::empty());
    while i < froms.len()
        invariant
            fv == froms.deep_view(),
            i <= froms.len(),
            w@ == fold_froms(w0, fv.take(i as int), into@),
        decreases froms.len() - i,
    {
        assert(fv.take(i + 1).drop_last() =~= fv.take(i as int));
        assert(fv.take(i + 1).last() == fv[i as int]);
        let from = froms[i].as_str();
        if !str_eq(from, into) {
            set_add(&mut w.deletes, froms[i].clone());
            let folded = fold_all(&w.memberships, from, into);
            w.memberships = folded;
        }
        i = i + 1;
    }
    assert(fv.take(froms.len() as int) =~= fv);
    w
}

/// Applies the merges of a proposal in order.
fn apply_merges(lists: &Vec<ListRow>, w: MergeWork, merges: &Vec<ListMerge>) -> (r: MergeWork)
    ensures
        r@ == merges_v(lists@.map_values(|l: ListRow| l@), w@, merges@.map_values(|m: ListMerge| m@)),
{
    let ghost lv = lists@.map_values(|l: ListRow| l@);
    let ghost mv = merges@.map_values(|m: ListMerge| m@);
    let ghost w0 = w@;
    let mut w = w;
    let mut i: usize = 0;
    assert(mv.take(0) =~= Seq::<ListMergeV>::empty());
    while i < merges.len()
        invariant
            lv == lists@.map_values(|l: ListRow| l@),
            mv == merges@.map_values(|m: ListMerge| m@),
            i <= merges.len(),
            w@ == merges_v(lv, w0, mv.take(i as int)),
        decreases merges.len() - i,
    {
        assert(mv.take(i + 1).drop_last() =~= mv.take(i as int));
        assert(mv.take(i + 1).last() == mv[i as int]);
        let m = &merges[i];
        let into = m.into.as_str();
        let stored = find_slug(lists, into);
        if stored.is_none() {
            let ghost cv = w.creates@.map_values(|e: CreateEntry| e@);
            match creates_key_index(&w.creates, into) {
                None => {
                    let c = ListCreate {
                        slug: Some(m.into.clone()),
                        name: m.into.clone(),
                        description: None,
                        is_private: Some(true),
                    };
                    assert(c@ == merge_create(m.into@));
                    creates_put(&mut w.creates, m.into.clone(), c);
                },
                Some(_) => {
                    proof {
                        lemma_first_index_props(cv, key_is(into@));
                    }
                },
            }
        }
        w = fold_sources(w, &m.from, into);
        i = i + 1;
    }
    assert(mv.take(merges.len() as int) =~= mv);
    w
}


// ---------------------------------------------------------------------
// List operations.
fn github_id_for(lists: &Vec<ListRow>, slug: &str) -> (r: Option<String>)
    ensures
        r.deep_view() == github_id_of(lists@.map_values(|l: ListRow| l@), slug@),
{
    match find_slug(lists, slug) {
        Some(i) => dup_opt(&lists[i].github_id),
        None => None,
    }
}

/// The create operations in slug order, with a warning for each list already on
/// GitHub.
fn plan_creates(lists: &Vec<ListRow>, cs: &Vec<CreateEntry>) -> (r: (Vec<ListOp>, Vec<String>))
    ensures
        r.0@.map_values(|o: ListOp| o@) == create_ops(lists@.map_values(|l: ListRow| l@), cs@.map_values(|e: CreateEntry| e@)).0,
        r.1.deep_view() == create_ops(lists@.map_values(|l: ListRow| l@), cs@.map_values(|e: CreateEntry| e@)).1,
{
    let ghost lv = lists@.map_values(|l: ListRow| l@);
    let ghost cv = cs@.map_values(|e: CreateEntry| e@);
    let mut ops: Vec<ListOp> = Vec::new();
    let mut warnings: Vec<String> = Vec::new();
    let mut i: usize = 0;
    assert(ops@.map_values(|o: ListOp| o@) =~= create_ops(lv, cv.take(0)).0);
    assert(warnings.deep_view() =~= create_ops(lv, cv.take(0)).1);
    while i < cs.len()
        invariant
            lv == lists@.map_values(|l: ListRow| l@),
            cv == cs@.map_values(|e: CreateEntry| e@),
            i <= cs.len(),
            ops@.map_values(|o: ListOp| o@) == create_ops(lv, cv.take(i as int)).0,
            warnings.deep_view() == create_ops(lv, cv.take(i as int)).1,
        decreases cs.len() - i,
    {
        assert(cv.take(i + 1).drop_last() =~= cv.take(i as int));
        assert(cv.take(i + 1).last() == cv[i as int]);
        let e = &cs[i];
        assert(e@ == cv[i as int]);
        let gid = github_id_for(lists, e.slug.as_str());
        if gid.is_some() {
            let ghost wv = warnings.deep_view();
            warnings.push(error_text("create skipped, list already on GitHub: ", e.slug.as_str()));
            assert(warnings.deep_view() =~= wv.push("create skipped, list already on GitHub: "@ + e.slug@));
        } else {
            let ghost ov = ops@.map_values(|o: ListOp| o@);
            let op = ListOp::Create {
                slug: e.slug.clone(),
                name: e.create.name.clone(),
                description: dup_opt(&e.create.description),
                is_private: match e.create.is_private {
                    Some(b) => b,
                    None => true,
                },
            };
            assert(op@ == create_op(e.slug@, e.create@));
            ops.push(op);
            assert(ops@.map_values(|o: ListOp| o@) =~= ov.push(create_op(cv[i as int].0, cv[i as int].1)));
        }
        i = i + 1;
    }
    assert(cv.take(cs.len() as int) =~= cv);
    (ops, warnings)
}

/// `prefix` followed by `detail`.
fn error_text(prefix: &str, detail: &str) -> (r: String)
    ensures
        r@ == prefix@ + detail@,
{
    let mut m = owned(prefix);
    push_str(&mut m, detail);
    m
}

/// A rename or update target is a stored list or one the plan creates.
fn known_target(lists: &Vec<ListRow>, creates: &Vec<CreateEntry>, slug: &str) -> (r: bool)
    ensures
        r == target_known(lists@.map_values(|l: ListRow| l@), creates@.map_values(|e: CreateEntry| e@), slug@),
{
    if find_slug(lists, slug).is_some() {
        return true;
    }
    let ghost cv = creates@.map_values(|e: CreateEntry| e@);
    match creates_key_index(creates, slug) {
        Some(_) => {
            proof {
                lemma_first_index_props(cv, key_is(slug@));
            }
            true
        },
        None => false,
    }
}

fn plan_renames(lists: &Vec<ListRow>, creates: &Vec<CreateEntry>, rs: &Vec<RenameEntry>) -> (r: Result<Vec<ListOp>, AppError>)
    ensures
        match r {
            Ok(ops) => rename_ops(
                lists@.map_values(|l: ListRow| l@),
                creates@.map_values(|e: CreateEntry| e@),
                rs@.map_values(|e: RenameEntry| e@),
            ) == Ok::<Seq<ListOpV>, AppErrorV>(ops@.map_values(|o: ListOp| o@)),
            Err(e) => rename_ops(
                lists@.map_values(|l: ListRow| l@),
                creates@.map_values(|e: CreateEntry| e@),
                rs@.map_values(|e: RenameEntry| e@),
            ) == Err::<Seq<ListOpV>, AppErrorV>(e@),
        },
{
    let ghost lv = lists@.map_values(|l: ListRow| l@);
    let ghost cv = creates@.map_values(|e: CreateEntry| e@);
    let ghost rv = rs@.map_values(|e: RenameEntry| e@);
    let mut ops: Vec<ListOp> = Vec::new();
    let mut i: usize = 0;
    assert(rv.take(0).len() == 0);
    assert(ops@.map_values(|o: ListOp| o@) =~= Seq::<ListOpV>::empty());
    while i < rs.len()
        invariant
            lv == lists@.map_values(|l: ListRow| l@),
            cv == creates@.map_values(|e: CreateEntry| e@),
            rv == rs@.map_values(|e: RenameEntry| e@),
            i <= rs.len(),
            rename_ops(lv, cv, rv.take(i as int)) == Ok::<Seq<ListOpV>, AppErrorV>(ops@.map_values(|o: ListOp| o@)),
        decreases rs.len() - i,
    {
        assert(rv.take(i + 1).drop_last() =~= rv.take(i as int));
        assert(rv.take(i + 1).last() == rv[i as int]);
        let e = &rs[i];
        assert(e@ == rv[i as int]);
        if !known_target(lists, creates, e.slug.as_str()) {
            proof {
                lemma_rename_err_stops(lv, cv, rv, i as int + 1);
            }
            return Err(error_with("not_found", "rename target missing: ", e.slug.as_str()));
        }
        let ghost ov = ops@.map_values(|o: ListOp| o@);
        let op = ListOp::Update {
            slug: e.slug.clone(),
            github_id: github_id_for(lists, e.slug.as_str()),
            name: Some(e.name.clone()),
            description: None,
            is_private: None,
        };
        ops.push(op);
        assert(ops@.map_values(|o: ListOp| o@) =~= ov.push(
            ListOpV::Update {
                slug: rv[i as int].0,
                github_id: github_id_of(lv, rv[i as int].0),
                name: Some(rv[i as int].1),
                description: None,
                is_private: None,
            },
        ));
        i = i + 1;
    }
    assert(rv.take(rs.len() as int) =~= rv);
    Ok(ops)
}

proof fn lemma_rename_err_stops(
    lists: Seq<ListRowV>,
    creates: Seq<(Seq<char>, ListCreateV)>,
    rs: Seq<(Seq<char>, Seq<char>)>,
    k: int,
)
    requires
        0 <= k <= rs.len(),
        rename_ops(lists, creates, rs.take(k)) is Err,
    ensures
        rename_ops(lists, creates, rs) == rename_ops(lists, creates, rs.take(k)),
    decreases rs.len() - k,
{
    if k < rs.len() {
        assert(rs.take(k + 1).drop_last() =~= rs.take(k));
        lemma_rename_err_stops(lists, creates, rs, k + 1);
    } else {
        assert(rs.take(k) =~= rs);
    }
}

fn plan_updates(lists: &Vec<ListRow>, creates: &Vec<CreateEntry>, us: &Vec<UpdateEntry>) -> (r: Result<Vec<ListOp>, AppError>)
    ensures
        match r {
            Ok(ops) => update_ops(
                lists@.map_values(|l: ListRow| l@),
                creates@.map_values(|e: CreateEntry| e@),
                us@.map_values(|e: UpdateEntry| e@),
            ) == Ok::<Seq<ListOpV>, AppErrorV>(ops@.map_values(|o: ListOp| o@)),
            Err(e) => update_ops(
                lists@.map_values(|l: ListRow| l@),
                creates@.map_values(|e: CreateEntry| e@),
                us@.map_values(|e: UpdateEntry| e@),
            ) == Err::<Seq<ListOpV>, AppErrorV>(e@),
        },
{
    let ghost lv = lists@.map_values(|l: ListRow| l@);
    let ghost cv = creates@.map_values(|e: CreateEntry| e@);
    let ghost uv = us@.map_values(|e: UpdateEntry| e@);
    let mut ops: Vec<ListOp> = Vec::new();
    let mut i: usize = 0;
    assert(uv.take(0).len() == 0);
    assert(ops@.map_values(|o: ListOp| o@) =~= Seq::<ListOpV>::empty());
    while i < us.len()
        invariant
            lv == lists@.map_values(|l: ListRow| l@),
            cv == creates@.map_values(|e: CreateEntry| e@),
            uv == us@.map_values(|e: UpdateEntry| e@),
            i <= us.len(),
            update_ops(lv, cv, uv.take(i as int)) == Ok::<Seq<ListOpV>, AppErrorV>(ops@.map_values(|o: ListOp| o@)),
        decreases us.len() - i,
    {
        assert(uv.take(i + 1).drop_last() =~= uv.take(i as int));
        assert(uv.take(i + 1).last() == uv[i as int]);
        let e = &us[i];
        assert(e@ == uv[i as int]);
        if !known_target(lists, creates, e.slug.as_str()) {
            proof {
                lemma_update_err_stops(lv, cv, uv, i as int + 1);
            }
            return Err(error_with("not_found", "update target missing: ", e.slug.as_str()));
        }
        let ghost ov = ops@.map_values(|o: ListOp| o@);
        let op = ListOp::Update {
            slug: e.slug.clone(),
            github_id: github_id_for(lists, e.slug.as_str()),
            name: None,
            description: dup_opt(&e.update.description),
            is_private: e.update.is_private,
        };
        ops.push(op);
        assert(ops@.map_values(|o: ListOp| o@) =~= ov.push(
            ListOpV::Update {
                slug: uv[i as int].0,
                github_id: github_id_of(lv, uv[i as int].0),
                name: None,
                description: uv[i as int].1.description,
                is_private: uv[i as int].1.is_private,
            },
        ));
        i = i + 1;
    }
    assert(uv.take(us.len() as int) =~= uv);
    Ok(ops)
}

proof fn lemma_update_err_stops(
    lists: Seq<ListRowV>,
    creates: Seq<(Seq<char>, ListCreateV)>,
    us: Seq<(Seq<char>, ListUpdateV)>,
    k: int,
)
    requires
        0 <= k <= us.len(),
        update_ops(lists, creates, us.take(k)) is Err,
    ensures
        update_ops(lists, creates, us) == update_ops(lists, creates, us.take(k)),
    decreases us.len() - k,
{
    if k < us.len() {
        assert(us.take(k + 1).drop_last() =~= us.take(k));
        lemma_update_err_stops(lists, creates, us, k + 1);
    } else {
        assert(us.take(k) =~= us);
    }
}

fn plan_deletes(lists: &Vec<ListRow>, ds: &Vec<String>) -> (r: Vec<ListOp>)
    ensures
        r@.map_values(|o: ListOp| o@) == delete_ops(lists@.map_values(|l: ListRow| l@), ds.deep_view()),
{
    let ghost lv = lists@.map_values(|l: ListRow| l@);
    let ghost dv = ds.deep_view();
    let mut ops: Vec<ListOp> = Vec::new();
    let mut i: usize = 0;
    while i < ds.len()
        invariant
            lv == lists@.map_values(|l: ListRow| l@),
            dv == ds.deep_view(),
            i <= ds.len(),
            ops@.len() == i,
            forall|j: int| 0 <= j < i ==> #[trigger] ops@[j]@ == delete_op(lv, dv[j]),
        decreases ds.len() - i,
    {
        let op = ListOp::Delete { slug: ds[i].clone(), github_id: github_id_for(lists, ds[i].as_str()) };
        ops.push(op);
        i = i + 1;
    }
    assert(ops@.map_values(|o: ListOp| o@) =~= delete_ops(lv, dv));
    ops
}


// ---------------------------------------------------------------------
// Memberships.
/// `v` without the repeats of neighbours (`Vec::dedup`).
pub(crate) fn dedup_texts(v: &Vec<String>) -> (r: Vec<String>)
    ensures
        r.deep_view() == dedup_v(v.deep_view()),
{
    let ghost vv = v.deep_view();
    let mut r: Vec<String> = Vec::new();
    let mut i: usize = 0;
    assert(r.deep_view() =~= dedup_v(vv.take(0)));
    while i < v.len()
        invariant
            vv == v.deep_view(),
            i <= v.len(),
            r.deep_view() == dedup_v(vv.take(i as int)),
        decreases v.len() - i,
    {
        assert(vv.take(i + 1).drop_last() =~= vv.take(i as int));
        assert(vv.take(i + 1).last() == vv[i as int]);
        let ghost rv = r.deep_view();
        let repeat = r.len() > 0 && str_eq(r[r.len() - 1].as_str(), v[i].as_str());
        if !repeat {
            r.push(v[i].clone());
            assert(r.deep_view() =~= rv.push(vv[i as int]));
        }
        i = i + 1;
    }
    assert(vv.take(v.len() as int) =~= vv);
    r
}

/// What a membership sends for list `slug`.
fn plan_list_ref(lists: &Vec<ListRow>, creates: &Vec<CreateEntry>, slug: &str, repo: &str) -> (r: Result<String, AppError>)
    ensures
        match r {
            Ok(g) => list_ref(
                lists@.map_values(|l: ListRow| l@),
                creates@.map_values(|e: CreateEntry| e@),
                slug@,
                repo@,
            ) == Ok::<Seq<char>, AppErrorV>(g@),
            Err(e) => list_ref(
                lists@.map_values(|l: ListRow| l@),
                creates@.map_values(|e: CreateEntry| e@),
                slug@,
                repo@,
            ) == Err::<Seq<char>, AppErrorV>(e@),
        },
{
    match find_slug(lists, slug) {
        Some(i) => match &lists[i].github_id {
            Some(g) => Ok(g.clone()),
            None => Ok(error_text("pending:", slug)),
        },
        None => {
            let ghost cv = creates@.map_values(|e: CreateEntry| e@);
            match creates_key_index(creates, slug) {
                Some(_) => {
                    proof {
                        lemma_first_index_props(cv, key_is(slug@));
                    }
                    Ok(error_text("pending:", slug))
                },
                None => {
                    let mut m = owned("membership refers to unknown list ");
                    push_str(&mut m, slug);
                    push_str(&mut m, " for ");
                    push_str(&mut m, repo);
                    Err(AppError::new("not_found", m))
                },
            }
        },
    }
}

fn plan_list_refs(lists: &Vec<ListRow>, creates: &Vec<CreateEntry>, slugs: &Vec<String>, repo: &str) -> (r: Result<Vec<String>, AppError>)
    ensures
        match r {
            Ok(ids) => list_refs(
                lists@.map_values(|l: ListRow| l@),
                creates@.map_values(|e: CreateEntry| e@),
                slugs.deep_view(),
                repo@,
            ) == Ok::<Seq<Seq<char>>, AppErrorV>(ids.deep_view()),
            Err(e) => list_refs(
                lists@.map_values(|l: ListRow| l@),
                creates@.map_values(|e: CreateEntry| e@),
                slugs.deep_view(),
                repo@,
            ) == Err::<Seq<Seq<char>>, AppErrorV>(e@),
        },
{
    let ghost lv = lists@.map_values(|l: ListRow| l@);
    let ghost cv = creates@.map_values(|e: CreateEntry| e@);
    let ghost sv = slugs.deep_view();
    let mut ids: Vec<String> = Vec::new();
    let mut i: usize = 0;
    assert(sv.take(0).len() == 0);
    assert(ids.deep_view() =~= Seq::<Seq<char>>::empty());
    while i < slugs.len()
        invariant
            lv == lists@.map_values(|l: ListRow| l@),
            cv == creates@.map_values(|e: CreateEntry| e@),
            sv == slugs.deep_view(),
            i <= slugs.len(),
            list_refs(lv, cv, sv.take(i as int), repo@) == Ok::<Seq<Seq<char>>, AppErrorV>(ids.deep_view()),
        decreases slugs.len() - i,
    {
        assert(sv.take(i + 1).drop_last() =~= sv.take(i as int));
        assert(sv.take(i + 1).last() == sv[i as int]);
        match plan_list_ref(lists, creates, slugs[i].as_str(), repo) {
            Ok(g) => {
                let ghost iv = ids.deep_view();
                ids.push(g);
                assert(ids.deep_view() =~= iv.push(g@));
            },
            Err(e) => {
                proof {
                    lemma_refs_err_stops(lv, cv, sv, repo@, i as int + 1);
                }
                return Err(e);
            },
        }
        i = i + 1;
    }
    assert(sv.take(slugs.len() as int) =~= sv);
    Ok(ids)
}

proof fn lemma_refs_err_stops(
    lists: Seq<ListRowV>,
    creates: Seq<(Seq<char>, ListCreateV)>,
    slugs: Seq<Seq<char>>,
    repo: Seq<char>,
    k: int,
)
    requires
        0 <= k <= slugs.len(),
        list_refs(lists, creates, slugs.take(k), repo) is Err,
    ensures
        list_refs(lists, creates, slugs, repo) == list_refs(lists, creates, slugs.take(k), repo),
    decreases slugs.len() - k,
{
    if k < slugs.len() {
        assert(slugs.take(k + 1).drop_last() =~= slugs.take(k));
        lemma_refs_err_stops(lists, creates, slugs, repo, k + 1);
    } else {
        assert(slugs.take(k) =~= slugs);
    }
}

fn plan_membership(store: &Store, lists: &Vec<ListRow>, creates: &Vec<CreateEntry>, m: &MembershipSet) -> (r: Result<MembershipPlan, AppError>)
    requires
        store.wf(),
    ensures
        match r {
            Ok(p) => membership_plan_v(
                store@,
                lists@.map_values(|l: ListRow| l@),
                creates@.map_values(|e: CreateEntry| e@),
                m@,
            ) == Ok::<MembershipPlanV, AppErrorV>(p@),
            Err(e) => membership_plan_v(
                store@,
                lists@.map_values(|l: ListRow| l@),
                creates@.map_values(|e: CreateEntry| e@),
                m@,
            ) == Err::<MembershipPlanV, AppErrorV>(e@),
        },
{
    let repo = match store.resolve_repo(m.repo.as_str()) {
        Ok(r) => r,
        Err(e) => return Err(e),
    };
    let sorted = sort_texts(&m.lists);
    let slugs = dedup_texts(&sorted);
    let ids = match plan_list_refs(lists, creates, &slugs, m.repo.as_str()) {
        Ok(ids) => ids,
        Err(e) => return Err(e),
    };
    Ok(MembershipPlan { repo: repo.name_with_owner, repo_node_id: repo.node_id, lists: slugs, list_github_ids: ids })
}

fn plan_memberships(store: &Store, lists: &Vec<ListRow>, creates: &Vec<CreateEntry>, ms: &Vec<MembershipSet>) -> (r: Result<Vec<MembershipPlan>, AppError>)
    requires
        store.wf(),
    ensures
        match r {
            Ok(ps) => membership_plans_v(
                store@,
                lists@.map_values(|l: ListRow| l@),
                creates@.map_values(|e: CreateEntry| e@),
                ms@.map_values(|m: MembershipSet| m@),
            ) == Ok::<Seq<MembershipPlanV>, AppErrorV>(ps@.map_values(|p: MembershipPlan| p@)),
            Err(e) => membership_plans_v(
                store@,
                lists@.map_values(|l: ListRow| l@),
                creates@.map_values(|e: CreateEntry| e@),
                ms@.map_values(|m: MembershipSet| m@),
            ) == Err::<Seq<MembershipPlanV>, AppErrorV>(e@),
        },
{
    let ghost lv = lists@.map_values(|l: ListRow| l@);
    let ghost cv = creates@.map_values(|e: CreateEntry| e@);
    let ghost mv = ms@.map_values(|m: MembershipSet| m@);
    let mut ps: Vec<MembershipPlan> = Vec::new();
    let mut i: usize = 0;
    assert(mv.take(0).len() == 0);
    assert(ps@.map_values(|p: MembershipPlan| p@) =~= Seq::<MembershipPlanV>::empty());
    while i < ms.len()
        invariant
            store.wf(),
            lv == lists@.map_values(|l: ListRow| l@),
            cv == creates@.map_values(|e: CreateEntry| e@),
            mv == ms@.map_values(|m: MembershipSet| m@),
            i <= ms.len(),
            membership_plans_v(store@, lv, cv, mv.take(i as int)) == Ok::<Seq<MembershipPlanV>, AppErrorV>(
                ps@.map_values(|p: MembershipPlan| p@),
            ),
        decreases ms.len() - i,
    {
        assert(mv.take(i + 1).drop_last() =~= mv.take(i as int));
        assert(mv.take(i + 1).last() == mv[i as int]);
        match plan_membership(store, lists, creates, &ms[i]) {
            Ok(p) => {
                let ghost pv = ps@.map_values(|p: MembershipPlan| p@);
                let ghost p1 = p@;
                ps.push(p);
                assert(ps@.map_values(|p: MembershipPlan| p@) =~= pv.push(p1));
            },
            Err(e) => {
                proof {
                    lemma_plans_err_stops(store@, lv, cv, mv, i as int + 1);
                }
                return Err(e);
            },
        }
        i = i + 1;
    }
    assert(mv.take(ms.len() as int) =~= mv);
    Ok(ps)
}

proof fn lemma_plans_err_stops(
    s: StoreV,
    lists: Seq<ListRowV>,
    creates: Seq<(Seq<char>, ListCreateV)>,
    ms: Seq<MembershipSetV>,
    k: int,
)
    requires
        0 <= k <= ms.len(),
        membership_plans_v(s, lists, creates, ms.take(k)) is Err,
    ensures
        membership_plans_v(s, lists, creates, ms) == membership_plans_v(s, lists, creates, ms.take(k)),
    decreases ms.len() - k,
{
    if k < ms.len() {
        assert(ms.take(k + 1).drop_last() =~= ms.take(k));
        lemma_plans_err_stops(s, lists, creates, ms, k + 1);
    } else {
        assert(ms.take(k) =~= ms);
    }
}


// ---------------------------------------------------------------------
// Compiling a plan.
fn count_on_github(lists: &Vec<ListRow>) -> (n: usize)
    ensures
        n == current_remote_v(lists@.map_values(|l: ListRow| l@)),
{
    let ghost lv = lists@.map_values(|l: ListRow| l@);
    let mut n: usize = 0;
    let mut i: usize = 0;
    while i < lists.len()
        invariant
            lv == lists@.map_values(|l: ListRow| l@),
            i <= lists.len(),
            n == keep_where(lv.take(i as int), on_github_pred()).len(),
            n <= i,
        decreases lists.len() - i,
    {
        assert(lv.take(i + 1).drop_last() =~= lv.take(i as int));
        assert(lv.take(i + 1).last() == lv[i as int]);
        let l = &lists[i];
        assert(l@ == lv[i as int]);
        if l.github_id.is_some() && !str_eq(l.status.as_str(), "tombstone") {
            n = n + 1;
        }
        i = i + 1;
    }
    assert(lv.take(lists.len() as int) =~= lv);
    n
}

fn count_remote_deletes(lists: &Vec<ListRow>, ds: &Vec<String>) -> (n: usize)
    ensures
        n == remote_deletes_v(lists@.map_values(|l: ListRow| l@), ds.deep_view()),
{
    let ghost lv = lists@.map_values(|l: ListRow| l@);
    let ghost dv = ds.deep_view();
    let mut n: usize = 0;
    let mut i: usize = 0;
    while i < ds.len()
        invariant
            lv == lists@.map_values(|l: ListRow| l@),
            dv == ds.deep_view(),
            i <= ds.len(),
            n == keep_where(dv.take(i as int), removes_remote(lv)).len(),
            n <= i,
        decreases ds.len() - i,
    {
        assert(dv.take(i + 1).drop_last() =~= dv.take(i as int));
        assert(dv.take(i + 1).last() == dv[i as int]);
        match find_slug(lists, ds[i].as_str()) {
            Some(k) => {
                let l = &lists[k];
                if l.github_id.is_some() && !str_eq(l.status.as_str(), "tombstone") {
                    n = n + 1;
                }
            },
            None => {},
        }
        i = i + 1;
    }
    assert(dv.take(ds.len() as int) =~= dv);
    n
}

fn dup_memberships(ms: &Vec<MembershipSet>) -> (r: Vec<MembershipSet>)
    ensures
        r@.map_values(|m: MembershipSet| m@) == ms@.map_values(|m: MembershipSet| m@),
{
    let mut out: Vec<MembershipSet> = Vec::new();
    let mut i: usize = 0;
    while i < ms.len()
        invariant
            i <= ms.len(),
            out@.len() == i,
            forall|j: int| 0 <= j < i ==> #[trigger] out@[j]@ == ms@[j]@,
        decreases ms.len() - i,
    {
        out.push(ms[i].dup());
        i = i + 1;
    }
    assert(out@.map_values(|m: MembershipSet| m@) =~= ms@.map_values(|m: MembershipSet| m@));
    out
}

/// Expands a proposal into the GitHub mutations that carry it out: list creates
/// (in slug order, skipping lists already on GitHub), renames, updates and
/// deletes, the full membership of each repository it names, and the list count
/// against GitHub's cap.
pub fn compile_plan(store: &Store, id: &str, proposal: &ProposalFile) -> (r: Result<Plan, AppError>)
    requires
        store.wf(),
    ensures
        match r {
            Ok(p) => compile_plan_v(store@, id@, proposal@) == Ok::<PlanV, AppErrorV>(p@),
            Err(e) => compile_plan_v(store@, id@, proposal@) == Err::<PlanV, AppErrorV>(e@),
        },
{
    let lists = store.list_lists(true);
    let ghost lv = lists@.map_values(|l: ListRow| l@);
    let creates = match collect_creates(&proposal.lists.create) {
        Ok(c) => c,
        Err(e) => return Err(e),
    };
    let renames = collect_renames(&proposal.lists.rename);
    let updates = collect_updates(&proposal.lists.update);
    let deletes = collect_deletes(&proposal.lists.delete);
    let memberships = dup_memberships(&proposal.memberships);
    let w = apply_merges(&lists, MergeWork { creates, deletes, memberships }, &proposal.lists.merge);
    let (mut ops, mut warnings) = plan_creates(&lists, &w.creates);
    let ghost cw = create_ops(lv, w@.creates);
    let mut rops = match plan_renames(&lists, &w.creates, &renames) {
        Ok(o) => o,
        Err(e) => return Err(e),
    };
    let mut uops = match plan_updates(&lists, &w.creates, &updates) {
        Ok(o) => o,
        Err(e) => return Err(e),
    };
    let mut dops = plan_deletes(&lists, &w.deletes);
    let memberships = match plan_memberships(store, &lists, &w.creates, &w.memberships) {
        Ok(m) => m,
        Err(e) => return Err(e),
    };
    let current = count_on_github(&lists);
    let remote_deletes = count_remote_deletes(&lists, &w.deletes);
    let after = current.saturating_add(ops.len()).saturating_sub(remote_deletes);
    if after > GITHUB_LIST_CAP {
        let mut m = owned("apply would leave ");
        let n = usize_text(after);
        push_str(&mut m, n.as_str());
        push_str(&mut m, " GitHub lists; cap is 32");
        let ghost wv = warnings.deep_view();
        warnings.push(m);
        assert(warnings.deep_view() =~= wv.push(cap_warning(after as nat)));
    }
    let ghost o1 = ops@;
    let ghost o2 = rops@;
    let ghost o3 = uops@;
    let ghost o4 = dops@;
    ops.append(&mut rops);
    ops.append(&mut uops);
    ops.append(&mut dops);
    assert(ops@ == o1 + o2 + o3 + o4);
    assert(ops@.map_values(|o: ListOp| o@) =~= o1.map_values(|o: ListOp| o@) + o2.map_values(|o: ListOp| o@)
        + o3.map_values(|o: ListOp| o@) + o4.map_values(|o: ListOp| o@));
    Ok(
        Plan {
            id: owned(id),
            notes: dup_opt(&proposal.notes),
            list_cap: ListCap { current_remote: current, after_apply: after, max: GITHUB_LIST_CAP },
            list_ops: ops,
            memberships,
            warnings,
        },
    )
}


// ---------------------------------------------------------------------
// What applying a proposal to the store does.
/// Running `step` on each of `xs` in turn, threading the store and the log, and
/// stopping at the first error (the store keeps what was done before it).
pub open spec fn run_steps<A>(
    s: StoreV,
    log: Seq<Seq<char>>,
    xs: Seq<A>,
    step: spec_fn(StoreV, Seq<Seq<char>>, A) -> (StoreV, Result<Seq<Seq<char>>, AppErrorV>),
) -> (StoreV, Result<Seq<Seq<char>>, AppErrorV>)
    decreases xs.len(),
{
    if xs.len() == 0 {
        (s, Ok(log))
    } else {
        let prev = run_steps(s, log, xs.drop_last(), step);
        match prev.1 {
            Err(e) => (prev.0, Err(e)),
            Ok(l) => step(prev.0, l, xs.last()),
        }
    }
}

/// `run_steps` after an outcome, unless that outcome was an error.
pub open spec fn then_steps<A>(
    o: (StoreV, Result<Seq<Seq<char>>, AppErrorV>),
    xs: Seq<A>,
    step: spec_fn(StoreV, Seq<Seq<char>>, A) -> (StoreV, Result<Seq<Seq<char>>, AppErrorV>),
) -> (StoreV, Result<Seq<Seq<char>>, AppErrorV>) {
    match o.1 {
        Err(e) => (o.0, Err(e)),
        Ok(log) => run_steps(o.0, log, xs, step),
    }
}

/// The log gets `line` once a store operation succeeds.
pub open spec fn logged<T>(o: (StoreV, Result<T, AppErrorV>), log: Seq<Seq<char>>, line: Seq<char>) -> (
    StoreV,
    Result<Seq<Seq<char>>, AppErrorV>,
) {
    match o.1 {
        Err(e) => (o.0, Err(e)),
        Ok(_) => (o.0, Ok(log.push(line))),
    }
}

pub open spec fn create_step(now: Seq<char>) -> spec_fn(StoreV, Seq<Seq<char>>, ListCreateV) -> (
    StoreV,
    Result<Seq<Seq<char>>, AppErrorV>,
) {
    |s: StoreV, log: Seq<Seq<char>>, c: ListCreateV|
        {
            let o = create_list_v(
                s,
                c.name,
                c.slug,
                c.description,
                match c.is_private {
                    Some(b) => b,
                    None => true,
                },
                now,
            );
            match o.1 {
                Err(e) => (o.0, Err(e)),
                Ok(row) => (o.0, Ok(log.push("draft list "@ + row.slug))),
            }
        }
}

pub open spec fn rename_step(now: Seq<char>) -> spec_fn(StoreV, Seq<Seq<char>>, ListRenameV) -> (
    StoreV,
    Result<Seq<Seq<char>>, AppErrorV>,
) {
    |s: StoreV, log: Seq<Seq<char>>, r: ListRenameV|
        logged(update_list_v(s, r.slug, Some(r.name), None, None, now), log, "rename "@ + r.slug)
}

pub open spec fn update_step(now: Seq<char>) -> spec_fn(StoreV, Seq<Seq<char>>, ListUpdateV) -> (
    StoreV,
    Result<Seq<Seq<char>>, AppErrorV>,
) {
    |s: StoreV, log: Seq<Seq<char>>, u: ListUpdateV|
        logged(
            update_list_v(
                s,
                u.slug,
                None,
                match u.description {
                    Some(d) => Some(Some(d)),
                    None => None,
                },
                u.is_private,
                now,
            ),
            log,
            "update "@ + u.slug,
        )
}

/// The ids of the lists `specs` name, or the first that does not resolve.
pub open spec fn resolve_ids_v(s: StoreV, specs: Seq<Seq<char>>) -> Result<Seq<i64>, AppErrorV>
    decreases specs.len(),
{
    if specs.len() == 0 {
        Ok(seq![])
    } else {
        match resolve_ids_v(s, specs.drop_last()) {
            Err(e) => Err(e),
            Ok(ids) => match resolve_list_v(s, specs.last()) {
                Err(e) => Err(e),
                Ok(l) => Ok(ids.push(l.id)),
            },
        }
    }
}

/// A repository of a merged list moves from `from` to `into`.
pub open spec fn move_step(from: Seq<char>, into: Seq<char>) -> spec_fn(StoreV, Seq<Seq<char>>, RepoRowV) -> (
    StoreV,
    Result<Seq<Seq<char>>, AppErrorV>,
) {
    |s: StoreV, log: Seq<Seq<char>>, repo: RepoRowV|
        {
            let kept = keep_where(member_slugs(s, repo.id), text_not(from));
            let slugs = if kept.contains(into) {
                kept
            } else {
                kept.push(into)
            };
            match resolve_ids_v(s, slugs) {
                Err(e) => (s, Err(e)),
                Ok(ids) => {
                    let o = set_membership_v(s, repo.id, ids, "proposal"@);
                    match o.1 {
                        Err(e) => (o.0, Err(e)),
                        Ok(_) => (o.0, Ok(log)),
                    }
                },
            }
        }
}

/// The most repositories a merge moves out of one list.
pub const MERGE_REPO_LIMIT: usize = 10000;

/// Source `from_spec` of a merge into `into`: its repositories move over and the
/// list is deleted.
pub open spec fn source_step(into_spec: Seq<char>, into: ListRowV, now: Seq<char>) -> spec_fn(
    StoreV,
    Seq<Seq<char>>,
    Seq<char>,
) -> (StoreV, Result<Seq<Seq<char>>, AppErrorV>) {
    |s: StoreV, log: Seq<Seq<char>>, from_spec: Seq<char>|
        if from_spec == into_spec {
            (s, Ok(log))
        } else {
            match resolve_list_v(s, from_spec) {
                Err(e) => (s, Err(e)),
                Ok(from) => {
                    let moved = run_steps(
                        s,
                        log,
                        queried(s, Some(from.id), false, None, MERGE_REPO_LIMIT as nat),
                        move_step(from.slug, into.slug),
                    );
                    match moved.1 {
                        Err(e) => (moved.0, Err(e)),
                        Ok(l) => logged(delete_list_v(moved.0, from.slug, now), l, "merge "@ + from.slug + " -> "@ + into.slug),
                    }
                },
            }
        }
}

/// A merge: its target is created when it does not resolve, then each source is
/// folded into it.
pub open spec fn merge_apply_step(now: Seq<char>) -> spec_fn(StoreV, Seq<Seq<char>>, ListMergeV) -> (
    StoreV,
    Result<Seq<Seq<char>>, AppErrorV>,
) {
    |s: StoreV, log: Seq<Seq<char>>, m: ListMergeV|
        {
            let made: (StoreV, Result<(), AppErrorV>) = if resolve_list_v(s, m.into) is Err {
                let o = create_list_v(s, m.into, Some(m.into), None, true, now);
                (
                    o.0,
                    match o.1 {
                        Err(e) => Err(e),
                        Ok(_) => Ok(()),
                    },
                )
            } else {
                (s, Ok(()))
            };
            match made.1 {
                Err(e) => (made.0, Err(e)),
                Ok(_) => match resolve_list_v(made.0, m.into) {
                    Err(e) => (made.0, Err(e)),
                    Ok(into) => run_steps(made.0, log, m.from, source_step(m.into, into, now)),
                },
            }
        }
}

pub open spec fn delete_step(now: Seq<char>) -> spec_fn(StoreV, Seq<Seq<char>>, Seq<char>) -> (
    StoreV,
    Result<Seq<Seq<char>>, AppErrorV>,
) {
    |s: StoreV, log: Seq<Seq<char>>, slug: Seq<char>| logged(delete_list_v(s, slug, now), log, "delete "@ + slug)
}

pub open spec fn membership_step() -> spec_fn(StoreV, Seq<Seq<char>>, MembershipSetV) -> (
    StoreV,
    Result<Seq<Seq<char>>, AppErrorV>,
) {
    |s: StoreV, log: Seq<Seq<char>>, m: MembershipSetV|
        match resolve_repo_v(s, m.repo) {
            Err(e) => (s, Err(e)),
            Ok(repo) => match resolve_ids_v(s, m.lists) {
                Err(e) => (s, Err(e)),
                Ok(ids) => logged(set_membership_v(s, repo.id, ids, "proposal"@), log, "membership "@ + repo.name_with_owner),
            },
        }
}

/// What `apply_proposal_locally` does to the store and returns: creates, renames,
/// updates, merges, deletes and memberships in that order, each stopping at the
/// first error.
pub open spec fn apply_proposal_v(s: StoreV, p: ProposalFileV, now: Seq<char>) -> (
    StoreV,
    Result<Seq<Seq<char>>, AppErrorV>,
) {
    let created = run_steps(s, seq![], p.lists.create, create_step(now));
    let renamed = then_steps(created, p.lists.rename, rename_step(now));
    let updated = then_steps(renamed, p.lists.update, update_step(now));
    let merged = then_steps(updated, p.lists.merge, merge_apply_step(now));
    let deleted = then_steps(merged, p.lists.delete, delete_step(now));
    then_steps(deleted, p.memberships, membership_step())
}

/// Once a prefix of the steps fails, the rest change nothing.
pub proof fn lemma_run_steps_stops<A>(
    s: StoreV,
    log: Seq<Seq<char>>,
    xs: Seq<A>,
    step: spec_fn(StoreV, Seq<Seq<char>>, A) -> (StoreV, Result<Seq<Seq<char>>, AppErrorV>),
    k: int,
)
    requires
        0 <= k <= xs.len(),
        run_steps(s, log, xs.take(k), step).1 is Err,
    ensures
        run_steps(s, log, xs, step) == run_steps(s, log, xs.take(k), step),
    decreases xs.len() - k,
{
    if k < xs.len() {
        assert(xs.take(k + 1).drop_last() =~= xs.take(k));
        lemma_run_steps_stops(s, log, xs, step, k + 1);
    } else {
        assert(xs.take(k) =~= xs);
    }
}

/// One more step extends a run over a prefix.
pub proof fn lemma_run_steps_next<A>(
    s: StoreV,
    log: Seq<Seq<char>>,
    xs: Seq<A>,
    step: spec_fn(StoreV, Seq<Seq<char>>, A) -> (StoreV, Result<Seq<Seq<char>>, AppErrorV>),
    i: int,
)
    requires
        0 <= i < xs.len(),
    ensures
        run_steps(s, log, xs.take(i + 1), step) == (match run_steps(s, log, xs.take(i), step).1 {
            Err(e) => (run_steps(s, log, xs.take(i), step).0, Err(e)),
            Ok(l) => step(run_steps(s, log, xs.take(i), step).0, l, xs[i]),
        }),
{
    assert(xs.take(i + 1).drop_last() =~= xs.take(i));
    assert(xs.take(i + 1).last() == xs[i]);
}


// ---------------------------------------------------------------------
// Applying a proposal to the store.
/// The outcome of a step that extends `log`.
spec fn outcome_of(r: Result<(), AppError>, log: Seq<Seq<char>>) -> Result<Seq<Seq<char>>, AppErrorV> {
    match r {
        Ok(_) => Ok(log),
        Err(e) => Err(e@),
    }
}

fn opt_str(o: &Option<String>) -> (r: Option<&str>)
    ensures
        match r {
            Some(x) => Some(x@),
            None => None,
        } == o.deep_view(),
{
    match o {
        Some(x) => Some(x.as_str()),
        None => None,
    }
}

/// Pushes `prefix` followed by `detail` onto the log.
fn log_line(log: &mut Vec<String>, prefix: &str, detail: &str)
    ensures
        final(log).deep_view() == old(log).deep_view().push(prefix@ + detail@),
{
    let ghost lv = log.deep_view();
    let line = error_text(prefix, detail);
    let ghost linev = line@;
    log.push(line);
    assert(log.deep_view() =~= lv.push(linev));
}

fn apply_creates(store: &mut Store, log: &mut Vec<String>, cs: &Vec<ListCreate>, now: &str) -> (r: Result<(), AppError>)
    requires
        old(store).wf(),
    ensures
        final(store).wf(),
        (final(store)@, outcome_of(r, final(log).deep_view())) == run_steps(
            old(store)@,
            old(log).deep_view(),
            cs@.map_values(|c: ListCreate| c@),
            create_step(now@),
        ),
{
    let ghost s0 = store@;
    let ghost l0 = log.deep_view();
    let ghost cv = cs@.map_values(|c: ListCreate| c@);
    let mut i: usize = 0;
    assert(cv.take(0).len() == 0);
    while i < cs.len()
        invariant
            store.wf(),
            s0 == old(store)@,
            l0 == old(log).deep_view(),
            cv == cs@.map_values(|c: ListCreate| c@),
            i <= cs.len(),
            run_steps(s0, l0, cv.take(i as int), create_step(now@)) == (store@, Ok::<Seq<Seq<char>>, AppErrorV>(log.deep_view())),
        decreases cs.len() - i,
    {
        proof {
            lemma_run_steps_next(s0, l0, cv, create_step(now@), i as int);
        }
        let c = &cs[i];
        assert(c@ == cv[i as int]);
        let private = match c.is_private {
            Some(b) => b,
            None => true,
        };
        match store.create_list(c.name.as_str(), opt_str(&c.slug), opt_str(&c.description), private, now) {
            Ok(row) => {
                log_line(log, "draft list ", row.slug.as_str());
            },
            Err(e) => {
                proof {
                    lemma_run_steps_stops(s0, l0, cv, create_step(now@), i as int + 1);
                }
                return Err(e);
            },
        }
        i = i + 1;
    }
    assert(cv.take(cs.len() as int) =~= cv);
    Ok(())
}

fn apply_renames(store: &mut Store, log: &mut Vec<String>, rs: &Vec<ListRename>, now: &str) -> (r: Result<(), AppError>)
    requires
        old(store).wf(),
    ensures
        final(store).wf(),
        (final(store)@, outcome_of(r, final(log).deep_view())) == run_steps(
            old(store)@,
            old(log).deep_view(),
            rs@.map_values(|x: ListRename| x@),
            rename_step(now@),
        ),
{
    let ghost s0 = store@;
    let ghost l0 = log.deep_view();
    let ghost rv = rs@.map_values(|x: ListRename| x@);
    let mut i: usize = 0;
    assert(rv.take(0).len() == 0);
    while i < rs.len()
        invariant
            store.wf(),
            s0 == old(store)@,
            l0 == old(log).deep_view(),
            rv == rs@.map_values(|x: ListRename| x@),
            i <= rs.len(),
            run_steps(s0, l0, rv.take(i as int), rename_step(now@)) == (store@, Ok::<Seq<Seq<char>>, AppErrorV>(log.deep_view())),
        decreases rs.len() - i,
    {
        proof {
            lemma_run_steps_next(s0, l0, rv, rename_step(now@), i as int);
        }
        let x = &rs[i];
        assert(x@ == rv[i as int]);
        match store.update_list(x.slug.as_str(), Some(x.name.as_str()), None, None, now) {
            Ok(_) => {
                log_line(log, "rename ", x.slug.as_str());
            },
            Err(e) => {
                proof {
                    lemma_run_steps_stops(s0, l0, rv, rename_step(now@), i as int + 1);
                }
                return Err(e);
            },
        }
        i = i + 1;
    }
    assert(rv.take(rs.len() as int) =~= rv);
    Ok(())
}

fn apply_updates(store: &mut Store, log: &mut Vec<String>, us: &Vec<ListUpdate>, now: &str) -> (r: Result<(), AppError>)
    requires
        old(store).wf(),
    ensures
        final(store).wf(),
        (final(store)@, outcome_of(r, final(log).deep_view())) == run_steps(
            old(store)@,
            old(log).deep_view(),
            us@.map_values(|x: ListUpdate| x@),
            update_step(now@),
        ),
{
    let ghost s0 = store@;
    let ghost l0 = log.deep_view();
    let ghost uv = us@.map_values(|x: ListUpdate| x@);
    let mut i: usize = 0;
    assert(uv.take(0).len() == 0);
    while i < us.len()
        invariant
            store.wf(),
            s0 == old(store)@,
            l0 == old(log).deep_view(),
            uv == us@.map_values(|x: ListUpdate| x@),
            i <= us.len(),
            run_steps(s0, l0, uv.take(i as int), update_step(now@)) == (store@, Ok::<Seq<Seq<char>>, AppErrorV>(log.deep_view())),
        decreases us.len() - i,
    {
        proof {
            lemma_run_steps_next(s0, l0, uv, update_step(now@), i as int);
        }
        let x = &us[i];
        assert(x@ == uv[i as int]);
        let description: Option<Option<&str>> = match &x.description {
            Some(d) => Some(Some(d.as_str())),
            None => None,
        };
        match store.update_list(x.slug.as_str(), None, description, x.is_private, now) {
            Ok(_) => {
                log_line(log, "update ", x.slug.as_str());
            },
            Err(e) => {
                proof {
                    lemma_run_steps_stops(s0, l0, uv, update_step(now@), i as int + 1);
                }
                return Err(e);
            },
        }
        i = i + 1;
    }
    assert(uv.take(us.len() as int) =~= uv);
    Ok(())
}

fn apply_deletes(store: &mut Store, log: &mut Vec<String>, ds: &Vec<String>, now: &str) -> (r: Result<(), AppError>)
    requires
        old(store).wf(),
    ensures
        final(store).wf(),
        (final(store)@, outcome_of(r, final(log).deep_view())) == run_steps(
            old(store)@,
            old(log).deep_view(),
            ds.deep_view(),
            delete_step(now@),
        ),
{
    let ghost s0 = store@;
    let ghost l0 = log.deep_view();
    let ghost dv = ds.deep_view();
    let mut i: usize = 0;
    assert(dv.take(0).len() == 0);
    while i < ds.len()
        invariant
            store.wf(),
            s0 == old(store)@,
            l0 == old(log).deep_view(),
            dv == ds.deep_view(),
            i <= ds.len(),
            run_steps(s0, l0, dv.take(i as int), delete_step(now@)) == (store@, Ok::<Seq<Seq<char>>, AppErrorV>(log.deep_view())),
        decreases ds.len() - i,
    {
        proof {
            lemma_run_steps_next(s0, l0, dv, delete_step(now@), i as int);
        }
        match store.delete_list(ds[i].as_str(), now) {
            Ok(_) => {
                log_line(log, "delete ", ds[i].as_str());
            },
            Err(e) => {
                proof {
                    lemma_run_steps_stops(s0, l0, dv, delete_step(now@), i as int + 1);
                }
                return Err(e);
            },
        }
        i = i + 1;
    }
    assert(dv.take(ds.len() as int) =~= dv);
    Ok(())
}

/// The ids of the lists `specs` name.
pub(crate) fn resolve_ids(store: &Store, specs: &Vec<String>) -> (r: Result<Vec<i64>, AppError>)
    requires
        store.wf(),
    ensures
        match r {
            Ok(ids) => resolve_ids_v(store@, specs.deep_view()) == Ok::<Seq<i64>, AppErrorV>(ids@),
            Err(e) => resolve_ids_v(store@, specs.deep_view()) == Err::<Seq<i64>, AppErrorV>(e@),
        },
{
    let ghost sv = specs.deep_view();
    let mut ids: Vec<i64> = Vec::new();
    let mut i: usize = 0;
    assert(sv.take(0).len() == 0);
    assert(ids@ =~= Seq::<i64>::empty());
    while i < specs.len()
        invariant
            store.wf(),
            sv == specs.deep_view(),
            i <= specs.len(),
            resolve_ids_v(store@, sv.take(i as int)) == Ok::<Seq<i64>, AppErrorV>(ids@),
        decreases specs.len() - i,
    {
        assert(sv.take(i + 1).drop_last() =~= sv.take(i as int));
        assert(sv.take(i + 1).last() == sv[i as int]);
        match store.resolve_list(specs[i].as_str()) {
            Ok(l) => {
                ids.push(l.id);
            },
            Err(e) => {
                proof {
                    lemma_ids_err_stops(store@, sv, i as int + 1);
                }
                return Err(e);
            },
        }
        i = i + 1;
    }
    assert(sv.take(specs.len() as int) =~= sv);
    Ok(ids)
}

proof fn lemma_ids_err_stops(s: StoreV, specs: Seq<Seq<char>>, k: int)
    requires
        0 <= k <= specs.len(),
        resolve_ids_v(s, specs.take(k)) is Err,
    ensures
        resolve_ids_v(s, specs) == resolve_ids_v(s, specs.take(k)),
    decreases specs.len() - k,
{
    if k < specs.len() {
        assert(specs.take(k + 1).drop_last() =~= specs.take(k));
        lemma_ids_err_stops(s, specs, k + 1);
    } else {
        assert(specs.take(k) =~= specs);
    }
}


/// `v` without the texts equal to `x`.
fn keep_other(v: &Vec<String>, x: &str) -> (r: Vec<String>)
    ensures
        r.deep_view() == keep_where(v.deep_view(), text_not(x@)),
{
    let ghost vv = v.deep_view();
    let mut kept: Vec<String> = Vec::new();
    let mut i: usize = 0;
    assert(kept.deep_view() =~= keep_where(vv.take(0), text_not(x@)));
    while i < v.len()
        invariant
            vv == v.deep_view(),
            i <= v.len(),
            kept.deep_view() == keep_where(vv.take(i as int), text_not(x@)),
        decreases v.len() - i,
    {
        assert(vv.take(i + 1).drop_last() =~= vv.take(i as int));
        if !str_eq(v[i].as_str(), x) {
            let ghost kv = kept.deep_view();
            kept.push(v[i].clone());
            assert(kept.deep_view() =~= kv.push(vv[i as int]));
        }
        i = i + 1;
    }
    assert(vv.take(v.len() as int) =~= vv);
    kept
}

/// Moves each of `repos` from list `from` to list `into`.
fn move_repos(store: &mut Store, log: &Vec<String>, repos: &Vec<RepoRow>, from: &str, into: &str) -> (r: Result<(), AppError>)
    requires
        old(store).wf(),
    ensures
        final(store).wf(),
        (final(store)@, outcome_of(r, log.deep_view())) == run_steps(
            old(store)@,
            log.deep_view(),
            repos@.map_values(|x: RepoRow| x@),
            move_step(from@, into@),
        ),
{
    let ghost s0 = store@;
    let ghost l0 = log.deep_view();
    let ghost rv = repos@.map_values(|x: RepoRow| x@);
    let mut i: usize = 0;
    assert(rv.take(0).len() == 0);
    while i < repos.len()
        invariant
            store.wf(),
            s0 == old(store)@,
            l0 == log.deep_view(),
            rv == repos@.map_values(|x: RepoRow| x@),
            i <= repos.len(),
            run_steps(s0, l0, rv.take(i as int), move_step(from@, into@)) == (store@, Ok::<Seq<Seq<char>>, AppErrorV>(l0)),
        decreases repos.len() - i,
    {
        proof {
            lemma_run_steps_next(s0, l0, rv, move_step(from@, into@), i as int);
        }
        let id = repos[i].id;
        assert(id == rv[i as int].id);
        let slugs = store.membership_slugs(id);
        let mut kept = keep_other(&slugs, from);
        if !texts_contain(&kept, into) {
            let ghost kv = kept.deep_view();
            kept.push(owned(into));
            assert(kept.deep_view() =~= kv.push(into@));
        }
        let ids = match resolve_ids(store, &kept) {
            Ok(ids) => ids,
            Err(e) => {
                proof {
                    lemma_run_steps_stops(s0, l0, rv, move_step(from@, into@), i as int + 1);
                }
                return Err(e);
            },
        };
        match store.set_membership(id, ids.as_slice(), "proposal") {
            Ok(_) => {},
            Err(e) => {
                proof {
                    lemma_run_steps_stops(s0, l0, rv, move_step(from@, into@), i as int + 1);
                }
                return Err(e);
            },
        }
        i = i + 1;
    }
    assert(rv.take(repos.len() as int) =~= rv);
    Ok(())
}

/// Folds each source of a merge into the list `into`.
fn apply_sources(
    store: &mut Store,
    log: &mut Vec<String>,
    froms: &Vec<String>,
    into_spec: &str,
    into: &ListRow,
    now: &str,
) -> (r: Result<(), AppError>)
    requires
        old(store).wf(),
    ensures
        final(store).wf(),
        (final(store)@, outcome_of(r, final(log).deep_view())) == run_steps(
            old(store)@,
            old(log).deep_view(),
            froms.deep_view(),
            source_step(into_spec@, into@, now@),
        ),
{
    let ghost s0 = store@;
    let ghost l0 = log.deep_view();
    let ghost fv = froms.deep_view();
    let ghost step = source_step(into_spec@, into@, now@);
    let mut i: usize = 0;
    assert(fv.take(0).len() == 0);
    while i < froms.len()
        invariant
            store.wf(),
            s0 == old(store)@,
            l0 == old(log).deep_view(),
            fv == froms.deep_view(),
            step == source_step(into_spec@, into@, now@),
            i <= froms.len(),
            run_steps(s0, l0, fv.take(i as int), step) == (store@, Ok::<Seq<Seq<char>>, AppErrorV>(log.deep_view())),
        decreases froms.len() - i,
    {
        proof {
            lemma_run_steps_next(s0, l0, fv, step, i as int);
        }
        let from_spec = froms[i].as_str();
        if !str_eq(from_spec, into_spec) {
            let from = match store.resolve_list(from_spec) {
                Ok(l) => l,
                Err(e) => {
                    proof {
                        lemma_run_steps_stops(s0, l0, fv, step, i as int + 1);
                    }
                    return Err(e);
                },
            };
            let repos = store.query_repos(Some(&from), false, None, MERGE_REPO_LIMIT);
            match move_repos(store, log, &repos, from.slug.as_str(), into.slug.as_str()) {
                Ok(_) => {},
                Err(e) => {
                    proof {
                        lemma_run_steps_stops(s0, l0, fv, step, i as int + 1);
                    }
                    return Err(e);
                },
            }
            match store.delete_list(from.slug.as_str(), now) {
                Ok(_) => {},
                Err(e) => {
                    proof {
                        lemma_run_steps_stops(s0, l0, fv, step, i as int + 1);
                    }
                    return Err(e);
                },
            }
            let mut line = owned("merge ");
            push_str(&mut line, from.slug.as_str());
            push_str(&mut line, " -> ");
            push_str(&mut line, into.slug.as_str());
            let ghost lv = log.deep_view();
            let ghost linev = line@;
            log.push(line);
            assert(log.deep_view() =~= lv.push(linev));
        }
        i = i + 1;
    }
    assert(fv.take(froms.len() as int) =~= fv);
    Ok(())
}


fn apply_merges_locally(store: &mut Store, log: &mut Vec<String>, merges: &Vec<ListMerge>, now: &str) -> (r: Result<(), AppError>)
    requires
        old(store).wf(),
    ensures
        final(store).wf(),
        (final(store)@, outcome_of(r, final(log).deep_view())) == run_steps(
            old(store)@,
            old(log).deep_view(),
            merges@.map_values(|m: ListMerge| m@),
            merge_apply_step(now@),
        ),
{
    let ghost s0 = store@;
    let ghost l0 = log.deep_view();
    let ghost mv = merges@.map_values(|m: ListMerge| m@);
    let mut i: usize = 0;
    assert(mv.take(0).len() == 0);
    while i < merges.len()
        invariant
            store.wf(),
            s0 == old(store)@,
            l0 == old(log).deep_view(),
            mv == merges@.map_values(|m: ListMerge| m@),
            i <= merges.len(),
            run_steps(s0, l0, mv.take(i as int), merge_apply_step(now@)) == (store@, Ok::<Seq<Seq<char>>, AppErrorV>(log.deep_view())),
        decreases merges.len() - i,
    {
        proof {
            lemma_run_steps_next(s0, l0, mv, merge_apply_step(now@), i as int);
        }
        let m = &merges[i];
        assert(m@ == mv[i as int]);
        if store.resolve_list(m.into.as_str()).is_err() {
            match store.create_list(m.into.as_str(), Some(m.into.as_str()), None, true, now) {
                Ok(_) => {},
                Err(e) => {
                    proof {
                        lemma_run_steps_stops(s0, l0, mv, merge_apply_step(now@), i as int + 1);
                    }
                    return Err(e);
                },
            }
        }
        let into = match store.resolve_list(m.into.as_str()) {
            Ok(l) => l,
            Err(e) => {
                proof {
                    lemma_run_steps_stops(s0, l0, mv, merge_apply_step(now@), i as int + 1);
                }
                return Err(e);
            },
        };
        match apply_sources(store, log, &m.from, m.into.as_str(), &into, now) {
            Ok(_) => {},
            Err(e) => {
                proof {
                    lemma_run_steps_stops(s0, l0, mv, merge_apply_step(now@), i as int + 1);
                }
                return Err(e);
            },
        }
        i = i + 1;
    }
    assert(mv.take(merges.len() as int) =~= mv);
    Ok(())
}

fn apply_memberships(store: &mut Store, log: &mut Vec<String>, ms: &Vec<MembershipSet>) -> (r: Result<(), AppError>)
    requires
        old(store).wf(),
    ensures
        final(store).wf(),
        (final(store)@, outcome_of(r, final(log).deep_view())) == run_steps(
            old(store)@,
            old(log).deep_view(),
            ms@.map_values(|m: MembershipSet| m@),
            membership_step(),
        ),
{
    let ghost s0 = store@;
    let ghost l0 = log.deep_view();
    let ghost mv = ms@.map_values(|m: MembershipSet| m@);
    let mut i: usize = 0;
    assert(mv.take(0).len() == 0);
    while i < ms.len()
        invariant
            store.wf(),
            s0 == old(store)@,
            l0 == old(log).deep_view(),
            mv == ms@.map_values(|m: MembershipSet| m@),
            i <= ms.len(),
            run_steps(s0, l0, mv.take(i as int), membership_step()) == (store@, Ok::<Seq<Seq<char>>, AppErrorV>(log.deep_view())),
        decreases ms.len() - i,
    {
        proof {
            lemma_run_steps_next(s0, l0, mv, membership_step(), i as int);
        }
        let m = &ms[i];
        assert(m@ == mv[i as int]);
        let repo = match store.resolve_repo(m.repo.as_str()) {
            Ok(r) => r,
            Err(e) => {
                proof {
                    lemma_run_steps_stops(s0, l0, mv, membership_step(), i as int + 1);
                }
                return Err(e);
            },
        };
        let ids = match resolve_ids(store, &m.lists) {
            Ok(ids) => ids,
            Err(e) => {
                proof {
                    lemma_run_steps_stops(s0, l0, mv, membership_step(), i as int + 1);
                }
                return Err(e);
            },
        };
        match store.set_membership(repo.id, ids.as_slice(), "proposal") {
            Ok(_) => {
                log_line(log, "membership ", repo.name_with_owner.as_str());
            },
            Err(e) => {
                proof {
                    lemma_run_steps_stops(s0, l0, mv, membership_step(), i as int + 1);
                }
                return Err(e);
            },
        }
        i = i + 1;
    }
    assert(mv.take(ms.len() as int) =~= mv);
    Ok(())
}

/// Applies a proposal to the local store only: creates draft lists, renames and
/// updates lists, folds merged lists into their targets, deletes lists and sets
/// full memberships, in that order, and returns a log line for each change. It
/// stops at the first error; what was done before it stays done.
pub fn apply_proposal_locally(store: &mut Store, proposal: &ProposalFile, now: &str) -> (r: Result<Vec<String>, AppError>)
    requires
        old(store).wf(),
    ensures
        final(store).wf(),
        (final(store)@, match r {
            Ok(log) => Ok::<Seq<Seq<char>>, AppErrorV>(log.deep_view()),
            Err(e) => Err(e@),
        }) == apply_proposal_v(old(store)@, proposal@, now@),
{
    let ghost p = proposal@;
    let mut log: Vec<String> = Vec::new();
    assert(log.deep_view() =~= Seq::<Seq<char>>::empty());
    match apply_creates(store, &mut log, &proposal.lists.create, now) {
        Ok(_) => {},
        Err(e) => return Err(e),
    }
    match apply_renames(store, &mut log, &proposal.lists.rename, now) {
        Ok(_) => {},
        Err(e) => return Err(e),
    }
    match apply_updates(store, &mut log, &proposal.lists.update, now) {
        Ok(_) => {},
        Err(e) => return Err(e),
    }
    match apply_merges_locally(store, &mut log, &proposal.lists.merge, now) {
        Ok(_) => {},
        Err(e) => return Err(e),
    }
    match apply_deletes(store, &mut log, &proposal.lists.delete, now) {
        Ok(_) => {},
        Err(e) => return Err(e),
    }
    match apply_memberships(store, &mut log, &proposal.memberships) {
        Ok(_) => {},
        Err(e) => return Err(e),
    }
    Ok(log)
}

} // verus!
