//! Applying a plan to GitHub, one mutation at a time. The library decides what
//! comes next and records what each mutation did; the program performs the
//! mutations. Lists are created and updated first, then every repository is sent
//! its full set of lists, and lists are deleted last, so that no repository is
//! left stranded in a deleted list.
use vstd::prelude::*;

use crate::db::{mark_applied_v, mark_created_v, mark_synced_v, remove_by_slug_v, Store, StoreV};
use crate::order::{first_index, lemma_first_index_found, lemma_first_index_none, lemma_first_index_props};
use crate::output::{err_v, error_with, AppError, AppErrorV};
use crate::proposal::{
    assoc_put, has_key, key_is, ListOp, ListOpV, MembershipPlan, MembershipPlanV, Plan, PlanV,
};
use crate::text::{chars_of, has_prefix, owned, push_str, starts_with, str_eq, string_of, decimal};

verus! {

/// A step of an apply run.
#[derive(Debug, Clone, Copy, PartialEq, Eq, Structural)]
pub enum ApplyStep {
    /// The create or update at this index of the plan's list operations.
    ListOp(usize),
    /// The full membership at this index of the plan's memberships.
    Membership(usize),
    /// The delete at this index of the plan's list operations.
    Delete(usize),
}

/// The indices of the operations among `ops` that are not deletes, in order.
pub open spec fn upsert_indices(ops: Seq<ListOpV>) -> Seq<usize>
    decreases ops.len(),
{
    if ops.len() == 0 {
        seq![]
    } else if ops.last() is Delete {
        upsert_indices(ops.drop_last())
    } else {
        upsert_indices(ops.drop_last()).push((ops.len() - 1) as usize)
    }
}

/// The indices of the deletes among `ops`, in order.
pub open spec fn delete_indices(ops: Seq<ListOpV>) -> Seq<usize>
    decreases ops.len(),
{
    if ops.len() == 0 {
        seq![]
    } else if ops.last() is Delete {
        delete_indices(ops.drop_last()).push((ops.len() - 1) as usize)
    } else {
        delete_indices(ops.drop_last())
    }
}

/// The steps of an apply run: creates and updates in plan order, then each
/// membership, then the deletes.
pub open spec fn schedule_v(p: PlanV) -> Seq<ApplyStep> {
    upsert_indices(p.list_ops).map_values(|i: usize| ApplyStep::ListOp(i)) + Seq::new(
        p.memberships.len(),
        |k: int| ApplyStep::Membership(k as usize),
    ) + delete_indices(p.list_ops).map_values(|i: usize| ApplyStep::Delete(i))
}

/// The order of an apply run's steps.
pub fn apply_steps(plan: &Plan) -> (r: Vec<ApplyStep>)
    ensures
        r@ == schedule_v(plan@),
{
    let ghost ops = plan@.list_ops;
    let mut ups: Vec<ApplyStep> = Vec::new();
    let mut dels: Vec<ApplyStep> = Vec::new();
    let mut i: usize = 0;
    assert(ops.take(0).len() == 0);
    assert(ups@ =~= upsert_indices(ops.take(0)).map_values(|i: usize| ApplyStep::ListOp(i)));
    assert(dels@ =~= delete_indices(ops.take(0)).map_values(|i: usize| ApplyStep::Delete(i)));
    while i < plan.list_ops.len()
        invariant
            ops == plan@.list_ops,
            ops.len() == plan.list_ops@.len(),
            i <= plan.list_ops.len(),
            ups@ == upsert_indices(ops.take(i as int)).map_values(|i: usize| ApplyStep::ListOp(i)),
            dels@ == delete_indices(ops.take(i as int)).map_values(|i: usize| ApplyStep::Delete(i)),
        decreases plan.list_ops.len() - i,
    {
        assert(ops.take(i + 1).drop_last() =~= ops.take(i as int));
        assert(ops.take(i + 1).last() == plan.list_ops@[i as int]@);
        let is_delete = match &plan.list_ops[i] {
            ListOp::Delete { .. } => true,
            _ => false,
        };
        if is_delete {
            let ghost before = dels@;
            dels.push(ApplyStep::Delete(i));
            assert(dels@ =~= delete_indices(ops.take(i + 1)).map_values(|i: usize| ApplyStep::Delete(i)));
            assert(ups@ =~= upsert_indices(ops.take(i + 1)).map_values(|i: usize| ApplyStep::ListOp(i)));
        } else {
            ups.push(ApplyStep::ListOp(i));
            assert(ups@ =~= upsert_indices(ops.take(i + 1)).map_values(|i: usize| ApplyStep::ListOp(i)));
            assert(dels@ =~= delete_indices(ops.take(i + 1)).map_values(|i: usize| ApplyStep::Delete(i)));
        }
        i = i + 1;
    }
    assert(ops.take(plan.list_ops.len() as int) =~= ops);
    let mut k: usize = 0;
    let mut members: Vec<ApplyStep> = Vec::new();
    while k < plan.memberships.len()
        invariant
            k <= plan.memberships.len(),
            members@ =~= Seq::new(k as nat, |j: int| ApplyStep::Membership(j as usize)),
        decreases plan.memberships.len() - k,
    {
        members.push(ApplyStep::Membership(k));
        k = k + 1;
    }
    assert(plan@.memberships.len() == plan.memberships@.len());
    let mut out = ups;
    out.append(&mut members);
    out.append(&mut dels);
    out
}


/// The indices a schedule's steps carry point at operations of the right kind.
pub proof fn lemma_indices(ops: Seq<ListOpV>)
    requires
        ops.len() <= usize::MAX,
    ensures
        forall|j: int|
            0 <= j < upsert_indices(ops).len() ==> (#[trigger] upsert_indices(ops)[j]) < ops.len() && !(ops[upsert_indices(
                ops,
            )[j] as int] is Delete),
        forall|j: int|
            0 <= j < delete_indices(ops).len() ==> (#[trigger] delete_indices(ops)[j]) < ops.len() && ops[delete_indices(
                ops,
            )[j] as int] is Delete,
    decreases ops.len(),
{
    if ops.len() > 0 {
        let t = ops.drop_last();
        lemma_indices(t);
        assert forall|j: int| 0 <= j < upsert_indices(ops).len() implies (#[trigger] upsert_indices(ops)[j]) < ops.len()
            && !(ops[upsert_indices(ops)[j] as int] is Delete) by {
            if j < upsert_indices(t).len() {
                assert(upsert_indices(ops)[j] == upsert_indices(t)[j]);
                assert(ops[upsert_indices(t)[j] as int] == t[upsert_indices(t)[j] as int]);
            }
        }
        assert forall|j: int| 0 <= j < delete_indices(ops).len() implies (#[trigger] delete_indices(ops)[j]) < ops.len()
            && ops[delete_indices(ops)[j] as int] is Delete by {
            if j < delete_indices(t).len() {
                assert(delete_indices(ops)[j] == delete_indices(t)[j]);
                assert(ops[delete_indices(t)[j] as int] == t[delete_indices(t)[j] as int]);
            }
        }
    }
}

/// Every step of an apply run names an operation or membership the plan has, of
/// the right kind; and no list is deleted before every repository has been sent
/// its full set of lists, nor any membership sent before every list create and
/// update is done.
pub proof fn law_apply_deletes_last(p: PlanV)
    requires
        p.list_ops.len() <= usize::MAX,
        p.memberships.len() <= usize::MAX,
    ensures
        forall|i: int|
            0 <= i < schedule_v(p).len() ==> match #[trigger] schedule_v(p)[i] {
                ApplyStep::ListOp(k) => k < p.list_ops.len() && !(p.list_ops[k as int] is Delete),
                ApplyStep::Membership(k) => k < p.memberships.len(),
                ApplyStep::Delete(k) => k < p.list_ops.len() && p.list_ops[k as int] is Delete,
            },
        forall|i: int, j: int|
            0 <= i < j < schedule_v(p).len() ==> !(#[trigger] schedule_v(p)[i] is Delete && #[trigger] schedule_v(p)[j] is Membership),
        forall|i: int, j: int|
            0 <= i < j < schedule_v(p).len() ==> !(#[trigger] schedule_v(p)[i] is Membership && #[trigger] schedule_v(p)[j] is ListOp),
{
    lemma_indices(p.list_ops);
    let a = upsert_indices(p.list_ops).map_values(|i: usize| ApplyStep::ListOp(i));
    let b = Seq::new(p.memberships.len(), |k: int| ApplyStep::Membership(k as usize));
    let c = delete_indices(p.list_ops).map_values(|i: usize| ApplyStep::Delete(i));
    let s = schedule_v(p);
    assert(s == a + b + c);
    assert forall|i: int| 0 <= i < s.len() implies match #[trigger] s[i] {
        ApplyStep::ListOp(k) => k < p.list_ops.len() && !(p.list_ops[k as int] is Delete),
        ApplyStep::Membership(k) => k < p.memberships.len(),
        ApplyStep::Delete(k) => k < p.list_ops.len() && p.list_ops[k as int] is Delete,
    } by {
        if i < a.len() {
            assert(s[i] == a[i]);
        } else if i < a.len() + b.len() {
            assert(s[i] == b[i - a.len()]);
        } else {
            assert(s[i] == c[i - a.len() - b.len()]);
        }
    }
    assert forall|i: int, j: int| 0 <= i < j < s.len() implies !(#[trigger] s[i] is Delete && #[trigger] s[j] is Membership) by {
        if s[i] is Delete {
            if i < a.len() {
                assert(s[i] == a[i]);
            } else if i < a.len() + b.len() {
                assert(s[i] == b[i - a.len()]);
            }
            assert(j >= a.len() + b.len());
            assert(s[j] == c[j - a.len() - b.len()]);
        }
    }
    assert forall|i: int, j: int| 0 <= i < j < s.len() implies !(#[trigger] s[i] is Membership && #[trigger] s[j] is ListOp) by {
        if s[i] is Membership {
            if i < a.len() {
                assert(s[i] == a[i]);
            } else if i >= a.len() + b.len() {
                assert(s[i] == c[i - a.len() - b.len()]);
            }
            assert(j >= a.len());
            if j < a.len() + b.len() {
                assert(s[j] == b[j - a.len()]);
            } else {
                assert(s[j] == c[j - a.len() - b.len()]);
            }
        }
    }
}


// ---------------------------------------------------------------------
// A run.
/// What one mutation did.
#[derive(Debug)]
pub enum ApplyResult {
    Created { slug: String, github_id: String },
    Updated { slug: String, github_id: String },
    ItemLists { repo: String, lists: Vec<String> },
    Deleted { slug: String },
}

pub enum ApplyResultV {
    Created { slug: Seq<char>, github_id: Seq<char> },
    Updated { slug: Seq<char>, github_id: Seq<char> },
    ItemLists { repo: Seq<char>, lists: Seq<Seq<char>> },
    Deleted { slug: Seq<char> },
}

impl View for ApplyResult {
    type V = ApplyResultV;

    open spec fn view(&self) -> ApplyResultV {
        match self {
            ApplyResult::Created { slug, github_id } => ApplyResultV::Created { slug: slug@, github_id: github_id@ },
            ApplyResult::Updated { slug, github_id } => ApplyResultV::Updated { slug: slug@, github_id: github_id@ },
            ApplyResult::ItemLists { repo, lists } => ApplyResultV::ItemLists { repo: repo@, lists: lists.deep_view() },
            ApplyResult::Deleted { slug } => ApplyResultV::Deleted { slug: slug@ },
        }
    }
}

/// The mutation to perform next.
#[derive(Debug)]
pub enum ApplyAction {
    /// `createUserList`.
    Create { slug: String, name: String, description: Option<String>, is_private: bool },
    /// `updateUserList` on the list with GitHub id `github_id`.
    Update {
        slug: String,
        github_id: String,
        name: Option<String>,
        description: Option<String>,
        is_private: Option<bool>,
    },
    /// `updateUserListsForItem`: the repository's full set of lists.
    SetItemLists { repo: String, repo_node_id: String, list_ids: Vec<String> },
    /// `deleteUserList` when the list is on GitHub; the local list goes either way.
    Delete { slug: String, github_id: Option<String> },
    /// Every step is done; the proposal is marked applied.
    Finish,
}

pub enum ApplyActionV {
    Create { slug: Seq<char>, name: Seq<char>, description: Option<Seq<char>>, is_private: bool },
    Update {
        slug: Seq<char>,
        github_id: Seq<char>,
        name: Option<Seq<char>>,
        description: Option<Seq<char>>,
        is_private: Option<bool>,
    },
    SetItemLists { repo: Seq<char>, repo_node_id: Seq<char>, list_ids: Seq<Seq<char>> },
    Delete { slug: Seq<char>, github_id: Option<Seq<char>> },
    Finish,
}

impl View for ApplyAction {
    type V = ApplyActionV;

    open spec fn view(&self) -> ApplyActionV {
        match self {
            ApplyAction::Create { slug, name, description, is_private } => ApplyActionV::Create {
                slug: slug@,
                name: name@,
                description: description.deep_view(),
                is_private: *is_private,
            },
            ApplyAction::Update { slug, github_id, name, description, is_private } => ApplyActionV::Update {
                slug: slug@,
                github_id: github_id@,
                name: name.deep_view(),
                description: description.deep_view(),
                is_private: *is_private,
            },
            ApplyAction::SetItemLists { repo, repo_node_id, list_ids } => ApplyActionV::SetItemLists {
                repo: repo@,
                repo_node_id: repo_node_id@,
                list_ids: list_ids.deep_view(),
            },
            ApplyAction::Delete { slug, github_id } => ApplyActionV::Delete {
                slug: slug@,
                github_id: github_id.deep_view(),
            },
            ApplyAction::Finish => ApplyActionV::Finish,
        }
    }
}

/// Where an apply run stands: its steps, how many are done, the GitHub ids of the
/// lists it created, and what each mutation did.
#[derive(Debug)]
pub struct ApplyRun {
    steps: Vec<ApplyStep>,
    step: usize,
    created: Vec<(String, String)>,
    results: Vec<ApplyResult>,
}

pub struct ApplyRunV {
    pub steps: Seq<ApplyStep>,
    pub step: nat,
    pub created: Seq<(Seq<char>, Seq<char>)>,
    pub results: Seq<ApplyResultV>,
}

impl View for ApplyRun {
    type V = ApplyRunV;

    closed spec fn view(&self) -> ApplyRunV {
        ApplyRunV {
            steps: self.steps@,
            step: self.step as nat,
            created: self.created@.map_values(|e: (String, String)| (e.0@, e.1@)),
            results: self.results@.map_values(|r: ApplyResult| r@),
        }
    }
}

/// The GitHub id the run gave the list `slug`, if it created it.
pub open spec fn created_id(created: Seq<(Seq<char>, Seq<char>)>, slug: Seq<char>) -> Option<Seq<char>> {
    if has_key(created, slug) {
        Some(created[first_index(created, key_is(slug))].1)
    } else {
        None
    }
}

pub open spec fn missing_id_err(slug: Seq<char>) -> AppErrorV {
    err_v("conflict"@, "missing GitHub id for list "@ + slug)
}

/// The GitHub id a membership sends for list `slug`: a pending list's id comes
/// from the run that created it.
pub open spec fn member_id(slug: Seq<char>, planned: Seq<char>, created: Seq<(Seq<char>, Seq<char>)>) -> Result<
    Seq<char>,
    AppErrorV,
> {
    if has_prefix(planned, "pending:"@) {
        match created_id(created, planned.skip(8)) {
            Some(g) => Ok(g),
            None => match created_id(created, slug) {
                Some(g) => Ok(g),
                None => Err(missing_id_err(slug)),
            },
        }
    } else {
        Ok(planned)
    }
}

/// The GitHub ids of the first `n` lists of a membership.
pub open spec fn member_ids(m: MembershipPlanV, created: Seq<(Seq<char>, Seq<char>)>, n: nat) -> Result<
    Seq<Seq<char>>,
    AppErrorV,
>
    decreases n,
{
    if n == 0 {
        Ok(seq![])
    } else {
        match member_ids(m, created, (n - 1) as nat) {
            Err(e) => Err(e),
            Ok(ids) => match member_id(m.lists[n - 1], m.list_github_ids[n - 1], created) {
                Err(e) => Err(e),
                Ok(g) => Ok(ids.push(g)),
            },
        }
    }
}

pub open spec fn pair_count(m: MembershipPlanV) -> nat {
    if m.lists.len() <= m.list_github_ids.len() {
        m.lists.len()
    } else {
        m.list_github_ids.len()
    }
}

pub open spec fn early_update_err(slug: Seq<char>) -> AppErrorV {
    err_v("conflict"@, "cannot update "@ + slug + " before it exists on GitHub"@)
}

/// The mutation an operation of the plan asks for.
pub open spec fn op_action(op: ListOpV, created: Seq<(Seq<char>, Seq<char>)>) -> Result<ApplyActionV, AppErrorV> {
    match op {
        ListOpV::Create { slug, name, description, is_private } => Ok(
            ApplyActionV::Create { slug, name, description, is_private },
        ),
        ListOpV::Update { slug, github_id, name, description, is_private } => match (match github_id {
            Some(g) => Some(g),
            None => created_id(created, slug),
        }) {
            Some(g) => Ok(ApplyActionV::Update { slug, github_id: g, name, description, is_private }),
            None => Err(early_update_err(slug)),
        },
        ListOpV::Delete { slug, github_id } => Ok(ApplyActionV::Delete { slug, github_id }),
    }
}

/// What a run does next.
pub open spec fn next_action_v(p: PlanV, run: ApplyRunV) -> Result<ApplyActionV, AppErrorV> {
    if run.step >= run.steps.len() {
        Ok(ApplyActionV::Finish)
    } else {
        match run.steps[run.step as int] {
            ApplyStep::ListOp(i) => op_action(p.list_ops[i as int], run.created),
            ApplyStep::Delete(i) => op_action(p.list_ops[i as int], run.created),
            ApplyStep::Membership(k) => {
                let m = p.memberships[k as int];
                match member_ids(m, run.created, pair_count(m)) {
                    Err(e) => Err(e),
                    Ok(ids) => Ok(ApplyActionV::SetItemLists { repo: m.repo, repo_node_id: m.repo_node_id, list_ids: ids }),
                }
            },
        }
    }
}

/// The run after its current step is done and recorded as `result`.
pub open spec fn advanced(run: ApplyRunV, created: Seq<(Seq<char>, Seq<char>)>, result: ApplyResultV) -> ApplyRunV {
    ApplyRunV { steps: run.steps, step: run.step + 1, created, results: run.results.push(result) }
}

impl ApplyRun {
    /// The run fits plan `p` and has steps left or is done.
    pub open spec fn fits(&self, p: PlanV) -> bool {
        &&& self@.steps == schedule_v(p)
        &&& self@.step <= self@.steps.len()
        &&& p.list_ops.len() <= usize::MAX
        &&& p.memberships.len() <= usize::MAX
    }

    /// A run of plan `plan` that has done nothing yet.
    pub fn new(plan: &Plan) -> (r: ApplyRun)
        ensures
            r@ == (ApplyRunV { steps: schedule_v(plan@), step: 0, created: seq![], results: seq![] }),
            r.fits(plan@),
    {
        let r = ApplyRun { steps: apply_steps(plan), step: 0, created: Vec::new(), results: Vec::new() };
        let _ops = plan.list_ops.len();
        let _members = plan.memberships.len();
        assert(r@.created =~= Seq::<(Seq<char>, Seq<char>)>::empty());
        assert(r@.results =~= Seq::<ApplyResultV>::empty());
        assert(plan@.list_ops.len() == plan.list_ops@.len());
        assert(plan@.memberships.len() == plan.memberships@.len());
        r
    }

    /// What each mutation did so far.
    pub fn results(&self) -> (r: &Vec<ApplyResult>)
        ensures
            r@.map_values(|x: ApplyResult| x@) == self@.results,
    {
        &self.results
    }

    fn created_index(&self, slug: &str) -> (r: Option<usize>)
        ensures
            match r {
                Some(i) => i < self@.created.len() && has_key(self@.created, slug@) && first_index(
                    self@.created,
                    key_is(slug@),
                ) == i,
                None => !has_key(self@.created, slug@),
            },
    {
        let ghost cv = self@.created;
        let mut i: usize = 0;
        while i < self.created.len()
            invariant
                cv == self@.created,
                cv.len() == self.created@.len(),
                i <= self.created.len(),
                forall|j: int| 0 <= j < i ==> !(key_is::<Seq<char>>(slug@))(#[trigger] cv[j]),
            decreases self.created.len() - i,
        {
            assert(cv[i as int] == (self.created@[i as int].0@, self.created@[i as int].1@));
            if str_eq(self.created[i].0.as_str(), slug) {
                proof {
                    lemma_first_index_found(cv, key_is(slug@), i as int);
                }
                return Some(i);
            }
            i = i + 1;
        }
        assert forall|j: int| 0 <= j < cv.len() implies cv[j].0 != slug@ by {
            assert(!(key_is::<Seq<char>>(slug@))(cv[j]));
        }
        None
    }

    fn created_github_id(&self, slug: &str) -> (r: Option<String>)
        ensures
            r.deep_view() == created_id(self@.created, slug@),
    {
        match self.created_index(slug) {
            Some(i) => {
                assert(self@.created[i as int] == (self.created@[i as int].0@, self.created@[i as int].1@));
                Some(self.created[i].1.clone())
            },
            None => None,
        }
    }

    fn membership_id(&self, slug: &str, planned: &str) -> (r: Result<String, AppError>)
        ensures
            match r {
                Ok(g) => member_id(slug@, planned@, self@.created) == Ok::<Seq<char>, AppErrorV>(g@),
                Err(e) => member_id(slug@, planned@, self@.created) == Err::<Seq<char>, AppErrorV>(e@),
            },
    {
        if !starts_with(planned, "pending:") {
            return Ok(owned(planned));
        }
        let cs = chars_of(planned);
        proof {
            reveal_strlit("pending:");
        }
        let rest = string_of(&cs, 8, cs.len());
        assert(rest@ =~= planned@.skip(8));
        match self.created_github_id(rest.as_str()) {
            Some(g) => Ok(g),
            None => match self.created_github_id(slug) {
                Some(g) => Ok(g),
                None => Err(error_with("conflict", "missing GitHub id for list ", slug)),
            },
        }
    }

    fn membership_ids(&self, m: &MembershipPlan) -> (r: Result<Vec<String>, AppError>)
        ensures
            match r {
                Ok(ids) => member_ids(m@, self@.created, pair_count(m@)) == Ok::<Seq<Seq<char>>, AppErrorV>(
                    ids.deep_view(),
                ),
                Err(e) => member_ids(m@, self@.created, pair_count(m@)) == Err::<Seq<Seq<char>>, AppErrorV>(e@),
            },
    {
        let n: usize = if m.lists.len() <= m.list_github_ids.len() {
            m.lists.len()
        } else {
            m.list_github_ids.len()
        };
        let mut ids: Vec<String> = Vec::new();
        let mut j: usize = 0;
        assert(ids.deep_view() =~= Seq::<Seq<char>>::empty());
        while j < n
            invariant
                n == pair_count(m@),
                n <= m.lists.len(),
                n <= m.list_github_ids.len(),
                j <= n,
                member_ids(m@, self@.created, j as nat) == Ok::<Seq<Seq<char>>, AppErrorV>(ids.deep_view()),
            decreases n - j,
        {
            match self.membership_id(m.lists[j].as_str(), m.list_github_ids[j].as_str()) {
                Ok(g) => {
                    let ghost iv = ids.deep_view();
                    let ghost gv = g@;
                    ids.push(g);
                    assert(ids.deep_view() =~= iv.push(gv));
                },
                Err(e) => {
                    proof {
                        lemma_member_ids_stop(m@, self@.created, (j + 1) as nat, n as nat);
                    }
                    return Err(e);
                },
            }
            j = j + 1;
        }
        Ok(ids)
    }

    fn op_action(&self, op: &ListOp) -> (r: Result<ApplyAction, AppError>)
        ensures
            match r {
                Ok(a) => op_action(op@, self@.created) == Ok::<ApplyActionV, AppErrorV>(a@),
                Err(e) => op_action(op@, self@.created) == Err::<ApplyActionV, AppErrorV>(e@),
            },
    {
        match op {
            ListOp::Create { slug, name, description, is_private } => Ok(
                ApplyAction::Create {
                    slug: slug.clone(),
                    name: name.clone(),
                    description: crate::db::dup_opt(description),
                    is_private: *is_private,
                },
            ),
            ListOp::Update { slug, github_id, name, description, is_private } => {
                let gid = match github_id {
                    Some(g) => Some(g.clone()),
                    None => self.created_github_id(slug.as_str()),
                };
                match gid {
                    Some(g) => Ok(
                        ApplyAction::Update {
                            slug: slug.clone(),
                            github_id: g,
                            name: crate::db::dup_opt(name),
                            description: crate::db::dup_opt(description),
                            is_private: *is_private,
                        },
                    ),
                    None => {
                        let mut m = owned("cannot update ");
                        push_str(&mut m, slug.as_str());
                        push_str(&mut m, " before it exists on GitHub");
                        Err(AppError::new("conflict", m))
                    },
                }
            },
            ListOp::Delete { slug, github_id } => Ok(
                ApplyAction::Delete { slug: slug.clone(), github_id: crate::db::dup_opt(github_id) },
            ),
        }
    }

    /// The mutation to perform next, or the error that stops the run.
    pub fn next_action(&self, plan: &Plan) -> (r: Result<ApplyAction, AppError>)
        requires
            self.fits(plan@),
        ensures
            match r {
                Ok(a) => next_action_v(plan@, self@) == Ok::<ApplyActionV, AppErrorV>(a@),
                Err(e) => next_action_v(plan@, self@) == Err::<ApplyActionV, AppErrorV>(e@),
            },
    {
        if self.step >= self.steps.len() {
            return Ok(ApplyAction::Finish);
        }
        proof {
            law_apply_deletes_last(plan@);
            assert(self@.steps[self@.step as int] == self.steps@[self.step as int]);
        }
        match self.steps[self.step] {
            ApplyStep::ListOp(i) => {
                assert(plan@.list_ops[i as int] == plan.list_ops@[i as int]@);
                self.op_action(&plan.list_ops[i])
            },
            ApplyStep::Delete(i) => {
                assert(plan@.list_ops[i as int] == plan.list_ops@[i as int]@);
                self.op_action(&plan.list_ops[i])
            },
            ApplyStep::Membership(k) => {
                let m = &plan.memberships[k];
                assert(plan@.memberships[k as int] == m@);
                match self.membership_ids(m) {
                    Err(e) => Err(e),
                    Ok(ids) => Ok(
                        ApplyAction::SetItemLists {
                            repo: m.repo.clone(),
                            repo_node_id: m.repo_node_id.clone(),
                            list_ids: ids,
                        },
                    ),
                }
            },
        }
    }
}

proof fn lemma_member_ids_stop(m: MembershipPlanV, created: Seq<(Seq<char>, Seq<char>)>, k: nat, n: nat)
    requires
        k <= n,
        member_ids(m, created, k) is Err,
    ensures
        member_ids(m, created, n) == member_ids(m, created, k),
    decreases n - k,
{
    if k < n {
        lemma_member_ids_stop(m, created, k, (n - 1) as nat);
    }
}


/// The slug an action is about.
pub open spec fn action_slug(a: ApplyActionV) -> Seq<char> {
    match a {
        ApplyActionV::Create { slug, .. } => slug,
        ApplyActionV::Update { slug, .. } => slug,
        ApplyActionV::Delete { slug, .. } => slug,
        _ => seq![],
    }
}

impl ApplyRun {
    fn advance(&mut self, result: ApplyResult)
        requires
            old(self)@.step < old(self)@.steps.len(),
        ensures
            final(self)@ == advanced(old(self)@, old(self)@.created, result@),
    {
        let ghost rv = result@;
        let ghost before = self@;
        let n = self.steps.len();
        assert(self.step < n);
        self.results.push(result);
        self.step = self.step + 1;
        assert(self@.results =~= before.results.push(rv));
        assert(self@.created =~= before.created);
    }

    /// Records that GitHub created the list the current step asked for, with id
    /// `github_id`: the local list gets the id and becomes synced.
    pub fn record_created(&mut self, plan: &Plan, store: &mut Store, github_id: &str, now: &str) -> (r: Result<(), AppError>)
        requires
            old(self).fits(plan@),
            old(store).wf(),
            next_action_v(plan@, old(self)@) matches Ok(ApplyActionV::Create { .. }),
        ensures
            final(store).wf(),
            final(self).fits(plan@),
            (final(store)@, match r {
                Ok(_) => Ok::<(), AppErrorV>(()),
                Err(e) => Err(e@),
            }) == mark_created_v(old(store)@, action_slug(next_action_v(plan@, old(self)@)->Ok_0), github_id@, now@),
            r is Ok ==> final(self)@ == advanced(
                old(self)@,
                assoc_put(old(self)@.created, action_slug(next_action_v(plan@, old(self)@)->Ok_0), github_id@),
                ApplyResultV::Created { slug: action_slug(next_action_v(plan@, old(self)@)->Ok_0), github_id: github_id@ },
            ),
            r is Err ==> final(self)@ == old(self)@,
    {
        let action = match self.next_action(plan) {
            Ok(a) => a,
            Err(e) => return Err(e),
        };
        let slug = match action {
            ApplyAction::Create { slug, .. } => slug,
            _ => return Ok(()),
        };
        match store.mark_list_created(slug.as_str(), github_id, now) {
            Ok(_) => {},
            Err(e) => return Err(e),
        }
        let ghost before = self@;
        let ghost cv = self@.created;
        match self.created_index(slug.as_str()) {
            Some(i) => {
                self.created.set(i, (slug.clone(), owned(github_id)));
                assert(self@.created =~= cv.update(i as int, (slug@, github_id@)));
            },
            None => {
                self.created.push((slug.clone(), owned(github_id)));
                assert(self@.created =~= cv.push((slug@, github_id@)));
            },
        }
        let ghost mid = self@;
        assert(mid.step == before.step && mid.steps == before.steps && mid.results == before.results);
        self.advance(ApplyResult::Created { slug, github_id: owned(github_id) });
        Ok(())
    }

    /// Records that GitHub updated the list the current step asked for: the local
    /// list becomes synced.
    pub fn record_updated(&mut self, plan: &Plan, store: &mut Store, now: &str)
        requires
            old(self).fits(plan@),
            old(store).wf(),
            next_action_v(plan@, old(self)@) matches Ok(ApplyActionV::Update { .. }),
        ensures
            final(store).wf(),
            final(self).fits(plan@),
            final(store)@ == mark_synced_v(old(store)@, action_slug(next_action_v(plan@, old(self)@)->Ok_0), now@),
            final(self)@ == advanced(
                old(self)@,
                old(self)@.created,
                ApplyResultV::Updated {
                    slug: action_slug(next_action_v(plan@, old(self)@)->Ok_0),
                    github_id: next_action_v(plan@, old(self)@)->Ok_0->Update_github_id,
                },
            ),
    {
        let action = self.next_action(plan);
        match action {
            Ok(ApplyAction::Update { slug, github_id, .. }) => {
                store.mark_list_synced(slug.as_str(), now);
                self.advance(ApplyResult::Updated { slug, github_id });
            },
            _ => {},
        }
    }

    /// Records the lists GitHub says the current step's repository is now in.
    pub fn record_item_lists(&mut self, plan: &Plan, names: Vec<String>)
        requires
            old(self).fits(plan@),
            next_action_v(plan@, old(self)@) matches Ok(ApplyActionV::SetItemLists { .. }),
        ensures
            final(self).fits(plan@),
            final(self)@ == advanced(
                old(self)@,
                old(self)@.created,
                ApplyResultV::ItemLists {
                    repo: next_action_v(plan@, old(self)@)->Ok_0->SetItemLists_repo,
                    lists: names.deep_view(),
                },
            ),
    {
        let action = self.next_action(plan);
        match action {
            Ok(ApplyAction::SetItemLists { repo, .. }) => {
                self.advance(ApplyResult::ItemLists { repo, lists: names });
            },
            _ => {},
        }
    }

    /// Records that the current step's list is gone from GitHub (or never was
    /// there): the local list goes too.
    pub fn record_deleted(&mut self, plan: &Plan, store: &mut Store)
        requires
            old(self).fits(plan@),
            old(store).wf(),
            next_action_v(plan@, old(self)@) matches Ok(ApplyActionV::Delete { .. }),
        ensures
            final(store).wf(),
            final(self).fits(plan@),
            final(store)@ == remove_by_slug_v(old(store)@, action_slug(next_action_v(plan@, old(self)@)->Ok_0)),
            final(self)@ == advanced(
                old(self)@,
                old(self)@.created,
                ApplyResultV::Deleted { slug: action_slug(next_action_v(plan@, old(self)@)->Ok_0) },
            ),
    {
        let action = self.next_action(plan);
        match action {
            Ok(ApplyAction::Delete { slug, .. }) => {
                store.remove_list_by_slug(slug.as_str());
                self.advance(ApplyResult::Deleted { slug });
            },
            _ => {},
        }
    }
}

/// Ends a run whose steps are all done: the proposal `plan_id` is marked applied.
pub fn finish_apply(run: &ApplyRun, plan: &Plan, store: &mut Store, plan_id: &str)
    requires
        run.fits(plan@),
        old(store).wf(),
        next_action_v(plan@, run@) matches Ok(ApplyActionV::Finish),
    ensures
        final(store).wf(),
        final(store)@ == mark_applied_v(old(store)@, plan_id@),
{
    store.mark_proposal_applied(plan_id);
}

/// The error for a plan that would leave more lists on GitHub than the cap.
pub open spec fn over_cap_err(after: nat, max: nat) -> AppErrorV {
    err_v("conflict"@, "apply would leave "@ + decimal(after) + " GitHub lists (cap "@ + decimal(max) + ")"@)
}

/// Apply refuses a plan that would leave more lists on GitHub than the cap.
pub fn check_cap(plan: &Plan) -> (r: Result<(), AppError>)
    ensures
        r is Ok <==> plan@.after_apply <= plan@.max,
        r matches Err(e) ==> e@ == over_cap_err(plan@.after_apply, plan@.max),
{
    if plan.list_cap.after_apply > plan.list_cap.max {
        let mut m = owned("apply would leave ");
        push_str(&mut m, crate::text::usize_text(plan.list_cap.after_apply).as_str());
        push_str(&mut m, " GitHub lists (cap ");
        push_str(&mut m, crate::text::usize_text(plan.list_cap.max).as_str());
        push_str(&mut m, ")");
        Err(AppError::new("conflict", m))
    } else {
        Ok(())
    }
}

} // verus!
