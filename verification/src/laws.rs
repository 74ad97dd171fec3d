//! Properties that hold across the store's operations and the planner, proved
//! over the models the operations' own contracts use.
use vstd::prelude::*;

use crate::db::by_text;
use crate::order::{lemma_sort_by_contains, lemma_sort_by_sorted, sort_by, sorted_by, strict_order};
use crate::proposal::{
    compile_plan_v, create_ops, delete_ops, github_id_of, rename_ops, renames_v, update_ops, updates_v, ListOpV,
    ListUpdateV, creates_v, deletes_v, dedup_v, list_refs, membership_plan_v, membership_plans_v, merges_v,
    MembershipPlanV, MembershipSetV, MergeState, ListCreateV, ProposalFileV, apply_proposal_v, run_steps,
    update_step, removes_remote,
};
use crate::db::{by_name, filter_lists};
use crate::order::{lemma_sort_len};
use crate::db::{lemma_with_list_wf, slug_or_name_is};
use crate::text::parse_i64;
use crate::db::{
    add_all_v, add_membership_v, delete_list_v, id_is, is_tombstone, lemma_resolved_is_stored, list_not,
    list_pair_ok, list_pair_rel, list_with_id, membership_list_not, resolve_list_v, tombstone_edit_err,
    update_list_v, updated_row, with_count, with_list, without_list, count_in_list, memberships_wf, create_base, create_list_v, draft_row, MembershipV, slugs_of, has_list_id, has_repo_id, insert_proposal_v, is_member, key_is, latest_proposal_v,
    listed, mark_applied_v, membership_pair_rel, membership_repo_not, meta_value, proposal_id_is,
    proposal_with_id, set_membership_v, set_meta_v, store_wf, ListRowV, ProposalRowV, StoreV,
    upsert_synced_list_v, lists_wf, github_id_is, list_with_name_ci, name_ci_is,
};
use crate::order::{
    first_index, keep_where, lemma_first_index_found, lemma_first_index_none, lemma_first_index_props,
    lemma_keep_where,
};
use crate::output::AppErrorV;
use crate::apply::{created_id, member_id, member_ids, next_action_v, ApplyActionV, ApplyRunV, ApplyStep};
use crate::proposal::PlanV;
use crate::db::{queried, repo_read, select_repos, starred_before, stars_before, by_starred, StoredRepoV};
use crate::text::has_prefix;
use crate::cmd::{doctor_report_v, doctor_rows};
use crate::config::AppConfig;
use crate::db::Stats;
use crate::ids::{
    is_taken, runs_replaced, runs_replaced_from, slug_char, slug_of, slug_shaped, unicode_lowercase, unique_slug_of,
};
use crate::text::{
    lemma_text_lt_irreflexive, lemma_text_lt_total, lemma_text_lt_transitive, strip_end, strip_start, text_lt, trim,
};

verus! {

/// Code-point order on texts is a strict order.
pub proof fn lemma_by_text_strict()
    ensures
        strict_order(by_text()),
{
    assert forall|a: Seq<char>| !#[trigger] (by_text())(a, a) by {
        lemma_text_lt_irreflexive(a);
    }
    assert forall|a: Seq<char>, b: Seq<char>, c: Seq<char>|
        #[trigger] (by_text())(a, b) && #[trigger] (by_text())(b, c) implies (by_text())(a, c) by {
        lemma_text_lt_transitive(a, b, c);
    }
}

/// Dropping repeats from a sorted sequence leaves a strictly increasing one with
/// the same elements.
pub proof fn lemma_dedup_sorted(s: Seq<Seq<char>>)
    requires
        sorted_by(s, by_text()),
    ensures
        forall|i: int, j: int| 0 <= i < j < dedup_v(s).len() ==> text_lt(#[trigger] dedup_v(s)[i], #[trigger] dedup_v(s)[j]),
        forall|x: Seq<char>| #[trigger] dedup_v(s).contains(x) <==> s.contains(x),
        s.len() > 0 ==> dedup_v(s).len() > 0 && dedup_v(s).last() == s.last(),
    decreases s.len(),
{
    if s.len() > 0 {
        let t = s.drop_last();
        assert(sorted_by(t, by_text())) by {
            assert forall|i: int, j: int| 0 <= i < j < t.len() implies !(by_text())(#[trigger] t[j], #[trigger] t[i]) by {
                assert(t[i] == s[i] && t[j] == s[j]);
            }
        }
        lemma_dedup_sorted(t);
        let d = dedup_v(t);
        let x = s.last();
        if d.len() > 0 && d.last() == x {
            assert forall|y: Seq<char>| #[trigger] dedup_v(s).contains(y) <==> s.contains(y) by {
                if s.contains(y) {
                    let m = choose|m: int| 0 <= m < s.len() && s[m] == y;
                    if m < s.len() - 1 {
                        assert(t[m] == y);
                        assert(t.contains(y));
                    } else {
                        assert(d[d.len() - 1] == y);
                    }
                }
                if d.contains(y) {
                    assert(t.contains(y));
                    let m = choose|m: int| 0 <= m < t.len() && t[m] == y;
                    assert(s[m] == y);
                }
            }
        } else {
            let d2 = d.push(x);
            if t.len() > 0 {
                let last = t.last();
                assert(d.last() == last);
                assert(!text_lt(x, last)) by {
                    assert(!(by_text())(s[s.len() - 1], s[s.len() - 2]));
                }
                assert(last != x);
                lemma_text_lt_total(last, x);
                assert forall|i: int| 0 <= i < d.len() implies text_lt(#[trigger] d[i], x) by {
                    if i < d.len() - 1 {
                        assert(text_lt(d[i], d[d.len() - 1]));
                        lemma_text_lt_transitive(d[i], last, x);
                    }
                }
            }
            assert forall|i: int, j: int| 0 <= i < j < d2.len() implies text_lt(#[trigger] d2[i], #[trigger] d2[j]) by {
                if j == d2.len() - 1 {
                    assert(d2[i] == d[i]);
                } else {
                    assert(d2[i] == d[i] && d2[j] == d[j]);
                }
            }
            assert forall|y: Seq<char>| #[trigger] d2.contains(y) <==> s.contains(y) by {
                if s.contains(y) {
                    let m = choose|m: int| 0 <= m < s.len() && s[m] == y;
                    if m < s.len() - 1 {
                        assert(t[m] == y);
                        assert(t.contains(y));
                        assert(d.contains(y));
                        let i = choose|i: int| 0 <= i < d.len() && d[i] == y;
                        assert(d2[i] == y);
                    } else {
                        assert(d2[d2.len() - 1] == y);
                    }
                }
                if d2.contains(y) {
                    let i = choose|i: int| 0 <= i < d2.len() && d2[i] == y;
                    if i < d.len() {
                        assert(d[i] == y);
                        assert(d.contains(y));
                        assert(t.contains(y));
                        let m = choose|m: int| 0 <= m < t.len() && t[m] == y;
                        assert(s[m] == y);
                    } else {
                        assert(s[s.len() - 1] == y);
                    }
                }
            }
        }
    }
}


/// The membership sets a proposal asks for once its merges are folded in.
pub open spec fn merged_memberships(s: StoreV, p: ProposalFileV) -> Seq<MembershipSetV> {
    merges_v(
        listed(s, true),
        MergeState {
            creates: creates_v(p.lists.create)->Ok_0,
            deletes: deletes_v(p.lists.delete),
            memberships: p.memberships,
        },
        p.lists.merge,
    ).memberships
}

proof fn lemma_list_refs_len(
    lists: Seq<ListRowV>,
    creates: Seq<(Seq<char>, ListCreateV)>,
    slugs: Seq<Seq<char>>,
    repo: Seq<char>,
)
    requires
        list_refs(lists, creates, slugs, repo) is Ok,
    ensures
        list_refs(lists, creates, slugs, repo)->Ok_0.len() == slugs.len(),
    decreases slugs.len(),
{
    if slugs.len() > 0 {
        lemma_list_refs_len(lists, creates, slugs.drop_last(), repo);
    }
}

proof fn lemma_plans_each(
    s: StoreV,
    lists: Seq<ListRowV>,
    creates: Seq<(Seq<char>, ListCreateV)>,
    ms: Seq<MembershipSetV>,
)
    requires
        membership_plans_v(s, lists, creates, ms) is Ok,
    ensures
        membership_plans_v(s, lists, creates, ms)->Ok_0.len() == ms.len(),
        forall|k: int|
            0 <= k < ms.len() ==> membership_plan_v(s, lists, creates, #[trigger] ms[k]) == Ok::<MembershipPlanV, AppErrorV>(
                membership_plans_v(s, lists, creates, ms)->Ok_0[k],
            ),
    decreases ms.len(),
{
    if ms.len() > 0 {
        let t = ms.drop_last();
        lemma_plans_each(s, lists, creates, t);
        assert forall|k: int| 0 <= k < ms.len() implies membership_plan_v(s, lists, creates, #[trigger] ms[k])
            == Ok::<MembershipPlanV, AppErrorV>(membership_plans_v(s, lists, creates, ms)->Ok_0[k]) by {
            if k < ms.len() - 1 {
                assert(ms[k] == t[k]);
            }
        }
    }
}

/// Each repository a plan names is sent every list it should be in, once each and
/// in code-point order, with one GitHub id (or pending marker) per list: the full
/// set that `updateUserListsForItem` replaces the old one with.
pub proof fn law_plan_sends_full_sorted_sets(s: StoreV, id: Seq<char>, p: ProposalFileV)
    requires
        compile_plan_v(s, id, p) is Ok,
    ensures
        compile_plan_v(s, id, p)->Ok_0.memberships.len() == merged_memberships(s, p).len(),
        forall|k: int, i: int, j: int|
            0 <= k < merged_memberships(s, p).len() && 0 <= i < j < compile_plan_v(s, id, p)->Ok_0.memberships[k].lists.len()
                ==> text_lt(
                #[trigger] compile_plan_v(s, id, p)->Ok_0.memberships[k].lists[i],
                #[trigger] compile_plan_v(s, id, p)->Ok_0.memberships[k].lists[j],
            ),
        forall|k: int, x: Seq<char>|
            0 <= k < merged_memberships(s, p).len() ==> (#[trigger] compile_plan_v(s, id, p)->Ok_0.memberships[k].lists.contains(x)
                <==> merged_memberships(s, p)[k].lists.contains(x)),
        forall|k: int|
            0 <= k < merged_memberships(s, p).len() ==> (#[trigger] compile_plan_v(s, id, p)->Ok_0.memberships[k]).list_github_ids.len()
                == compile_plan_v(s, id, p)->Ok_0.memberships[k].lists.len(),
{
    let lists = listed(s, true);
    let c0 = creates_v(p.lists.create)->Ok_0;
    let st = merges_v(
        lists,
        MergeState { creates: c0, deletes: deletes_v(p.lists.delete), memberships: p.memberships },
        p.lists.merge,
    );
    let ms = st.memberships;
    assert(ms == merged_memberships(s, p));
    assert(membership_plans_v(s, lists, st.creates, ms) is Ok);
    let ps = membership_plans_v(s, lists, st.creates, ms)->Ok_0;
    assert(compile_plan_v(s, id, p)->Ok_0.memberships == ps);
    lemma_plans_each(s, lists, st.creates, ms);
    lemma_by_text_strict();
    assert forall|k: int| 0 <= k < ms.len() implies {
        &&& forall|i: int, j: int| 0 <= i < j < ps[k].lists.len() ==> text_lt(#[trigger] ps[k].lists[i], #[trigger] ps[k].lists[j])
        &&& forall|x: Seq<char>| #[trigger] ps[k].lists.contains(x) <==> ms[k].lists.contains(x)
        &&& ps[k].list_github_ids.len() == ps[k].lists.len()
    } by {
        assert(membership_plan_v(s, lists, st.creates, ms[k]) == Ok::<MembershipPlanV, AppErrorV>(ps[k]));
        let sorted = sort_by(ms[k].lists, by_text());
        lemma_sort_by_sorted(ms[k].lists, by_text());
        lemma_sort_by_contains(ms[k].lists, by_text());
        lemma_dedup_sorted(sorted);
        assert(ps[k].lists == dedup_v(sorted));
        lemma_list_refs_len(lists, st.creates, dedup_v(sorted), ms[k].repo);
    }
}


// ---------------------------------------------------------------------
// Memberships.
proof fn lemma_add_membership_effect(s: StoreV, repo_id: i64, list_id: i64, source: Seq<char>)
    ensures
        (add_membership_v(s, repo_id, list_id, source).1 is Ok) == (has_repo_id(s, repo_id) && has_list_id(s, list_id)),
        add_membership_v(s, repo_id, list_id, source).0.lists == s.lists,
        add_membership_v(s, repo_id, list_id, source).0.repos == s.repos,
        forall|r: i64, l: i64|
            #[trigger] is_member(add_membership_v(s, repo_id, list_id, source).0.memberships, r, l) == (is_member(
                s.memberships,
                r,
                l,
            ) || (add_membership_v(s, repo_id, list_id, source).1 is Ok && r == repo_id && l == list_id)),
{
    let out = add_membership_v(s, repo_id, list_id, source);
    let ms = s.memberships;
    let ns = out.0.memberships;
    if out.1 is Ok {
        if is_member(ms, repo_id, list_id) {
            assert forall|r: i64, l: i64| #[trigger] is_member(ns, r, l) == (is_member(ms, r, l) || (r == repo_id && l == list_id)) by {
                if is_member(ns, r, l) {
                    let i = choose|i: int| 0 <= i < ns.len() && ns[i].repo_id == r && ns[i].list_id == l;
                    assert(ms[i].repo_id == r && ms[i].list_id == l);
                }
                if is_member(ms, r, l) {
                    let i = choose|i: int| 0 <= i < ms.len() && ms[i].repo_id == r && ms[i].list_id == l;
                    assert(ns[i].repo_id == r && ns[i].list_id == l);
                }
            }
        } else {
            assert forall|r: i64, l: i64| #[trigger] is_member(ns, r, l) == (is_member(ms, r, l) || (r == repo_id && l == list_id)) by {
                if is_member(ns, r, l) {
                    let i = choose|i: int| 0 <= i < ns.len() && ns[i].repo_id == r && ns[i].list_id == l;
                    if i < ms.len() {
                        assert(ms[i].repo_id == r && ms[i].list_id == l);
                    }
                }
                if is_member(ms, r, l) {
                    let i = choose|i: int| 0 <= i < ms.len() && ms[i].repo_id == r && ms[i].list_id == l;
                    assert(ns[i].repo_id == r && ns[i].list_id == l);
                }
                if r == repo_id && l == list_id {
                    assert(ns[ms.len() as int].repo_id == r && ns[ms.len() as int].list_id == l);
                }
            }
        }
    }
}

proof fn lemma_add_all_effect(s: StoreV, repo_id: i64, ids: Seq<i64>, source: Seq<char>)
    ensures
        (add_all_v(s, repo_id, ids, source).1 is Ok) == (ids.len() == 0 || (has_repo_id(s, repo_id) && forall|i: int|
            0 <= i < ids.len() ==> has_list_id(s, #[trigger] ids[i]))),
        add_all_v(s, repo_id, ids, source).0.lists == s.lists,
        add_all_v(s, repo_id, ids, source).0.repos == s.repos,
        add_all_v(s, repo_id, ids, source).1 is Ok ==> forall|r: i64, l: i64|
            #[trigger] is_member(add_all_v(s, repo_id, ids, source).0.memberships, r, l) == (is_member(
                s.memberships,
                r,
                l,
            ) || (r == repo_id && ids.contains(l))),
    decreases ids.len(),
{
    if ids.len() > 0 {
        let t = ids.drop_last();
        lemma_add_all_effect(s, repo_id, t, source);
        let prev = add_all_v(s, repo_id, t, source);
        lemma_add_membership_effect(prev.0, repo_id, ids.last(), source);
        assert(has_list_id(prev.0, ids.last()) == has_list_id(s, ids.last()));
        assert(has_repo_id(prev.0, repo_id) == has_repo_id(s, repo_id));
        if add_all_v(s, repo_id, ids, source).1 is Ok {
            assert forall|i: int| 0 <= i < ids.len() implies has_list_id(s, #[trigger] ids[i]) by {
                if i < ids.len() - 1 {
                    assert(t[i] == ids[i]);
                }
            }
            assert forall|r: i64, l: i64|
                #[trigger] is_member(add_all_v(s, repo_id, ids, source).0.memberships, r, l) == (is_member(s.memberships, r, l)
                    || (r == repo_id && ids.contains(l))) by {
                if ids.contains(l) && l != ids.last() {
                    let i = choose|i: int| 0 <= i < ids.len() && ids[i] == l;
                    assert(t[i] == l);
                    assert(t.contains(l));
                }
                if t.contains(l) {
                    let i = choose|i: int| 0 <= i < t.len() && t[i] == l;
                    assert(ids[i] == l);
                }
                if l == ids.last() {
                    assert(ids[ids.len() - 1] == l);
                }
            }
        } else {
            if prev.1 is Ok {
                assert(!has_repo_id(s, repo_id) || !has_list_id(s, ids.last()));
                if has_repo_id(s, repo_id) {
                    assert(!has_list_id(s, ids[ids.len() - 1]));
                }
            } else {
                if has_repo_id(s, repo_id) && t.len() > 0 {
                    let i = choose|i: int| 0 <= i < t.len() && !has_list_id(s, #[trigger] t[i]);
                    assert(ids[i] == t[i]);
                }
            }
        }
    }
}

/// `set_membership` replaces a repository's lists by exactly the given ones and
/// leaves every other repository's lists alone. It succeeds when there are no
/// lists to set, or when the repository and every list exist.
pub proof fn law_set_membership_replaces(s: StoreV, repo_id: i64, ids: Seq<i64>, source: Seq<char>)
    requires
        store_wf(s),
    ensures
        (set_membership_v(s, repo_id, ids, source).1 is Ok) == (ids.len() == 0 || (has_repo_id(s, repo_id) && forall|i: int|
            0 <= i < ids.len() ==> has_list_id(s, #[trigger] ids[i]))),
        set_membership_v(s, repo_id, ids, source).1 is Ok ==> forall|l: i64|
            #[trigger] is_member(set_membership_v(s, repo_id, ids, source).0.memberships, repo_id, l) == ids.contains(l),
        set_membership_v(s, repo_id, ids, source).1 is Ok ==> forall|r: i64, l: i64|
            r != repo_id ==> #[trigger] is_member(set_membership_v(s, repo_id, ids, source).0.memberships, r, l)
                == is_member(s.memberships, r, l),
{
    let kept = keep_where(s.memberships, membership_repo_not(repo_id));
    let s1 = StoreV { memberships: kept, ..s };
    lemma_keep_where(s.memberships, membership_repo_not(repo_id), membership_pair_rel());
    assert forall|r: i64, l: i64| #[trigger] is_member(kept, r, l) == (is_member(s.memberships, r, l) && r != repo_id) by {
        if is_member(kept, r, l) {
            let i = choose|i: int| 0 <= i < kept.len() && kept[i].repo_id == r && kept[i].list_id == l;
            assert((membership_repo_not(repo_id))(kept[i]));
            let a = choose|a: int| 0 <= a < s.memberships.len() && s.memberships[a] == kept[i];
        }
        if is_member(s.memberships, r, l) && r != repo_id {
            let a = choose|a: int| 0 <= a < s.memberships.len() && s.memberships[a].repo_id == r && s.memberships[a].list_id == l;
            assert((membership_repo_not(repo_id))(s.memberships[a]));
            let i = choose|i: int| 0 <= i < kept.len() && kept[i] == s.memberships[a];
        }
    }
    lemma_add_all_effect(s1, repo_id, ids, source);
    assert(has_repo_id(s1, repo_id) == has_repo_id(s, repo_id));
    assert(forall|l: i64| has_list_id(s1, l) == has_list_id(s, l));
}


// ---------------------------------------------------------------------
// Metadata and proposals.
/// Reading a metadata key gives back what was last written under it, and writing
/// one key leaves the others as they were.
pub proof fn law_meta_read_after_write(s: StoreV, key: Seq<char>, value: Seq<char>, other: Seq<char>)
    ensures
        meta_value(set_meta_v(s, key, value), key) == Some(value),
        other != key ==> meta_value(set_meta_v(s, key, value), other) == meta_value(s, other),
{
    let old = s.meta;
    let new = set_meta_v(s, key, value).meta;
    let found = exists|i: int| 0 <= i < old.len() && old[i].key == key;
    assert(forall|j: int| 0 <= j < old.len() ==> #[trigger] new[j].key == old[j].key);
    assert(forall|j: int| 0 <= j < old.len() && old[j].key != key ==> #[trigger] new[j] == old[j]);
    lemma_first_index_props(old, key_is(key));
    let f = first_index(old, key_is(key));
    if found {
        let w = choose|i: int| 0 <= i < old.len() && old[i].key == key;
        assert((key_is(key))(old[w]));
        assert(f >= 0);
        assert forall|j: int| 0 <= j < f implies !(key_is(key))(#[trigger] new[j]) by {
            assert(!(key_is(key))(old[j]));
        }
        lemma_first_index_found(new, key_is(key), f);
    } else {
        assert forall|j: int| 0 <= j < old.len() implies !(key_is(key))(#[trigger] new[j]) by {
            assert(!(key_is(key))(old[j]));
        }
        lemma_first_index_found(new, key_is(key), old.len() as int);
    }
    if other != key {
        lemma_first_index_props(old, key_is(other));
        let g = first_index(old, key_is(other));
        if g >= 0 {
            assert forall|j: int| 0 <= j < g implies !(key_is(other))(#[trigger] new[j]) by {
                assert(!(key_is(other))(old[j]));
            }
            lemma_first_index_found(new, key_is(other), g);
        } else {
            assert forall|j: int| 0 <= j < new.len() implies !(key_is(other))(#[trigger] new[j]) by {
                if j < old.len() {
                    assert(!(key_is(other))(old[j]));
                }
            }
            lemma_first_index_none(new, key_is(other));
        }
    }
}

/// A proposal id can be imported once; once imported, it is found by its id and
/// is the latest proposal, as a draft holding what was imported.
pub proof fn law_insert_then_get_proposal(
    s: StoreV,
    id: Seq<char>,
    notes: Option<Seq<char>>,
    source_path: Option<Seq<char>>,
    raw_json: Seq<char>,
    now: Seq<char>,
)
    ensures
        (insert_proposal_v(s, id, notes, source_path, raw_json, now).1 is Ok) == (proposal_with_id(s, id) is None),
        insert_proposal_v(s, id, notes, source_path, raw_json, now).1 is Ok ==> {
            let row = ProposalRowV { id, created_at: now, notes, status: "draft"@, source_path, raw_json };
            &&& proposal_with_id(insert_proposal_v(s, id, notes, source_path, raw_json, now).0, id) == Some(row)
            &&& latest_proposal_v(insert_proposal_v(s, id, notes, source_path, raw_json, now).0) == Some(row)
        },
{
    if proposal_with_id(s, id) is None {
        let row = ProposalRowV { id, created_at: now, notes, status: "draft"@, source_path, raw_json };
        let s1 = StoreV { proposals: s.proposals.push(row), ..s };
        let s2 = insert_proposal_v(s, id, notes, source_path, raw_json, now).0;
        assert(s2 == set_meta_v(s1, "last_proposal_id"@, id));
        assert(s2.proposals == s1.proposals);
        lemma_first_index_props(s.proposals, proposal_id_is(id));
        assert forall|j: int| 0 <= j < s.proposals.len() implies !(proposal_id_is(id))(#[trigger] s1.proposals[j]) by {
            assert(s1.proposals[j] == s.proposals[j]);
        }
        lemma_first_index_found(s1.proposals, proposal_id_is(id), s.proposals.len() as int);
        law_meta_read_after_write(s1, "last_proposal_id"@, id, "last_proposal_id"@);
    }
}

/// Marking a proposal applied changes only its status.
pub proof fn law_mark_applied(s: StoreV, id: Seq<char>)
    requires
        proposal_with_id(s, id) is Some,
    ensures
        proposal_with_id(mark_applied_v(s, id), id) == Some(ProposalRowV { status: "applied"@, ..proposal_with_id(s, id)->0 }),
{
    let old = s.proposals;
    let new = mark_applied_v(s, id).proposals;
    lemma_first_index_props(old, proposal_id_is(id));
    let f = first_index(old, proposal_id_is(id));
    assert forall|j: int| 0 <= j < f implies !(proposal_id_is(id))(#[trigger] new[j]) by {
        assert(!(proposal_id_is(id))(old[j]));
    }
    lemma_first_index_found(new, proposal_id_is(id), f);
}


// ---------------------------------------------------------------------
// Lists.
/// A created list is a draft, not on GitHub, with no repositories, under a slug
/// no stored list had; it joins the store after the lists already there. A
/// failed create leaves the store as it was.
pub proof fn law_create_list_makes_draft(
    s: StoreV,
    name: Seq<char>,
    slug: Option<Seq<char>>,
    description: Option<Seq<char>>,
    is_private: bool,
    now: Seq<char>,
)
    requires
        store_wf(s),
    ensures
        create_list_v(s, name, slug, description, is_private, now).1 is Err ==> create_list_v(
            s,
            name,
            slug,
            description,
            is_private,
            now,
        ).0 == s,
        create_list_v(s, name, slug, description, is_private, now).1 matches Ok(row) ==> {
            &&& row.status == "draft"@
            &&& row.github_id is None
            &&& row.repo_count == 0
            &&& row.name == name
            &&& !is_taken(slugs_of(s.lists), row.slug)
            &&& row.slug == unique_slug_of(create_base(name, slug), slugs_of(s.lists))
            &&& create_list_v(s, name, slug, description, is_private, now).0.lists == s.lists.push(row)
        },
{
    let base = create_base(name, slug);
    let out = create_list_v(s, name, slug, description, is_private, now);
    if out.1 is Ok {
        let row = draft_row(s, unique_slug_of(base, slugs_of(s.lists)), name, description, is_private, now);
        let s2 = out.0;
        assert(count_in_list(s2.memberships, row.id) == 0) by {
            assert forall|i: int| 0 <= i < s2.memberships.len() implies (#[trigger] s2.memberships[i]).list_id != row.id by {
                assert(s2.memberships == s.memberships);
                assert(memberships_wf(s));
                assert(0 <= i < s.memberships.len());
                let m = s.memberships[i];
                assert(has_repo_id(s, m.repo_id));
                assert(has_list_id(s, s.memberships[i].list_id));
                let k = choose|k: int| 0 <= k < s.lists.len() && s.lists[k].id == s.memberships[i].list_id;
                assert(s.lists[k].id <= s.list_seq);
            }
            lemma_no_members_no_count(s2.memberships, row.id);
        }
    }
}

proof fn lemma_no_members_no_count(ms: Seq<MembershipV>, id: i64)
    requires
        forall|i: int| 0 <= i < ms.len() ==> (#[trigger] ms[i]).list_id != id,
    ensures
        count_in_list(ms, id) == 0,
    decreases ms.len(),
{
    if ms.len() > 0 {
        lemma_no_members_no_count(ms.drop_last(), id);
    }
}


/// The stored list with `l`'s id, once replaced by `new` (same id), reads as `new`.
proof fn lemma_with_list_reads_back(s: StoreV, l: ListRowV, new: ListRowV)
    requires
        store_wf(s),
        exists|k: int| 0 <= k < s.lists.len() && s.lists[k].id == l.id,
        new.id == l.id,
    ensures
        list_with_id(with_list(s, new), l.id) == Some(with_count(with_list(s, new), new)),
{
    let k = choose|k: int| 0 <= k < s.lists.len() && s.lists[k].id == l.id;
    let ls = with_list(s, new).lists;
    assert forall|j: int| 0 <= j < k implies !(id_is(l.id))(#[trigger] ls[j]) by {
        assert(list_pair_ok(s.lists[j], s.lists[k]));
    }
    lemma_first_index_found(ls, id_is(l.id), k);
}

/// Editing a list: a tombstoned list refuses with a conflict and the store stays
/// as it was; any other list keeps its id, slug and GitHub id, takes the new
/// values, and a synced one becomes dirty.
pub proof fn law_update_list(
    s: StoreV,
    spec: Seq<char>,
    name: Option<Seq<char>>,
    description: Option<Option<Seq<char>>>,
    is_private: Option<bool>,
    now: Seq<char>,
)
    requires
        store_wf(s),
    ensures
        update_list_v(s, spec, name, description, is_private, now).1 is Err ==> update_list_v(
            s,
            spec,
            name,
            description,
            is_private,
            now,
        ).0 == s,
        resolve_list_v(s, spec) matches Ok(l) ==> (is_tombstone(l) ==> update_list_v(
            s,
            spec,
            name,
            description,
            is_private,
            now,
        ).1 == Err::<ListRowV, AppErrorV>(tombstone_edit_err())),
        resolve_list_v(s, spec) matches Ok(l) ==> (!is_tombstone(l) ==> (update_list_v(
            s,
            spec,
            name,
            description,
            is_private,
            now,
        ).1 matches Ok(row) && {
            &&& row.id == l.id
            &&& row.slug == l.slug
            &&& row.github_id == l.github_id
            &&& row.status == (if l.status == "synced"@ {
                "dirty"@
            } else {
                l.status
            })
            &&& list_with_id(update_list_v(s, spec, name, description, is_private, now).0, l.id) == Some(row)
        })),
{
    lemma_resolved_is_stored(s, spec);
    if resolve_list_v(s, spec) is Ok {
        let l = resolve_list_v(s, spec)->Ok_0;
        if !is_tombstone(l) {
            let k = choose|k: int| 0 <= k < s.lists.len() && l == with_count(s, #[trigger] s.lists[k]);
            assert(s.lists[k].id == l.id);
            lemma_with_list_reads_back(s, l, updated_row(l, name, description, is_private, now));
        }
    }
}

/// Deleting a list: a draft that never reached GitHub goes away with its
/// memberships; any other list stays as a tombstone until apply deletes it on
/// GitHub.
pub proof fn law_delete_list(s: StoreV, spec: Seq<char>, now: Seq<char>)
    requires
        store_wf(s),
    ensures
        delete_list_v(s, spec, now).1 is Err ==> delete_list_v(s, spec, now).0 == s,
        resolve_list_v(s, spec) matches Ok(l) ==> (l.github_id is None && l.status == "draft"@ ==> {
            &&& delete_list_v(s, spec, now).1 == Ok::<ListRowV, AppErrorV>(l)
            &&& !has_list_id(delete_list_v(s, spec, now).0, l.id)
            &&& forall|i: int|
                0 <= i < delete_list_v(s, spec, now).0.memberships.len() ==> (#[trigger] delete_list_v(
                    s,
                    spec,
                    now,
                ).0.memberships[i]).list_id != l.id
        }),
        resolve_list_v(s, spec) matches Ok(l) ==> (!(l.github_id is None && l.status == "draft"@) ==> (delete_list_v(
            s,
            spec,
            now,
        ).1 matches Ok(row) && row.status == "tombstone"@ && row.id == l.id && list_with_id(
            delete_list_v(s, spec, now).0,
            l.id,
        ) == Some(row))),
{
    lemma_resolved_is_stored(s, spec);
    if resolve_list_v(s, spec) is Ok {
        let l = resolve_list_v(s, spec)->Ok_0;
        let k = choose|k: int| 0 <= k < s.lists.len() && l == with_count(s, #[trigger] s.lists[k]);
        assert(s.lists[k].id == l.id);
        if l.github_id is None && l.status == "draft"@ {
            let s2 = without_list(s, l.id);
            lemma_keep_where(s.lists, list_not(l.id), list_pair_rel());
            lemma_keep_where(s.memberships, membership_list_not(l.id), membership_pair_rel());
            assert forall|i: int| 0 <= i < s2.lists.len() implies (#[trigger] s2.lists[i]).id != l.id by {
                assert((list_not(l.id))(s2.lists[i]));
            }
            assert forall|i: int| 0 <= i < s2.memberships.len() implies (#[trigger] s2.memberships[i]).list_id != l.id by {
                assert((membership_list_not(l.id))(s2.memberships[i]));
            }
        } else {
            let row = ListRowV { status: "tombstone"@, updated_at: now, ..l };
            lemma_with_list_reads_back(s, l, row);
        }
    }
}


// ---------------------------------------------------------------------
// Plans.
proof fn lemma_create_ops_skip_remote(lists: Seq<ListRowV>, cs: Seq<(Seq<char>, ListCreateV)>)
    ensures
        forall|i: int|
            0 <= i < create_ops(lists, cs).0.len() ==> (#[trigger] create_ops(lists, cs).0[i] matches ListOpV::Create {
                slug,
                ..
            } && github_id_of(lists, slug) is None),
        create_ops(lists, cs).0.len() + create_ops(lists, cs).1.len() == cs.len(),
    decreases cs.len(),
{
    if cs.len() > 0 {
        lemma_create_ops_skip_remote(lists, cs.drop_last());
    }
}

proof fn lemma_update_ops_are_updates(
    lists: Seq<ListRowV>,
    creates: Seq<(Seq<char>, ListCreateV)>,
    rs: Seq<(Seq<char>, Seq<char>)>,
    us: Seq<(Seq<char>, ListUpdateV)>,
)
    ensures
        rename_ops(lists, creates, rs) is Ok ==> forall|i: int|
            0 <= i < rename_ops(lists, creates, rs)->Ok_0.len() ==> #[trigger] rename_ops(lists, creates, rs)->Ok_0[i] is Update,
        update_ops(lists, creates, us) is Ok ==> forall|i: int|
            0 <= i < update_ops(lists, creates, us)->Ok_0.len() ==> #[trigger] update_ops(lists, creates, us)->Ok_0[i] is Update,
    decreases rs.len() + us.len(),
{
    if rs.len() > 0 {
        lemma_update_ops_are_updates(lists, creates, rs.drop_last(), us);
    }
    if us.len() > 0 {
        lemma_update_ops_are_updates(lists, creates, rs, us.drop_last());
    }
}

/// A plan never creates a list that is already on GitHub; it warns about each
/// such create instead.
pub proof fn law_plan_skips_remote_creates(s: StoreV, id: Seq<char>, p: ProposalFileV)
    requires
        compile_plan_v(s, id, p) is Ok,
    ensures
        forall|i: int|
            0 <= i < compile_plan_v(s, id, p)->Ok_0.list_ops.len() ==> (#[trigger] compile_plan_v(s, id, p)->Ok_0.list_ops[i] matches ListOpV::Create {
                slug,
                ..
            } ==> github_id_of(listed(s, true), slug) is None),
{
    let lists = listed(s, true);
    let c0 = creates_v(p.lists.create)->Ok_0;
    let st = merges_v(
        lists,
        MergeState { creates: c0, deletes: deletes_v(p.lists.delete), memberships: p.memberships },
        p.lists.merge,
    );
    let cw = create_ops(lists, st.creates);
    let rops = rename_ops(lists, st.creates, renames_v(p.lists.rename))->Ok_0;
    let uops = update_ops(lists, st.creates, updates_v(p.lists.update))->Ok_0;
    let dops = delete_ops(lists, st.deletes);
    let ops = compile_plan_v(s, id, p)->Ok_0.list_ops;
    assert(ops == cw.0 + rops + uops + dops);
    lemma_create_ops_skip_remote(lists, st.creates);
    lemma_update_ops_are_updates(lists, st.creates, renames_v(p.lists.rename), updates_v(p.lists.update));
    assert forall|i: int| 0 <= i < ops.len() implies (#[trigger] ops[i] matches ListOpV::Create { slug, .. }
        ==> github_id_of(lists, slug) is None) by {
        if i < cw.0.len() {
            assert(ops[i] == cw.0[i]);
        } else if i < cw.0.len() + rops.len() {
            assert(ops[i] == rops[i - cw.0.len()]);
        } else if i < cw.0.len() + rops.len() + uops.len() {
            assert(ops[i] == uops[i - cw.0.len() - rops.len()]);
        } else {
            assert(ops[i] == dops[i - cw.0.len() - rops.len() - uops.len()]);
        }
    }
}


proof fn lemma_runs_replaced_shape(s: Seq<char>, in_run: bool)
    ensures
        ({
            let r = runs_replaced_from(s, "-"@, in_run);
            &&& forall|i: int| 0 <= i < r.len() ==> slug_char(#[trigger] r[i]) || r[i] == '-'
            &&& forall|i: int| 0 <= i < r.len() - 1 ==> !(#[trigger] r[i] == '-' && r[i + 1] == '-')
            &&& (in_run && r.len() > 0) ==> r[0] != '-'
        }),
    decreases s.len(),
{
    reveal_strlit("-");
    if s.len() > 0 {
        let rest_run = !slug_char(s[0]);
        lemma_runs_replaced_shape(s.drop_first(), rest_run);
        let t = runs_replaced_from(s.drop_first(), "-"@, rest_run);
        let r = runs_replaced_from(s, "-"@, in_run);
        if slug_char(s[0]) {
            assert(r =~= seq![s[0]] + t);
            assert forall|i: int| 0 <= i < r.len() - 1 implies !(#[trigger] r[i] == '-' && r[i + 1] == '-') by {
                if i > 0 {
                    assert(r[i] == t[i - 1] && r[i + 1] == t[i]);
                }
            }
            assert forall|i: int| 0 <= i < r.len() implies slug_char(#[trigger] r[i]) || r[i] == '-' by {
                if i > 0 {
                    assert(r[i] == t[i - 1]);
                }
            }
        } else if in_run {
            assert(r == t);
        } else {
            assert(r =~= seq!['-'] + t);
            assert forall|i: int| 0 <= i < r.len() - 1 implies !(#[trigger] r[i] == '-' && r[i + 1] == '-') by {
                if i > 0 {
                    assert(r[i] == t[i - 1] && r[i + 1] == t[i]);
                } else {
                    assert(r[1] == t[0]);
                }
            }
            assert forall|i: int| 0 <= i < r.len() implies slug_char(#[trigger] r[i]) || r[i] == '-' by {
                if i > 0 {
                    assert(r[i] == t[i - 1]);
                }
            }
        }
    }
}

proof fn lemma_strip_start_skip(s: Seq<char>, c: char)
    ensures
        exists|k: int| 0 <= k <= s.len() && strip_start(s, c) == #[trigger] s.skip(k),
        strip_start(s, c).len() > 0 ==> strip_start(s, c)[0] != c,
    decreases s.len(),
{
    if s.len() > 0 && s[0] == c {
        lemma_strip_start_skip(s.drop_first(), c);
        let k = choose|k: int| 0 <= k <= s.drop_first().len() && strip_start(s.drop_first(), c) == #[trigger] s.drop_first().skip(k);
        assert(s.drop_first().skip(k) =~= s.skip(k + 1));
    } else {
        assert(s.skip(0) =~= s);
    }
}

proof fn lemma_strip_end_take(s: Seq<char>, c: char)
    ensures
        exists|k: int| 0 <= k <= s.len() && strip_end(s, c) == #[trigger] s.take(k),
        strip_end(s, c).len() > 0 ==> strip_end(s, c).last() != c,
    decreases s.len(),
{
    if s.len() > 0 && s.last() == c {
        lemma_strip_end_take(s.drop_last(), c);
        let k = choose|k: int| 0 <= k <= s.drop_last().len() && strip_end(s.drop_last(), c) == #[trigger] s.drop_last().take(k);
        assert(s.drop_last().take(k) =~= s.take(k));
    } else {
        assert(s.take(s.len() as int) =~= s);
    }
}

/// Every slug `slugify` makes holds only `a-z`, `0-9` and `-`, neither starts nor
/// ends with `-`, and never has two `-` in a row, whatever the name.
pub proof fn law_slug_shape(name: Seq<char>)
    ensures
        slug_shaped(slug_of(name)),
{
    let r = runs_replaced(unicode_lowercase(trim(name)), "-"@);
    lemma_runs_replaced_shape(unicode_lowercase(trim(name)), false);
    lemma_strip_start_skip(r, '-');
    let a = strip_start(r, '-');
    let k = choose|k: int| 0 <= k <= r.len() && a == #[trigger] r.skip(k);
    assert forall|i: int| 0 <= i < a.len() implies slug_char(#[trigger] a[i]) || a[i] == '-' by {
        assert(a[i] == r[i + k]);
    }
    assert forall|i: int| 0 <= i < a.len() - 1 implies !(#[trigger] a[i] == '-' && a[i + 1] == '-') by {
        assert(a[i] == r[i + k] && a[i + 1] == r[i + 1 + k]);
    }
    lemma_strip_end_take(a, '-');
    let b = strip_end(a, '-');
    let j = choose|j: int| 0 <= j <= a.len() && b == #[trigger] a.take(j);
    assert forall|i: int| 0 <= i < b.len() implies slug_char(#[trigger] b[i]) || b[i] == '-' by {
        assert(b[i] == a[i]);
    }
    assert forall|i: int| 0 <= i < b.len() - 1 implies !(#[trigger] b[i] == '-' && b[i + 1] == '-') by {
        assert(b[i] == a[i] && b[i + 1] == a[i + 1]);
    }
    if b.len() > 0 {
        assert(b[0] == a[0]);
    }
    assert(slug_of(name) == b);
}


/// Replacing the list at `k` by itself leaves the store as it was.
proof fn lemma_with_list_same(s: StoreV, k: int)
    requires
        lists_wf(s.lists, s.list_seq),
        0 <= k < s.lists.len(),
    ensures
        with_list(s, s.lists[k]) == s,
{
    let ls = with_list(s, s.lists[k]).lists;
    assert forall|j: int| 0 <= j < s.lists.len() implies ls[j] == s.lists[j] by {
        if j < k {
            assert(list_pair_ok(s.lists[j], s.lists[k]));
        } else if j > k {
            assert(list_pair_ok(s.lists[k], s.lists[j]));
        }
    }
    assert(ls =~= s.lists);
}

/// Recording the same GitHub list twice does what recording it once does: the
/// second call returns the same local id and changes nothing, and afterwards
/// exactly one stored list carries that GitHub id.
pub proof fn law_upsert_synced_list_idempotent(
    s: StoreV,
    github_id: Seq<char>,
    name: Seq<char>,
    description: Option<Seq<char>>,
    is_private: bool,
    github_slug: Option<Seq<char>>,
    now: Seq<char>,
)
    requires
        store_wf(s),
    ensures
        ({
            let (s1, r1) = upsert_synced_list_v(s, github_id, name, description, is_private, github_slug, now);
            &&& upsert_synced_list_v(s1, github_id, name, description, is_private, github_slug, now) == (s1, r1)
            &&& r1 matches Ok(id) ==> exists|k: int|
                0 <= k < s1.lists.len() && s1.lists[k].id == id && s1.lists[k].github_id == Some(github_id)
                    && forall|j: int| 0 <= j < s1.lists.len() && #[trigger] s1.lists[j].github_id == Some(github_id) ==> j == k
        }),
{
    let out = upsert_synced_list_v(s, github_id, name, description, is_private, github_slug, now);
    let s1 = out.0;
    let p = github_id_is(github_id);
    lemma_first_index_props(s.lists, p);
    let k0 = first_index(s.lists, p);
    if k0 >= 0 {
        let l = with_count(s, s.lists[k0]);
        let new = if l.status == "synced"@ {
            ListRowV { name, description, is_private, updated_at: now, ..l }
        } else {
            ListRowV { github_id: Some(github_id), updated_at: now, ..l }
        };
        assert(s1 == with_list(s, new));
        assert forall|j: int| 0 <= j < s.lists.len() && j != k0 implies #[trigger] s1.lists[j] == s.lists[j]
            && s.lists[j].github_id != Some(github_id) by {
            if j < k0 {
                assert(list_pair_ok(s.lists[j], s.lists[k0]));
            } else {
                assert(list_pair_ok(s.lists[k0], s.lists[j]));
            }
        }
        assert(s1.lists[k0] == new);
        lemma_first_index_found(s1.lists, p, k0);
        assert(lists_wf(s1.lists, s1.list_seq)) by {
            assert forall|i: int, j: int| 0 <= i < j < s1.lists.len() implies list_pair_ok(s1.lists[i], s1.lists[j]) by {
                assert(list_pair_ok(s.lists[i], s.lists[j]));
            }
            assert forall|i: int| 0 <= i < s1.lists.len() implies 1 <= #[trigger] s1.lists[i].id <= s1.list_seq by {
                assert(1 <= s.lists[i].id <= s.list_seq);
            }
        }
        assert(with_count(s1, new) == new);
        lemma_with_list_same(s1, k0);
    } else {
        let by_name = list_with_name_ci(s, name);
        if by_name is Some && by_name->0.github_id is None {
            let q = name_ci_is(name);
            lemma_first_index_props(s.lists, q);
            let kn = first_index(s.lists, q);
            let l = by_name->0;
            let new = ListRowV {
                github_id: Some(github_id),
                name,
                description,
                is_private,
                status: "synced"@,
                updated_at: now,
                ..l
            };
            assert(s1 == with_list(s, new));
            assert forall|j: int| 0 <= j < s.lists.len() && j != kn implies #[trigger] s1.lists[j] == s.lists[j] by {
                if j < kn {
                    assert(list_pair_ok(s.lists[j], s.lists[kn]));
                } else {
                    assert(list_pair_ok(s.lists[kn], s.lists[j]));
                }
            }
            assert(s1.lists[kn] == new);
            assert forall|j: int| 0 <= j < s1.lists.len() && #[trigger] s1.lists[j].github_id == Some(github_id) implies j == kn by {
                if j != kn {
                    assert(!p(s.lists[j]));
                }
            }
            assert forall|j: int| 0 <= j < kn implies !p(#[trigger] s1.lists[j]) by {
                assert(!p(s.lists[j]));
            }
            lemma_first_index_found(s1.lists, p, kn);
            assert(lists_wf(s1.lists, s1.list_seq)) by {
                assert forall|i: int, j: int| 0 <= i < j < s1.lists.len() implies list_pair_ok(s1.lists[i], s1.lists[j]) by {
                    assert(list_pair_ok(s.lists[i], s.lists[j]));
                }
                assert forall|i: int| 0 <= i < s1.lists.len() implies 1 <= #[trigger] s1.lists[i].id <= s1.list_seq by {
                    assert(1 <= s.lists[i].id <= s.list_seq);
                }
            }
            assert(with_count(s1, new) == new);
            lemma_with_list_same(s1, kn);
        } else if out.1 is Ok {
            let n = s.lists.len();
            let row = s1.lists[n as int];
            assert(s1.lists == s.lists.push(row));
            assert forall|j: int| 0 <= j < n implies !p(#[trigger] s1.lists[j]) by {
                assert(s1.lists[j] == s.lists[j]);
                assert(!p(s.lists[j]));
            }
            lemma_first_index_found(s1.lists, p, n as int);
            assert(count_in_list(s1.memberships, row.id) == 0) by {
                assert forall|i: int| 0 <= i < s1.memberships.len() implies (#[trigger] s1.memberships[i]).list_id != row.id by {
                    assert(has_repo_id(s, s.memberships[i].repo_id));
                    assert(has_list_id(s, s.memberships[i].list_id));
                    let k = choose|k: int| 0 <= k < s.lists.len() && s.lists[k].id == s.memberships[i].list_id;
                    assert(s.lists[k].id <= s.list_seq);
                }
                lemma_no_members_no_count(s1.memberships, row.id);
            }
            assert(with_count(s1, row) == row);
            assert(lists_wf(s1.lists, s1.list_seq)) by {
                assert forall|i: int, j: int| 0 <= i < j < s1.lists.len() implies list_pair_ok(s1.lists[i], s1.lists[j]) by {
                    if j < n {
                        assert(list_pair_ok(s.lists[i], s.lists[j]));
                    } else {
                        assert(s.lists[i].id <= s.list_seq);
                        assert(!p(s.lists[i]));
                        if s.lists[i].slug == row.slug {
                            assert(slugs_of(s.lists)[i] == row.slug);
                        }
                    }
                }
                assert forall|i: int| 0 <= i < s1.lists.len() implies 1 <= #[trigger] s1.lists[i].id <= s1.list_seq by {
                    if i < n {
                        assert(1 <= s.lists[i].id <= s.list_seq);
                    }
                }
            }
            lemma_with_list_same(s1, n as int);
        }
    }
}


/// `doctor` prints nothing of the token itself: two settings with the same paths
/// and token source, each holding a token or each holding none, give the same
/// table and the same report, whatever the tokens are.
pub proof fn law_doctor_hides_token(
    c1: AppConfig,
    c2: AppConfig,
    version: Seq<char>,
    db_exists: bool,
    login: Option<Seq<char>>,
    last_snapshot: Option<Seq<char>>,
    stats: Option<Stats>,
)
    requires
        c1.paths == c2.paths,
        c1.token_source == c2.token_source,
        c1.token is Some <==> c2.token is Some,
    ensures
        doctor_rows(c1, version, db_exists, login, last_snapshot) == doctor_rows(
            c2,
            version,
            db_exists,
            login,
            last_snapshot,
        ),
        doctor_report_v(c1, version, db_exists, login, last_snapshot, stats) == doctor_report_v(
            c2,
            version,
            db_exists,
            login,
            last_snapshot,
            stats,
        ),
{
}


/// `g` is the GitHub id of a list the run created.
pub open spec fn is_created_id(created: Seq<(Seq<char>, Seq<char>)>, g: Seq<char>) -> bool {
    exists|j: int| 0 <= j < created.len() && created[j].1 == g
}

proof fn lemma_member_ids_pairs(m: MembershipPlanV, created: Seq<(Seq<char>, Seq<char>)>, n: nat)
    requires
        n <= m.lists.len(),
        n <= m.list_github_ids.len(),
    ensures
        match member_ids(m, created, n) {
            Ok(ids) => {
                &&& ids.len() == n
                &&& forall|i: int| 0 <= i < n ==> {
                    &&& !has_prefix(m.list_github_ids[i], "pending:"@) ==> #[trigger] ids[i] == m.list_github_ids[i]
                    &&& has_prefix(m.list_github_ids[i], "pending:"@) ==> is_created_id(created, ids[i])
                }
            },
            Err(_) => exists|i: int| 0 <= i < n && has_prefix(#[trigger] m.list_github_ids[i], "pending:"@),
        },
    decreases n,
{
    if n > 0 {
        lemma_member_ids_pairs(m, created, (n - 1) as nat);
        let planned = m.list_github_ids[n - 1];
        let slug = m.lists[n - 1];
        match member_ids(m, created, (n - 1) as nat) {
            Err(_) => {
                let i = choose|i: int| 0 <= i < n - 1 && has_prefix(#[trigger] m.list_github_ids[i], "pending:"@);
                assert(0 <= i < n && has_prefix(m.list_github_ids[i], "pending:"@));
            },
            Ok(ids) => {
                if has_prefix(planned, "pending:"@) {
                    lemma_first_index_props(created, crate::proposal::key_is::<Seq<char>>(planned.skip(8)));
                    lemma_first_index_props(created, crate::proposal::key_is::<Seq<char>>(slug));
                    match member_id(slug, planned, created) {
                        Ok(g) => {
                            let ids2 = ids.push(g);
                            assert(member_ids(m, created, n) == Ok::<Seq<Seq<char>>, AppErrorV>(ids2));
                            let j = if created_id(created, planned.skip(8)) is Some {
                                first_index(created, crate::proposal::key_is::<Seq<char>>(planned.skip(8)))
                            } else {
                                first_index(created, crate::proposal::key_is::<Seq<char>>(slug))
                            };
                            assert(0 <= j < created.len() && created[j].1 == g);
                            assert forall|i: int| 0 <= i < n implies {
                                &&& !has_prefix(m.list_github_ids[i], "pending:"@) ==> #[trigger] ids2[i]
                                    == m.list_github_ids[i]
                                &&& has_prefix(m.list_github_ids[i], "pending:"@) ==> is_created_id(created, ids2[i])
                            } by {
                                if i < n - 1 {
                                    assert(ids2[i] == ids[i]);
                                } else {
                                    assert(created[j].1 == ids2[i]);
                                }
                            }
                        },
                        Err(_) => {
                            assert(has_prefix(m.list_github_ids[n - 1], "pending:"@));
                        },
                    }
                } else {
                    let ids2 = ids.push(planned);
                    assert(member_ids(m, created, n) == Ok::<Seq<Seq<char>>, AppErrorV>(ids2));
                    assert forall|i: int| 0 <= i < n implies {
                        &&& !has_prefix(m.list_github_ids[i], "pending:"@) ==> #[trigger] ids2[i]
                            == m.list_github_ids[i]
                        &&& has_prefix(m.list_github_ids[i], "pending:"@) ==> is_created_id(created, ids2[i])
                    } by {
                        if i < n - 1 {
                            assert(ids2[i] == ids[i]);
                        }
                    }
                }
            },
        }
    }
}

/// At a membership step an apply run sends the repository every list of its
/// planned set: one id per pair of the membership's slugs and GitHub ids, each
/// planned id as it is and each pending one as the id of a list the run created.
/// It fails only when a pending list has no id.
pub proof fn law_membership_sends_every_pair(p: PlanV, run: ApplyRunV, k: usize)
    requires
        run.step < run.steps.len(),
        run.steps[run.step as int] == ApplyStep::Membership(k),
        k < p.memberships.len(),
    ensures
        ({
            let m = p.memberships[k as int];
            let n = if m.lists.len() <= m.list_github_ids.len() {
                m.lists.len()
            } else {
                m.list_github_ids.len()
            };
            match next_action_v(p, run) {
                Ok(ApplyActionV::SetItemLists { repo, repo_node_id, list_ids }) => {
                    &&& repo == m.repo
                    &&& repo_node_id == m.repo_node_id
                    &&& list_ids.len() == n
                    &&& forall|i: int| 0 <= i < n ==> {
                        &&& !has_prefix(m.list_github_ids[i], "pending:"@) ==> #[trigger] list_ids[i]
                            == m.list_github_ids[i]
                        &&& has_prefix(m.list_github_ids[i], "pending:"@) ==> is_created_id(run.created, list_ids[i])
                    }
                },
                Ok(_) => false,
                Err(_) => exists|i: int| 0 <= i < n && has_prefix(#[trigger] m.list_github_ids[i], "pending:"@),
            }
        }),
{
    let m = p.memberships[k as int];
    let n = if m.lists.len() <= m.list_github_ids.len() {
        m.lists.len()
    } else {
        m.list_github_ids.len()
    };
    lemma_member_ids_pairs(m, run.created, n);
}

/// Repositories as listed and searched come newest star first: no repository
/// starred later follows one starred earlier, and those never starred come last.
pub proof fn law_repos_newest_star_first(
    s: StoreV,
    list: Option<i64>,
    unlisted: bool,
    query: Option<Seq<char>>,
    limit: nat,
)
    ensures
        ({
            let r = queried(s, list, unlisted, query, limit);
            forall|i: int, j: int| 0 <= i < j < r.len() ==> {
                &&& #[trigger] r[i].starred_at is None ==> #[trigger] r[j].starred_at is None
                &&& r[i].starred_at matches Some(x) ==> (r[j].starred_at matches Some(y) ==> !text_lt(x, y))
            }
        }),
{
    lemma_starred_strict();
    let sel = select_repos(s, s.repos, list, unlisted, query);
    let sorted = sort_by(sel, by_starred());
    lemma_sort_by_sorted(sel, by_starred());
    let all = sorted.map_values(|x: StoredRepoV| repo_read(s, x));
    let r = queried(s, list, unlisted, query, limit);
    assert forall|i: int, j: int| 0 <= i < j < r.len() implies {
        &&& #[trigger] r[i].starred_at is None ==> #[trigger] r[j].starred_at is None
        &&& r[i].starred_at matches Some(x) ==> (r[j].starred_at matches Some(y) ==> !text_lt(x, y))
    } by {
        assert(r[i] == all[i] && r[j] == all[j]);
        assert(!starred_before(sorted[j], sorted[i]));
        if let (Some(x), Some(y)) = (r[i].starred_at, r[j].starred_at) {
            if x == y {
                lemma_text_lt_irreflexive(x);
            }
        }
    }
}

proof fn lemma_stars_before_strict()
    ensures
        forall|a: Option<i64>| !#[trigger] stars_before(a, a),
        forall|a: Option<i64>, b: Option<i64>, c: Option<i64>|
            #[trigger] stars_before(a, b) && #[trigger] stars_before(b, c) ==> stars_before(a, c),
{
}

/// `ORDER BY starred_at DESC, stars DESC` is a strict order.
proof fn lemma_starred_strict()
    ensures
        strict_order(by_starred()),
{
    lemma_stars_before_strict();
    assert forall|a: StoredRepoV| !#[trigger] (by_starred())(a, a) by {
        if let Some(x) = a.repo.starred_at {
            assert(x == x);
        }
    }
    assert forall|a: StoredRepoV, b: StoredRepoV, c: StoredRepoV|
        #[trigger] (by_starred())(a, b) && #[trigger] (by_starred())(b, c) implies (by_starred())(a, c) by {
        match (a.repo.starred_at, b.repo.starred_at, c.repo.starred_at) {
            (Some(x), Some(y), Some(z)) => {
                if x != y && y != z {
                    lemma_text_lt_transitive(z, y, x);
                    if x == z {
                        lemma_text_lt_irreflexive(x);
                    }
                }
            },
            _ => {},
        }
    }
}


/// Recording a list GitHub already has linked locally keeps its local id and
/// leaves every other list alone. When the local list is synced it takes GitHub's
/// name, description and privacy; when it has local edits it keeps them.
pub proof fn law_upsert_synced_list_follows_github(
    s: StoreV,
    github_id: Seq<char>,
    name: Seq<char>,
    description: Option<Seq<char>>,
    is_private: bool,
    github_slug: Option<Seq<char>>,
    now: Seq<char>,
    k: int,
)
    requires
        store_wf(s),
        0 <= k < s.lists.len(),
        s.lists[k].github_id == Some(github_id),
    ensures
        ({
            let (s1, r) = upsert_synced_list_v(s, github_id, name, description, is_private, github_slug, now);
            &&& r == Ok::<i64, AppErrorV>(s.lists[k].id)
            &&& s1.lists.len() == s.lists.len()
            &&& forall|j: int| 0 <= j < s.lists.len() && j != k ==> #[trigger] s1.lists[j] == s.lists[j]
            &&& s1.lists[k].id == s.lists[k].id
            &&& s1.lists[k].slug == s.lists[k].slug
            &&& s1.lists[k].github_id == Some(github_id)
            &&& s1.lists[k].status == s.lists[k].status
            &&& s1.lists[k].updated_at == now
            &&& s.lists[k].status == "synced"@ ==> {
                &&& s1.lists[k].name == name
                &&& s1.lists[k].description == description
                &&& s1.lists[k].is_private == is_private
            }
            &&& s.lists[k].status != "synced"@ ==> {
                &&& s1.lists[k].name == s.lists[k].name
                &&& s1.lists[k].description == s.lists[k].description
                &&& s1.lists[k].is_private == s.lists[k].is_private
            }
        }),
{
    let p = github_id_is(github_id);
    assert forall|j: int| 0 <= j < k implies !p(#[trigger] s.lists[j]) by {
        assert(list_pair_ok(s.lists[j], s.lists[k]));
    }
    lemma_first_index_found(s.lists, p, k);
    let out = upsert_synced_list_v(s, github_id, name, description, is_private, github_slug, now);
    let l = with_count(s, s.lists[k]);
    assert forall|j: int| 0 <= j < s.lists.len() && j != k implies #[trigger] out.0.lists[j] == s.lists[j] by {
        if j < k {
            assert(list_pair_ok(s.lists[j], s.lists[k]));
        } else {
            assert(list_pair_ok(s.lists[k], s.lists[j]));
        }
    }
}


proof fn lemma_first_index_same<A>(a: Seq<A>, b: Seq<A>, p: spec_fn(A) -> bool)
    requires
        a.len() == b.len(),
        forall|j: int| 0 <= j < a.len() ==> p(#[trigger] a[j]) == p(b[j]),
    ensures
        first_index(a, p) == first_index(b, p),
{
    lemma_first_index_props(a, p);
    lemma_first_index_props(b, p);
    let f = first_index(a, p);
    if f >= 0 {
        assert forall|j: int| 0 <= j < f implies !p(#[trigger] b[j]) by {
            assert(!p(a[j]));
        }
        lemma_first_index_found(b, p, f);
    } else {
        assert forall|j: int| 0 <= j < b.len() implies !p(#[trigger] b[j]) by {
            assert(!p(a[j]));
        }
        lemma_first_index_none(b, p);
    }
}

/// An update that leaves the name alone keeps the store well formed, and the text
/// it was given still resolves, now to the updated list.
proof fn lemma_update_resolves_again(
    s: StoreV,
    spec: Seq<char>,
    description: Option<Option<Seq<char>>>,
    is_private: Option<bool>,
    now: Seq<char>,
)
    requires
        store_wf(s),
        update_list_v(s, spec, None, description, is_private, now).1 is Ok,
    ensures
        store_wf(update_list_v(s, spec, None, description, is_private, now).0),
        resolve_list_v(update_list_v(s, spec, None, description, is_private, now).0, spec)
            == update_list_v(s, spec, None, description, is_private, now).1,
{
    let l = resolve_list_v(s, spec)->Ok_0;
    lemma_resolved_is_stored(s, spec);
    let k = choose|k: int| 0 <= k < s.lists.len() && l == with_count(s, #[trigger] s.lists[k]);
    let row = updated_row(l, None, description, is_private, now);
    let s2 = with_list(s, row);
    assert forall|i: int| 0 <= i < s.lists.len() && #[trigger] s.lists[i].id == row.id implies i == k by {
        if i < k {
            assert(list_pair_ok(s.lists[i], s.lists[k]));
        } else if i > k {
            assert(list_pair_ok(s.lists[k], s.lists[i]));
        }
    }
    lemma_with_list_wf(s, row);
    assert forall|j: int| 0 <= j < s.lists.len() implies {
        &&& #[trigger] s2.lists[j].id == s.lists[j].id
        &&& s2.lists[j].github_id == s.lists[j].github_id
        &&& s2.lists[j].slug == s.lists[j].slug
        &&& s2.lists[j].name == s.lists[j].name
        &&& (s.lists[j].id == row.id ==> s2.lists[j] == row)
    } by {
        if s.lists[j].id == row.id {
            assert(j == k);
        }
    }
    let t = trim(spec);
    if parse_i64(t) is Some {
        let x = parse_i64(t)->0;
        lemma_first_index_same(s.lists, s2.lists, id_is(x));
        lemma_first_index_props(s.lists, id_is(x));
    }
    lemma_first_index_same(s.lists, s2.lists, github_id_is(t));
    lemma_first_index_props(s.lists, github_id_is(t));
    lemma_first_index_same(s.lists, s2.lists, slug_or_name_is(t));
    lemma_first_index_props(s.lists, slug_or_name_is(t));
}

proof fn lemma_updates_keep_wf(s: StoreV, log: Seq<Seq<char>>, us: Seq<ListUpdateV>, now: Seq<char>)
    requires
        store_wf(s),
    ensures
        store_wf(run_steps(s, log, us, update_step(now)).0),
    decreases us.len(),
{
    if us.len() > 0 {
        lemma_updates_keep_wf(s, log, us.drop_last(), now);
        let prev = run_steps(s, log, us.drop_last(), update_step(now));
        if prev.1 is Ok {
            let u = us.last();
            let d = match u.description {
                Some(x) => Some(Some(x)),
                None => None,
            };
            if update_list_v(prev.0, u.slug, None, d, u.is_private, now).1 is Ok {
                lemma_update_resolves_again(prev.0, u.slug, d, u.is_private, now);
            }
        }
    }
}

/// Applying a proposal's list updates locally gives each list what the last
/// update names: resolving that update's slug afterwards finds a list with the
/// privacy and description the update set.
pub proof fn law_local_update_sets_values(s: StoreV, p: ProposalFileV, now: Seq<char>)
    requires
        store_wf(s),
        p.lists.create.len() == 0,
        p.lists.rename.len() == 0,
        p.lists.merge.len() == 0,
        p.lists.delete.len() == 0,
        p.memberships.len() == 0,
        p.lists.update.len() > 0,
        apply_proposal_v(s, p, now).1 is Ok,
    ensures
        ({
            let u = p.lists.update.last();
            let after = apply_proposal_v(s, p, now).0;
            &&& resolve_list_v(after, u.slug) is Ok
            &&& u.is_private matches Some(b) ==> resolve_list_v(after, u.slug)->Ok_0.is_private == b
            &&& u.description matches Some(d) ==> resolve_list_v(after, u.slug)->Ok_0.description == Some(d)
        }),
{
    let us = p.lists.update;
    let u = us.last();
    let updated = run_steps(s, seq![], us, update_step(now));
    assert(apply_proposal_v(s, p, now) == updated);
    let prev = run_steps(s, seq![], us.drop_last(), update_step(now));
    lemma_updates_keep_wf(s, seq![], us.drop_last(), now);
    let d = match u.description {
        Some(x) => Some(Some(x)),
        None => None,
    };
    assert(prev.1 is Ok);
    assert(update_list_v(prev.0, u.slug, None, d, u.is_private, now).1 is Ok);
    lemma_update_resolves_again(prev.0, u.slug, d, u.is_private, now);
}


/// A stored list with slug `slug` is on GitHub: it has a GitHub id and is not
/// tombstoned.
pub open spec fn stored_on_github(s: StoreV, slug: Seq<char>) -> bool {
    exists|i: int|
        0 <= i < s.lists.len() && #[trigger] s.lists[i].slug == slug && s.lists[i].github_id is Some
            && s.lists[i].status != "tombstone"@
}

pub open spec fn is_create_op() -> spec_fn(ListOpV) -> bool {
    |op: ListOpV| op is Create
}

/// A delete of a list that is on GitHub.
pub open spec fn removes_github_list(s: StoreV) -> spec_fn(ListOpV) -> bool {
    |op: ListOpV|
        match op {
            ListOpV::Delete { slug, .. } => stored_on_github(s, slug),
            _ => false,
        }
}

proof fn lemma_keep_add<A>(a: Seq<A>, b: Seq<A>, p: spec_fn(A) -> bool)
    ensures
        keep_where(a + b, p).len() == keep_where(a, p).len() + keep_where(b, p).len(),
    decreases b.len(),
{
    if b.len() == 0 {
        assert(a + b =~= a);
    } else {
        lemma_keep_add(a, b.drop_last(), p);
        assert((a + b).drop_last() =~= a + b.drop_last());
        assert((a + b).last() == b.last());
    }
}

proof fn lemma_keep_none<A>(a: Seq<A>, p: spec_fn(A) -> bool)
    requires
        forall|i: int| 0 <= i < a.len() ==> !p(#[trigger] a[i]),
    ensures
        keep_where(a, p).len() == 0,
    decreases a.len(),
{
    if a.len() > 0 {
        assert forall|i: int| 0 <= i < a.drop_last().len() implies !p(#[trigger] a.drop_last()[i]) by {
            assert(a.drop_last()[i] == a[i]);
        }
        lemma_keep_none(a.drop_last(), p);
        assert(!p(a[a.len() - 1]));
    }
}

proof fn lemma_keep_all<A>(a: Seq<A>, p: spec_fn(A) -> bool)
    requires
        forall|i: int| 0 <= i < a.len() ==> p(#[trigger] a[i]),
    ensures
        keep_where(a, p).len() == a.len(),
    decreases a.len(),
{
    if a.len() > 0 {
        assert forall|i: int| 0 <= i < a.drop_last().len() implies p(#[trigger] a.drop_last()[i]) by {
            assert(a.drop_last()[i] == a[i]);
        }
        lemma_keep_all(a.drop_last(), p);
        assert(p(a[a.len() - 1]));
    }
}

proof fn lemma_create_ops_create(lists: Seq<ListRowV>, cs: Seq<(Seq<char>, ListCreateV)>)
    ensures
        forall|i: int| 0 <= i < create_ops(lists, cs).0.len() ==> #[trigger] create_ops(lists, cs).0[i] is Create,
    decreases cs.len(),
{
    if cs.len() > 0 {
        lemma_create_ops_create(lists, cs.drop_last());
    }
}

proof fn lemma_rename_ops_update(
    lists: Seq<ListRowV>,
    cs: Seq<(Seq<char>, ListCreateV)>,
    rs: Seq<(Seq<char>, Seq<char>)>,
)
    ensures
        rename_ops(lists, cs, rs) matches Ok(ops) ==> forall|i: int| 0 <= i < ops.len() ==> #[trigger] ops[i] is Update,
    decreases rs.len(),
{
    if rs.len() > 0 {
        lemma_rename_ops_update(lists, cs, rs.drop_last());
    }
}

proof fn lemma_update_ops_update(
    lists: Seq<ListRowV>,
    cs: Seq<(Seq<char>, ListCreateV)>,
    us: Seq<(Seq<char>, ListUpdateV)>,
)
    ensures
        update_ops(lists, cs, us) matches Ok(ops) ==> forall|i: int| 0 <= i < ops.len() ==> #[trigger] ops[i] is Update,
    decreases us.len(),
{
    if us.len() > 0 {
        lemma_update_ops_update(lists, cs, us.drop_last());
    }
}

proof fn lemma_filter_lists_all(ls: Seq<ListRowV>)
    ensures
        filter_lists(ls, true) == ls,
    decreases ls.len(),
{
    if ls.len() > 0 {
        lemma_filter_lists_all(ls.drop_last());
        assert(ls.drop_last().push(ls.last()) =~= ls);
    }
}

/// A deleted slug names a list on GitHub, read through the listing the planner
/// uses, exactly when the store holds that slug on GitHub.
proof fn lemma_removes_remote_stored(s: StoreV, slug: Seq<char>)
    requires
        store_wf(s),
    ensures
        (removes_remote(listed(s, true)))(slug) == stored_on_github(s, slug),
{
    lemma_filter_lists_all(s.lists);
    let sorted = sort_by(s.lists, by_name());
    lemma_sort_len(s.lists, by_name());
    lemma_sort_by_contains(s.lists, by_name());
    let lists = listed(s, true);
    assert(lists == sorted.map_values(|l: ListRowV| with_count(s, l)));
    let p = crate::db::slug_is(slug);
    lemma_first_index_props(lists, p);
    let f = first_index(lists, p);
    if f >= 0 {
        assert(sorted.contains(sorted[f]));
        assert(s.lists.contains(sorted[f]));
        let i = choose|i: int| 0 <= i < s.lists.len() && s.lists[i] == sorted[f];
        assert(lists[f] == with_count(s, s.lists[i]));
        if stored_on_github(s, slug) {
            let i2 = choose|i2: int|
                0 <= i2 < s.lists.len() && #[trigger] s.lists[i2].slug == slug && s.lists[i2].github_id is Some
                    && s.lists[i2].status != "tombstone"@;
            if i2 < i {
                assert(list_pair_ok(s.lists[i2], s.lists[i]));
            } else if i2 > i {
                assert(list_pair_ok(s.lists[i], s.lists[i2]));
            }
        }
    } else if stored_on_github(s, slug) {
        let i2 = choose|i2: int|
            0 <= i2 < s.lists.len() && #[trigger] s.lists[i2].slug == slug && s.lists[i2].github_id is Some
                && s.lists[i2].status != "tombstone"@;
        assert(s.lists.contains(s.lists[i2]));
        assert(sorted.contains(s.lists[i2]));
        let q = choose|q: int| 0 <= q < sorted.len() && sorted[q] == s.lists[i2];
        assert(lists[q] == with_count(s, s.lists[i2]));
        assert(p(lists[q]));
    }
}

proof fn lemma_keep_deletes(s: StoreV, lists: Seq<ListRowV>, ds: Seq<Seq<char>>)
    requires
        store_wf(s),
        lists == listed(s, true),
    ensures
        keep_where(delete_ops(lists, ds), removes_github_list(s)).len() == keep_where(ds, removes_remote(lists)).len(),
        keep_where(delete_ops(lists, ds), is_create_op()).len() == 0,
    decreases ds.len(),
{
    if ds.len() > 0 {
        lemma_keep_deletes(s, lists, ds.drop_last());
        assert(delete_ops(lists, ds).drop_last() =~= delete_ops(lists, ds.drop_last()));
        lemma_removes_remote_stored(s, ds.last());
    }
}

/// The cap count of a plan: the lists left on GitHub after apply are those on
/// GitHub now, plus each list the plan creates, less each delete of a stored list
/// that has a GitHub id and is not tombstoned. Deleting a draft never counts.
pub proof fn law_cap_counts_github_deletes(s: StoreV, id: Seq<char>, p: ProposalFileV)
    requires
        store_wf(s),
        compile_plan_v(s, id, p) is Ok,
    ensures
        ({
            let plan = compile_plan_v(s, id, p)->Ok_0;
            let c = keep_where(plan.list_ops, is_create_op()).len();
            let r = keep_where(plan.list_ops, removes_github_list(s)).len();
            plan.current_remote + c <= usize::MAX ==> plan.after_apply == if plan.current_remote + c >= r {
                (plan.current_remote + c - r) as nat
            } else {
                0
            }
        }),
{
    let lists = listed(s, true);
    let c0 = creates_v(p.lists.create)->Ok_0;
    let st = merges_v(
        lists,
        MergeState { creates: c0, deletes: deletes_v(p.lists.delete), memberships: p.memberships },
        p.lists.merge,
    );
    let cw = create_ops(lists, st.creates);
    let rops = rename_ops(lists, st.creates, renames_v(p.lists.rename))->Ok_0;
    let uops = update_ops(lists, st.creates, updates_v(p.lists.update))->Ok_0;
    let dops = delete_ops(lists, st.deletes);
    let plan = compile_plan_v(s, id, p)->Ok_0;
    assert(plan.list_ops == cw.0 + rops + uops + dops);
    lemma_create_ops_create(lists, st.creates);
    lemma_rename_ops_update(lists, st.creates, renames_v(p.lists.rename));
    lemma_update_ops_update(lists, st.creates, updates_v(p.lists.update));
    lemma_keep_deletes(s, lists, st.deletes);
    let pc = is_create_op();
    let pr = removes_github_list(s);
    lemma_keep_add(cw.0 + rops + uops, dops, pc);
    lemma_keep_add(cw.0 + rops, uops, pc);
    lemma_keep_add(cw.0, rops, pc);
    lemma_keep_add(cw.0 + rops + uops, dops, pr);
    lemma_keep_add(cw.0 + rops, uops, pr);
    lemma_keep_add(cw.0, rops, pr);
    lemma_keep_all(cw.0, pc);
    lemma_keep_none(cw.0, pr);
    lemma_keep_none(rops, pc);
    lemma_keep_none(rops, pr);
    lemma_keep_none(uops, pc);
    lemma_keep_none(uops, pr);
}

} // verus!
