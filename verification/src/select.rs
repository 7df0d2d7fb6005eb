//! Selection of what may be indexed: the versions whose own status and whose
//! project's status allow it, each with its project and the name of the
//! project's owner.

use crate::order::{ascending, lemma_ascending_unique};
use crate::records::{entry_views, EntryView, VisibleEntry};
use crate::text::{
    contains_text, lemma_text_before_asymmetric, lemma_text_before_total,
    lemma_text_before_transitive, opt_text, text_before, text_lt, texts,
};
use vstd::prelude::*;
use vstd::string::*;

verus! {

/// Which statuses let a version be indexed.
#[derive(Debug, Clone, PartialEq, Eq)]
pub struct VisibilityPolicy {
    /// The statuses of a project with which it can be searched for.
    pub searchable_project_statuses: Vec<String>,
    /// The statuses of a version with which it stays hidden.
    pub hidden_version_statuses: Vec<String>,
}

impl VisibilityPolicy {
    /// A version is visible when its project's status is a searchable one
    /// and its own status is not a hidden one.
    pub open spec fn admits(self, project_status: Seq<char>, version_status: Seq<char>) -> bool {
        &&& texts(self.searchable_project_statuses@).contains(project_status)
        &&& !texts(self.hidden_version_statuses@).contains(version_status)
    }

    /// Whether a version of this status, in a project of that status, may be indexed.
    pub fn is_visible(&self, project_status: &str, version_status: &str) -> (r: bool)
        ensures
            r == self.admits(project_status@, version_status@),
    {
        contains_text(&self.searchable_project_statuses, project_status) && !contains_text(
            &self.hidden_version_statuses,
            version_status,
        )
    }
}

/// The name of a project's owner: that of the accepted owner of its team,
/// else that of the accepted owner of its organization's team, else empty.
pub open spec fn owner_of(
    team_owner: Option<Seq<char>>,
    organization_owner: Option<Seq<char>>,
) -> Seq<char> {
    match team_owner {
        Some(name) => name,
        None => match organization_owner {
            Some(name) => name,
            None => Seq::empty(),
        },
    }
}

/// The name of a project's owner. It is empty where neither the team nor the
/// organization has an accepted owner.
pub fn resolve_owner(team_owner: &Option<String>, organization_owner: &Option<String>) -> (r:
    String)
    ensures
        r@ == owner_of(opt_text(*team_owner), opt_text(*organization_owner)),
{
    match team_owner {
        Some(name) => name.clone(),
        None => match organization_owner {
            Some(name) => name.clone(),
            None => String::new(),
        },
    }
}

/// A version as the store knows it, with what decides whether and how it is
/// indexed.
#[derive(Debug, Clone, PartialEq, Eq)]
pub struct CandidateRow {
    pub version_id: u64,
    pub version_status: String,
    pub project_id: u64,
    pub project_status: String,
    /// The name of the accepted owner of the project's team.
    pub team_owner: Option<String>,
    /// The name of the accepted owner of the team of the project's
    /// organization, where the project has one.
    pub organization_owner: Option<String>,
}

impl CandidateRow {
    /// The entry that the row gives where it is visible.
    pub open spec fn entry(self) -> EntryView {
        EntryView {
            version_id: self.version_id,
            project_id: self.project_id,
            owner: owner_of(opt_text(self.team_owner), opt_text(self.organization_owner)),
        }
    }
}

/// The order of a selection: projects by descending identifier, the versions
/// of a project by ascending identifier, and by owner name after that.
pub open spec fn entry_before(a: EntryView, b: EntryView) -> bool {
    if a.project_id != b.project_id {
        a.project_id > b.project_id
    } else if a.version_id != b.version_id {
        a.version_id < b.version_id
    } else {
        text_before(a.owner, b.owner)
    }
}

/// A list of entries in strictly ascending order (so without repetition).
pub open spec fn entries_ascending(s: Seq<EntryView>) -> bool {
    forall|i: int, j: int| 0 <= i < j < s.len() ==> entry_before(#[trigger] s[i], #[trigger] s[j])
}

/// Whether some visible row gives this entry.
pub open spec fn selected(t: EntryView, rows: Seq<CandidateRow>, policy: VisibilityPolicy) -> bool {
    selected_within(t, rows, policy, rows.len() as int)
}

/// Whether one of the first `n` rows is visible and gives this entry.
pub open spec fn selected_within(
    t: EntryView,
    rows: Seq<CandidateRow>,
    policy: VisibilityPolicy,
    n: int,
) -> bool {
    exists|i: int|
        0 <= i < n && i < rows.len() && policy.admits(
            (#[trigger] rows[i]).project_status@,
            rows[i].version_status@,
        ) && rows[i].entry() == t
}

/// `list` is the selection from `rows`: it holds the entry of every visible
/// row and nothing else, each entry once, in the order of a selection.
pub open spec fn is_selection(
    list: Seq<EntryView>,
    rows: Seq<CandidateRow>,
    policy: VisibilityPolicy,
) -> bool {
    &&& entries_ascending(list)
    &&& forall|t: EntryView|
        #![trigger list.contains(t)]
        #![trigger selected(t, rows, policy)]
        list.contains(t) <==> selected(t, rows, policy)
}

/// The order of a selection is a strict total order.
pub proof fn lemma_entry_order(a: EntryView, b: EntryView, c: EntryView)
    ensures
        !(entry_before(a, b) && entry_before(b, a)),
        entry_before(a, b) && entry_before(b, c) ==> entry_before(a, c),
        entry_before(a, b) || entry_before(b, a) || a == b,
{
    lemma_text_before_asymmetric(a.owner, b.owner);
    lemma_text_before_total(a.owner, b.owner);
    if text_before(a.owner, b.owner) && text_before(b.owner, c.owner) {
        lemma_text_before_transitive(a.owner, b.owner, c.owner);
    }
}

fn entry_lt(a: &VisibleEntry, b: &VisibleEntry) -> (r: bool)
    ensures
        r == entry_before(a@, b@),
{
    if a.project_id != b.project_id {
        a.project_id > b.project_id
    } else if a.version_id != b.version_id {
        a.version_id < b.version_id
    } else {
        text_lt(a.owner.as_str(), b.owner.as_str())
    }
}

/// Puts `e` at its place in a selection, unless the selection has it.
fn insert_entry(list: &mut Vec<VisibleEntry>, e: VisibleEntry)
    requires
        entries_ascending(entry_views(old(list)@)),
    ensures
        entries_ascending(entry_views(final(list)@)),
        forall|t: EntryView|
            #![trigger entry_views(final(list)@).contains(t)]
            #![trigger entry_views(old(list)@).contains(t)]
            entry_views(final(list)@).contains(t) <==> (entry_views(old(list)@).contains(t) || t
                == e@),
{
    let ghost before = entry_views(list@);
    let ghost x = e@;
    let mut p: usize = list.len();
    while p > 0 && entry_lt(&e, &list[p - 1])
        invariant
            p <= list@.len(),
            before == entry_views(list@),
            x == e@,
            forall|k: int| p <= k < before.len() ==> entry_before(x, #[trigger] before[k]),
        decreases p,
    {
        p -= 1;
    }
    if p > 0 && !entry_lt(&list[p - 1], &e) {
        proof {
            lemma_entry_order(before[p - 1], x, x);
            assert(before[p - 1] == x);
        }
        return ;
    }
    list.insert(p, e);
    proof {
        let after = entry_views(list@);
        let at = p as int;
        assert(after =~= before.insert(at, x));
        assert forall|k: int| 0 <= k < at implies entry_before(#[trigger] before[k], x) by {
            if k < at - 1 {
                lemma_entry_order(before[k], before[at - 1], x);
            }
        }
        assert forall|i: int, j: int| 0 <= i < j < after.len() implies entry_before(
            #[trigger] after[i],
            #[trigger] after[j],
        ) by {
            if j < at {
                assert(after[i] == before[i] && after[j] == before[j]);
            } else if j == at {
                assert(after[i] == before[i]);
            } else if i < at {
                assert(after[i] == before[i] && after[j] == before[j - 1]);
            } else if i == at {
                assert(after[j] == before[j - 1]);
            } else {
                assert(after[i] == before[i - 1] && after[j] == before[j - 1]);
            }
        }
        assert forall|t: EntryView|
            #![trigger after.contains(t)]
            #![trigger before.contains(t)]
            after.contains(t) <==> (before.contains(t) || t == x) by {
            if after.contains(t) {
                let i = choose|i: int| 0 <= i < after.len() && after[i] == t;
                if i < at {
                    assert(before[i] == t);
                } else if i > at {
                    assert(before[i - 1] == t);
                }
            }
            if before.contains(t) {
                let i = choose|i: int| 0 <= i < before.len() && before[i] == t;
                if i < at {
                    assert(after[i] == t);
                } else {
                    assert(after[i + 1] == t);
                }
            }
            if t == x {
                assert(after[at] == t);
            }
        }
    }
}

/// All that may be indexed: for each row of a version that the policy lets
/// through, the version, its project and the name of the project's owner.
/// Each such triple stands once, however many rows give it, and the list is
/// in the order of a selection.
pub fn get_all_ids(rows: &Vec<CandidateRow>, policy: &VisibilityPolicy) -> (r: Vec<VisibleEntry>)
    ensures
        is_selection(entry_views(r@), rows@, *policy),
{
    let mut r: Vec<VisibleEntry> = Vec::new();
    let mut i: usize = 0;
    proof {
        assert(entry_views(r@) =~= Seq::<EntryView>::empty());
    }
    while i < rows.len()
        invariant
            i <= rows.len(),
            entries_ascending(entry_views(r@)),
            forall|t: EntryView|
                #![trigger entry_views(r@).contains(t)]
                #![trigger selected_within(t, rows@, *policy, i as int)]
                entry_views(r@).contains(t) <==> selected_within(t, rows@, *policy, i as int),
        decreases rows.len() - i,
    {
        let row = &rows[i];
        let ghost earlier = entry_views(r@);
        let visible = policy.is_visible(row.project_status.as_str(), row.version_status.as_str());
        if visible {
            let entry = VisibleEntry {
                version_id: row.version_id,
                project_id: row.project_id,
                owner: resolve_owner(&row.team_owner, &row.organization_owner),
            };
            proof {
                assert(entry@ == row.entry());
            }
            insert_entry(&mut r, entry);
        }
        proof {
            let now = entry_views(r@);
            assert forall|t: EntryView|
                #![trigger now.contains(t)]
                #![trigger selected_within(t, rows@, *policy, i as int + 1)]
                now.contains(t) <==> selected_within(t, rows@, *policy, i as int + 1) by {
                lemma_selected_step(t, rows@, *policy, i as int);
                assert(now.contains(t) <==> (earlier.contains(t) || (visible && t == row.entry())));
                assert(earlier.contains(t) <==> selected_within(t, rows@, *policy, i as int));
            }
        }
        i += 1;
    }
    r
}

/// The selection from given rows is one list only: two selections from the
/// same rows under the same policy are equal.
pub proof fn lemma_selection_unique(
    a: Seq<EntryView>,
    b: Seq<EntryView>,
    rows: Seq<CandidateRow>,
    policy: VisibilityPolicy,
)
    requires
        is_selection(a, rows, policy),
        is_selection(b, rows, policy),
    ensures
        a == b,
{
    let before = |x: EntryView, y: EntryView| entry_before(x, y);
    assert forall|x: EntryView, y: EntryView| !(#[trigger] before(x, y) && before(y, x)) by {
        lemma_entry_order(x, y, y);
    }
    assert forall|t: EntryView|
        #![trigger a.contains(t)]
        #![trigger b.contains(t)]
        a.contains(t) <==> b.contains(t) by {
        assert(a.contains(t) <==> selected(t, rows, policy));
        assert(b.contains(t) <==> selected(t, rows, policy));
    }
    assert(ascending(a, before)) by {
        assert forall|i: int, j: int| 0 <= i < j < a.len() implies before(
            #[trigger] a[i],
            #[trigger] a[j],
        ) by {
            assert(entry_before(a[i], a[j]));
        }
    }
    assert(ascending(b, before)) by {
        assert forall|i: int, j: int| 0 <= i < j < b.len() implies before(
            #[trigger] b[i],
            #[trigger] b[j],
        ) by {
            assert(entry_before(b[i], b[j]));
        }
    }
    lemma_ascending_unique(a, b, before);
}

proof fn lemma_selected_step(
    t: EntryView,
    rows: Seq<CandidateRow>,
    policy: VisibilityPolicy,
    n: int,
)
    requires
        0 <= n < rows.len(),
    ensures
        selected_within(t, rows, policy, n + 1) == (selected_within(t, rows, policy, n) || (
        policy.admits(rows[n].project_status@, rows[n].version_status@) && rows[n].entry() == t)),
{
    if selected_within(t, rows, policy, n + 1) {
        let i = choose|i: int|
            0 <= i < n + 1 && i < rows.len() && policy.admits(
                (#[trigger] rows[i]).project_status@,
                rows[i].version_status@,
            ) && rows[i].entry() == t;
        if i < n {
            assert(selected_within(t, rows, policy, n));
        }
    }
    if selected_within(t, rows, policy, n) {
        let i = choose|i: int|
            0 <= i < n && i < rows.len() && policy.admits(
                (#[trigger] rows[i]).project_status@,
                rows[i].version_status@,
            ) && rows[i].entry() == t;
        assert(selected_within(t, rows, policy, n + 1));
    }
    if policy.admits(rows[n].project_status@, rows[n].version_status@) && rows[n].entry() == t {
        assert(selected_within(t, rows, policy, n + 1));
    }
}

} // verus!
