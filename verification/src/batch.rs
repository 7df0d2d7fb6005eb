//! What surrounds the loading of records: which identifiers to ask the store
//! for, and the mappings by identifier of what came back.

use crate::records::{ProjectRecord, VersionRecord, VisibleEntry};
use std::collections::HashMap;
use std::collections::HashSet;
use vstd::prelude::*;

verus! {

broadcast use vstd::std_specs::hash::group_hash_axioms;

/// The list without its repetitions: each member stands where it first came.
pub open spec fn unique(ids: Seq<u64>) -> Seq<u64>
    decreases ids.len(),
{
    if ids.len() == 0 {
        Seq::empty()
    } else if unique(ids.drop_last()).contains(ids.last()) {
        unique(ids.drop_last())
    } else {
        unique(ids.drop_last()).push(ids.last())
    }
}

/// The projects of a list of entries, in the entries' order.
pub open spec fn project_ids(visible: Seq<VisibleEntry>) -> Seq<u64> {
    Seq::new(visible.len(), |i: int| visible[i].project_id)
}

/// The versions of a list of entries, in the entries' order.
pub open spec fn version_ids(visible: Seq<VisibleEntry>) -> Seq<u64> {
    Seq::new(visible.len(), |i: int| visible[i].version_id)
}

/// A list without repetitions holds what the list it was made from holds,
/// and nothing twice.
pub proof fn lemma_unique(ids: Seq<u64>)
    ensures
        unique(ids).no_duplicates(),
        forall|id: u64| #![trigger unique(ids).contains(id)] unique(ids).contains(id) <==> ids.contains(id),
    decreases ids.len(),
{
    if ids.len() > 0 {
        let front = ids.drop_last();
        let last = ids.last();
        lemma_unique(front);
        let u = unique(front);
        let now = unique(ids);
        assert forall|id: u64| #![trigger now.contains(id)] now.contains(id) <==> ids.contains(id) by {
            if now.contains(id) {
                let k = choose|k: int| 0 <= k < now.len() && now[k] == id;
                if k < u.len() {
                    assert(u[k] == id);
                    assert(u.contains(id));
                    let m = choose|m: int| 0 <= m < front.len() && front[m] == id;
                    assert(ids[m] == id);
                } else {
                    assert(ids[ids.len() - 1] == id);
                }
            }
            if ids.contains(id) {
                let m = choose|m: int| 0 <= m < ids.len() && ids[m] == id;
                if m < front.len() {
                    assert(front[m] == id);
                    assert(front.contains(id));
                    assert(u.contains(id));
                    let k = choose|k: int| 0 <= k < u.len() && u[k] == id;
                    assert(now[k] == id);
                } else if u.contains(last) {
                } else {
                    assert(now[u.len() as int] == id);
                }
            }
        }
    }
}

fn unique_of(ids: &Vec<u64>) -> (r: Vec<u64>)
    ensures
        r@ == unique(ids@),
{
    let mut r: Vec<u64> = Vec::new();
    let mut seen: HashSet<u64> = HashSet::new();
    let mut i: usize = 0;
    proof {
        assert(ids@.take(0) =~= Seq::<u64>::empty());
    }
    while i < ids.len()
        invariant
            i <= ids.len(),
            r@ == unique(ids@.take(i as int)),
            forall|id: u64| #![trigger seen@.contains(id)] seen@.contains(id) <==> r@.contains(id),
        decreases ids.len() - i,
    {
        let id: u64 = ids[i];
        let ghost before = r@;
        proof {
            assert(ids@.take(i as int + 1).drop_last() =~= ids@.take(i as int));
            assert(ids@.take(i as int + 1).last() == id);
        }
        if seen.insert(id) {
            r.push(id);
            proof {
                assert forall|other: u64| #![trigger seen@.contains(other)] seen@.contains(other)
                    <==> r@.contains(other) by {
                    if r@.contains(other) {
                        let k = choose|k: int| 0 <= k < r@.len() && r@[k] == other;
                        if k < before.len() {
                            assert(before[k] == other);
                        }
                    }
                    if before.contains(other) {
                        let k = choose|k: int| 0 <= k < before.len() && before[k] == other;
                        assert(r@[k] == other);
                    }
                    if other == id {
                        assert(r@[before.len() as int] == other);
                    }
                }
            }
        }
        i += 1;
    }
    proof {
        assert(ids@.take(ids.len() as int) =~= ids@);
    }
    r
}

/// The projects to load for a list of entries: each project once, in the
/// order in which the entries first name them.
pub fn project_ids_of(visible: &Vec<VisibleEntry>) -> (r: Vec<u64>)
    ensures
        r@ == unique(project_ids(visible@)),
{
    let mut all: Vec<u64> = Vec::new();
    let mut i: usize = 0;
    while i < visible.len()
        invariant
            i <= visible.len(),
            all@.len() == i,
            forall|k: int| 0 <= k < i ==> all@[k] == visible@[k].project_id,
        decreases visible.len() - i,
    {
        all.push(visible[i].project_id);
        i += 1;
    }
    proof {
        assert(all@ =~= project_ids(visible@));
    }
    unique_of(&all)
}

/// The versions to load for a list of entries: each version once, in the
/// order in which the entries first name them.
pub fn version_ids_of(visible: &Vec<VisibleEntry>) -> (r: Vec<u64>)
    ensures
        r@ == unique(version_ids(visible@)),
{
    let mut all: Vec<u64> = Vec::new();
    let mut i: usize = 0;
    while i < visible.len()
        invariant
            i <= visible.len(),
            all@.len() == i,
            forall|k: int| 0 <= k < i ==> all@[k] == visible@[k].version_id,
        decreases visible.len() - i,
    {
        all.push(visible[i].version_id);
        i += 1;
    }
    proof {
        assert(all@ =~= version_ids(visible@));
    }
    unique_of(&all)
}

/// The projects of a list by their identifiers. Of two with one identifier
/// the later one counts.
pub open spec fn projects_by_id(records: Seq<ProjectRecord>) -> Map<u64, ProjectRecord>
    decreases records.len(),
{
    if records.len() == 0 {
        Map::empty()
    } else {
        projects_by_id(records.drop_last()).insert(records.last().id, records.last())
    }
}

/// The versions of a list by their identifiers. Of two with one identifier
/// the later one counts.
pub open spec fn versions_by_id(records: Seq<VersionRecord>) -> Map<u64, VersionRecord>
    decreases records.len(),
{
    if records.len() == 0 {
        Map::empty()
    } else {
        versions_by_id(records.drop_last()).insert(records.last().id, records.last())
    }
}

/// The mapping from identifier to project of the projects that were loaded.
pub fn index_projects(records: Vec<ProjectRecord>) -> (r: HashMap<u64, ProjectRecord>)
    ensures
        r@ == projects_by_id(records@),
{
    let ghost all = records@;
    let mut rest = records;
    let mut stack: Vec<ProjectRecord> = Vec::new();
    while rest.len() > 0
        invariant
            all == rest@ + stack@.reverse(),
        decreases rest.len(),
    {
        let ghost before = rest@;
        let ghost piled = stack@;
        let record = rest.pop().unwrap();
        stack.push(record);
        proof {
            assert(before =~= rest@.push(record));
            assert(stack@.reverse() =~= seq![record] + piled.reverse());
            assert(rest@.push(record) + piled.reverse() =~= rest@ + (seq![record]
                + piled.reverse()));
        }
    }
    let mut map: HashMap<u64, ProjectRecord> = HashMap::new();
    let ghost mut done: Seq<ProjectRecord> = Seq::empty();
    proof {
        assert(rest@ + stack@.reverse() =~= stack@.reverse());
        assert(map@ =~= projects_by_id(done));
    }
    while stack.len() > 0
        invariant
            all == done + stack@.reverse(),
            map@ == projects_by_id(done),
        decreases stack.len(),
    {
        let ghost piled = stack@;
        let record = stack.pop().unwrap();
        proof {
            assert(piled =~= stack@.push(record));
            assert(piled.reverse() =~= seq![record] + stack@.reverse());
            assert(done + (seq![record] + stack@.reverse()) =~= done.push(record)
                + stack@.reverse());
            assert(done.push(record).drop_last() =~= done);
            done = done.push(record);
        }
        map.insert(record.id, record);
    }
    proof {
        assert(done + stack@.reverse() =~= done);
    }
    map
}

/// The mapping from identifier to version of the versions that were loaded.
pub fn index_versions(records: Vec<VersionRecord>) -> (r: HashMap<u64, VersionRecord>)
    ensures
        r@ == versions_by_id(records@),
{
    let ghost all = records@;
    let mut rest = records;
    let mut stack: Vec<VersionRecord> = Vec::new();
    while rest.len() > 0
        invariant
            all == rest@ + stack@.reverse(),
        decreases rest.len(),
    {
        let ghost before = rest@;
        let ghost piled = stack@;
        let record = rest.pop().unwrap();
        stack.push(record);
        proof {
            assert(before =~= rest@.push(record));
            assert(stack@.reverse() =~= seq![record] + piled.reverse());
            assert(rest@.push(record) + piled.reverse() =~= rest@ + (seq![record]
                + piled.reverse()));
        }
    }
    let mut map: HashMap<u64, VersionRecord> = HashMap::new();
    let ghost mut done: Seq<VersionRecord> = Seq::empty();
    proof {
        assert(rest@ + stack@.reverse() =~= stack@.reverse());
        assert(map@ =~= versions_by_id(done));
    }
    while stack.len() > 0
        invariant
            all == done + stack@.reverse(),
            map@ == versions_by_id(done),
        decreases stack.len(),
    {
        let ghost piled = stack@;
        let record = stack.pop().unwrap();
        proof {
            assert(piled =~= stack@.push(record));
            assert(piled.reverse() =~= seq![record] + stack@.reverse());
            assert(done + (seq![record] + stack@.reverse()) =~= done.push(record)
                + stack@.reverse());
            assert(done.push(record).drop_last() =~= done);
            done = done.push(record);
        }
        map.insert(record.id, record);
    }
    proof {
        assert(done + stack@.reverse() =~= done);
    }
    map
}

/// A mapping by identifier holds an identifier exactly when a record of the
/// list has it, and holds under it a record of the list with that identifier.
pub proof fn lemma_projects_by_id(records: Seq<ProjectRecord>, id: u64)
    ensures
        projects_by_id(records).contains_key(id) <==> exists|i: int|
            0 <= i < records.len() && (#[trigger] records[i]).id == id,
        projects_by_id(records).contains_key(id) ==> projects_by_id(records)[id].id == id
            && records.contains(projects_by_id(records)[id]),
    decreases records.len(),
{
    if records.len() > 0 {
        let front = records.drop_last();
        lemma_projects_by_id(front, id);
        if exists|i: int| 0 <= i < front.len() && (#[trigger] front[i]).id == id {
            let i = choose|i: int| 0 <= i < front.len() && (#[trigger] front[i]).id == id;
            assert(records[i].id == id);
        }
        if exists|i: int| 0 <= i < records.len() && (#[trigger] records[i]).id == id {
            let i = choose|i: int| 0 <= i < records.len() && (#[trigger] records[i]).id == id;
            if i < front.len() {
                assert(front[i].id == id);
            }
        }
        if records.last().id == id {
            assert(records[records.len() - 1].id == id);
            assert(records[records.len() - 1] == projects_by_id(records)[id]);
        } else if projects_by_id(front).contains_key(id) {
            let k = choose|k: int| 0 <= k < front.len() && front[k] == projects_by_id(front)[id];
            assert(records[k] == projects_by_id(records)[id]);
        }
    }
}

/// A mapping by identifier holds an identifier exactly when a record of the
/// list has it, and holds under it a record of the list with that identifier.
pub proof fn lemma_versions_by_id(records: Seq<VersionRecord>, id: u64)
    ensures
        versions_by_id(records).contains_key(id) <==> exists|i: int|
            0 <= i < records.len() && (#[trigger] records[i]).id == id,
        versions_by_id(records).contains_key(id) ==> versions_by_id(records)[id].id == id
            && records.contains(versions_by_id(records)[id]),
    decreases records.len(),
{
    if records.len() > 0 {
        let front = records.drop_last();
        lemma_versions_by_id(front, id);
        if exists|i: int| 0 <= i < front.len() && (#[trigger] front[i]).id == id {
            let i = choose|i: int| 0 <= i < front.len() && (#[trigger] front[i]).id == id;
            assert(records[i].id == id);
        }
        if exists|i: int| 0 <= i < records.len() && (#[trigger] records[i]).id == id {
            let i = choose|i: int| 0 <= i < records.len() && (#[trigger] records[i]).id == id;
            if i < front.len() {
                assert(front[i].id == id);
            }
        }
        if records.last().id == id {
            assert(records[records.len() - 1].id == id);
            assert(records[records.len() - 1] == versions_by_id(records)[id]);
        } else if versions_by_id(front).contains_key(id) {
            let k = choose|k: int| 0 <= k < front.len() && front[k] == versions_by_id(front)[id];
            assert(records[k] == versions_by_id(records)[id]);
        }
    }
}

} // verus!
