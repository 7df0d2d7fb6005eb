//! The loaders of a project: what all its loaded versions offer, each once
//! and in ascending order.

use crate::order::{ascending, lemma_ascending_unique};
use crate::records::VersionRecord;
use crate::text::{
    lemma_text_before_asymmetric, lemma_text_before_total, lemma_text_before_transitive,
    strictly_ascending, text_before, text_eq, text_lt, texts,
};
use std::collections::HashMap;
use vstd::prelude::*;
use vstd::string::*;

verus! {

broadcast use vstd::std_specs::hash::group_hash_axioms;

/// The loaders of the version that the `i`-th identifier names: none where
/// the mapping has no such version.
pub open spec fn loaders_at(ids: Seq<u64>, versions: Map<u64, VersionRecord>, i: int) -> Seq<
    Seq<char>,
> {
    if versions.contains_key(ids[i]) {
        texts(versions[ids[i]].loaders@)
    } else {
        Seq::empty()
    }
}

/// Whether a version named among the first `n` identifiers offers the loader.
pub open spec fn offered_within(
    loader: Seq<char>,
    ids: Seq<u64>,
    versions: Map<u64, VersionRecord>,
    n: int,
) -> bool {
    exists|i: int|
        0 <= i < n && i < ids.len() && (#[trigger] loaders_at(ids, versions, i)).contains(loader)
}

/// Whether a version that the list names, and that the mapping holds, offers
/// the loader.
pub open spec fn offered(loader: Seq<char>, ids: Seq<u64>, versions: Map<u64, VersionRecord>) -> bool {
    offered_within(loader, ids, versions, ids.len() as int)
}

/// `list` is the sorted union, without repetition, of the loaders of every
/// listed version that the mapping holds.
pub open spec fn is_loader_union(
    list: Seq<Seq<char>>,
    ids: Seq<u64>,
    versions: Map<u64, VersionRecord>,
) -> bool {
    &&& strictly_ascending(list)
    &&& forall|loader: Seq<char>|
        #![trigger list.contains(loader)]
        #![trigger offered(loader, ids, versions)]
        list.contains(loader) <==> offered(loader, ids, versions)
}

proof fn lemma_offered_step(
    loader: Seq<char>,
    ids: Seq<u64>,
    versions: Map<u64, VersionRecord>,
    n: int,
)
    requires
        0 <= n < ids.len(),
    ensures
        offered_within(loader, ids, versions, n + 1) == (offered_within(loader, ids, versions, n)
            || loaders_at(ids, versions, n).contains(loader)),
{
    if offered_within(loader, ids, versions, n + 1) {
        let i = choose|i: int|
            0 <= i < n + 1 && i < ids.len() && (#[trigger] loaders_at(ids, versions, i)).contains(
                loader,
            );
        if i < n {
            assert(offered_within(loader, ids, versions, n));
        }
    }
    if loaders_at(ids, versions, n).contains(loader) {
        assert(offered_within(loader, ids, versions, n + 1));
    }
    if offered_within(loader, ids, versions, n) {
        let i = choose|i: int|
            0 <= i < n && i < ids.len() && (#[trigger] loaders_at(ids, versions, i)).contains(
                loader,
            );
        assert(loaders_at(ids, versions, i).contains(loader));
        assert(offered_within(loader, ids, versions, n + 1));
    }
}

/// Puts a copy of `s` at its place in an ascending list, unless the list has it.
fn insert_sorted(list: &mut Vec<String>, s: &String)
    requires
        strictly_ascending(texts(old(list)@)),
    ensures
        strictly_ascending(texts(final(list)@)),
        forall|t: Seq<char>|
            #![trigger texts(final(list)@).contains(t)]
            #![trigger texts(old(list)@).contains(t)]
            texts(final(list)@).contains(t) <==> (texts(old(list)@).contains(t) || t == s@),
{
    let ghost before = texts(list@);
    let mut p: usize = 0;
    while p < list.len() && text_lt(list[p].as_str(), s.as_str())
        invariant
            p <= list@.len(),
            before == texts(list@),
            forall|k: int| 0 <= k < p ==> text_before(#[trigger] before[k], s@),
        decreases list@.len() - p,
    {
        p += 1;
    }
    if p < list.len() && text_eq(list[p].as_str(), s.as_str()) {
        proof {
            assert(before[p as int] == s@);
        }
        return ;
    }
    list.insert(p, s.clone());
    proof {
        let after = texts(list@);
        let at = p as int;
        assert(after =~= before.insert(at, s@));
        assert forall|k: int| at <= k < before.len() implies text_before(s@, #[trigger] before[k]) by {
            lemma_text_before_total(before[at], s@);
            if at < k {
                lemma_text_before_transitive(s@, before[at], before[k]);
            }
        }
        assert forall|i: int, j: int| 0 <= i < j < after.len() implies text_before(
            #[trigger] after[i],
            #[trigger] after[j],
        ) by {
            if j < at {
                assert(after[i] == before[i] && after[j] == before[j]);
            } else if j == at {
                assert(after[i] == before[i]);
            } else if i < at {
                assert(after[i] == before[i] && after[j] == before[j - 1]);
            } else if i == at {
                assert(after[j] == before[j - 1]);
            } else {
                assert(after[i] == before[i - 1] && after[j] == before[j - 1]);
            }
        }
        assert forall|t: Seq<char>|
            #![trigger after.contains(t)]
            #![trigger before.contains(t)]
            after.contains(t) <==> (before.contains(t) || t == s@) by {
            if after.contains(t) {
                let i = choose|i: int| 0 <= i < after.len() && after[i] == t;
                if i < at {
                    assert(before[i] == t);
                } else if i > at {
                    assert(before[i - 1] == t);
                }
            }
            if before.contains(t) {
                let i = choose|i: int| 0 <= i < before.len() && before[i] == t;
                if i < at {
                    assert(after[i] == t);
                } else {
                    assert(after[i + 1] == t);
                }
            }
            if t == s@ {
                assert(after[at] == t);
            }
        }
    }
}

/// The loaders of all versions that `ids` names and `versions` holds, sorted
/// and each once. An identifier that the mapping lacks adds nothing.
pub fn aggregate_loaders(ids: &Vec<u64>, versions: &HashMap<u64, VersionRecord>) -> (r: Vec<String>)
    ensures
        is_loader_union(texts(r@), ids@, versions@),
{
    let mut r: Vec<String> = Vec::new();
    let mut i: usize = 0;
    proof {
        assert(texts(r@) =~= Seq::<Seq<char>>::empty());
    }
    while i < ids.len()
        invariant
            i <= ids.len(),
            strictly_ascending(texts(r@)),
            forall|t: Seq<char>|
                #![trigger texts(r@).contains(t)]
                #![trigger offered_within(t, ids@, versions@, i as int)]
                texts(r@).contains(t) <==> offered_within(t, ids@, versions@, i as int),
        decreases ids.len() - i,
    {
        let ghost here = loaders_at(ids@, versions@, i as int);
        let ghost earlier = texts(r@);
        match versions.get(&ids[i]) {
            Some(version) => {
                let mut j: usize = 0;
                proof {
                    assert(here == texts(version.loaders@));
                    assert(here.take(0) =~= Seq::<Seq<char>>::empty());
                }
                while j < version.loaders.len()
                    invariant
                        j <= version.loaders.len(),
                        here == texts(version.loaders@),
                        strictly_ascending(texts(r@)),
                        forall|t: Seq<char>|
                            #![trigger texts(r@).contains(t)]
                            #![trigger earlier.contains(t)]
                            texts(r@).contains(t) <==> (earlier.contains(t) || here.take(
                                j as int,
                            ).contains(t)),
                    decreases version.loaders.len() - j,
                {
                    let ghost so_far = texts(r@);
                    insert_sorted(&mut r, &version.loaders[j]);
                    proof {
                        let now = texts(r@);
                        let added = version.loaders@[j as int]@;
                        assert(here.take(j as int + 1) =~= here.take(j as int).push(added));
                        assert forall|t: Seq<char>|
                            #![trigger now.contains(t)]
                            #![trigger earlier.contains(t)]
                            now.contains(t) <==> (earlier.contains(t) || here.take(
                                j as int + 1,
                            ).contains(t)) by {
                            assert(now.contains(t) <==> (so_far.contains(t) || t == added));
                            assert(so_far.contains(t) <==> (earlier.contains(t) || here.take(
                                j as int,
                            ).contains(t)));
                            lemma_contains_push(here.take(j as int), added, t);
                        }
                    }
                    j += 1;
                }
                proof {
                    assert(here.take(version.loaders.len() as int) =~= here);
                }
            },
            None => {
                proof {
                    assert(here =~= Seq::<Seq<char>>::empty());
                }
            },
        }
        proof {
            let now = texts(r@);
            assert forall|t: Seq<char>|
                #![trigger now.contains(t)]
                #![trigger offered_within(t, ids@, versions@, i as int + 1)]
                now.contains(t) <==> offered_within(t, ids@, versions@, i as int + 1) by {
                lemma_offered_step(t, ids@, versions@, i as int);
                assert(now.contains(t) <==> (earlier.contains(t) || here.contains(t)));
                assert(earlier.contains(t) <==> offered_within(t, ids@, versions@, i as int));
            }
        }
        i += 1;
    }
    r
}

proof fn lemma_contains_push(s: Seq<Seq<char>>, x: Seq<char>, t: Seq<char>)
    ensures
        s.push(x).contains(t) <==> (s.contains(t) || t == x),
{
    let after = s.push(x);
    if after.contains(t) {
        let i = choose|i: int| 0 <= i < after.len() && after[i] == t;
        if i < s.len() {
            assert(s[i] == t);
        }
    }
    if s.contains(t) {
        let i = choose|i: int| 0 <= i < s.len() && s[i] == t;
        assert(after[i] == t);
    }
    if t == x {
        assert(after[s.len() as int] == t);
    }
}

/// The sorted union is one list only: two lists that are each the sorted
/// union of the same loaders are equal.
pub proof fn lemma_loader_union_unique(
    a: Seq<Seq<char>>,
    b: Seq<Seq<char>>,
    ids: Seq<u64>,
    versions: Map<u64, VersionRecord>,
)
    requires
        is_loader_union(a, ids, versions),
        is_loader_union(b, ids, versions),
    ensures
        a == b,
{
    let before = |x: Seq<char>, y: Seq<char>| text_before(x, y);
    assert forall|x: Seq<char>, y: Seq<char>| !(#[trigger] before(x, y) && before(y, x)) by {
        lemma_text_before_asymmetric(x, y);
    }
    assert forall|t: Seq<char>|
        #![trigger a.contains(t)]
        #![trigger b.contains(t)]
        a.contains(t) <==> b.contains(t) by {
        assert(a.contains(t) <==> offered(t, ids, versions));
        assert(b.contains(t) <==> offered(t, ids, versions));
    }
    assert(ascending(a, before)) by {
        assert forall|i: int, j: int| 0 <= i < j < a.len() implies before(
            #[trigger] a[i],
            #[trigger] a[j],
        ) by {
            assert(text_before(a[i], a[j]));
        }
    }
    assert(ascending(b, before)) by {
        assert forall|i: int, j: int| 0 <= i < j < b.len() implies before(
            #[trigger] b[i],
            #[trigger] b[j],
        ) by {
            assert(text_before(b[i], b[j]));
        }
    }
    lemma_ascending_unique(a, b, before);
}

/// A listed version that the mapping does not hold adds no loader: with or
/// without its identifier in the list, the sorted union is the same.
pub proof fn lemma_absent_version_adds_nothing(
    list: Seq<Seq<char>>,
    ids: Seq<u64>,
    id: u64,
    versions: Map<u64, VersionRecord>,
)
    requires
        !versions.contains_key(id),
    ensures
        is_loader_union(list, ids.push(id), versions) == is_loader_union(list, ids, versions),
{
    let more = ids.push(id);
    assert forall|t: Seq<char>| offered(t, more, versions) == offered(t, ids, versions) by {
        if offered(t, more, versions) {
            let i = choose|i: int|
                0 <= i < more.len() && i < more.len() && (#[trigger] loaders_at(
                    more,
                    versions,
                    i,
                )).contains(t);
            assert(i < ids.len());
            assert(loaders_at(ids, versions, i) == loaders_at(more, versions, i));
            assert(loaders_at(ids, versions, i).contains(t));
        }
        if offered(t, ids, versions) {
            let i = choose|i: int|
                0 <= i < ids.len() && i < ids.len() && (#[trigger] loaders_at(
                    ids,
                    versions,
                    i,
                )).contains(t);
            assert(loaders_at(more, versions, i) == loaders_at(ids, versions, i));
            assert(loaders_at(more, versions, i).contains(t));
        }
    }
    if is_loader_union(list, ids, versions) {
        assert forall|t: Seq<char>|
            #![trigger list.contains(t)]
            #![trigger offered(t, more, versions)]
            list.contains(t) <==> offered(t, more, versions) by {
            assert(offered(t, more, versions) == offered(t, ids, versions));
        }
    }
    if is_loader_union(list, more, versions) {
        assert forall|t: Seq<char>|
            #![trigger list.contains(t)]
            #![trigger offered(t, ids, versions)]
            list.contains(t) <==> offered(t, ids, versions) by {
            assert(offered(t, more, versions) == offered(t, ids, versions));
        }
    }
}

} // verus!
