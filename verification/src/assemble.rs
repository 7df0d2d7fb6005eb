//! Assembly of the documents of a run: one for every visible entry whose
//! project and version are both loaded, in the order of the entries.

use crate::categories::legacy_type_of;
use crate::document::{
    build_document, describes, side_query, DocumentView, SearchDocument, SideSupport,
};
use crate::fields::field_views;
use crate::loader_fields::{raw_mapping, RawLoaderFields};
use crate::records::{ProjectRecord, VersionRecord, VisibleEntry};
use crate::text::texts;
use std::collections::HashMap;
use vstd::prelude::*;

verus! {

broadcast use vstd::std_specs::hash::group_hash_axioms;

/// Holds of an entry whose project and version are both loaded.
pub open spec fn resolves(
    projects: Map<u64, ProjectRecord>,
    versions: Map<u64, VersionRecord>,
) -> spec_fn(VisibleEntry) -> bool {
    |e: VisibleEntry| projects.contains_key(e.project_id) && versions.contains_key(e.version_id)
}

/// The entries whose project and version are both loaded, in their order.
pub open spec fn resolved(
    visible: Seq<VisibleEntry>,
    projects: Map<u64, ProjectRecord>,
    versions: Map<u64, VersionRecord>,
) -> Seq<VisibleEntry> {
    visible.filter(resolves(projects, versions))
}

/// `doc` is the document of `entry`, made with the sides that `mapper` gave
/// when it was asked with `raw` and `label`, which are what the entry's
/// version asks with.
pub open spec fn assembled_with<F: Fn(&RawLoaderFields, Option<&String>) -> SideSupport>(
    mapper: F,
    doc: DocumentView,
    entry: VisibleEntry,
    projects: Map<u64, ProjectRecord>,
    versions: Map<u64, VersionRecord>,
    raw: RawLoaderFields,
    label: String,
    sides: SideSupport,
) -> bool {
    let version = versions[entry.version_id];
    &&& raw@ == raw_mapping(field_views(version.version_fields@))
    &&& label@ == legacy_type_of(texts(version.project_types@))
    &&& call_ensures(mapper, (&raw, Some(&label)), sides)
    &&& describes(doc, projects[entry.project_id], version, entry.owner@, versions, sides@)
}

/// `doc` is the document of `entry`, made with what one call of `mapper` gave.
pub open spec fn assembled<F: Fn(&RawLoaderFields, Option<&String>) -> SideSupport>(
    mapper: F,
    doc: DocumentView,
    entry: VisibleEntry,
    projects: Map<u64, ProjectRecord>,
    versions: Map<u64, VersionRecord>,
) -> bool {
    exists|raw: RawLoaderFields, label: String, sides: SideSupport| #[trigger]
        assembled_with(mapper, doc, entry, projects, versions, raw, label, sides)
}

/// The documents of a run. Each visible entry whose project and version are
/// both in the mappings gives one document, in the entries' order; an entry
/// that lacks either gives none. `side_mapper` is the legacy side mapping,
/// serialization included: it is called once for each document.
pub fn index_local<F>(
    visible: &Vec<VisibleEntry>,
    projects: &HashMap<u64, ProjectRecord>,
    versions: &HashMap<u64, VersionRecord>,
    side_mapper: F,
) -> (docs: Vec<SearchDocument>) where F: Fn(&RawLoaderFields, Option<&String>) -> SideSupport
    requires
        forall|raw: &RawLoaderFields, label: Option<&String>|
            call_requires(side_mapper, (raw, label)),
    ensures
        docs@.len() == resolved(visible@, projects@, versions@).len(),
        forall|k: int|
            0 <= k < docs@.len() ==> assembled(
                side_mapper,
                (#[trigger] docs@[k])@,
                resolved(visible@, projects@, versions@)[k],
                projects@,
                versions@,
            ),
{
    let mut docs: Vec<SearchDocument> = Vec::new();
    let ghost mut done: Seq<VisibleEntry> = Seq::empty();
    let mut i: usize = 0;
    proof {
        reveal(Seq::filter);
        assert(visible@.take(0) =~= Seq::<VisibleEntry>::empty());
    }
    while i < visible.len()
        invariant
            i <= visible.len(),
            forall|raw: &RawLoaderFields, label: Option<&String>|
                call_requires(side_mapper, (raw, label)),
            done == resolved(visible@.take(i as int), projects@, versions@),
            docs@.len() == done.len(),
            forall|k: int|
                0 <= k < docs@.len() ==> assembled(
                    side_mapper,
                    (#[trigger] docs@[k])@,
                    done[k],
                    projects@,
                    versions@,
                ),
        decreases visible.len() - i,
    {
        let entry = &visible[i];
        proof {
            assert(visible@.take(i as int + 1) =~= visible@.take(i as int).push(*entry));
            visible@.take(i as int).lemma_filter_push(*entry, resolves(projects@, versions@));
        }
        match projects.get(&entry.project_id) {
            Some(project) => {
                match versions.get(&entry.version_id) {
                    Some(version) => {
                        let (raw, label) = side_query(version);
                        let sides = side_mapper(&raw, Some(&label));
                        let ghost given = sides;
                        let doc = build_document(
                            project,
                            version,
                            entry.owner.clone(),
                            versions,
                            sides,
                        );
                        proof {
                            assert(assembled_with(
                                side_mapper,
                                doc@,
                                *entry,
                                projects@,
                                versions@,
                                raw,
                                label,
                                given,
                            ));
                            done = done.push(*entry);
                        }
                        docs.push(doc);
                    },
                    None => {},
                }
            },
            None => {},
        }
        i += 1;
    }
    proof {
        assert(visible@.take(visible.len() as int) =~= visible@);
    }
    docs
}

/// Each visible entry gives one document where its project and its version
/// are both loaded, and none where either is missing: the entries that give
/// a document are exactly those that resolve, each as often as it is listed.
pub proof fn lemma_one_document_per_resolved_entry(
    visible: Seq<VisibleEntry>,
    entry: VisibleEntry,
    projects: Map<u64, ProjectRecord>,
    versions: Map<u64, VersionRecord>,
)
    ensures
        resolved(Seq::empty(), projects, versions).len() == 0,
        projects.contains_key(entry.project_id) && versions.contains_key(entry.version_id)
            ==> resolved(visible.push(entry), projects, versions) == resolved(
            visible,
            projects,
            versions,
        ).push(entry),
        !(projects.contains_key(entry.project_id) && versions.contains_key(entry.version_id))
            ==> resolved(visible.push(entry), projects, versions) == resolved(
            visible,
            projects,
            versions,
        ),
{
    reveal(Seq::filter);
    visible.lemma_filter_push(entry, resolves(projects, versions));
}

} // verus!
