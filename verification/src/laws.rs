//! What holds of every document and of every run.

use crate::assemble::{assembled, assembled_with, resolved};
use crate::categories::{not_mrpack, text_values};
use crate::document::{describes, with_sides, DocumentView, SideSupport, SidesView};
use crate::fields::{
    distinct_names, field_views, has_name, lemma_put, put, value_of, ValueView,
};
use crate::loader_fields::{lemma_reconciled, reconciled, RawLoaderFields};
use crate::loaders::lemma_loader_union_unique;
use crate::records::{ProjectRecord, VersionRecord, VisibleEntry};
use crate::text::texts;
use vstd::prelude::*;

verus! {

proof fn lemma_filter_keeps_all(s: Seq<Seq<char>>, pred: spec_fn(Seq<char>) -> bool)
    requires
        forall|i: int| 0 <= i < s.len() ==> pred(#[trigger] s[i]),
    ensures
        s.filter(pred) == s,
    decreases s.len(),
{
    reveal(Seq::filter);
    if s.len() > 0 {
        let front = s.drop_last();
        assert forall|i: int| 0 <= i < front.len() implies pred(#[trigger] front[i]) by {
            assert(front[i] == s[i]);
        }
        lemma_filter_keeps_all(front, pred);
        assert(front.push(s.last()) =~= s);
    }
}

proof fn lemma_field_names_differ()
    ensures
        "client_side"@ != "mrpack_loaders"@,
        "server_side"@ != "mrpack_loaders"@,
{
    reveal_strlit("client_side");
    reveal_strlit("server_side");
    reveal_strlit("mrpack_loaders");
    assert("client_side"@.len() == 11);
    assert("server_side"@.len() == 11);
    assert("mrpack_loaders"@.len() == 14);
}

/// Storing the sides leaves every field of another name as it was.
pub proof fn lemma_sides_keep_other_fields(
    fields: Seq<(Seq<char>, Seq<ValueView>)>,
    sides: SidesView,
    name: Seq<char>,
)
    requires
        distinct_names(fields),
        name != "client_side"@,
        name != "server_side"@,
    ensures
        distinct_names(with_sides(fields, sides)),
        has_name(with_sides(fields, sides), name) == has_name(fields, name),
        value_of(with_sides(fields, sides), name) == value_of(fields, name),
{
    let with_client = match sides.client_side {
        Some(v) => {
            lemma_put(fields, "client_side"@, seq![v]);
            put(fields, "client_side"@, seq![v])
        },
        None => fields,
    };
    match sides.server_side {
        Some(v) => {
            lemma_put(with_client, "server_side"@, seq![v]);
        },
        None => {},
    }
}

/// The display categories of a document are the project's categories and
/// then the version's loaders, and nothing else: no additional category and
/// no string of `mrpack_loaders` is among them on that account.
pub proof fn lemma_display_categories(
    doc: DocumentView,
    project: ProjectRecord,
    version: VersionRecord,
    owner: Seq<char>,
    versions: Map<u64, VersionRecord>,
    sides: SidesView,
)
    requires
        describes(doc, project, version, owner, versions, sides),
    ensures
        doc.display_categories == texts(project.categories@) + texts(version.loaders@),
{
}

/// Where no category `mrpack` has to be dropped, the categories of a
/// document are, in this order, the project's categories, the version's
/// loaders, the project's additional categories and the strings of
/// `mrpack_loaders`.
pub proof fn lemma_categories_in_order(
    doc: DocumentView,
    project: ProjectRecord,
    version: VersionRecord,
    owner: Seq<char>,
    versions: Map<u64, VersionRecord>,
    sides: SidesView,
)
    requires
        describes(doc, project, version, owner, versions, sides),
        value_of(reconciled(field_views(version.version_fields@)), "mrpack_loaders"@) matches Some(
            values,
        ) ==> !(texts(project.categories@) + texts(version.loaders@) + texts(
            project.additional_categories@,
        ) + text_values(values)).contains("mrpack"@),
    ensures
        doc.categories == texts(project.categories@) + texts(version.loaders@) + texts(
            project.additional_categories@,
        ) + match value_of(doc.loader_fields, "mrpack_loaders"@) {
            Some(values) => text_values(values),
            None => Seq::empty(),
        },
{
    let fields = reconciled(field_views(version.version_fields@));
    lemma_reconciled(field_views(version.version_fields@), "mrpack_loaders"@);
    lemma_field_names_differ();
    lemma_sides_keep_other_fields(fields, sides, "mrpack_loaders"@);
    let plain = texts(project.categories@) + texts(version.loaders@) + texts(
        project.additional_categories@,
    );
    match value_of(fields, "mrpack_loaders"@) {
        Some(values) => {
            let all = plain + text_values(values);
            assert forall|i: int| 0 <= i < all.len() implies not_mrpack()(#[trigger] all[i]) by {
                assert(all.contains(all[i]));
            }
            lemma_filter_keeps_all(all, not_mrpack());
        },
        None => {
            assert(plain + Seq::<Seq<char>>::empty() =~= plain);
        },
    }
}

/// A document whose loader fields have `mrpack_loaders` has no category `mrpack`.
pub proof fn lemma_mrpack_is_no_category(
    doc: DocumentView,
    project: ProjectRecord,
    version: VersionRecord,
    owner: Seq<char>,
    versions: Map<u64, VersionRecord>,
    sides: SidesView,
)
    requires
        describes(doc, project, version, owner, versions, sides),
        has_name(doc.loader_fields, "mrpack_loaders"@),
    ensures
        !doc.categories.contains("mrpack"@),
{
    let fields = reconciled(field_views(version.version_fields@));
    lemma_reconciled(field_views(version.version_fields@), "mrpack_loaders"@);
    lemma_field_names_differ();
    lemma_sides_keep_other_fields(fields, sides, "mrpack_loaders"@);
    let values = value_of(fields, "mrpack_loaders"@)->0;
    let all = texts(project.categories@) + texts(version.loaders@) + texts(
        project.additional_categories@,
    ) + text_values(values);
    assert(doc.categories == all.filter(not_mrpack()));
    if doc.categories.contains("mrpack"@) {
        let i = choose|i: int| 0 <= i < doc.categories.len() && doc.categories[i] == "mrpack"@;
        all.lemma_filter_pred(not_mrpack(), i);
    }
}

/// Every string of `mrpack_loaders` is a category of the document, but for
/// the string `mrpack`, which never is one.
pub proof fn lemma_mrpack_loaders_are_categories(
    doc: DocumentView,
    project: ProjectRecord,
    version: VersionRecord,
    owner: Seq<char>,
    versions: Map<u64, VersionRecord>,
    sides: SidesView,
    values: Seq<ValueView>,
    loader: Seq<char>,
)
    requires
        describes(doc, project, version, owner, versions, sides),
        value_of(doc.loader_fields, "mrpack_loaders"@) == Some(values),
        text_values(values).contains(loader),
        loader != "mrpack"@,
    ensures
        doc.categories.contains(loader),
{
    let fields = reconciled(field_views(version.version_fields@));
    lemma_reconciled(field_views(version.version_fields@), "mrpack_loaders"@);
    lemma_field_names_differ();
    lemma_sides_keep_other_fields(fields, sides, "mrpack_loaders"@);
    let plain = texts(project.categories@) + texts(version.loaders@) + texts(
        project.additional_categories@,
    );
    let injected = text_values(values);
    let all = plain + injected;
    let k = choose|k: int| 0 <= k < injected.len() && injected[k] == loader;
    assert(all[plain.len() + k] == loader);
    all.lemma_filter_contains(not_mrpack(), plain.len() + k);
}

/// A document is determined by what it is made from: two documents of the
/// same project, version, owner, loaded versions and sides are equal.
pub proof fn lemma_document_determined(
    a: DocumentView,
    b: DocumentView,
    project: ProjectRecord,
    version: VersionRecord,
    owner: Seq<char>,
    versions: Map<u64, VersionRecord>,
    sides: SidesView,
)
    requires
        describes(a, project, version, owner, versions, sides),
        describes(b, project, version, owner, versions, sides),
    ensures
        a == b,
{
    lemma_loader_union_unique(a.loaders, b.loaders, project.version_ids@, versions);
}

/// The side mapping gives one answer to one question.
pub open spec fn single_valued<F: Fn(&RawLoaderFields, Option<&String>) -> SideSupport>(
    mapper: F,
) -> bool {
    forall|
        raw1: RawLoaderFields,
        label1: String,
        sides1: SideSupport,
        raw2: RawLoaderFields,
        label2: String,
        sides2: SideSupport,
    |
        #![trigger call_ensures(mapper, (&raw1, Some(&label1)), sides1), call_ensures(mapper, (&raw2, Some(&label2)), sides2)]
        raw1@ == raw2@ && label1@ == label2@ && call_ensures(
            mapper,
            (&raw1, Some(&label1)),
            sides1,
        ) && call_ensures(mapper, (&raw2, Some(&label2)), sides2) ==> sides1@ == sides2@
}

/// Two runs over the same visible entries and the same loaded records give
/// the same documents in the same order, where the side mapping gives one
/// answer to one question.
pub proof fn lemma_runs_agree<F: Fn(&RawLoaderFields, Option<&String>) -> SideSupport>(
    mapper: F,
    first: Seq<DocumentView>,
    second: Seq<DocumentView>,
    visible: Seq<VisibleEntry>,
    projects: Map<u64, ProjectRecord>,
    versions: Map<u64, VersionRecord>,
)
    requires
        single_valued(mapper),
        first.len() == resolved(visible, projects, versions).len(),
        second.len() == resolved(visible, projects, versions).len(),
        forall|k: int|
            0 <= k < first.len() ==> assembled(
                mapper,
                #[trigger] first[k],
                resolved(visible, projects, versions)[k],
                projects,
                versions,
            ),
        forall|k: int|
            0 <= k < second.len() ==> assembled(
                mapper,
                #[trigger] second[k],
                resolved(visible, projects, versions)[k],
                projects,
                versions,
            ),
    ensures
        first == second,
{
    let entries = resolved(visible, projects, versions);
    assert forall|k: int| 0 <= k < first.len() implies first[k] == second[k] by {
        let entry = entries[k];
        assert(assembled(mapper, first[k], entry, projects, versions));
        assert(assembled(mapper, second[k], entry, projects, versions));
        let (raw1, label1, sides1) = choose|
            raw: RawLoaderFields,
            label: String,
            sides: SideSupport,
        | #[trigger]
            assembled_with(mapper, first[k], entry, projects, versions, raw, label, sides);
        let (raw2, label2, sides2) = choose|
            raw: RawLoaderFields,
            label: String,
            sides: SideSupport,
        | #[trigger]
            assembled_with(mapper, second[k], entry, projects, versions, raw, label, sides);
        assert(call_ensures(mapper, (&raw1, Some(&label1)), sides1));
        assert(call_ensures(mapper, (&raw2, Some(&label2)), sides2));
        assert(sides1@ == sides2@);
        lemma_document_determined(
            first[k],
            second[k],
            projects[entry.project_id],
            versions[entry.version_id],
            entry.owner@,
            versions,
            sides1@,
        );
    }
    assert(first =~= second);
}

} // verus!
