//! The categories of a document. For older clients the loaders of a version
//! count as categories, and so do the loaders that a modpack is made for.

use crate::fields::{value_of, value_views, SerializedValue, ValueView};
use crate::loader_fields::LoaderFields;
use crate::records::{ProjectRecord, VersionRecord};
use crate::text::{
    append_texts, clone_texts, lemma_texts_add, lemma_texts_push, text_eq, texts,
};
use vstd::prelude::*;
use vstd::string::*;

verus! {

/// The strings among a list of serialized values, in the list's order.
pub open spec fn text_values(values: Seq<ValueView>) -> Seq<Seq<char>>
    decreases values.len(),
{
    if values.len() == 0 {
        Seq::empty()
    } else {
        match values.last() {
            ValueView::Text(t) => text_values(values.drop_last()).push(t),
            _ => text_values(values.drop_last()),
        }
    }
}

/// Holds of every category but the literal `mrpack`.
pub open spec fn not_mrpack() -> spec_fn(Seq<char>) -> bool {
    |c: Seq<char>| c != "mrpack"@
}

/// The categories shown for a document: those of the project, then the
/// loaders of the version.
pub open spec fn display_list(categories: Seq<Seq<char>>, loaders: Seq<Seq<char>>) -> Seq<
    Seq<char>,
> {
    categories + loaders
}

/// The categories a document is found by: the project's categories, the
/// version's loaders and the project's additional categories. Where the
/// loader fields have `mrpack_loaders`, its strings follow, and the category
/// `mrpack` is taken out of the whole list.
pub open spec fn category_list(
    categories: Seq<Seq<char>>,
    loaders: Seq<Seq<char>>,
    additional: Seq<Seq<char>>,
    mrpack_loaders: Option<Seq<ValueView>>,
) -> Seq<Seq<char>> {
    match mrpack_loaders {
        Some(values) => (categories + loaders + additional + text_values(values)).filter(
            not_mrpack(),
        ),
        None => categories + loaders + additional,
    }
}

/// The strings among `values`.
pub fn text_values_of(values: &Vec<SerializedValue>) -> (r: Vec<String>)
    ensures
        texts(r@) == text_values(value_views(values@)),
{
    let ghost all = value_views(values@);
    let mut r: Vec<String> = Vec::new();
    let mut i: usize = 0;
    proof {
        assert(texts(r@) =~= Seq::<Seq<char>>::empty());
        assert(all.take(0) =~= Seq::<ValueView>::empty());
    }
    while i < values.len()
        invariant
            i <= values.len(),
            all == value_views(values@),
            texts(r@) == text_values(all.take(i as int)),
        decreases values.len() - i,
    {
        proof {
            assert(all.take(i as int + 1).drop_last() =~= all.take(i as int));
            assert(all.take(i as int + 1).last() == values@[i as int]@);
        }
        match &values[i] {
            SerializedValue::Text(t) => {
                proof {
                    lemma_texts_push(r@, *t);
                }
                r.push(t.clone());
            },
            _ => {},
        }
        i += 1;
    }
    proof {
        assert(all.take(values.len() as int) =~= all);
    }
    r
}

/// The list without the category `mrpack`.
pub fn without_mrpack(list: &Vec<String>) -> (r: Vec<String>)
    ensures
        texts(r@) == texts(list@).filter(not_mrpack()),
{
    let ghost all = texts(list@);
    let mut r: Vec<String> = Vec::new();
    let mut i: usize = 0;
    proof {
        reveal(Seq::filter);
        assert(texts(r@) =~= Seq::<Seq<char>>::empty());
        assert(all.take(0) =~= Seq::<Seq<char>>::empty());
    }
    while i < list.len()
        invariant
            i <= list.len(),
            all == texts(list@),
            texts(r@) == all.take(i as int).filter(not_mrpack()),
        decreases list.len() - i,
    {
        proof {
            assert(all.take(i as int + 1) =~= all.take(i as int).push(list@[i as int]@));
            all.take(i as int).lemma_filter_push(list@[i as int]@, not_mrpack());
        }
        if !text_eq(list[i].as_str(), "mrpack") {
            proof {
                lemma_texts_push(r@, list@[i as int]);
            }
            r.push(list[i].clone());
        }
        i += 1;
    }
    proof {
        assert(all.take(list.len() as int) =~= all);
    }
    r
}

/// The categories shown for a document.
pub fn display_categories(project: &ProjectRecord, version: &VersionRecord) -> (r: Vec<String>)
    ensures
        texts(r@) == display_list(texts(project.categories@), texts(version.loaders@)),
{
    let mut r = clone_texts(&project.categories);
    append_texts(&mut r, &version.loaders);
    proof {
        lemma_texts_add(project.categories@, version.loaders@);
    }
    r
}

/// The categories a document is found by.
pub fn search_categories(
    project: &ProjectRecord,
    version: &VersionRecord,
    loader_fields: &LoaderFields,
) -> (r: Vec<String>)
    ensures
        texts(r@) == category_list(
            texts(project.categories@),
            texts(version.loaders@),
            texts(project.additional_categories@),
            value_of(loader_fields@, "mrpack_loaders"@),
        ),
{
    let mut all = clone_texts(&project.categories);
    append_texts(&mut all, &version.loaders);
    append_texts(&mut all, &project.additional_categories);
    proof {
        lemma_texts_add(project.categories@, version.loaders@);
        lemma_texts_add(project.categories@ + version.loaders@, project.additional_categories@);
    }
    match loader_fields.get("mrpack_loaders") {
        Some(values) => {
            let injected = text_values_of(values);
            proof {
                lemma_texts_add(all@, injected@);
            }
            append_texts(&mut all, &injected);
            without_mrpack(&all)
        },
        None => all,
    }
}

/// The label of a version's project type for older clients: `modpack` where
/// the version has that type among others, else its first type, and
/// `project` where it has none.
pub open spec fn legacy_type_of(types: Seq<Seq<char>>) -> Seq<char> {
    if types.contains("modpack"@) {
        "modpack"@
    } else if types.len() > 0 {
        types[0]
    } else {
        "project"@
    }
}

/// The label of a version's project type for older clients.
pub fn legacy_project_type(types: &Vec<String>) -> (r: String)
    ensures
        r@ == legacy_type_of(texts(types@)),
{
    let ghost all = texts(types@);
    let mut i: usize = 0;
    while i < types.len()
        invariant
            i <= types.len(),
            all == texts(types@),
            forall|k: int| 0 <= k < i ==> #[trigger] all[k] != "modpack"@,
        decreases types.len() - i,
    {
        if text_eq(types[i].as_str(), "modpack") {
            proof {
                assert(all[i as int] == "modpack"@);
            }
            return "modpack".to_owned();
        }
        i += 1;
    }
    if types.len() > 0 {
        proof {
            assert(all[0] == types@[0]@);
        }
        types[0].clone()
    } else {
        "project".to_owned()
    }
}

} // verus!
