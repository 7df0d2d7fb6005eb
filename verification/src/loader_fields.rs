//! The two mappings made from a version's typed fields: field name to
//! serialized values, which a document carries, and field name to the typed
//! value as it was, which the derivation of the legacy side types reads.
//!
//! Both keep their entries in the order in which the names first came, so
//! that equal inputs give equal mappings.

use crate::fields::{
    distinct_names, duplicate_values, field_views, has_name, lemma_position_unique, lemma_put,
    position, put, put_more, serialized, value_of, value_views, FieldValue, FieldValueView,
    SerializedValue, ValueView, VersionField,
};
use crate::text::text_eq;
use vstd::prelude::*;
use vstd::string::*;

verus! {

#[derive(Debug, Clone, PartialEq, Eq)]
struct LoaderField {
    name: String,
    values: Vec<SerializedValue>,
}

/// Field name to list of serialized values, without repeated names.
#[derive(Debug, PartialEq, Eq)]
pub struct LoaderFields {
    entries: Vec<LoaderField>,
}

impl View for LoaderFields {
    type V = Seq<(Seq<char>, Seq<ValueView>)>;

    closed spec fn view(&self) -> Seq<(Seq<char>, Seq<ValueView>)> {
        Seq::new(
            self.entries@.len(),
            |i: int| (self.entries@[i].name@, value_views(self.entries@[i].values@)),
        )
    }
}

impl LoaderFields {
    /// No name occurs twice in a mapping.
    #[verifier::type_invariant]
    pub open spec fn names_distinct(self) -> bool {
        distinct_names(self@)
    }

    /// The empty mapping.
    pub fn new() -> (r: LoaderFields)
        ensures
            r@ == Seq::<(Seq<char>, Seq<ValueView>)>::empty(),
    {
        let r = LoaderFields { entries: Vec::new() };
        proof {
            assert(r@ =~= Seq::<(Seq<char>, Seq<ValueView>)>::empty());
        }
        r
    }

    /// The number of names.
    pub fn len(&self) -> (r: usize)
        ensures
            r == self@.len(),
    {
        self.entries.len()
    }

    /// The name of the entry at `i`, counted from 0 in the order of first insertion.
    pub fn name_at(&self, i: usize) -> (r: Option<&String>)
        ensures
            match r {
                Some(name) => i < self@.len() && name@ == self@[i as int].0,
                None => i >= self@.len(),
            },
    {
        if i < self.entries.len() {
            Some(&self.entries[i].name)
        } else {
            None
        }
    }

    /// The values of the entry at `i`.
    pub fn values_at(&self, i: usize) -> (r: Option<&Vec<SerializedValue>>)
        ensures
            match r {
                Some(values) => i < self@.len() && value_views(values@) == self@[i as int].1,
                None => i >= self@.len(),
            },
    {
        if i < self.entries.len() {
            Some(&self.entries[i].values)
        } else {
            None
        }
    }

    fn find(&self, name: &str) -> (r: Option<usize>)
        ensures
            match r {
                Some(i) => i < self@.len() && has_name(self@, name@) && position(self@, name@)
                    == i && self@[i as int].0 == name@,
                None => !has_name(self@, name@),
            },
    {
        proof {
            use_type_invariant(self);
            assert(entry_views(self.entries@) =~= self@);
        }
        find_entry(&self.entries, name)
    }

    /// Whether the mapping has `name`.
    pub fn contains_key(&self, name: &str) -> (r: bool)
        ensures
            r == has_name(self@, name@),
    {
        self.find(name).is_some()
    }

    /// The values stored under `name`.
    pub fn get(&self, name: &str) -> (r: Option<&Vec<SerializedValue>>)
        ensures
            match r {
                Some(values) => value_of(self@, name@) == Some(value_views(values@)),
                None => value_of(self@, name@) is None,
            },
    {
        match self.find(name) {
            Some(i) => Some(&self.entries[i].values),
            None => None,
        }
    }

    /// Stores `values` under `name`, in place of what was there.
    pub fn insert(&mut self, name: String, values: Vec<SerializedValue>)
        ensures
            final(self)@ == put(old(self)@, name@, value_views(values@)),
    {
        proof {
            use_type_invariant(&*self);
            lemma_put(self@, name@, value_views(values@));
        }
        let ghost before = self@;
        let ghost after = put(before, name@, value_views(values@));
        let mut entries: Vec<LoaderField> = Vec::new();
        core::mem::swap(&mut entries, &mut self.entries);
        match find_entry(&entries, name.as_str()) {
            Some(i) => {
                entries.remove(i);
                entries.insert(i, LoaderField { name, values });
            },
            None => {
                entries.push(LoaderField { name, values });
            },
        }
        proof {
            assert(entry_views(entries@) =~= after);
        }
        *self = LoaderFields { entries };
    }

    /// Appends `values` to what is stored under `name`; stores them where the
    /// name is new.
    pub fn extend(&mut self, name: String, values: Vec<SerializedValue>)
        ensures
            final(self)@ == put_more(old(self)@, name@, value_views(values@)),
    {
        let mut values = values;
        let ghost added = value_views(values@);
        let ghost before = self@;
        let ghost after = put_more(before, name@, added);
        proof {
            use_type_invariant(&*self);
            match value_of(before, name@) {
                Some(earlier) => lemma_put(before, name@, earlier + added),
                None => lemma_put(before, name@, added),
            }
        }
        let mut entries: Vec<LoaderField> = Vec::new();
        core::mem::swap(&mut entries, &mut self.entries);
        match find_entry(&entries, name.as_str()) {
            Some(i) => {
                let mut entry = entries.remove(i);
                let ghost earlier = value_views(entry.values@);
                entry.values.append(&mut values);
                proof {
                    assert(value_views(entry.values@) =~= earlier + added);
                }
                entries.insert(i, entry);
            },
            None => {
                entries.push(LoaderField { name, values });
            },
        }
        proof {
            assert(entry_views(entries@) =~= after);
        }
        *self = LoaderFields { entries };
    }

    /// A copy of the mapping.
    pub fn duplicate(&self) -> (r: LoaderFields)
        ensures
            r@ == self@,
    {
        proof {
            use_type_invariant(self);
        }
        let mut entries: Vec<LoaderField> = Vec::new();
        let mut i: usize = 0;
        while i < self.entries.len()
            invariant
                i <= self.entries@.len(),
                entries@.len() == i,
                forall|j: int|
                    0 <= j < i ==> (#[trigger] entries@[j]).name@ == self.entries@[j].name@
                        && value_views(entries@[j].values@) == value_views(
                        self.entries@[j].values@,
                    ),
            decreases self.entries@.len() - i,
        {
            entries.push(
                LoaderField {
                    name: self.entries[i].name.clone(),
                    values: duplicate_values(&self.entries[i].values),
                },
            );
            i += 1;
        }
        proof {
            assert(entry_views(entries@) =~= self@);
        }
        LoaderFields { entries }
    }
}

impl Clone for LoaderFields {
    fn clone(&self) -> (r: LoaderFields)
        ensures
            r@ == self@,
    {
        self.duplicate()
    }
}

spec fn entry_views(entries: Seq<LoaderField>) -> Seq<(Seq<char>, Seq<ValueView>)> {
    Seq::new(entries.len(), |i: int| (entries[i].name@, value_views(entries[i].values@)))
}

fn find_entry(entries: &Vec<LoaderField>, name: &str) -> (r: Option<usize>)
    requires
        distinct_names(entry_views(entries@)),
    ensures
        match r {
            Some(i) => i < entries@.len() && has_name(entry_views(entries@), name@) && position(
                entry_views(entries@),
                name@,
            ) == i && entries@[i as int].name@ == name@,
            None => !has_name(entry_views(entries@), name@),
        },
{
    let ghost views = entry_views(entries@);
    let mut i: usize = 0;
    while i < entries.len()
        invariant
            i <= entries@.len(),
            views == entry_views(entries@),
            distinct_names(views),
            forall|j: int| 0 <= j < i ==> (#[trigger] views[j]).0 != name@,
        decreases entries@.len() - i,
    {
        if text_eq(entries[i].name.as_str(), name) {
            proof {
                assert(views[i as int].0 == name@);
                lemma_position_unique(views, i as int);
            }
            return Some(i);
        }
        i += 1;
    }
    None
}

#[derive(Debug, Clone, PartialEq, Eq)]
struct RawField {
    name: String,
    value: FieldValue,
}

/// Field name to typed value, without repeated names.
#[derive(Debug, PartialEq, Eq)]
pub struct RawLoaderFields {
    entries: Vec<RawField>,
}

impl View for RawLoaderFields {
    type V = Seq<(Seq<char>, FieldValueView)>;

    closed spec fn view(&self) -> Seq<(Seq<char>, FieldValueView)> {
        raw_views(self.entries@)
    }
}

spec fn raw_views(entries: Seq<RawField>) -> Seq<(Seq<char>, FieldValueView)> {
    Seq::new(entries.len(), |i: int| (entries[i].name@, entries[i].value@))
}

impl RawLoaderFields {
    /// No name occurs twice in a mapping.
    #[verifier::type_invariant]
    pub open spec fn names_distinct(self) -> bool {
        distinct_names(self@)
    }

    /// The empty mapping.
    pub fn new() -> (r: RawLoaderFields)
        ensures
            r@ == Seq::<(Seq<char>, FieldValueView)>::empty(),
    {
        let r = RawLoaderFields { entries: Vec::new() };
        proof {
            assert(r@ =~= Seq::<(Seq<char>, FieldValueView)>::empty());
        }
        r
    }

    /// The number of names.
    pub fn len(&self) -> (r: usize)
        ensures
            r == self@.len(),
    {
        self.entries.len()
    }

    /// The name of the entry at `i`, counted from 0 in the order of first insertion.
    pub fn name_at(&self, i: usize) -> (r: Option<&String>)
        ensures
            match r {
                Some(name) => i < self@.len() && name@ == self@[i as int].0,
                None => i >= self@.len(),
            },
    {
        if i < self.entries.len() {
            Some(&self.entries[i].name)
        } else {
            None
        }
    }

    /// The value of the entry at `i`.
    pub fn value_at(&self, i: usize) -> (r: Option<&FieldValue>)
        ensures
            match r {
                Some(value) => i < self@.len() && value@ == self@[i as int].1,
                None => i >= self@.len(),
            },
    {
        if i < self.entries.len() {
            Some(&self.entries[i].value)
        } else {
            None
        }
    }

    fn find(&self, name: &str) -> (r: Option<usize>)
        ensures
            match r {
                Some(i) => i < self@.len() && has_name(self@, name@) && position(self@, name@)
                    == i && self@[i as int].0 == name@,
                None => !has_name(self@, name@),
            },
    {
        proof {
            use_type_invariant(self);
        }
        let ghost views = self@;
        let mut i: usize = 0;
        while i < self.entries.len()
            invariant
                i <= self.entries@.len(),
                views == raw_views(self.entries@),
                distinct_names(views),
                forall|j: int| 0 <= j < i ==> (#[trigger] views[j]).0 != name@,
            decreases self.entries@.len() - i,
        {
            if text_eq(self.entries[i].name.as_str(), name) {
                proof {
                    assert(views[i as int].0 == name@);
                    lemma_position_unique(views, i as int);
                }
                return Some(i);
            }
            i += 1;
        }
        None
    }

    /// The value stored under `name`.
    pub fn get(&self, name: &str) -> (r: Option<&FieldValue>)
        ensures
            match r {
                Some(value) => value_of(self@, name@) == Some(value@),
                None => value_of(self@, name@) is None,
            },
    {
        match self.find(name) {
            Some(i) => Some(&self.entries[i].value),
            None => None,
        }
    }

    /// Stores `value` under `name`, in place of what was there.
    pub fn insert(&mut self, name: String, value: FieldValue)
        ensures
            final(self)@ == put(old(self)@, name@, value@),
    {
        proof {
            use_type_invariant(&*self);
            lemma_put(self@, name@, value@);
        }
        let ghost after = put(self@, name@, value@);
        let found = self.find(name.as_str());
        let mut entries: Vec<RawField> = Vec::new();
        core::mem::swap(&mut entries, &mut self.entries);
        match found {
            Some(i) => {
                entries.remove(i);
                entries.insert(i, RawField { name, value });
            },
            None => {
                entries.push(RawField { name, value });
            },
        }
        proof {
            assert(raw_views(entries@) =~= after);
        }
        *self = RawLoaderFields { entries };
    }
}

/// The mapping from field name to serialized values that a list of typed
/// fields gives: each field's values are appended to what earlier fields of
/// the same name gave, and names stand in the order in which they first come.
pub open spec fn reconciled(fields: Seq<(Seq<char>, FieldValueView)>) -> Seq<
    (Seq<char>, Seq<ValueView>),
>
    decreases fields.len(),
{
    if fields.len() == 0 {
        Seq::empty()
    } else {
        put_more(reconciled(fields.drop_last()), fields.last().0, serialized(fields.last().1))
    }
}

/// The mapping from field name to typed value that a list of typed fields
/// gives: of fields with one name the last one counts.
pub open spec fn raw_mapping(fields: Seq<(Seq<char>, FieldValueView)>) -> Seq<
    (Seq<char>, FieldValueView),
>
    decreases fields.len(),
{
    if fields.len() == 0 {
        Seq::empty()
    } else {
        put(raw_mapping(fields.drop_last()), fields.last().0, fields.last().1)
    }
}

/// Whether some field of the list has this name.
pub open spec fn named(fields: Seq<(Seq<char>, FieldValueView)>, name: Seq<char>) -> bool {
    exists|i: int| 0 <= i < fields.len() && (#[trigger] fields[i]).0 == name
}

/// The serialized values of all fields of this name, in the fields' order.
pub open spec fn values_named(fields: Seq<(Seq<char>, FieldValueView)>, name: Seq<char>) -> Seq<
    ValueView,
>
    decreases fields.len(),
{
    if fields.len() == 0 {
        Seq::empty()
    } else if fields.last().0 == name {
        values_named(fields.drop_last(), name) + serialized(fields.last().1)
    } else {
        values_named(fields.drop_last(), name)
    }
}

/// The typed value of the last field of this name.
pub open spec fn last_named(fields: Seq<(Seq<char>, FieldValueView)>, name: Seq<char>) -> Option<
    FieldValueView,
>
    decreases fields.len(),
{
    if fields.len() == 0 {
        None
    } else if fields.last().0 == name {
        Some(fields.last().1)
    } else {
        last_named(fields.drop_last(), name)
    }
}

proof fn lemma_named_step(fields: Seq<(Seq<char>, FieldValueView)>, name: Seq<char>)
    requires
        fields.len() > 0,
    ensures
        named(fields, name) == (fields.last().0 == name || named(fields.drop_last(), name)),
{
    let front = fields.drop_last();
    if named(fields, name) {
        let i = choose|i: int| 0 <= i < fields.len() && (#[trigger] fields[i]).0 == name;
        if i < fields.len() - 1 {
            assert(front[i].0 == name);
        }
    }
    if named(front, name) {
        let i = choose|i: int| 0 <= i < front.len() && (#[trigger] front[i]).0 == name;
        assert(fields[i].0 == name);
    }
    if fields.last().0 == name {
        assert(fields[fields.len() - 1].0 == name);
    }
}

/// Fields of one name never overwrite each other: the mapping has a name
/// exactly when some field has it, and holds under it the serialized values
/// of all fields of that name, in their order. No name occurs twice.
pub proof fn lemma_reconciled(fields: Seq<(Seq<char>, FieldValueView)>, name: Seq<char>)
    ensures
        distinct_names(reconciled(fields)),
        has_name(reconciled(fields), name) == named(fields, name),
        named(fields, name) ==> value_of(reconciled(fields), name) == Some(
            values_named(fields, name),
        ),
        !named(fields, name) ==> values_named(fields, name) == Seq::<ValueView>::empty(),
    decreases fields.len(),
{
    if fields.len() > 0 {
        let front = fields.drop_last();
        let before = reconciled(front);
        let key = fields.last().0;
        let added = serialized(fields.last().1);
        lemma_reconciled(front, name);
        lemma_reconciled(front, key);
        lemma_named_step(fields, name);
        match value_of(before, key) {
            Some(earlier) => {
                lemma_put(before, key, earlier + added);
            },
            None => {
                lemma_put(before, key, added);
                assert(Seq::<ValueView>::empty() + added =~= added);
            },
        }
    }
}

/// The raw mapping has a name exactly when some field has it, and holds
/// under it the typed value of the last field of that name.
pub proof fn lemma_raw_mapping(fields: Seq<(Seq<char>, FieldValueView)>, name: Seq<char>)
    ensures
        distinct_names(raw_mapping(fields)),
        has_name(raw_mapping(fields), name) == named(fields, name),
        value_of(raw_mapping(fields), name) == last_named(fields, name),
    decreases fields.len(),
{
    if fields.len() > 0 {
        let front = fields.drop_last();
        lemma_raw_mapping(front, name);
        lemma_raw_mapping(front, fields.last().0);
        lemma_named_step(fields, name);
        lemma_put(raw_mapping(front), fields.last().0, fields.last().1);
    }
}

/// The name-to-values mapping of a version's typed fields.
pub fn reconcile_fields(fields: &Vec<VersionField>) -> (r: LoaderFields)
    ensures
        r@ == reconciled(field_views(fields@)),
{
    let ghost all = field_views(fields@);
    let mut r = LoaderFields::new();
    let mut i: usize = 0;
    while i < fields.len()
        invariant
            i <= fields.len(),
            all == field_views(fields@),
            r@ == reconciled(all.take(i as int)),
        decreases fields.len() - i,
    {
        proof {
            assert(all.take(i as int + 1).drop_last() =~= all.take(i as int));
            assert(all.take(i as int + 1).last() == all[i as int]);
        }
        r.extend(fields[i].field_name.clone(), fields[i].value.serialize());
        i += 1;
    }
    proof {
        assert(all.take(fields.len() as int) =~= all);
    }
    r
}

/// The name-to-typed-value mapping of a version's typed fields.
pub fn raw_fields(fields: &Vec<VersionField>) -> (r: RawLoaderFields)
    ensures
        r@ == raw_mapping(field_views(fields@)),
{
    let ghost all = field_views(fields@);
    let mut r = RawLoaderFields::new();
    let mut i: usize = 0;
    while i < fields.len()
        invariant
            i <= fields.len(),
            all == field_views(fields@),
            r@ == raw_mapping(all.take(i as int)),
        decreases fields.len() - i,
    {
        proof {
            assert(all.take(i as int + 1).drop_last() =~= all.take(i as int));
            assert(all.take(i as int + 1).last() == all[i as int]);
        }
        r.insert(fields[i].field_name.clone(), fields[i].value.duplicate());
        i += 1;
    }
    proof {
        assert(all.take(fields.len() as int) =~= all);
    }
    r
}

} // verus!
