//! Loader fields: the typed metadata fields of a version, and the generic
//! mapping from field name to serialized values that a document carries.

use crate::text::{clone_texts, texts};
use vstd::prelude::*;
use vstd::string::*;

verus! {

/// One serialized value of a loader field.
#[derive(Debug, Clone, PartialEq, Eq)]
pub enum SerializedValue {
    Integer(i64),
    Text(String),
    Boolean(bool),
}

/// What a [`SerializedValue`] holds.
pub enum ValueView {
    Integer(i64),
    Text(Seq<char>),
    Boolean(bool),
}

impl View for SerializedValue {
    type V = ValueView;

    open spec fn view(&self) -> ValueView {
        match self {
            SerializedValue::Integer(i) => ValueView::Integer(*i),
            SerializedValue::Text(t) => ValueView::Text(t@),
            SerializedValue::Boolean(b) => ValueView::Boolean(*b),
        }
    }
}

impl SerializedValue {
    /// A copy of the value.
    pub fn duplicate(&self) -> (r: SerializedValue)
        ensures
            r@ == self@,
    {
        match self {
            SerializedValue::Integer(i) => SerializedValue::Integer(*i),
            SerializedValue::Text(t) => SerializedValue::Text(t.clone()),
            SerializedValue::Boolean(b) => SerializedValue::Boolean(*b),
        }
    }
}

/// What a list of serialized values holds.
pub open spec fn value_views(v: Seq<SerializedValue>) -> Seq<ValueView> {
    Seq::new(v.len(), |i: int| v[i]@)
}

/// A copy of a list of serialized values.
pub fn duplicate_values(v: &Vec<SerializedValue>) -> (r: Vec<SerializedValue>)
    ensures
        value_views(r@) == value_views(v@),
{
    let mut r: Vec<SerializedValue> = Vec::new();
    let mut i: usize = 0;
    while i < v.len()
        invariant
            i <= v.len(),
            r@.len() == i,
            forall|k: int| 0 <= k < i ==> r@[k]@ == v@[k]@,
        decreases v.len() - i,
    {
        r.push(v[i].duplicate());
        i += 1;
    }
    proof {
        assert(value_views(r@) =~= value_views(v@));
    }
    r
}

/// The typed value of a version field.
#[derive(Debug, Clone, PartialEq, Eq)]
pub enum FieldValue {
    Integer(i64),
    Text(String),
    Boolean(bool),
    Integers(Vec<i64>),
    Texts(Vec<String>),
    Booleans(Vec<bool>),
}

/// What a [`FieldValue`] holds.
pub enum FieldValueView {
    Integer(i64),
    Text(Seq<char>),
    Boolean(bool),
    Integers(Seq<i64>),
    Texts(Seq<Seq<char>>),
    Booleans(Seq<bool>),
}

impl View for FieldValue {
    type V = FieldValueView;

    open spec fn view(&self) -> FieldValueView {
        match self {
            FieldValue::Integer(i) => FieldValueView::Integer(*i),
            FieldValue::Text(t) => FieldValueView::Text(t@),
            FieldValue::Boolean(b) => FieldValueView::Boolean(*b),
            FieldValue::Integers(v) => FieldValueView::Integers(v@),
            FieldValue::Texts(v) => FieldValueView::Texts(texts(v@)),
            FieldValue::Booleans(v) => FieldValueView::Booleans(v@),
        }
    }
}

/// The serialized values of a typed value: one for a single value, one for
/// each element of a list.
pub open spec fn serialized(v: FieldValueView) -> Seq<ValueView> {
    match v {
        FieldValueView::Integer(i) => seq![ValueView::Integer(i)],
        FieldValueView::Text(t) => seq![ValueView::Text(t)],
        FieldValueView::Boolean(b) => seq![ValueView::Boolean(b)],
        FieldValueView::Integers(s) => Seq::new(s.len(), |k: int| ValueView::Integer(s[k])),
        FieldValueView::Texts(s) => Seq::new(s.len(), |k: int| ValueView::Text(s[k])),
        FieldValueView::Booleans(s) => Seq::new(s.len(), |k: int| ValueView::Boolean(s[k])),
    }
}

impl FieldValue {
    /// A copy of the value.
    pub fn duplicate(&self) -> (r: FieldValue)
        ensures
            r@ == self@,
    {
        match self {
            FieldValue::Integer(i) => FieldValue::Integer(*i),
            FieldValue::Text(t) => FieldValue::Text(t.clone()),
            FieldValue::Boolean(b) => FieldValue::Boolean(*b),
            FieldValue::Integers(v) => FieldValue::Integers(v.clone()),
            FieldValue::Texts(v) => FieldValue::Texts(clone_texts(v)),
            FieldValue::Booleans(v) => FieldValue::Booleans(v.clone()),
        }
    }

    /// The serialized values of this value, lists flattened.
    pub fn serialize(&self) -> (r: Vec<SerializedValue>)
        ensures
            value_views(r@) == serialized(self@),
    {
        let mut r: Vec<SerializedValue> = Vec::new();
        match self {
            FieldValue::Integer(i) => {
                r.push(SerializedValue::Integer(*i));
            },
            FieldValue::Text(t) => {
                r.push(SerializedValue::Text(t.clone()));
            },
            FieldValue::Boolean(b) => {
                r.push(SerializedValue::Boolean(*b));
            },
            FieldValue::Integers(v) => {
                let mut k: usize = 0;
                while k < v.len()
                    invariant
                        k <= v.len(),
                        r@.len() == k,
                        forall|j: int| 0 <= j < k ==> r@[j]@ == ValueView::Integer(v@[j]),
                    decreases v.len() - k,
                {
                    r.push(SerializedValue::Integer(v[k]));
                    k += 1;
                }
            },
            FieldValue::Texts(v) => {
                let mut k: usize = 0;
                while k < v.len()
                    invariant
                        k <= v.len(),
                        r@.len() == k,
                        forall|j: int| 0 <= j < k ==> r@[j]@ == ValueView::Text(v@[j]@),
                    decreases v.len() - k,
                {
                    r.push(SerializedValue::Text(v[k].clone()));
                    k += 1;
                }
            },
            FieldValue::Booleans(v) => {
                let mut k: usize = 0;
                while k < v.len()
                    invariant
                        k <= v.len(),
                        r@.len() == k,
                        forall|j: int| 0 <= j < k ==> r@[j]@ == ValueView::Boolean(v@[j]),
                    decreases v.len() - k,
                {
                    r.push(SerializedValue::Boolean(v[k]));
                    k += 1;
                }
            },
        }
        proof {
            assert(value_views(r@) =~= serialized(self@));
        }
        r
    }
}

/// A typed field attached to a version.
#[derive(Debug, Clone, PartialEq, Eq)]
pub struct VersionField {
    pub field_name: String,
    pub value: FieldValue,
}

/// What a list of version fields holds: each field's name and typed value.
pub open spec fn field_views(fields: Seq<VersionField>) -> Seq<(Seq<char>, FieldValueView)> {
    Seq::new(fields.len(), |i: int| (fields[i].field_name@, fields[i].value@))
}

/// Whether an association list has an entry under `name`.
pub open spec fn has_name<V>(entries: Seq<(Seq<char>, V)>, name: Seq<char>) -> bool {
    exists|i: int| 0 <= i < entries.len() && (#[trigger] entries[i]).0 == name
}

/// The index of an entry under `name`.
pub open spec fn position<V>(entries: Seq<(Seq<char>, V)>, name: Seq<char>) -> int {
    choose|i: int| 0 <= i < entries.len() && (#[trigger] entries[i]).0 == name
}

/// No name occurs twice.
pub open spec fn distinct_names<V>(entries: Seq<(Seq<char>, V)>) -> bool {
    forall|i: int, j: int|
        0 <= i < j < entries.len() ==> (#[trigger] entries[i]).0 != (#[trigger] entries[j]).0
}

/// The value stored under `name`, if any.
pub open spec fn value_of<V>(entries: Seq<(Seq<char>, V)>, name: Seq<char>) -> Option<V> {
    if has_name(entries, name) {
        Some(entries[position(entries, name)].1)
    } else {
        None
    }
}

/// The list with `value` stored under `name`: in place of the earlier value
/// where the name is present, as a new last entry where it is not.
pub open spec fn put<V>(entries: Seq<(Seq<char>, V)>, name: Seq<char>, value: V) -> Seq<
    (Seq<char>, V),
> {
    if has_name(entries, name) {
        entries.update(position(entries, name), (name, value))
    } else {
        entries.push((name, value))
    }
}

/// The list with `values` appended to what is stored under `name`.
pub open spec fn put_more(
    entries: Seq<(Seq<char>, Seq<ValueView>)>,
    name: Seq<char>,
    values: Seq<ValueView>,
) -> Seq<(Seq<char>, Seq<ValueView>)> {
    match value_of(entries, name) {
        Some(earlier) => put(entries, name, earlier + values),
        None => put(entries, name, values),
    }
}

/// In a list without repeated names, the entry at `i` is the one found under its name.
pub proof fn lemma_position_unique<V>(entries: Seq<(Seq<char>, V)>, i: int)
    requires
        distinct_names(entries),
        0 <= i < entries.len(),
    ensures
        has_name(entries, entries[i].0),
        position(entries, entries[i].0) == i,
        value_of(entries, entries[i].0) == Some(entries[i].1),
{
    let k = position(entries, entries[i].0);
    assert(0 <= k < entries.len() && entries[k].0 == entries[i].0);
    if k < i {
        assert(entries[k].0 != entries[i].0);
    } else if i < k {
        assert(entries[i].0 != entries[k].0);
    }
}

/// Storing a value keeps names distinct, and is seen by a later lookup of
/// that name and of no other.
pub proof fn lemma_put<V>(entries: Seq<(Seq<char>, V)>, name: Seq<char>, value: V)
    requires
        distinct_names(entries),
    ensures
        distinct_names(put(entries, name, value)),
        value_of(put(entries, name, value), name) == Some(value),
        forall|other: Seq<char>|
            other != name ==> has_name(put(entries, name, value), other) == has_name(
                entries,
                other,
            ) && #[trigger] value_of(put(entries, name, value), other) == value_of(entries, other),
{
    let after = put(entries, name, value);
    if has_name(entries, name) {
        let p = position(entries, name);
        assert(0 <= p < entries.len() && entries[p].0 == name);
        assert forall|i: int, j: int| 0 <= i < j < after.len() implies (#[trigger] after[i]).0 != (
        #[trigger] after[j]).0 by {
            assert(after[i].0 == entries[i].0);
            assert(after[j].0 == entries[j].0);
        }
        assert(after[p].0 == name);
        lemma_position_unique(after, p);
        assert forall|other: Seq<char>| other != name implies has_name(after, other) == has_name(
            entries,
            other,
        ) && #[trigger] value_of(after, other) == value_of(entries, other) by {
            if has_name(entries, other) {
                let q = position(entries, other);
                assert(after[q] == entries[q]);
                lemma_position_unique(after, q);
            }
            if has_name(after, other) {
                let q = position(after, other);
                assert(after[q] == entries[q]);
                lemma_position_unique(entries, q);
            }
        }
    } else {
        let p = entries.len() as int;
        assert forall|i: int, j: int| 0 <= i < j < after.len() implies (#[trigger] after[i]).0 != (
        #[trigger] after[j]).0 by {
            assert(after[i] == entries[i]);
            if j < p {
                assert(after[j] == entries[j]);
            }
        }
        assert(after[p].0 == name);
        lemma_position_unique(after, p);
        assert forall|other: Seq<char>| other != name implies has_name(after, other) == has_name(
            entries,
            other,
        ) && #[trigger] value_of(after, other) == value_of(entries, other) by {
            if has_name(entries, other) {
                let q = position(entries, other);
                assert(after[q] == entries[q]);
                lemma_position_unique(after, q);
            }
            if has_name(after, other) {
                let q = position(after, other);
                assert(after[q] == entries[q]);
                lemma_position_unique(entries, q);
            }
        }
    }
}

} // verus!
