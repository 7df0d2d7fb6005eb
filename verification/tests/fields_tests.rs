use search_indexing::fields::{duplicate_values, FieldValue, SerializedValue, VersionField};
use search_indexing::loader_fields::{raw_fields, reconcile_fields, LoaderFields, RawLoaderFields};

fn field(name: &str, value: FieldValue) -> VersionField {
    VersionField { field_name: name.to_string(), value }
}

fn text(s: &str) -> SerializedValue {
    SerializedValue::Text(s.to_string())
}

#[test]
fn single_values_serialize_to_one_value() {
    assert_eq!(FieldValue::Integer(-7).serialize(), vec![SerializedValue::Integer(-7)]);
    assert_eq!(FieldValue::Text("x".to_string()).serialize(), vec![text("x")]);
    assert_eq!(FieldValue::Boolean(true).serialize(), vec![SerializedValue::Boolean(true)]);
}

#[test]
fn lists_serialize_to_their_elements() {
    assert_eq!(
        FieldValue::Integers(vec![3, 1, 3]).serialize(),
        vec![SerializedValue::Integer(3), SerializedValue::Integer(1), SerializedValue::Integer(3)]
    );
    assert_eq!(
        FieldValue::Texts(vec!["1.20".to_string(), "1.19".to_string()]).serialize(),
        vec![text("1.20"), text("1.19")]
    );
    assert_eq!(
        FieldValue::Booleans(vec![false, true]).serialize(),
        vec![SerializedValue::Boolean(false), SerializedValue::Boolean(true)]
    );
    assert_eq!(FieldValue::Texts(Vec::new()).serialize(), Vec::<SerializedValue>::new());
}

#[test]
fn copies_of_values_are_equal() {
    let value = FieldValue::Texts(vec!["a".to_string(), "b".to_string()]);
    assert_eq!(value.duplicate(), value);
    assert_eq!(text("a").duplicate(), text("a"));
    let values = vec![text("a"), SerializedValue::Integer(1)];
    assert_eq!(duplicate_values(&values), values);
}

#[test]
fn fields_of_one_name_append() {
    let fields = vec![
        field("game_versions", FieldValue::Texts(vec!["1.20".to_string(), "1.19".to_string()])),
        field("singleplayer", FieldValue::Boolean(true)),
        field("game_versions", FieldValue::Text("1.20".to_string())),
    ];
    let mapping = reconcile_fields(&fields);
    assert_eq!(mapping.len(), 2);
    assert_eq!(mapping.name_at(0), Some(&"game_versions".to_string()));
    assert_eq!(mapping.name_at(1), Some(&"singleplayer".to_string()));
    assert_eq!(mapping.name_at(2), None);
    assert_eq!(mapping.get("game_versions"), Some(&vec![text("1.20"), text("1.19"), text("1.20")]));
    assert_eq!(mapping.get("singleplayer"), Some(&vec![SerializedValue::Boolean(true)]));
    assert_eq!(mapping.values_at(1), Some(&vec![SerializedValue::Boolean(true)]));
    assert_eq!(mapping.values_at(2), None);
    assert_eq!(mapping.get("client_only"), None);
    assert!(mapping.contains_key("singleplayer"));
    assert!(!mapping.contains_key("Singleplayer"));
}

#[test]
fn no_fields_give_an_empty_mapping() {
    let mapping = reconcile_fields(&Vec::new());
    assert_eq!(mapping.len(), 0);
    assert_eq!(mapping, LoaderFields::new());
    assert_eq!(raw_fields(&Vec::new()), RawLoaderFields::new());
}

#[test]
fn raw_mapping_keeps_the_last_typed_value() {
    let fields = vec![
        field("client_only", FieldValue::Boolean(false)),
        field("game_versions", FieldValue::Texts(vec!["1.20".to_string()])),
        field("client_only", FieldValue::Boolean(true)),
    ];
    let raw = raw_fields(&fields);
    assert_eq!(raw.len(), 2);
    assert_eq!(raw.name_at(0), Some(&"client_only".to_string()));
    assert_eq!(raw.value_at(0), Some(&FieldValue::Boolean(true)));
    assert_eq!(raw.get("client_only"), Some(&FieldValue::Boolean(true)));
    assert_eq!(raw.get("game_versions"), Some(&FieldValue::Texts(vec!["1.20".to_string()])));
    assert_eq!(raw.get("server_only"), None);
    assert_eq!(raw.name_at(2), None);
    assert_eq!(raw.value_at(2), None);
}

#[test]
fn insert_replaces_and_extend_appends() {
    let mut mapping = LoaderFields::new();
    mapping.insert("a".to_string(), vec![text("1")]);
    mapping.insert("b".to_string(), vec![text("2")]);
    mapping.insert("a".to_string(), vec![text("3")]);
    assert_eq!(mapping.len(), 2);
    assert_eq!(mapping.name_at(0), Some(&"a".to_string()));
    assert_eq!(mapping.get("a"), Some(&vec![text("3")]));
    mapping.extend("a".to_string(), vec![text("4"), text("3")]);
    mapping.extend("c".to_string(), vec![text("5")]);
    assert_eq!(mapping.get("a"), Some(&vec![text("3"), text("4"), text("3")]));
    assert_eq!(mapping.get("b"), Some(&vec![text("2")]));
    assert_eq!(mapping.get("c"), Some(&vec![text("5")]));
    assert_eq!(mapping.len(), 3);
    assert_eq!(mapping.duplicate(), mapping);
    assert_eq!(mapping.clone(), mapping);
}

#[test]
fn raw_insert_replaces_in_place() {
    let mut raw = RawLoaderFields::new();
    raw.insert("a".to_string(), FieldValue::Integer(1));
    raw.insert("b".to_string(), FieldValue::Integer(2));
    raw.insert("a".to_string(), FieldValue::Integer(3));
    assert_eq!(raw.len(), 2);
    assert_eq!(raw.name_at(0), Some(&"a".to_string()));
    assert_eq!(raw.get("a"), Some(&FieldValue::Integer(3)));
    assert_eq!(raw.get("b"), Some(&FieldValue::Integer(2)));
}
