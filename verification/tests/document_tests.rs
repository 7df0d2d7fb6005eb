use search_indexing::assemble::index_local;
use search_indexing::batch::{index_projects, index_versions};
use search_indexing::document::{apply_sides, build_document, side_query, SearchDocument, SideSupport};
use search_indexing::fields::{FieldValue, SerializedValue, VersionField};
use search_indexing::loader_fields::{LoaderFields, RawLoaderFields};
use search_indexing::records::{
    GalleryItem, Link, ProjectRecord, Timestamp, VersionRecord, VisibleEntry,
};
use std::collections::HashMap;

fn strings(items: &[&str]) -> Vec<String> {
    items.iter().map(|s| s.to_string()).collect()
}

fn text(s: &str) -> SerializedValue {
    SerializedValue::Text(s.to_string())
}

fn sample_project() -> ProjectRecord {
    ProjectRecord {
        id: 62,
        name: "Sodium".to_string(),
        summary: "Faster rendering".to_string(),
        categories: strings(&["optimization"]),
        additional_categories: strings(&["utility"]),
        license: "MIT OR Apache-2.0".to_string(),
        license_url: Some("https://example.org/license".to_string()),
        icon_url: Some("https://example.org/icon.png".to_string()),
        color: Some(0x00ff_aa11),
        team_id: 3844,
        organization_id: Some(61),
        thread_id: 10,
        status: "approved".to_string(),
        requested_status: Some("archived".to_string()),
        slug: Some("sodium".to_string()),
        follows: 12,
        downloads: 3456,
        approved_at: Some(Timestamp { seconds: 1_700_000_000, nanos: 500 }),
        published_at: Timestamp { seconds: 1_600_000_000, nanos: 7 },
        updated_at: Timestamp { seconds: 1_710_000_000, nanos: 999_999_999 },
        queued_at: Some(Timestamp { seconds: 1_650_000_000, nanos: 0 }),
        monetization_status: "monetized".to_string(),
        project_types: strings(&["mod"]),
        games: strings(&["minecraft"]),
        links: vec![Link { platform: "wiki".to_string(), url: "https://example.org/wiki".to_string() }],
        gallery_items: vec![
            GalleryItem { url: "one.png".to_string(), featured: false },
            GalleryItem { url: "two.png".to_string(), featured: true },
            GalleryItem { url: "three.png".to_string(), featured: true },
        ],
        version_ids: vec![1, 2, 3],
    }
}

fn sample_version(id: u64, loaders: &[&str]) -> VersionRecord {
    VersionRecord {
        id,
        project_id: 62,
        status: "listed".to_string(),
        loaders: strings(loaders),
        project_types: strings(&["mod"]),
        version_fields: vec![
            VersionField {
                field_name: "game_versions".to_string(),
                value: FieldValue::Texts(strings(&["1.20", "1.19"])),
            },
            VersionField { field_name: "client_only".to_string(), value: FieldValue::Boolean(true) },
        ],
    }
}

fn sample_versions() -> HashMap<u64, VersionRecord> {
    index_versions(vec![sample_version(1, &["quilt", "fabric"]), sample_version(2, &["forge", "fabric"])])
}

fn sides(client: &str, server: &str) -> SideSupport {
    SideSupport { client_side: Some(text(client)), server_side: Some(text(server)) }
}

fn fixed_sides(_raw: &RawLoaderFields, _label: Option<&String>) -> SideSupport {
    sides("required", "unsupported")
}

#[test]
fn document_of_a_version() {
    let project = sample_project();
    let versions = sample_versions();
    let doc = build_document(
        &project,
        &versions[&1],
        "ann".to_string(),
        &versions,
        sides("required", "optional"),
    );
    let mut fields = LoaderFields::new();
    fields.insert("game_versions".to_string(), vec![text("1.20"), text("1.19")]);
    fields.insert("client_only".to_string(), vec![SerializedValue::Boolean(true)]);
    fields.insert("client_side".to_string(), vec![text("required")]);
    fields.insert("server_side".to_string(), vec![text("optional")]);
    let expected = SearchDocument {
        version_id: "1".to_string(),
        project_id: "10".to_string(),
        name: "Sodium".to_string(),
        summary: "Faster rendering".to_string(),
        categories: strings(&["optimization", "quilt", "fabric", "utility"]),
        display_categories: strings(&["optimization", "quilt", "fabric"]),
        follows: 12,
        downloads: 3456,
        icon_url: Some("https://example.org/icon.png".to_string()),
        author: "ann".to_string(),
        date_created: Timestamp { seconds: 1_700_000_000, nanos: 500 },
        created_timestamp: 1_700_000_000,
        date_modified: Timestamp { seconds: 1_710_000_000, nanos: 999_999_999 },
        modified_timestamp: 1_710_000_000,
        license: "MIT".to_string(),
        slug: Some("sodium".to_string()),
        project_types: strings(&["mod"]),
        gallery: strings(&["one.png"]),
        featured_gallery: Some("two.png".to_string()),
        open_source: true,
        color: Some(0x00ff_aa11),
        loader_fields: fields,
        license_url: Some("https://example.org/license".to_string()),
        monetization_status: Some("monetized".to_string()),
        team_id: "100".to_string(),
        organization_id: Some("z".to_string()),
        thread_id: "A".to_string(),
        versions: strings(&["1", "2", "3"]),
        date_published: Timestamp { seconds: 1_600_000_000, nanos: 7 },
        date_queued: Some(Timestamp { seconds: 1_650_000_000, nanos: 0 }),
        status: "approved".to_string(),
        requested_status: Some("archived".to_string()),
        games: strings(&["minecraft"]),
        links: vec![Link { platform: "wiki".to_string(), url: "https://example.org/wiki".to_string() }],
        gallery_items: project.gallery_items.clone(),
        loaders: strings(&["fabric", "forge", "quilt"]),
    };
    assert_eq!(doc, expected);
}

#[test]
fn unapproved_project_counts_from_publication() {
    let mut project = sample_project();
    project.approved_at = None;
    project.organization_id = None;
    project.license = "Proprietary No Redistribution".to_string();
    let versions = sample_versions();
    let doc = build_document(&project, &versions[&2], String::new(), &versions, sides("a", "b"));
    assert_eq!(doc.date_created, Timestamp { seconds: 1_600_000_000, nanos: 7 });
    assert_eq!(doc.created_timestamp, 1_600_000_000);
    assert_eq!(doc.organization_id, None);
    assert_eq!(doc.license, "Proprietary");
    assert!(!doc.open_source);
    assert_eq!(doc.author, "");
    assert_eq!(doc.version_id, "2");
}

#[test]
fn timestamps_before_the_epoch_keep_their_seconds() {
    let mut project = sample_project();
    project.approved_at = Some(Timestamp { seconds: -5, nanos: 250_000_000 });
    project.updated_at = Timestamp { seconds: -1, nanos: 1 };
    let versions = sample_versions();
    let doc = build_document(&project, &versions[&1], String::new(), &versions, sides("a", "b"));
    assert_eq!(doc.created_timestamp, -5);
    assert_eq!(doc.modified_timestamp, -1);
}

#[test]
fn a_side_that_failed_to_serialize_is_left_out() {
    let project = sample_project();
    let versions = sample_versions();
    let only_server = SideSupport { client_side: None, server_side: Some(text("required")) };
    let doc = build_document(&project, &versions[&1], "ann".to_string(), &versions, only_server);
    assert!(!doc.loader_fields.contains_key("client_side"));
    assert_eq!(doc.loader_fields.get("server_side"), Some(&vec![text("required")]));
    assert_eq!(doc.loader_fields.get("client_only"), Some(&vec![SerializedValue::Boolean(true)]));
    let neither = SideSupport { client_side: None, server_side: None };
    let doc = build_document(&project, &versions[&1], "ann".to_string(), &versions, neither);
    assert_eq!(doc.loader_fields.len(), 2);
}

#[test]
fn sides_replace_fields_of_their_names() {
    let mut fields = LoaderFields::new();
    fields.insert("client_side".to_string(), vec![text("old"), text("older")]);
    fields.insert("other".to_string(), vec![text("kept")]);
    apply_sides(&mut fields, sides("required", "unknown"));
    assert_eq!(fields.len(), 3);
    assert_eq!(fields.name_at(0), Some(&"client_side".to_string()));
    assert_eq!(fields.get("client_side"), Some(&vec![text("required")]));
    assert_eq!(fields.get("other"), Some(&vec![text("kept")]));
    assert_eq!(fields.name_at(2), Some(&"server_side".to_string()));
    assert_eq!(fields.get("server_side"), Some(&vec![text("unknown")]));
}

#[test]
fn modpack_loaders_become_categories() {
    let mut project = sample_project();
    project.categories = strings(&["adventure", "mrpack"]);
    let mut version = sample_version(1, &["mrpack"]);
    version.version_fields.push(VersionField {
        field_name: "mrpack_loaders".to_string(),
        value: FieldValue::Texts(strings(&["fabric", "quilt"])),
    });
    let versions = index_versions(vec![version]);
    let doc = build_document(&project, &versions[&1], "ann".to_string(), &versions, sides("a", "b"));
    assert_eq!(doc.categories, strings(&["adventure", "utility", "fabric", "quilt"]));
    assert_eq!(doc.display_categories, strings(&["adventure", "mrpack", "mrpack"]));
    assert!(!doc.categories.contains(&"mrpack".to_string()));
    assert_eq!(doc.loader_fields.get("mrpack_loaders"), Some(&vec![text("fabric"), text("quilt")]));
    assert_eq!(doc.loaders, strings(&["mrpack"]));
}

#[test]
fn side_query_is_made_from_the_version() {
    let mut version = sample_version(1, &["fabric"]);
    version.project_types = strings(&["mod", "modpack"]);
    let (raw, label) = side_query(&version);
    assert_eq!(label, "modpack");
    assert_eq!(raw.len(), 2);
    assert_eq!(raw.get("client_only"), Some(&FieldValue::Boolean(true)));
    assert_eq!(raw.get("game_versions"), Some(&FieldValue::Texts(strings(&["1.20", "1.19"]))));
}

#[test]
fn one_document_for_each_entry_that_resolves() {
    let projects = index_projects(vec![sample_project()]);
    let versions = sample_versions();
    let visible = vec![
        VisibleEntry { version_id: 2, project_id: 62, owner: "ann".to_string() },
        VisibleEntry { version_id: 3, project_id: 62, owner: "ann".to_string() },
        VisibleEntry { version_id: 1, project_id: 63, owner: "bob".to_string() },
        VisibleEntry { version_id: 1, project_id: 62, owner: "guild".to_string() },
    ];
    let docs = index_local(&visible, &projects, &versions, fixed_sides);
    assert_eq!(docs.len(), 2);
    assert_eq!(docs[0].version_id, "2");
    assert_eq!(docs[0].author, "ann");
    assert_eq!(docs[1].version_id, "1");
    assert_eq!(docs[1].author, "guild");
    assert_eq!(
        docs[0],
        build_document(
            &sample_project(),
            &versions[&2],
            "ann".to_string(),
            &versions,
            sides("required", "unsupported"),
        )
    );
    assert_eq!(docs[1].loader_fields.get("client_side"), Some(&vec![text("required")]));
    assert_eq!(docs[1].loader_fields.get("server_side"), Some(&vec![text("unsupported")]));
}

#[test]
fn the_side_mapping_is_asked_with_the_version() {
    let projects = index_projects(vec![sample_project()]);
    let mut plugin = sample_version(2, &["paper"]);
    plugin.project_types = strings(&["plugin"]);
    let versions = index_versions(vec![sample_version(1, &["fabric"]), plugin]);
    let visible = vec![
        VisibleEntry { version_id: 1, project_id: 62, owner: "ann".to_string() },
        VisibleEntry { version_id: 2, project_id: 62, owner: "ann".to_string() },
    ];
    let by_label = |raw: &RawLoaderFields, label: Option<&String>| SideSupport {
        client_side: label.map(|l| SerializedValue::Text(l.clone())),
        server_side: raw.get("client_only").map(|v| match v {
            FieldValue::Boolean(b) => SerializedValue::Boolean(*b),
            _ => SerializedValue::Boolean(false),
        }),
    };
    let docs = index_local(&visible, &projects, &versions, by_label);
    assert_eq!(docs.len(), 2);
    assert_eq!(docs[0].loader_fields.get("client_side"), Some(&vec![text("mod")]));
    assert_eq!(docs[1].loader_fields.get("client_side"), Some(&vec![text("plugin")]));
    assert_eq!(docs[0].loader_fields.get("server_side"), Some(&vec![SerializedValue::Boolean(true)]));
}

#[test]
fn no_entries_or_no_records_give_no_documents() {
    let projects = index_projects(vec![sample_project()]);
    let versions = sample_versions();
    assert!(index_local(&Vec::new(), &projects, &versions, fixed_sides).is_empty());
    let visible = vec![VisibleEntry { version_id: 1, project_id: 62, owner: "ann".to_string() }];
    assert!(index_local(&visible, &HashMap::new(), &versions, fixed_sides).is_empty());
    assert!(index_local(&visible, &projects, &HashMap::new(), fixed_sides).is_empty());
}

#[test]
fn two_runs_give_the_same_documents() {
    let projects = index_projects(vec![sample_project()]);
    let versions = sample_versions();
    let visible = vec![
        VisibleEntry { version_id: 2, project_id: 62, owner: "ann".to_string() },
        VisibleEntry { version_id: 1, project_id: 62, owner: "ann".to_string() },
    ];
    let first = index_local(&visible, &projects, &versions, fixed_sides);
    let second = index_local(&visible, &projects, &versions, fixed_sides);
    assert_eq!(first, second);
}
