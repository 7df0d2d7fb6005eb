use search_indexing::assemble::index_local;
use search_indexing::batch::{index_projects, index_versions, project_ids_of, version_ids_of};
use search_indexing::document::SideSupport;
use search_indexing::loader_fields::RawLoaderFields;
use search_indexing::records::{ProjectRecord, Timestamp, VersionRecord};
use search_indexing::select::{get_all_ids, CandidateRow, VisibilityPolicy};

fn policy() -> VisibilityPolicy {
    VisibilityPolicy {
        searchable_project_statuses: vec!["approved".to_string()],
        hidden_version_statuses: vec!["draft".to_string()],
    }
}

fn row(version_id: u64, status: &str, project_id: u64, team: Option<&str>, org: Option<&str>) -> CandidateRow {
    CandidateRow {
        version_id,
        version_status: status.to_string(),
        project_id,
        project_status: "approved".to_string(),
        team_owner: team.map(|s| s.to_string()),
        organization_owner: org.map(|s| s.to_string()),
    }
}

fn project(id: u64, version_ids: Vec<u64>) -> ProjectRecord {
    ProjectRecord {
        id,
        name: format!("project {}", id),
        summary: String::new(),
        categories: vec!["adventure".to_string()],
        additional_categories: Vec::new(),
        license: "Apache-2.0".to_string(),
        license_url: None,
        icon_url: None,
        color: None,
        team_id: 7,
        organization_id: None,
        thread_id: 8,
        status: "approved".to_string(),
        requested_status: None,
        slug: None,
        follows: 1,
        downloads: 2,
        approved_at: None,
        published_at: Timestamp { seconds: 100, nanos: 0 },
        updated_at: Timestamp { seconds: 200, nanos: 0 },
        queued_at: None,
        monetization_status: "monetized".to_string(),
        project_types: vec!["mod".to_string()],
        games: Vec::new(),
        links: Vec::new(),
        gallery_items: Vec::new(),
        version_ids,
    }
}

fn version(id: u64, project_id: u64, loader: &str) -> VersionRecord {
    VersionRecord {
        id,
        project_id,
        status: "listed".to_string(),
        loaders: vec![loader.to_string()],
        project_types: vec!["mod".to_string()],
        version_fields: Vec::new(),
    }
}

fn no_sides(_raw: &RawLoaderFields, _label: Option<&String>) -> SideSupport {
    SideSupport { client_side: None, server_side: None }
}

#[test]
fn authors_are_the_resolved_owners() {
    let rows = vec![
        row(10, "listed", 1, Some("ann"), Some("guild")),
        row(20, "listed", 2, None, Some("guild")),
        row(30, "listed", 3, None, None),
        row(31, "draft", 3, None, None),
    ];
    let visible = get_all_ids(&rows, &policy());
    assert_eq!(project_ids_of(&visible), vec![3, 2, 1]);
    assert_eq!(version_ids_of(&visible), vec![30, 20, 10]);
    let projects = index_projects(vec![
        project(1, vec![10]),
        project(2, vec![20]),
        project(3, vec![30, 31]),
    ]);
    let versions = index_versions(vec![
        version(10, 1, "fabric"),
        version(20, 2, "forge"),
        version(30, 3, "quilt"),
    ]);
    let docs = index_local(&visible, &projects, &versions, no_sides);
    assert_eq!(docs.len(), 3);
    assert_eq!(docs[0].project_id, "3");
    assert_eq!(docs[0].author, "");
    assert_eq!(docs[1].project_id, "2");
    assert_eq!(docs[1].author, "guild");
    assert_eq!(docs[2].project_id, "1");
    assert_eq!(docs[2].author, "ann");
    assert_eq!(docs[0].loaders, vec!["quilt".to_string()]);
    assert_eq!(docs[0].versions, vec!["U".to_string(), "V".to_string()]);
    assert!(docs[0].open_source);
}

#[test]
fn a_record_deleted_meanwhile_drops_its_documents_only() {
    let rows = vec![
        row(10, "listed", 1, Some("ann"), None),
        row(20, "listed", 2, Some("bob"), None),
        row(21, "listed", 2, Some("bob"), None),
    ];
    let visible = get_all_ids(&rows, &policy());
    let projects = index_projects(vec![project(2, vec![20, 21])]);
    let versions = index_versions(vec![version(10, 1, "fabric"), version(21, 2, "forge")]);
    let docs = index_local(&visible, &projects, &versions, no_sides);
    assert_eq!(docs.len(), 1);
    assert_eq!(docs[0].version_id, "L");
    assert_eq!(docs[0].author, "bob");
    assert_eq!(docs[0].loaders, vec!["forge".to_string()]);
}

#[test]
fn the_pipeline_gives_the_same_documents_again() {
    let rows = vec![
        row(20, "listed", 2, None, Some("guild")),
        row(10, "listed", 1, Some("ann"), None),
    ];
    let projects = index_projects(vec![project(1, vec![10]), project(2, vec![20])]);
    let versions = index_versions(vec![version(10, 1, "fabric"), version(20, 2, "forge")]);
    let first = index_local(&get_all_ids(&rows, &policy()), &projects, &versions, no_sides);
    let mut reversed = rows.clone();
    reversed.reverse();
    let second = index_local(&get_all_ids(&reversed, &policy()), &projects, &versions, no_sides);
    assert_eq!(first, second);
    assert_eq!(first.len(), 2);
}
