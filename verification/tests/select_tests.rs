use search_indexing::batch::{index_projects, index_versions, project_ids_of, version_ids_of};
use search_indexing::records::{ProjectRecord, Timestamp, VersionRecord, VisibleEntry};
use search_indexing::select::{get_all_ids, resolve_owner, CandidateRow, VisibilityPolicy};

fn policy() -> VisibilityPolicy {
    VisibilityPolicy {
        searchable_project_statuses: vec!["approved".to_string(), "archived".to_string()],
        hidden_version_statuses: vec!["draft".to_string(), "scheduled".to_string()],
    }
}

fn row(
    version_id: u64,
    version_status: &str,
    project_id: u64,
    project_status: &str,
    team_owner: Option<&str>,
    organization_owner: Option<&str>,
) -> CandidateRow {
    CandidateRow {
        version_id,
        version_status: version_status.to_string(),
        project_id,
        project_status: project_status.to_string(),
        team_owner: team_owner.map(|s| s.to_string()),
        organization_owner: organization_owner.map(|s| s.to_string()),
    }
}

fn entry(version_id: u64, project_id: u64, owner: &str) -> VisibleEntry {
    VisibleEntry { version_id, project_id, owner: owner.to_string() }
}

fn project(id: u64, name: &str) -> ProjectRecord {
    ProjectRecord {
        id,
        name: name.to_string(),
        summary: String::new(),
        categories: Vec::new(),
        additional_categories: Vec::new(),
        license: String::new(),
        license_url: None,
        icon_url: None,
        color: None,
        team_id: 0,
        organization_id: None,
        thread_id: 0,
        status: "approved".to_string(),
        requested_status: None,
        slug: None,
        follows: 0,
        downloads: 0,
        approved_at: None,
        published_at: Timestamp { seconds: 0, nanos: 0 },
        updated_at: Timestamp { seconds: 0, nanos: 0 },
        queued_at: None,
        monetization_status: String::new(),
        project_types: Vec::new(),
        games: Vec::new(),
        links: Vec::new(),
        gallery_items: Vec::new(),
        version_ids: Vec::new(),
    }
}

fn version(id: u64, status: &str) -> VersionRecord {
    VersionRecord {
        id,
        project_id: 1,
        status: status.to_string(),
        loaders: Vec::new(),
        project_types: Vec::new(),
        version_fields: Vec::new(),
    }
}

#[test]
fn team_owner_comes_first() {
    assert_eq!(resolve_owner(&Some("ann".to_string()), &Some("org".to_string())), "ann");
    assert_eq!(resolve_owner(&Some("ann".to_string()), &None), "ann");
}

#[test]
fn organization_owner_stands_in() {
    assert_eq!(resolve_owner(&None, &Some("org".to_string())), "org");
}

#[test]
fn no_owner_is_the_empty_name() {
    assert_eq!(resolve_owner(&None, &None), "");
}

#[test]
fn an_empty_team_owner_name_is_kept() {
    assert_eq!(resolve_owner(&Some(String::new()), &Some("org".to_string())), "");
}

#[test]
fn visibility_follows_both_statuses() {
    let p = policy();
    assert!(p.is_visible("approved", "listed"));
    assert!(p.is_visible("archived", "unlisted"));
    assert!(!p.is_visible("approved", "draft"));
    assert!(!p.is_visible("draft", "listed"));
    assert!(!p.is_visible("rejected", "scheduled"));
    assert!(!p.is_visible("Approved", "listed"));
}

#[test]
fn selection_filters_resolves_and_orders() {
    let rows = vec![
        row(11, "listed", 1, "approved", Some("ann"), None),
        row(30, "listed", 3, "archived", None, Some("guild")),
        row(12, "draft", 1, "approved", Some("ann"), None),
        row(20, "listed", 2, "rejected", Some("bob"), None),
        row(10, "listed", 1, "approved", Some("ann"), None),
        row(40, "unlisted", 4, "approved", None, None),
    ];
    assert_eq!(
        get_all_ids(&rows, &policy()),
        vec![entry(40, 4, ""), entry(30, 3, "guild"), entry(10, 1, "ann"), entry(11, 1, "ann")]
    );
}

#[test]
fn selection_has_each_triple_once() {
    let rows = vec![
        row(10, "listed", 1, "approved", Some("ann"), Some("guild")),
        row(10, "listed", 1, "approved", Some("ann"), None),
        row(10, "listed", 1, "approved", Some("abe"), None),
        row(10, "listed", 1, "approved", Some("ann"), Some("other")),
    ];
    assert_eq!(get_all_ids(&rows, &policy()), vec![entry(10, 1, "abe"), entry(10, 1, "ann")]);
}

#[test]
fn selection_does_not_depend_on_the_order_of_rows() {
    let mut rows = vec![
        row(11, "listed", 1, "approved", Some("ann"), None),
        row(30, "listed", 3, "archived", None, Some("guild")),
        row(10, "listed", 1, "approved", Some("ann"), None),
        row(40, "unlisted", 4, "approved", None, None),
    ];
    let first = get_all_ids(&rows, &policy());
    rows.reverse();
    assert_eq!(get_all_ids(&rows, &policy()), first);
    assert_eq!(get_all_ids(&rows, &policy()), first);
}

#[test]
fn selection_of_nothing_is_empty() {
    assert_eq!(get_all_ids(&Vec::new(), &policy()), Vec::<VisibleEntry>::new());
    let closed = VisibilityPolicy {
        searchable_project_statuses: Vec::new(),
        hidden_version_statuses: Vec::new(),
    };
    let rows = vec![row(11, "listed", 1, "approved", Some("ann"), None)];
    assert_eq!(get_all_ids(&rows, &closed), Vec::<VisibleEntry>::new());
}

#[test]
fn larger_projects_come_first_and_their_versions_ascend() {
    let rows = vec![
        row(10, "listed", 1, "approved", Some("a"), None),
        row(31, "listed", 3, "approved", Some("c"), None),
        row(1, "listed", 0, "approved", None, None),
        row(50, "listed", 5, "approved", Some("e"), None),
        row(30, "listed", 3, "approved", Some("c"), None),
        row(20, "listed", 2, "approved", Some("b"), None),
    ];
    assert_eq!(
        get_all_ids(&rows, &policy()),
        vec![
            entry(50, 5, "e"),
            entry(30, 3, "c"),
            entry(31, 3, "c"),
            entry(20, 2, "b"),
            entry(10, 1, "a"),
            entry(1, 0, ""),
        ]
    );
}

#[test]
fn identifiers_to_load_stand_once_each() {
    let visible = vec![entry(30, 3, "c"), entry(31, 3, "c"), entry(10, 1, "a"), entry(32, 3, "c")];
    assert_eq!(project_ids_of(&visible), vec![3, 1]);
    assert_eq!(version_ids_of(&visible), vec![30, 31, 10, 32]);
    assert_eq!(project_ids_of(&Vec::new()), Vec::<u64>::new());
}

#[test]
fn repeated_versions_are_asked_for_once() {
    let visible = vec![entry(30, 3, "c"), entry(30, 3, "d"), entry(10, 1, "a"), entry(30, 3, "c")];
    assert_eq!(version_ids_of(&visible), vec![30, 10]);
}

#[test]
fn records_are_found_by_identifier() {
    let projects = index_projects(vec![project(3, "three"), project(1, "one"), project(3, "again")]);
    assert_eq!(projects.len(), 2);
    assert_eq!(projects.get(&3), Some(&project(3, "again")));
    assert_eq!(projects.get(&1), Some(&project(1, "one")));
    assert_eq!(projects.get(&2), None);
    let versions = index_versions(vec![version(7, "listed"), version(8, "draft"), version(7, "archived")]);
    assert_eq!(versions.len(), 2);
    assert_eq!(versions.get(&7), Some(&version(7, "archived")));
    assert_eq!(versions.get(&8), Some(&version(8, "draft")));
    assert!(index_projects(Vec::new()).is_empty());
    assert!(index_versions(Vec::new()).is_empty());
}
