//! The search document, and how one is made from a project, one of its
//! versions, the owner's name and the mapping of loaded versions.

use crate::categories::{
    category_list, display_categories, display_list, legacy_project_type, legacy_type_of,
    search_categories,
};
use crate::fields::{field_views, put, value_of, value_views, SerializedValue, ValueView};
use crate::gallery::{featured_url, first_featured, gallery_urls, plain_urls};
use crate::ids::{base62, base62_all, render_id, render_ids};
use crate::license::{is_open_source, open_source_of};
use crate::loader_fields::{
    raw_fields, raw_mapping, reconcile_fields, reconciled, LoaderFields, RawLoaderFields,
};
use crate::loaders::{aggregate_loaders, is_loader_union};
use crate::records::{
    clone_gallery, clone_links, gallery_views, link_views, GalleryItem, Link, ProjectRecord,
    Timestamp, VersionRecord,
};
use crate::text::{clone_opt_text, clone_texts, first_token, first_token_of, opt_text, texts};
use std::collections::HashMap;
use vstd::prelude::*;
use vstd::string::*;

verus! {

/// What the legacy side mapping gave for a version, each side serialized.
/// A side is `None` where serializing it failed.
#[derive(Debug, Clone, PartialEq, Eq)]
pub struct SideSupport {
    pub client_side: Option<SerializedValue>,
    pub server_side: Option<SerializedValue>,
}

/// What a [`SideSupport`] holds.
pub struct SidesView {
    pub client_side: Option<ValueView>,
    pub server_side: Option<ValueView>,
}

impl View for SideSupport {
    type V = SidesView;

    open spec fn view(&self) -> SidesView {
        SidesView {
            client_side: match self.client_side {
                Some(v) => Some(v@),
                None => None,
            },
            server_side: match self.server_side {
                Some(v) => Some(v@),
                None => None,
            },
        }
    }
}

/// The loader fields with the two sides stored as lists of one value, under
/// `client_side` and `server_side`. A side that is `None` stores nothing.
pub open spec fn with_sides(fields: Seq<(Seq<char>, Seq<ValueView>)>, sides: SidesView) -> Seq<
    (Seq<char>, Seq<ValueView>),
> {
    let with_client = match sides.client_side {
        Some(v) => put(fields, "client_side"@, seq![v]),
        None => fields,
    };
    match sides.server_side {
        Some(v) => put(with_client, "server_side"@, seq![v]),
        None => with_client,
    }
}

/// Stores the sides among the loader fields.
pub fn apply_sides(fields: &mut LoaderFields, sides: SideSupport)
    ensures
        final(fields)@ == with_sides(old(fields)@, sides@),
{
    match sides.client_side {
        Some(v) => {
            let mut values: Vec<SerializedValue> = Vec::new();
            values.push(v);
            proof {
                assert(value_views(values@) =~= seq![v@]);
            }
            fields.insert("client_side".to_owned(), values);
        },
        None => {},
    }
    match sides.server_side {
        Some(v) => {
            let mut values: Vec<SerializedValue> = Vec::new();
            values.push(v);
            proof {
                assert(value_views(values@) =~= seq![v@]);
            }
            fields.insert("server_side".to_owned(), values);
        },
        None => {},
    }
}

/// A flat, self-contained record of one version of a project, as a search
/// engine takes it.
#[derive(Debug, Clone, PartialEq, Eq)]
pub struct SearchDocument {
    pub version_id: String,
    pub project_id: String,
    pub name: String,
    pub summary: String,
    pub categories: Vec<String>,
    pub display_categories: Vec<String>,
    pub follows: i32,
    pub downloads: i32,
    pub icon_url: Option<String>,
    pub author: String,
    pub date_created: Timestamp,
    pub created_timestamp: i64,
    pub date_modified: Timestamp,
    pub modified_timestamp: i64,
    pub license: String,
    pub slug: Option<String>,
    pub project_types: Vec<String>,
    pub gallery: Vec<String>,
    pub featured_gallery: Option<String>,
    pub open_source: bool,
    pub color: Option<u32>,
    pub loader_fields: LoaderFields,
    pub license_url: Option<String>,
    pub monetization_status: Option<String>,
    pub team_id: String,
    pub organization_id: Option<String>,
    pub thread_id: String,
    pub versions: Vec<String>,
    pub date_published: Timestamp,
    pub date_queued: Option<Timestamp>,
    pub status: String,
    pub requested_status: Option<String>,
    pub games: Vec<String>,
    pub links: Vec<Link>,
    pub gallery_items: Vec<GalleryItem>,
    pub loaders: Vec<String>,
}

/// What a [`SearchDocument`] holds.
pub struct DocumentView {
    pub version_id: Seq<char>,
    pub project_id: Seq<char>,
    pub name: Seq<char>,
    pub summary: Seq<char>,
    pub categories: Seq<Seq<char>>,
    pub display_categories: Seq<Seq<char>>,
    pub follows: i32,
    pub downloads: i32,
    pub icon_url: Option<Seq<char>>,
    pub author: Seq<char>,
    pub date_created: Timestamp,
    pub created_timestamp: i64,
    pub date_modified: Timestamp,
    pub modified_timestamp: i64,
    pub license: Seq<char>,
    pub slug: Option<Seq<char>>,
    pub project_types: Seq<Seq<char>>,
    pub gallery: Seq<Seq<char>>,
    pub featured_gallery: Option<Seq<char>>,
    pub open_source: bool,
    pub color: Option<u32>,
    pub loader_fields: Seq<(Seq<char>, Seq<ValueView>)>,
    pub license_url: Option<Seq<char>>,
    pub monetization_status: Option<Seq<char>>,
    pub team_id: Seq<char>,
    pub organization_id: Option<Seq<char>>,
    pub thread_id: Seq<char>,
    pub versions: Seq<Seq<char>>,
    pub date_published: Timestamp,
    pub date_queued: Option<Timestamp>,
    pub status: Seq<char>,
    pub requested_status: Option<Seq<char>>,
    pub games: Seq<Seq<char>>,
    pub links: Seq<(Seq<char>, Seq<char>)>,
    pub gallery_items: Seq<(Seq<char>, bool)>,
    pub loaders: Seq<Seq<char>>,
}

impl View for SearchDocument {
    type V = DocumentView;

    open spec fn view(&self) -> DocumentView {
        DocumentView {
            version_id: self.version_id@,
            project_id: self.project_id@,
            name: self.name@,
            summary: self.summary@,
            categories: texts(self.categories@),
            display_categories: texts(self.display_categories@),
            follows: self.follows,
            downloads: self.downloads,
            icon_url: opt_text(self.icon_url),
            author: self.author@,
            date_created: self.date_created,
            created_timestamp: self.created_timestamp,
            date_modified: self.date_modified,
            modified_timestamp: self.modified_timestamp,
            license: self.license@,
            slug: opt_text(self.slug),
            project_types: texts(self.project_types@),
            gallery: texts(self.gallery@),
            featured_gallery: opt_text(self.featured_gallery),
            open_source: self.open_source,
            color: self.color,
            loader_fields: self.loader_fields@,
            license_url: opt_text(self.license_url),
            monetization_status: opt_text(self.monetization_status),
            team_id: self.team_id@,
            organization_id: opt_text(self.organization_id),
            thread_id: self.thread_id@,
            versions: texts(self.versions@),
            date_published: self.date_published,
            date_queued: self.date_queued,
            status: self.status@,
            requested_status: opt_text(self.requested_status),
            games: texts(self.games@),
            links: link_views(self.links@),
            gallery_items: gallery_views(self.gallery_items@),
            loaders: texts(self.loaders@),
        }
    }
}

/// The time a project counts as created: when it was approved, and when it
/// was published where it never was approved.
pub open spec fn created_at(project: ProjectRecord) -> Timestamp {
    match project.approved_at {
        Some(t) => t,
        None => project.published_at,
    }
}

/// The document of a version of a project, for a given owner name, given
/// sides and a given list of the project's loaders.
pub open spec fn document_of(
    project: ProjectRecord,
    version: VersionRecord,
    owner: Seq<char>,
    sides: SidesView,
    loaders: Seq<Seq<char>>,
) -> DocumentView {
    let fields = reconciled(field_views(version.version_fields@));
    let license = first_token_of(project.license@);
    DocumentView {
        version_id: base62(version.id as nat),
        project_id: base62(project.id as nat),
        name: project.name@,
        summary: project.summary@,
        categories: category_list(
            texts(project.categories@),
            texts(version.loaders@),
            texts(project.additional_categories@),
            value_of(fields, "mrpack_loaders"@),
        ),
        display_categories: display_list(texts(project.categories@), texts(version.loaders@)),
        follows: project.follows,
        downloads: project.downloads,
        icon_url: opt_text(project.icon_url),
        author: owner,
        date_created: created_at(project),
        created_timestamp: created_at(project).seconds,
        date_modified: project.updated_at,
        modified_timestamp: project.updated_at.seconds,
        license: license,
        slug: opt_text(project.slug),
        project_types: texts(project.project_types@),
        gallery: plain_urls(gallery_views(project.gallery_items@)),
        featured_gallery: first_featured(gallery_views(project.gallery_items@)),
        open_source: open_source_of(license),
        color: project.color,
        loader_fields: with_sides(fields, sides),
        license_url: opt_text(project.license_url),
        monetization_status: Some(project.monetization_status@),
        team_id: base62(project.team_id as nat),
        organization_id: match project.organization_id {
            Some(id) => Some(base62(id as nat)),
            None => None,
        },
        thread_id: base62(project.thread_id as nat),
        versions: base62_all(project.version_ids@),
        date_published: project.published_at,
        date_queued: project.queued_at,
        status: project.status@,
        requested_status: opt_text(project.requested_status),
        games: texts(project.games@),
        links: link_views(project.links@),
        gallery_items: gallery_views(project.gallery_items@),
        loaders: loaders,
    }
}

/// `doc` is the document of this version of this project: its loaders are
/// the sorted union of the loaders of the project's loaded versions, and
/// every other field is as [`document_of`] says.
pub open spec fn describes(
    doc: DocumentView,
    project: ProjectRecord,
    version: VersionRecord,
    owner: Seq<char>,
    versions: Map<u64, VersionRecord>,
    sides: SidesView,
) -> bool {
    &&& doc == document_of(project, version, owner, sides, doc.loaders)
    &&& is_loader_union(doc.loaders, project.version_ids@, versions)
}

/// What the legacy side mapping is asked with for a version: the typed
/// values of its fields by name, and the label of its project type.
pub fn side_query(version: &VersionRecord) -> (r: (RawLoaderFields, String))
    ensures
        r.0@ == raw_mapping(field_views(version.version_fields@)),
        r.1@ == legacy_type_of(texts(version.project_types@)),
{
    (raw_fields(&version.version_fields), legacy_project_type(&version.project_types))
}

/// The document of one version of a project. `versions` is the mapping of
/// loaded versions, from which the project's loaders are taken, and `sides`
/// is what the legacy side mapping gave for the version.
pub fn build_document(
    project: &ProjectRecord,
    version: &VersionRecord,
    owner: String,
    versions: &HashMap<u64, VersionRecord>,
    sides: SideSupport,
) -> (doc: SearchDocument)
    ensures
        describes(doc@, *project, *version, owner@, versions@, sides@),
{
    let display = display_categories(project, version);
    let mut loader_fields = reconcile_fields(&version.version_fields);
    let categories = search_categories(project, version, &loader_fields);
    apply_sides(&mut loader_fields, sides);
    let license = first_token(project.license.as_str());
    let open_source = is_open_source(license.as_str());
    let loaders = aggregate_loaders(&project.version_ids, versions);
    let created = match project.approved_at {
        Some(t) => t,
        None => project.published_at,
    };
    let organization_id = match project.organization_id {
        Some(id) => Some(render_id(id)),
        None => None,
    };
    SearchDocument {
        version_id: render_id(version.id),
        project_id: render_id(project.id),
        name: project.name.clone(),
        summary: project.summary.clone(),
        categories: categories,
        display_categories: display,
        follows: project.follows,
        downloads: project.downloads,
        icon_url: clone_opt_text(&project.icon_url),
        author: owner,
        date_created: created,
        created_timestamp: created.seconds,
        date_modified: project.updated_at,
        modified_timestamp: project.updated_at.seconds,
        license: license,
        slug: clone_opt_text(&project.slug),
        project_types: clone_texts(&project.project_types),
        gallery: gallery_urls(&project.gallery_items),
        featured_gallery: featured_url(&project.gallery_items),
        open_source: open_source,
        color: project.color,
        loader_fields: loader_fields,
        license_url: clone_opt_text(&project.license_url),
        monetization_status: Some(project.monetization_status.clone()),
        team_id: render_id(project.team_id),
        organization_id: organization_id,
        thread_id: render_id(project.thread_id),
        versions: render_ids(&project.version_ids),
        date_published: project.published_at,
        date_queued: project.queued_at,
        status: project.status.clone(),
        requested_status: clone_opt_text(&project.requested_status),
        games: clone_texts(&project.games),
        links: clone_links(&project.links),
        gallery_items: clone_gallery(&project.gallery_items),
        loaders: loaders,
    }
}

} // verus!
