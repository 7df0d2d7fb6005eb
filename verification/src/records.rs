//! The records that documents are made from, as the store hands them over.

use crate::fields::VersionField;
use vstd::prelude::*;

verus! {

/// A point in time: whole seconds since the Unix epoch, and the nanoseconds
/// past that second.
#[derive(Debug, Clone, Copy, PartialEq, Eq)]
pub struct Timestamp {
    pub seconds: i64,
    pub nanos: u32,
}

/// An image of a project's gallery.
#[derive(Debug, Clone, PartialEq, Eq)]
pub struct GalleryItem {
    pub url: String,
    pub featured: bool,
}

/// A link of a project: the platform it leads to, and the address.
#[derive(Debug, Clone, PartialEq, Eq)]
pub struct Link {
    pub platform: String,
    pub url: String,
}

/// A project with all that belongs to it.
#[derive(Debug, Clone, PartialEq, Eq)]
pub struct ProjectRecord {
    pub id: u64,
    pub name: String,
    pub summary: String,
    pub categories: Vec<String>,
    pub additional_categories: Vec<String>,
    pub license: String,
    pub license_url: Option<String>,
    pub icon_url: Option<String>,
    pub color: Option<u32>,
    pub team_id: u64,
    pub organization_id: Option<u64>,
    pub thread_id: u64,
    pub status: String,
    pub requested_status: Option<String>,
    pub slug: Option<String>,
    pub follows: i32,
    pub downloads: i32,
    pub approved_at: Option<Timestamp>,
    pub published_at: Timestamp,
    pub updated_at: Timestamp,
    pub queued_at: Option<Timestamp>,
    pub monetization_status: String,
    pub project_types: Vec<String>,
    pub games: Vec<String>,
    pub links: Vec<Link>,
    pub gallery_items: Vec<GalleryItem>,
    /// Every version that was ever associated with the project, visible or not.
    pub version_ids: Vec<u64>,
}

/// A version with all that belongs to it.
#[derive(Debug, Clone, PartialEq, Eq)]
pub struct VersionRecord {
    pub id: u64,
    pub project_id: u64,
    pub status: String,
    pub loaders: Vec<String>,
    pub project_types: Vec<String>,
    pub version_fields: Vec<VersionField>,
}

/// A version that may be indexed, with its project and the project's owner.
#[derive(Debug, Clone, PartialEq, Eq)]
pub struct VisibleEntry {
    pub version_id: u64,
    pub project_id: u64,
    pub owner: String,
}

/// What a [`VisibleEntry`] holds.
pub struct EntryView {
    pub version_id: u64,
    pub project_id: u64,
    pub owner: Seq<char>,
}

impl View for VisibleEntry {
    type V = EntryView;

    open spec fn view(&self) -> EntryView {
        EntryView { version_id: self.version_id, project_id: self.project_id, owner: self.owner@ }
    }
}

/// What a list of visible entries holds.
pub open spec fn entry_views(entries: Seq<VisibleEntry>) -> Seq<EntryView> {
    Seq::new(entries.len(), |i: int| entries[i]@)
}

/// What a list of gallery items holds: each item's address and whether it is featured.
pub open spec fn gallery_views(items: Seq<GalleryItem>) -> Seq<(Seq<char>, bool)> {
    Seq::new(items.len(), |i: int| (items[i].url@, items[i].featured))
}

/// What a list of links holds: each link's platform and address.
pub open spec fn link_views(links: Seq<Link>) -> Seq<(Seq<char>, Seq<char>)> {
    Seq::new(links.len(), |i: int| (links[i].platform@, links[i].url@))
}

/// A copy of a list of gallery items.
pub fn clone_gallery(items: &Vec<GalleryItem>) -> (r: Vec<GalleryItem>)
    ensures
        gallery_views(r@) == gallery_views(items@),
{
    let mut r: Vec<GalleryItem> = Vec::new();
    let mut i: usize = 0;
    while i < items.len()
        invariant
            i <= items.len(),
            r@.len() == i,
            forall|k: int|
                0 <= k < i ==> (#[trigger] r@[k]).url@ == items@[k].url@ && r@[k].featured
                    == items@[k].featured,
        decreases items.len() - i,
    {
        r.push(GalleryItem { url: items[i].url.clone(), featured: items[i].featured });
        i += 1;
    }
    proof {
        assert(gallery_views(r@) =~= gallery_views(items@));
    }
    r
}

/// A copy of a list of links.
pub fn clone_links(links: &Vec<Link>) -> (r: Vec<Link>)
    ensures
        link_views(r@) == link_views(links@),
{
    let mut r: Vec<Link> = Vec::new();
    let mut i: usize = 0;
    while i < links.len()
        invariant
            i <= links.len(),
            r@.len() == i,
            forall|k: int|
                0 <= k < i ==> (#[trigger] r@[k]).platform@ == links@[k].platform@ && r@[k].url@
                    == links@[k].url@,
        decreases links.len() - i,
    {
        r.push(Link { platform: links[i].platform.clone(), url: links[i].url.clone() });
        i += 1;
    }
    proof {
        assert(link_views(r@) =~= link_views(links@));
    }
    r
}

} // verus!
