//! The records that travel through the event log and the stores.

use vstd::prelude::*;

verus! {

/// One bookmark as it is stored and exchanged.
#[derive(Debug, Clone, PartialEq, Eq)]
pub struct BookmarkPayload {
    pub id: String,
    pub url: String,
    pub title: Option<String>,
    pub description: Option<String>,
    pub favicon_url: Option<String>,
    pub host: Option<String>,
    /// ISO 8601
    pub created_at: String,
    pub tags: Option<Vec<String>>,
}

/// A change to the bookmark collection; the unit of synchronisation.
#[derive(Debug, Clone, PartialEq, Eq)]
pub enum SyncEvent {
    BookmarkAdded(BookmarkPayload),
    BookmarkDeleted { id: String },
    BookmarkUpdated(BookmarkPayload),
    TagAdded { id: String, name: String },
    TagDeleted { id: String },
    BookmarkTagged { bookmark_id: String, tag_id: String },
    BookmarkUntagged { bookmark_id: String, tag_id: String },
    FolderAdded { id: String, parent_id: Option<String>, name: String },
    FolderRenamed { id: String, name: String },
    FolderDeleted { id: String },
    BookmarkAddedToFolder { bookmark_id: String, folder_id: String },
    BookmarkRemovedFromFolder { bookmark_id: String, folder_id: String },
}

/// One entry of the event log.
#[derive(Debug, Clone, PartialEq, Eq)]
pub struct EventLog {
    /// A globally unique identifier for this event
    pub event_id: String,
    /// Client ID that generated the event
    pub device_id: String,
    /// The event timestamp in ms
    pub timestamp: i64,
    /// The actual operation
    pub event: SyncEvent,
}

/// Title and icon found for a page.
#[derive(Debug, Clone, PartialEq, Eq)]
pub struct SiteMetadata {
    pub title: Option<String>,
    pub favicon_url: Option<String>,
}

} // verus!
