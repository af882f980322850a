//! Importing browser bookmarks: what each scanned node becomes, and the
//! events that carry the import into the local store.

use vstd::prelude::*;
use crate::models::{BookmarkPayload, EventLog, SyncEvent};
use crate::scanner::{opt_view, spec_stable_id, stable_id, ImportNode, ImportNodeView};
use crate::search::SqlDialect;
use crate::store_sql::{
    bookmark_deleted_flag_sql, bookmark_deleted_flag_statement, folder_deleted_flag_sql, folder_deleted_flag_statement, stmt_view,
    SqlStatement,
};
use crate::url_ops::{clean_url, host_of, parse_url, spec_clean_url, spec_url_host, spec_url_parse};

verus! {

/// What a scanned node becomes.
#[derive(Debug, Clone, PartialEq, Eq)]
pub enum ImportCandidate {
    /// A folder, under its stable id.
    Folder { stable_id: String, parent_id: Option<String>, name: String },
    /// A bookmark under its stable id, with its cleaned URL and that URL's
    /// host.
    Bookmark { stable_id: String, parent_id: Option<String>, url: String, title: String, host: Option<String> },
    /// Nothing: a bookmark whose URL cleans to nothing.
    Skip,
}

pub enum ImportCandidateView {
    Folder { stable_id: Seq<char>, parent_id: Option<Seq<char>>, name: Seq<char> },
    Bookmark { stable_id: Seq<char>, parent_id: Option<Seq<char>>, url: Seq<char>, title: Seq<char>, host: Option<Seq<char>> },
    Skip,
}

impl View for ImportCandidate {
    type V = ImportCandidateView;

    open spec fn view(&self) -> ImportCandidateView {
        match self {
            ImportCandidate::Folder { stable_id, parent_id, name } => ImportCandidateView::Folder {
                stable_id: stable_id@,
                parent_id: opt_view(*parent_id),
                name: name@,
            },
            ImportCandidate::Bookmark { stable_id, parent_id, url, title, host } => ImportCandidateView::Bookmark {
                stable_id: stable_id@,
                parent_id: opt_view(*parent_id),
                url: url@,
                title: title@,
                host: opt_view(*host),
            },
            ImportCandidate::Skip => ImportCandidateView::Skip,
        }
    }
}

/// The host of a URL text (`Url::parse(..).ok().and_then(host_str)`).
pub open spec fn host_of_text(url: Seq<char>) -> Option<Seq<char>> {
    match spec_url_parse(url) {
        Some(u) => spec_url_host(u),
        None => None,
    }
}

/// Every node is stored under `<browser>-<id>` (browser lower-cased), its
/// parent under the same scheme; a bookmark keeps its cleaned URL (a missing
/// URL counts as empty) and is skipped when that is empty.
pub open spec fn candidate_spec(n: ImportNodeView) -> ImportCandidateView {
    let sid = spec_stable_id(n.browser, n.original_id);
    let pid = match n.parent_original_id {
        Some(p) => Some(spec_stable_id(n.browser, p)),
        None => None,
    };
    if n.is_folder {
        ImportCandidateView::Folder { stable_id: sid, parent_id: pid, name: n.title }
    } else {
        let url = spec_clean_url(
            match n.url {
                Some(u) => u,
                None => Seq::empty(),
            },
        );
        if url.len() == 0 {
            ImportCandidateView::Skip
        } else {
            ImportCandidateView::Bookmark { stable_id: sid, parent_id: pid, url, title: n.title, host: host_of_text(url) }
        }
    }
}

/// A scanned node's id in the store: the browser's name lower-cased, `-`,
/// and the node's own id in that browser.
pub open spec fn store_id(browser: Seq<char>, id: Seq<char>) -> Seq<char> {
    crate::text::spec_to_lowercase(browser) + seq!['-'] + id
}

/// What an imported node keeps of its place in the tree: a folder becomes a
/// folder and a bookmark a bookmark (or nothing, when its URL cleans to
/// nothing) under the node's own id in the store, and either one lies under
/// the store id of the node's parent when it has one, at the top when it
/// has none. A folder keeps its title as its name; a bookmark keeps its
/// title and its URL cleaned (a missing URL counting as empty), with that
/// URL's host, and is skipped exactly when the cleaned URL is empty.
pub proof fn lemma_candidate_keeps_place(n: ImportNodeView)
    ensures
        ({
            let parent = match n.parent_original_id {
                Some(p) => Some(store_id(n.browser, p)),
                None => None,
            };
            let raw_cleaned = spec_clean_url(
                match n.url {
                    Some(u) => u,
                    None => Seq::empty(),
                },
            );
            match candidate_spec(n) {
                ImportCandidateView::Folder { stable_id, parent_id, name } => n.is_folder && stable_id == store_id(
                    n.browser,
                    n.original_id,
                ) && parent_id == parent && name == n.title,
                ImportCandidateView::Bookmark { stable_id, parent_id, title, url, host } => !n.is_folder && stable_id
                    == store_id(n.browser, n.original_id) && parent_id == parent && title == n.title && url == raw_cleaned
                    && url.len() > 0 && host == match spec_url_parse(url) {
                    Some(u) => spec_url_host(u),
                    None => None,
                },
                ImportCandidateView::Skip => !n.is_folder && raw_cleaned.len() == 0,
            }
        }),
        n.is_folder ==> candidate_spec(n) is Folder,
{
}

/// An import event carries the given event id and time, is recorded under
/// the device `<browser>_import`, and brings the candidate in as it is: a
/// folder as an added folder with the same id, parent and name, a bookmark
/// as an added bookmark with the same id, URL, title and host, created at
/// the given time; a skipped node gives no event.
pub proof fn lemma_import_event_fields(
    c: ImportCandidateView,
    browser: Seq<char>,
    event_id: Seq<char>,
    timestamp: i64,
    created_at: Seq<char>,
)
    ensures
        match import_event_spec(c, browser, event_id, timestamp, created_at) {
            None => c is Skip,
            Some((eid, device, ts, ev)) => eid == event_id && device == browser + "_import"@ && ts == timestamp && match c {
                ImportCandidateView::Folder { stable_id, parent_id, name } => ev == ImportedEvent::Folder {
                    id: stable_id,
                    parent_id,
                    name,
                },
                ImportCandidateView::Bookmark { stable_id, url, title, host, .. } => ev == ImportedEvent::Bookmark {
                    id: stable_id,
                    url,
                    title,
                    host,
                    created_at,
                },
                ImportCandidateView::Skip => false,
            },
        },
{
}

/// What a scanned node becomes in the store.
pub fn import_candidate(n: &ImportNode) -> (r: ImportCandidate)
    ensures
        r@ == candidate_spec(n@),
{
    let sid = stable_id(n.browser.as_str(), n.original_id.as_str());
    let pid = match &n.parent_original_id {
        Some(p) => Some(stable_id(n.browser.as_str(), p.as_str())),
        None => None,
    };
    if n.is_folder {
        return ImportCandidate::Folder { stable_id: sid, parent_id: pid, name: n.title.clone() };
    }
    let raw = match &n.url {
        Some(u) => u.clone(),
        None => String::new(),
    };
    let url = clean_url(raw.as_str());
    if url.as_str().is_empty() {
        return ImportCandidate::Skip;
    }
    let host = match parse_url(url.as_str()) {
        Some(u) => host_of(u.as_str()),
        None => None,
    };
    ImportCandidate::Bookmark { stable_id: sid, parent_id: pid, url, title: n.title.clone(), host }
}

/// The device an import is recorded for: `<browser>_import`.
pub open spec fn import_device(browser: Seq<char>) -> Seq<char> {
    browser + "_import"@
}

/// The event that brings a candidate into the store, for the given event
/// id, time (ms) and creation time: a folder is added with its parent and
/// name; a bookmark is added with its title and host and no description,
/// icon or tags. A skipped node gives no event.
pub open spec fn import_event_spec(
    c: ImportCandidateView,
    browser: Seq<char>,
    event_id: Seq<char>,
    timestamp: i64,
    created_at: Seq<char>,
) -> Option<(Seq<char>, Seq<char>, i64, ImportedEvent)> {
    match c {
        ImportCandidateView::Folder { stable_id, parent_id, name } => Some(
            (event_id, import_device(browser), timestamp, ImportedEvent::Folder { id: stable_id, parent_id, name }),
        ),
        ImportCandidateView::Bookmark { stable_id, parent_id, url, title, host } => Some(
            (event_id, import_device(browser), timestamp, ImportedEvent::Bookmark { id: stable_id, url, title, host, created_at }),
        ),
        ImportCandidateView::Skip => None,
    }
}

/// The change an import event makes, as plain values.
pub enum ImportedEvent {
    Folder { id: Seq<char>, parent_id: Option<Seq<char>>, name: Seq<char> },
    Bookmark { id: Seq<char>, url: Seq<char>, title: Seq<char>, host: Option<Seq<char>>, created_at: Seq<char> },
}

/// An event log entry as the plain values an import sets.
pub open spec fn imported_view(e: EventLog) -> Option<(Seq<char>, Seq<char>, i64, ImportedEvent)> {
    match e.event {
        SyncEvent::FolderAdded { id, parent_id, name } => Some(
            (e.event_id@, e.device_id@, e.timestamp, ImportedEvent::Folder { id: id@, parent_id: opt_view(parent_id), name: name@ }),
        ),
        SyncEvent::BookmarkAdded(b) => if b.title.is_some() && b.description.is_none() && b.favicon_url.is_none()
            && b.tags.is_none() {
            Some(
                (
                    e.event_id@,
                    e.device_id@,
                    e.timestamp,
                    ImportedEvent::Bookmark {
                        id: b.id@,
                        url: b.url@,
                        title: b.title.unwrap()@,
                        host: opt_view(b.host),
                        created_at: b.created_at@,
                    },
                ),
            )
        } else {
            None
        },
        _ => None,
    }
}

fn clone_opt(o: &Option<String>) -> (r: Option<String>)
    ensures
        opt_view(r) == opt_view(*o),
{
    match o {
        Some(s) => Some(s.clone()),
        None => None,
    }
}

/// The event that brings a candidate into the store, with the given event
/// id and times.
pub fn import_event_with(
    c: &ImportCandidate,
    browser: &str,
    event_id: &str,
    timestamp: i64,
    created_at: &str,
) -> (r: Option<EventLog>)
    ensures
        match r {
            Some(e) => import_event_spec(c@, browser@, event_id@, timestamp, created_at@) == imported_view(e) && imported_view(e) is Some,
            None => import_event_spec(c@, browser@, event_id@, timestamp, created_at@) is None,
        },
{
    let mut device = String::from_str(browser);
    device.append("_import");
    match c {
        ImportCandidate::Folder { stable_id, parent_id, name } => Some(EventLog {
            event_id: String::from_str(event_id),
            device_id: device,
            timestamp,
            event: SyncEvent::FolderAdded { id: stable_id.clone(), parent_id: clone_opt(parent_id), name: name.clone() },
        }),
        ImportCandidate::Bookmark { stable_id, parent_id, url, title, host } => Some(EventLog {
            event_id: String::from_str(event_id),
            device_id: device,
            timestamp,
            event: SyncEvent::BookmarkAdded(
                BookmarkPayload {
                    id: stable_id.clone(),
                    url: url.clone(),
                    title: Some(title.clone()),
                    description: None,
                    favicon_url: None,
                    host: clone_opt(host),
                    created_at: String::from_str(created_at),
                    tags: None,
                },
            ),
        }),
        ImportCandidate::Skip => None,
    }
}

/// The folder an imported bookmark is linked to once its event was applied:
/// its parent folder, if it has one (folders get no link).
pub fn folder_link(c: &ImportCandidate) -> (r: Option<String>)
    ensures
        match c@ {
            ImportCandidateView::Bookmark { parent_id, .. } => opt_view(r) == parent_id,
            _ => r is None,
        },
{
    match c {
        ImportCandidate::Bookmark { parent_id, .. } => clone_opt(parent_id),
        _ => None,
    }
}

/// The lookup that tells whether a candidate was deleted here before (it is
/// then not imported again): a folder's flag by its stable id, a bookmark's
/// by its cleaned URL; none for a skipped node, which is never imported.
pub fn import_deleted_flag_statement(c: &ImportCandidate) -> (r: Option<SqlStatement>)
    ensures
        match c@ {
            ImportCandidateView::Folder { stable_id, .. } => r matches Some(s)
                && stmt_view(s) == (folder_deleted_flag_sql(SqlDialect::Sqlite), seq![Some(stable_id)]),
            ImportCandidateView::Bookmark { url, .. } => r matches Some(s)
                && stmt_view(s) == (bookmark_deleted_flag_sql(SqlDialect::Sqlite), seq![Some(url)]),
            ImportCandidateView::Skip => r is None,
        },
{
    match c {
        ImportCandidate::Folder { stable_id, .. } => Some(folder_deleted_flag_statement(SqlDialect::Sqlite, stable_id.as_str())),
        ImportCandidate::Bookmark { url, .. } => Some(bookmark_deleted_flag_statement(SqlDialect::Sqlite, url.as_str())),
        ImportCandidate::Skip => None,
    }
}

/// What an import event gives once the store has taken it or not (it was
/// applied before): whether it counts as an imported bookmark (folders do
/// not count), and the folder a newly imported bookmark is linked to.
pub fn import_applied(c: &ImportCandidate, newly_applied: bool) -> (r: (bool, Option<String>))
    ensures
        r.0 == (newly_applied && c@ is Bookmark),
        opt_view(r.1) == if newly_applied {
            match c@ {
                ImportCandidateView::Bookmark { parent_id, .. } => parent_id,
                _ => None,
            }
        } else {
            None
        },
{
    if !newly_applied {
        return (false, None);
    }
    match c {
        ImportCandidate::Bookmark { .. } => (true, folder_link(c)),
        _ => (false, None),
    }
}

} // verus!
