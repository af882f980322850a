//! The steps of a synchronisation through the Git repository, as decisions
//! on what the previous steps found: whether it may run, what it pulls and
//! pushes, what is remembered when a push fails, and how the repository's
//! files are brought over to segments.

use vstd::prelude::*;
use crate::config::DataSourceKind;
use crate::settings::{flag_value, opt_seq, read_flag};

verus! {

/// The three synchronisation commands.
#[derive(Debug, Clone, Copy, PartialEq, Eq, Structural)]
pub enum SyncMode {
    /// Pull, then push.
    Incremental,
    /// Pull; push only when an earlier push is still owed.
    PullOnly,
    /// Push only.
    PushOnly,
}

/// The repository a synchronisation runs on: Git synchronisation needs the
/// SQLite store and a configured repository directory.
pub fn sync_repo_dir(kind: DataSourceKind, repo_dir: Option<String>) -> (r: Result<String, String>)
    ensures
        kind == DataSourceKind::Postgres ==> (r matches Err(e) && e@ == "Git 同步仅支持 SQLite 数据源"@),
        kind == DataSourceKind::Sqlite && repo_dir is None ==> (r matches Err(e) && e@ == "请先设置 Git 仓库目录"@),
        kind == DataSourceKind::Sqlite && repo_dir is Some ==> r == Ok::<String, String>(repo_dir->0),
{
    match kind {
        DataSourceKind::Postgres => Err(String::from_str("Git 同步仅支持 SQLite 数据源")),
        DataSourceKind::Sqlite => match repo_dir {
            Some(d) => Ok(d),
            None => Err(String::from_str("请先设置 Git 仓库目录")),
        },
    }
}

/// A configured directory that is no Git repository stops the
/// synchronisation.
pub fn require_git_repo(is_git_repo: bool) -> (r: Result<(), String>)
    ensures
        is_git_repo <==> r is Ok,
        r matches Err(e) ==> e@ == "Git 仓库目录无效"@,
{
    if is_git_repo {
        Ok(())
    } else {
        Err(String::from_str("Git 仓库目录无效"))
    }
}

/// Which halves of a synchronisation run.
#[derive(Debug, Clone, Copy, PartialEq, Eq, Structural)]
pub struct SyncPlan {
    pub pull: bool,
    pub push: bool,
}

pub fn plan_sync(mode: SyncMode, pending_push: bool) -> (r: SyncPlan)
    ensures
        r.pull == (mode != SyncMode::PushOnly),
        r.push == (mode == SyncMode::Incremental || mode == SyncMode::PushOnly || (mode == SyncMode::PullOnly && pending_push)),
{
    match mode {
        SyncMode::Incremental => SyncPlan { pull: true, push: true },
        SyncMode::PullOnly => SyncPlan { pull: true, push: pending_push },
        SyncMode::PushOnly => SyncPlan { pull: false, push: true },
    }
}

/// After a push: the pending-push flag to store (set exactly when the push
/// failed) and what the command reports (the push's error, if any).
pub fn after_push(push: Result<(), String>) -> (r: (bool, Result<(), String>))
    ensures
        r.0 == push is Err,
        r.1 == push,
{
    let failed = push.is_err();
    (failed, push)
}

/// A legacy `events.ndjson` in the repository becomes its first segment,
/// or is dropped when that segment already exists.
#[derive(Debug, Clone, Copy, PartialEq, Eq, Structural)]
pub enum RepoLegacyAction {
    RenameToFirstSegment,
    Remove,
}

pub fn repo_legacy_action(first_segment_exists: bool) -> (r: RepoLegacyAction)
    ensures
        r == (if first_segment_exists { RepoLegacyAction::Remove } else { RepoLegacyAction::RenameToFirstSegment }),
{
    if first_segment_exists {
        RepoLegacyAction::Remove
    } else {
        RepoLegacyAction::RenameToFirstSegment
    }
}

/// The local sealed segments the repository lacks, in order: only those
/// are copied (a sealed segment never changes).
pub open spec fn missing_segments(local: Seq<String>, in_repo: Seq<bool>) -> Seq<Seq<char>>
    decreases local.len(),
{
    if local.len() == 0 || in_repo.len() < local.len() {
        Seq::empty()
    } else {
        let prev = missing_segments(local.drop_last(), in_repo.take(local.len() - 1));
        if in_repo[local.len() - 1] {
            prev
        } else {
            prev.push(local.last()@)
        }
    }
}

pub fn segments_to_copy(local: &Vec<String>, in_repo: &Vec<bool>) -> (r: Vec<String>)
    requires
        in_repo@.len() == local@.len(),
    ensures
        crate::text::views(r@) == missing_segments(local@, in_repo@),
{
    let mut out: Vec<String> = Vec::new();
    let mut i: usize = 0;
    while i < local.len()
        invariant
            i <= local.len(),
            in_repo@.len() == local@.len(),
            crate::text::views(out@) == missing_segments(local@.take(i as int), in_repo@.take(i as int)),
        decreases local.len() - i,
    {
        proof {
            let t = local@.take(i + 1);
            assert(t.drop_last() == local@.take(i as int));
            assert(t.last() == local@[i as int]);
            assert(in_repo@.take(i + 1).take(i as int) == in_repo@.take(i as int));
            assert(in_repo@.take(i + 1)[i as int] == in_repo@[i as int]);
        }
        if !in_repo[i] {
            let ghost before = out@;
            out.push(local[i].clone());
            assert(crate::text::views(out@) == crate::text::views(before).push(local@[i as int]@));
        }
        i = i + 1;
    }
    assert(local@.take(local.len() as int) == local@);
    assert(in_repo@.take(local.len() as int) == in_repo@);
    out
}

/// The path, inside the repository, of the legacy log to drop from Git's
/// index.
pub fn repo_legacy_path() -> (r: String)
    ensures
        r@ == "events/events.ndjson"@,
{
    String::from_str("events/events.ndjson")
}

/// The commit message of a push made at the given time: `sync events `
/// followed by that time.
pub fn commit_message_at(now: &str) -> (r: String)
    ensures
        r@ == "sync events "@ + now@,
{
    let mut s = String::from_str("sync events ");
    s.append(now);
    s
}

/// The repository a push on close goes to: the stored one when "push on
/// close" is on (it is by default), none when it is off or no repository is
/// set.
pub fn close_push_repo(close_push: &Option<String>, stored_repo: Option<String>) -> (r: Option<String>)
    ensures
        r == (if flag_value(opt_seq(*close_push), true) { stored_repo } else { None }),
{
    if read_flag(close_push, true) {
        stored_repo
    } else {
        None
    }
}

} // verus!
