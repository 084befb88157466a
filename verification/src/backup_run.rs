//! The order of one backup upload to GitHub: the remote listing is read and
//! checked, the remote backup must be the one this app wrote last before
//! any file content is uploaded, each upload is checked, the new folder is
//! checked the same way, and a commit is made only while the local files
//! stayed unchanged.
use crate::backup::{
    backup_folder, backup_folder_of, check_listing_complete, check_unchanged_meanwhile,
    check_uploaded_id, contents_to_upload, needs_commit, pair_views, remote_files, remote_files_of,
    same_contents, unchanged, RemoteEntry,
};
use crate::github_sync::{changed_remote_message, check_remote, remote_is_ours};
use crate::importing::opt_view;
use vstd::prelude::*;

verus! {

/// What an upload knows of itself: the local files (upload name and blob
/// id, by name) and the backup folder this app wrote last.
pub struct UploadContext {
    pub local: Vec<(String, String)>,
    pub previous: String,
}

/// The next thing an upload does.
pub enum UploadAction {
    /// Read the branch's tree (after its head and commit).
    ReadRepositoryTree,
    /// Read the remote backup folder with this id, recursively.
    ReadBackupTree(String),
    /// Upload the content of the local file at `index`; `uploads` tells
    /// which files need their content uploaded; `remote` is the remote
    /// backup folder found, if any.
    UploadBlob { remote: Option<String>, uploads: Vec<bool>, index: usize },
    /// Write the tree of the local files.
    WriteTree { remote: Option<String> },
    /// Look whether the local files are still the ones uploaded.
    CheckLocal { remote: Option<String>, desired: String },
    /// Commit the written folder and move the branch to the commit.
    Commit(String),
    /// The upload ends; the folder with this id is recorded as the backup.
    Finish(String),
    /// The upload stops with this error.
    Fail(String),
}

/// What the outside work of an upload action found.
pub enum UploadEvent {
    /// The branch's tree: whether its listing was cut short, and its entries.
    RepositoryTree { truncated: bool, entries: Vec<RemoteEntry> },
    /// The backup folder's tree: whether its listing was cut short, and its
    /// entries.
    BackupTree { truncated: bool, entries: Vec<RemoteEntry> },
    /// The id GitHub gave the uploaded content.
    BlobUploaded(String),
    /// The id of the written tree.
    TreeWritten(String),
    /// Whether the local files are still the ones uploaded.
    LocalChecked(bool),
    /// The commit was made and the branch moved.
    Committed,
}

/// An upload action as plain values.
pub enum UploadActionView {
    ReadRepositoryTree,
    ReadBackupTree(Seq<char>),
    UploadBlob { remote: Option<Seq<char>>, uploads: Seq<bool>, index: int },
    WriteTree { remote: Option<Seq<char>> },
    CheckLocal { remote: Option<Seq<char>>, desired: Seq<char> },
    Commit(Seq<char>),
    Finish(Seq<char>),
    Fail(Seq<char>),
}

pub open spec fn upload_action_view(a: UploadAction) -> UploadActionView {
    match a {
        UploadAction::ReadRepositoryTree => UploadActionView::ReadRepositoryTree,
        UploadAction::ReadBackupTree(s) => UploadActionView::ReadBackupTree(s@),
        UploadAction::UploadBlob { remote, uploads, index } => UploadActionView::UploadBlob {
            remote: opt_view(remote),
            uploads: uploads@,
            index: index as int,
        },
        UploadAction::WriteTree { remote } => UploadActionView::WriteTree { remote: opt_view(remote) },
        UploadAction::CheckLocal { remote, desired } => UploadActionView::CheckLocal {
            remote: opt_view(remote),
            desired: desired@,
        },
        UploadAction::Commit(d) => UploadActionView::Commit(d@),
        UploadAction::Finish(t) => UploadActionView::Finish(t@),
        UploadAction::Fail(m) => UploadActionView::Fail(m@),
    }
}

/// Whether an event answers an action, and an upload action names a local
/// file.
pub open spec fn upload_event_fits(ctx: UploadContext, done: UploadAction, event: UploadEvent) -> bool {
    match done {
        UploadAction::ReadRepositoryTree => event is RepositoryTree,
        UploadAction::ReadBackupTree(_) => event is BackupTree,
        UploadAction::UploadBlob { uploads, index, .. } => event is BlobUploaded && index
            < ctx.local@.len() && uploads@.len() == ctx.local@.len(),
        UploadAction::WriteTree { .. } => event is TreeWritten,
        UploadAction::CheckLocal { .. } => event is LocalChecked,
        UploadAction::Commit(_) => event is Committed,
        _ => false,
    }
}

/// Which local files need their content uploaded: those whose blob id the
/// remote backup does not hold.
pub open spec fn upload_flags(
    local: Seq<(Seq<char>, Seq<char>)>,
    remote: Seq<(Seq<char>, Seq<char>)>,
) -> Seq<bool> {
    Seq::new(
        local.len(),
        |i: int| !remote.map_values(|p: (Seq<char>, Seq<char>)| p.1).contains(local[i].1),
    )
}

/// The first file at or after `from` whose content is to be uploaded, or
/// the number of files.
pub open spec fn next_upload(flags: Seq<bool>, from: int) -> int
    decreases flags.len() - from,
{
    if from >= flags.len() || from < 0 {
        flags.len() as int
    } else if flags[from] {
        from
    } else {
        next_upload(flags, from + 1)
    }
}

/// The content uploads from `from` on, then the tree.
pub open spec fn uploads_from(remote: Option<Seq<char>>, flags: Seq<bool>, from: int) -> UploadActionView {
    let i = next_upload(flags, from);
    if i < flags.len() {
        UploadActionView::UploadBlob { remote, uploads: flags, index: i }
    } else {
        UploadActionView::WriteTree { remote }
    }
}

/// Once the remote backup is known: nothing to do where it holds the local
/// files already; refused unless it is the one this app wrote last (or
/// there is none); else the missing contents are uploaded.
pub open spec fn after_listing(
    ctx: UploadContext,
    remote: Option<Seq<char>>,
    files: Seq<(Seq<char>, Seq<char>)>,
) -> UploadActionView {
    let local = pair_views(ctx.local@);
    if same_contents(local, files) {
        UploadActionView::Finish(
            match remote {
                Some(r) => r,
                None => Seq::<char>::empty(),
            },
        )
    } else if !remote_is_ours(remote, ctx.previous@, Seq::<char>::empty()) {
        UploadActionView::Fail(changed_remote_message())
    } else {
        uploads_from(remote, upload_flags(local, files), 0)
    }
}

pub open spec fn mismatch_message() -> Seq<char> {
    "GitHub blob checksum mismatch"@
}

pub open spec fn changed_meanwhile_message() -> Seq<char> {
    "Local Skills changed during upload; no commit was published. Retry once changes finish."@
}

/// How an upload goes on once an action's outside work is done.
pub open spec fn upload_next(ctx: UploadContext, done: UploadAction, event: UploadEvent) -> UploadActionView {
    match done {
        UploadAction::ReadRepositoryTree => match event {
            UploadEvent::RepositoryTree { truncated, entries } => if truncated {
                UploadActionView::Fail("Repository tree is too large"@)
            } else {
                match backup_folder_of(entries@) {
                    Err(m) => UploadActionView::Fail(m),
                    Ok(Some(sha)) => UploadActionView::ReadBackupTree(sha),
                    Ok(None) => after_listing(ctx, None, seq![]),
                }
            },
            _ => UploadActionView::Fail(""@),
        },
        UploadAction::ReadBackupTree(sha) => match event {
            UploadEvent::BackupTree { truncated, entries } => if truncated {
                UploadActionView::Fail("Remote backup tree is too large"@)
            } else {
                match remote_files_of(entries@) {
                    Err(m) => UploadActionView::Fail(m),
                    Ok(files) => after_listing(ctx, Some(sha@), files),
                }
            },
            _ => UploadActionView::Fail(""@),
        },
        UploadAction::UploadBlob { remote, uploads, index } => match event {
            UploadEvent::BlobUploaded(returned) => if returned@ != pair_views(
                ctx.local@,
            )[index as int].1 {
                UploadActionView::Fail(mismatch_message())
            } else {
                uploads_from(opt_view(remote), uploads@, index + 1)
            },
            _ => UploadActionView::Fail(""@),
        },
        UploadAction::WriteTree { remote } => match event {
            UploadEvent::TreeWritten(desired) => if !remote_is_ours(
                opt_view(remote),
                ctx.previous@,
                desired@,
            ) {
                UploadActionView::Fail(changed_remote_message())
            } else {
                UploadActionView::CheckLocal { remote: opt_view(remote), desired: desired@ }
            },
            _ => UploadActionView::Fail(""@),
        },
        UploadAction::CheckLocal { remote, desired } => match event {
            UploadEvent::LocalChecked(same) => if !same {
                UploadActionView::Fail(changed_meanwhile_message())
            } else if opt_view(remote) != Some(desired@) {
                UploadActionView::Commit(desired@)
            } else {
                UploadActionView::Finish(desired@)
            },
            _ => UploadActionView::Fail(""@),
        },
        UploadAction::Commit(desired) => UploadActionView::Finish(desired@),
        _ => UploadActionView::Fail(""@),
    }
}

fn next_upload_index(flags: &Vec<bool>, from: usize) -> (r: usize)
    requires
        from <= flags.len(),
    ensures
        r as int == next_upload(flags@, from as int),
        r <= flags.len(),
{
    let mut i = from;
    while i < flags.len() && !flags[i]
        invariant
            from <= i <= flags.len(),
            next_upload(flags@, i as int) == next_upload(flags@, from as int),
        decreases flags.len() - i,
    {
        i += 1;
    }
    i
}

fn uploads_from_index(remote: Option<String>, flags: Vec<bool>, from: usize) -> (r: UploadAction)
    requires
        from <= flags.len(),
    ensures
        upload_action_view(r) == uploads_from(opt_view(remote), flags@, from as int),
        r matches UploadAction::UploadBlob { uploads, index, .. } ==> index < uploads.len()
            && uploads@ == flags@,
{
    let i = next_upload_index(&flags, from);
    if i < flags.len() {
        UploadAction::UploadBlob { remote, uploads: flags, index: i }
    } else {
        UploadAction::WriteTree { remote }
    }
}

fn after_listing_step(ctx: &UploadContext, remote: Option<String>, files: &Vec<(String, String)>) -> (r:
    UploadAction)
    ensures
        upload_action_view(r) == after_listing(*ctx, opt_view(remote), pair_views(files@)),
        r matches UploadAction::UploadBlob { uploads, index, .. } ==> index < uploads.len()
            && uploads.len() == ctx.local.len(),
{
    if unchanged(&ctx.local, files) {
        return match remote {
            Some(r) => UploadAction::Finish(r),
            None => UploadAction::Finish(String::new()),
        };
    }
    let remote_text: Option<&str> = match &remote {
        Some(r) => Some(r.as_str()),
        None => None,
    };
    let nothing = String::new();
    if check_remote(remote_text, ctx.previous.as_str(), nothing.as_str()).is_err() {
        return UploadAction::Fail(
            String::from_str(
                "Remote SkillManager folder changed or belongs to another backup. Sync stopped to protect remote data; reconcile manually or bind a different repository/branch.",
            ),
        );
    }
    let flags = contents_to_upload(&ctx.local, files);
    assert(flags@ =~= upload_flags(pair_views(ctx.local@), pair_views(files@)));
    uploads_from_index(remote, flags, 0)
}

/// The next action of an upload (see `upload_next`).
pub fn upload_step(ctx: &UploadContext, done: UploadAction, event: UploadEvent) -> (r: UploadAction)
    requires
        upload_event_fits(*ctx, done, event),
    ensures
        upload_action_view(r) == upload_next(*ctx, done, event),
        r matches UploadAction::UploadBlob { uploads, index, .. } ==> index < uploads.len()
            && uploads.len() == ctx.local.len(),
{
    match done {
        UploadAction::ReadRepositoryTree => match event {
            UploadEvent::RepositoryTree { truncated, entries } => {
                if let Err(e) = check_listing_complete(truncated, false) {
                    return UploadAction::Fail(e);
                }
                match backup_folder(&entries) {
                    Err(e) => UploadAction::Fail(e),
                    Ok(Some(sha)) => UploadAction::ReadBackupTree(sha),
                    Ok(None) => {
                        let none: Vec<(String, String)> = Vec::new();
                        assert(pair_views(none@) =~= Seq::<(Seq<char>, Seq<char>)>::empty());
                        after_listing_step(ctx, None, &none)
                    },
                }
            },
            _ => UploadAction::Fail(String::new()),
        },
        UploadAction::ReadBackupTree(sha) => match event {
            UploadEvent::BackupTree { truncated, entries } => {
                if let Err(e) = check_listing_complete(truncated, true) {
                    return UploadAction::Fail(e);
                }
                match remote_files(&entries) {
                    Err(e) => UploadAction::Fail(e),
                    Ok(files) => after_listing_step(ctx, Some(sha), &files),
                }
            },
            _ => UploadAction::Fail(String::new()),
        },
        UploadAction::UploadBlob { remote, uploads, index } => match event {
            UploadEvent::BlobUploaded(returned) => {
                assert(pair_views(ctx.local@)[index as int].1 == ctx.local@[index as int].1@);
                if let Err(e) = check_uploaded_id(returned.as_str(), ctx.local[index].1.as_str()) {
                    return UploadAction::Fail(e);
                }
                assert(index < ctx.local.len());
                uploads_from_index(remote, uploads, index + 1)
            },
            _ => UploadAction::Fail(String::new()),
        },
        UploadAction::WriteTree { remote } => match event {
            UploadEvent::TreeWritten(desired) => {
                let remote_text: Option<&str> = match &remote {
                    Some(r) => Some(r.as_str()),
                    None => None,
                };
                if let Err(e) = check_remote(remote_text, ctx.previous.as_str(), desired.as_str()) {
                    return UploadAction::Fail(e);
                }
                UploadAction::CheckLocal { remote, desired }
            },
            _ => UploadAction::Fail(String::new()),
        },
        UploadAction::CheckLocal { remote, desired } => match event {
            UploadEvent::LocalChecked(same) => {
                if let Err(e) = check_unchanged_meanwhile(same) {
                    return UploadAction::Fail(e);
                }
                if needs_commit(&remote, desired.as_str()) {
                    UploadAction::Commit(desired)
                } else {
                    UploadAction::Finish(desired)
                }
            },
            _ => UploadAction::Fail(String::new()),
        },
        UploadAction::Commit(desired) => UploadAction::Finish(desired),
        _ => UploadAction::Fail(String::new()),
    }
}

/// What holds at each point of an upload: content is uploaded and a tree
/// written only while the remote backup found is the one this app wrote
/// last (or none); the local files are looked at again, and a commit made,
/// only once the written tree passed the same check.
pub open spec fn upload_guarded(ctx: UploadContext, a: UploadActionView) -> bool {
    match a {
        UploadActionView::UploadBlob { remote, .. } => remote_is_ours(
            remote,
            ctx.previous@,
            Seq::<char>::empty(),
        ),
        UploadActionView::WriteTree { remote } => remote_is_ours(
            remote,
            ctx.previous@,
            Seq::<char>::empty(),
        ),
        UploadActionView::CheckLocal { remote, desired } => remote_is_ours(
            remote,
            ctx.previous@,
            desired,
        ),
        _ => true,
    }
}

/// A backup never touches a remote backup that is not its own: every
/// action an upload reaches from its start keeps `upload_guarded`, so no
/// content is uploaded and no tree written before the remote backup was
/// found to be the one this app wrote last; and a commit follows only the
/// check that the local files stayed as uploaded, for a tree that differs
/// from the remote one.
pub proof fn law_backup_checks_remote_before_uploading(
    ctx: UploadContext,
    done: UploadAction,
    event: UploadEvent,
)
    requires
        upload_guarded(ctx, upload_action_view(done)),
    ensures
        upload_guarded(ctx, UploadActionView::ReadRepositoryTree),
        upload_guarded(ctx, upload_next(ctx, done, event)),
        upload_next(ctx, done, event) is Commit ==> (done matches UploadAction::CheckLocal {
            remote,
            desired,
        } && event == UploadEvent::LocalChecked(true) && opt_view(remote) != Some(desired@)
            && upload_next(ctx, done, event) == UploadActionView::Commit(desired@)),
{
}

} // verus!
