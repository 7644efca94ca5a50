//! What the project view shows of a repository, and the mathematical values
//! that the contracts speak of.
use vstd::prelude::*;

verus! {

/// One commit of a repository's history.
#[derive(Debug)]
pub struct ProjectRepoCommitInfo {
    pub hash: String,
    pub short_hash: String,
    pub author_name: String,
    pub author_email: String,
    pub timestamp: i64,
    pub subject: String,
}

/// One file of a snapshot.
#[derive(Debug)]
pub struct ProjectRepoFileInfo {
    pub path: String,
    pub kind: String,
    pub size: Option<u64>,
    pub preview_content: Option<String>,
    pub last_changed_at: Option<i64>,
    pub latest_commit: Option<ProjectRepoCommitInfo>,
}

/// One author of commits.
#[derive(Debug)]
pub struct ProjectRepoContributorInfo {
    pub name: String,
    pub email: String,
    pub commit_count: usize,
    pub last_commit_at: i64,
}

/// A repository at one moment: its latest commit, its recent commits, its
/// files and its contributors.
#[derive(Debug)]
pub struct ProjectRepoSnapshotInfo {
    pub latest_commit: Option<ProjectRepoCommitInfo>,
    pub commits: Vec<ProjectRepoCommitInfo>,
    pub files: Vec<ProjectRepoFileInfo>,
    pub contributors: Vec<ProjectRepoContributorInfo>,
}

/// A snapshot of a local checkout, with the path of the checkout.
#[derive(Debug)]
pub struct ProjectLocalRepoSnapshotInfo {
    pub path: String,
    pub snapshot: ProjectRepoSnapshotInfo,
}

/// A local checkout: the name of its directory and its path.
#[derive(Debug)]
pub struct ProjectLocalRepoInfo {
    pub name: String,
    pub path: String,
}

/// How a local checkout stands against the remote branch.
#[derive(Debug)]
pub struct ProjectRepoSyncStatusInfo {
    pub local_path: Option<String>,
    pub local_branch: Option<String>,
    pub local_branches: Vec<String>,
    pub local_head: Option<String>,
    pub local_short_head: Option<String>,
    pub remote_branch: Option<String>,
    pub remote_head: Option<String>,
    pub remote_short_head: Option<String>,
    pub merge_base: Option<String>,
    pub ahead_count: usize,
    pub behind_count: usize,
    pub has_uncommitted_changes: bool,
    pub has_untracked_files: bool,
    pub can_push: bool,
    pub push_block_reason: Option<String>,
    pub can_pull: bool,
    pub pull_block_reason: Option<String>,
}

/// What a push did.
#[derive(Debug)]
pub struct ProjectRepoPushResult {
    pub pushed: bool,
    pub message: String,
    pub branch: String,
    pub commit: String,
    pub merge_base: Option<String>,
}

/// What a pull did.
#[derive(Debug)]
pub struct ProjectRepoPullResult {
    pub pulled: bool,
    pub message: String,
}

/// The configured `user.name` and `user.email`.
#[derive(Debug)]
pub struct GitIdentityInfo {
    pub name: Option<String>,
    pub email: Option<String>,
}

// ---------------------------------------------------------------------------
// The values behind the types

pub struct CommitModel {
    pub hash: Seq<char>,
    pub short_hash: Seq<char>,
    pub author_name: Seq<char>,
    pub author_email: Seq<char>,
    pub timestamp: i64,
    pub subject: Seq<char>,
}

impl DeepView for ProjectRepoCommitInfo {
    type V = CommitModel;

    open spec fn deep_view(&self) -> CommitModel {
        CommitModel {
            hash: self.hash@,
            short_hash: self.short_hash@,
            author_name: self.author_name@,
            author_email: self.author_email@,
            timestamp: self.timestamp,
            subject: self.subject@,
        }
    }
}

impl Clone for ProjectRepoCommitInfo {
    fn clone(&self) -> (r: Self)
        ensures
            r.deep_view() == self.deep_view(),
    {
        ProjectRepoCommitInfo {
            hash: self.hash.clone(),
            short_hash: self.short_hash.clone(),
            author_name: self.author_name.clone(),
            author_email: self.author_email.clone(),
            timestamp: self.timestamp,
            subject: self.subject.clone(),
        }
    }
}

pub struct FileModel {
    pub path: Seq<char>,
    pub kind: Seq<char>,
    pub size: Option<u64>,
    pub preview_content: Option<Seq<char>>,
    pub last_changed_at: Option<i64>,
    pub latest_commit: Option<CommitModel>,
}

impl DeepView for ProjectRepoFileInfo {
    type V = FileModel;

    open spec fn deep_view(&self) -> FileModel {
        FileModel {
            path: self.path@,
            kind: self.kind@,
            size: self.size,
            preview_content: self.preview_content.deep_view(),
            last_changed_at: self.last_changed_at,
            latest_commit: self.latest_commit.deep_view(),
        }
    }
}

pub struct ContributorModel {
    pub name: Seq<char>,
    pub email: Seq<char>,
    pub commit_count: nat,
    pub last_commit_at: i64,
}

impl DeepView for ProjectRepoContributorInfo {
    type V = ContributorModel;

    open spec fn deep_view(&self) -> ContributorModel {
        ContributorModel {
            name: self.name@,
            email: self.email@,
            commit_count: self.commit_count as nat,
            last_commit_at: self.last_commit_at,
        }
    }
}

pub struct SnapshotModel {
    pub latest_commit: Option<CommitModel>,
    pub commits: Seq<CommitModel>,
    pub files: Seq<FileModel>,
    pub contributors: Seq<ContributorModel>,
}

impl DeepView for ProjectRepoSnapshotInfo {
    type V = SnapshotModel;

    open spec fn deep_view(&self) -> SnapshotModel {
        SnapshotModel {
            latest_commit: self.latest_commit.deep_view(),
            commits: self.commits.deep_view(),
            files: self.files.deep_view(),
            contributors: self.contributors.deep_view(),
        }
    }
}

pub struct LocalSnapshotModel {
    pub path: Seq<char>,
    pub snapshot: SnapshotModel,
}

impl DeepView for ProjectLocalRepoSnapshotInfo {
    type V = LocalSnapshotModel;

    open spec fn deep_view(&self) -> LocalSnapshotModel {
        LocalSnapshotModel { path: self.path@, snapshot: self.snapshot.deep_view() }
    }
}

pub struct LocalRepoModel {
    pub name: Seq<char>,
    pub path: Seq<char>,
}

impl DeepView for ProjectLocalRepoInfo {
    type V = LocalRepoModel;

    open spec fn deep_view(&self) -> LocalRepoModel {
        LocalRepoModel { name: self.name@, path: self.path@ }
    }
}

pub struct SyncStatusModel {
    pub local_path: Option<Seq<char>>,
    pub local_branch: Option<Seq<char>>,
    pub local_branches: Seq<Seq<char>>,
    pub local_head: Option<Seq<char>>,
    pub local_short_head: Option<Seq<char>>,
    pub remote_branch: Option<Seq<char>>,
    pub remote_head: Option<Seq<char>>,
    pub remote_short_head: Option<Seq<char>>,
    pub merge_base: Option<Seq<char>>,
    pub ahead_count: nat,
    pub behind_count: nat,
    pub has_uncommitted_changes: bool,
    pub has_untracked_files: bool,
    pub can_push: bool,
    pub push_block_reason: Option<Seq<char>>,
    pub can_pull: bool,
    pub pull_block_reason: Option<Seq<char>>,
}

impl DeepView for ProjectRepoSyncStatusInfo {
    type V = SyncStatusModel;

    open spec fn deep_view(&self) -> SyncStatusModel {
        SyncStatusModel {
            local_path: self.local_path.deep_view(),
            local_branch: self.local_branch.deep_view(),
            local_branches: self.local_branches.deep_view(),
            local_head: self.local_head.deep_view(),
            local_short_head: self.local_short_head.deep_view(),
            remote_branch: self.remote_branch.deep_view(),
            remote_head: self.remote_head.deep_view(),
            remote_short_head: self.remote_short_head.deep_view(),
            merge_base: self.merge_base.deep_view(),
            ahead_count: self.ahead_count as nat,
            behind_count: self.behind_count as nat,
            has_uncommitted_changes: self.has_uncommitted_changes,
            has_untracked_files: self.has_untracked_files,
            can_push: self.can_push,
            push_block_reason: self.push_block_reason.deep_view(),
            can_pull: self.can_pull,
            pull_block_reason: self.pull_block_reason.deep_view(),
        }
    }
}

pub struct PullModel {
    pub pulled: bool,
    pub message: Seq<char>,
}

impl DeepView for ProjectRepoPullResult {
    type V = PullModel;

    open spec fn deep_view(&self) -> PullModel {
        PullModel { pulled: self.pulled, message: self.message@ }
    }
}

pub struct IdentityModel {
    pub name: Option<Seq<char>>,
    pub email: Option<Seq<char>>,
}

impl DeepView for GitIdentityInfo {
    type V = IdentityModel;

    open spec fn deep_view(&self) -> IdentityModel {
        IdentityModel { name: self.name.deep_view(), email: self.email.deep_view() }
    }
}

/// The first `n` items of `s`, or all of them if there are fewer.
pub open spec fn first_n<A>(s: Seq<A>, n: nat) -> Seq<A> {
    if s.len() <= n {
        s
    } else {
        s.take(n as int)
    }
}

/// The first items are kept, as they are and in order; only what lies behind the
/// `n`-th is left out.
pub proof fn law_first_items_are_kept<A>(s: Seq<A>, n: nat, i: int)
    ensures
        s.len() <= n ==> first_n(s, n).len() == s.len(),
        s.len() > n ==> first_n(s, n).len() == n,
        0 <= i < s.len() && i < n ==> first_n(s, n)[i] == s[i],
{
}

/// The values behind a snapshot are those of its fields, each of them and item by
/// item.
pub proof fn law_snapshot_is_shown_whole(
    commit: ProjectRepoCommitInfo,
    file: ProjectRepoFileInfo,
    contributor: ProjectRepoContributorInfo,
    snapshot: ProjectRepoSnapshotInfo,
    local: ProjectLocalRepoSnapshotInfo,
    i: int,
)
    ensures
        ({
            let c = commit.deep_view();
            &&& c.hash == commit.hash@ && c.short_hash == commit.short_hash@
            &&& c.author_name == commit.author_name@ && c.author_email == commit.author_email@
            &&& c.timestamp == commit.timestamp && c.subject == commit.subject@
        }),
        ({
            let f = file.deep_view();
            &&& f.path == file.path@ && f.kind == file.kind@ && f.size == file.size
            &&& f.last_changed_at == file.last_changed_at
            &&& file.preview_content matches Some(text) ==> f.preview_content == Some(text@)
            &&& file.preview_content is None ==> f.preview_content is None
            &&& file.latest_commit matches Some(c) ==> f.latest_commit == Some(c.deep_view())
            &&& file.latest_commit is None ==> f.latest_commit is None
        }),
        ({
            let c = contributor.deep_view();
            &&& c.name == contributor.name@ && c.email == contributor.email@
            &&& c.commit_count == contributor.commit_count
            &&& c.last_commit_at == contributor.last_commit_at
        }),
        ({
            let s = snapshot.deep_view();
            &&& snapshot.latest_commit matches Some(c) ==> s.latest_commit == Some(c.deep_view())
            &&& snapshot.latest_commit is None ==> s.latest_commit is None
            &&& s.commits.len() == snapshot.commits@.len()
            &&& 0 <= i < s.commits.len() ==> s.commits[i] == snapshot.commits@[i].deep_view()
            &&& s.files.len() == snapshot.files@.len()
            &&& 0 <= i < s.files.len() ==> s.files[i] == snapshot.files@[i].deep_view()
            &&& s.contributors.len() == snapshot.contributors@.len()
            &&& 0 <= i < s.contributors.len() ==> s.contributors[i]
                == snapshot.contributors@[i].deep_view()
        }),
        local.deep_view().path == local.path@,
        local.deep_view().snapshot == local.snapshot.deep_view(),
{
}

pub open spec fn shows_text(model: Option<Seq<char>>, text: Option<String>) -> bool {
    match text {
        Some(t) => model == Some(t@),
        None => model is None,
    }
}

/// The values behind a report are those of its fields, each of them and item by item.
pub proof fn law_report_is_shown_whole(
    status: ProjectRepoSyncStatusInfo,
    pull: ProjectRepoPullResult,
    identity: GitIdentityInfo,
    repo: ProjectLocalRepoInfo,
    i: int,
)
    ensures
        ({
            let s = status.deep_view();
            &&& shows_text(s.local_path, status.local_path)
            &&& shows_text(s.local_branch, status.local_branch)
            &&& s.local_branches.len() == status.local_branches@.len()
            &&& 0 <= i < s.local_branches.len() ==> s.local_branches[i] == status.local_branches@[i]@
            &&& shows_text(s.local_head, status.local_head)
            &&& shows_text(s.local_short_head, status.local_short_head)
            &&& shows_text(s.remote_branch, status.remote_branch)
            &&& shows_text(s.remote_head, status.remote_head)
            &&& shows_text(s.remote_short_head, status.remote_short_head)
            &&& shows_text(s.merge_base, status.merge_base)
            &&& s.ahead_count == status.ahead_count && s.behind_count == status.behind_count
            &&& s.has_uncommitted_changes == status.has_uncommitted_changes
            &&& s.has_untracked_files == status.has_untracked_files
            &&& s.can_push == status.can_push && s.can_pull == status.can_pull
            &&& shows_text(s.push_block_reason, status.push_block_reason)
            &&& shows_text(s.pull_block_reason, status.pull_block_reason)
        }),
        pull.deep_view().pulled == pull.pulled && pull.deep_view().message == pull.message@,
        shows_text(identity.deep_view().name, identity.name),
        shows_text(identity.deep_view().email, identity.email),
        repo.deep_view().name == repo.name@ && repo.deep_view().path == repo.path@,
{
}

} // verus!
