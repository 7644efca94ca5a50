//! Snapshots of a repository: of a fresh clone, of a working tree and of
//! another reference of a local checkout.
use crate::branch::{normalize_branch_name, normalized};
use crate::contributors::{contributors_of, parse_contributors};
use crate::exchange::{
    after, agree_until, ask_git, files_at, follows, git, lemma_after_take, lemma_text_at_take,
    looks_at_worktree, previews_at, rest, text_at, text_reply, Progress, Reply, Request,
    RequestModel,
};
use crate::files::{
    checkout_files, checkout_files_script, entries_of, law_worktree_files_come_from_paths,
    parse_ref_tree_entries, project_files_from_ref, ref_files, ref_previews, ref_previews_script,
    tree_files, worktree_files, worktree_files_of, worktree_files_script, worktree_paths_of,
};
use crate::history::{
    commits_of, index_of_lines, latest_commit_of, parse_commits, parse_latest_commit,
    parse_latest_commit_by_path, CommitIndex, MAX_COMMITS,
};
use crate::model::{
    first_n, CommitModel, ContributorModel, FileModel, ProjectRepoCommitInfo,
    ProjectRepoContributorInfo, ProjectRepoFileInfo, ProjectRepoSnapshotInfo, SnapshotModel,
};
use crate::text::{join2, join3, lines_of, same_text};
use vstd::prelude::*;

verus! {

/// The fields of a commit, as `git log` is asked for them.
pub const COMMIT_FORMAT: &'static str = "--format=%H%x00%h%x00%an%x00%ae%x00%at%x00%s";

/// The fields of an author, as `git log` is asked for them.
pub const AUTHOR_FORMAT: &'static str = "--format=%an%x00%ae%x00%at";

// ---------------------------------------------------------------------------
// The range of commits that belong to a branch

/// The base branch that the commits of a branch are counted from: none if
/// either name is missing or empty or if they are the same.
pub open spec fn range_base(branch: Option<Seq<char>>, base: Option<Seq<char>>) -> Option<
    Seq<char>,
> {
    match (branch, base) {
        (Some(b), Some(c)) => if normalized(b).len() == 0 || normalized(c).len() == 0
            || normalized(b) == normalized(c) {
            None
        } else {
            Some(normalized(c))
        },
        _ => None,
    }
}

/// The range takes one question: whether the remote has the base branch.
pub open spec fn range_script(branch: Option<Seq<char>>, base: Option<Seq<char>>) -> Seq<
    RequestModel,
> {
    match range_base(branch, base) {
        Some(name) => seq![
            git(
                seq![
                    "rev-parse"@,
                    "--verify"@,
                    "--quiet"@,
                    "refs/remotes/origin/"@ + name,
                ],
            ),
        ],
        None => seq![],
    }
}

/// The commits of `target` that the remote base branch does not have, if the
/// remote has that branch.
pub open spec fn activity_range(
    branch: Option<Seq<char>>,
    base: Option<Seq<char>>,
    target: Seq<char>,
    replies: Seq<Reply>,
) -> Option<Seq<char>> {
    match range_base(branch, base) {
        Some(name) => if text_at(replies, 0) is Some {
            Some("origin/"@ + name + (".."@ + target))
        } else {
            None
        },
        None => None,
    }
}

/// The range of commits in which a branch is ahead of its base.
pub fn branch_activity_range(
    branch_name: Option<&str>,
    base_branch: Option<&str>,
    target_ref: &str,
    replies: &[Reply],
) -> (r: Progress<Option<String>>)
    ensures
        follows(
            r,
            range_script(branch_name.deep_view(), base_branch.deep_view()),
            replies@.len(),
            activity_range(
                branch_name.deep_view(),
                base_branch.deep_view(),
                target_ref@,
                replies@,
            ),
        ),
{
    let (branch, base) = match (branch_name, base_branch) {
        (Some(b), Some(c)) => (normalize_branch_name(b), normalize_branch_name(c)),
        _ => {
            return Progress::Done { value: None, used: 0 };
        },
    };
    if branch.is_empty() || base.is_empty() || same_text(branch, base) {
        return Progress::Done { value: None, used: 0 };
    }
    if replies.len() == 0 {
        let name = join2("refs/remotes/origin/", base);
        let request = ask_git(&["rev-parse", "--verify", "--quiet", name.as_str()]);
        assert(request.deep_view()->Git_args =~= seq![
            "rev-parse"@,
            "--verify"@,
            "--quiet"@,
            "refs/remotes/origin/"@ + base@,
        ]);
        return Progress::Ask(request);
    }
    let value = match text_reply(replies, 0) {
        Some(_) => {
            let to = join2("..", target_ref);
            Some(join3("origin/", base, to.as_str()))
        },
        None => None,
    };
    Progress::Done { value, used: 1 }
}

// ---------------------------------------------------------------------------
// What a snapshot is of

/// Where the files of a snapshot come from.
#[derive(Debug, Clone, Copy, PartialEq, Eq, Structural)]
pub enum Source {
    /// A fresh clone with its head checked out.
    FreshClone,
    /// A working tree, with changes that are not committed.
    Worktree,
    /// A reference that need not be checked out.
    Reference,
}

/// A snapshot to be taken: its source, the reference whose history it shows,
/// and the branch and base branch that limit its activity.
pub struct Plan {
    pub source: Source,
    pub target: Seq<char>,
    pub branch: Option<Seq<char>>,
    pub base: Option<Seq<char>>,
}

pub open spec fn head_args(source: Source, target: Seq<char>) -> Seq<Seq<char>> {
    match source {
        Source::Reference => seq!["log"@, "-1"@, COMMIT_FORMAT@, target],
        _ => seq!["log"@, "-1"@, COMMIT_FORMAT@],
    }
}

pub open spec fn commits_args(range: Seq<char>) -> Seq<Seq<char>> {
    seq!["log"@, "--max-count=50"@, COMMIT_FORMAT@, range]
}

pub open spec fn contributors_args(range: Seq<char>) -> Seq<Seq<char>> {
    seq!["log"@, AUTHOR_FORMAT@, range]
}

pub open spec fn paths_args(source: Source, target: Seq<char>) -> Seq<Seq<char>> {
    match source {
        Source::Reference => seq![
            "log"@,
            COMMIT_FORMAT@,
            "--name-only"@,
            "--diff-filter=ACMRT"@,
            target,
            "--"@,
        ],
        _ => seq!["log"@, COMMIT_FORMAT@, "--name-only"@, "--diff-filter=ACMRT"@, "--"@],
    }
}

pub open spec fn tree_args(source: Source, target: Seq<char>) -> Seq<Seq<char>> {
    match source {
        Source::Worktree => seq![
            "ls-files"@,
            "--cached"@,
            "--others"@,
            "--exclude-standard"@,
            "-z"@,
        ],
        _ => seq!["ls-tree"@, "-r"@, "--long"@, target],
    }
}

impl Plan {
    /// The latest commit.
    pub open spec fn latest(self, replies: Seq<Reply>) -> Option<CommitModel> {
        match text_at(replies, 0) {
            Some(output) => latest_commit_of(output),
            None => None,
        }
    }

    /// What the log of recent commits is asked for.
    pub open spec fn range(self, replies: Seq<Reply>) -> Seq<char> {
        match activity_range(self.branch, self.base, self.target, after(replies, 1)) {
            Some(range) => range,
            None => self.target,
        }
    }

    /// The requests before the log.
    pub open spec fn opening(self) -> Seq<RequestModel> {
        seq![git(head_args(self.source, self.target))] + range_script(self.branch, self.base)
    }

    /// The requests for the log; none if there is no commit.
    pub open spec fn log(self, replies: Seq<Reply>) -> Seq<RequestModel> {
        if self.latest(replies) is Some {
            seq![
                git(commits_args(self.range(replies))),
                git(contributors_args(self.range(replies))),
                git(paths_args(self.source, self.target)),
            ]
        } else {
            seq![]
        }
    }

    /// Whether files are listed: in a working tree always, otherwise if there
    /// is a commit.
    pub open spec fn lists_files(self, replies: Seq<Reply>) -> bool {
        self.source == Source::Worktree || self.latest(replies) is Some
    }

    /// The position of the reply that lists the files.
    pub open spec fn tree_at(self, replies: Seq<Reply>) -> int {
        (self.opening().len() + self.log(replies).len()) as int
    }

    /// The list of files, if git gave one.
    pub open spec fn tree(self, replies: Seq<Reply>) -> Option<Seq<char>> {
        if self.lists_files(replies) {
            text_at(replies, self.tree_at(replies))
        } else {
            None
        }
    }

    /// The requests that follow the list of files.
    pub open spec fn closing(self, replies: Seq<Reply>) -> Seq<RequestModel> {
        match self.tree(replies) {
            Some(output) => match self.source {
                Source::FreshClone => checkout_files_script(output),
                Source::Worktree => worktree_files_script(output),
                Source::Reference => ref_previews_script(entries_of(output)),
            },
            None => seq![],
        }
    }

    /// The requests of the snapshot, in order. What is asked depends on the
    /// replies that came before.
    pub open spec fn script(self, replies: Seq<Reply>) -> Seq<RequestModel> {
        self.opening() + self.log(replies) + (if self.lists_files(replies) {
            seq![git(tree_args(self.source, self.target))]
        } else {
            seq![]
        }) + self.closing(replies)
    }

    /// The output of the `i`-th command of the log, if it ran and succeeded.
    pub open spec fn log_output(self, replies: Seq<Reply>, i: int) -> Option<Seq<char>> {
        if self.latest(replies) is Some {
            text_at(replies, self.opening().len() + i)
        } else {
            None
        }
    }

    /// The recent commits.
    pub open spec fn commits(self, replies: Seq<Reply>) -> Seq<CommitModel> {
        match self.log_output(replies, 0) {
            Some(output) => first_n(commits_of(output), MAX_COMMITS as nat),
            None => seq![],
        }
    }

    /// The contributors of the recent commits.
    pub open spec fn contributors(self, replies: Seq<Reply>) -> Seq<ContributorModel> {
        match self.log_output(replies, 1) {
            Some(output) => contributors_of(output),
            None => seq![],
        }
    }

    /// The latest commit of each path.
    pub open spec fn index(self, replies: Seq<Reply>) -> Map<Seq<char>, CommitModel> {
        match self.log_output(replies, 2) {
            Some(output) => index_of_lines(lines_of(output)),
            None => Map::empty(),
        }
    }

    /// The files.
    pub open spec fn files(self, replies: Seq<Reply>) -> Seq<FileModel> {
        let last = after(replies, self.tree_at(replies) + 1);
        match self.tree(replies) {
            Some(output) => match self.source {
                Source::FreshClone => tree_files(
                    entries_of(output),
                    previews_at(last, 0),
                    self.index(replies),
                ),
                Source::Worktree => worktree_files_of(
                    worktree_paths_of(output),
                    files_at(last, 0),
                    self.index(replies),
                ),
                Source::Reference => ref_files(
                    entries_of(output),
                    ref_previews(entries_of(output), last),
                    self.index(replies),
                ),
            },
            None => seq![],
        }
    }

    /// The snapshot.
    pub open spec fn value(self, replies: Seq<Reply>) -> SnapshotModel {
        SnapshotModel {
            latest_commit: self.latest(replies),
            commits: self.commits(replies),
            files: self.files(replies),
            contributors: self.contributors(replies),
        }
    }
}

fn head_request(source: Source, target: &str) -> (r: Request)
    ensures
        r.deep_view() == git(head_args(source, target@)),
{
    let r = match source {
        Source::Reference => ask_git(&["log", "-1", COMMIT_FORMAT, target]),
        _ => ask_git(&["log", "-1", COMMIT_FORMAT]),
    };
    assert(r.deep_view()->Git_args =~= head_args(source, target@));
    r
}

fn commits_request(range: &str) -> (r: Request)
    ensures
        r.deep_view() == git(commits_args(range@)),
{
    let r = ask_git(&["log", "--max-count=50", COMMIT_FORMAT, range]);
    assert(r.deep_view()->Git_args =~= commits_args(range@));
    r
}

fn contributors_request(range: &str) -> (r: Request)
    ensures
        r.deep_view() == git(contributors_args(range@)),
{
    let r = ask_git(&["log", AUTHOR_FORMAT, range]);
    assert(r.deep_view()->Git_args =~= contributors_args(range@));
    r
}

fn paths_request(source: Source, target: &str) -> (r: Request)
    ensures
        r.deep_view() == git(paths_args(source, target@)),
{
    let r = match source {
        Source::Reference => ask_git(
            &["log", COMMIT_FORMAT, "--name-only", "--diff-filter=ACMRT", target, "--"],
        ),
        _ => ask_git(&["log", COMMIT_FORMAT, "--name-only", "--diff-filter=ACMRT", "--"]),
    };
    assert(r.deep_view()->Git_args =~= paths_args(source, target@));
    r
}

fn tree_request(source: Source, target: &str) -> (r: Request)
    ensures
        r.deep_view() == git(tree_args(source, target@)),
{
    let r = match source {
        Source::Worktree => ask_git(
            &["ls-files", "--cached", "--others", "--exclude-standard", "-z"],
        ),
        _ => ask_git(&["ls-tree", "-r", "--long", target]),
    };
    assert(r.deep_view()->Git_args =~= tree_args(source, target@));
    r
}

/// The plan of a snapshot.
pub open spec fn plan(
    source: Source,
    target: Seq<char>,
    branch: Option<Seq<char>>,
    base: Option<Seq<char>>,
) -> Plan {
    Plan { source, target, branch, base }
}

/// Lists the files of a snapshot from the output of the listing command.
fn listed_files(source: Source, output: &str, index: &CommitIndex, replies: &[Reply]) -> (r:
    Progress<Vec<ProjectRepoFileInfo>>)
    ensures
        match source {
            Source::FreshClone => follows(
                r,
                checkout_files_script(output@),
                replies@.len(),
                tree_files(entries_of(output@), previews_at(replies@, 0), index.deep_view()),
            ),
            Source::Worktree => follows(
                r,
                worktree_files_script(output@),
                replies@.len(),
                worktree_files_of(
                    worktree_paths_of(output@),
                    files_at(replies@, 0),
                    index.deep_view(),
                ),
            ),
            Source::Reference => follows(
                r,
                ref_previews_script(entries_of(output@)),
                replies@.len(),
                ref_files(
                    entries_of(output@),
                    ref_previews(entries_of(output@), replies@),
                    index.deep_view(),
                ),
            ),
        },
{
    match source {
        Source::FreshClone => checkout_files(output, index, replies),
        Source::Worktree => worktree_files(output, index, replies),
        Source::Reference => project_files_from_ref(
            parse_ref_tree_entries(output),
            index,
            replies,
        ),
    }
}

/// Takes a snapshot: asks for what is still missing, or puts the snapshot
/// together.
fn snapshot(
    source: Source,
    target: &str,
    branch_name: Option<&str>,
    base_branch: Option<&str>,
    replies: &[Reply],
) -> (r: Progress<ProjectRepoSnapshotInfo>)
    ensures
        follows(
            r,
            plan(source, target@, branch_name.deep_view(), base_branch.deep_view()).script(
                replies@,
            ),
            replies@.len(),
            plan(source, target@, branch_name.deep_view(), base_branch.deep_view()).value(replies@),
        ),
{
    let ghost p = plan(source, target@, branch_name.deep_view(), base_branch.deep_view());
    if replies.len() == 0 {
        return Progress::Ask(head_request(source, target));
    }
    let latest_commit = match text_reply(replies, 0) {
        Some(output) => parse_latest_commit(output),
        None => None,
    };
    let (range, range_used) = match branch_activity_range(
        branch_name,
        base_branch,
        target,
        rest(replies, 1),
    ) {
        Progress::Ask(request) => {
            return Progress::Ask(request);
        },
        Progress::Done { value, used } => (value, used),
    };
    let k: usize = 1 + range_used;
    assert(k == p.opening().len());
    let range_ref: &str = match &range {
        Some(text) => text.as_str(),
        None => target,
    };
    assert(range_ref@ == p.range(replies@));
    let has_commit = latest_commit.is_some();
    let mut commits: Vec<ProjectRepoCommitInfo> = Vec::new();
    let mut contributors: Vec<ProjectRepoContributorInfo> = Vec::new();
    let mut index = CommitIndex::empty();
    let mut t: usize = k;
    if has_commit {
        if replies.len() == k {
            return Progress::Ask(commits_request(range_ref));
        }
        if replies.len() - k == 1 {
            return Progress::Ask(contributors_request(range_ref));
        }
        if replies.len() - k == 2 {
            return Progress::Ask(paths_request(source, target));
        }
        t = k + 3;
    }
    if !(has_commit || source == Source::Worktree) {
        assert(commits.deep_view() =~= p.commits(replies@));
        assert(contributors.deep_view() =~= p.contributors(replies@));
        let files: Vec<ProjectRepoFileInfo> = Vec::new();
        assert(files.deep_view() =~= p.files(replies@));
        return Progress::Done {
            value: ProjectRepoSnapshotInfo { latest_commit, commits, files, contributors },
            used: k,
        };
    }
    assert(t == p.tree_at(replies@));
    if replies.len() == t {
        return Progress::Ask(tree_request(source, target));
    }
    if has_commit {
        if let Some(output) = text_reply(replies, k) {
            commits = parse_commits(output);
        }
        if let Some(output) = text_reply(replies, k + 1) {
            contributors = parse_contributors(output);
        }
        if let Some(output) = text_reply(replies, k + 2) {
            index = parse_latest_commit_by_path(output);
        }
    }
    assert(commits.deep_view() =~= p.commits(replies@));
    assert(contributors.deep_view() =~= p.contributors(replies@));
    assert(index.deep_view() =~= p.index(replies@));
    let (files, files_used) = match text_reply(replies, t) {
        Some(output) => match listed_files(source, output, &index, rest(replies, t + 1)) {
            Progress::Ask(request) => {
                return Progress::Ask(request);
            },
            Progress::Done { value, used } => (value, used),
        },
        None => {
            let none: Vec<ProjectRepoFileInfo> = Vec::new();
            (none, 0usize)
        },
    };
    assert(files.deep_view() =~= p.files(replies@));
    Progress::Done {
        value: ProjectRepoSnapshotInfo { latest_commit, commits, files, contributors },
        used: t + 1 + files_used,
    }
}

/// The plan of a snapshot of a fresh clone.
pub open spec fn clone_plan(branch: Option<Seq<char>>, base: Option<Seq<char>>) -> Plan {
    plan(Source::FreshClone, "HEAD"@, branch, base)
}

/// The plan of a snapshot of a working tree.
pub open spec fn worktree_plan(branch: Option<Seq<char>>, base: Option<Seq<char>>) -> Plan {
    plan(Source::Worktree, "HEAD"@, branch, base)
}

/// The plan of a snapshot of a reference.
pub open spec fn ref_plan(
    target: Seq<char>,
    branch: Option<Seq<char>>,
    base: Option<Seq<char>>,
) -> Plan {
    plan(Source::Reference, target, branch, base)
}

/// A snapshot of a fresh clone.
pub fn snapshot_from_repo(
    branch_name: Option<&str>,
    base_branch: Option<&str>,
    replies: &[Reply],
) -> (r: Progress<ProjectRepoSnapshotInfo>)
    ensures
        follows(
            r,
            clone_plan(branch_name.deep_view(), base_branch.deep_view()).script(replies@),
            replies@.len(),
            clone_plan(branch_name.deep_view(), base_branch.deep_view()).value(replies@),
        ),
{
    snapshot(Source::FreshClone, "HEAD", branch_name, base_branch, replies)
}

/// A snapshot of a working tree, changes that are not committed included.
pub fn snapshot_from_worktree(
    branch_name: Option<&str>,
    base_branch: Option<&str>,
    replies: &[Reply],
) -> (r: Progress<ProjectRepoSnapshotInfo>)
    ensures
        follows(
            r,
            worktree_plan(branch_name.deep_view(), base_branch.deep_view()).script(replies@),
            replies@.len(),
            worktree_plan(branch_name.deep_view(), base_branch.deep_view()).value(replies@),
        ),
{
    snapshot(Source::Worktree, "HEAD", branch_name, base_branch, replies)
}

/// A snapshot of a reference, which need not be checked out.
pub fn snapshot_from_ref(
    target_ref: &str,
    branch_name: Option<&str>,
    base_branch: Option<&str>,
    replies: &[Reply],
) -> (r: Progress<ProjectRepoSnapshotInfo>)
    ensures
        follows(
            r,
            ref_plan(target_ref@, branch_name.deep_view(), base_branch.deep_view()).script(
                replies@,
            ),
            replies@.len(),
            ref_plan(target_ref@, branch_name.deep_view(), base_branch.deep_view()).value(replies@),
        ),
{
    snapshot(Source::Reference, target_ref, branch_name, base_branch, replies)
}

// ---------------------------------------------------------------------------
// Laws

/// A snapshot is taken step by step: what is asked next depends on the replies
/// so far only, and at most seven requests are made.
pub proof fn law_snapshot_asks_step_by_step(p: Plan, replies: Seq<Reply>, n: nat)
    requires
        n <= replies.len(),
    ensures
        agree_until(p.script(replies.take(n as int)), p.script(replies), n),
        1 <= p.script(replies).len() <= 7,
{
    let so_far = replies.take(n as int);
    let k = p.opening().len();
    if n >= k {
        lemma_text_at_take(replies, n as int, 0);
        lemma_after_take(replies, n as int, 1);
        if k == 2 {
            lemma_text_at_take(after(replies, 1), n - 1, 0);
        }
        assert(p.range(so_far) == p.range(replies));
        assert(p.log(so_far) == p.log(replies));
        let t = p.tree_at(replies);
        if n > t {
            lemma_text_at_take(replies, n as int, t);
            assert(p.script(so_far) == p.script(replies));
        } else {
            assert(p.script(so_far).len() <= t || p.script(so_far).len() >= t + 1);
            assert(first_n(p.script(so_far), n + 1) =~= first_n(p.script(replies), n + 1));
        }
    } else {
        assert(first_n(p.script(so_far), n + 1) =~= first_n(p.opening(), n + 1));
        assert(first_n(p.script(replies), n + 1) =~= first_n(p.opening(), n + 1));
    }
}

/// An argument that git can take for an option.
pub open spec fn looks_like_option(arg: Seq<char>) -> bool {
    arg.len() > 0 && arg[0] == '-'
}

/// The options with which the commands of a snapshot are run. Each of them
/// chooses or shapes what is shown; none makes git write.
pub open spec fn is_reading_option(arg: Seq<char>) -> bool {
    ||| arg == "-1"@
    ||| arg == "--max-count=50"@
    ||| arg == COMMIT_FORMAT@
    ||| arg == AUTHOR_FORMAT@
    ||| arg == "--name-only"@
    ||| arg == "--diff-filter=ACMRT"@
    ||| arg == "--"@
    ||| arg == "--verify"@
    ||| arg == "--quiet"@
    ||| arg == "-r"@
    ||| arg == "--long"@
    ||| arg == "--cached"@
    ||| arg == "--others"@
    ||| arg == "--exclude-standard"@
    ||| arg == "-z"@
}

/// A command of git that reads, with options that only shape its output.
pub open spec fn is_reading_command(args: Seq<Seq<char>>) -> bool {
    &&& args.len() > 0
    &&& args[0] == "log"@ || args[0] == "rev-parse"@ || args[0] == "ls-tree"@ || args[0]
        == "ls-files"@
    &&& forall|i: int|
        1 <= i < args.len() ==> is_reading_option(#[trigger] args[i]) || !looks_like_option(args[i])
}

/// A request that changes neither the repository nor any file.
pub open spec fn reads_only(request: RequestModel) -> bool {
    match request {
        RequestModel::Git { args, .. } => is_reading_command(args) || args == seq![
            "branch"@,
            "--show-current"@,
        ],
        RequestModel::GitWithInput { args, .. } => args == seq!["cat-file"@, "--batch"@],
        RequestModel::Previews { .. } => true,
        RequestModel::Files { .. } => true,
    }
}

/// Asking whether a reference is there only reads.
pub proof fn lemma_verify_reads_only(reference: Seq<char>)
    requires
        !looks_like_option(reference),
    ensures
        reads_only(git(seq!["rev-parse"@, "--verify"@, "--quiet"@, reference])),
{
}

proof fn lemma_opening_reads_only(p: Plan, i: int)
    requires
        !looks_like_option(p.target),
        0 <= i < p.opening().len(),
    ensures
        reads_only(p.opening()[i]),
{
    if i == 0 {
        assert(is_reading_command(head_args(p.source, p.target)));
    } else {
        let name = range_base(p.branch, p.base)->0;
        reveal_strlit("refs/remotes/origin/");
        assert(("refs/remotes/origin/"@ + name)[0] == 'r');
        lemma_verify_reads_only("refs/remotes/origin/"@ + name);
        assert(p.opening()[i] == range_script(p.branch, p.base)[0]);
    }
}

proof fn lemma_log_reads_only(p: Plan, replies: Seq<Reply>, i: int)
    requires
        !looks_like_option(p.target),
        0 <= i < p.log(replies).len(),
    ensures
        reads_only(p.log(replies)[i]),
{
    let range = p.range(replies);
    if range != p.target {
        reveal_strlit("origin/");
        assert(range[0] == 'o');
    }
    assert(is_reading_command(commits_args(range)));
    assert(is_reading_command(contributors_args(range)));
    assert(is_reading_command(paths_args(p.source, p.target)));
}

/// Taking a snapshot changes nothing: every request of it only reads, as long as
/// the target cannot be taken for an option.
pub proof fn law_snapshot_reads_only(p: Plan, replies: Seq<Reply>, i: int)
    requires
        !looks_like_option(p.target),
        0 <= i < p.script(replies).len(),
    ensures
        reads_only(p.script(replies)[i]),
{
    let k = p.opening().len();
    let t = p.tree_at(replies);
    if i < k {
        assert(p.script(replies)[i] == p.opening()[i]);
        lemma_opening_reads_only(p, i);
    } else if i < t {
        assert(p.script(replies)[i] == p.log(replies)[i - k]);
        lemma_log_reads_only(p, replies, i - k);
    } else if i == t {
        assert(p.script(replies)[i] == git(tree_args(p.source, p.target)));
        assert(is_reading_command(tree_args(p.source, p.target)));
    } else {
        assert(p.script(replies)[i] == p.closing(replies)[i - t - 1]);
    }
}

/// A snapshot of a reference never looks at the working tree.
pub proof fn law_ref_snapshot_leaves_worktree_alone(p: Plan, replies: Seq<Reply>, i: int)
    requires
        p.source == Source::Reference,
        0 <= i < p.script(replies).len(),
    ensures
        !looks_at_worktree(p.script(replies)[i]),
{
    reveal_strlit("ls-files");
    reveal_strlit("ls-tree");
    reveal_strlit("log");
    reveal_strlit("rev-parse");
    assert("ls-files"@.len() == 8);
    assert("ls-tree"@.len() == 7);
    assert("log"@.len() == 3);
    assert("rev-parse"@.len() == 9);
    let k = p.opening().len();
    let t = p.tree_at(replies);
    if i < k {
        assert(p.script(replies)[i] == p.opening()[i]);
    } else if i < t {
        assert(p.script(replies)[i] == p.log(replies)[i - k]);
    } else if i == t {
        assert(p.script(replies)[i] == git(tree_args(p.source, p.target)));
    } else {
        assert(p.script(replies)[i] == p.closing(replies)[i - t - 1]);
    }
}

/// `replies` are the replies to `script` if each request is answered by
/// `answer`.
pub open spec fn answers(
    answer: spec_fn(RequestModel) -> Reply,
    script: Seq<RequestModel>,
    replies: Seq<Reply>,
) -> bool {
    &&& replies.len() == script.len()
    &&& forall|i: int| 0 <= i < script.len() ==> #[trigger] replies[i] == answer(script[i])
}

impl Plan {
    /// Where the requests that the files rest on stand in the script.
    proof fn lemma_script(self, replies: Seq<Reply>)
        ensures
            ({
                let s = self.script(replies);
                let k = self.opening().len() as int;
                let t = self.tree_at(replies);
                &&& 1 <= k <= s.len()
                &&& s[0] == git(head_args(self.source, self.target))
                &&& self.latest(replies) is Some ==> t == k + 3 && t < s.len() && s[k + 2] == git(
                    paths_args(self.source, self.target),
                )
                &&& self.lists_files(replies) ==> t < s.len() && s[t] == git(
                    tree_args(self.source, self.target),
                ) && s.len() == t + 1 + self.closing(replies).len()
                &&& self.closing(replies).len() <= 1
                &&& self.lists_files(replies) && self.closing(replies).len() == 1 ==> s[t + 1]
                    == self.closing(replies)[0]
            }),
    {
    }
}

/// The latest commit and the files of a snapshot do not depend on the names of
/// the branch and the base: two snapshots of one reference that get the same
/// answers show the same ones.
pub proof fn law_branch_names_change_no_files(
    p: Plan,
    q: Plan,
    answer: spec_fn(RequestModel) -> Reply,
    a: Seq<Reply>,
    b: Seq<Reply>,
)
    requires
        p.source == q.source,
        p.target == q.target,
        answers(answer, p.script(a), a),
        answers(answer, q.script(b), b),
    ensures
        p.value(a).latest_commit == q.value(b).latest_commit,
        p.value(a).files == q.value(b).files,
{
    p.lemma_script(a);
    q.lemma_script(b);
    assert(a[0] == b[0]);
    let latest = p.latest(a);
    assert(latest == q.latest(b));
    if latest is Some {
        assert(a[p.opening().len() as int + 2] == b[q.opening().len() as int + 2]);
    }
    assert(p.index(a) == q.index(b));
    if p.lists_files(a) {
        let t = p.tree_at(a);
        let u = q.tree_at(b);
        assert(a[t] == b[u]);
        assert(p.tree(a) == q.tree(b));
        assert(p.closing(a) == q.closing(b));
        let last = after(a, t + 1);
        if p.closing(a).len() == 1 {
            assert(a[t + 1] == b[u + 1]);
        }
        assert(last =~= after(b, u + 1));
    }
}

/// Without a commit there is no history: no recent commits, no contributors
/// and, but for a working tree, no files.
pub proof fn law_no_commit_no_history(p: Plan, replies: Seq<Reply>)
    requires
        p.value(replies).latest_commit is None,
    ensures
        p.value(replies).commits.len() == 0,
        p.value(replies).contributors.len() == 0,
        p.source != Source::Worktree ==> p.value(replies).files.len() == 0,
        forall|i: int|
            0 <= i < p.value(replies).files.len() ==> (
            #[trigger] p.value(replies).files[i]).latest_commit is None,
{
    let files = p.value(replies).files;
    if p.source == Source::Worktree && p.tree(replies) is Some {
        let paths = worktree_paths_of(p.tree(replies)->0);
        let probes = files_at(after(replies, p.tree_at(replies) + 1), 0);
        assert forall|i: int| 0 <= i < files.len() implies (
        #[trigger] files[i]).latest_commit is None by {
            law_worktree_files_come_from_paths(paths, probes, p.index(replies), i);
        }
    }
}

/// A snapshot lists at most fifty commits, fifty contributors and 250 files.
pub proof fn law_snapshot_is_bounded(p: Plan, replies: Seq<Reply>)
    ensures
        p.value(replies).commits.len() <= 50,
        p.value(replies).contributors.len() <= 50,
        p.value(replies).files.len() <= 250,
{
}

/// Whether a branch has a base of its own to be counted from: both names are
/// given, neither is empty once it is normalised, and they differ.
pub open spec fn has_base_of_its_own(branch: Option<Seq<char>>, base: Option<Seq<char>>) -> bool {
    &&& branch is Some && base is Some
    &&& normalized(branch->0).len() > 0 && normalized(base->0).len() > 0
    &&& normalized(branch->0) != normalized(base->0)
}

/// The commits of a branch are counted from its base exactly if the branch has a
/// base of its own and the remote has the base; they are then those of the target
/// that the remote base does not have.
pub proof fn law_commits_are_counted_from_the_base(
    branch: Option<Seq<char>>,
    base: Option<Seq<char>>,
    target: Seq<char>,
    replies: Seq<Reply>,
)
    ensures
        has_base_of_its_own(branch, base) ==> {
            let name = normalized(base->0);
            &&& range_script(branch, base) == seq![
                RequestModel::Git {
                    args: seq![
                        "rev-parse"@,
                        "--verify"@,
                        "--quiet"@,
                        "refs/remotes/origin/"@ + name,
                    ],
                    in_repo: true,
                },
            ]
            &&& text_at(replies, 0) is Some ==> activity_range(branch, base, target, replies)
                == Some("origin/"@ + name + ".."@ + target)
            &&& text_at(replies, 0) is None ==> activity_range(
                branch,
                base,
                target,
                replies,
            ) is None
        },
        !has_base_of_its_own(branch, base) ==> {
            &&& range_script(branch, base).len() == 0
            &&& activity_range(branch, base, target, replies) is None
        },
{
    if has_base_of_its_own(branch, base) {
        let name = normalized(base->0);
        assert("origin/"@ + name + (".."@ + target) =~= "origin/"@ + name + ".."@ + target);
    }
}

/// The number of requests before the log: the latest commit and, if the branch has
/// a base of its own, the base.
pub open spec fn log_starts_at(p: Plan) -> int {
    if has_base_of_its_own(p.branch, p.base) {
        2
    } else {
        1
    }
}

/// What the log is asked for: the target or, if the remote has the base, the
/// commits of the target that the base does not have.
pub open spec fn asked_range(p: Plan, replies: Seq<Reply>) -> Seq<char> {
    if has_base_of_its_own(p.branch, p.base) && text_at(replies, 1) is Some {
        "origin/"@ + normalized(p.base->0) + ".."@ + p.target
    } else {
        p.target
    }
}

proof fn lemma_asked_range(p: Plan, replies: Seq<Reply>)
    requires
        replies.len() > 0,
    ensures
        p.opening().len() == log_starts_at(p),
        p.range(replies) == asked_range(p, replies),
{
    law_commits_are_counted_from_the_base(p.branch, p.base, p.target, after(replies, 1));
    assert(text_at(after(replies, 1), 0) == text_at(replies, 1));
}

/// The requests of a snapshot, spelled out: the latest commit of the target, the base
/// if there is one, then, if there is a commit, the recent commits, the authors
/// and the names of the files that changed, and last the list of the files,
/// which in a working tree comes without a commit too.
pub proof fn law_snapshot_asks_for_history_and_files(p: Plan, replies: Seq<Reply>)
    requires
        replies.len() > 0,
    ensures
        ({
            let s = p.script(replies);
            let k = log_starts_at(p);
            let range = asked_range(p, replies);
            let of_reference = p.source == Source::Reference;
            let commit = "--format=%H%x00%h%x00%an%x00%ae%x00%at%x00%s"@;
            let tree = if p.source == Source::Worktree {
                git(seq!["ls-files"@, "--cached"@, "--others"@, "--exclude-standard"@, "-z"@])
            } else {
                git(seq!["ls-tree"@, "-r"@, "--long"@, p.target])
            };
            &&& s.len() >= k
            &&& s[0] == if of_reference {
                git(seq!["log"@, "-1"@, commit, p.target])
            } else {
                git(seq!["log"@, "-1"@, commit])
            }
            &&& k == 2 ==> s[1] == git(
                seq![
                    "rev-parse"@,
                    "--verify"@,
                    "--quiet"@,
                    "refs/remotes/origin/"@ + normalized(p.base->0),
                ],
            )
            &&& p.value(replies).latest_commit is Some ==> {
                &&& s.len() >= k + 4
                &&& s[k] == git(seq!["log"@, "--max-count=50"@, commit, range])
                &&& s[k + 1] == git(seq!["log"@, "--format=%an%x00%ae%x00%at"@, range])
                &&& s[k + 2] == if of_reference {
                    git(
                        seq![
                            "log"@,
                            commit,
                            "--name-only"@,
                            "--diff-filter=ACMRT"@,
                            p.target,
                            "--"@,
                        ],
                    )
                } else {
                    git(seq!["log"@, commit, "--name-only"@, "--diff-filter=ACMRT"@, "--"@])
                }
                &&& s[k + 3] == tree
            }
            &&& p.value(replies).latest_commit is None ==> {
                &&& p.source == Source::Worktree ==> s.len() >= k + 1 && s[k] == tree
                &&& p.source != Source::Worktree ==> s.len() == k
            }
        }),
{
    lemma_asked_range(p, replies);
    let s = p.script(replies);
    let k = p.opening().len() as int;
    assert(s[0] == p.opening()[0]);
    if k == 2 {
        assert(s[1] == range_script(p.branch, p.base)[0]);
    }
    if p.latest(replies) is Some {
        assert(s[k] == p.log(replies)[0]);
        assert(s[k + 1] == p.log(replies)[1]);
        assert(s[k + 2] == p.log(replies)[2]);
        assert(s[k + 3] == git(tree_args(p.source, p.target)));
    } else if p.source == Source::Worktree {
        assert(s[k] == git(tree_args(p.source, p.target)));
    }
}

/// A snapshot shows what git replied: the latest commit of the first reply and, if
/// there is one, of the replies to the log the first fifty commits and the
/// contributors. A reply that failed leaves its part empty.
pub proof fn law_snapshot_shows_the_log(p: Plan, replies: Seq<Reply>)
    requires
        replies.len() > 0,
    ensures
        ({
            let v = p.value(replies);
            let k = log_starts_at(p);
            &&& text_at(replies, 0) matches Some(output) ==> v.latest_commit == latest_commit_of(
                output,
            )
            &&& text_at(replies, 0) is None ==> v.latest_commit is None
            &&& v.latest_commit is Some ==> {
                &&& text_at(replies, k) matches Some(output) ==> v.commits == first_n(
                    commits_of(output),
                    50,
                )
                &&& text_at(replies, k) is None ==> v.commits.len() == 0
                &&& text_at(replies, k + 1) matches Some(output) ==> v.contributors
                    == contributors_of(output)
                &&& text_at(replies, k + 1) is None ==> v.contributors.len() == 0
            }
        }),
{
    lemma_asked_range(p, replies);
}

/// The files of a snapshot come from the reply that lists them: from the entries of the
/// tree with the texts of the checkout, from the paths of the working tree with
/// what was found there, or from the entries of the tree with the texts that
/// git gave. Each has the commit that the log names its path under. Without a
/// list there are no files.
pub proof fn law_snapshot_shows_the_listed_files(p: Plan, replies: Seq<Reply>)
    requires
        replies.len() > 0,
    ensures
        ({
            let v = p.value(replies);
            let k = log_starts_at(p);
            let t = if v.latest_commit is Some {
                k + 3
            } else {
                k
            };
            let index = match text_at(replies, k + 2) {
                Some(output) => if v.latest_commit is Some {
                    index_of_lines(lines_of(output))
                } else {
                    Map::empty()
                },
                None => Map::empty(),
            };
            let listed = v.latest_commit is Some || p.source == Source::Worktree;
            &&& listed ==> (text_at(replies, t) matches Some(output) ==> match p.source {
                Source::FreshClone => v.files == tree_files(
                    entries_of(output),
                    previews_at(replies, t + 1),
                    index,
                ),
                Source::Worktree => v.files == worktree_files_of(
                    worktree_paths_of(output),
                    files_at(replies, t + 1),
                    index,
                ),
                Source::Reference => v.files == ref_files(
                    entries_of(output),
                    ref_previews(entries_of(output), replies.skip(t + 1)),
                    index,
                ),
            })
            &&& !listed || text_at(replies, t) is None ==> v.files.len() == 0
        }),
{
    lemma_asked_range(p, replies);
    let t = p.tree_at(replies);
    if 0 <= t < replies.len() {
        let last = after(replies, t + 1);
        assert(last == replies.skip(t + 1));
        assert(previews_at(last, 0) == previews_at(replies, t + 1));
        assert(files_at(last, 0) == files_at(replies, t + 1));
    }
}

/// Once the files are listed, the texts are asked for as the source has it.
pub proof fn law_snapshot_asks_for_texts_last(p: Plan, replies: Seq<Reply>)
    requires
        replies.len() > 0,
    ensures
        ({
            let v = p.value(replies);
            let k = log_starts_at(p);
            let t = if v.latest_commit is Some {
                k + 3
            } else {
                k
            };
            let listed = v.latest_commit is Some || p.source == Source::Worktree;
            &&& listed ==> (text_at(replies, t) matches Some(output) ==> p.script(replies).skip(
                t + 1,
            ) == match p.source {
                Source::FreshClone => checkout_files_script(output),
                Source::Worktree => if worktree_paths_of(output).len() > 0 {
                    seq![RequestModel::Files { paths: worktree_paths_of(output), limit: 250 }]
                } else {
                    seq![]
                },
                Source::Reference => ref_previews_script(entries_of(output)),
            })
            &&& listed && text_at(replies, t) is None ==> p.script(replies).len() == t + 1
        }),
{
    lemma_asked_range(p, replies);
    let t = p.tree_at(replies);
    if p.lists_files(replies) {
        assert(p.script(replies).skip(t + 1) =~= p.closing(replies));
    }
}

} // verus!
