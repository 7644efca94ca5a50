//! Snapshots of a project's remote repository, through a temporary clone.
use crate::branch::{
    clean_branch, clean_target_commit, cleaned, commit_id, is_safe_branch,
    law_full_hashes_are_commit_ids,
};
use crate::exchange::{
    after, agree_until, ask_git, ask_git_anywhere, failure_at, failure_reply, follows_result, git,
    lemma_after_take, lemma_join_step_by_step, lemma_text_at_take, rest, text_at, text_reply,
    Progress, Reply, Request, RequestModel,
};
use crate::model::{first_n, ProjectRepoSnapshotInfo, SnapshotModel};
use crate::snapshot::{
    clone_plan, law_snapshot_asks_step_by_step, snapshot_from_repo, Plan, Source,
};
use crate::status_text::{first_output_line, first_value};
use crate::text::{ascii_lowercase, borrow_option, lines_of, same_text, to_ascii_lower, trim};
use vstd::prelude::*;

verus! {

/// What a snapshot of a remote repository is to show. The reference has been
/// validated by the caller; the other names have not.
pub struct RemoteQuery<'a> {
    pub clone_url: &'a str,
    pub repo_path: &'a str,
    pub default_branch: Option<&'a str>,
    pub base_branch: Option<&'a str>,
    pub target_ref: Option<&'a str>,
    pub target_commit: Option<&'a str>,
}

/// The request to run git in no particular directory.
pub open spec fn git_anywhere(args: Seq<Seq<char>>) -> RequestModel {
    RequestModel::Git { args, in_repo: false }
}

impl<'a> RemoteQuery<'a> {
    pub open spec fn branch(self) -> Option<Seq<char>> {
        cleaned(self.default_branch.deep_view())
    }

    pub open spec fn base(self) -> Option<Seq<char>> {
        cleaned(self.base_branch.deep_view())
    }

    /// The commit that the snapshot must be of, if one is asked for.
    pub open spec fn commit(self) -> Option<Seq<char>> {
        match self.target_commit.deep_view() {
            Some(text) => commit_id(text),
            None => None,
        }
    }

    /// What is fetched, if a reference or a commit is asked for; the reference
    /// goes first.
    pub open spec fn target(self) -> Option<Seq<char>> {
        match self.target_ref.deep_view() {
            Some(reference) => Some(reference),
            None => self.commit(),
        }
    }

    /// The clone at the default branch.
    pub open spec fn clone_branch(self) -> RequestModel {
        git_anywhere(
            match self.branch() {
                Some(name) => seq![
                    "clone"@,
                    "--filter=blob:none"@,
                    "--branch"@,
                    name,
                    self.clone_url@,
                    self.repo_path@,
                ],
                None => seq!["clone"@, "--filter=blob:none"@, self.clone_url@, self.repo_path@],
            },
        )
    }

    /// The clone at the head of the remote.
    pub open spec fn clone_head(self) -> RequestModel {
        git_anywhere(seq!["clone"@, "--filter=blob:none"@, self.clone_url@, self.repo_path@])
    }

    /// The clone that checks nothing out.
    pub open spec fn clone_bare_tree(self) -> RequestModel {
        git_anywhere(
            seq![
                "clone"@,
                "--filter=blob:none"@,
                "--no-checkout"@,
                self.clone_url@,
                self.repo_path@,
            ],
        )
    }

    /// The commit that was fetched, in lower case.
    pub open spec fn fetched(self, replies: Seq<Reply>) -> Option<Seq<char>> {
        match text_at(replies, 2) {
            Some(output) => match first_value(output) {
                Some(line) => Some(ascii_lowercase(line)),
                None => None,
            },
            None => None,
        }
    }

    /// Whether what was fetched is what was asked for.
    pub open spec fn is_expected(self, replies: Seq<Reply>) -> bool {
        self.commit() is Some ==> self.fetched(replies) == self.commit()
    }

    /// The position of the checkout among the requests for a target.
    pub open spec fn checkout_at(self) -> int {
        if self.commit() is Some {
            3
        } else {
            2
        }
    }

    /// The requests that bring the clone about. For a target: clone, fetch,
    /// look at the commit if one is asked for, check out; the first that fails
    /// is the last. Otherwise: clone at the branch and, if that fails, at the
    /// head.
    pub open spec fn clone_script(self, replies: Seq<Reply>) -> Seq<RequestModel> {
        match self.target() {
            Some(target) => {
                let clone = seq![self.clone_bare_tree()];
                let fetch = clone.push(
                    git(seq!["fetch"@, "--depth=100"@, "origin"@, target]),
                );
                let look = if self.commit() is Some {
                    fetch.push(git(seq!["rev-parse"@, "FETCH_HEAD"@]))
                } else {
                    fetch
                };
                if text_at(replies, 0) is None {
                    clone
                } else if text_at(replies, 1) is None {
                    fetch
                } else if !self.is_expected(replies) {
                    look
                } else {
                    look.push(git(seq!["checkout"@, "--detach"@, "FETCH_HEAD"@]))
                }
            },
            None => if text_at(replies, 0) is None && self.branch() is Some {
                seq![self.clone_branch(), self.clone_head()]
            } else {
                seq![self.clone_branch()]
            },
        }
    }

    /// Why there is no snapshot, if there is none. A clone that fails without a
    /// branch to do without is no reason.
    pub open spec fn clone_failure(self, replies: Seq<Reply>) -> Option<Seq<char>> {
        match self.target() {
            Some(target) => if text_at(replies, 0) is None {
                Some(failure_at(replies, 0))
            } else if text_at(replies, 1) is None {
                Some(failure_at(replies, 1))
            } else if self.commit() is Some && self.fetched(replies) is None {
                Some("Could not resolve the requested repository ref."@)
            } else if !self.is_expected(replies) {
                Some("The requested repository ref changed. Refresh and try again."@)
            } else if text_at(replies, self.checkout_at()) is None {
                Some(failure_at(replies, self.checkout_at()))
            } else {
                None
            },
            None => if text_at(replies, 0) is None && self.branch() is Some && text_at(
                replies,
                1,
            ) is None {
                Some(failure_at(replies, 1))
            } else {
                None
            },
        }
    }

    /// The requests of the snapshot.
    pub open spec fn script(self, replies: Seq<Reply>) -> Seq<RequestModel> {
        let clone = self.clone_script(replies);
        if self.clone_failure(replies) is Some {
            clone
        } else {
            clone + clone_plan(self.branch(), self.base()).script(
                after(replies, clone.len() as int),
            )
        }
    }

    /// The snapshot, or why there is none.
    pub open spec fn value(self, replies: Seq<Reply>) -> Result<SnapshotModel, Seq<char>> {
        match self.clone_failure(replies) {
            Some(message) => Err(message),
            None => Ok(
                clone_plan(self.branch(), self.base()).value(
                    after(replies, self.clone_script(replies).len() as int),
                ),
            ),
        }
    }
}

/// The next step of bringing the clone about, the number of replies that it
/// took, or why it failed.
enum CloneStep {
    Ask(Request),
    Failed { message: String, used: usize },
    Ready { used: usize },
}

fn clone_for_target(
    query: &RemoteQuery,
    target: &str,
    commit: &Option<String>,
    replies: &[Reply],
) -> (r: CloneStep)
    requires
        query.target() == Some(target@),
        query.commit() == commit.deep_view(),
    ensures
        match r {
            CloneStep::Ask(request) => replies@.len() < query.clone_script(replies@).len()
                && request.deep_view() == query.clone_script(replies@)[replies@.len() as int],
            CloneStep::Failed { message, used } => query.clone_failure(replies@) == Some(message@)
                && used == query.clone_script(replies@).len() && used <= replies@.len(),
            CloneStep::Ready { used } => query.clone_failure(replies@) is None && used
                == query.clone_script(replies@).len() && used <= replies@.len(),
        },
{
    if replies.len() == 0 {
        let request = ask_git_anywhere(
            &["clone", "--filter=blob:none", "--no-checkout", query.clone_url, query.repo_path],
        );
        assert(request.deep_view()->Git_args =~= query.clone_bare_tree()->Git_args);
        return CloneStep::Ask(request);
    }
    if text_reply(replies, 0).is_none() {
        return CloneStep::Failed { message: failure_reply(replies, 0), used: 1 };
    }
    if replies.len() == 1 {
        let request = ask_git(&["fetch", "--depth=100", "origin", target]);
        assert(request.deep_view()->Git_args =~= seq![
            "fetch"@,
            "--depth=100"@,
            "origin"@,
            target@,
        ]);
        return CloneStep::Ask(request);
    }
    if text_reply(replies, 1).is_none() {
        return CloneStep::Failed { message: failure_reply(replies, 1), used: 2 };
    }
    let mut next: usize = 2;
    if let Some(expected) = commit {
        if replies.len() == 2 {
            let request = ask_git(&["rev-parse", "FETCH_HEAD"]);
            assert(request.deep_view()->Git_args =~= seq!["rev-parse"@, "FETCH_HEAD"@]);
            return CloneStep::Ask(request);
        }
        let line = match text_reply(replies, 2) {
            Some(output) => first_output_line(output),
            None => None,
        };
        match line {
            Some(line) => {
                let fetched = to_ascii_lower(line.as_str());
                if !same_text(fetched.as_str(), expected.as_str()) {
                    return CloneStep::Failed {
                        message:
                            "The requested repository ref changed. Refresh and try again.".to_string(),
                        used: 3,
                    };
                }
            },
            None => {
                return CloneStep::Failed {
                    message: "Could not resolve the requested repository ref.".to_string(),
                    used: 3,
                };
            },
        }
        next = 3;
    }
    if replies.len() == next {
        let request = ask_git(&["checkout", "--detach", "FETCH_HEAD"]);
        assert(request.deep_view()->Git_args =~= seq!["checkout"@, "--detach"@, "FETCH_HEAD"@]);
        return CloneStep::Ask(request);
    }
    if text_reply(replies, next).is_none() {
        return CloneStep::Failed { message: failure_reply(replies, next), used: next + 1 };
    }
    CloneStep::Ready { used: next + 1 }
}

fn clone_for_branch(query: &RemoteQuery, branch: &Option<String>, replies: &[Reply]) -> (r:
    CloneStep)
    requires
        query.target() is None,
        query.branch() == branch.deep_view(),
    ensures
        match r {
            CloneStep::Ask(request) => replies@.len() < query.clone_script(replies@).len()
                && request.deep_view() == query.clone_script(replies@)[replies@.len() as int],
            CloneStep::Failed { message, used } => query.clone_failure(replies@) == Some(message@)
                && used == query.clone_script(replies@).len() && used <= replies@.len(),
            CloneStep::Ready { used } => query.clone_failure(replies@) is None && used
                == query.clone_script(replies@).len() && used <= replies@.len(),
        },
{
    if replies.len() == 0 {
        let request = match branch {
            Some(name) => ask_git_anywhere(
                &[
                    "clone",
                    "--filter=blob:none",
                    "--branch",
                    name.as_str(),
                    query.clone_url,
                    query.repo_path,
                ],
            ),
            None => ask_git_anywhere(
                &["clone", "--filter=blob:none", query.clone_url, query.repo_path],
            ),
        };
        assert(request.deep_view()->Git_args =~= query.clone_branch()->Git_args);
        return CloneStep::Ask(request);
    }
    if text_reply(replies, 0).is_some() || branch.is_none() {
        return CloneStep::Ready { used: 1 };
    }
    if replies.len() == 1 {
        let request = ask_git_anywhere(
            &["clone", "--filter=blob:none", query.clone_url, query.repo_path],
        );
        assert(request.deep_view()->Git_args =~= query.clone_head()->Git_args);
        return CloneStep::Ask(request);
    }
    if text_reply(replies, 1).is_none() {
        return CloneStep::Failed { message: failure_reply(replies, 1), used: 2 };
    }
    CloneStep::Ready { used: 2 }
}

/// Takes a snapshot of a remote repository: clones it, at the reference or
/// commit that is asked for or at the default branch, and looks at the clone.
/// If a commit is asked for, nothing else is shown.
pub fn get_project_repo_snapshot(query: &RemoteQuery, replies: &[Reply]) -> (r: Progress<
    Result<ProjectRepoSnapshotInfo, String>,
>)
    ensures
        follows_result(r, query.script(replies@), replies@.len(), query.value(replies@)),
{
    let branch = clean_branch(query.default_branch);
    let base = clean_branch(query.base_branch);
    let commit = clean_target_commit(query.target_commit);
    let target: Option<&str> = match query.target_ref {
        Some(reference) => Some(reference),
        None => borrow_option(&commit),
    };
    let step = match target {
        Some(target) => clone_for_target(query, target, &commit, replies),
        None => clone_for_branch(query, &branch, replies),
    };
    match step {
        CloneStep::Ask(request) => Progress::Ask(request),
        CloneStep::Failed { message, used } => Progress::Done { value: Err(message), used },
        CloneStep::Ready { used: n } => match snapshot_from_repo(
            borrow_option(&branch),
            borrow_option(&base),
            rest(replies, n),
        ) {
            Progress::Ask(request) => Progress::Ask(request),
            Progress::Done { value, used } => Progress::Done { value: Ok(value), used: used + n },
        },
    }
}

// ---------------------------------------------------------------------------
// Laws

/// A snapshot of a remote repository is taken step by step: what is asked next
/// depends on the replies so far only, and at most eleven requests are made.
pub proof fn law_remote_snapshot_asks_step_by_step(
    query: RemoteQuery,
    replies: Seq<Reply>,
    n: nat,
)
    requires
        n <= replies.len(),
    ensures
        agree_until(query.script(replies.take(n as int)), query.script(replies), n),
        query.script(replies).len() <= 11,
{
    let so_far = replies.take(n as int);
    let clone = query.clone_script(replies);
    let early = query.clone_script(so_far);
    let p = clone_plan(query.branch(), query.base());
    law_snapshot_asks_step_by_step(p, after(replies, clone.len() as int), 0);
    if n > 0 {
        lemma_text_at_take(replies, n as int, 0);
    }
    if n > 1 {
        lemma_text_at_take(replies, n as int, 1);
    }
    if n > 2 {
        lemma_text_at_take(replies, n as int, 2);
    }
    if n > 3 {
        lemma_text_at_take(replies, n as int, 3);
    }
    if n >= clone.len() {
        assert(early == clone);
        assert(query.clone_failure(so_far) == query.clone_failure(replies));
        if query.clone_failure(replies) is None {
            let later = after(replies, clone.len() as int);
            let m = (n - clone.len()) as nat;
            lemma_after_take(replies, n as int, clone.len() as int);
            law_snapshot_asks_step_by_step(p, later, m);
            lemma_join_step_by_step(clone, p.script(later.take(m as int)), p.script(later), n);
        }
    } else {
        assert(early.len() > n);
        assert(first_n(early, n + 1) =~= first_n(clone, n + 1));
        assert(first_n(query.script(so_far), n + 1) =~= first_n(early, n + 1));
        assert(first_n(query.script(replies), n + 1) =~= first_n(clone, n + 1));
    }
}

/// If a commit is asked for, a snapshot is shown only if what was fetched is
/// that commit; otherwise the request is refused.
pub proof fn law_only_the_requested_commit_is_shown(query: RemoteQuery, replies: Seq<Reply>)
    requires
        query.commit() is Some,
    ensures
        query.value(replies) is Ok ==> query.fetched(replies) == query.commit(),
        text_at(replies, 0) is Some && text_at(replies, 1) is Some && query.fetched(replies)
            != query.commit() ==> query.value(replies) is Err,
{
}

/// If no reference or commit is asked for, the clone at the default branch that
/// fails is tried once more without the branch, and only the failure of that
/// second clone is reported.
pub proof fn law_missing_default_branch_falls_back(query: RemoteQuery, replies: Seq<Reply>)
    requires
        query.target() is None,
        replies.len() > 0,
    ensures
        query.branch() is Some && text_at(replies, 0) is None ==> query.script(replies)[1]
            == query.clone_head(),
        query.value(replies) is Err <==> query.branch() is Some && text_at(replies, 0) is None
            && text_at(replies, 1) is None,
{
}

/// The branch that is handed to `git clone` cannot be taken for an option.
pub proof fn law_cloned_branch_is_safe(query: RemoteQuery)
    ensures
        query.branch() matches Some(name) ==> is_safe_branch(name),
        query.base() matches Some(name) ==> is_safe_branch(name),
{
}

/// A text of 40 or 64 hexadecimal digits.
pub open spec fn is_full_hash(text: Seq<char>) -> bool {
    &&& text.len() == 40 || text.len() == 64
    &&& forall|i: int|
        0 <= i < text.len() ==> ('0' <= #[trigger] text[i] <= '9' || 'a' <= text[i] <= 'f' || 'A'
            <= text[i] <= 'F')
}

/// The first line of a reply without outer white space, in lower case.
pub open spec fn lower_first_line(output: Seq<char>) -> Option<Seq<char>> {
    if lines_of(output).len() > 0 && trim(lines_of(output)[0]).len() > 0 {
        Some(ascii_lowercase(trim(lines_of(output)[0])))
    } else {
        None
    }
}

/// The clone that checks nothing out, spelled out.
pub open spec fn clones_without_checkout(request: RequestModel, query: RemoteQuery) -> bool {
    request == RequestModel::Git {
        args: seq![
            "clone"@,
            "--filter=blob:none"@,
            "--no-checkout"@,
            query.clone_url@,
            query.repo_path@,
        ],
        in_repo: false,
    }
}

/// The plan of the snapshot of the clone, spelled out.
pub open spec fn plan_of_clone(query: RemoteQuery) -> Plan {
    Plan {
        source: Source::FreshClone,
        target: "HEAD"@,
        branch: cleaned(query.default_branch.deep_view()),
        base: cleaned(query.base_branch.deep_view()),
    }
}

/// A commit that is asked for by its full hash is fetched, under the reference that
/// is asked for or by itself, and compared with what came, whatever the branch
/// and the base are. A snapshot is shown exactly if every step succeeds and the
/// first line that git gives for what it fetched is that hash, but for the case
/// of letters; and it is a snapshot of the clone as it is then checked out.
pub proof fn law_requested_commit_is_fetched_and_compared(query: RemoteQuery, replies: Seq<Reply>)
    requires
        query.target_commit is Some,
        is_full_hash(query.target_commit->0@),
        replies.len() > 0,
    ensures
        ({
            let commit = ascii_lowercase(query.target_commit->0@);
            let target = match query.target_ref {
                Some(reference) => reference@,
                None => commit,
            };
            let s = query.script(replies);
            let cloned = text_at(replies, 0) is Some;
            let fetched = cloned && text_at(replies, 1) is Some;
            let line = match text_at(replies, 2) {
                Some(output) => lower_first_line(output),
                None => None,
            };
            &&& s.len() > 0 && clones_without_checkout(s[0], query)
            &&& cloned ==> s.len() > 1 && s[1] == git(
                seq!["fetch"@, "--depth=100"@, "origin"@, target],
            )
            &&& fetched ==> s.len() > 2 && s[2] == git(seq!["rev-parse"@, "FETCH_HEAD"@])
            &&& fetched && line == Some(commit) ==> s.len() > 3 && s[3] == git(
                seq!["checkout"@, "--detach"@, "FETCH_HEAD"@],
            )
            &&& query.value(replies) is Ok <==> fetched && line == Some(commit) && text_at(
                replies,
                3,
            ) is Some
            &&& query.value(replies) matches Ok(snapshot) ==> {
                &&& snapshot == plan_of_clone(query).value(replies.skip(4))
                &&& s.skip(4) == plan_of_clone(query).script(replies.skip(4))
            }
            &&& !cloned ==> s.len() == 1 && query.value(replies) == Err::<
                SnapshotModel,
                Seq<char>,
            >(failure_at(replies, 0))
            &&& cloned && !fetched ==> s.len() == 2 && query.value(replies) == Err::<
                SnapshotModel,
                Seq<char>,
            >(failure_at(replies, 1))
            &&& fetched && line is None ==> s.len() == 3 && query.value(replies) == Err::<
                SnapshotModel,
                Seq<char>,
            >("Could not resolve the requested repository ref."@)
            &&& fetched && line is Some && line != Some(commit) ==> s.len() == 3 && query.value(
                replies,
            ) == Err::<SnapshotModel, Seq<char>>(
                "The requested repository ref changed. Refresh and try again."@,
            )
            &&& fetched && line == Some(commit) && text_at(replies, 3) is None ==> s.len() == 4
                && query.value(replies) == Err::<SnapshotModel, Seq<char>>(failure_at(replies, 3))
        }),
{
    let text = query.target_commit->0@;
    law_full_hashes_are_commit_ids(text, 0);
    let commit = ascii_lowercase(text);
    assert(query.commit() == Some(commit));
    if text_at(replies, 0) is Some {
        let target = match query.target_ref {
            Some(reference) => reference@,
            None => commit,
        };
        assert(query.target() == Some(target));
        assert(query.script(replies)[1]->Git_args =~= seq![
            "fetch"@,
            "--depth=100"@,
            "origin"@,
            target,
        ]);
    }
    if query.value(replies) is Ok {
        assert(query.clone_script(replies).len() == 4);
        assert(query.script(replies).skip(4) =~= plan_of_clone(query).script(replies.skip(4)));
    }
}

/// A reference that is asked for without a commit is fetched and checked out, and the
/// snapshot is of the clone as it is then; it is shown exactly if every step
/// succeeds. A text that is no full hash is no commit.
pub proof fn law_requested_reference_is_fetched(query: RemoteQuery, replies: Seq<Reply>)
    requires
        query.target_ref is Some,
        query.target_commit matches Some(text) ==> !is_full_hash(text@),
        replies.len() > 0,
    ensures
        ({
            let s = query.script(replies);
            let cloned = text_at(replies, 0) is Some;
            let fetched = cloned && text_at(replies, 1) is Some;
            &&& s.len() > 0 && clones_without_checkout(s[0], query)
            &&& cloned ==> s.len() > 1 && s[1] == git(
                seq!["fetch"@, "--depth=100"@, "origin"@, query.target_ref->0@],
            )
            &&& fetched ==> s.len() > 2 && s[2] == git(seq!["checkout"@, "--detach"@, "FETCH_HEAD"@])
            &&& query.value(replies) is Ok <==> fetched && text_at(replies, 2) is Some
            &&& query.value(replies) matches Ok(snapshot) ==> {
                &&& snapshot == plan_of_clone(query).value(replies.skip(3))
                &&& s.skip(3) == plan_of_clone(query).script(replies.skip(3))
            }
            &&& !cloned ==> s.len() == 1 && query.value(replies) == Err::<
                SnapshotModel,
                Seq<char>,
            >(failure_at(replies, 0))
            &&& cloned && !fetched ==> s.len() == 2 && query.value(replies) == Err::<
                SnapshotModel,
                Seq<char>,
            >(failure_at(replies, 1))
            &&& fetched && text_at(replies, 2) is None ==> s.len() == 3 && query.value(replies)
                == Err::<SnapshotModel, Seq<char>>(failure_at(replies, 2))
        }),
{
    lemma_no_commit(query);
    if query.value(replies) is Ok {
        assert(query.clone_script(replies).len() == 3);
        assert(query.script(replies).skip(3) =~= plan_of_clone(query).script(replies.skip(3)));
    }
}

proof fn lemma_no_commit(query: RemoteQuery)
    requires
        query.target_commit matches Some(text) ==> !is_full_hash(text@),
    ensures
        query.commit() is None,
{
    if let Some(text) = query.target_commit {
        if text@.len() == 40 || text@.len() == 64 {
            let i = choose|i: int|
                0 <= i < text@.len() && !('0' <= #[trigger] text@[i] <= '9' || 'a' <= text@[i]
                    <= 'f' || 'A' <= text@[i] <= 'F');
            law_full_hashes_are_commit_ids(text@, i);
        } else {
            law_full_hashes_are_commit_ids(text@, 0);
        }
    }
}

/// Without a reference or a commit the repository is cloned at the default branch, if
/// its name is valid, and if that fails once more without it; without a branch
/// it is cloned once. The snapshot is of the clone, and is refused only if both
/// clones fail.
pub proof fn law_default_branch_is_cloned(query: RemoteQuery, replies: Seq<Reply>)
    requires
        query.target_ref is None,
        query.target_commit matches Some(text) ==> !is_full_hash(text@),
        replies.len() > 0,
    ensures
        ({
            let s = query.script(replies);
            let branch = cleaned(query.default_branch.deep_view());
            let plain = RequestModel::Git {
                args: seq!["clone"@, "--filter=blob:none"@, query.clone_url@, query.repo_path@],
                in_repo: false,
            };
            let again = branch is Some && text_at(replies, 0) is None;
            let n: int = if again {
                2
            } else {
                1
            };
            &&& s.len() > 0
            &&& branch matches Some(name) ==> s[0] == (RequestModel::Git {
                args: seq![
                    "clone"@,
                    "--filter=blob:none"@,
                    "--branch"@,
                    name,
                    query.clone_url@,
                    query.repo_path@,
                ],
                in_repo: false,
            })
            &&& branch is None ==> s[0] == plain
            &&& again ==> s.len() > 1 && s[1] == plain
            &&& again && text_at(replies, 1) is None ==> s.len() == 2 && query.value(replies)
                == Err::<SnapshotModel, Seq<char>>(failure_at(replies, 1))
            &&& !(again && text_at(replies, 1) is None) ==> {
                &&& query.value(replies) == Ok::<SnapshotModel, Seq<char>>(
                    plan_of_clone(query).value(replies.skip(n)),
                )
                &&& s.skip(n) == plan_of_clone(query).script(replies.skip(n))
            }
        }),
{
    lemma_no_commit(query);
    let n = query.clone_script(replies).len() as int;
    if query.clone_failure(replies) is None {
        assert(query.script(replies).skip(n) =~= plan_of_clone(query).script(replies.skip(n)));
    }
}

} // verus!
