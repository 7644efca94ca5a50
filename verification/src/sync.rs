//! How a local checkout stands against its remote, and pulling into it.
use crate::branch::{
    cleaned, is_branch_char, is_safe_branch, normalize_branch_option, short_form, short_hash,
};
use crate::exchange::{
    agree_until, ask_git, failure_at, failure_reply, follows, follows_result, git,
    lemma_text_at_take, text_at, text_reply, Progress, Reply, Request, RequestModel,
};
use crate::history::lemma_filter_map_front;
use crate::local::show_current;
use crate::model::{
    first_n, ProjectRepoPullResult, ProjectRepoSyncStatusInfo, PullModel, SyncStatusModel,
};
use crate::status_text::{
    any_change, any_untracked, count_of, first_output_line, first_value, has_uncommitted_changes,
    has_untracked_files, parse_count,
};
use crate::text::{
    blank, borrow_option, is_blank, join2, join3, law_lines_end_at_newlines, lines_in, lines_of,
    same_text, to_chars, to_text, views,
};
use vstd::prelude::*;

verus! {

// ---------------------------------------------------------------------------
// What stands in the way of a push or a pull

/// What decides whether a push or a pull may go ahead.
pub struct Standing {
    pub has_local_head: bool,
    pub has_remote_head: bool,
    pub on_branch: bool,
    pub first_publish: bool,
    pub uncommitted: bool,
    pub untracked: bool,
    pub ahead: usize,
    pub behind: usize,
}

pub open spec fn other_branch(branch: Seq<char>) -> Seq<char> {
    "Local checkout is on a different branch than "@ + branch + "."@
}

/// Why the checkout cannot be pushed to `branch`, if it cannot.
pub open spec fn push_block(s: Standing, branch: Seq<char>) -> Option<Seq<char>> {
    if !s.has_local_head {
        Some("No local commits to push."@)
    } else if !s.on_branch && !s.first_publish {
        Some(other_branch(branch))
    } else if s.uncommitted || s.untracked {
        Some("Commit or discard local changes before pushing."@)
    } else if s.behind > 0 {
        Some("Pull or reconcile remote commits before pushing."@)
    } else if s.ahead == 0 {
        Some("Local branch is already pushed."@)
    } else {
        None
    }
}

/// Why `branch` cannot be pulled into the checkout, if it cannot. Pulling is a
/// fast-forward only merge, so it is blocked whenever that would not apply
/// cleanly.
pub open spec fn pull_block(s: Standing, branch: Seq<char>) -> Option<Seq<char>> {
    if !s.has_local_head {
        Some("No local commits yet — clone instead of pulling."@)
    } else if !s.has_remote_head {
        Some("Remote branch not found."@)
    } else if s.behind == 0 {
        Some("Local branch is up to date."@)
    } else if !s.on_branch {
        Some(other_branch(branch))
    } else if s.uncommitted {
        Some("Commit or stash local changes before pulling."@)
    } else if s.ahead > 0 {
        Some("Local and remote have diverged — reconcile in a terminal."@)
    } else {
        None
    }
}

/// Why the checkout cannot be pushed to `branch`, if it cannot.
pub fn push_block_reason(s: &Standing, branch: &str) -> (r: Option<String>)
    ensures
        r.deep_view() == push_block(*s, branch@),
{
    if !s.has_local_head {
        Some("No local commits to push.".to_string())
    } else if !s.on_branch && !s.first_publish {
        Some(join3("Local checkout is on a different branch than ", branch, "."))
    } else if s.uncommitted || s.untracked {
        Some("Commit or discard local changes before pushing.".to_string())
    } else if s.behind > 0 {
        Some("Pull or reconcile remote commits before pushing.".to_string())
    } else if s.ahead == 0 {
        Some("Local branch is already pushed.".to_string())
    } else {
        None
    }
}

/// Why `branch` cannot be pulled into the checkout, if it cannot.
pub fn pull_block_reason(s: &Standing, branch: &str) -> (r: Option<String>)
    ensures
        r.deep_view() == pull_block(*s, branch@),
{
    if !s.has_local_head {
        Some("No local commits yet — clone instead of pulling.".to_string())
    } else if !s.has_remote_head {
        Some("Remote branch not found.".to_string())
    } else if s.behind == 0 {
        Some("Local branch is up to date.".to_string())
    } else if !s.on_branch {
        Some(join3("Local checkout is on a different branch than ", branch, "."))
    } else if s.uncommitted {
        Some("Commit or stash local changes before pulling.".to_string())
    } else if s.ahead > 0 {
        Some("Local and remote have diverged — reconcile in a terminal.".to_string())
    } else {
        None
    }
}

// ---------------------------------------------------------------------------
// Comparing a checkout with its remote

/// A checkout to be compared: its path, the URL of the project's repository,
/// and the branch and base branch that were asked for.
pub struct SyncQuery<'a> {
    pub repo_path: &'a str,
    pub clone_url: &'a str,
    pub branch_name: Option<&'a str>,
    pub base_branch: Option<&'a str>,
}

/// The value on the first line of the `i`-th reply.
pub open spec fn value_at(replies: Seq<Reply>, i: int) -> Option<Seq<char>> {
    match text_at(replies, i) {
        Some(output) => first_value(output),
        None => None,
    }
}

/// The number in the `i`-th reply, or 0.
pub open spec fn count_at(replies: Seq<Reply>, i: int) -> nat {
    match text_at(replies, i) {
        Some(output) => count_of(output),
        None => 0,
    }
}

pub open spec fn short_option(hash: Option<Seq<char>>) -> Option<Seq<char>> {
    match hash {
        Some(h) => Some(short_form(h)),
        None => None,
    }
}

/// The branch names among the lines of `output`.
pub open spec fn branches_of(output: Seq<char>) -> Seq<Seq<char>> {
    lines_of(output).filter_map(|line: Seq<char>| cleaned(Some(line)))
}

pub open spec fn list_branches() -> RequestModel {
    git(seq!["for-each-ref"@, "--count=200"@, "--format=%(refname:short)"@, "refs/heads/"@])
}

pub open spec fn get_origin() -> RequestModel {
    git(seq!["remote"@, "get-url"@, "origin"@])
}

pub open spec fn set_origin(url: Seq<char>) -> RequestModel {
    git(seq!["remote"@, "set-url"@, "origin"@, url])
}

pub open spec fn fetch_branches(branch: Seq<char>, base: Option<Seq<char>>) -> RequestModel {
    git(
        match base {
            Some(name) => seq![
                "fetch"@,
                "--quiet"@,
                "--depth=100"@,
                "--end-of-options"@,
                "origin"@,
                branch,
                name,
            ],
            None => seq![
                "fetch"@,
                "--quiet"@,
                "--depth=100"@,
                "--end-of-options"@,
                "origin"@,
                branch,
            ],
        },
    )
}

pub open spec fn local_head_request() -> RequestModel {
    git(seq!["rev-parse"@, "HEAD"@])
}

pub open spec fn remote_head_request(branch: Seq<char>) -> RequestModel {
    git(seq!["rev-parse"@, "--verify"@, "--quiet"@, "refs/remotes/origin/"@ + branch])
}

pub open spec fn list_remote_heads() -> RequestModel {
    git(seq!["ls-remote"@, "--heads"@, "--end-of-options"@, "origin"@])
}

pub open spec fn merge_base_request(base: Seq<char>) -> RequestModel {
    git(seq!["merge-base"@, "HEAD"@, "origin/"@ + base])
}

pub open spec fn status_request() -> RequestModel {
    git(seq!["status"@, "--porcelain"@])
}

pub open spec fn ahead_request(branch: Seq<char>) -> RequestModel {
    git(seq!["rev-list"@, "--count"@, "origin/"@ + branch + "..HEAD"@])
}

pub open spec fn behind_request(branch: Seq<char>) -> RequestModel {
    git(seq!["rev-list"@, "--count"@, "HEAD..origin/"@ + branch])
}

impl<'a> SyncQuery<'a> {
    /// The branch that is checked out.
    pub open spec fn local_branch(self, replies: Seq<Reply>) -> Option<Seq<char>> {
        value_at(replies, 0)
    }

    /// The local branches whose names are safe.
    pub open spec fn local_branches(self, replies: Seq<Reply>) -> Seq<Seq<char>> {
        match text_at(replies, 1) {
            Some(output) => branches_of(output),
            None => seq![],
        }
    }

    /// The branch that is compared: the one asked for, else the one checked
    /// out, else `main`. A name that is not safe counts as missing.
    pub open spec fn branch(self, replies: Seq<Reply>) -> Seq<char> {
        match cleaned(self.branch_name.deep_view()) {
            Some(name) => name,
            None => match cleaned(self.local_branch(replies)) {
                Some(name) => name,
                None => "main"@,
            },
        }
    }

    /// The base branch, if it is another one.
    pub open spec fn base(self, replies: Seq<Reply>) -> Option<Seq<char>> {
        match cleaned(self.base_branch.deep_view()) {
            Some(name) => if name == self.branch(replies) {
                None
            } else {
                Some(name)
            },
            None => None,
        }
    }

    /// Whether the origin of the checkout is not the project's URL.
    pub open spec fn repoints(self, replies: Seq<Reply>) -> bool {
        value_at(replies, 2) != Some(self.clone_url@)
    }

    /// The position of the fetch.
    pub open spec fn fetch_at(self, replies: Seq<Reply>) -> int {
        if self.repoints(replies) {
            4
        } else {
            3
        }
    }

    pub open spec fn local_head(self, replies: Seq<Reply>) -> Option<Seq<char>> {
        value_at(replies, self.fetch_at(replies) + 1)
    }

    pub open spec fn remote_head(self, replies: Seq<Reply>) -> Option<Seq<char>> {
        value_at(replies, self.fetch_at(replies) + 2)
    }

    /// Whether the remote has any branch; a question that fails counts as yes.
    pub open spec fn remote_has_branches(self, replies: Seq<Reply>) -> bool {
        match text_at(replies, self.fetch_at(replies) + 3) {
            Some(output) => !is_blank(output),
            None => true,
        }
    }

    pub open spec fn merge_base(self, replies: Seq<Reply>) -> Option<Seq<char>> {
        if self.base(replies) is Some {
            value_at(replies, self.fetch_at(replies) + 4)
        } else {
            None
        }
    }

    /// The position of the status.
    pub open spec fn status_at(self, replies: Seq<Reply>) -> int {
        self.fetch_at(replies) + if self.base(replies) is Some {
            5int
        } else {
            4int
        }
    }

    /// The porcelain status; empty if the question failed.
    pub open spec fn status(self, replies: Seq<Reply>) -> Seq<char> {
        match text_at(replies, self.status_at(replies)) {
            Some(output) => output,
            None => seq![],
        }
    }

    /// The number of commits that the remote does not have. Without a remote
    /// branch the head counts as one.
    pub open spec fn ahead(self, replies: Seq<Reply>) -> nat {
        if self.remote_head(replies) is Some {
            count_at(replies, self.status_at(replies) + 1)
        } else if self.local_head(replies) is Some {
            1
        } else {
            0
        }
    }

    /// The number of commits of the remote that the checkout does not have.
    pub open spec fn behind(self, replies: Seq<Reply>) -> nat {
        if self.remote_head(replies) is Some {
            count_at(replies, self.status_at(replies) + 2)
        } else {
            0
        }
    }

    /// What decides on pushing and pulling. A push to another branch than the
    /// one checked out is a first publish if the remote has no branch at all.
    pub open spec fn standing(self, replies: Seq<Reply>) -> Standing {
        Standing {
            has_local_head: self.local_head(replies) is Some,
            has_remote_head: self.remote_head(replies) is Some,
            on_branch: self.local_branch(replies) == Some(self.branch(replies)),
            first_publish: self.remote_head(replies) is None && !self.remote_has_branches(replies),
            uncommitted: any_change(self.status(replies)),
            untracked: any_untracked(self.status(replies)),
            ahead: self.ahead(replies) as usize,
            behind: self.behind(replies) as usize,
        }
    }

    /// The requests of the comparison, in order. The origin is changed only if
    /// it is not the project's URL.
    pub open spec fn script(self, replies: Seq<Reply>) -> Seq<RequestModel> {
        let branch = self.branch(replies);
        seq![show_current(), list_branches(), get_origin()] + (if self.repoints(replies) {
            seq![set_origin(self.clone_url@)]
        } else {
            seq![]
        }) + seq![
            fetch_branches(branch, self.base(replies)),
            local_head_request(),
            remote_head_request(branch),
            list_remote_heads(),
        ] + (match self.base(replies) {
            Some(name) => seq![merge_base_request(name)],
            None => seq![],
        }) + seq![status_request()] + (if self.remote_head(replies) is Some {
            seq![ahead_request(branch), behind_request(branch)]
        } else {
            seq![]
        })
    }

    /// The comparison.
    pub open spec fn value(self, replies: Seq<Reply>) -> SyncStatusModel {
        let branch = self.branch(replies);
        let standing = self.standing(replies);
        SyncStatusModel {
            local_path: Some(self.repo_path@),
            local_branch: self.local_branch(replies),
            local_branches: self.local_branches(replies),
            local_head: self.local_head(replies),
            local_short_head: short_option(self.local_head(replies)),
            remote_branch: Some(branch),
            remote_head: self.remote_head(replies),
            remote_short_head: short_option(self.remote_head(replies)),
            merge_base: self.merge_base(replies),
            ahead_count: self.ahead(replies),
            behind_count: self.behind(replies),
            has_uncommitted_changes: standing.uncommitted,
            has_untracked_files: standing.untracked,
            can_push: push_block(standing, branch) is None,
            push_block_reason: push_block(standing, branch),
            can_pull: pull_block(standing, branch) is None,
            pull_block_reason: pull_block(standing, branch),
        }
    }
}

fn value_reply(replies: &[Reply], i: usize) -> (r: Option<String>)
    ensures
        r.deep_view() == value_at(replies@, i as int),
{
    match text_reply(replies, i) {
        Some(output) => first_output_line(output),
        None => None,
    }
}

fn count_reply(replies: &[Reply], i: usize) -> (r: usize)
    ensures
        r == count_at(replies@, i as int),
{
    match text_reply(replies, i) {
        Some(output) => parse_count(output),
        None => 0,
    }
}

fn shorten(hash: &Option<String>) -> (r: Option<String>)
    ensures
        r.deep_view() == short_option(hash.deep_view()),
{
    match hash {
        Some(h) => Some(short_hash(h.as_str())),
        None => None,
    }
}

/// Reads the branch names in `output`; names that are not safe are passed over.
pub fn parse_branches(output: &str) -> (r: Vec<String>)
    ensures
        r.deep_view() == branches_of(output@),
{
    let cs = to_chars(output);
    let lines = lines_in(cs.as_slice());
    let ghost all = lines_of(output@);
    let ghost f = |line: Seq<char>| cleaned(Some(line));
    let mut out: Vec<String> = Vec::new();
    let mut i: usize = 0;
    assert(all.take(0).filter_map(f) == Seq::<Seq<char>>::empty());
    while i < lines.len()
        invariant
            i <= lines.len(),
            views(lines@) == all,
            f == (|line: Seq<char>| cleaned(Some(line))),
            out.deep_view() == all.take(i as int).filter_map(f),
        decreases lines.len() - i,
    {
        proof {
            assert(lines@[i as int]@ == views(lines@)[i as int]);
            all.lemma_filter_map_take_succ(f, i as int);
        }
        let ghost before = out.deep_view();
        let line = to_text(lines[i]);
        if let Some(name) = normalize_branch_option(Some(line.as_str())) {
            out.push(name);
            assert(out.deep_view() == before.push(name@));
        }
        i += 1;
    }
    assert(all.take(all.len() as int) == all);
    out
}

fn ask_fetch(branch: &str, base: &Option<String>) -> (r: Request)
    ensures
        r.deep_view() == fetch_branches(branch@, base.deep_view()),
{
    let r = match base {
        Some(name) => ask_git(
            &[
                "fetch",
                "--quiet",
                "--depth=100",
                "--end-of-options",
                "origin",
                branch,
                name.as_str(),
            ],
        ),
        None => ask_git(
            &["fetch", "--quiet", "--depth=100", "--end-of-options", "origin", branch],
        ),
    };
    assert(r.deep_view()->Git_args =~= fetch_branches(branch@, base.deep_view())->Git_args);
    r
}

/// The branch that is compared.
fn choose_branch(asked: Option<&str>, local: &Option<String>) -> (r: String)
    ensures
        r@ == (match cleaned(asked.deep_view()) {
            Some(name) => name,
            None => match cleaned(local.deep_view()) {
                Some(name) => name,
                None => "main"@,
            },
        }),
{
    match normalize_branch_option(asked) {
        Some(name) => name,
        None => match normalize_branch_option(borrow_option(local)) {
            Some(name) => name,
            None => "main".to_string(),
        },
    }
}

/// The base branch, if it is not `branch` itself.
fn choose_base(asked: Option<&str>, branch: &str) -> (r: Option<String>)
    ensures
        r.deep_view() == (match cleaned(asked.deep_view()) {
            Some(name) => if name == branch@ {
                None
            } else {
                Some(name)
            },
            None => None,
        }),
{
    match normalize_branch_option(asked) {
        Some(name) => if same_text(name.as_str(), branch) {
            None
        } else {
            Some(name)
        },
        None => None,
    }
}

fn equals_option(value: &Option<String>, text: &str) -> (r: bool)
    ensures
        r == (value.deep_view() == Some(text@)),
{
    match value {
        Some(v) => same_text(v.as_str(), text),
        None => false,
    }
}

fn not_blank(output: &str) -> (r: bool)
    ensures
        r == !is_blank(output@),
{
    let cs = to_chars(output);
    !blank(cs.as_slice())
}

impl<'a> SyncQuery<'a> {
    /// Where each request stands in the script.
    proof fn lemma_script(self, replies: Seq<Reply>)
        ensures
            ({
                let s = self.script(replies);
                let f = self.fetch_at(replies);
                let t = self.status_at(replies);
                let branch = self.branch(replies);
                &&& s.len() == t + if self.remote_head(replies) is Some {
                    3int
                } else {
                    1int
                }
                &&& s[0] == show_current()
                &&& s[1] == list_branches()
                &&& s[2] == get_origin()
                &&& self.repoints(replies) ==> s[3] == set_origin(self.clone_url@)
                &&& s[f] == fetch_branches(branch, self.base(replies))
                &&& s[f + 1] == local_head_request()
                &&& s[f + 2] == remote_head_request(branch)
                &&& s[f + 3] == list_remote_heads()
                &&& self.base(replies) matches Some(name) ==> s[f + 4] == merge_base_request(name)
                &&& s[t] == status_request()
                &&& self.remote_head(replies) is Some ==> s[t + 1] == ahead_request(branch)
                    && s[t + 2] == behind_request(branch)
            }),
    {
    }
}

/// The next request of the comparison, if one is left; and the number of
/// replies that it takes in all.
#[verifier::spinoff_prover]
fn next_sync_request(query: &SyncQuery, replies: &[Reply]) -> (r: (Option<Request>, usize))
    ensures
        match r.0 {
            Some(request) => replies@.len() < query.script(replies@).len() && request.deep_view()
                == query.script(replies@)[replies@.len() as int],
            None => query.script(replies@).len() <= replies@.len() && r.1 == query.script(
                replies@,
            ).len(),
        },
{
    proof {
        query.lemma_script(replies@);
    }
    if replies.len() == 0 {
        let request = ask_git(&["branch", "--show-current"]);
        assert(request.deep_view()->Git_args =~= show_current()->Git_args);
        return (Some(request), 0);
    }
    if replies.len() == 1 {
        let request = ask_git(
            &["for-each-ref", "--count=200", "--format=%(refname:short)", "refs/heads/"],
        );
        assert(request.deep_view()->Git_args =~= list_branches()->Git_args);
        return (Some(request), 0);
    }
    if replies.len() == 2 {
        let request = ask_git(&["remote", "get-url", "origin"]);
        assert(request.deep_view()->Git_args =~= get_origin()->Git_args);
        return (Some(request), 0);
    }
    let origin = value_reply(replies, 2);
    let repoints = !equals_option(&origin, query.clone_url);
    if repoints && replies.len() == 3 {
        let request = ask_git(&["remote", "set-url", "origin", query.clone_url]);
        assert(request.deep_view()->Git_args =~= set_origin(query.clone_url@)->Git_args);
        return (Some(request), 0);
    }
    let local_branch = value_reply(replies, 0);
    let branch = choose_branch(query.branch_name, &local_branch);
    let base = choose_base(query.base_branch, branch.as_str());
    let fetch_at: usize = if repoints {
        4
    } else {
        3
    };
    if replies.len() == fetch_at {
        return (Some(ask_fetch(branch.as_str(), &base)), 0);
    }
    if replies.len() == fetch_at + 1 {
        let request = ask_git(&["rev-parse", "HEAD"]);
        assert(request.deep_view()->Git_args =~= local_head_request()->Git_args);
        return (Some(request), 0);
    }
    if replies.len() == fetch_at + 2 {
        let name = join2("refs/remotes/origin/", branch.as_str());
        let request = ask_git(&["rev-parse", "--verify", "--quiet", name.as_str()]);
        assert(request.deep_view()->Git_args =~= remote_head_request(branch@)->Git_args);
        return (Some(request), 0);
    }
    if replies.len() == fetch_at + 3 {
        let request = ask_git(&["ls-remote", "--heads", "--end-of-options", "origin"]);
        assert(request.deep_view()->Git_args =~= list_remote_heads()->Git_args);
        return (Some(request), 0);
    }
    let mut status_at: usize = fetch_at + 4;
    if let Some(name) = &base {
        if replies.len() == fetch_at + 4 {
            let with = join2("origin/", name.as_str());
            let request = ask_git(&["merge-base", "HEAD", with.as_str()]);
            assert(request.deep_view()->Git_args =~= merge_base_request(name@)->Git_args);
            return (Some(request), 0);
        }
        status_at = fetch_at + 5;
    }
    if replies.len() == status_at {
        let request = ask_git(&["status", "--porcelain"]);
        assert(request.deep_view()->Git_args =~= status_request()->Git_args);
        return (Some(request), 0);
    }
    if value_reply(replies, fetch_at + 2).is_none() {
        return (None, status_at + 1);
    }
    if replies.len() == status_at + 1 {
        let range = join3("origin/", branch.as_str(), "..HEAD");
        let request = ask_git(&["rev-list", "--count", range.as_str()]);
        assert(request.deep_view()->Git_args =~= ahead_request(branch@)->Git_args);
        return (Some(request), 0);
    }
    if replies.len() == status_at + 2 {
        let range = join2("HEAD..origin/", branch.as_str());
        let request = ask_git(&["rev-list", "--count", range.as_str()]);
        assert(request.deep_view()->Git_args =~= behind_request(branch@)->Git_args);
        return (Some(request), 0);
    }
    (None, status_at + 3)
}

/// The comparison that the replies give.
#[verifier::spinoff_prover]
fn sync_status(query: &SyncQuery, replies: &[Reply]) -> (r: ProjectRepoSyncStatusInfo)
    requires
        query.script(replies@).len() <= replies@.len(),
    ensures
        r.deep_view() == query.value(replies@),
{
    proof {
        query.lemma_script(replies@);
    }
    let local_branch = value_reply(replies, 0);
    let branch = choose_branch(query.branch_name, &local_branch);
    let origin = value_reply(replies, 2);
    let fetch_at: usize = if equals_option(&origin, query.clone_url) {
        3
    } else {
        4
    };
    let base = choose_base(query.base_branch, branch.as_str());
    let has_base = base.is_some();
    let status_at: usize = if has_base {
        fetch_at + 5
    } else {
        fetch_at + 4
    };
    let local_head = value_reply(replies, fetch_at + 1);
    let remote_head = value_reply(replies, fetch_at + 2);
    let has_local_head = local_head.is_some();
    let has_remote_head = remote_head.is_some();
    let ahead_count: usize = if has_remote_head {
        count_reply(replies, status_at + 1)
    } else if has_local_head {
        1
    } else {
        0
    };
    let behind_count: usize = if has_remote_head {
        count_reply(replies, status_at + 2)
    } else {
        0
    };
    let local_branches = match text_reply(replies, 1) {
        Some(output) => parse_branches(output),
        None => {
            let none: Vec<String> = Vec::new();
            none
        },
    };
    assert(local_branches.deep_view() =~= query.local_branches(replies@));
    // A legacy empty clone may be on an unborn `master` while the project
    // declares `main`. That is let pass only if the remote has no branch at
    // all; a lookup that failed does not show that.
    let remote_has_branches = match text_reply(replies, fetch_at + 3) {
        Some(output) => not_blank(output),
        None => true,
    };
    let merge_base = if has_base {
        value_reply(replies, fetch_at + 4)
    } else {
        None
    };
    let empty = String::new();
    let status: &str = match text_reply(replies, status_at) {
        Some(output) => output,
        None => empty.as_str(),
    };
    assert(status@ =~= query.status(replies@));
    let standing = Standing {
        has_local_head,
        has_remote_head,
        on_branch: equals_option(&local_branch, branch.as_str()),
        first_publish: !has_remote_head && !remote_has_branches,
        uncommitted: has_uncommitted_changes(status),
        untracked: has_untracked_files(status),
        ahead: ahead_count,
        behind: behind_count,
    };
    assert(standing == query.standing(replies@));
    let push_block_reason = push_block_reason(&standing, branch.as_str());
    let pull_block_reason = pull_block_reason(&standing, branch.as_str());
    let local_short_head = shorten(&local_head);
    let remote_short_head = shorten(&remote_head);
    let can_push = push_block_reason.is_none();
    let can_pull = pull_block_reason.is_none();
    ProjectRepoSyncStatusInfo {
        local_path: Some(query.repo_path.to_string()),
        local_branch,
        local_branches,
        local_head,
        local_short_head,
        remote_branch: Some(branch),
        remote_head,
        remote_short_head,
        merge_base,
        ahead_count,
        behind_count,
        has_uncommitted_changes: standing.uncommitted,
        has_untracked_files: standing.untracked,
        can_push,
        push_block_reason,
        can_pull,
        pull_block_reason,
    }
}

/// Compares a local checkout with its remote: fetches the branch, counts the
/// commits on either side and says what stands in the way of a push or a pull.
pub fn compare_local_remote_status(query: &SyncQuery, replies: &[Reply]) -> (r: Progress<
    ProjectRepoSyncStatusInfo,
>)
    ensures
        follows(r, query.script(replies@), replies@.len(), query.value(replies@)),
{
    match next_sync_request(query, replies) {
        (Some(request), _) => Progress::Ask(request),
        (None, used) => Progress::Done { value: sync_status(query, replies), used },
    }
}

// ---------------------------------------------------------------------------
// Commands on a project's checkout, which may be missing

/// The message for a project without a local checkout.
pub open spec fn no_checkout() -> Seq<char> {
    "No local checkout found."@
}

/// The status of a project without a local checkout.
pub open spec fn missing_status(branch_name: Option<Seq<char>>) -> SyncStatusModel {
    SyncStatusModel {
        local_path: None,
        local_branch: None,
        local_branches: seq![],
        local_head: None,
        local_short_head: None,
        remote_branch: cleaned(branch_name),
        remote_head: None,
        remote_short_head: None,
        merge_base: None,
        ahead_count: 0,
        behind_count: 0,
        has_uncommitted_changes: false,
        has_untracked_files: false,
        can_push: false,
        push_block_reason: Some(no_checkout()),
        can_pull: false,
        pull_block_reason: Some(no_checkout()),
    }
}

/// The checkout of a project, or the refusal if there is none.
pub fn require_local_checkout<T>(checkout: Option<T>) -> (r: Result<T, String>)
    ensures
        match checkout {
            Some(found) => r == Ok::<T, String>(found),
            None => r matches Err(message) && message@ == no_checkout(),
        },
{
    match checkout {
        Some(found) => Ok(found),
        None => Err("No local checkout found.".to_string()),
    }
}

/// The requests of the status of a project, whose checkout may be missing.
pub open spec fn project_status_script(
    repo_path: Option<&str>,
    clone_url: &str,
    branch_name: Option<&str>,
    base_branch: Option<&str>,
    replies: Seq<Reply>,
) -> Seq<RequestModel> {
    match repo_path {
        Some(repo_path) => (SyncQuery { repo_path, clone_url, branch_name, base_branch }).script(
            replies,
        ),
        None => seq![],
    }
}

/// The status of a project, whose checkout may be missing.
pub open spec fn project_status(
    repo_path: Option<&str>,
    clone_url: &str,
    branch_name: Option<&str>,
    base_branch: Option<&str>,
    replies: Seq<Reply>,
) -> SyncStatusModel {
    match repo_path {
        Some(repo_path) => (SyncQuery { repo_path, clone_url, branch_name, base_branch }).value(
            replies,
        ),
        None => missing_status(branch_name.deep_view()),
    }
}

/// How the local checkout of a project stands against its remote.
pub fn get_project_repo_sync_status(
    repo_path: Option<&str>,
    clone_url: &str,
    branch_name: Option<&str>,
    base_branch: Option<&str>,
    replies: &[Reply],
) -> (r: Progress<ProjectRepoSyncStatusInfo>)
    ensures
        follows(
            r,
            project_status_script(repo_path, clone_url, branch_name, base_branch, replies@),
            replies@.len(),
            project_status(repo_path, clone_url, branch_name, base_branch, replies@),
        ),
{
    match repo_path {
        Some(repo_path) => {
            let query = SyncQuery { repo_path, clone_url, branch_name, base_branch };
            compare_local_remote_status(&query, replies)
        },
        None => {
            let local_branches: Vec<String> = Vec::new();
            assert(local_branches.deep_view() =~= seq![]);
            let value = ProjectRepoSyncStatusInfo {
                local_path: None,
                local_branch: None,
                local_branches,
                local_head: None,
                local_short_head: None,
                remote_branch: normalize_branch_option(branch_name),
                remote_head: None,
                remote_short_head: None,
                merge_base: None,
                ahead_count: 0,
                behind_count: 0,
                has_uncommitted_changes: false,
                has_untracked_files: false,
                can_push: false,
                push_block_reason: Some("No local checkout found.".to_string()),
                can_pull: false,
                pull_block_reason: Some("No local checkout found.".to_string()),
            };
            Progress::Done { value, used: 0 }
        },
    }
}

pub open spec fn pull_request(branch: Seq<char>) -> RequestModel {
    git(seq!["pull"@, "--ff-only"@, "--end-of-options"@, "origin"@, branch])
}

impl<'a> SyncQuery<'a> {
    /// Why the branch cannot be pulled, if it cannot.
    pub open spec fn pull_refusal(self, replies: Seq<Reply>) -> Option<Seq<char>> {
        pull_block(self.standing(replies), self.branch(replies))
    }

    /// The requests of a pull: the comparison and, if nothing stands in the
    /// way, the pull itself.
    pub open spec fn pull_script(self, replies: Seq<Reply>) -> Seq<RequestModel> {
        if self.pull_refusal(replies) is Some {
            self.script(replies)
        } else {
            self.script(replies).push(pull_request(self.branch(replies)))
        }
    }

    /// What comes of a pull.
    pub open spec fn pull_value(self, replies: Seq<Reply>) -> Result<PullModel, Seq<char>> {
        let last = self.script(replies).len() as int;
        match self.pull_refusal(replies) {
            Some(reason) => Err(reason),
            None => if text_at(replies, last) is Some {
                Ok(
                    PullModel {
                        pulled: true,
                        message: "Pulled "@ + self.branch(replies) + " from remote."@,
                    },
                )
            } else {
                Err(failure_at(replies, last))
            },
        }
    }
}

/// The requests of a pull into the checkout of a project, which may be missing.
pub open spec fn project_pull_script(
    repo_path: Option<&str>,
    clone_url: &str,
    branch_name: Option<&str>,
    replies: Seq<Reply>,
) -> Seq<RequestModel> {
    match repo_path {
        Some(repo_path) => (SyncQuery {
            repo_path,
            clone_url,
            branch_name,
            base_branch: None,
        }).pull_script(replies),
        None => seq![],
    }
}

/// What comes of a pull into the checkout of a project, which may be missing.
pub open spec fn project_pull(
    repo_path: Option<&str>,
    clone_url: &str,
    branch_name: Option<&str>,
    replies: Seq<Reply>,
) -> Result<PullModel, Seq<char>> {
    match repo_path {
        Some(repo_path) => (SyncQuery {
            repo_path,
            clone_url,
            branch_name,
            base_branch: None,
        }).pull_value(replies),
        None => Err(no_checkout()),
    }
}

/// Fast-forwards the local checkout to the head of the remote branch. Refuses
/// to run whenever the sync status reports that the pull would not apply
/// cleanly.
pub fn pull_project_local_repository(
    repo_path: Option<&str>,
    clone_url: &str,
    branch_name: Option<&str>,
    replies: &[Reply],
) -> (r: Progress<Result<ProjectRepoPullResult, String>>)
    ensures
        follows_result(
            r,
            project_pull_script(repo_path, clone_url, branch_name, replies@),
            replies@.len(),
            project_pull(repo_path, clone_url, branch_name, replies@),
        ),
{
    let repo_path = match require_local_checkout(repo_path) {
        Ok(path) => path,
        Err(message) => {
            return Progress::Done { value: Err(message), used: 0 };
        },
    };
    let query = SyncQuery { repo_path, clone_url, branch_name, base_branch: None };
    let (status, used) = match compare_local_remote_status(&query, replies) {
        Progress::Ask(request) => {
            return Progress::Ask(request);
        },
        Progress::Done { value, used } => (value, used),
    };
    if !status.can_pull {
        let reason = match status.pull_block_reason {
            Some(reason) => reason,
            None => "Local checkout cannot be pulled.".to_string(),
        };
        return Progress::Done { value: Err(reason), used };
    }
    let branch = match status.remote_branch {
        Some(branch) => branch,
        None => {
            return Progress::Done {
                value: Err("No branch selected for pull.".to_string()),
                used,
            };
        },
    };
    if replies.len() == used {
        let request = ask_git(
            &["pull", "--ff-only", "--end-of-options", "origin", branch.as_str()],
        );
        assert(request.deep_view()->Git_args =~= pull_request(branch@)->Git_args);
        return Progress::Ask(request);
    }
    if text_reply(replies, used).is_none() {
        return Progress::Done { value: Err(failure_reply(replies, used)), used: used + 1 };
    }
    let message = join3("Pulled ", branch.as_str(), " from remote.");
    Progress::Done { value: Ok(ProjectRepoPullResult { pulled: true, message }), used: used + 1 }
}

// ---------------------------------------------------------------------------
// Laws

/// The comparison goes step by step: what is asked next depends on the replies
/// so far only, and at most twelve requests are made.
pub proof fn law_comparison_asks_step_by_step(query: SyncQuery, replies: Seq<Reply>, n: nat)
    requires
        n <= replies.len(),
    ensures
        agree_until(query.script(replies.take(n as int)), query.script(replies), n),
        query.script(replies).len() <= 12,
        n >= query.script(replies).len() ==> query.script(replies.take(n as int)) == query.script(
            replies,
        ) && query.value(replies.take(n as int)) == query.value(replies),
{
    let so_far = replies.take(n as int);
    assert forall|i: int| i < n implies #[trigger] text_at(so_far, i) == text_at(replies, i) by {
        lemma_text_at_take(replies, n as int, i);
    }
    query.lemma_script(replies);
    query.lemma_script(so_far);
    let a = query.script(so_far);
    let b = query.script(replies);
    if n <= 2 {
        assert(first_n(a, n + 1) =~= first_n(b, n + 1));
    } else {
        assert(query.branch(so_far) == query.branch(replies));
        assert(query.base(so_far) == query.base(replies));
        assert(query.repoints(so_far) == query.repoints(replies));
        let t = query.status_at(replies);
        if n > t {
            assert(query.remote_head(so_far) == query.remote_head(replies));
            assert(a == b);
        } else {
            let common = b.take(t + 1);
            assert(a.take(t + 1) =~= common);
            assert(first_n(a, n + 1) =~= first_n(common, n + 1));
            assert(first_n(b, n + 1) =~= first_n(common, n + 1));
        }
    }
}

/// Every branch name that the comparison hands to git is safe, wherever it came
/// from: the name that was asked for, the name of the branch that is checked
/// out or the name of the base branch.
pub proof fn law_compared_branches_are_safe(query: SyncQuery, replies: Seq<Reply>)
    ensures
        is_safe_branch(query.branch(replies)),
        query.base(replies) matches Some(name) ==> is_safe_branch(name) && name != query.branch(
            replies,
        ),
        forall|i: int|
            0 <= i < query.local_branches(replies).len() ==> is_safe_branch(
                #[trigger] query.local_branches(replies)[i],
            ),
{
    reveal_strlit("main");
    assert(is_safe_branch("main"@));
    if let Some(output) = text_at(replies, 1) {
        let f = |line: Seq<char>| cleaned(Some(line));
        assert forall|i: int| 0 <= i < branches_of(output).len() implies is_safe_branch(
            #[trigger] branches_of(output)[i],
        ) by {
            let name = branches_of(output)[i];
            assert(lines_of(output).filter_map(f).contains(name));
            lines_of(output).lemma_filter_map_contains(f, name);
        }
    }
}

/// The requests of a comparison with the branches `branch` and `base`. Git
/// shows the state of the repository and of the remote; it sets the URL of the
/// origin; and it fetches, with names of branches and nothing else behind
/// `origin`.
pub open spec fn is_comparing(
    request: RequestModel,
    url: Seq<char>,
    branch: Seq<char>,
    base: Option<Seq<char>>,
) -> bool {
    ||| request == show_current()
    ||| request == list_branches()
    ||| request == get_origin()
    ||| request == set_origin(url)
    ||| request == fetch_branches(branch, base)
    ||| request == local_head_request()
    ||| request == remote_head_request(branch)
    ||| request == list_remote_heads()
    ||| base matches Some(name) && request == merge_base_request(name)
    ||| request == status_request()
    ||| request == ahead_request(branch)
    ||| request == behind_request(branch)
}

/// The comparison runs the commands of `is_comparing` in the repository and no
/// others, so it touches neither the files nor the branches of the checkout:
/// `git remote` is followed by `get-url` or `set-url`, and the names that are
/// handed to `git fetch` are safe and hold no `:`, so none is a refspec that
/// moves a local branch.
pub proof fn law_comparison_leaves_checkout_alone(query: SyncQuery, replies: Seq<Reply>, i: int)
    requires
        0 <= i < query.script(replies).len(),
    ensures
        is_comparing(
            query.script(replies)[i],
            query.clone_url@,
            query.branch(replies),
            query.base(replies),
        ),
        query.script(replies)[i] matches RequestModel::Git { args, in_repo } && {
            &&& in_repo
            &&& args[0] == "branch"@ ==> args == seq!["branch"@, "--show-current"@]
            &&& args[0] == "remote"@ ==> args[1] == "get-url"@ || args[1] == "set-url"@
            &&& args[0] == "fetch"@ ==> {
                &&& 6 <= args.len() <= 7
                &&& args.take(5) == seq![
                    "fetch"@,
                    "--quiet"@,
                    "--depth=100"@,
                    "--end-of-options"@,
                    "origin"@,
                ]
                &&& forall|j: int|
                    5 <= j < args.len() ==> is_safe_branch(#[trigger] args[j])
                        && !args[j].contains(':')
            }
        },
{
    query.lemma_script(replies);
    law_compared_branches_are_safe(query, replies);
    let f = query.fetch_at(replies);
    let t = query.status_at(replies);
    assert(i <= 3 || i == f || i == f + 1 || i == f + 2 || i == f + 3 || i == f + 4 || i == t || i
        == t + 1 || i == t + 2);
    lemma_command_words();
    let args = query.script(replies)[i]->Git_args;
    if args[0] == "fetch"@ {
        assert(query.script(replies)[i] == fetch_branches(
            query.branch(replies),
            query.base(replies),
        ));
        assert(args.take(5) =~= seq![
            "fetch"@,
            "--quiet"@,
            "--depth=100"@,
            "--end-of-options"@,
            "origin"@,
        ]);
        assert forall|j: int| 5 <= j < args.len() implies is_safe_branch(#[trigger] args[j])
            && !args[j].contains(':') by {
            assert(args[j] == query.branch(replies) || query.base(replies) == Some(args[j]));
            assert(forall|c: int| 0 <= c < args[j].len() ==> is_branch_char(#[trigger] args[j][c]));
        }
    }
}

/// The commands that the comparison and the pull run are different words.
proof fn lemma_command_words()
    ensures
        "branch"@[0] == 'b',
        "for-each-ref"@[0] == 'f' && "for-each-ref"@[1] == 'o',
        "remote"@[0] == 'r' && "remote"@.len() == 6,
        "fetch"@[0] == 'f' && "fetch"@[1] == 'e',
        "rev-parse"@[0] == 'r' && "rev-parse"@.len() == 9,
        "ls-remote"@[0] == 'l',
        "merge-base"@[0] == 'm',
        "status"@[0] == 's',
        "rev-list"@[0] == 'r' && "rev-list"@.len() == 8,
        "pull"@[0] == 'p',
        "get-url"@[0] == 'g',
        "set-url"@[0] == 's',
{
    reveal_strlit("branch");
    reveal_strlit("for-each-ref");
    reveal_strlit("remote");
    reveal_strlit("fetch");
    reveal_strlit("rev-parse");
    reveal_strlit("ls-remote");
    reveal_strlit("merge-base");
    reveal_strlit("status");
    reveal_strlit("rev-list");
    reveal_strlit("pull");
    reveal_strlit("get-url");
    reveal_strlit("set-url");
}

/// Of all its requests the comparison changes the origin of the checkout with
/// one only, and makes that one exactly if the origin is not the project's
/// URL.
pub proof fn law_origin_is_changed_only_if_it_differs(
    query: SyncQuery,
    replies: Seq<Reply>,
    url: Seq<char>,
)
    ensures
        query.script(replies).contains(set_origin(url)) <==> url == query.clone_url@
            && query.repoints(replies),
{
    query.lemma_script(replies);
    let s = query.script(replies);
    let request = set_origin(url);
    let args = request->Git_args;
    lemma_command_words();
    assert(args[0] == "remote"@ && args[1] == "set-url"@);
    if s.contains(request) {
        let i = choose|i: int| 0 <= i < s.len() && s[i] == request;
        assert(s[i]->Git_args[0] == "remote"@ && s[i]->Git_args[1] == "set-url"@);
        assert(i == 3 && query.repoints(replies));
        assert(args[3] == s[3]->Git_args[3]);
    }
    if query.repoints(replies) && url == query.clone_url@ {
        assert(s[3] == request);
    }
}

/// Any failure to list the branches of the remote counts as a remote that has
/// some: the checkout is then no first publish.
pub proof fn law_failed_lookup_is_no_first_publish(query: SyncQuery, replies: Seq<Reply>)
    requires
        text_at(replies, query.fetch_at(replies) + 3) is None,
    ensures
        !query.standing(replies).first_publish,
{
}

/// Pushing is open exactly for a clean checkout of the branch, or for the first
/// publish, that is ahead of the remote and not behind it.
pub proof fn law_push_is_open_only_for_clean_progress(query: SyncQuery, replies: Seq<Reply>)
    ensures
        query.value(replies).can_push <==> {
            let s = query.standing(replies);
            s.has_local_head && (s.on_branch || s.first_publish) && !s.uncommitted && !s.untracked
                && s.behind == 0 && s.ahead > 0
        },
        query.value(replies).can_push <==> query.value(replies).push_block_reason is None,
{
}

/// Pulling is open exactly where a fast-forward applies cleanly: both sides have
/// a head, the branch is checked out without uncommitted changes, and the
/// checkout is behind the remote and not ahead of it.
pub proof fn law_pull_is_open_only_for_fast_forward(query: SyncQuery, replies: Seq<Reply>)
    ensures
        query.value(replies).can_pull <==> {
            let s = query.standing(replies);
            s.has_local_head && s.has_remote_head && s.on_branch && !s.uncommitted && s.behind > 0
                && s.ahead == 0
        },
        query.value(replies).can_pull <==> query.value(replies).pull_block_reason is None,
{
}

/// Pushing and pulling are never open at the same time.
pub proof fn law_push_and_pull_exclude_each_other(query: SyncQuery, replies: Seq<Reply>)
    ensures
        !(query.value(replies).can_push && query.value(replies).can_pull),
{
}

/// The pull goes step by step, and `git pull` is run exactly if the comparison
/// says that pulling is open; then as the last request, and otherwise the
/// reason is reported.
pub proof fn law_pull_runs_only_when_open(query: SyncQuery, replies: Seq<Reply>, n: nat)
    requires
        n <= replies.len(),
    ensures
        agree_until(query.pull_script(replies.take(n as int)), query.pull_script(replies), n),
        !query.script(replies).contains(pull_request(query.branch(replies))),
        query.value(replies).can_pull ==> query.pull_script(replies).last() == pull_request(
            query.branch(replies),
        ),
        !query.value(replies).can_pull ==> query.pull_script(replies) == query.script(replies),
        !query.value(replies).can_pull ==> query.pull_value(replies) == Err::<
            PullModel,
            Seq<char>,
        >(query.value(replies).pull_block_reason->0),
{
    law_comparison_asks_step_by_step(query, replies, n);
    let so_far = replies.take(n as int);
    let a = query.script(so_far);
    let b = query.script(replies);
    let pull = pull_request(query.branch(replies));
    if b.contains(pull) {
        let i = choose|i: int| 0 <= i < b.len() && b[i] == pull;
        law_comparison_leaves_checkout_alone(query, replies, i);
        lemma_command_words();
        assert(pull->Git_args[0] == "pull"@);
    }
    if n < b.len() {
        assert(first_n(a, n + 1).len() == n + 1);
        assert(first_n(query.pull_script(so_far), n + 1) =~= first_n(a, n + 1));
        assert(first_n(query.pull_script(replies), n + 1) =~= first_n(b, n + 1));
    }
}

/// Whether the origin that git names is not the project's URL.
pub open spec fn origin_differs(query: SyncQuery, replies: Seq<Reply>) -> bool {
    match text_at(replies, 2) {
        Some(output) => first_value(output) != Some(query.clone_url@),
        None => true,
    }
}

/// The base branch that was asked for, unless it is the branch that is compared.
pub open spec fn other_base(query: SyncQuery, branch: Seq<char>) -> Option<Seq<char>> {
    match cleaned(query.base_branch.deep_view()) {
        Some(name) => if name != branch {
            Some(name)
        } else {
            None
        },
        None => None,
    }
}

/// The number of requests before the fetch.
pub open spec fn fetch_position(query: SyncQuery, replies: Seq<Reply>) -> int {
    if origin_differs(query, replies) {
        4
    } else {
        3
    }
}

/// The number of requests before the status, with the comparison of `branch`.
pub open spec fn status_position(query: SyncQuery, replies: Seq<Reply>, branch: Seq<char>) -> int {
    fetch_position(query, replies) + if other_base(query, branch) is Some {
        5int
    } else {
        4int
    }
}

/// The value on the first line of a reply, if the reply is text and the line is not
/// blank.
pub open spec fn replied_value(replies: Seq<Reply>, i: int) -> Option<Seq<char>> {
    match text_at(replies, i) {
        Some(output) => first_value(output),
        None => None,
    }
}

/// The number in a reply; 0 if it failed or holds none.
pub open spec fn replied_count(replies: Seq<Reply>, i: int) -> nat {
    match text_at(replies, i) {
        Some(output) => count_of(output),
        None => 0,
    }
}

proof fn lemma_positions(query: SyncQuery, replies: Seq<Reply>)
    ensures
        query.fetch_at(replies) == fetch_position(query, replies),
        query.base(replies) == other_base(query, query.branch(replies)),
        query.status_at(replies) == status_position(query, replies, query.branch(replies)),
{
}

/// The branch that is compared is the one that was asked for, if its name is valid;
/// otherwise the one that is checked out, if its name is; otherwise `main`.
pub proof fn law_compared_branch_is_the_asked_one(query: SyncQuery, replies: Seq<Reply>)
    ensures
        ({
            let compared = query.value(replies).remote_branch;
            let asked = cleaned(query.branch_name.deep_view());
            let current = cleaned(replied_value(replies, 0));
            &&& asked is Some ==> compared == asked
            &&& asked is None && current is Some ==> compared == current
            &&& asked is None && current is None ==> compared == Some("main"@)
        }),
{
}

/// The requests of a comparison, spelled out with the branch that it reports.
pub proof fn law_comparison_asks_git(query: SyncQuery, replies: Seq<Reply>)
    ensures
        ({
            let s = query.script(replies);
            let branch = query.value(replies).remote_branch->0;
            let base = other_base(query, branch);
            let f = fetch_position(query, replies);
            let t = status_position(query, replies, branch);
            let fetch = seq![
                "fetch"@,
                "--quiet"@,
                "--depth=100"@,
                "--end-of-options"@,
                "origin"@,
                branch,
            ];
            &&& query.value(replies).remote_branch is Some
            &&& s.len() > t
            &&& s[0] == git(seq!["branch"@, "--show-current"@])
            &&& s[1] == git(
                seq!["for-each-ref"@, "--count=200"@, "--format=%(refname:short)"@, "refs/heads/"@],
            )
            &&& s[2] == git(seq!["remote"@, "get-url"@, "origin"@])
            &&& origin_differs(query, replies) ==> s[3] == git(
                seq!["remote"@, "set-url"@, "origin"@, query.clone_url@],
            )
            &&& base matches Some(name) ==> s[f] == git(fetch.push(name))
            &&& base is None ==> s[f] == git(fetch)
            &&& s[f + 1] == git(seq!["rev-parse"@, "HEAD"@])
            &&& s[f + 2] == git(
                seq!["rev-parse"@, "--verify"@, "--quiet"@, "refs/remotes/origin/"@ + branch],
            )
            &&& s[f + 3] == git(seq!["ls-remote"@, "--heads"@, "--end-of-options"@, "origin"@])
            &&& base matches Some(name) ==> s[f + 4] == git(
                seq!["merge-base"@, "HEAD"@, "origin/"@ + name],
            )
            &&& s[t] == git(seq!["status"@, "--porcelain"@])
            &&& query.value(replies).remote_head is Some ==> {
                &&& s.len() == t + 3
                &&& s[t + 1] == git(
                    seq!["rev-list"@, "--count"@, "origin/"@ + branch + "..HEAD"@],
                )
                &&& s[t + 2] == git(seq!["rev-list"@, "--count"@, "HEAD..origin/"@ + branch])
            }
            &&& query.value(replies).remote_head is None ==> s.len() == t + 1
        }),
{
    query.lemma_script(replies);
    lemma_positions(query, replies);
    let branch = query.branch(replies);
    if let Some(name) = query.base(replies) {
        let fetch = seq![
            "fetch"@,
            "--quiet"@,
            "--depth=100"@,
            "--end-of-options"@,
            "origin"@,
            branch,
        ];
        assert(fetch_branches(branch, Some(name))->Git_args =~= fetch.push(name));
    }
}

/// A comparison reports what git replied: the branch that is checked out, the local
/// branches, both heads, the merge base, the changes and the counts, each from
/// the reply to its own request.
pub proof fn law_comparison_reports_replies(query: SyncQuery, replies: Seq<Reply>)
    ensures
        ({
            let v = query.value(replies);
            let branch = v.remote_branch->0;
            let f = fetch_position(query, replies);
            let t = status_position(query, replies, branch);
            &&& v.local_path == Some(query.repo_path@)
            &&& v.local_branch == replied_value(replies, 0)
            &&& text_at(replies, 1) matches Some(output) ==> v.local_branches == branches_of(output)
            &&& text_at(replies, 1) is None ==> v.local_branches.len() == 0
            &&& v.local_head == replied_value(replies, f + 1)
            &&& v.remote_head == replied_value(replies, f + 2)
            &&& v.local_head matches Some(hash) ==> v.local_short_head == Some(
                first_n(hash, 7),
            )
            &&& v.local_head is None ==> v.local_short_head is None
            &&& v.remote_head matches Some(hash) ==> v.remote_short_head == Some(
                first_n(hash, 7),
            )
            &&& v.remote_head is None ==> v.remote_short_head is None
            &&& other_base(query, branch) is Some ==> v.merge_base == replied_value(replies, f + 4)
            &&& other_base(query, branch) is None ==> v.merge_base is None
            &&& text_at(replies, t) matches Some(output) ==> {
                &&& v.has_uncommitted_changes == any_change(output)
                &&& v.has_untracked_files == any_untracked(output)
            }
            &&& text_at(replies, t) is None ==> !v.has_uncommitted_changes
                && !v.has_untracked_files
            &&& v.remote_head is Some ==> {
                &&& v.ahead_count == replied_count(replies, t + 1)
                &&& v.behind_count == replied_count(replies, t + 2)
            }
            &&& v.remote_head is None ==> {
                &&& v.behind_count == 0
                &&& v.local_head is Some ==> v.ahead_count == 1
                &&& v.local_head is None ==> v.ahead_count == 0
            }
        }),
{
    lemma_positions(query, replies);
    assert(lines_of(Seq::<char>::empty()).len() == 0);
}

/// Whether git showed that the remote has no branch at all: it gave no head for the
/// branch, and its list of heads came and is blank.
pub open spec fn remote_is_shown_empty(query: SyncQuery, replies: Seq<Reply>) -> bool {
    &&& query.value(replies).remote_head is None
    &&& text_at(replies, fetch_position(query, replies) + 3) matches Some(output) && is_blank(output)
}

proof fn lemma_standing(query: SyncQuery, replies: Seq<Reply>)
    ensures
        ({
            let s = query.standing(replies);
            let v = query.value(replies);
            &&& s.has_local_head == (v.local_head is Some)
            &&& s.has_remote_head == (v.remote_head is Some)
            &&& s.on_branch == (v.local_branch == v.remote_branch)
            &&& s.first_publish == remote_is_shown_empty(query, replies)
            &&& s.uncommitted == v.has_uncommitted_changes
            &&& s.untracked == v.has_untracked_files
            &&& s.ahead == v.ahead_count
            &&& s.behind == v.behind_count
        }),
{
    lemma_positions(query, replies);
    lemma_count_fits(replies, query.status_at(replies) + 1);
    lemma_count_fits(replies, query.status_at(replies) + 2);
}

proof fn lemma_count_fits(replies: Seq<Reply>, i: int)
    ensures
        count_at(replies, i) <= usize::MAX,
{
}

/// Whether a push is open, and why not, follows from what the comparison reports, in
/// this order: there must be a commit; the branch must be checked out, unless
/// the remote was shown to have no branch at all; nothing may be uncommitted or
/// untracked; the remote must have nothing that the checkout has not; and the
/// checkout must have something to push.
pub proof fn law_push_follows_from_the_report(query: SyncQuery, replies: Seq<Reply>)
    ensures
        ({
            let v = query.value(replies);
            let branch = v.remote_branch->0;
            &&& v.push_block_reason == if v.local_head is None {
                Some("No local commits to push."@)
            } else if v.local_branch != v.remote_branch && !remote_is_shown_empty(query, replies) {
                Some("Local checkout is on a different branch than "@ + branch + "."@)
            } else if v.has_uncommitted_changes || v.has_untracked_files {
                Some("Commit or discard local changes before pushing."@)
            } else if v.behind_count > 0 {
                Some("Pull or reconcile remote commits before pushing."@)
            } else if v.ahead_count == 0 {
                Some("Local branch is already pushed."@)
            } else {
                None
            }
            &&& v.can_push <==> v.push_block_reason is None
            &&& v.can_push ==> v.local_branch == v.remote_branch || remote_is_shown_empty(
                query,
                replies,
            )
        }),
{
    lemma_standing(query, replies);
}

/// Whether a pull is open, and why not, follows from what the comparison reports, in
/// this order: both sides must have a commit; the remote must have something
/// that the checkout has not; the branch must be checked out; nothing may be
/// uncommitted; and the checkout must have nothing that the remote has not.
pub proof fn law_pull_follows_from_the_report(query: SyncQuery, replies: Seq<Reply>)
    ensures
        ({
            let v = query.value(replies);
            let branch = v.remote_branch->0;
            &&& v.pull_block_reason == if v.local_head is None {
                Some("No local commits yet — clone instead of pulling."@)
            } else if v.remote_head is None {
                Some("Remote branch not found."@)
            } else if v.behind_count == 0 {
                Some("Local branch is up to date."@)
            } else if v.local_branch != v.remote_branch {
                Some("Local checkout is on a different branch than "@ + branch + "."@)
            } else if v.has_uncommitted_changes {
                Some("Commit or stash local changes before pulling."@)
            } else if v.ahead_count > 0 {
                Some("Local and remote have diverged — reconcile in a terminal."@)
            } else {
                None
            }
            &&& v.can_pull <==> v.pull_block_reason is None
            &&& v.can_pull ==> v.local_branch == v.remote_branch && replied_value(replies, 0)
                == v.remote_branch
        }),
{
    lemma_standing(query, replies);
}

/// The local branches are read line by line: each line that is a valid name without
/// its outer white space adds that name, in order, and each other line adds
/// nothing.
pub proof fn law_branches_are_read_line_by_line(line: Seq<char>, rest: Seq<char>)
    requires
        !line.contains('\n'),
        line.len() == 0 || line.last() != '\r',
    ensures
        branches_of(line + seq!['\n'] + rest) == (match cleaned(Some(line)) {
            Some(name) => seq![name],
            None => seq![],
        }) + branches_of(rest),
        branches_of(Seq::<char>::empty()).len() == 0,
{
    law_lines_end_at_newlines(line, rest);
    lemma_filter_map_front(line, lines_of(rest), |l: Seq<char>| cleaned(Some(l)));
}

/// What comes of a pull: the reason if it is not open; otherwise `git pull` is the last
/// request, in the repository and fast-forward only, of the branch that the
/// comparison reports, and the pull succeeds exactly if that does.
pub proof fn law_pull_does_what_git_does(query: SyncQuery, replies: Seq<Reply>)
    ensures
        ({
            let v = query.value(replies);
            let branch = v.remote_branch->0;
            let n = query.script(replies).len() as int;
            &&& !v.can_pull ==> {
                &&& query.pull_script(replies) == query.script(replies)
                &&& query.pull_value(replies) == Err::<PullModel, Seq<char>>(v.pull_block_reason->0)
            }
            &&& v.can_pull ==> {
                &&& query.pull_script(replies) == query.script(replies).push(
                    git(seq!["pull"@, "--ff-only"@, "--end-of-options"@, "origin"@, branch]),
                )
                &&& text_at(replies, n) is Some ==> query.pull_value(replies) == Ok::<
                    PullModel,
                    Seq<char>,
                >(PullModel { pulled: true, message: "Pulled "@ + branch + " from remote."@ })
                &&& text_at(replies, n) is None ==> query.pull_value(replies) == Err::<
                    PullModel,
                    Seq<char>,
                >(failure_at(replies, n))
            }
        }),
{
}

/// Of a project without a checkout nothing local is reported, and neither a push nor a
/// pull is open.
pub proof fn law_missing_checkout_is_reported(branch_name: Option<Seq<char>>)
    ensures
        ({
            let v = missing_status(branch_name);
            &&& v.local_path is None && v.local_branch is None && v.local_branches.len() == 0
            &&& v.local_head is None && v.local_short_head is None
            &&& v.remote_head is None && v.remote_short_head is None && v.merge_base is None
            &&& v.remote_branch == cleaned(branch_name)
            &&& v.ahead_count == 0 && v.behind_count == 0
            &&& !v.has_uncommitted_changes && !v.has_untracked_files
            &&& !v.can_push && v.push_block_reason == Some("No local checkout found."@)
            &&& !v.can_pull && v.pull_block_reason == Some("No local checkout found."@)
        }),
{
}

/// The commands on a project compare its checkout, with the URL and the names that they
/// were given; a pull compares without a base. Without a checkout git is asked
/// nothing, and a pull is refused.
pub proof fn law_commands_compare_the_checkout(
    repo_path: &str,
    clone_url: &str,
    branch_name: Option<&str>,
    base_branch: Option<&str>,
    replies: Seq<Reply>,
)
    ensures
        ({
            let status = SyncQuery { repo_path, clone_url, branch_name, base_branch };
            let pull = SyncQuery { repo_path, clone_url, branch_name, base_branch: None };
            let path = Some(repo_path);
            &&& project_status_script(path, clone_url, branch_name, base_branch, replies)
                == status.script(replies)
            &&& project_status(path, clone_url, branch_name, base_branch, replies) == status.value(
                replies,
            )
            &&& project_pull_script(path, clone_url, branch_name, replies) == pull.pull_script(
                replies,
            )
            &&& project_pull(path, clone_url, branch_name, replies) == pull.pull_value(replies)
            &&& project_status_script(None, clone_url, branch_name, base_branch, replies).len() == 0
            &&& project_status(None, clone_url, branch_name, base_branch, replies)
                == missing_status(branch_name.deep_view())
            &&& project_pull_script(None, clone_url, branch_name, replies).len() == 0
            &&& project_pull(None, clone_url, branch_name, replies) == Err::<
                PullModel,
                Seq<char>,
            >("No local checkout found."@)
        }),
{
}

} // verus!
