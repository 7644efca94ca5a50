//! Snapshots of a local checkout at the branch that the user selected.
use crate::branch::{
    clean_branch, clean_selected_branch, cleaned, normalize_branch_name, normalized, selection,
};
use crate::exchange::{
    after, agree_until, ask_git, follows, follows_result, git, lemma_after_take,
    lemma_join_step_by_step, lemma_text_at_take, looks_at_worktree, rest, text_at, text_reply,
    Progress, Reply, RequestModel,
};
use crate::model::{
    first_n, LocalSnapshotModel, ProjectLocalRepoSnapshotInfo, ProjectRepoSnapshotInfo,
    SnapshotModel,
};
use crate::snapshot::{
    law_ref_snapshot_leaves_worktree_alone, law_snapshot_asks_step_by_step, law_snapshot_reads_only,
    lemma_verify_reads_only, reads_only, ref_plan, snapshot_from_ref, snapshot_from_worktree,
    worktree_plan, Plan, Source,
};
use crate::status_text::{first_output_line, first_value};
use crate::text::{borrow_option, join2, join3, same_text};
use vstd::prelude::*;

verus! {

// ---------------------------------------------------------------------------
// From a branch name to a reference

pub open spec fn head_ref(name: Seq<char>) -> Seq<char> {
    "refs/heads/"@ + name
}

pub open spec fn remote_ref(name: Seq<char>) -> Seq<char> {
    "refs/remotes/origin/"@ + name
}

/// Whether a reference names a commit.
pub open spec fn verify_commit(reference: Seq<char>) -> RequestModel {
    git(seq!["rev-parse"@, "--verify"@, "--quiet"@, reference + "^{commit}"@])
}

/// A branch is looked up among the local branches and, if it is not there,
/// among the remote ones.
pub open spec fn resolve_script(name: Seq<char>, replies: Seq<Reply>) -> Seq<RequestModel> {
    if text_at(replies, 0) is Some {
        seq![verify_commit(head_ref(name))]
    } else {
        seq![verify_commit(head_ref(name)), verify_commit(remote_ref(name))]
    }
}

/// The reference of a branch, if the checkout has one.
pub open spec fn resolved_ref(name: Seq<char>, replies: Seq<Reply>) -> Option<Seq<char>> {
    if text_at(replies, 0) is Some {
        Some(head_ref(name))
    } else if text_at(replies, 1) is Some {
        Some(remote_ref(name))
    } else {
        None
    }
}

/// Finds the reference of a branch in the checkout.
pub fn resolve_local_branch_ref(branch_name: &str, replies: &[Reply]) -> (r: Progress<
    Option<String>,
>)
    ensures
        follows(
            r,
            resolve_script(branch_name@, replies@),
            replies@.len(),
            resolved_ref(branch_name@, replies@),
        ),
{
    let local = join2("refs/heads/", branch_name);
    if replies.len() == 0 {
        let commit = join2(local.as_str(), "^{commit}");
        let request = ask_git(&["rev-parse", "--verify", "--quiet", commit.as_str()]);
        assert(request.deep_view()->Git_args =~= seq![
            "rev-parse"@,
            "--verify"@,
            "--quiet"@,
            head_ref(branch_name@) + "^{commit}"@,
        ]);
        return Progress::Ask(request);
    }
    if text_reply(replies, 0).is_some() {
        return Progress::Done { value: Some(local), used: 1 };
    }
    let remote = join2("refs/remotes/origin/", branch_name);
    if replies.len() == 1 {
        let commit = join2(remote.as_str(), "^{commit}");
        let request = ask_git(&["rev-parse", "--verify", "--quiet", commit.as_str()]);
        assert(request.deep_view()->Git_args =~= seq![
            "rev-parse"@,
            "--verify"@,
            "--quiet"@,
            remote_ref(branch_name@) + "^{commit}"@,
        ]);
        return Progress::Ask(request);
    }
    let value = if text_reply(replies, 1).is_some() {
        Some(remote)
    } else {
        None
    };
    Progress::Done { value, used: 2 }
}

// ---------------------------------------------------------------------------
// The snapshot of the selected branch

/// The branch that `git branch --show-current` names.
pub open spec fn active_branch(replies: Seq<Reply>) -> Option<Seq<char>> {
    match text_at(replies, 0) {
        Some(output) => first_value(output),
        None => None,
    }
}

/// The selected branch, if a name is left of it.
pub open spec fn selected_branch(branch: Option<Seq<char>>) -> Option<Seq<char>> {
    match branch {
        Some(name) => if normalized(name).len() > 0 {
            Some(normalized(name))
        } else {
            None
        },
        None => None,
    }
}

pub open spec fn show_current() -> RequestModel {
    git(seq!["branch"@, "--show-current"@])
}

/// Whether the snapshot is of the working tree: if no branch is selected or if
/// the selected branch is the active one.
pub open spec fn shows_worktree(branch: Option<Seq<char>>, replies: Seq<Reply>) -> bool {
    match selected_branch(branch) {
        Some(name) => active_branch(replies) == Some(name),
        None => true,
    }
}

/// The requests of the snapshot of the selected branch.
pub open spec fn selection_script(
    branch: Option<Seq<char>>,
    base: Option<Seq<char>>,
    replies: Seq<Reply>,
) -> Seq<RequestModel> {
    let later = after(replies, 1);
    seq![show_current()] + (match selected_branch(branch) {
        None => worktree_plan(None, base).script(later),
        Some(name) => if active_branch(replies) == Some(name) {
            worktree_plan(Some(name), base).script(later)
        } else {
            resolve_script(name, later) + (match resolved_ref(name, later) {
                Some(reference) => ref_plan(reference, Some(name), base).script(
                    after(later, resolve_script(name, later).len() as int),
                ),
                None => seq![],
            })
        },
    })
}

/// The message for a branch that the checkout does not have.
pub open spec fn unavailable(name: Seq<char>) -> Seq<char> {
    "Selected branch '"@ + name
        + "' is not available in this local checkout. Fetch the branch, then try again."@
}

/// The snapshot of the selected branch, or the refusal if the checkout does not
/// have it.
pub open spec fn selection_value(
    branch: Option<Seq<char>>,
    base: Option<Seq<char>>,
    replies: Seq<Reply>,
) -> Result<SnapshotModel, Seq<char>> {
    let later = after(replies, 1);
    match selected_branch(branch) {
        None => Ok(worktree_plan(None, base).value(later)),
        Some(name) => if active_branch(replies) == Some(name) {
            Ok(worktree_plan(Some(name), base).value(later))
        } else {
            match resolved_ref(name, later) {
                Some(reference) => Ok(
                    ref_plan(reference, Some(name), base).value(
                        after(later, resolve_script(name, later).len() as int),
                    ),
                ),
                None => Err(unavailable(name)),
            }
        },
    }
}

/// Takes the snapshot of the branch that is selected in a local checkout: of
/// the working tree if it is the active branch, of the reference otherwise.
pub fn snapshot_from_local_selection(
    branch_name: Option<&str>,
    base_branch: Option<&str>,
    replies: &[Reply],
) -> (r: Progress<Result<ProjectRepoSnapshotInfo, String>>)
    ensures
        follows_result(
            r,
            selection_script(branch_name.deep_view(), base_branch.deep_view(), replies@),
            replies@.len(),
            selection_value(branch_name.deep_view(), base_branch.deep_view(), replies@),
        ),
{
    if replies.len() == 0 {
        let request = ask_git(&["branch", "--show-current"]);
        assert(request.deep_view()->Git_args =~= seq!["branch"@, "--show-current"@]);
        return Progress::Ask(request);
    }
    let active = match text_reply(replies, 0) {
        Some(output) => first_output_line(output),
        None => None,
    };
    let later = rest(replies, 1);
    let selected: Option<&str> = match branch_name {
        Some(name) => {
            let normal = normalize_branch_name(name);
            if normal.is_empty() {
                None
            } else {
                Some(normal)
            }
        },
        None => None,
    };
    let name: &str = match selected {
        Some(name) => name,
        None => {
            return match snapshot_from_worktree(None, base_branch, later) {
                Progress::Ask(request) => Progress::Ask(request),
                Progress::Done { value, used } => Progress::Done {
                    value: Ok(value),
                    used: used + 1,
                },
            };
        },
    };
    let is_active = match &active {
        Some(current) => same_text(current.as_str(), name),
        None => false,
    };
    if is_active {
        return match snapshot_from_worktree(Some(name), base_branch, later) {
            Progress::Ask(request) => Progress::Ask(request),
            Progress::Done { value, used } => Progress::Done { value: Ok(value), used: used + 1 },
        };
    }
    let (resolved, n) = match resolve_local_branch_ref(name, later) {
        Progress::Ask(request) => {
            return Progress::Ask(request);
        },
        Progress::Done { value, used } => (value, used),
    };
    match resolved {
        Some(reference) => match snapshot_from_ref(
            reference.as_str(),
            Some(name),
            base_branch,
            rest(later, n),
        ) {
            Progress::Ask(request) => Progress::Ask(request),
            Progress::Done { value, used } => Progress::Done {
                value: Ok(value),
                used: used + n + 1,
            },
        },
        None => {
            let message = join3(
                "Selected branch '",
                name,
                "' is not available in this local checkout. Fetch the branch, then try again.",
            );
            Progress::Done { value: Err(message), used: n + 1 }
        },
    }
}

/// The requests of the snapshot of a project's local checkout.
pub open spec fn local_snapshot_script(
    branch: Option<Seq<char>>,
    base: Option<Seq<char>>,
    repo_path: Option<Seq<char>>,
    replies: Seq<Reply>,
) -> Seq<RequestModel> {
    match (selection(branch), repo_path) {
        (Ok(selected), Some(_)) => selection_script(selected, cleaned(base), replies),
        _ => seq![],
    }
}

/// The snapshot of a project's local checkout: a refusal if the branch name is
/// invalid, nothing if there is no checkout.
pub open spec fn local_snapshot_value(
    branch: Option<Seq<char>>,
    base: Option<Seq<char>>,
    repo_path: Option<Seq<char>>,
    replies: Seq<Reply>,
) -> Result<Option<LocalSnapshotModel>, Seq<char>> {
    match selection(branch) {
        Err(message) => Err(message),
        Ok(selected) => match repo_path {
            None => Ok(None),
            Some(path) => match selection_value(selected, cleaned(base), replies) {
                Ok(snapshot) => Ok(Some(LocalSnapshotModel { path, snapshot })),
                Err(message) => Err(message),
            },
        },
    }
}

/// Takes the snapshot of a project's local checkout, which lies at `repo_path`
/// if there is one.
pub fn get_project_local_repo_snapshot(
    default_branch: Option<String>,
    base_branch: Option<&str>,
    repo_path: Option<&str>,
    replies: &[Reply],
) -> (r: Progress<Result<Option<ProjectLocalRepoSnapshotInfo>, String>>)
    ensures
        follows_result(
            r,
            local_snapshot_script(
                default_branch.deep_view(),
                base_branch.deep_view(),
                repo_path.deep_view(),
                replies@,
            ),
            replies@.len(),
            local_snapshot_value(
                default_branch.deep_view(),
                base_branch.deep_view(),
                repo_path.deep_view(),
                replies@,
            ),
        ),
{
    let selected = match clean_selected_branch(default_branch) {
        Ok(selected) => selected,
        Err(message) => {
            return Progress::Done { value: Err(message), used: 0 };
        },
    };
    let base = clean_branch(base_branch);
    let path = match repo_path {
        Some(path) => path,
        None => {
            return Progress::Done { value: Ok(None), used: 0 };
        },
    };
    match snapshot_from_local_selection(borrow_option(&selected), borrow_option(&base), replies) {
        Progress::Ask(request) => Progress::Ask(request),
        Progress::Done { value, used } => match value {
            Ok(snapshot) => Progress::Done {
                value: Ok(Some(ProjectLocalRepoSnapshotInfo { path: path.to_string(), snapshot })),
                used,
            },
            Err(message) => Progress::Done { value: Err(message), used },
        },
    }
}

// ---------------------------------------------------------------------------
// Laws

proof fn lemma_resolve_step_by_step(name: Seq<char>, replies: Seq<Reply>, n: nat)
    requires
        n <= replies.len(),
    ensures
        agree_until(
            resolve_script(name, replies.take(n as int)),
            resolve_script(name, replies),
            n,
        ),
        n >= resolve_script(name, replies).len() ==> resolve_script(name, replies.take(n as int))
            == resolve_script(name, replies) && resolved_ref(name, replies.take(n as int))
            == resolved_ref(name, replies),
{
    if n > 0 {
        lemma_text_at_take(replies, n as int, 0);
        if n > 1 {
            lemma_text_at_take(replies, n as int, 1);
        }
    } else {
        assert(first_n(resolve_script(name, replies.take(0)), 1) =~= first_n(
            resolve_script(name, replies),
            1,
        ));
    }
}

/// The requests for a branch that is not the active one.
spec fn elsewhere_script(
    name: Seq<char>,
    base: Option<Seq<char>>,
    later: Seq<Reply>,
) -> Seq<RequestModel> {
    resolve_script(name, later) + (match resolved_ref(name, later) {
        Some(reference) => ref_plan(reference, Some(name), base).script(
            after(later, resolve_script(name, later).len() as int),
        ),
        None => seq![],
    })
}

proof fn lemma_elsewhere_step_by_step(
    name: Seq<char>,
    base: Option<Seq<char>>,
    later: Seq<Reply>,
    m: nat,
)
    requires
        m <= later.len(),
    ensures
        agree_until(
            elsewhere_script(name, base, later.take(m as int)),
            elsewhere_script(name, base, later),
            m,
        ),
        elsewhere_script(name, base, later).len() <= 9,
{
    let so_far = later.take(m as int);
    let resolve = resolve_script(name, later);
    let k = resolve.len();
    let last = after(later, k as int);
    lemma_resolve_step_by_step(name, later, m);
    if let Some(reference) = resolved_ref(name, later) {
        law_snapshot_asks_step_by_step(ref_plan(reference, Some(name), base), last, 0);
    }
    if m >= k {
        lemma_after_take(later, m as int, k as int);
        if let Some(reference) = resolved_ref(name, later) {
            let p = ref_plan(reference, Some(name), base);
            let q = (m - k) as nat;
            law_snapshot_asks_step_by_step(p, last, q);
            lemma_join_step_by_step(resolve, p.script(last.take(q as int)), p.script(last), m);
        }
    } else {
        let early = resolve_script(name, so_far);
        assert(first_n(early, m + 1).len() == m + 1);
        assert(first_n(elsewhere_script(name, base, so_far), m + 1) =~= first_n(early, m + 1));
        assert(first_n(elsewhere_script(name, base, later), m + 1) =~= first_n(resolve, m + 1));
    }
}

/// The snapshot of the selected branch is taken step by step: what is asked
/// next depends on the replies so far only, and at most ten requests are made.
pub proof fn law_selection_asks_step_by_step(
    branch: Option<Seq<char>>,
    base: Option<Seq<char>>,
    replies: Seq<Reply>,
    n: nat,
)
    requires
        n <= replies.len(),
    ensures
        agree_until(
            selection_script(branch, base, replies.take(n as int)),
            selection_script(branch, base, replies),
            n,
        ),
        selection_script(branch, base, replies).len() <= 10,
{
    let so_far = replies.take(n as int);
    let later = after(replies, 1);
    let head = seq![show_current()];
    let m = if n > 0 {
        (n - 1) as nat
    } else {
        0
    };
    law_snapshot_asks_step_by_step(worktree_plan(selected_branch(branch), base), later, m);
    if let Some(name) = selected_branch(branch) {
        lemma_elsewhere_step_by_step(name, base, later, m);
        assert(selection_script(branch, base, replies) == head + (if active_branch(replies) == Some(
            name,
        ) {
            worktree_plan(Some(name), base).script(later)
        } else {
            elsewhere_script(name, base, later)
        }));
    }
    if n == 0 {
        assert(first_n(selection_script(branch, base, so_far), 1) =~= head);
        assert(first_n(selection_script(branch, base, replies), 1) =~= head);
    } else {
        lemma_text_at_take(replies, n as int, 0);
        lemma_after_take(replies, n as int, 1);
        assert(after(so_far, 1) == later.take(m as int));
        assert(active_branch(so_far) == active_branch(replies));
        if shows_worktree(branch, replies) {
            let p = worktree_plan(selected_branch(branch), base);
            lemma_join_step_by_step(head, p.script(later.take(m as int)), p.script(later), n);
        } else {
            let name = selected_branch(branch)->0;
            lemma_join_step_by_step(
                head,
                elsewhere_script(name, base, later.take(m as int)),
                elsewhere_script(name, base, later),
                n,
            );
        }
    }
}

/// Looking at a local checkout changes nothing, whichever branch is selected:
/// every request only reads. In particular nothing is checked out.
pub proof fn law_local_snapshot_reads_only(
    branch: Option<Seq<char>>,
    base: Option<Seq<char>>,
    replies: Seq<Reply>,
    i: int,
)
    requires
        0 <= i < selection_script(branch, base, replies).len(),
    ensures
        reads_only(selection_script(branch, base, replies)[i]),
{
    let later = after(replies, 1);
    let script = selection_script(branch, base, replies);
    reveal_strlit("HEAD");
    reveal_strlit("refs/heads/");
    reveal_strlit("refs/remotes/origin/");
    assert("HEAD"@[0] == 'H');
    assert forall|name: Seq<char>| (#[trigger] head_ref(name))[0] == 'r' by {}
    assert forall|name: Seq<char>| (#[trigger] remote_ref(name))[0] == 'r' by {}
    if i > 0 {
        match selected_branch(branch) {
            None => {
                law_snapshot_reads_only(worktree_plan(None, base), later, i - 1);
            },
            Some(name) => {
                if active_branch(replies) == Some(name) {
                    law_snapshot_reads_only(worktree_plan(Some(name), base), later, i - 1);
                } else {
                    let resolve = resolve_script(name, later);
                    if i - 1 < resolve.len() {
                        assert(script[i] == resolve[i - 1]);
                        lemma_verify_reads_only(head_ref(name) + "^{commit}"@);
                        lemma_verify_reads_only(remote_ref(name) + "^{commit}"@);
                    } else {
                        let p = ref_plan(resolved_ref(name, later)->0, Some(name), base);
                        let last = after(later, resolve.len() as int);
                        assert(script[i] == p.script(last)[i - 1 - resolve.len()]);
                        law_snapshot_reads_only(p, last, i - 1 - resolve.len());
                    }
                }
            },
        }
    }
}

/// If another branch than the active one is selected, the working tree is not
/// looked at: its files never show up as those of the selected branch.
pub proof fn law_other_branch_leaves_worktree_alone(
    branch: Option<Seq<char>>,
    base: Option<Seq<char>>,
    replies: Seq<Reply>,
    i: int,
)
    requires
        !shows_worktree(branch, replies),
        0 <= i < selection_script(branch, base, replies).len(),
    ensures
        !looks_at_worktree(selection_script(branch, base, replies)[i]),
{
    reveal_strlit("ls-files");
    reveal_strlit("branch");
    reveal_strlit("rev-parse");
    assert("ls-files"@.len() == 8);
    assert("branch"@.len() == 6);
    assert("rev-parse"@.len() == 9);
    let later = after(replies, 1);
    let script = selection_script(branch, base, replies);
    let name = selected_branch(branch)->0;
    let resolve = resolve_script(name, later);
    if i == 0 {
        assert(script[i] == show_current());
    } else if i - 1 < resolve.len() {
        assert(script[i] == resolve[i - 1]);
    } else {
        let p = ref_plan(resolved_ref(name, later)->0, Some(name), base);
        let last = after(later, resolve.len() as int);
        assert(script[i] == p.script(last)[i - 1 - resolve.len()]);
        law_ref_snapshot_leaves_worktree_alone(p, last, i - 1 - resolve.len());
    }
}

/// A selected branch that the checkout does not have is refused, with its name
/// in the message; it does not fall back to what is checked out. This is the
/// only way in which the snapshot of a selection fails.
pub proof fn law_missing_selection_is_refused(
    branch: Option<Seq<char>>,
    base: Option<Seq<char>>,
    replies: Seq<Reply>,
)
    ensures
        selection_value(branch, base, replies) is Err <==> !shows_worktree(branch, replies)
            && text_at(replies, 1) is None && text_at(replies, 2) is None,
        selection_value(branch, base, replies) matches Err(message) ==> message == unavailable(
            selected_branch(branch)->0,
        ),
{
    let later = after(replies, 1);
    if replies.len() > 0 {
        assert(text_at(later, 0) == text_at(replies, 1));
        assert(text_at(later, 1) == text_at(replies, 2));
    }
}

/// An invalid branch name is refused before anything is asked.
pub proof fn law_invalid_branch_asks_nothing(
    branch: Seq<char>,
    base: Option<Seq<char>>,
    repo_path: Option<Seq<char>>,
    replies: Seq<Reply>,
)
    requires
        selection(Some(branch)) is Err,
    ensures
        local_snapshot_script(Some(branch), base, repo_path, replies).len() == 0,
        local_snapshot_value(Some(branch), base, repo_path, replies) == Err::<
            Option<LocalSnapshotModel>,
            Seq<char>,
        >("The selected branch name is invalid."@),
{
}

/// The snapshot of a selected branch is of that branch, spelled out. If the branch
/// is checked out it is of the working tree; otherwise it is of the local branch
/// of that name or, if there is none, of the remote one; and if there is
/// neither, it is refused. Without a name it is of the working tree.
pub proof fn law_selected_branch_is_shown(
    branch: Option<Seq<char>>,
    base: Option<Seq<char>>,
    replies: Seq<Reply>,
)
    requires
        replies.len() > 0,
    ensures
        ({
            let name = match branch {
                Some(text) => normalized(text),
                None => seq![],
            };
            let active = match text_at(replies, 0) {
                Some(output) => first_value(output),
                None => None,
            };
            let value = selection_value(branch, base, replies);
            let worktree = |b: Option<Seq<char>>|
                Plan { source: Source::Worktree, target: "HEAD"@, branch: b, base };
            let reference = |r: Seq<char>|
                Plan { source: Source::Reference, target: r, branch: Some(name), base };
            if name.len() == 0 {
                value == Ok::<SnapshotModel, Seq<char>>(worktree(None).value(replies.skip(1)))
            } else if active == Some(name) {
                value == Ok::<SnapshotModel, Seq<char>>(worktree(Some(name)).value(replies.skip(1)))
            } else if text_at(replies, 1) is Some {
                value == Ok::<SnapshotModel, Seq<char>>(
                    reference("refs/heads/"@ + name).value(replies.skip(2)),
                )
            } else if text_at(replies, 2) is Some {
                value == Ok::<SnapshotModel, Seq<char>>(
                    reference("refs/remotes/origin/"@ + name).value(replies.skip(3)),
                )
            } else {
                value == Err::<SnapshotModel, Seq<char>>(
                    "Selected branch '"@ + name
                        + "' is not available in this local checkout. Fetch the branch, then try again."@,
                )
            }
        }),
{
    let later = after(replies, 1);
    assert(later == replies.skip(1));
    assert(text_at(later, 0) == text_at(replies, 1));
    assert(text_at(later, 1) == text_at(replies, 2));
    if replies.len() >= 2 {
        assert(later.skip(1) =~= replies.skip(2));
    }
    if replies.len() >= 3 {
        assert(later.skip(2) =~= replies.skip(3));
    }
}

/// The checkout is asked which branch it is on and, of another branch that is
/// selected, whether it has the local one and then the remote one.
pub proof fn law_selection_looks_for_the_branch(
    branch: Option<Seq<char>>,
    base: Option<Seq<char>>,
    replies: Seq<Reply>,
)
    requires
        replies.len() > 0,
    ensures
        ({
            let name = match branch {
                Some(text) => normalized(text),
                None => seq![],
            };
            let active = match text_at(replies, 0) {
                Some(output) => first_value(output),
                None => None,
            };
            let s = selection_script(branch, base, replies);
            &&& s.len() > 0 && s[0] == git(seq!["branch"@, "--show-current"@])
            &&& name.len() > 0 && active != Some(name) ==> {
                &&& s.len() > 1 && s[1] == git(
                    seq![
                        "rev-parse"@,
                        "--verify"@,
                        "--quiet"@,
                        "refs/heads/"@ + name + "^{commit}"@,
                    ],
                )
                &&& text_at(replies, 1) is None ==> s.len() > 2 && s[2] == git(
                    seq![
                        "rev-parse"@,
                        "--verify"@,
                        "--quiet"@,
                        "refs/remotes/origin/"@ + name + "^{commit}"@,
                    ],
                )
                &&& text_at(replies, 1) is None && text_at(replies, 2) is None ==> s.len() == 3
                &&& text_at(replies, 1) is Some ==> s.skip(2) == (Plan {
                    source: Source::Reference,
                    target: "refs/heads/"@ + name,
                    branch: Some(name),
                    base,
                }).script(replies.skip(2))
                &&& text_at(replies, 1) is None && text_at(replies, 2) is Some ==> s.skip(3)
                    == (Plan {
                    source: Source::Reference,
                    target: "refs/remotes/origin/"@ + name,
                    branch: Some(name),
                    base,
                }).script(replies.skip(3))
            }
            &&& name.len() == 0 || active == Some(name) ==> s.skip(1) == (Plan {
                source: Source::Worktree,
                target: "HEAD"@,
                branch: if name.len() == 0 {
                    None
                } else {
                    Some(name)
                },
                base,
            }).script(replies.skip(1))
        }),
{
    let later = after(replies, 1);
    let s = selection_script(branch, base, replies);
    assert(later == replies.skip(1));
    assert(text_at(later, 0) == text_at(replies, 1));
    assert(text_at(later, 1) == text_at(replies, 2));
    if replies.len() >= 2 {
        assert(later.skip(1) =~= replies.skip(2));
    }
    if replies.len() >= 3 {
        assert(later.skip(2) =~= replies.skip(3));
    }
    match selected_branch(branch) {
        None => {
            assert(s.skip(1) =~= worktree_plan(None, base).script(later));
        },
        Some(name) => {
            if active_branch(replies) == Some(name) {
                assert(s.skip(1) =~= worktree_plan(Some(name), base).script(later));
            } else {
                let resolve = resolve_script(name, later);
                assert(s[1] == resolve[0]);
                if text_at(later, 0) is None {
                    assert(s[2] == resolve[1]);
                }
                if let Some(reference) = resolved_ref(name, later) {
                    let rest = after(later, resolve.len() as int);
                    let p = ref_plan(reference, Some(name), base);
                    assert(s.skip(1 + resolve.len() as int) =~= p.script(rest));
                }
            }
        },
    }
}

/// The snapshot of a project's checkout has the path of the checkout and is the
/// snapshot of the selection, with names that are cleaned; there is none without
/// a checkout.
pub proof fn law_local_snapshot_is_of_the_checkout(
    branch: Option<Seq<char>>,
    base: Option<Seq<char>>,
    path: Seq<char>,
    replies: Seq<Reply>,
)
    requires
        selection(branch) is Ok,
    ensures
        local_snapshot_value(branch, base, None, replies) == Ok::<
            Option<LocalSnapshotModel>,
            Seq<char>,
        >(None),
        local_snapshot_script(branch, base, None, replies).len() == 0,
        local_snapshot_script(branch, base, Some(path), replies) == selection_script(
            selection(branch)->Ok_0,
            cleaned(base),
            replies,
        ),
        match selection_value(selection(branch)->Ok_0, cleaned(base), replies) {
            Ok(snapshot) => local_snapshot_value(branch, base, Some(path), replies) == Ok::<
                Option<LocalSnapshotModel>,
                Seq<char>,
            >(Some(LocalSnapshotModel { path, snapshot })),
            Err(message) => local_snapshot_value(branch, base, Some(path), replies) == Err::<
                Option<LocalSnapshotModel>,
                Seq<char>,
            >(message),
        },
{
}

} // verus!
