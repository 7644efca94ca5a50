use project_git::exchange::{Progress, Reply, Request};
use project_git::model::ProjectRepoSyncStatusInfo;
use project_git::sync::{
    compare_local_remote_status, get_project_repo_sync_status, parse_branches,
    pull_block_reason, pull_project_local_repository, push_block_reason, require_local_checkout,
    Standing, SyncQuery,
};

const URL: &str = "https://relay/git/p";
const LOCAL: &str = "aaaaaaaaaaaaaaaaaaaa";
const REMOTE: &str = "bbbbbbbbbbbbbbbbbbbb";

/// A checkout and its remote, as git describes them.
struct World {
    current: &'static str,
    branches: &'static str,
    origin: &'static str,
    local_head: Option<&'static str>,
    remote_head: Option<&'static str>,
    remote_heads: Option<&'static str>,
    status: &'static str,
    ahead: &'static str,
    behind: &'static str,
}

fn world() -> World {
    World {
        current: "main\n",
        branches: "main\nfeature\n",
        origin: "https://relay/git/p\n",
        local_head: Some(LOCAL),
        remote_head: Some(REMOTE),
        remote_heads: Some("bbbb\trefs/heads/main\n"),
        status: "",
        ahead: "0\n",
        behind: "0\n",
    }
}

fn reply(output: Option<&str>) -> Reply {
    match output {
        Some(text) => Reply::Text(Ok(text.to_string())),
        None => Reply::Text(Err("fatal".to_string())),
    }
}

fn answer(world: &World, line: &str) -> Reply {
    let mut words = line.split(' ');
    match words.next().unwrap() {
        "branch" => reply(Some(world.current)),
        "for-each-ref" => reply(Some(world.branches)),
        "remote" if line.contains("get-url") => reply(Some(world.origin)),
        "remote" => reply(Some("")),
        "fetch" => reply(None),
        "rev-parse" if line.ends_with("HEAD") => reply(world.local_head),
        "rev-parse" => reply(world.remote_head),
        "ls-remote" => reply(world.remote_heads),
        "merge-base" => reply(Some("cccc\n")),
        "status" => reply(Some(world.status)),
        "rev-list" if line.ends_with("..HEAD") => reply(Some(world.ahead)),
        "rev-list" => reply(Some(world.behind)),
        "pull" => reply(Some("")),
        other => panic!("unexpected {other}"),
    }
}

fn describe(request: &Request) -> String {
    match request {
        Request::Git { args, in_repo: true } => args.join(" "),
        other => panic!("unexpected {:?}", other),
    }
}

fn drive<T>(world: &World, step: impl Fn(&[Reply]) -> Progress<T>) -> (T, Vec<String>) {
    let mut replies: Vec<Reply> = Vec::new();
    let mut asked: Vec<String> = Vec::new();
    loop {
        match step(&replies) {
            Progress::Ask(request) => {
                let line = describe(&request);
                replies.push(answer(world, &line));
                asked.push(line);
            }
            Progress::Done { value, used } => {
                assert_eq!(used, replies.len());
                return (value, asked);
            }
        }
    }
}

fn compare(
    world: &World,
    branch: Option<&str>,
    base: Option<&str>,
) -> (ProjectRepoSyncStatusInfo, Vec<String>) {
    drive(world, |replies| {
        let query =
            SyncQuery { repo_path: "/repos/p", clone_url: URL, branch_name: branch, base_branch: base };
        compare_local_remote_status(&query, replies)
    })
}

#[test]
fn a_comparison_asks_git_in_order() {
    let (status, asked) = compare(&world(), Some("main"), Some("develop"));
    assert_eq!(
        asked,
        vec![
            "branch --show-current",
            "for-each-ref --count=200 --format=%(refname:short) refs/heads/",
            "remote get-url origin",
            "fetch --quiet --depth=100 --end-of-options origin main develop",
            "rev-parse HEAD",
            "rev-parse --verify --quiet refs/remotes/origin/main",
            "ls-remote --heads --end-of-options origin",
            "merge-base HEAD origin/develop",
            "status --porcelain",
            "rev-list --count origin/main..HEAD",
            "rev-list --count HEAD..origin/main",
        ]
    );
    assert_eq!(status.local_path.as_deref(), Some("/repos/p"));
    assert_eq!(status.local_branch.as_deref(), Some("main"));
    assert_eq!(status.local_branches, vec!["main", "feature"]);
    assert_eq!(status.local_head.as_deref(), Some(LOCAL));
    assert_eq!(status.local_short_head.as_deref(), Some("aaaaaaa"));
    assert_eq!(status.remote_branch.as_deref(), Some("main"));
    assert_eq!(status.remote_head.as_deref(), Some(REMOTE));
    assert_eq!(status.remote_short_head.as_deref(), Some("bbbbbbb"));
    assert_eq!(status.merge_base.as_deref(), Some("cccc"));
    assert_eq!((status.ahead_count, status.behind_count), (0, 0));
    assert!(!status.can_push && !status.can_pull);
    assert_eq!(status.push_block_reason.as_deref(), Some("Local branch is already pushed."));
    assert_eq!(status.pull_block_reason.as_deref(), Some("Local branch is up to date."));
}

#[test]
fn the_origin_is_changed_only_if_it_differs() {
    let (_, asked) = compare(&world(), None, None);
    assert!(!asked.iter().any(|line| line.contains("set-url")));
    assert_eq!(asked.len(), 10);
    let other = World { origin: "https://elsewhere/p\n", ..world() };
    let (_, asked) = compare(&other, None, Some("develop"));
    assert_eq!(asked[3], "remote set-url origin https://relay/git/p");
    assert!(asked[4].starts_with("fetch "));
    assert_eq!(asked.len(), 12);
}

#[test]
fn the_branch_is_the_asked_one_or_the_current_one_or_main() {
    let fetched = |current: &'static str, branch: Option<&str>, base: Option<&str>| {
        let (status, asked) = compare(&World { current, ..world() }, branch, base);
        let line = asked.into_iter().find(|line| line.starts_with("fetch ")).unwrap();
        let names = line.split(" origin ").nth(1).unwrap().to_string();
        assert_eq!(names.split(' ').next(), status.remote_branch.as_deref());
        names
    };
    assert_eq!(fetched("main\n", Some("topic"), None), "topic");
    assert_eq!(fetched("work\n", Some("--bad"), None), "work");
    assert_eq!(fetched("--upload-pack=x\n", None, None), "main");
    assert_eq!(fetched("\n", None, Some("main")), "main");
    assert_eq!(fetched("work\n", None, Some("main")), "work main");
    assert_eq!(fetched("work\n", None, Some("-x")), "work");
}

#[test]
fn unsafe_branch_names_are_not_listed() {
    assert_eq!(parse_branches("main\n-bad\n feature/x \n\na b\n"), vec!["main", "feature/x"]);
    assert!(parse_branches("").is_empty());
}

#[test]
fn counts_come_from_git_or_from_the_head_alone() {
    let (status, _) = compare(&World { ahead: "3\n", behind: "4\n", ..world() }, None, None);
    assert_eq!((status.ahead_count, status.behind_count), (3, 4));
    let (status, asked) = compare(&World { remote_head: None, ..world() }, None, None);
    assert_eq!((status.ahead_count, status.behind_count), (1, 0));
    assert!(!asked.iter().any(|line| line.starts_with("rev-list")));
    let (status, _) =
        compare(&World { remote_head: None, local_head: None, ..world() }, None, None);
    assert_eq!((status.ahead_count, status.behind_count), (0, 0));
    assert_eq!(status.local_short_head, None);
}

#[test]
fn a_first_publish_needs_a_remote_without_branches() {
    let base = World { current: "master\n", remote_head: None, ..world() };
    let (status, _) = compare(&World { remote_heads: Some("\n"), ..base }, Some("main"), None);
    assert!(status.can_push);
    assert_eq!(status.push_block_reason, None);
    let base = World { current: "master\n", remote_head: None, ..world() };
    let (status, _) = compare(&World { remote_heads: None, ..base }, Some("main"), None);
    assert!(!status.can_push);
    assert_eq!(
        status.push_block_reason.as_deref(),
        Some("Local checkout is on a different branch than main.")
    );
    let base = World { current: "master\n", remote_head: None, ..world() };
    let (status, _) = compare(&base, Some("main"), None);
    assert!(!status.can_push);
}

fn clear() -> Standing {
    Standing {
        has_local_head: true,
        has_remote_head: true,
        on_branch: true,
        first_publish: false,
        uncommitted: false,
        untracked: false,
        ahead: 1,
        behind: 0,
    }
}

#[test]
fn every_reason_against_a_push() {
    let reason = |s: Standing| push_block_reason(&s, "topic");
    assert_eq!(reason(clear()), None);
    assert_eq!(
        reason(Standing { has_local_head: false, ..clear() }).as_deref(),
        Some("No local commits to push.")
    );
    assert_eq!(
        reason(Standing { on_branch: false, ..clear() }).as_deref(),
        Some("Local checkout is on a different branch than topic.")
    );
    assert_eq!(reason(Standing { on_branch: false, first_publish: true, ..clear() }), None);
    for s in [Standing { uncommitted: true, ..clear() }, Standing { untracked: true, ..clear() }] {
        assert_eq!(
            reason(s).as_deref(),
            Some("Commit or discard local changes before pushing.")
        );
    }
    assert_eq!(
        reason(Standing { behind: 1, ..clear() }).as_deref(),
        Some("Pull or reconcile remote commits before pushing.")
    );
    assert_eq!(
        reason(Standing { ahead: 0, ..clear() }).as_deref(),
        Some("Local branch is already pushed.")
    );
}

#[test]
fn every_reason_against_a_pull() {
    let open = || Standing { ahead: 0, behind: 2, ..clear() };
    let reason = |s: Standing| pull_block_reason(&s, "topic");
    assert_eq!(reason(open()), None);
    assert_eq!(reason(Standing { untracked: true, ..open() }), None);
    assert_eq!(
        reason(Standing { has_local_head: false, ..open() }).as_deref(),
        Some("No local commits yet \u{2014} clone instead of pulling.")
    );
    assert_eq!(
        reason(Standing { has_remote_head: false, ..open() }).as_deref(),
        Some("Remote branch not found.")
    );
    assert_eq!(
        reason(Standing { behind: 0, ..open() }).as_deref(),
        Some("Local branch is up to date.")
    );
    assert_eq!(
        reason(Standing { on_branch: false, ..open() }).as_deref(),
        Some("Local checkout is on a different branch than topic.")
    );
    assert_eq!(
        reason(Standing { uncommitted: true, ..open() }).as_deref(),
        Some("Commit or stash local changes before pulling.")
    );
    assert_eq!(
        reason(Standing { ahead: 1, ..open() }).as_deref(),
        Some("Local and remote have diverged \u{2014} reconcile in a terminal.")
    );
}

#[test]
fn push_and_pull_are_never_open_together() {
    for ahead in ["0", "1", "5"] {
        for behind in ["0", "2"] {
            for status in ["", " M a\n", "?? b\n"] {
                let (s, _) = compare(&World { ahead, behind, status, ..world() }, None, None);
                assert!(!(s.can_push && s.can_pull));
                assert_eq!(s.can_push, s.push_block_reason.is_none());
                assert_eq!(s.can_pull, s.pull_block_reason.is_none());
                assert_eq!(s.can_push, ahead != "0" && behind == "0" && status.is_empty());
                assert_eq!(s.can_pull, ahead == "0" && behind != "0" && !status.starts_with(" M"));
                assert_eq!(s.has_uncommitted_changes, status.starts_with(" M"));
                assert_eq!(s.has_untracked_files, status.starts_with("??"));
            }
        }
    }
}

#[test]
fn a_project_without_a_checkout_has_no_status() {
    let (status, asked) = drive(&world(), |replies| {
        get_project_repo_sync_status(None, URL, Some(" main "), None, replies)
    });
    assert!(asked.is_empty());
    assert_eq!(status.local_path, None);
    assert_eq!(status.remote_branch.as_deref(), Some("main"));
    assert!(!status.can_push && !status.can_pull);
    assert_eq!(status.push_block_reason.as_deref(), Some("No local checkout found."));
    assert_eq!(status.pull_block_reason.as_deref(), Some("No local checkout found."));
    let (status, _) = drive(&world(), |replies| {
        get_project_repo_sync_status(None, URL, Some("-main"), None, replies)
    });
    assert_eq!(status.remote_branch, None);
    let (status, _) = drive(&world(), |replies| {
        get_project_repo_sync_status(Some("/repos/p"), URL, None, None, replies)
    });
    assert_eq!(status.local_path.as_deref(), Some("/repos/p"));
    assert_eq!(require_local_checkout::<&str>(None), Err("No local checkout found.".to_string()));
    assert_eq!(require_local_checkout(Some("/p")), Ok("/p"));
}

#[test]
fn a_pull_runs_only_when_it_is_open() {
    let pull = |world: &World| {
        drive(world, |replies| {
            pull_project_local_repository(Some("/repos/p"), URL, Some("main"), replies)
        })
    };
    let (result, asked) = pull(&World { behind: "2\n", ..world() });
    let result = result.expect("pulled");
    assert!(result.pulled);
    assert_eq!(result.message, "Pulled main from remote.");
    assert_eq!(asked.last().unwrap(), "pull --ff-only --end-of-options origin main");
    let (result, asked) = pull(&World { behind: "2\n", ahead: "1\n", ..world() });
    assert_eq!(
        result.expect_err("diverged"),
        "Local and remote have diverged \u{2014} reconcile in a terminal."
    );
    assert!(!asked.iter().any(|line| line.starts_with("pull")));
    let (result, asked) = drive(&world(), |replies| {
        pull_project_local_repository(None, URL, Some("main"), replies)
    });
    assert_eq!(result.expect_err("no checkout"), "No local checkout found.");
    assert!(asked.is_empty());
}

#[test]
fn a_pull_that_fails_reports_what_git_said() {
    let world = World { behind: "2\n", ..world() };
    let mut replies: Vec<Reply> = Vec::new();
    let result = loop {
        match pull_project_local_repository(Some("/repos/p"), URL, None, &replies) {
            Progress::Ask(request) => {
                let line = describe(&request);
                replies.push(if line.starts_with("pull") {
                    Reply::Text(Err("not possible to fast-forward".to_string()))
                } else {
                    answer(&world, &line)
                });
            }
            Progress::Done { value, used } => {
                assert_eq!(used, replies.len());
                break value;
            }
        }
    };
    assert_eq!(result.expect_err("failed"), "not possible to fast-forward");
}
