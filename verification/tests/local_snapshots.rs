use project_git::exchange::{FileProbe, PreviewProbe, Progress, Reply, Request};
use project_git::local::{
    get_project_local_repo_snapshot, resolve_local_branch_ref, snapshot_from_local_selection,
};
use project_git::model::ProjectRepoSnapshotInfo;
use project_git::snapshot::{
    branch_activity_range, snapshot_from_ref, snapshot_from_repo, snapshot_from_worktree,
};

const COMMIT: &str = "--format=%H%x00%h%x00%an%x00%ae%x00%at%x00%s";
const AUTHOR: &str = "--format=%an%x00%ae%x00%at";
const MAIN: &str = "1111111111111111111111111111111111111111";
const FEATURE: &str = "2222222222222222222222222222222222222222";

/// What a request asks for, in one line.
fn describe(request: &Request) -> String {
    match request {
        Request::Git { args, in_repo } => {
            assert!(*in_repo);
            args.join(" ")
        }
        Request::GitWithInput { args, input } => format!("{} <<{}", args.join(" "), input),
        Request::Previews { .. } => "previews".to_string(),
        Request::Files { .. } => "files".to_string(),
    }
}

/// Carries out the requests of `step` until it is done, and gives its value and
/// what was asked.
fn drive<T>(
    step: impl Fn(&[Reply]) -> Progress<T>,
    answer: impl Fn(&str, &Request) -> Reply,
) -> (T, Vec<String>) {
    let mut replies: Vec<Reply> = Vec::new();
    let mut asked: Vec<String> = Vec::new();
    loop {
        match step(&replies) {
            Progress::Ask(request) => {
                let line = describe(&request);
                replies.push(answer(&line, &request));
                asked.push(line);
            }
            Progress::Done { value, used } => {
                assert_eq!(used, replies.len());
                return (value, asked);
            }
        }
    }
}

fn text(output: &str) -> Reply {
    Reply::Text(Ok(output.to_string()))
}

fn failure(message: &str) -> Reply {
    Reply::Text(Err(message.to_string()))
}

/// A file of the repository that was read.
fn read(content: &str) -> PreviewProbe {
    let root = vec![b"/".to_vec(), b"repo".to_vec()];
    let mut path = root.clone();
    path.push(b"file".to_vec());
    PreviewProbe::Resolved { path, root, content: Some(content.as_bytes().to_vec()) }
}

fn commit_line(hash: &str, time: i64, subject: &str) -> String {
    format!("{hash}\0{}\0Buzz Test\0test@example.com\0{time}\0{subject}\n", &hash[..7])
}

/// A checkout with the branches `main` and `feature`. `feature` is checked out,
/// with a change to README.md that is not committed and an untracked file.
fn checkout(line: &str, request: &Request) -> Reply {
    let main = commit_line(MAIN, 100, "Main commit");
    let feature = commit_line(FEATURE, 200, "Feature commit");
    let author = "Buzz Test\0test@example.com\0";
    if let Request::Files { paths, limit } = request {
        assert_eq!(*limit, 250);
        let probes = paths
            .iter()
            .map(|path| {
                let (content, modified) = match path.as_str() {
                    "README.md" => ("feature worktree draft\n", 300),
                    "FEATURE.md" => ("feature only\n", 200),
                    "DRAFT.md" => ("untracked draft\n", 301),
                    other => panic!("unexpected path {other}"),
                };
                FileProbe::File {
                    size: content.len() as u64,
                    modified: Some(modified),
                    preview: read(content),
                }
            })
            .collect();
        return Reply::Files(probes);
    }
    match line.replace(COMMIT, "COMMIT").replace(AUTHOR, "AUTHOR").as_str() {
        "branch --show-current" => text("feature\n"),
        "rev-parse --verify --quiet refs/heads/main^{commit}" => text(MAIN),
        "rev-parse --verify --quiet refs/heads/feature^{commit}" => text(FEATURE),
        "log -1 COMMIT refs/heads/main" => text(&main),
        "log --max-count=50 COMMIT refs/heads/main" => text(&main),
        "log AUTHOR refs/heads/main" => text(&format!("{author}100\n")),
        "log COMMIT --name-only --diff-filter=ACMRT refs/heads/main --" => {
            text(&format!("{main}\nREADME.md\n"))
        }
        "ls-tree -r --long refs/heads/main" => text("100644 blob aaaa      12\tREADME.md\n"),
        "cat-file --batch <<aaaa\n" => Reply::Bytes(Ok(b"aaaa blob 12\nmain branch\n\n".to_vec())),
        "log -1 COMMIT" => text(&feature),
        "log --max-count=50 COMMIT HEAD" => text(&format!("{feature}{main}")),
        "log AUTHOR HEAD" => text(&format!("{author}200\n{author}100\n")),
        "log COMMIT --name-only --diff-filter=ACMRT --" => {
            text(&format!("{feature}\nFEATURE.md\nREADME.md\n{main}\nREADME.md\n"))
        }
        "ls-files --cached --others --exclude-standard -z" => {
            text("FEATURE.md\0README.md\0DRAFT.md\0")
        }
        _ => failure("fatal: not found"),
    }
}

fn preview<'a>(snapshot: &'a ProjectRepoSnapshotInfo, path: &str) -> Option<&'a str> {
    snapshot
        .files
        .iter()
        .find(|file| file.path == path)
        .and_then(|file| file.preview_content.as_deref())
}

#[test]
fn local_snapshot_honors_non_checkout_branch_without_mutating_worktree() {
    let (main_snapshot, asked) = drive(
        |replies| snapshot_from_local_selection(Some("main"), Some("main"), replies),
        checkout,
    );
    let main_snapshot = main_snapshot.expect("snapshot selected main");
    assert_eq!(
        main_snapshot.latest_commit.as_ref().map(|commit| commit.hash.as_str()),
        Some(MAIN)
    );
    assert_eq!(preview(&main_snapshot, "README.md"), Some("main branch\n"));
    assert!(!main_snapshot.files.iter().any(|file| file.path == "FEATURE.md"));
    assert!(!main_snapshot.files.iter().any(|file| file.path == "DRAFT.md"));
    assert_eq!(main_snapshot.commits.len(), 1);
    assert_eq!(main_snapshot.contributors[0].commit_count, 1);
    assert_eq!(
        asked,
        vec![
            "branch --show-current".to_string(),
            "rev-parse --verify --quiet refs/heads/main^{commit}".to_string(),
            format!("log -1 {COMMIT} refs/heads/main"),
            format!("log --max-count=50 {COMMIT} refs/heads/main"),
            format!("log {AUTHOR} refs/heads/main"),
            format!("log {COMMIT} --name-only --diff-filter=ACMRT refs/heads/main --"),
            "ls-tree -r --long refs/heads/main".to_string(),
            "cat-file --batch <<aaaa\n".to_string(),
        ]
    );

    let (feature_snapshot, asked) = drive(
        |replies| snapshot_from_local_selection(Some("feature"), Some("main"), replies),
        checkout,
    );
    let feature_snapshot = feature_snapshot.expect("snapshot active feature");
    assert_eq!(
        feature_snapshot.latest_commit.as_ref().map(|commit| commit.hash.as_str()),
        Some(FEATURE)
    );
    assert_eq!(preview(&feature_snapshot, "README.md"), Some("feature worktree draft\n"));
    assert_eq!(preview(&feature_snapshot, "DRAFT.md"), Some("untracked draft\n"));
    let draft = feature_snapshot.files.iter().find(|f| f.path == "DRAFT.md").unwrap();
    assert_eq!(draft.last_changed_at, Some(301));
    assert!(draft.latest_commit.is_none());
    let readme = feature_snapshot.files.iter().find(|f| f.path == "README.md").unwrap();
    assert_eq!(readme.last_changed_at, Some(200));
    assert_eq!(
        asked,
        vec![
            "branch --show-current".to_string(),
            format!("log -1 {COMMIT}"),
            "rev-parse --verify --quiet refs/remotes/origin/main".to_string(),
            format!("log --max-count=50 {COMMIT} HEAD"),
            format!("log {AUTHOR} HEAD"),
            format!("log {COMMIT} --name-only --diff-filter=ACMRT --"),
            "ls-files --cached --others --exclude-standard -z".to_string(),
            "files".to_string(),
        ]
    );
}

/// A checkout with the branch `main` alone, and README.md as committed.
fn main_checkout(line: &str, request: &Request) -> Reply {
    let main = commit_line(MAIN, 100, "Main commit");
    if let Request::Files { .. } = request {
        return Reply::Files(vec![FileProbe::File {
            size: 12,
            modified: Some(100),
            preview: read("main branch\n"),
        }]);
    }
    match line.replace(COMMIT, "COMMIT").replace(AUTHOR, "AUTHOR").as_str() {
        "branch --show-current" => text("main\n"),
        "rev-parse --verify --quiet refs/heads/main^{commit}" => text(MAIN),
        "log -1 COMMIT" => text(&main),
        "log --max-count=50 COMMIT HEAD" => text(&main),
        "log AUTHOR HEAD" => text("Buzz Test\0test@example.com\x00100\n"),
        "log COMMIT --name-only --diff-filter=ACMRT --" => text(&format!("{main}\nREADME.md\n")),
        "ls-files --cached --others --exclude-standard -z" => text("README.md\0"),
        _ => failure("fatal: not found"),
    }
}

#[test]
fn local_snapshot_does_not_fall_back_to_head_for_missing_selection() {
    let (result, asked) = drive(
        |replies| snapshot_from_local_selection(Some("missing-branch"), Some("main"), replies),
        main_checkout,
    );
    let error = match result {
        Ok(_) => panic!("missing branch must not render the active checkout"),
        Err(error) => error,
    };
    assert!(error.contains("missing-branch"));
    assert!(error.contains("not available in this local checkout"));
    assert!(error.contains("Fetch the branch"));
    assert_eq!(
        error,
        "Selected branch 'missing-branch' is not available in this local checkout. Fetch the branch, then try again."
    );
    assert_eq!(
        asked,
        vec![
            "branch --show-current",
            "rev-parse --verify --quiet refs/heads/missing-branch^{commit}",
            "rev-parse --verify --quiet refs/remotes/origin/missing-branch^{commit}",
        ]
    );
}

#[test]
fn the_active_branch_of_the_same_checkout_is_shown() {
    let (snapshot, _) = drive(
        |replies| snapshot_from_local_selection(Some("main"), Some("main"), replies),
        main_checkout,
    );
    let snapshot = snapshot.expect("the worktree");
    assert_eq!(preview(&snapshot, "README.md"), Some("main branch\n"));
    assert_eq!(snapshot.contributors[0].email, "test@example.com");
}

#[test]
fn branch_names_change_neither_files_nor_latest_commit() {
    let answer = |line: &str, _: &Request| {
        if line.starts_with("ls-tree") {
            text("100644 blob aa 5\ta.txt\n")
        } else if line.starts_with("cat-file") {
            Reply::Bytes(Ok(b"aa blob 5\nhello\n".to_vec()))
        } else if line.contains("--name-only") {
            text(&format!("{}\na.txt\n", commit_line(MAIN, 8, "s")))
        } else if line.contains("origin/main..") {
            text("")
        } else {
            text(&commit_line(MAIN, 9, "s"))
        }
    };
    let take = |branch: Option<&'static str>, base: Option<&'static str>| {
        drive(|replies| snapshot_from_ref("refs/heads/x", branch, base, replies), answer).0
    };
    let plain = take(None, None);
    let named = take(Some("x"), Some("main"));
    assert_eq!((plain.commits.len(), named.commits.len()), (1, 0));
    assert_eq!(
        plain.latest_commit.as_ref().unwrap().hash,
        named.latest_commit.as_ref().unwrap().hash
    );
    for snapshot in [&plain, &named] {
        assert_eq!(snapshot.files.len(), 1);
        assert_eq!(preview(snapshot, "a.txt"), Some("hello"));
        assert_eq!(snapshot.files[0].last_changed_at, Some(8));
    }
}

#[test]
fn no_selection_and_blank_selection_show_the_worktree() {
    for branch in [None, Some("  "), Some("refs/heads/")] {
        let (snapshot, asked) =
            drive(|replies| snapshot_from_local_selection(branch, None, replies), checkout);
        assert_eq!(snapshot.expect("worktree").files.len(), 3);
        assert_eq!(asked[0], "branch --show-current");
        assert_eq!(asked.last().unwrap(), "files");
    }
}

#[test]
fn a_selection_may_name_the_branch_in_full() {
    let (snapshot, _) = drive(
        |replies| snapshot_from_local_selection(Some(" refs/heads/feature "), None, replies),
        checkout,
    );
    assert_eq!(preview(&snapshot.expect("worktree"), "DRAFT.md"), Some("untracked draft\n"));
}

#[test]
fn a_branch_is_found_locally_first() {
    let name = "main";
    let found = resolve_local_branch_ref(name, &[text("x")]);
    assert!(matches!(found, Progress::Done { value: Some(r), used: 1 } if r == "refs/heads/main"));
    let remote = resolve_local_branch_ref(name, &[failure("no"), text("x")]);
    assert!(
        matches!(remote, Progress::Done { value: Some(r), used: 2 } if r == "refs/remotes/origin/main")
    );
    let none = resolve_local_branch_ref(name, &[failure("no"), failure("no")]);
    assert!(matches!(none, Progress::Done { value: None, used: 2 }));
}

#[test]
fn the_range_of_a_branch_starts_at_its_remote_base() {
    let ask = branch_activity_range(Some("feature"), Some("refs/heads/main"), "HEAD", &[]);
    match ask {
        Progress::Ask(request) => {
            assert_eq!(describe(&request), "rev-parse --verify --quiet refs/remotes/origin/main")
        }
        other => panic!("unexpected {:?}", other),
    }
    let known = branch_activity_range(Some("feature"), Some("main"), "HEAD", &[text("x\n")]);
    assert!(matches!(known, Progress::Done { value: Some(r), used: 1 } if r == "origin/main..HEAD"));
    let unknown = branch_activity_range(Some("feature"), Some("main"), "HEAD", &[failure("no")]);
    assert!(matches!(unknown, Progress::Done { value: None, used: 1 }));
    for (branch, base) in [
        (None, Some("main")),
        (Some("feature"), None),
        (Some(" "), Some("main")),
        (Some("feature"), Some("refs/heads/")),
        (Some("refs/heads/main"), Some("main ")),
    ] {
        let none = branch_activity_range(branch, base, "HEAD", &[]);
        assert!(matches!(none, Progress::Done { value: None, used: 0 }));
    }
}

#[test]
fn a_known_base_limits_commits_and_contributors() {
    let (_, asked) = drive(
        |replies| snapshot_from_ref("refs/heads/x", Some("x"), Some("main"), replies),
        |line, _| match line.split(' ').next().unwrap() {
            "ls-tree" => failure("fatal"),
            "rev-parse" => text("h\n"),
            _ => text(&commit_line(MAIN, 1, "s")),
        },
    );
    assert_eq!(
        asked,
        vec![
            format!("log -1 {COMMIT} refs/heads/x"),
            "rev-parse --verify --quiet refs/remotes/origin/main".to_string(),
            format!("log --max-count=50 {COMMIT} origin/main..refs/heads/x"),
            format!("log {AUTHOR} origin/main..refs/heads/x"),
            format!("log {COMMIT} --name-only --diff-filter=ACMRT refs/heads/x --"),
            "ls-tree -r --long refs/heads/x".to_string(),
        ]
    );
}

#[test]
fn without_a_commit_there_is_no_history() {
    let empty = |line: &str, request: &Request| match request {
        Request::Files { paths, .. } => {
            assert_eq!(paths, &vec!["new.txt".to_string()]);
            Reply::Files(vec![FileProbe::File {
                size: 3,
                modified: None,
                preview: read("new"),
            }])
        }
        _ if line.starts_with("ls-files") => text("new.txt\0"),
        _ => failure("fatal: your current branch does not have any commits yet"),
    };
    let (snapshot, asked) = drive(|replies| snapshot_from_worktree(None, None, replies), empty);
    assert!(snapshot.latest_commit.is_none());
    assert!(snapshot.commits.is_empty());
    assert!(snapshot.contributors.is_empty());
    assert_eq!(preview(&snapshot, "new.txt"), Some("new"));
    assert_eq!(snapshot.files[0].last_changed_at, None);
    assert_eq!(asked.len(), 3);

    let (snapshot, asked) = drive(|replies| snapshot_from_repo(None, None, replies), empty);
    assert!(snapshot.latest_commit.is_none());
    assert!(snapshot.files.is_empty());
    assert_eq!(asked, vec![format!("log -1 {COMMIT}")]);
}

#[test]
fn failures_after_the_latest_commit_leave_parts_empty() {
    let (snapshot, asked) = drive(
        |replies| snapshot_from_repo(Some("main"), Some("main"), replies),
        |line, _| {
            if line.starts_with("log -1") {
                text(&commit_line(MAIN, 5, "s"))
            } else {
                failure("fatal")
            }
        },
    );
    assert_eq!(snapshot.latest_commit.unwrap().timestamp, 5);
    assert!(snapshot.commits.is_empty() && snapshot.contributors.is_empty());
    assert!(snapshot.files.is_empty());
    assert_eq!(asked.last().unwrap(), "ls-tree -r --long HEAD");
    assert_eq!(asked.len(), 5);
}

#[test]
fn a_fresh_clone_shows_its_checked_out_files() {
    let (snapshot, asked) = drive(
        |replies| snapshot_from_repo(None, None, replies),
        |line, request| match request {
            Request::Previews { wanted } => {
                assert_eq!(wanted, &vec![Some("a.txt".to_string()), None]);
                Reply::Previews(vec![
                    read("hello"),
                    PreviewProbe::Unresolved,
                ])
            }
            _ if line.starts_with("ls-tree") => {
                text("100644 blob aa 5\ta.txt\n160000 commit bb -\tsub\n")
            }
            _ if line.contains("--name-only") => {
                text(&format!("{}\na.txt\n", commit_line(MAIN, 8, "s")))
            }
            _ => text(&commit_line(MAIN, 9, "s")),
        },
    );
    assert_eq!(preview(&snapshot, "a.txt"), Some("hello"));
    assert_eq!(preview(&snapshot, "sub"), None);
    assert_eq!(snapshot.files[0].last_changed_at, Some(8));
    assert_eq!(snapshot.commits.len(), 1);
    assert_eq!(asked.last().unwrap(), "previews");
}

#[test]
fn the_next_request_depends_on_the_replies_so_far() {
    let mut replies: Vec<Reply> = Vec::new();
    let mut asked: Vec<String> = Vec::new();
    while let Progress::Ask(request) =
        snapshot_from_local_selection(Some("main"), Some("main"), &replies)
    {
        let line = describe(&request);
        replies.push(checkout(&line, &request));
        asked.push(line);
    }
    for n in 0..replies.len() {
        match snapshot_from_local_selection(Some("main"), Some("main"), &replies[..n]) {
            Progress::Ask(request) => assert_eq!(describe(&request), asked[n]),
            Progress::Done { .. } => panic!("done after {n} replies"),
        }
    }
}

#[test]
fn the_local_command_checks_the_branch_before_it_asks() {
    let bad = get_project_local_repo_snapshot(
        Some("feature+preview".to_string()),
        None,
        Some("/repos/x"),
        &[],
    );
    match bad {
        Progress::Done { value: Err(message), used: 0 } => {
            assert_eq!(message, "The selected branch name is invalid.")
        }
        other => panic!("unexpected {:?}", other),
    }
    let missing = get_project_local_repo_snapshot(Some("main".to_string()), None, None, &[]);
    assert!(matches!(missing, Progress::Done { value: Ok(None), used: 0 }));
    let (found, _) = drive(
        |replies| {
            get_project_local_repo_snapshot(
                Some(" main ".to_string()),
                Some("main"),
                Some("/repos/x"),
                replies,
            )
        },
        checkout,
    );
    let found = found.expect("a snapshot").expect("a checkout");
    assert_eq!(found.path, "/repos/x");
    assert_eq!(found.snapshot.latest_commit.unwrap().hash, MAIN);
    let (refused, _) = drive(
        |replies| {
            get_project_local_repo_snapshot(
                Some("gone".to_string()),
                None,
                Some("/repos/x"),
                replies,
            )
        },
        checkout,
    );
    assert!(refused.expect_err("no such branch").contains("'gone'"));
}
