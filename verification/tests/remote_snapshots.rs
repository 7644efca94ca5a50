use project_git::exchange::{Progress, Reply, Request};
use project_git::remote::{get_project_repo_snapshot, RemoteQuery};

const COMMIT: &str = "abcdef0123456789abcdef0123456789abcdef01";

fn query<'a>() -> RemoteQuery<'a> {
    RemoteQuery {
        clone_url: "https://relay/git/p",
        repo_path: "/tmp/t/repo",
        default_branch: None,
        base_branch: None,
        target_ref: None,
        target_commit: None,
    }
}

fn describe(request: &Request) -> String {
    match request {
        Request::Git { args, in_repo } => {
            format!("{}{}", if *in_repo { "repo: " } else { "" }, args.join(" "))
        }
        other => format!("{:?}", other),
    }
}

fn ok(output: &str) -> Reply {
    Reply::Text(Ok(output.to_string()))
}

fn err(message: &str) -> Reply {
    Reply::Text(Err(message.to_string()))
}

fn next(query: &RemoteQuery, replies: &[Reply]) -> String {
    match get_project_repo_snapshot(query, replies) {
        Progress::Ask(request) => describe(&request),
        Progress::Done { value: Ok(_), used } => format!("snapshot after {used}"),
        Progress::Done { value: Err(message), used } => format!("{message} ({used})"),
    }
}

#[test]
fn a_default_branch_is_cloned_and_then_done_without() {
    let q = RemoteQuery { default_branch: Some(" main "), ..query() };
    assert_eq!(
        next(&q, &[]),
        "clone --filter=blob:none --branch main https://relay/git/p /tmp/t/repo"
    );
    assert!(next(&q, &[ok("")]).starts_with("repo: log -1 "));
    assert_eq!(
        next(&q, &[err("no branch")]),
        "clone --filter=blob:none https://relay/git/p /tmp/t/repo"
    );
    assert!(next(&q, &[err("no branch"), ok("")]).starts_with("repo: log -1 "));
    assert_eq!(next(&q, &[err("no branch"), err("no remote")]), "no remote (2)");
}

#[test]
fn without_a_branch_a_failed_clone_gives_an_empty_snapshot() {
    for branch in [None, Some("--upload-pack=x"), Some("a b")] {
        let q = RemoteQuery { default_branch: branch, ..query() };
        assert_eq!(next(&q, &[]), "clone --filter=blob:none https://relay/git/p /tmp/t/repo");
        assert!(next(&q, &[err("no remote")]).starts_with("repo: log -1 "));
        assert_eq!(next(&q, &[err("no remote"), err("no repository")]), "snapshot after 2");
    }
}

#[test]
fn a_requested_reference_is_fetched_and_checked_out() {
    let q = RemoteQuery {
        default_branch: Some("main"),
        base_branch: Some("main"),
        target_ref: Some("refs/nostr/x"),
        ..query()
    };
    assert_eq!(
        next(&q, &[]),
        "clone --filter=blob:none --no-checkout https://relay/git/p /tmp/t/repo"
    );
    assert_eq!(next(&q, &[err("no remote")]), "no remote (1)");
    assert_eq!(next(&q, &[ok("")]), "repo: fetch --depth=100 origin refs/nostr/x");
    assert_eq!(next(&q, &[ok(""), err("no ref")]), "no ref (2)");
    assert_eq!(next(&q, &[ok(""), ok("")]), "repo: checkout --detach FETCH_HEAD");
    assert_eq!(next(&q, &[ok(""), ok(""), err("no checkout")]), "no checkout (3)");
    assert!(next(&q, &[ok(""), ok(""), ok("")]).starts_with("repo: log -1 "));
}

#[test]
fn only_the_requested_commit_is_shown() {
    let upper = COMMIT.to_uppercase();
    let q = RemoteQuery { target_ref: Some("refs/x"), target_commit: Some(&upper), ..query() };
    assert_eq!(next(&q, &[ok("")]), "repo: fetch --depth=100 origin refs/x");
    assert_eq!(next(&q, &[ok(""), ok("")]), "repo: rev-parse FETCH_HEAD");
    let unresolved = "Could not resolve the requested repository ref. (3)";
    assert_eq!(next(&q, &[ok(""), ok(""), err("fatal")]), unresolved);
    assert_eq!(next(&q, &[ok(""), ok(""), ok("\n")]), unresolved);
    assert_eq!(
        next(&q, &[ok(""), ok(""), ok("0000000\n")]),
        "The requested repository ref changed. Refresh and try again. (3)"
    );
    assert_eq!(
        next(&q, &[ok(""), ok(""), ok(&format!("{}\n", upper))]),
        "repo: checkout --detach FETCH_HEAD"
    );
    assert_eq!(
        next(&q, &[ok(""), ok(""), ok(&format!("{}\n", COMMIT)), err("busy")]),
        "busy (4)"
    );
    assert!(next(&q, &[ok(""), ok(""), ok(COMMIT), ok("")]).starts_with("repo: log -1 "));
}

#[test]
fn a_commit_without_a_reference_is_fetched_itself() {
    let q = RemoteQuery { target_commit: Some(COMMIT), ..query() };
    assert_eq!(next(&q, &[ok("")]), format!("repo: fetch --depth=100 origin {COMMIT}"));
    let q = RemoteQuery { target_commit: Some("abc"), ..query() };
    assert_eq!(next(&q, &[]), "clone --filter=blob:none https://relay/git/p /tmp/t/repo");
}

#[test]
fn a_reply_of_another_kind_counts_as_a_failure() {
    let q = RemoteQuery { target_ref: Some("refs/x"), ..query() };
    assert_eq!(next(&q, &[Reply::Bytes(Err("broken pipe".to_string()))]), "broken pipe (1)");
    assert_eq!(next(&q, &[Reply::Files(Vec::new())]), "git gave no text output (1)");
}

#[test]
fn a_remote_snapshot_takes_at_most_eleven_requests() {
    let q = RemoteQuery {
        default_branch: Some("feature"),
        base_branch: Some("main"),
        target_ref: Some("refs/x"),
        target_commit: Some(COMMIT),
        ..query()
    };
    let line = format!("{COMMIT}\0abcdef0\0Ada\0a@x\x007\0s\n");
    let mut replies: Vec<Reply> = Vec::new();
    let mut asked: Vec<String> = Vec::new();
    let snapshot = loop {
        match get_project_repo_snapshot(&q, &replies) {
            Progress::Ask(request) => {
                let what = describe(&request);
                replies.push(if what.starts_with("repo: log ") {
                    ok(&line)
                } else if what.starts_with("repo: ls-tree") {
                    ok("100644 blob a 1\tf\n")
                } else if matches!(request, Request::Previews { .. }) {
                    Reply::Previews(Vec::new())
                } else {
                    ok(COMMIT)
                });
                asked.push(what);
            }
            Progress::Done { value, used } => {
                assert_eq!(used, 11);
                break value.expect("a snapshot");
            }
        }
    };
    assert_eq!(asked.len(), 11);
    assert!(asked[6].ends_with(" origin/main..HEAD"));
    assert_eq!(snapshot.files.len(), 1);
    assert_eq!(snapshot.files[0].preview_content, None);
    assert_eq!(snapshot.latest_commit.unwrap().author_name, "Ada");
}
