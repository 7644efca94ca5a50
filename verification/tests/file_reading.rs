use project_git::exchange::{FileProbe, PreviewProbe, Progress, Reply, Request};
use project_git::files::{
    announced_length, checkout_files, parse_cat_file_batch, parse_ls_tree, parse_ref_tree_entries,
    parse_worktree_files, path_modified_at, project_files_from_ref, read_preview_content,
    ref_preview_contents, wants_preview, worktree_files, worktree_paths, RefTreeEntry,
    MAX_PREVIEW_BYTES,
};
use project_git::history::{parse_latest_commit_by_path, CommitIndex};

fn index() -> CommitIndex {
    parse_latest_commit_by_path("h1\0h\0Ada\0a@x\x0077\0subject\n\nREADME.md\n")
}

fn components(path: &str) -> Vec<Vec<u8>> {
    path.split('/').map(|part| part.as_bytes().to_vec()).collect()
}

fn bytes(content: Vec<u8>) -> PreviewProbe {
    PreviewProbe::Resolved {
        path: components("/repo/dir/file"),
        root: components("/repo"),
        content: Some(content),
    }
}

fn content(text: &str) -> PreviewProbe {
    bytes(text.as_bytes().to_vec())
}

fn outside() -> PreviewProbe {
    PreviewProbe::Resolved {
        path: components("/repo2/file"),
        root: components("/repo"),
        content: Some(b"not ours".to_vec()),
    }
}

fn unread() -> PreviewProbe {
    PreviewProbe::Resolved {
        path: components("/repo/file"),
        root: components("/repo"),
        content: None,
    }
}

fn entry(path: &str, kind: &str, object: &str, size: Option<u64>) -> RefTreeEntry {
    RefTreeEntry {
        path: path.to_string(),
        kind: kind.to_string(),
        object: object.to_string(),
        size,
    }
}

const TREE: &str = "100644 blob aaa      12\tREADME.md\n160000 commit bbb       -\tvendor/lib\nnonsense\n100644 blob ccc   70000\tbig file.bin\n120000 blob\tshort\n100644 blob ddd\ta\tb\n";

#[test]
fn tree_entries_are_read_line_by_line() {
    let entries = parse_ref_tree_entries(TREE);
    let read: Vec<(&str, &str, &str, Option<u64>)> = entries
        .iter()
        .map(|e| (e.path.as_str(), e.kind.as_str(), e.object.as_str(), e.size))
        .collect();
    assert_eq!(
        read,
        vec![
            ("README.md", "blob", "aaa", Some(12)),
            ("vendor/lib", "commit", "bbb", None),
            ("big file.bin", "blob", "ccc", Some(70000)),
            ("a\tb", "blob", "ddd", None),
        ]
    );
}

#[test]
fn a_tree_is_cut_at_250_entries() {
    let mut output = String::new();
    for i in 0..300 {
        output.push_str(&format!("bad line\n100644 blob o{i} 1\tf{i}\n"));
    }
    let entries = parse_ref_tree_entries(&output);
    assert_eq!(entries.len(), 250);
    assert_eq!(entries[249].path, "f249");
}

#[test]
fn previews_are_the_text_of_small_files() {
    assert!(wants_preview(None));
    assert!(wants_preview(Some(MAX_PREVIEW_BYTES)));
    assert!(!wants_preview(Some(MAX_PREVIEW_BYTES + 1)));
    assert_eq!(read_preview_content(Some(5), &content("h\u{e9}llo")), Some("h\u{e9}llo".to_string()));
    assert_eq!(read_preview_content(None, &content("")), Some(String::new()));
    assert_eq!(read_preview_content(Some(65537), &content("x")), None);
    assert_eq!(read_preview_content(Some(3), &bytes(vec![97, 0, 98])), None);
    assert_eq!(read_preview_content(Some(2), &bytes(vec![0xc3, 0x28])), None);
    assert_eq!(read_preview_content(Some(2), &outside()), None);
    assert_eq!(read_preview_content(Some(2), &unread()), None);
    assert_eq!(read_preview_content(Some(2), &PreviewProbe::Unresolved), None);
}

#[test]
fn modification_times_must_fit() {
    assert_eq!(path_modified_at(Some(12)), Some(12));
    assert_eq!(path_modified_at(Some(i64::MAX as u64)), Some(i64::MAX));
    assert_eq!(path_modified_at(Some(i64::MAX as u64 + 1)), None);
    assert_eq!(path_modified_at(None), None);
}

#[test]
fn tree_files_carry_previews_and_commits() {
    let previews = vec![
        content("hello\n"),
        content("never shown"),
        content("too big"),
        outside(),
    ];
    let files = parse_ls_tree(TREE, &previews, &index());
    assert_eq!(files.len(), 4);
    assert_eq!(files[0].path, "README.md");
    assert_eq!(files[0].kind, "blob");
    assert_eq!(files[0].size, Some(12));
    assert_eq!(files[0].preview_content.as_deref(), Some("hello\n"));
    assert_eq!(files[0].last_changed_at, Some(77));
    assert_eq!(files[0].latest_commit.as_ref().unwrap().hash, "h1");
    assert_eq!(files[1].kind, "commit");
    assert_eq!(files[1].preview_content, None);
    assert_eq!(files[1].last_changed_at, None);
    assert!(files[1].latest_commit.is_none());
    assert_eq!(files[2].preview_content, None);
    assert_eq!(files[3].preview_content, None);
}

#[test]
fn a_fresh_clone_reads_only_the_files_it_shows() {
    match checkout_files(TREE, &index(), &[]) {
        Progress::Ask(Request::Previews { wanted }) => assert_eq!(
            wanted,
            vec![Some("README.md".to_string()), None, None, Some("a\tb".to_string())]
        ),
        other => panic!("unexpected {:?}", other),
    }
    let replies = vec![Reply::Previews(vec![content("hello")])];
    match checkout_files(TREE, &index(), &replies) {
        Progress::Done { value, used } => {
            assert_eq!(used, 1);
            assert_eq!(value[0].preview_content.as_deref(), Some("hello"));
            assert_eq!(value[3].preview_content, None);
        }
        other => panic!("unexpected {:?}", other),
    }
    match checkout_files("160000 commit bbb -\tlib\n", &index(), &[]) {
        Progress::Done { value, used } => {
            assert_eq!((value.len(), used), (1, 0));
        }
        other => panic!("unexpected {:?}", other),
    }
}

fn file(size: u64, modified: Option<u64>, text: &str) -> FileProbe {
    FileProbe::File { size, modified, preview: content(text) }
}

#[test]
fn worktree_files_are_the_regular_ones() {
    let output = "README.md\0gone\0 \0dir\0DRAFT.md\0";
    assert_eq!(worktree_paths(output), vec!["README.md", "gone", "dir", "DRAFT.md"]);
    let probes = vec![
        file(5, Some(1), "draft"),
        FileProbe::NotAFile,
        FileProbe::NotAFile,
        file(4, Some(123), "new\n"),
    ];
    let files = parse_worktree_files(output, &probes, &index());
    assert_eq!(files.len(), 2);
    assert_eq!(files[0].path, "README.md");
    assert_eq!(files[0].last_changed_at, Some(77));
    assert_eq!(files[0].preview_content.as_deref(), Some("draft"));
    assert_eq!(files[1].path, "DRAFT.md");
    assert_eq!(files[1].kind, "blob");
    assert_eq!(files[1].size, Some(4));
    assert_eq!(files[1].last_changed_at, Some(123));
    assert!(files[1].latest_commit.is_none());
    assert_eq!(files[1].preview_content.as_deref(), Some("new\n"));
}

#[test]
fn looking_at_a_worktree_may_stop_after_250_files() {
    let paths: Vec<String> = (0..400).map(|i| format!("p{i}")).collect();
    let output = paths.join("\0");
    let probe = |i: usize| if i % 5 == 0 { FileProbe::NotAFile } else { file(1, None, "x") };
    let all: Vec<FileProbe> = (0..400).map(probe).collect();
    let mut some: Vec<FileProbe> = Vec::new();
    let mut found: usize = 0;
    for i in 0..400 {
        if found == 250 {
            break;
        }
        if i % 5 != 0 {
            found += 1;
        }
        some.push(probe(i));
    }
    assert!(some.len() < all.len());
    let a = parse_worktree_files(&output, &all, &index());
    let b = parse_worktree_files(&output, &some, &index());
    assert_eq!(a.len(), 250);
    assert_eq!(
        a.iter().map(|f| f.path.clone()).collect::<Vec<_>>(),
        b.iter().map(|f| f.path.clone()).collect::<Vec<_>>()
    );
    match worktree_files(&output, &index(), &[]) {
        Progress::Ask(Request::Files { paths: asked, limit }) => {
            assert_eq!(asked, paths);
            assert_eq!(limit, 250);
        }
        other => panic!("unexpected {:?}", other),
    }
    match worktree_files("\0", &index(), &[]) {
        Progress::Done { value, used } => assert_eq!((value.len(), used), (0, 0)),
        other => panic!("unexpected {:?}", other),
    }
}

#[test]
fn headers_announce_the_length_in_their_third_field() {
    assert_eq!(announced_length("abc blob 12"), Some(12));
    assert_eq!(announced_length("abc missing"), None);
    assert_eq!(announced_length("abc blob twelve"), None);
    assert_eq!(announced_length(""), None);
    assert_eq!(announced_length(" a\tb  3 more"), Some(3));
}

fn batch(parts: &[(&[u8], Option<&[u8]>)]) -> Vec<u8> {
    let mut out = Vec::new();
    for (header, body) in parts {
        out.extend_from_slice(header);
        out.push(b'\n');
        if let Some(bytes) = body {
            out.extend_from_slice(bytes);
            out.push(b'\n');
        }
    }
    out
}

#[test]
fn a_batch_of_objects_is_read_back() {
    let entries = vec![
        entry("a", "blob", "1", None),
        entry("gone", "blob", "2", None),
        entry("bin", "blob", "3", None),
        entry("latin", "blob", "4", None),
        entry("empty", "blob", "5", None),
        entry("last", "blob", "6", None),
    ];
    let output = batch(&[
        (b"1 blob 8", Some(b"x\ny\n\nz\n\n")),
        (b"2 missing", None),
        (b"3 blob 3", Some(&[1, 0, 2])),
        (b"4 blob 2", Some(&[0xe9, 0x20])),
        (b"5 blob 0", Some(b"")),
        (b"6 blob 3", Some("\u{20ac}".as_bytes())),
    ]);
    let refs: Vec<&RefTreeEntry> = entries.iter().collect();
    let previews = parse_cat_file_batch(&output, &refs);
    assert_eq!(previews.get("a").as_deref(), Some("x\ny\n\nz\n\n"));
    assert_eq!(previews.get("gone"), None);
    assert_eq!(previews.get("bin"), None);
    assert_eq!(previews.get("latin"), None);
    assert_eq!(previews.get("empty").as_deref(), Some(""));
    assert_eq!(previews.get("last").as_deref(), Some("\u{20ac}"));
}

#[test]
fn a_batch_ends_where_its_output_does() {
    let entries = vec![entry("a", "blob", "1", None), entry("b", "blob", "2", None)];
    let refs: Vec<&RefTreeEntry> = entries.iter().collect();
    let cut = parse_cat_file_batch(b"1 blob 3\nabc\n2 blob 9\nshort", &refs);
    assert_eq!(cut.get("a").as_deref(), Some("abc"));
    assert_eq!(cut.get("b"), None);
    let no_newline = parse_cat_file_batch(b"1 blob 3\nabc", &refs);
    assert_eq!(no_newline.get("a").as_deref(), Some("abc"));
    let huge = parse_cat_file_batch(b"1 blob 18446744073709551615\nabc", &refs);
    assert_eq!(huge.get("a"), None);
    assert_eq!(parse_cat_file_batch(b"no line", &refs).get("a"), None);
    assert_eq!(parse_cat_file_batch(b"", &refs).get("a"), None);
}

#[test]
fn a_header_that_is_no_utf8_is_read_all_the_same() {
    let entries = vec![entry("a", "blob", "1", None)];
    let refs: Vec<&RefTreeEntry> = entries.iter().collect();
    let output = batch(&[(&[0xff, 0x20, 0xfe, 0x20, b'2'], Some(b"ok"))]);
    assert_eq!(parse_cat_file_batch(&output, &refs).get("a").as_deref(), Some("ok"));
}

#[test]
fn the_last_of_two_objects_for_a_path_counts() {
    let entries = vec![entry("a", "blob", "1", None), entry("a", "blob", "2", None)];
    let refs: Vec<&RefTreeEntry> = entries.iter().collect();
    let output = batch(&[(b"1 blob 1", Some(b"x")), (b"2 blob 1", Some(b"y"))]);
    assert_eq!(parse_cat_file_batch(&output, &refs).get("a").as_deref(), Some("y"));
}

#[test]
fn a_reference_asks_for_its_small_blobs_only() {
    let entries = parse_ref_tree_entries(TREE);
    match ref_preview_contents(&entries, &[]) {
        Progress::Ask(Request::GitWithInput { args, input }) => {
            assert_eq!(args, vec!["cat-file", "--batch"]);
            assert_eq!(input, "aaa\nddd\n");
        }
        _ => panic!("expected a request"),
    }
    match ref_preview_contents(&vec![entry("m", "commit", "x", None)], &[]) {
        Progress::Done { value, used } => {
            assert_eq!(used, 0);
            assert_eq!(value.get("m"), None);
        }
        _ => panic!("expected no request"),
    }
    let failed = vec![Reply::Bytes(Err("fatal".to_string()))];
    match project_files_from_ref(parse_ref_tree_entries(TREE), &index(), &failed) {
        Progress::Done { value, used } => {
            assert_eq!((value.len(), used), (4, 1));
            assert_eq!(value[0].preview_content, None);
            assert_eq!(value[0].last_changed_at, Some(77));
        }
        other => panic!("unexpected {:?}", other),
    }
    let output = batch(&[(b"aaa blob 3", Some(b"one")), (b"ddd blob 3", Some(b"two"))]);
    match project_files_from_ref(parse_ref_tree_entries(TREE), &index(), &[Reply::Bytes(Ok(output))]) {
        Progress::Done { value, .. } => {
            assert_eq!(value[0].preview_content.as_deref(), Some("one"));
            assert_eq!(value[1].preview_content, None);
            assert_eq!(value[2].preview_content, None);
            assert_eq!(value[3].preview_content.as_deref(), Some("two"));
        }
        other => panic!("unexpected {:?}", other),
    }
}

#[test]
fn a_batch_gives_texts_of_its_entries_only() {
    let entries = vec![entry("a", "blob", "1", None), entry("b", "blob", "2", None)];
    let refs: Vec<&RefTreeEntry> = entries.iter().collect();
    let output = batch(&[
        (b"1 blob 2", Some(b"xy")),
        (b"2 blob 2", Some(&[b'x', 0])),
        (b"3 blob 1", Some(b"z")),
    ]);
    let previews = parse_cat_file_batch(&output, &refs);
    assert_eq!(previews.get("a").as_deref(), Some("xy"));
    assert_eq!(previews.get("b"), None);
    assert_eq!(previews.get("3"), None);
    assert_eq!(previews.get(""), None);
}
