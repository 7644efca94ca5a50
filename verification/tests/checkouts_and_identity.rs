use project_git::checkouts::{
    list_project_local_repositories, EntryKind, EntryProbe, EntryTarget,
};
use project_git::exchange::{Progress, Reply, Request};
use project_git::identity::get_git_identity;
use project_git::paths::{is_below, same_path};

fn components(path: &str) -> Vec<Vec<u8>> {
    path.split('/').map(|part| part.as_bytes().to_vec()).collect()
}

/// A checkout at `path`, found in the directory that holds it.
fn target(path: &str) -> EntryTarget {
    let all = components(path);
    EntryTarget {
        path: path.to_string(),
        root: all[..all.len() - 1].to_vec(),
        components: all,
        is_directory: true,
        has_git: true,
    }
}

fn entry(name: &str, kind: EntryKind, target: Option<EntryTarget>) -> EntryProbe {
    EntryProbe { name: name.to_string(), kind, target }
}

fn names(entries: Vec<EntryProbe>) -> Vec<(String, String)> {
    list_project_local_repositories(&entries).into_iter().map(|r| (r.name, r.path)).collect()
}

#[test]
fn checkouts_are_listed_by_name_each_path_once() {
    let listed = names(vec![
        entry("zeta", EntryKind::Directory, Some(target("/r/zeta"))),
        entry("alias", EntryKind::Symlink, Some(target("/r/zeta"))),
        entry("beta", EntryKind::Symlink, Some(target("/r/b"))),
        entry("Alpha", EntryKind::Directory, Some(target("/r/Alpha"))),
        entry("beta", EntryKind::Directory, Some(target("/s/beta"))),
    ]);
    let expected: Vec<(String, String)> = [
        ("Alpha", "/r/Alpha"),
        ("beta", "/r/b"),
        ("beta", "/s/beta"),
        ("zeta", "/r/zeta"),
    ]
    .iter()
    .map(|(n, p)| (n.to_string(), p.to_string()))
    .collect();
    assert_eq!(listed, expected);
}

#[test]
fn entries_that_are_no_checkouts_are_passed_over() {
    assert!(names(vec![
        entry("file", EntryKind::Other, Some(target("/r/file"))),
        entry("odd", EntryKind::Unknown, Some(target("/r/odd"))),
        entry("dangling", EntryKind::Symlink, None),
        entry("away", EntryKind::Symlink, Some(EntryTarget { root: components("/r"), ..target("/x/a") })),
        entry("near", EntryKind::Symlink, Some(EntryTarget { root: components("/r"), ..target("/rs/a") })),
        entry("link", EntryKind::Symlink, Some(EntryTarget { is_directory: false, ..target("/l") })),
        entry("plain", EntryKind::Directory, Some(EntryTarget { has_git: false, ..target("/p") })),
    ])
    .is_empty());
    assert!(names(Vec::new()).is_empty());
}

#[test]
fn a_path_lies_below_the_paths_that_its_components_start_with() {
    let below = |path: &str, root: &str| is_below(&components(path), &components(root));
    assert!(below("/r/a", "/r"));
    assert!(below("/r/a/b", "/r"));
    assert!(below("/r", "/r"));
    assert!(!below("/r", "/r/a"));
    assert!(!below("/rs/a", "/r"));
    assert!(!below("/x/r/a", "/r"));
    assert!(is_below(&[], &[]));
    assert!(same_path(&components("/r/a"), &components("/r/a")));
    assert!(!same_path(&components("/r/a"), &components("/r")));
    assert!(!same_path(&components("/r/a"), &components("/r/b")));
}

#[test]
fn paths_that_only_look_alike_are_two_checkouts() {
    let mut odd = target("/r/x\u{fffd}");
    odd.components[2] = vec![b'x', 0xff];
    let listed = names(vec![
        entry("a", EntryKind::Directory, Some(target("/r/x\u{fffd}"))),
        entry("b", EntryKind::Directory, Some(odd)),
    ]);
    assert_eq!(listed.len(), 2);
}

#[test]
fn the_identity_is_read_from_the_settings_of_git() {
    let asked = |replies: &[Reply]| match get_git_identity(replies) {
        Progress::Ask(Request::Git { args, in_repo: false }) => args.join(" "),
        other => panic!("unexpected {:?}", other),
    };
    let name = || Reply::Text(Ok(" Ada Lovelace \n".to_string()));
    assert_eq!(asked(&[]), "config --get user.name");
    assert_eq!(asked(&[name()]), "config --get user.email");
    match get_git_identity(&[name(), Reply::Text(Ok("\n".to_string()))]) {
        Progress::Done { value, used: 2 } => {
            assert_eq!(value.name.as_deref(), Some("Ada Lovelace"));
            assert_eq!(value.email, None);
        }
        other => panic!("unexpected {:?}", other),
    }
    match get_git_identity(&[
        Reply::Text(Err("unset".to_string())),
        Reply::Text(Ok("a@x\n".to_string())),
    ]) {
        Progress::Done { value, used: 2 } => {
            assert_eq!(value.name, None);
            assert_eq!(value.email.as_deref(), Some("a@x"));
        }
        other => panic!("unexpected {:?}", other),
    }
}
