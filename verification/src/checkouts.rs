//! The local checkouts below the directories for repositories.
use crate::model::{LocalRepoModel, ProjectLocalRepoInfo};
use crate::order::{
    insert_by, is_ranking, is_sorted, lemma_insert_by_at, lemma_sorted_by, lemma_sorted_by_stable,
    same_rank, sorted_by,
};
use crate::paths::{is_below, lies_below, same_path};
use crate::text::{at_most, lemma_text_order, text_le, to_chars};
use vstd::prelude::*;

verus! {

/// What a directory entry is.
#[derive(Debug, Clone, Copy, PartialEq, Eq, Structural)]
pub enum EntryKind {
    Directory,
    Symlink,
    Other,
    /// The file system did not say.
    Unknown,
}

/// Where a directory entry leads once every symbolic link is followed.
#[derive(Debug)]
pub struct EntryTarget {
    /// The path, for display.
    pub path: String,
    /// The components of the path.
    pub components: Vec<Vec<u8>>,
    /// The components of the path of the directory for repositories.
    pub root: Vec<Vec<u8>>,
    pub is_directory: bool,
    /// Whether `.git` is there.
    pub has_git: bool,
}

/// An entry of a directory for repositories. There is no target if the path
/// does not resolve.
#[derive(Debug)]
pub struct EntryProbe {
    pub name: String,
    pub kind: EntryKind,
    pub target: Option<EntryTarget>,
}

/// A checkout that was found, with the components of its path.
pub struct Found {
    pub components: Seq<Seq<u8>>,
    pub repo: LocalRepoModel,
}

/// The checkout that an entry leads to: a directory, or a link to one, that
/// lies below the directory for repositories and has a `.git`.
pub open spec fn checkout_of(entry: EntryProbe) -> Option<Found> {
    match entry.target {
        Some(target) => if (entry.kind == EntryKind::Directory || entry.kind == EntryKind::Symlink)
            && lies_below(target.components.deep_view(), target.root.deep_view())
            && target.is_directory && target.has_git {
            Some(
                Found {
                    components: target.components.deep_view(),
                    repo: LocalRepoModel { name: entry.name@, path: target.path@ },
                },
            )
        } else {
            None
        },
        None => None,
    }
}

pub open spec fn has_path(found: Seq<Found>, components: Seq<Seq<u8>>) -> bool {
    exists|i: int| 0 <= i < found.len() && (#[trigger] found[i]).components == components
}

/// The checkouts that the entries lead to, each path once, in the order of the
/// entries.
pub open spec fn found_checkouts(entries: Seq<EntryProbe>) -> Seq<Found>
    decreases entries.len(),
{
    if entries.len() == 0 {
        seq![]
    } else {
        let before = found_checkouts(entries.drop_last());
        match checkout_of(entries.last()) {
            Some(found) => if has_path(before, found.components) {
                before
            } else {
                before.push(found)
            },
            None => before,
        }
    }
}

/// The order of checkouts: by name.
pub open spec fn name_order() -> spec_fn(LocalRepoModel, LocalRepoModel) -> bool {
    |a: LocalRepoModel, b: LocalRepoModel| text_le(a.name, b.name)
}

/// The checkouts that the entries lead to, by name.
pub open spec fn listed_checkouts(entries: Seq<EntryProbe>) -> Seq<LocalRepoModel> {
    sorted_by(found_checkouts(entries).map_values(|f: Found| f.repo), name_order())
}

fn may_precede(a: &ProjectLocalRepoInfo, b: &ProjectLocalRepoInfo) -> (r: bool)
    ensures
        r == text_le(a.name@, b.name@),
{
    let left = to_chars(a.name.as_str());
    let right = to_chars(b.name.as_str());
    at_most(left.as_slice(), right.as_slice())
}

/// Puts `repo` into its place among checkouts that are in order.
fn place_checkout(listed: &mut Vec<ProjectLocalRepoInfo>, repo: ProjectLocalRepoInfo)
    ensures
        final(listed).deep_view() == insert_by(
            old(listed).deep_view(),
            repo.deep_view(),
            name_order(),
        ),
{
    let ghost before = listed.deep_view();
    let mut n: usize = listed.len();
    while n > 0 && !may_precede(&listed[n - 1], &repo)
        invariant
            n <= listed.len(),
            before == listed.deep_view(),
            forall|i: int|
                n <= i < before.len() ==> !text_le((#[trigger] before[i]).name, repo.name@),
        decreases n,
    {
        n -= 1;
    }
    proof {
        let le = name_order();
        assert forall|i: int| n <= i < before.len() implies !le(
            #[trigger] before[i],
            repo.deep_view(),
        ) by {}
        lemma_insert_by_at(before, repo.deep_view(), le, n as int);
    }
    let ghost model = repo.deep_view();
    listed.insert(n, repo);
    assert(listed.deep_view() =~= before.insert(n as int, model));
}

/// Lists the checkouts among the entries of the directories for repositories,
/// by name; a checkout that several entries lead to is listed once.
pub fn list_project_local_repositories(entries: &Vec<EntryProbe>) -> (r: Vec<ProjectLocalRepoInfo>)
    ensures
        r.deep_view() == listed_checkouts(entries@),
{
    let ghost repos = |f: Found| f.repo;
    let ghost le = name_order();
    let mut listed: Vec<ProjectLocalRepoInfo> = Vec::new();
    let mut seen: Vec<usize> = Vec::new();
    let mut i: usize = 0;
    assert(found_checkouts(entries@.take(0)).map_values(repos) =~= seq![]);
    assert(listed.deep_view() =~= sorted_by(seq![], le));
    while i < entries.len()
        invariant
            i <= entries.len(),
            repos == (|f: Found| f.repo),
            le == name_order(),
            seen@.len() == found_checkouts(entries@.take(i as int)).len(),
            forall|j: int|
                0 <= j < seen@.len() ==> #[trigger] seen@[j] < entries@.len() && checkout_of(
                    entries@[seen@[j] as int],
                ) == Some(found_checkouts(entries@.take(i as int))[j]),
            listed.deep_view() == sorted_by(
                found_checkouts(entries@.take(i as int)).map_values(repos),
                le,
            ),
        decreases entries.len() - i,
    {
        let entry = &entries[i];
        let ghost before = found_checkouts(entries@.take(i as int));
        proof {
            assert(entries@.take(i + 1).drop_last() == entries@.take(i as int));
            assert(entries@.take(i + 1).last() == *entry);
        }
        let current: usize = i;
        i += 1;
        if !(entry.kind == EntryKind::Directory || entry.kind == EntryKind::Symlink) {
            continue;
        }
        if let Some(target) = &entry.target {
            if !is_below(target.components.as_slice(), target.root.as_slice())
                || !target.is_directory || !target.has_git {
                continue;
            }
            let mut known = false;
            let mut k: usize = 0;
            while k < seen.len() && !known
                invariant
                    k <= seen.len(),
                    seen@.len() == before.len(),
                    forall|j: int|
                        0 <= j < seen@.len() ==> #[trigger] seen@[j] < entries@.len()
                            && checkout_of(entries@[seen@[j] as int]) == Some(before[j]),
                    known ==> has_path(before, target.components.deep_view()),
                    !known ==> forall|j: int|
                        0 <= j < k ==> (#[trigger] before[j]).components != target.components.deep_view(),
                decreases seen.len() - k,
            {
                if let Some(other) = &entries[seen[k]].target {
                    assert(before[k as int].components == other.components.deep_view());
                    if same_path(other.components.as_slice(), target.components.as_slice()) {
                        known = true;
                    }
                }
                k += 1;
            }
            if known {
                continue;
            }
            let repo = ProjectLocalRepoInfo {
                name: entry.name.clone(),
                path: target.path.clone(),
            };
            proof {
                let found = checkout_of(*entry)->0;
                let all = before.push(found).map_values(repos);
                assert(all.drop_last() =~= before.map_values(repos));
                assert(all.last() == repo.deep_view());
            }
            place_checkout(&mut listed, repo);
            seen.push(current);
        }
    }
    assert(entries@.take(entries@.len() as int) == entries@);
    listed
}

// ---------------------------------------------------------------------------
// Laws

/// The checkouts are listed by name; those of the same name stand in the order
/// in which they were found. Sorting neither adds nor loses one.
pub proof fn law_checkouts_are_listed_by_name(entries: Seq<EntryProbe>, a: LocalRepoModel)
    ensures
        is_sorted(listed_checkouts(entries), name_order()),
        listed_checkouts(entries).to_multiset() == found_checkouts(entries).map_values(
            |f: Found| f.repo,
        ).to_multiset(),
        listed_checkouts(entries).filter(|b: LocalRepoModel| same_rank(name_order(), a, b))
            == found_checkouts(entries).map_values(|f: Found| f.repo).filter(
            |b: LocalRepoModel| same_rank(name_order(), a, b),
        ),
{
    let le = name_order();
    assert forall|a: LocalRepoModel, b: LocalRepoModel| #[trigger] le(a, b) || le(b, a) by {
        lemma_text_order(a.name, b.name, a.name);
    }
    assert forall|a: LocalRepoModel, b: LocalRepoModel, c: LocalRepoModel| #[trigger]
        le(a, b) && #[trigger] le(b, c) implies le(a, c) by {
        lemma_text_order(a.name, b.name, c.name);
    }
    assert(is_ranking(le));
    let repos = found_checkouts(entries).map_values(|f: Found| f.repo);
    lemma_sorted_by(repos, le);
    lemma_sorted_by_stable(repos, le, a);
}

/// No path is listed twice, every listed checkout is one that an entry leads
/// to, and every checkout that an entry leads to is listed under some entry.
pub proof fn law_each_checkout_is_found_once(entries: Seq<EntryProbe>)
    ensures
        forall|i: int, j: int|
            0 <= i < j < found_checkouts(entries).len() ==> (
            #[trigger] found_checkouts(entries)[i]).components != (
            #[trigger] found_checkouts(entries)[j]).components,
        forall|i: int|
            0 <= i < found_checkouts(entries).len() ==> exists|j: int|
                0 <= j < entries.len() && checkout_of(#[trigger] entries[j]) == Some(
                    #[trigger] found_checkouts(entries)[i],
                ),
        forall|j: int|
            0 <= j < entries.len() ==> (checkout_of(#[trigger] entries[j]) matches Some(found)
                ==> has_path(found_checkouts(entries), found.components)),
    decreases entries.len(),
{
    if entries.len() > 0 {
        let front = entries.drop_last();
        let last = entries.last();
        let before = found_checkouts(front);
        let now = found_checkouts(entries);
        law_each_checkout_is_found_once(front);
        assert forall|i: int| 0 <= i < now.len() implies exists|j: int|
            0 <= j < entries.len() && checkout_of(#[trigger] entries[j]) == Some(
                #[trigger] now[i],
            ) by {
            if i < before.len() {
                let j = choose|j: int|
                    0 <= j < front.len() && checkout_of(#[trigger] front[j]) == Some(before[i]);
                assert(entries[j] == front[j]);
            } else {
                assert(entries[entries.len() - 1] == last);
            }
        }
        assert forall|components: Seq<Seq<u8>>| has_path(before, components) implies has_path(
            now,
            components,
        ) by {
            let i = choose|i: int|
                0 <= i < before.len() && (#[trigger] before[i]).components == components;
            assert(now[i].components == components);
        }
        assert forall|j: int| 0 <= j < entries.len() implies (checkout_of(
            #[trigger] entries[j],
        ) matches Some(found) ==> has_path(now, found.components)) by {
            if j < front.len() {
                assert(entries[j] == front[j]);
            } else if let Some(found) = checkout_of(last) {
                if !has_path(before, found.components) {
                    assert(now[now.len() - 1].components == found.components);
                }
            }
        }
    }
}

/// Whether an entry is a checkout, spelled out: a directory or a symbolic link that
/// leads, below the directory for repositories, to a directory with a `.git`.
pub open spec fn is_checkout(entry: EntryProbe) -> bool {
    &&& entry.kind == EntryKind::Directory || entry.kind == EntryKind::Symlink
    &&& entry.target matches Some(target) && {
        &&& target.root.deep_view().is_prefix_of(target.components.deep_view())
        &&& target.is_directory
        &&& target.has_git
    }
}

/// Every entry that is a checkout is listed, under its name and path, unless an entry
/// before it leads to the same path; and nothing else is listed.
pub proof fn law_checkouts_are_listed(entries: Seq<EntryProbe>, i: int)
    requires
        0 <= i < entries.len(),
    ensures
        is_checkout(entries[i]) && (forall|j: int|
            0 <= j < i && is_checkout(#[trigger] entries[j])
                ==> entries[j].target->0.components.deep_view()
                != entries[i].target->0.components.deep_view()) ==> listed_checkouts(
            entries,
        ).contains(LocalRepoModel { name: entries[i].name@, path: entries[i].target->0.path@ }),
        forall|repo: LocalRepoModel| #[trigger]
            listed_checkouts(entries).contains(repo) ==> exists|j: int|
                0 <= j < entries.len() && is_checkout(#[trigger] entries[j]) && entries[j].name@
                    == repo.name && entries[j].target->0.path@ == repo.path,
        forall|m: int, n: int|
            0 <= m < n < listed_checkouts(entries).len() ==> text_le(
                (#[trigger] listed_checkouts(entries)[m]).name,
                (#[trigger] listed_checkouts(entries)[n]).name,
            ),
{
    broadcast use vstd::seq_lib::group_to_multiset_ensures;

    let found = found_checkouts(entries);
    let repos = found.map_values(|f: Found| f.repo);
    let listed = listed_checkouts(entries);
    let some = LocalRepoModel { name: seq![], path: seq![] };
    law_checkouts_are_listed_by_name(entries, some);
    law_each_checkout_is_found_once(entries);
    if is_checkout(entries[i]) && (forall|j: int|
        0 <= j < i && is_checkout(#[trigger] entries[j])
            ==> entries[j].target->0.components.deep_view()
            != entries[i].target->0.components.deep_view()) {
        lemma_first_is_found(entries, i);
        let k = choose|k: int| 0 <= k < found.len() && Some(found[k]) == checkout_of(entries[i]);
        let repo = LocalRepoModel { name: entries[i].name@, path: entries[i].target->0.path@ };
        assert(repos[k] == repo);
        assert(repos.contains(repo));
        assert(listed.to_multiset().count(repo) > 0);
    }
    assert forall|repo: LocalRepoModel| #[trigger] listed.contains(repo) implies exists|j: int|
        0 <= j < entries.len() && is_checkout(#[trigger] entries[j]) && entries[j].name@
            == repo.name && entries[j].target->0.path@ == repo.path by {
        assert(repos.to_multiset().count(repo) > 0);
        let k = choose|k: int| 0 <= k < repos.len() && repos[k] == repo;
        assert(found[k].repo == repo);
        let j = choose|j: int|
            0 <= j < entries.len() && checkout_of(#[trigger] entries[j]) == Some(found[k]);
        assert(is_checkout(entries[j]));
    }
    assert forall|m: int, n: int| 0 <= m < n < listed.len() implies text_le(
        (#[trigger] listed[m]).name,
        (#[trigger] listed[n]).name,
    ) by {
        let le = name_order();
        assert(le(listed[m], listed[n]));
    }
}

proof fn lemma_first_is_found(entries: Seq<EntryProbe>, i: int)
    requires
        0 <= i < entries.len(),
        is_checkout(entries[i]),
        forall|j: int|
            0 <= j < i && is_checkout(#[trigger] entries[j])
                ==> entries[j].target->0.components.deep_view()
                != entries[i].target->0.components.deep_view(),
    ensures
        exists|k: int|
            0 <= k < found_checkouts(entries).len() && Some(#[trigger] found_checkouts(entries)[k])
                == checkout_of(entries[i]),
    decreases entries.len(),
{
    let front = entries.drop_last();
    let before = found_checkouts(front);
    let now = found_checkouts(entries);
    if i < front.len() {
        assert(front[i] == entries[i]);
        assert forall|j: int| 0 <= j < i && is_checkout(#[trigger] front[j]) implies front[j].target
            ->0.components.deep_view() != front[i].target->0.components.deep_view() by {
            assert(front[j] == entries[j]);
        }
        lemma_first_is_found(front, i);
        let k = choose|k: int|
            0 <= k < before.len() && Some(#[trigger] before[k]) == checkout_of(front[i]);
        assert(now[k] == before[k]);
    } else {
        let mine = checkout_of(entries[i])->0;
        law_each_checkout_is_found_once(front);
        if has_path(before, mine.components) {
            let k = choose|k: int|
                0 <= k < before.len() && (#[trigger] before[k]).components == mine.components;
            let j = choose|j: int|
                0 <= j < front.len() && checkout_of(#[trigger] front[j]) == Some(before[k]);
            assert(entries[j] == front[j]);
            assert(is_checkout(entries[j]));
        }
        assert(now == before.push(mine));
        assert(Some(now[before.len() as int]) == checkout_of(entries[i]));
    }
}

} // verus!
