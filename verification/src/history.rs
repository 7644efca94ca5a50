//! The output of `git log`: commits, and the latest commit of each path.
//!
//! A commit is one line of fields that NUL characters part: hash, short hash,
//! author name, author email, author time and subject.
use crate::model::{first_n, CommitModel, ProjectRepoCommitInfo};
use crate::text::{
    blank, contains_char, first_line_in, first_line_of, is_blank, joined,
    law_lines_end_at_newlines, law_signed_decimal_is_a_word, law_split_undoes_join,
    lemma_lines_hold_no_newline, lemma_split_part, lemma_split_whole, lines_in, lines_of, read_i64,
    signed_decimal, signed_value, split_chars, split_on, to_chars, to_text, views,
};
use vstd::hash_map::StringHashMap;
use vstd::prelude::*;

verus! {

/// The number of commits that a snapshot lists at most.
pub const MAX_COMMITS: usize = 50;

/// The commit that one line of the log describes. The subject may be missing;
/// the other fields may not, and the time must be a number.
pub open spec fn commit_of_line(line: Seq<char>) -> Option<CommitModel> {
    let fields = split_on(line, '\0');
    if fields.len() >= 5 {
        match signed_value(fields[4]) {
            Some(timestamp) => Some(
                CommitModel {
                    hash: fields[0],
                    short_hash: fields[1],
                    author_name: fields[2],
                    author_email: fields[3],
                    timestamp,
                    subject: if fields.len() > 5 {
                        fields[5]
                    } else {
                        Seq::empty()
                    },
                },
            ),
            None => None,
        }
    } else {
        None
    }
}

/// The commit on the first line of `output`.
pub open spec fn latest_commit_of(output: Seq<char>) -> Option<CommitModel> {
    match first_line_of(output) {
        Some(line) => commit_of_line(line),
        None => None,
    }
}

/// Reads one line of the log.
fn parse_commit_line(line: &[char]) -> (r: Option<ProjectRepoCommitInfo>)
    ensures
        r.deep_view() == commit_of_line(line@),
{
    let fields = split_chars(line, '\0');
    proof {
        assert(views(fields@).len() == fields@.len());
        assert forall|i: int| 0 <= i < fields@.len() implies #[trigger] fields@[i]@ == views(
            fields@,
        )[i] by {}
    }
    if fields.len() < 5 {
        return None;
    }
    let timestamp = match read_i64(fields[4]) {
        Some(n) => n,
        None => {
            return None;
        },
    };
    let subject = if fields.len() > 5 {
        to_text(fields[5])
    } else {
        String::new()
    };
    Some(
        ProjectRepoCommitInfo {
            hash: to_text(fields[0]),
            short_hash: to_text(fields[1]),
            author_name: to_text(fields[2]),
            author_email: to_text(fields[3]),
            timestamp,
            subject,
        },
    )
}

/// Reads the commit on the first line of `output`.
pub fn parse_latest_commit(output: &str) -> (r: Option<ProjectRepoCommitInfo>)
    ensures
        r.deep_view() == latest_commit_of(output@),
{
    let cs = to_chars(output);
    match first_line_in(cs.as_slice()) {
        Some(line) => parse_commit_line(line),
        None => None,
    }
}

/// The commits that the lines of `output` describe, in order; lines that
/// describe none are passed over.
pub open spec fn commits_of(output: Seq<char>) -> Seq<CommitModel> {
    lines_of(output).filter_map(|line: Seq<char>| commit_of_line(line))
}

/// Reads the first fifty commits in `output`.
pub fn parse_commits(output: &str) -> (r: Vec<ProjectRepoCommitInfo>)
    ensures
        r.deep_view() == first_n(commits_of(output@), MAX_COMMITS as nat),
{
    let cs = to_chars(output);
    let lines = lines_in(cs.as_slice());
    let ghost all = lines_of(output@);
    let ghost f = |line: Seq<char>| commit_of_line(line);
    let mut out: Vec<ProjectRepoCommitInfo> = Vec::new();
    let mut i: usize = 0;
    assert(all.take(0).filter_map(f) == Seq::<CommitModel>::empty());
    while i < lines.len() && out.len() < MAX_COMMITS
        invariant
            i <= lines.len(),
            out.len() <= MAX_COMMITS,
            views(lines@) == all,
            f == (|line: Seq<char>| commit_of_line(line)),
            out.deep_view() == all.take(i as int).filter_map(f),
        decreases lines.len() - i,
    {
        proof {
            assert(lines@[i as int]@ == views(lines@)[i as int]);
            all.lemma_filter_map_take_succ(f, i as int);
        }
        let ghost before = out.deep_view();
        if let Some(commit) = parse_commit_line(lines[i]) {
            out.push(commit);
            assert(out.deep_view() == before.push(commit.deep_view()));
        }
        i += 1;
    }
    proof {
        lemma_filter_map_prefix(all, f, i as int);
        assert(all.take(all.len() as int) == all);
    }
    out
}

/// Filtering a prefix gives a prefix of filtering the whole.
pub proof fn lemma_filter_map_prefix<A, B>(s: Seq<A>, f: spec_fn(A) -> Option<B>, n: int)
    requires
        0 <= n <= s.len(),
    ensures
        s.take(n).filter_map(f).len() <= s.filter_map(f).len(),
        s.filter_map(f).take(s.take(n).filter_map(f).len() as int) == s.take(n).filter_map(f),
    decreases s.len() - n,
{
    if n < s.len() {
        lemma_filter_map_prefix(s, f, n + 1);
        s.lemma_filter_map_take_succ(f, n);
    } else {
        assert(s.take(n) == s);
    }
}

// ---------------------------------------------------------------------------
// The latest commit of each path

/// The commits by path: for each path the latest commit that touched it.
pub struct CommitIndex {
    map: StringHashMap<ProjectRepoCommitInfo>,
}

impl DeepView for CommitIndex {
    type V = Map<Seq<char>, CommitModel>;

    closed spec fn deep_view(&self) -> Map<Seq<char>, CommitModel> {
        self.map@.map_values(|c: ProjectRepoCommitInfo| c.deep_view())
    }
}

/// The commit of `path` in `index`.
pub open spec fn commit_for(index: Map<Seq<char>, CommitModel>, path: Seq<char>) -> Option<
    CommitModel,
> {
    if index.contains_key(path) {
        Some(index[path])
    } else {
        None
    }
}

impl CommitIndex {
    /// An index without any path.
    pub fn empty() -> (r: Self)
        ensures
            r.deep_view() == Map::<Seq<char>, CommitModel>::empty(),
    {
        let r = CommitIndex { map: StringHashMap::new() };
        assert(r.deep_view() =~= Map::<Seq<char>, CommitModel>::empty());
        r
    }

    /// A copy of the commit of `path`.
    pub fn get(&self, path: &str) -> (r: Option<ProjectRepoCommitInfo>)
        ensures
            r.deep_view() == commit_for(self.deep_view(), path@),
    {
        match self.map.get(path) {
            Some(commit) => Some(commit.clone()),
            None => None,
        }
    }

    /// Whether the index has a commit for `path`.
    pub fn contains(&self, path: &str) -> (r: bool)
        ensures
            r == self.deep_view().contains_key(path@),
    {
        self.map.contains_key(path)
    }

    fn insert(&mut self, path: String, commit: ProjectRepoCommitInfo)
        ensures
            final(self).deep_view() == old(self).deep_view().insert(path@, commit.deep_view()),
    {
        self.map.insert(path, commit);
        assert(self.deep_view() =~= old(self).deep_view().insert(path@, commit.deep_view()));
    }
}

/// A line of fields, which names the commit of the paths below it.
pub open spec fn is_header(line: Seq<char>) -> bool {
    !is_blank(line) && line.contains('\0')
}

/// A line that names a path.
pub open spec fn is_path_line(line: Seq<char>) -> bool {
    !is_blank(line) && !line.contains('\0')
}

/// The commit that holds after `lines`: that of the last header, if it could be
/// read.
pub open spec fn current_commit(lines: Seq<Seq<char>>) -> Option<CommitModel>
    decreases lines.len(),
{
    if lines.len() == 0 {
        None
    } else if is_header(lines.last()) {
        commit_of_line(lines.last())
    } else {
        current_commit(lines.drop_last())
    }
}

/// The commits by path: each path with the commit under which it comes first.
pub open spec fn index_of_lines(lines: Seq<Seq<char>>) -> Map<Seq<char>, CommitModel>
    decreases lines.len(),
{
    if lines.len() == 0 {
        Map::empty()
    } else {
        let index = index_of_lines(lines.drop_last());
        let line = lines.last();
        match current_commit(lines.drop_last()) {
            Some(commit) => if is_path_line(line) && !index.contains_key(line) {
                index.insert(line, commit)
            } else {
                index
            },
            None => index,
        }
    }
}

/// Reads the log of commits with the names of the files that each of them
/// touched, from the latest commit to the first.
pub fn parse_latest_commit_by_path(output: &str) -> (r: CommitIndex)
    ensures
        r.deep_view() == index_of_lines(lines_of(output@)),
{
    let cs = to_chars(output);
    let lines = lines_in(cs.as_slice());
    let ghost all = lines_of(output@);
    let mut current: Option<ProjectRepoCommitInfo> = None;
    let mut index = CommitIndex::empty();
    let mut i: usize = 0;
    while i < lines.len()
        invariant
            i <= lines.len(),
            views(lines@) == all,
            current.deep_view() == current_commit(all.take(i as int)),
            index.deep_view() == index_of_lines(all.take(i as int)),
        decreases lines.len() - i,
    {
        let line = lines[i];
        proof {
            assert(line@ == views(lines@)[i as int]);
            assert(all.take(i + 1).drop_last() == all.take(i as int));
            assert(all.take(i + 1).last() == line@);
        }
        i += 1;
        if blank(line) {
            continue;
        }
        if contains_char(line, '\0') {
            current = parse_commit_line(line);
            continue;
        }
        if let Some(commit) = &current {
            let path = to_text(line);
            if !index.contains(path.as_str()) {
                index.insert(path, commit.clone());
            }
        }
    }
    assert(all.take(all.len() as int) == all);
    index
}

// ---------------------------------------------------------------------------
// Laws

/// Line `i` names `path` below a commit.
pub open spec fn mentions(lines: Seq<Seq<char>>, i: int, path: Seq<char>) -> bool {
    0 <= i < lines.len() && lines[i] == path && is_path_line(path) && current_commit(
        lines.take(i),
    ) is Some
}

/// The index holds exactly the paths that the log names below a commit, and
/// the commit of a path is the one under which the log names it first: as the
/// log runs from the latest commit back, that is the latest one.
pub proof fn law_index_holds_first_mention(lines: Seq<Seq<char>>, path: Seq<char>)
    ensures
        index_of_lines(lines).contains_key(path) <==> exists|i: int|
            #[trigger] mentions(lines, i, path),
        forall|i: int|
            #[trigger] mentions(lines, i, path) && (forall|j: int|
                0 <= j < i ==> !#[trigger] mentions(lines, j, path)) ==> Some(
                index_of_lines(lines)[path],
            ) == current_commit(lines.take(i)),
    decreases lines.len(),
{
    if lines.len() > 0 {
        let shorter = lines.drop_last();
        let n = shorter.len() as int;
        law_index_holds_first_mention(shorter, path);
        assert forall|i: int| 0 <= i < n implies #[trigger] mentions(lines, i, path) == mentions(
            shorter,
            i,
            path,
        ) by {
            assert(lines.take(i) == shorter.take(i));
        }
        assert(lines.take(n) == shorter);
        if index_of_lines(shorter).contains_key(path) {
            let i = choose|i: int| #[trigger] mentions(shorter, i, path);
            assert(mentions(lines, i, path));
        } else if index_of_lines(lines).contains_key(path) {
            assert(mentions(lines, n, path));
        }
        assert forall|i: int|
            #[trigger] mentions(lines, i, path) && (forall|j: int|
                0 <= j < i ==> !#[trigger] mentions(lines, j, path)) implies Some(
            index_of_lines(lines)[path],
        ) == current_commit(lines.take(i)) by {
            if i < n {
                assert(mentions(shorter, i, path));
                assert forall|j: int| 0 <= j < i implies !#[trigger] mentions(shorter, j, path) by {
                    assert(!mentions(lines, j, path));
                }
                assert(lines.take(i) == shorter.take(i));
            } else {
                if index_of_lines(shorter).contains_key(path) {
                    let k = choose|k: int| #[trigger] mentions(shorter, k, path);
                    assert(mentions(lines, k, path));
                }
            }
        }
    }
}

/// A commit that is written in the format of the log is read back.
pub proof fn law_commit_reads_back(commit: CommitModel, time: Seq<char>)
    requires
        !commit.hash.contains('\0'),
        !commit.short_hash.contains('\0'),
        !commit.author_name.contains('\0'),
        !commit.author_email.contains('\0'),
        !commit.subject.contains('\0'),
        !time.contains('\0'),
        signed_value(time) == Some(commit.timestamp),
    ensures
        commit_of_line(
            commit.hash + seq!['\0'] + (commit.short_hash + seq!['\0'] + (commit.author_name
                + seq!['\0'] + (commit.author_email + seq!['\0'] + (time + seq!['\0']
                + commit.subject)))),
        ) == Some(commit),
{
    let l5 = commit.subject;
    let l4 = time + seq!['\0'] + l5;
    let l3 = commit.author_email + seq!['\0'] + l4;
    let l2 = commit.author_name + seq!['\0'] + l3;
    let l1 = commit.short_hash + seq!['\0'] + l2;
    lemma_split_part(commit.hash, l1, '\0');
    lemma_split_part(commit.short_hash, l2, '\0');
    lemma_split_part(commit.author_name, l3, '\0');
    lemma_split_part(commit.author_email, l4, '\0');
    lemma_split_part(time, l5, '\0');
    lemma_split_whole(l5, '\0');
}

/// A line of the log read by itself gives the same commit as it does within the
/// log.
pub proof fn law_line_reads_alike_alone(output: Seq<char>, i: int)
    requires
        0 <= i < lines_of(output).len(),
    ensures
        latest_commit_of(lines_of(output)[i]) == commit_of_line(lines_of(output)[i]),
{
    lemma_lines_hold_no_newline(output, i);
}

/// At most fifty commits are listed, and they are the first ones of the log.
pub proof fn law_commits_are_the_first_of_the_log(output: Seq<char>)
    ensures
        first_n(commits_of(output), MAX_COMMITS as nat).len() <= MAX_COMMITS,
        first_n(commits_of(output), MAX_COMMITS as nat).is_prefix_of(commits_of(output)),
{
}

/// What a line gives stands before what the further lines give.
pub proof fn lemma_filter_map_front<A, B>(x: A, s: Seq<A>, f: spec_fn(A) -> Option<B>)
    ensures
        (seq![x] + s).filter_map(f) == (match f(x) {
            Some(y) => seq![y],
            None => seq![],
        }) + s.filter_map(f),
    decreases s.len(),
{
    let whole = seq![x] + s;
    if s.len() == 0 {
        assert(whole =~= seq![x]);
        Seq::lemma_filter_map_singleton(x, f);
        assert(s.filter_map(f) =~= seq![]);
    } else {
        lemma_filter_map_front(x, s.drop_last(), f);
        assert(whole.drop_last() =~= seq![x] + s.drop_last());
        assert(whole.last() == s.last());
    }
}

/// A line of fields that NUL characters part is read field by field: hash, short
/// hash, author name, author email, time and subject, in this order. With fewer
/// than five fields, or with a time that is no number, it is no commit; a
/// missing subject is empty.
pub proof fn law_commit_line_holds_its_fields(fields: Seq<Seq<char>>)
    requires
        fields.len() > 0,
        forall|i: int| 0 <= i < fields.len() ==> !(#[trigger] fields[i]).contains('\0'),
    ensures
        ({
            let read = commit_of_line(joined(fields, '\0'));
            &&& fields.len() < 5 ==> read is None
            &&& fields.len() >= 5 ==> (read is Some <==> signed_value(fields[4]) is Some)
            &&& read matches Some(commit) ==> {
                &&& commit.hash == fields[0]
                &&& commit.short_hash == fields[1]
                &&& commit.author_name == fields[2]
                &&& commit.author_email == fields[3]
                &&& Some(commit.timestamp) == signed_value(fields[4])
                &&& fields.len() > 5 ==> commit.subject == fields[5]
                &&& fields.len() == 5 ==> commit.subject.len() == 0
            }
        }),
{
    law_split_undoes_join(fields, '\0');
}

/// The log is read line by line: each line that is a commit adds it, in order,
/// each other line adds nothing, and the first line gives the latest commit.
pub proof fn law_log_is_read_line_by_line(line: Seq<char>, rest: Seq<char>)
    requires
        !line.contains('\n'),
        line.len() == 0 || line.last() != '\r',
    ensures
        commits_of(line + seq!['\n'] + rest) == (match commit_of_line(line) {
            Some(commit) => seq![commit],
            None => seq![],
        }) + commits_of(rest),
        latest_commit_of(line + seq!['\n'] + rest) == commit_of_line(line),
        commits_of(Seq::<char>::empty()).len() == 0,
{
    law_lines_end_at_newlines(line, rest);
    lemma_filter_map_front(line, lines_of(rest), |l: Seq<char>| commit_of_line(l));
    assert(lines_of(line + seq!['\n'] + rest)[0] == line);
}

/// A commit that is written in the format of the log, with its time in decimal,
/// is the next one of the log and its latest.
pub proof fn law_written_commit_is_read(commit: CommitModel, rest: Seq<char>)
    requires
        !commit.hash.contains('\0') && !commit.hash.contains('\n'),
        !commit.short_hash.contains('\0') && !commit.short_hash.contains('\n'),
        !commit.author_name.contains('\0') && !commit.author_name.contains('\n'),
        !commit.author_email.contains('\0') && !commit.author_email.contains('\n'),
        !commit.subject.contains('\0') && !commit.subject.contains('\n'),
        commit.subject.len() > 0 ==> commit.subject.last() != '\r',
    ensures
        ({
            let line = joined(
                seq![
                    commit.hash,
                    commit.short_hash,
                    commit.author_name,
                    commit.author_email,
                    signed_decimal(commit.timestamp),
                    commit.subject,
                ],
                '\0',
            );
            &&& latest_commit_of(line + seq!['\n'] + rest) == Some(commit)
            &&& commits_of(line + seq!['\n'] + rest) == seq![commit] + commits_of(rest)
        }),
{
    let time = signed_decimal(commit.timestamp);
    let fields = seq![
        commit.hash,
        commit.short_hash,
        commit.author_name,
        commit.author_email,
        time,
        commit.subject,
    ];
    law_signed_decimal_is_a_word(commit.timestamp);
    assert forall|i: int| 0 <= i < time.len() implies time[i] != '\0' && time[i] != '\n' by {
        assert(time[i] == '-' || '0' <= time[i] <= '9');
    }
    assert(!time.contains('\0') && !time.contains('\n'));
    assert forall|i: int| 0 <= i < fields.len() implies !(#[trigger] fields[i]).contains('\0')
        && !fields[i].contains('\n') by {}
    law_commit_line_holds_its_fields(fields);
    let line = joined(fields, '\0');
    lemma_joined_holds(fields, '\0', '\n');
    lemma_joined_last(fields, '\0');
    assert(line.last() != '\r') by {
        if commit.subject.len() == 0 {
            assert(line.last() == '\0');
        }
    }
    let read = commit_of_line(line)->0;
    assert(read == commit);
    law_log_is_read_line_by_line(line, rest);
}

/// Joined parts hold only what the parts hold, and the separator.
pub proof fn lemma_joined_holds(parts: Seq<Seq<char>>, c: char, d: char)
    requires
        c != d,
        forall|i: int| 0 <= i < parts.len() ==> !(#[trigger] parts[i]).contains(d),
    ensures
        !joined(parts, c).contains(d),
    decreases parts.len(),
{
    if parts.len() == 1 {
        assert(!parts[0].contains(d));
    } else if parts.len() > 1 {
        let rest = parts.drop_first();
        assert forall|i: int| 0 <= i < rest.len() implies !(#[trigger] rest[i]).contains(d) by {
            assert(rest[i] == parts[i + 1]);
        }
        lemma_joined_holds(rest, c, d);
        assert(!parts[0].contains(d));
        let s = joined(parts, c);
        let n = parts[0].len() as int;
        assert forall|i: int| 0 <= i < s.len() implies s[i] != d by {
            if i < n {
                assert(s[i] == parts[0][i]);
                assert(parts[0].contains(parts[0][i]));
            } else if i > n {
                assert(s[i] == joined(rest, c)[i - n - 1]);
                assert(joined(rest, c).contains(joined(rest, c)[i - n - 1]));
            }
        }
    }
}

/// Joined parts end as the last part does, or with the separator if it is empty.
pub proof fn lemma_joined_last(parts: Seq<Seq<char>>, c: char)
    requires
        parts.len() > 1,
    ensures
        joined(parts, c).len() > 0,
        joined(parts, c).last() == if parts.last().len() > 0 {
            parts.last().last()
        } else {
            c
        },
    decreases parts.len(),
{
    let rest = parts.drop_first();
    assert(rest.last() == parts.last());
    if parts.len() > 2 {
        lemma_joined_last(rest, c);
    } else {
        assert(joined(rest, c) == rest[0]);
    }
}

/// A path below the header of a commit has a commit, and keeps it whatever lines
/// follow. It is the commit of that header, unless the log names the path
/// before.
pub proof fn law_path_has_the_commit_above_it(
    before: Seq<Seq<char>>,
    header: Seq<char>,
    between: Seq<Seq<char>>,
    path: Seq<char>,
    more: Seq<Seq<char>>,
)
    requires
        header.contains('\0') && !is_blank(header),
        commit_of_line(header) is Some,
        !path.contains('\0') && !is_blank(path),
        forall|i: int| 0 <= i < between.len() ==> !(#[trigger] between[i]).contains('\0'),
    ensures
        ({
            let index = index_of_lines(before.push(header) + between + seq![path] + more);
            &&& index.contains_key(path)
            &&& !before.contains(path) && !between.contains(path) ==> Some(index[path])
                == commit_of_line(header)
        }),
    decreases more.len(),
{
    let upto = before.push(header) + between;
    let lines = upto + seq![path] + more;
    if more.len() > 0 {
        law_path_has_the_commit_above_it(before, header, between, path, more.drop_last());
        assert(lines.drop_last() =~= upto + seq![path] + more.drop_last());
    } else {
        assert(lines =~= upto.push(path));
        assert(lines.drop_last() =~= upto);
        lemma_header_governs(before, header, between);
        if !before.contains(path) && !between.contains(path) {
            law_index_holds_first_mention(upto, path);
            assert(header != path);
            assert forall|i: int| !(#[trigger] mentions(upto, i, path)) by {
                if mentions(upto, i, path) {
                    if i < before.len() {
                        assert(before[i] == path);
                    } else if i > before.len() {
                        assert(between[i - before.len() - 1] == path);
                    }
                }
            }
        }
    }
}

proof fn lemma_header_governs(
    before: Seq<Seq<char>>,
    header: Seq<char>,
    between: Seq<Seq<char>>,
)
    requires
        header.contains('\0') && !is_blank(header),
        forall|i: int| 0 <= i < between.len() ==> !(#[trigger] between[i]).contains('\0'),
    ensures
        current_commit(before.push(header) + between) == commit_of_line(header),
    decreases between.len(),
{
    let lines = before.push(header) + between;
    if between.len() == 0 {
        assert(lines =~= before.push(header));
    } else {
        lemma_header_governs(before, header, between.drop_last());
        assert(lines.drop_last() =~= before.push(header) + between.drop_last());
        assert(lines.last() == between[between.len() - 1]);
    }
}

/// Only paths that stand on a line of their own have a commit, and the commit is
/// one that a line of the log describes.
pub proof fn law_indexed_paths_are_lines_of_the_log(lines: Seq<Seq<char>>, path: Seq<char>)
    ensures
        index_of_lines(lines).contains_key(path) ==> lines.contains(path) && exists|i: int|
            0 <= i < lines.len() && commit_of_line(#[trigger] lines[i]) == Some(
                index_of_lines(lines)[path],
            ),
    decreases lines.len(),
{
    if lines.len() > 0 && index_of_lines(lines).contains_key(path) {
        let shorter = lines.drop_last();
        if index_of_lines(shorter).contains_key(path) {
            law_indexed_paths_are_lines_of_the_log(shorter, path);
            let i = choose|i: int|
                0 <= i < shorter.len() && commit_of_line(#[trigger] shorter[i]) == Some(
                    index_of_lines(shorter)[path],
                );
            assert(lines[i] == shorter[i]);
            let j = choose|j: int| 0 <= j < shorter.len() && shorter[j] == path;
            assert(lines[j] == path);
        } else {
            assert(lines[lines.len() - 1] == path);
            lemma_current_commit_is_a_line(shorter);
            let i = choose|i: int|
                0 <= i < shorter.len() && commit_of_line(#[trigger] shorter[i]) == current_commit(
                    shorter,
                );
            assert(lines[i] == shorter[i]);
        }
    }
}

proof fn lemma_current_commit_is_a_line(lines: Seq<Seq<char>>)
    requires
        current_commit(lines) is Some,
    ensures
        exists|i: int|
            0 <= i < lines.len() && commit_of_line(#[trigger] lines[i]) == current_commit(lines),
    decreases lines.len(),
{
    if is_header(lines.last()) {
        assert(commit_of_line(lines[lines.len() - 1]) == current_commit(lines));
    } else {
        let shorter = lines.drop_last();
        lemma_current_commit_is_a_line(shorter);
        let i = choose|i: int|
            0 <= i < shorter.len() && commit_of_line(#[trigger] shorter[i]) == current_commit(
                shorter,
            );
        assert(lines[i] == shorter[i]);
    }
}

} // verus!
