//! The files of a snapshot: what `git ls-tree`, `git ls-files` and
//! `git cat-file --batch` say of them, and the previews of their text.
use crate::exchange::{
    bytes_at, bytes_reply, files_at, files_reply, follows, owned, previews_at, previews_reply,
    FileProbe, PreviewProbe, Progress, Reply, Request, RequestModel,
};
use crate::history::{commit_for, lemma_filter_map_front, lemma_filter_map_prefix, CommitIndex};
use crate::model::{first_n, CommitModel, FileModel, ProjectRepoFileInfo};
use crate::paths::{is_below, lies_below};
use crate::text::{
    blank, decimal, find_char, has_no_space, is_blank, is_digit, is_white_space,
    law_decimal_reads_back, law_lines_end_at_newlines, lemma_position_is, lemma_position_of,
    lemma_split_part, lemma_split_whole, lemma_tokens_first, lemma_tokens_skip_space, lines_in,
    lines_of, position_of, read_u64, read_usize, same_text, split_chars, split_on, to_chars,
    to_text, tokens_in, tokens_of, unsigned_value, views,
};
use vstd::hash_map::StringHashMap;
use vstd::prelude::*;
use vstd::slice::{slice_subrange, slice_to_vec};
use vstd::utf8::{
    decode_utf8, decode_utf8_encode_utf8, encode_scalar, encode_utf8, encode_utf8_decode_utf8,
    encode_utf8_valid_utf8, is_ascii_chars, is_ascii_chars_encode_utf8, valid_utf8,
};

verus! {

/// The size in bytes above which a file has no preview.
pub const MAX_PREVIEW_BYTES: u64 = 65536;

/// The number of files that a snapshot lists at most.
pub const MAX_FILES: usize = 250;

// ---------------------------------------------------------------------------
// Bytes and text

/// Turns bytes into a string. `String::from_utf8` succeeds exactly on valid
/// UTF-8, and the string then holds the characters that the bytes encode.
#[verifier::external_body]
fn utf8_string(bytes: Vec<u8>) -> (r: Option<String>)
    ensures
        r is Some <==> valid_utf8(bytes@),
        r matches Some(s) ==> s@ == decode_utf8(bytes@),
{
    String::from_utf8(bytes).ok()
}

/// The text that `String::from_utf8_lossy` makes of `bytes`.
pub uninterp spec fn lossy_text(bytes: Seq<u8>) -> Seq<char>;

/// Turns bytes into a string, come what may. `String::from_utf8_lossy` gives
/// the encoded characters where the bytes are valid UTF-8. Where it puts its
/// replacement characters otherwise is left unsaid; the result depends on the
/// bytes alone.
#[verifier::external_body]
fn lossy_string(bytes: &[u8]) -> (r: String)
    ensures
        r@ == lossy_text(bytes@),
        valid_utf8(bytes@) ==> r@ == decode_utf8(bytes@),
{
    String::from_utf8_lossy(bytes).into_owned()
}

/// The text of `bytes`, come what may: the characters that they encode or, where
/// they are not valid UTF-8, the lossy text.
pub open spec fn text_of_bytes(bytes: Seq<u8>) -> Seq<char> {
    if valid_utf8(bytes) {
        decode_utf8(bytes)
    } else {
        lossy_text(bytes)
    }
}

/// The text of a file with the contents `bytes`: none if a NUL byte is among
/// them or if they are not valid UTF-8.
pub open spec fn preview_text(bytes: Seq<u8>) -> Option<Seq<char>> {
    if bytes.contains(0) || !valid_utf8(bytes) {
        None
    } else {
        Some(decode_utf8(bytes))
    }
}

/// The position of the first `b` at or after `start`, or the length of `s`.
pub open spec fn byte_position(s: Seq<u8>, start: int, b: u8) -> int
    decreases s.len() - start,
{
    if start >= s.len() || s[start] == b {
        start
    } else {
        byte_position(s, start + 1, b)
    }
}

fn find_byte(s: &[u8], start: usize, b: u8) -> (r: usize)
    requires
        start <= s@.len(),
    ensures
        start <= r <= s@.len(),
        r == byte_position(s@, start as int, b),
{
    let mut i: usize = start;
    while i < s.len() && s[i] != b
        invariant
            start <= i <= s@.len(),
            byte_position(s@, start as int, b) == byte_position(s@, i as int, b),
        decreases s.len() - i,
    {
        i += 1;
    }
    i
}

proof fn lemma_byte_position(s: Seq<u8>, start: int, b: u8, at: int)
    requires
        0 <= start <= at <= s.len(),
        at < s.len() ==> s[at] == b,
        forall|i: int| start <= i < at ==> s[i] != b,
    ensures
        byte_position(s, start, b) == at,
    decreases s.len() - start,
{
    if start < at {
        lemma_byte_position(s, start + 1, b, at);
    }
}

proof fn lemma_byte_found(s: Seq<u8>, start: int, b: u8)
    requires
        0 <= start <= s.len(),
    ensures
        start <= byte_position(s, start, b) <= s.len(),
        byte_position(s, start, b) < s.len() ==> s[byte_position(s, start, b)] == b,
        forall|i: int| start <= i < byte_position(s, start, b) ==> s[i] != b,
    decreases s.len() - start,
{
    if start < s.len() && s[start] != b {
        lemma_byte_found(s, start + 1, b);
    }
}

fn text_preview(bytes: &[u8]) -> (r: Option<String>)
    ensures
        r.deep_view() == preview_text(bytes@),
{
    let zero = find_byte(bytes, 0, 0);
    proof {
        lemma_byte_found(bytes@, 0, 0);
    }
    if zero < bytes.len() {
        assert(bytes@.contains(0)) by {
            assert(bytes@[zero as int] == 0);
        }
        return None;
    }
    assert(!bytes@.contains(0));
    utf8_string(slice_to_vec(bytes))
}

/// Whether a file of this size has a preview; a size that is not known counts
/// as small.
pub open spec fn small_enough(size: Option<u64>) -> bool {
    size matches Some(n) ==> n <= MAX_PREVIEW_BYTES
}

/// Whether the text of a file of this size is to be read.
pub fn wants_preview(size: Option<u64>) -> (r: bool)
    ensures
        r == small_enough(size),
{
    match size {
        Some(n) => n <= MAX_PREVIEW_BYTES,
        None => true,
    }
}

/// The preview of a file: its text, if the file is small enough, lies within
/// the repository and holds text.
pub open spec fn preview_of(size: Option<u64>, probe: PreviewProbe) -> Option<Seq<char>> {
    match probe {
        PreviewProbe::Resolved { path, root, content: Some(bytes) } => if small_enough(size)
            && lies_below(path.deep_view(), root.deep_view()) {
            preview_text(bytes@)
        } else {
            None
        },
        _ => None,
    }
}

/// The preview of a file of the checkout.
pub fn read_preview_content(size: Option<u64>, probe: &PreviewProbe) -> (r: Option<String>)
    ensures
        r.deep_view() == preview_of(size, *probe),
{
    if !wants_preview(size) {
        return None;
    }
    match probe {
        PreviewProbe::Resolved { path, root, content } => {
            if !is_below(path.as_slice(), root.as_slice()) {
                return None;
            }
            match content {
                Some(bytes) => text_preview(bytes.as_slice()),
                None => None,
            }
        },
        PreviewProbe::Unresolved => None,
    }
}

/// A number of seconds since the epoch as a signed number, if it fits.
pub open spec fn signed_seconds(seconds: Option<u64>) -> Option<i64> {
    match seconds {
        Some(n) => if n <= i64::MAX {
            Some(n as i64)
        } else {
            None
        },
        None => None,
    }
}

/// The time of the last change of a file.
pub fn path_modified_at(seconds: Option<u64>) -> (r: Option<i64>)
    ensures
        r == signed_seconds(seconds),
{
    match seconds {
        Some(n) => if n <= i64::MAX as u64 {
            Some(n as i64)
        } else {
            None
        },
        None => None,
    }
}

// ---------------------------------------------------------------------------
// The entries of a tree

/// One line of `git ls-tree --long`.
#[derive(Debug)]
pub struct RefTreeEntry {
    pub path: String,
    pub kind: String,
    pub object: String,
    pub size: Option<u64>,
}

pub struct EntryModel {
    pub path: Seq<char>,
    pub kind: Seq<char>,
    pub object: Seq<char>,
    pub size: Option<u64>,
}

impl DeepView for RefTreeEntry {
    type V = EntryModel;

    open spec fn deep_view(&self) -> EntryModel {
        EntryModel { path: self.path@, kind: self.kind@, object: self.object@, size: self.size }
    }
}

/// The size that a field of a tree entry writes.
pub open spec fn size_of_field(field: Seq<char>) -> Option<u64> {
    match unsigned_value(field, u64::MAX as nat) {
        Some(n) => Some(n as u64),
        None => None,
    }
}

/// The entry that a line describes: mode, kind, object and, if it is there and
/// can be read, the size, then a tabulator and the path.
pub open spec fn entry_of_line(line: Seq<char>) -> Option<EntryModel> {
    let tab = position_of(line, '\t');
    let fields = tokens_of(line.take(tab));
    if tab < line.len() && fields.len() >= 3 {
        Some(
            EntryModel {
                path: line.skip(tab + 1),
                kind: fields[1],
                object: fields[2],
                size: if fields.len() > 3 {
                    size_of_field(fields[3])
                } else {
                    None
                },
            },
        )
    } else {
        None
    }
}

fn parse_tree_line(line: &[char]) -> (r: Option<RefTreeEntry>)
    ensures
        r.deep_view() == entry_of_line(line@),
{
    let tab = find_char(line, 0, '\t');
    assert(line@.skip(0) == line@);
    if tab >= line.len() {
        return None;
    }
    let meta = slice_subrange(line, 0, tab);
    assert(meta@ == line@.take(tab as int));
    let fields = tokens_in(meta);
    proof {
        assert(views(fields@).len() == fields@.len());
        assert forall|i: int| 0 <= i < fields@.len() implies #[trigger] fields@[i]@ == views(
            fields@,
        )[i] by {}
    }
    if fields.len() < 3 {
        return None;
    }
    let size = if fields.len() > 3 {
        read_u64(fields[3])
    } else {
        None
    };
    let path = slice_subrange(line, tab + 1, line.len());
    assert(path@ == line@.skip(tab + 1));
    Some(
        RefTreeEntry {
            path: to_text(path),
            kind: to_text(fields[1]),
            object: to_text(fields[2]),
            size,
        },
    )
}

/// The first entries that the lines of `output` describe; lines that describe
/// none are passed over.
pub open spec fn entries_of(output: Seq<char>) -> Seq<EntryModel> {
    first_n(
        lines_of(output).filter_map(|line: Seq<char>| entry_of_line(line)),
        MAX_FILES as nat,
    )
}

/// Reads the first 250 entries of a tree.
pub fn parse_ref_tree_entries(output: &str) -> (r: Vec<RefTreeEntry>)
    ensures
        r.deep_view() == entries_of(output@),
{
    let cs = to_chars(output);
    let lines = lines_in(cs.as_slice());
    let ghost all = lines_of(output@);
    let ghost f = |line: Seq<char>| entry_of_line(line);
    let mut out: Vec<RefTreeEntry> = Vec::new();
    let mut i: usize = 0;
    assert(all.take(0).filter_map(f) == Seq::<EntryModel>::empty());
    while i < lines.len() && out.len() < MAX_FILES
        invariant
            i <= lines.len(),
            out.len() <= MAX_FILES,
            views(lines@) == all,
            f == (|line: Seq<char>| entry_of_line(line)),
            out.deep_view() == all.take(i as int).filter_map(f),
        decreases lines.len() - i,
    {
        proof {
            assert(lines@[i as int]@ == views(lines@)[i as int]);
            all.lemma_filter_map_take_succ(f, i as int);
        }
        let ghost before = out.deep_view();
        if let Some(entry) = parse_tree_line(lines[i]) {
            out.push(entry);
            assert(out.deep_view() == before.push(entry.deep_view()));
        }
        i += 1;
    }
    proof {
        lemma_filter_map_prefix(all, f, i as int);
        assert(all.take(all.len() as int) == all);
    }
    out
}

/// Whether an entry is a file whose text is to be shown.
pub open spec fn previewable(entry: EntryModel) -> bool {
    entry.kind == "blob"@ && small_enough(entry.size)
}

fn is_previewable(entry: &RefTreeEntry) -> (r: bool)
    ensures
        r == previewable(entry.deep_view()),
{
    same_text(entry.kind.as_str(), "blob") && wants_preview(entry.size)
}

/// The time of a commit that may be missing.
pub open spec fn time_of(commit: Option<CommitModel>) -> Option<i64> {
    match commit {
        Some(c) => Some(c.timestamp),
        None => None,
    }
}

/// The file of a snapshot that an entry of a tree describes.
pub open spec fn tree_file(
    entry: EntryModel,
    preview: Option<Seq<char>>,
    index: Map<Seq<char>, CommitModel>,
) -> FileModel {
    FileModel {
        path: entry.path,
        kind: entry.kind,
        size: entry.size,
        preview_content: preview,
        last_changed_at: time_of(commit_for(index, entry.path)),
        latest_commit: commit_for(index, entry.path),
    }
}

fn make_tree_file(entry: &RefTreeEntry, preview: Option<String>, index: &CommitIndex) -> (r:
    ProjectRepoFileInfo)
    ensures
        r.deep_view() == tree_file(entry.deep_view(), preview.deep_view(), index.deep_view()),
{
    let latest_commit = index.get(entry.path.as_str());
    let last_changed_at = match &latest_commit {
        Some(commit) => Some(commit.timestamp),
        None => None,
    };
    ProjectRepoFileInfo {
        path: entry.path.clone(),
        kind: entry.kind.clone(),
        size: entry.size,
        preview_content: preview,
        last_changed_at,
        latest_commit,
    }
}

// ---------------------------------------------------------------------------
// The files of a fresh clone

/// The preview of an entry, given what the file system said of it.
pub open spec fn entry_preview(entry: EntryModel, previews: Seq<PreviewProbe>, i: int) -> Option<
    Seq<char>,
> {
    if entry.kind == "blob"@ && i < previews.len() {
        preview_of(entry.size, previews[i])
    } else {
        None
    }
}

/// The files that a tree describes, with the previews that were read.
pub open spec fn tree_files(
    entries: Seq<EntryModel>,
    previews: Seq<PreviewProbe>,
    index: Map<Seq<char>, CommitModel>,
) -> Seq<FileModel> {
    Seq::new(
        entries.len(),
        |i: int| tree_file(entries[i], entry_preview(entries[i], previews, i), index),
    )
}

/// Makes the files of a snapshot from the tree of the checkout. The `i`-th
/// probe is of the `i`-th entry; without a probe there is no preview.
pub fn parse_ls_tree(output: &str, previews: &[PreviewProbe], index: &CommitIndex) -> (r: Vec<
    ProjectRepoFileInfo,
>)
    ensures
        r.deep_view() == tree_files(entries_of(output@), previews@, index.deep_view()),
{
    let entries = parse_ref_tree_entries(output);
    let ghost models = entries.deep_view();
    let mut out: Vec<ProjectRepoFileInfo> = Vec::new();
    let mut i: usize = 0;
    while i < entries.len()
        invariant
            i <= entries.len(),
            models == entries.deep_view(),
            out@.len() == i,
            forall|j: int|
                0 <= j < i ==> (#[trigger] out@[j]).deep_view() == tree_file(
                    models[j],
                    entry_preview(models[j], previews@, j),
                    index.deep_view(),
                ),
        decreases entries.len() - i,
    {
        let entry = &entries[i];
        let preview = if same_text(entry.kind.as_str(), "blob") && i < previews.len() {
            read_preview_content(entry.size, &previews[i])
        } else {
            None
        };
        out.push(make_tree_file(entry, preview, index));
        i += 1;
    }
    assert(out.deep_view() =~= tree_files(models, previews@, index.deep_view()));
    out
}

/// For each entry the path to read, if a preview is wanted.
pub open spec fn wanted_previews(entries: Seq<EntryModel>) -> Seq<Option<Seq<char>>> {
    entries.map_values(
        |e: EntryModel|
            if previewable(e) {
                Some(e.path)
            } else {
                None
            },
    )
}

pub open spec fn any_previewable(entries: Seq<EntryModel>) -> bool {
    exists|i: int| 0 <= i < entries.len() && previewable(#[trigger] entries[i])
}

/// The files of a fresh clone take one round of file reading, if any file is to
/// be read.
pub open spec fn checkout_files_script(output: Seq<char>) -> Seq<RequestModel> {
    if any_previewable(entries_of(output)) {
        seq![RequestModel::Previews { wanted: wanted_previews(entries_of(output)) }]
    } else {
        seq![]
    }
}

/// Makes the files of a snapshot from the tree of a fresh clone and the files
/// on disk.
pub fn checkout_files(output: &str, index: &CommitIndex, replies: &[Reply]) -> (r: Progress<
    Vec<ProjectRepoFileInfo>,
>)
    ensures
        follows(
            r,
            checkout_files_script(output@),
            replies@.len(),
            tree_files(entries_of(output@), previews_at(replies@, 0), index.deep_view()),
        ),
{
    let entries = parse_ref_tree_entries(output);
    let ghost models = entries.deep_view();
    let mut wanted: Vec<Option<String>> = Vec::new();
    let mut any = false;
    let mut i: usize = 0;
    while i < entries.len()
        invariant
            i <= entries.len(),
            models == entries.deep_view(),
            wanted@.len() == i,
            forall|j: int|
                0 <= j < i ==> (#[trigger] wanted@[j]).deep_view() == wanted_previews(models)[j],
            any == (exists|j: int| 0 <= j < i && previewable(#[trigger] models[j])),
        decreases entries.len() - i,
    {
        let entry = &entries[i];
        assert(models[i as int] == entry.deep_view());
        if is_previewable(entry) {
            any = true;
            wanted.push(Some(entry.path.clone()));
        } else {
            wanted.push(None);
        }
        i += 1;
    }
    if any && replies.len() == 0 {
        assert(wanted.deep_view() =~= wanted_previews(models));
        return Progress::Ask(Request::Previews { wanted });
    }
    let empty: Vec<PreviewProbe> = Vec::new();
    let probes: &[PreviewProbe] = match previews_reply(replies, 0) {
        Some(probes) => probes,
        None => empty.as_slice(),
    };
    assert(probes@ =~= previews_at(replies@, 0));
    let used: usize = if any {
        1
    } else {
        0
    };
    Progress::Done { value: parse_ls_tree(output, probes, index), used }
}

// ---------------------------------------------------------------------------
// The files of a working tree

/// The paths that `git ls-files -z` lists.
pub open spec fn worktree_paths_of(output: Seq<char>) -> Seq<Seq<char>> {
    split_on(output, '\0').filter(|path: Seq<char>| !is_blank(path))
}

/// Reads the paths that `git ls-files -z` lists.
pub fn worktree_paths(output: &str) -> (r: Vec<String>)
    ensures
        r.deep_view() == worktree_paths_of(output@),
{
    let cs = to_chars(output);
    let parts = split_chars(cs.as_slice(), '\0');
    let ghost all = split_on(output@, '\0');
    let ghost p = |path: Seq<char>| !is_blank(path);
    let mut out: Vec<String> = Vec::new();
    let mut i: usize = 0;
    assert(all.take(0).filter(p) =~= Seq::<Seq<char>>::empty()) by {
        all.take(0).lemma_filter_len(p);
    }
    while i < parts.len()
        invariant
            i <= parts.len(),
            views(parts@) == all,
            p == (|path: Seq<char>| !is_blank(path)),
            out.deep_view() == all.take(i as int).filter(p),
        decreases parts.len() - i,
    {
        let part = parts[i];
        let ghost before = out.deep_view();
        proof {
            assert(part@ == views(parts@)[i as int]);
            assert(all.take(i + 1) == all.take(i as int).push(part@));
            all.take(i as int).lemma_filter_push(part@, p);
        }
        if !blank(part) {
            let path = to_text(part);
            out.push(path);
            assert(out.deep_view() =~= before.push(part@));
        }
        i += 1;
    }
    assert(all.take(all.len() as int) == all);
    out
}

/// The file of a snapshot at `path` of the working tree, if a regular file is
/// there. It changed last with its latest commit or, without one, when the
/// file itself did.
pub open spec fn worktree_file(
    path: Seq<char>,
    probe: FileProbe,
    index: Map<Seq<char>, CommitModel>,
) -> Option<FileModel> {
    match probe {
        FileProbe::NotAFile => None,
        FileProbe::File { size, modified, preview } => Some(
            FileModel {
                path,
                kind: "blob"@,
                size: Some(size),
                preview_content: preview_of(Some(size), preview),
                last_changed_at: match commit_for(index, path) {
                    Some(commit) => Some(commit.timestamp),
                    None => signed_seconds(modified),
                },
                latest_commit: commit_for(index, path),
            },
        ),
    }
}

/// The paths with what the file system said of them, as far as it did.
pub open spec fn probed(paths: Seq<Seq<char>>, probes: Seq<FileProbe>) -> Seq<
    (Seq<char>, FileProbe),
> {
    Seq::new(
        if paths.len() < probes.len() {
            paths.len()
        } else {
            probes.len()
        },
        |i: int| (paths[i], probes[i]),
    )
}

/// Every regular file among `paths`, in order.
pub open spec fn all_worktree_files(
    paths: Seq<Seq<char>>,
    probes: Seq<FileProbe>,
    index: Map<Seq<char>, CommitModel>,
) -> Seq<FileModel> {
    probed(paths, probes).filter_map(|p: (Seq<char>, FileProbe)| worktree_file(p.0, p.1, index))
}

/// The first regular files among `paths`, in order.
pub open spec fn worktree_files_of(
    paths: Seq<Seq<char>>,
    probes: Seq<FileProbe>,
    index: Map<Seq<char>, CommitModel>,
) -> Seq<FileModel> {
    first_n(all_worktree_files(paths, probes, index), MAX_FILES as nat)
}

fn make_worktree_file(path: &String, probe: &FileProbe, index: &CommitIndex) -> (r: Option<
    ProjectRepoFileInfo,
>)
    ensures
        r.deep_view() == worktree_file(path@, *probe, index.deep_view()),
{
    match probe {
        FileProbe::NotAFile => None,
        FileProbe::File { size, modified, preview } => {
            let latest_commit = index.get(path.as_str());
            let last_changed_at = match &latest_commit {
                Some(commit) => Some(commit.timestamp),
                None => path_modified_at(*modified),
            };
            Some(
                ProjectRepoFileInfo {
                    path: path.clone(),
                    kind: "blob".to_string(),
                    size: Some(*size),
                    preview_content: read_preview_content(Some(*size), preview),
                    last_changed_at,
                    latest_commit,
                },
            )
        },
    }
}

/// Makes the files of a snapshot of the working tree: the first 250 regular
/// files among the listed paths. The `i`-th probe is of the `i`-th path.
pub fn parse_worktree_files(output: &str, probes: &[FileProbe], index: &CommitIndex) -> (r: Vec<
    ProjectRepoFileInfo,
>)
    ensures
        r.deep_view() == worktree_files_of(worktree_paths_of(output@), probes@, index.deep_view()),
{
    let paths = worktree_paths(output);
    let ghost all = probed(paths.deep_view(), probes@);
    let ghost f = |p: (Seq<char>, FileProbe)| worktree_file(p.0, p.1, index.deep_view());
    let mut out: Vec<ProjectRepoFileInfo> = Vec::new();
    let mut i: usize = 0;
    assert(all.take(0).filter_map(f) == Seq::<FileModel>::empty());
    while i < paths.len() && i < probes.len() && out.len() < MAX_FILES
        invariant
            i <= paths.len(),
            i <= probes.len(),
            out.len() <= MAX_FILES,
            all == probed(paths.deep_view(), probes@),
            f == (|p: (Seq<char>, FileProbe)| worktree_file(p.0, p.1, index.deep_view())),
            out.deep_view() == all.take(i as int).filter_map(f),
        decreases paths.len() - i,
    {
        proof {
            assert(all[i as int] == (paths@[i as int]@, probes@[i as int]));
            all.lemma_filter_map_take_succ(f, i as int);
        }
        let ghost before = out.deep_view();
        if let Some(file) = make_worktree_file(&paths[i], &probes[i], index) {
            out.push(file);
            assert(out.deep_view() == before.push(file.deep_view()));
        }
        i += 1;
    }
    proof {
        lemma_filter_map_prefix(all, f, i as int);
        assert(all.take(all.len() as int) == all);
        assert(all_worktree_files(paths.deep_view(), probes@, index.deep_view())
            == all.filter_map(f));
    }
    out
}

/// The files of a working tree take one round of looking at paths, if any path
/// is listed.
pub open spec fn worktree_files_script(output: Seq<char>) -> Seq<RequestModel> {
    if worktree_paths_of(output).len() > 0 {
        seq![RequestModel::Files { paths: worktree_paths_of(output), limit: MAX_FILES as nat }]
    } else {
        seq![]
    }
}

/// Makes the files of a snapshot from the paths of a working tree and what is
/// on disk.
pub fn worktree_files(output: &str, index: &CommitIndex, replies: &[Reply]) -> (r: Progress<
    Vec<ProjectRepoFileInfo>,
>)
    ensures
        follows(
            r,
            worktree_files_script(output@),
            replies@.len(),
            worktree_files_of(
                worktree_paths_of(output@),
                files_at(replies@, 0),
                index.deep_view(),
            ),
        ),
{
    let paths = worktree_paths(output);
    assert(paths.deep_view().len() == paths@.len());
    if paths.len() > 0 && replies.len() == 0 {
        return Progress::Ask(Request::Files { paths, limit: MAX_FILES });
    }
    let empty: Vec<FileProbe> = Vec::new();
    let probes: &[FileProbe] = match files_reply(replies, 0) {
        Some(probes) => probes,
        None => empty.as_slice(),
    };
    assert(probes@ =~= files_at(replies@, 0));
    let used: usize = if paths.len() > 0 {
        1
    } else {
        0
    };
    Progress::Done { value: parse_worktree_files(output, probes, index), used }
}

// ---------------------------------------------------------------------------
// The files of another reference

/// The texts of blobs by path.
pub struct BlobPreviews {
    map: StringHashMap<String>,
}

impl DeepView for BlobPreviews {
    type V = Map<Seq<char>, Seq<char>>;

    closed spec fn deep_view(&self) -> Map<Seq<char>, Seq<char>> {
        self.map@.map_values(|s: String| s@)
    }
}

/// The text at `path`.
pub open spec fn text_for(previews: Map<Seq<char>, Seq<char>>, path: Seq<char>) -> Option<
    Seq<char>,
> {
    if previews.contains_key(path) {
        Some(previews[path])
    } else {
        None
    }
}

impl BlobPreviews {
    /// No texts.
    pub fn empty() -> (r: Self)
        ensures
            r.deep_view() == Map::<Seq<char>, Seq<char>>::empty(),
    {
        let r = BlobPreviews { map: StringHashMap::new() };
        assert(r.deep_view() =~= Map::<Seq<char>, Seq<char>>::empty());
        r
    }

    /// A copy of the text at `path`.
    pub fn get(&self, path: &str) -> (r: Option<String>)
        ensures
            r.deep_view() == text_for(self.deep_view(), path@),
    {
        match self.map.get(path) {
            Some(text) => Some(text.clone()),
            None => None,
        }
    }

    fn insert(&mut self, path: String, text: String)
        ensures
            final(self).deep_view() == old(self).deep_view().insert(path@, text@),
    {
        self.map.insert(path, text);
        assert(self.deep_view() =~= old(self).deep_view().insert(path@, text@));
    }
}

/// The number of bytes that a header of `git cat-file --batch` announces: its
/// third field.
pub open spec fn announced(header: Seq<char>) -> Option<nat> {
    let fields = tokens_of(header);
    if fields.len() > 2 {
        unsigned_value(fields[2], usize::MAX as nat)
    } else {
        None
    }
}

/// Reads the number of bytes that a header announces.
pub fn announced_length(header: &str) -> (r: Option<usize>)
    ensures
        match r {
            Some(n) => announced(header@) == Some(n as nat),
            None => announced(header@) is None,
        },
{
    let cs = to_chars(header);
    let fields = tokens_in(cs.as_slice());
    proof {
        assert(views(fields@).len() == fields@.len());
        assert forall|i: int| 0 <= i < fields@.len() implies #[trigger] fields@[i]@ == views(
            fields@,
        )[i] by {}
    }
    if fields.len() > 2 {
        read_usize(fields[2])
    } else {
        None
    }
}

pub open spec fn with_text(
    previews: Map<Seq<char>, Seq<char>>,
    path: Seq<char>,
    text: Option<Seq<char>>,
) -> Map<Seq<char>, Seq<char>> {
    match text {
        Some(t) => previews.insert(path, t),
        None => previews,
    }
}

/// The texts in the part of a batch output that starts at `cursor`, one object
/// for each entry, added to `previews`. An object is a header line and, if the
/// header announces a length, that many bytes and one more. Reading ends where
/// the output does.
pub open spec fn batch_from(
    output: Seq<u8>,
    cursor: int,
    entries: Seq<EntryModel>,
    previews: Map<Seq<char>, Seq<char>>,
) -> Map<Seq<char>, Seq<char>>
    decreases entries.len(),
{
    let end = byte_position(output, cursor, 10);
    if entries.len() == 0 || end >= output.len() {
        previews
    } else {
        let start = end + 1;
        match announced(text_of_bytes(output.subrange(cursor, end))) {
            None => batch_from(output, start, entries.drop_first(), previews),
            Some(n) => if start + n > output.len() {
                previews
            } else {
                batch_from(
                    output,
                    if start + n < output.len() {
                        start + n + 1
                    } else {
                        start + n
                    },
                    entries.drop_first(),
                    with_text(
                        previews,
                        entries[0].path,
                        preview_text(output.subrange(start, start + n)),
                    ),
                )
            },
        }
    }
}

/// The texts that the output of `git cat-file --batch` holds for `entries`.
pub open spec fn batch_previews(output: Seq<u8>, entries: Seq<EntryModel>) -> Map<
    Seq<char>,
    Seq<char>,
> {
    batch_from(output, 0, entries, Map::empty())
}

/// Reads the texts of blobs from the output of `git cat-file --batch`, which
/// holds one object for each entry, in order.
pub fn parse_cat_file_batch(output: &[u8], entries: &[&RefTreeEntry]) -> (r: BlobPreviews)
    ensures
        r.deep_view() == batch_previews(output@, entries.deep_view()),
{
    let ghost models = entries.deep_view();
    let mut previews = BlobPreviews::empty();
    let mut cursor: usize = 0;
    let mut i: usize = 0;
    assert(models.skip(0) == models);
    while i < entries.len()
        invariant
            i <= entries.len(),
            cursor <= output@.len(),
            models == entries.deep_view(),
            batch_previews(output@, models) == batch_from(
                output@,
                cursor as int,
                models.skip(i as int),
                previews.deep_view(),
            ),
        decreases entries.len() - i,
    {
        let end = find_byte(output, cursor, 10);
        let ghost left = models.skip(i as int);
        proof {
            assert(left.drop_first() == models.skip(i + 1));
            assert(left[0] == entries@[i as int].deep_view());
        }
        if end >= output.len() {
            return previews;
        }
        let header = lossy_string(slice_subrange(output, cursor, end));
        let start: usize = end + 1;
        match announced_length(header.as_str()) {
            None => {
                cursor = start;
            },
            Some(n) => {
                if n > output.len() - start {
                    return previews;
                }
                let stop: usize = start + n;
                if let Some(text) = text_preview(slice_subrange(output, start, stop)) {
                    previews.insert(entries[i].path.clone(), text);
                }
                cursor = if stop < output.len() {
                    stop + 1
                } else {
                    stop
                };
            },
        }
        i += 1;
    }
    previews
}

/// The entries whose text is asked for.
pub open spec fn previewed(entries: Seq<EntryModel>) -> Seq<EntryModel> {
    entries.filter(|e: EntryModel| previewable(e))
}

/// The input of `git cat-file --batch`: one object name to a line.
pub open spec fn batch_input(entries: Seq<EntryModel>) -> Seq<char>
    decreases entries.len(),
{
    if entries.len() == 0 {
        Seq::empty()
    } else {
        batch_input(entries.drop_last()) + entries.last().object + "\n"@
    }
}

/// The texts of a tree take one call of `git cat-file --batch`, if any text is
/// asked for.
pub open spec fn ref_previews_script(entries: Seq<EntryModel>) -> Seq<RequestModel> {
    if previewed(entries).len() > 0 {
        seq![
            RequestModel::GitWithInput {
                args: seq!["cat-file"@, "--batch"@],
                input: batch_input(previewed(entries)),
            },
        ]
    } else {
        seq![]
    }
}

/// The texts of a tree, given what git said; none if it failed.
pub open spec fn ref_previews(entries: Seq<EntryModel>, replies: Seq<Reply>) -> Map<
    Seq<char>,
    Seq<char>,
> {
    match bytes_at(replies, 0) {
        Some(output) => if previewed(entries).len() > 0 {
            batch_previews(output, previewed(entries))
        } else {
            Map::empty()
        },
        None => Map::empty(),
    }
}

/// Asks git for the texts of the blobs among `entries`.
pub fn ref_preview_contents(entries: &Vec<RefTreeEntry>, replies: &[Reply]) -> (r: Progress<
    BlobPreviews,
>)
    ensures
        follows(
            r,
            ref_previews_script(entries.deep_view()),
            replies@.len(),
            ref_previews(entries.deep_view(), replies@),
        ),
{
    let ghost models = entries.deep_view();
    let ghost p = |e: EntryModel| previewable(e);
    let mut asked: Vec<&RefTreeEntry> = Vec::new();
    let mut input = String::new();
    let mut i: usize = 0;
    assert(models.take(0).filter(p) =~= Seq::<EntryModel>::empty()) by {
        models.take(0).lemma_filter_len(p);
    }
    while i < entries.len()
        invariant
            i <= entries.len(),
            models == entries.deep_view(),
            p == (|e: EntryModel| previewable(e)),
            asked.deep_view() == models.take(i as int).filter(p),
            input@ == batch_input(models.take(i as int).filter(p)),
        decreases entries.len() - i,
    {
        let entry = &entries[i];
        let ghost before = asked.deep_view();
        proof {
            assert(models.take(i + 1) == models.take(i as int).push(entry.deep_view()));
            models.take(i as int).lemma_filter_push(entry.deep_view(), p);
        }
        if is_previewable(entry) {
            asked.push(entry);
            input.append(entry.object.as_str());
            input.append("\n");
            proof {
                let now = before.push(entry.deep_view());
                assert(asked.deep_view() =~= now);
                assert(now.drop_last() == before);
                assert(now.last() == entry.deep_view());
            }
        }
        i += 1;
    }
    assert(models.take(models.len() as int) == models);
    assert(asked.deep_view().len() == asked@.len());
    if asked.len() == 0 {
        return Progress::Done { value: BlobPreviews::empty(), used: 0 };
    }
    if replies.len() == 0 {
        let args = owned(&["cat-file", "--batch"]);
        assert(args.deep_view() =~= seq!["cat-file"@, "--batch"@]);
        return Progress::Ask(Request::GitWithInput { args, input });
    }
    let value = match bytes_reply(replies, 0) {
        Some(output) => parse_cat_file_batch(output, asked.as_slice()),
        None => BlobPreviews::empty(),
    };
    Progress::Done { value, used: 1 }
}

/// The files of a snapshot of another reference.
pub open spec fn ref_files(
    entries: Seq<EntryModel>,
    previews: Map<Seq<char>, Seq<char>>,
    index: Map<Seq<char>, CommitModel>,
) -> Seq<FileModel> {
    entries.map_values(|e: EntryModel| tree_file(e, text_for(previews, e.path), index))
}

/// Makes the files of a snapshot from the entries of a tree that is not checked
/// out, and the texts that git hands out.
pub fn project_files_from_ref(
    entries: Vec<RefTreeEntry>,
    index: &CommitIndex,
    replies: &[Reply],
) -> (r: Progress<Vec<ProjectRepoFileInfo>>)
    ensures
        follows(
            r,
            ref_previews_script(entries.deep_view()),
            replies@.len(),
            ref_files(
                entries.deep_view(),
                ref_previews(entries.deep_view(), replies@),
                index.deep_view(),
            ),
        ),
{
    let ghost models = entries.deep_view();
    let (previews, used) = match ref_preview_contents(&entries, replies) {
        Progress::Ask(request) => {
            return Progress::Ask(request);
        },
        Progress::Done { value, used } => (value, used),
    };
    let mut out: Vec<ProjectRepoFileInfo> = Vec::new();
    let mut i: usize = 0;
    while i < entries.len()
        invariant
            i <= entries.len(),
            models == entries.deep_view(),
            out@.len() == i,
            forall|j: int|
                0 <= j < i ==> (#[trigger] out@[j]).deep_view() == tree_file(
                    models[j],
                    text_for(previews.deep_view(), models[j].path),
                    index.deep_view(),
                ),
        decreases entries.len() - i,
    {
        let entry = &entries[i];
        let preview = previews.get(entry.path.as_str());
        out.push(make_tree_file(entry, preview, index));
        i += 1;
    }
    assert(out.deep_view() =~= ref_files(models, previews.deep_view(), index.deep_view()));
    Progress::Done { value: out, used }
}

// ---------------------------------------------------------------------------
// Laws

/// A text is shown only of a file that lies within the repository, that is at
/// most 64 KiB as far as its size is known, and whose contents are UTF-8
/// without a NUL byte; and then it is that text.
pub proof fn law_preview_is_the_text_of_a_small_file(size: Option<u64>, probe: PreviewProbe)
    ensures
        preview_of(size, probe) matches Some(text) ==> {
            &&& size matches Some(n) ==> n <= 65536
            &&& probe matches PreviewProbe::Resolved { path, root, content }
            &&& lies_below(path.deep_view(), root.deep_view())
            &&& content matches Some(bytes)
            &&& valid_utf8(bytes@)
            &&& !bytes@.contains(0)
            &&& encode_utf8(text) == bytes@
        },
{
    if let PreviewProbe::Resolved { content: Some(bytes), .. } = probe {
        if valid_utf8(bytes@) {
            decode_utf8_encode_utf8(bytes@);
        }
    }
}

/// Each file of a working tree is at a listed path and is described by what
/// the file system said of that path.
pub proof fn law_worktree_files_come_from_paths(
    paths: Seq<Seq<char>>,
    probes: Seq<FileProbe>,
    index: Map<Seq<char>, CommitModel>,
    i: int,
)
    requires
        0 <= i < worktree_files_of(paths, probes, index).len(),
    ensures
        exists|j: int|
            0 <= j < paths.len() && j < probes.len() && #[trigger] worktree_file(
                paths[j],
                probes[j],
                index,
            ) == Some(worktree_files_of(paths, probes, index)[i]),
{
    let all = probed(paths, probes);
    let f = |p: (Seq<char>, FileProbe)| worktree_file(p.0, p.1, index);
    let file = worktree_files_of(paths, probes, index)[i];
    assert(all.filter_map(f)[i] == file);
    assert(all.filter_map(f).contains(file));
    all.lemma_filter_map_contains(f, file);
    let p = choose|p: (Seq<char>, FileProbe)| #[trigger] all.contains(p) && f(p) == Some(file);
    let j = choose|j: int| 0 <= j < all.len() && all[j] == p;
    assert(worktree_file(paths[j], probes[j], index) == Some(file));
}

/// Looking at the paths of a working tree may stop once 250 regular files are
/// found: what lies behind them does not change the snapshot.
pub proof fn law_probing_may_stop(
    paths: Seq<Seq<char>>,
    probes: Seq<FileProbe>,
    index: Map<Seq<char>, CommitModel>,
    n: nat,
)
    requires
        n <= probes.len(),
        all_worktree_files(paths, probes.take(n as int), index).len() >= 250,
    ensures
        worktree_files_of(paths, probes.take(n as int), index) == worktree_files_of(
            paths,
            probes,
            index,
        ),
{
    let f = |p: (Seq<char>, FileProbe)| worktree_file(p.0, p.1, index);
    let all = probed(paths, probes);
    let m = if paths.len() < n {
        paths.len() as int
    } else {
        n as int
    };
    assert(probed(paths, probes.take(n as int)) =~= all.take(m));
    lemma_filter_map_prefix(all, f, m);
    let some = all.take(m).filter_map(f);
    assert(some.take(250) =~= all.filter_map(f).take(250)) by {
        assert(all.filter_map(f).take(some.len() as int).take(250) =~= all.filter_map(f).take(250));
    }
}

/// An entry that is written in the format of `git ls-tree --long` is read back,
/// whatever characters but a newline the path holds. The fields are parted by
/// spaces, and the size may be padded with more of them.
pub proof fn law_tree_entry_reads_back(
    mode: Seq<char>,
    entry: EntryModel,
    padding: Seq<char>,
    size: Seq<char>,
)
    requires
        mode.len() > 0 && has_no_space(mode),
        entry.kind.len() > 0 && has_no_space(entry.kind),
        entry.object.len() > 0 && has_no_space(entry.object),
        size.len() > 0 && has_no_space(size),
        padding.len() > 0,
        forall|i: int| 0 <= i < padding.len() ==> #[trigger] padding[i] == ' ',
        size_of_field(size) == entry.size,
    ensures
        entry_of_line(
            mode + (seq![' '] + (entry.kind + (seq![' '] + (entry.object + (padding + size)))))
                + seq!['\t'] + entry.path,
        ) == Some(entry),
{
    let m3 = padding + size;
    let m2 = entry.object + m3;
    let m1 = seq![' '] + m2;
    let m0 = entry.kind + m1;
    let meta = mode + (seq![' '] + m0);
    let line = meta + seq!['\t'] + entry.path;
    assert forall|i: int| 0 <= i < meta.len() implies line[i] != '\t' by {
        let c = meta[i];
        assert(line[i] == c);
        let a = mode.len() as int;
        let b = a + 1 + entry.kind.len();
        let d = b + 1 + entry.object.len();
        let e = d + padding.len();
        if i < a {
            assert(c == mode[i]);
        } else if i == a {
            assert(c == ' ');
        } else if i < b {
            assert(c == entry.kind[i - a - 1]);
        } else if i == b {
            assert(c == ' ');
        } else if i < d {
            assert(c == entry.object[i - b - 1]);
        } else if i < e {
            assert(c == padding[i - d]);
        } else {
            assert(c == size[i - e]);
        }
    }
    lemma_position_is(line, '\t', meta.len() as int);
    assert(line.take(meta.len() as int) =~= meta);
    assert(line.skip(meta.len() as int + 1) =~= entry.path);
    lemma_tokens_first(mode, seq![' '] + m0);
    lemma_tokens_skip_space(seq![' '], m0);
    lemma_tokens_first(entry.kind, m1);
    lemma_tokens_skip_space(seq![' '], m2);
    assert(m3[0] == padding[0]);
    lemma_tokens_first(entry.object, m3);
    lemma_tokens_skip_space(padding, size);
    assert(size + Seq::<char>::empty() =~= size);
    lemma_tokens_first(size, Seq::empty());
    assert(tokens_of(Seq::<char>::empty()) =~= seq![]);
    assert(tokens_of(meta) =~= seq![mode, entry.kind, entry.object, size]);
}

proof fn lemma_line_is_encoded_as_one(line: Seq<char>)
    requires
        is_ascii_chars(line),
        forall|i: int| 0 <= i < line.len() ==> #[trigger] line[i] != '\n',
    ensures
        !encode_utf8(line).contains(10),
{
    is_ascii_chars_encode_utf8(line);
    assert forall|i: int| 0 <= i < encode_utf8(line).len() implies encode_utf8(line)[i] != 10 by {
        assert(line[i] as u8 == encode_utf8(line)[i]);
        assert(line[i] as u32 == line[i] as u8);
    }
}

/// The header that git writes of an object, which is its name, its kind and its
/// size, announces the size. Of an object that git does not have, the header
/// has a single word behind the name; it announces nothing. With a name and a
/// kind in ASCII either header is one line.
pub proof fn law_header_announces_size(object: Seq<char>, kind: Seq<char>, size: nat)
    requires
        object.len() > 0 && has_no_space(object),
        kind.len() > 0 && has_no_space(kind),
        size <= usize::MAX,
    ensures
        announced(
            text_of_bytes(
                encode_utf8(object + (seq![' '] + (kind + (seq![' '] + decimal(size))))),
            ),
        ) == Some(size),
        announced(text_of_bytes(encode_utf8(object + (seq![' '] + kind)))) is None,
        is_ascii_chars(object) && is_ascii_chars(kind) ==> !encode_utf8(
            object + (seq![' '] + (kind + (seq![' '] + decimal(size)))),
        ).contains(10) && !encode_utf8(object + (seq![' '] + kind)).contains(10),
{
    let digits = decimal(size);
    let more = seq![' '] + digits;
    let present = object + (seq![' '] + (kind + more));
    let absent = object + (seq![' '] + kind);
    encode_utf8_valid_utf8(present);
    encode_utf8_decode_utf8(present);
    encode_utf8_valid_utf8(absent);
    encode_utf8_decode_utf8(absent);
    law_decimal_reads_back(size, usize::MAX as nat);
    let none = Seq::<char>::empty();
    assert(tokens_of(none) =~= seq![]);
    assert forall|i: int| 0 <= i < digits.len() implies !is_white_space(#[trigger] digits[i]) by {
        assert(is_digit(digits[i]));
    }
    lemma_tokens_first(object, seq![' '] + (kind + more));
    lemma_tokens_skip_space(seq![' '], kind + more);
    lemma_tokens_first(kind, more);
    lemma_tokens_skip_space(seq![' '], digits);
    assert(digits + none =~= digits);
    lemma_tokens_first(digits, none);
    assert(tokens_of(present) =~= seq![object, kind, digits]);
    lemma_tokens_first(object, seq![' '] + kind);
    lemma_tokens_skip_space(seq![' '], kind);
    assert(kind + none =~= kind);
    lemma_tokens_first(kind, none);
    assert(tokens_of(absent) =~= seq![object, kind]);
    if is_ascii_chars(object) && is_ascii_chars(kind) {
        assert forall|i: int| 0 <= i < present.len() implies '\0' <= #[trigger] present[i] <= '\u{7f}'
            && present[i] != '\n' by {
            let a = object.len() as int;
            let b = a + 1 + kind.len();
            if i < a {
                assert(present[i] == object[i]);
            } else if a < i < b {
                assert(present[i] == kind[i - a - 1]);
            } else if i > b {
                assert(present[i] == digits[i - b - 1]);
            }
        }
        assert forall|i: int| 0 <= i < absent.len() implies '\0' <= #[trigger] absent[i] <= '\u{7f}'
            && absent[i] != '\n' by {
            assert(absent[i] == present[i]);
        }
        lemma_line_is_encoded_as_one(present);
        lemma_line_is_encoded_as_one(absent);
    }
}

/// One object of a batch: a header and, if the object is there, its contents.
pub struct BatchObject {
    pub header: Seq<u8>,
    pub content: Option<Seq<u8>>,
}

/// The header is one line, and it announces the length of the contents exactly
/// if there are any.
pub open spec fn is_batch_object(object: BatchObject) -> bool {
    &&& !object.header.contains(10)
    &&& announced(text_of_bytes(object.header)) == match object.content {
        Some(content) => Some(content.len()),
        None => None,
    }
}

/// An object as git writes it.
pub open spec fn written(object: BatchObject) -> Seq<u8> {
    object.header.push(10) + match object.content {
        Some(content) => content.push(10),
        None => seq![],
    }
}

/// A sequence of objects as git writes them.
pub open spec fn all_written(objects: Seq<BatchObject>) -> Seq<u8>
    decreases objects.len(),
{
    if objects.len() == 0 {
        seq![]
    } else {
        written(objects[0]) + all_written(objects.drop_first())
    }
}

/// The texts of `objects`, each at the path of its entry; the last one counts
/// where a path comes twice.
pub open spec fn object_texts(
    entries: Seq<EntryModel>,
    objects: Seq<BatchObject>,
    previews: Map<Seq<char>, Seq<char>>,
) -> Map<Seq<char>, Seq<char>>
    decreases objects.len(),
{
    if objects.len() == 0 || entries.len() == 0 {
        previews
    } else {
        object_texts(
            entries.drop_first(),
            objects.drop_first(),
            with_text(
                previews,
                entries[0].path,
                match objects[0].content {
                    Some(content) => preview_text(content),
                    None => None,
                },
            ),
        )
    }
}

proof fn lemma_batch_reads_back(
    before: Seq<u8>,
    entries: Seq<EntryModel>,
    objects: Seq<BatchObject>,
    previews: Map<Seq<char>, Seq<char>>,
)
    requires
        forall|i: int| 0 <= i < objects.len() ==> is_batch_object(#[trigger] objects[i]),
    ensures
        batch_from(before + all_written(objects), before.len() as int, entries, previews)
            == object_texts(entries, objects, previews),
    decreases objects.len(),
{
    let output = before + all_written(objects);
    let cursor = before.len() as int;
    if objects.len() == 0 {
        assert(output =~= before);
        lemma_byte_found(output, cursor, 10);
    } else if entries.len() > 0 {
        let object = objects[0];
        let later = objects.drop_first();
        let end = cursor + object.header.len();
        assert(is_batch_object(object));
        assert(output =~= before + written(object) + all_written(later));
        assert forall|i: int| cursor <= i < end implies output[i] != 10 by {
            assert(output[i] == object.header[i - cursor]);
            assert(object.header.contains(object.header[i - cursor]));
        }
        assert(output[end] == 10);
        lemma_byte_position(output, cursor, 10, end);
        assert(output.subrange(cursor, end) =~= object.header);
        let next = before + written(object);
        assert(output =~= next + all_written(later));
        match object.content {
            Some(content) => {
                let start = end + 1;
                assert(output.subrange(start, start + content.len()) =~= content);
                assert(next.len() == start + content.len() + 1);
                lemma_batch_reads_back(
                    next,
                    entries.drop_first(),
                    later,
                    with_text(previews, entries[0].path, preview_text(content)),
                );
            },
            None => {
                assert(next.len() == end + 1);
                lemma_batch_reads_back(next, entries.drop_first(), later, previews);
            },
        }
    }
}

/// `text` is the text of a run of bytes of `output`.
pub open spec fn is_text_of_run(output: Seq<u8>, text: Seq<char>) -> bool {
    exists|a: int, b: int|
        0 <= a <= b <= output.len() && preview_text(#[trigger] output.subrange(a, b)) == Some(text)
}

pub open spec fn is_path_of(entries: Seq<EntryModel>, path: Seq<char>) -> bool {
    exists|i: int| 0 <= i < entries.len() && (#[trigger] entries[i]).path == path
}

proof fn lemma_batch_comes_from_output(
    output: Seq<u8>,
    cursor: int,
    entries: Seq<EntryModel>,
    previews: Map<Seq<char>, Seq<char>>,
)
    requires
        0 <= cursor <= output.len(),
        previews.dom().finite(),
    ensures
        ({
            let r = batch_from(output, cursor, entries, previews);
            &&& r.dom().finite()
            &&& r.dom().len() <= previews.dom().len() + entries.len()
            &&& forall|path: Seq<char>| #[trigger]
                r.contains_key(path) ==> previews.contains_key(path) && r[path] == previews[path]
                    || is_path_of(entries, path) && is_text_of_run(output, r[path])
        }),
    decreases entries.len(),
{
    let end = byte_position(output, cursor, 10);
    lemma_byte_found(output, cursor, 10);
    if entries.len() > 0 && end < output.len() {
        let rest = entries.drop_first();
        let start = end + 1;
        assert forall|path: Seq<char>| is_path_of(rest, path) implies is_path_of(
            entries,
            path,
        ) by {
            let i = choose|i: int| 0 <= i < rest.len() && (#[trigger] rest[i]).path == path;
            assert(entries[i + 1].path == path);
        }
        match announced(text_of_bytes(output.subrange(cursor, end))) {
            None => {
                lemma_batch_comes_from_output(output, start, rest, previews);
            },
            Some(n) => {
                if start + n <= output.len() {
                    let path = entries[0].path;
                    let text = preview_text(output.subrange(start, start + n));
                    let next = if start + n < output.len() {
                        start + n + 1
                    } else {
                        start + n
                    };
                    let now = with_text(previews, path, text);
                    assert(is_path_of(entries, path));
                    assert(text is Some ==> is_text_of_run(output, text->0));
                    lemma_batch_comes_from_output(output, next, rest, now);
                }
            },
        }
    }
}

proof fn lemma_text_without_nul(text: Seq<char>)
    requires
        !encode_utf8(text).contains(0),
    ensures
        !text.contains('\0'),
    decreases text.len(),
{
    if text.len() > 0 {
        let first = encode_scalar(text[0] as u32);
        let rest = text.drop_first();
        let bytes = encode_utf8(text);
        assert(bytes == first + encode_utf8(rest));
        if encode_utf8(rest).contains(0) {
            let i = choose|i: int|
                0 <= i < encode_utf8(rest).len() && encode_utf8(rest)[i] == 0;
            assert(bytes[first.len() + i] == 0);
        }
        lemma_text_without_nul(rest);
        if text[0] == '\0' {
            assert((0u32 & 0x7F) as u8 == 0u8) by (bit_vector);
            assert(bytes[0] == 0);
        }
        assert forall|i: int| 0 <= i < text.len() implies text[i] != '\0' by {
            if i > 0 {
                assert(text[i] == rest[i - 1]);
                assert(rest.contains(rest[i - 1]));
            }
        }
    }
}

/// Whatever a batch output holds, it is read as texts of the entries only:
/// every path is that of an entry, there are no more texts than entries, and
/// every text is a run of the bytes of the output that holds no NUL.
pub proof fn law_batch_texts_come_from_output(output: Seq<u8>, entries: Seq<EntryModel>)
    ensures
        batch_previews(output, entries).dom().finite(),
        batch_previews(output, entries).dom().len() <= entries.len(),
        forall|path: Seq<char>| #[trigger]
            batch_previews(output, entries).contains_key(path) ==> {
                let text = batch_previews(output, entries)[path];
                &&& is_path_of(entries, path)
                &&& !text.contains('\0')
                &&& exists|a: int, b: int|
                    0 <= a <= b <= output.len() && #[trigger] output.subrange(a, b) == encode_utf8(
                        text,
                    )
            },
{
    let none = Map::<Seq<char>, Seq<char>>::empty();
    lemma_batch_comes_from_output(output, 0, entries, none);
    let r = batch_previews(output, entries);
    assert forall|path: Seq<char>| #[trigger] r.contains_key(path) implies {
        let text = r[path];
        &&& is_path_of(entries, path)
        &&& !text.contains('\0')
        &&& exists|a: int, b: int|
            0 <= a <= b <= output.len() && #[trigger] output.subrange(a, b) == encode_utf8(text)
    } by {
        let text = r[path];
        let (a, b) = choose|a: int, b: int|
            0 <= a <= b <= output.len() && preview_text(#[trigger] output.subrange(a, b)) == Some(
                text,
            );
        let run = output.subrange(a, b);
        decode_utf8_encode_utf8(run);
        assert(run == encode_utf8(text));
        lemma_text_without_nul(text);
    }
}

/// What git wrote of a batch of objects is read back: each object's text stands
/// at the path of its entry, whatever bytes the contents hold.
pub proof fn law_batch_reads_back(entries: Seq<EntryModel>, objects: Seq<BatchObject>)
    requires
        forall|i: int| 0 <= i < objects.len() ==> is_batch_object(#[trigger] objects[i]),
    ensures
        batch_previews(all_written(objects), entries) == object_texts(
            entries,
            objects,
            Map::empty(),
        ),
{
    lemma_batch_reads_back(seq![], entries, objects, Map::empty());
    assert(Seq::<u8>::empty() + all_written(objects) =~= all_written(objects));
}

/// A text is shown whenever there is one to show: of every file that lies within
/// the repository, that is at most 64 KiB or of unknown size, and whose contents
/// are UTF-8 without a NUL byte, the preview is the whole of its contents.
pub proof fn law_small_text_files_have_previews(
    size: Option<u64>,
    path: Vec<Vec<u8>>,
    root: Vec<Vec<u8>>,
    bytes: Vec<u8>,
)
    requires
        size matches Some(n) ==> n <= 65536,
        lies_below(path.deep_view(), root.deep_view()),
        valid_utf8(bytes@),
        !bytes@.contains(0),
    ensures
        preview_of(size, PreviewProbe::Resolved { path, root, content: Some(bytes) }) matches Some(
            text,
        ) && encode_utf8(text) == bytes@,
{
    decode_utf8_encode_utf8(bytes@);
}

/// The size of a file is read where git writes one, and none where it writes
/// `-`.
pub proof fn law_file_size_is_read(n: u64)
    ensures
        size_of_field(decimal(n as nat)) == Some(n),
        size_of_field("-"@) is None,
{
    law_decimal_reads_back(n as nat, u64::MAX as nat);
    reveal_strlit("-");
    assert("-"@[0] == '-');
    assert(!is_digit("-"@[0]));
}

/// A line of a tree is read up to its first tabulator as words, mode, kind, object
/// and size, and behind it as the path, whatever characters that holds. Without
/// a tabulator or with fewer than three words it is no entry.
pub proof fn law_tree_line_holds_its_words(meta: Seq<char>, path: Seq<char>)
    requires
        !meta.contains('\t'),
    ensures
        ({
            let read = entry_of_line(meta + seq!['\t'] + path);
            let words = tokens_of(meta);
            &&& read is Some <==> words.len() >= 3
            &&& read matches Some(entry) ==> {
                &&& entry.path == path
                &&& entry.kind == words[1]
                &&& entry.object == words[2]
                &&& words.len() > 3 ==> entry.size == size_of_field(words[3])
                &&& words.len() == 3 ==> entry.size is None
            }
            &&& entry_of_line(meta) is None
        }),
{
    let line = meta + seq!['\t'] + path;
    let n = meta.len() as int;
    assert forall|i: int| 0 <= i < n implies meta[i] != '\t' by {
        assert(meta.contains(meta[i]));
    }
    assert(line[n] == '\t');
    lemma_position_is(line, '\t', n);
    lemma_position_is(meta, '\t', n);
    assert(line.take(n) =~= meta);
    assert(line.skip(n + 1) =~= path);
}

/// A tree is read line by line: each line that is an entry adds it, in order, up to
/// 250 of them, and each other line adds nothing.
pub proof fn law_tree_is_read_line_by_line(line: Seq<char>, rest: Seq<char>)
    requires
        !line.contains('\n'),
        line.len() == 0 || line.last() != '\r',
    ensures
        entry_of_line(line) matches Some(entry) ==> entries_of(line + seq!['\n'] + rest) == first_n(
            seq![entry] + entries_of(rest),
            250,
        ),
        entry_of_line(line) is None ==> entries_of(line + seq!['\n'] + rest) == entries_of(rest),
        entries_of(Seq::<char>::empty()).len() == 0,
{
    let f = |l: Seq<char>| entry_of_line(l);
    law_lines_end_at_newlines(line, rest);
    lemma_filter_map_front(line, lines_of(rest), f);
    let all = lines_of(rest).filter_map(f);
    if let Some(entry) = entry_of_line(line) {
        assert(first_n(seq![entry] + all, 250) =~= first_n(
            seq![entry] + first_n(all, 250),
            250,
        ));
    } else {
        assert(Seq::<EntryModel>::empty() + all =~= all);
    }
}

/// What a file of a snapshot shows of the history: the commit that the index has
/// for its path, and nothing if it has none.
pub open spec fn shows_commit_of(file: FileModel, index: Map<Seq<char>, CommitModel>) -> bool {
    &&& index.contains_key(file.path) ==> file.latest_commit == Some(index[file.path])
    &&& !index.contains_key(file.path) ==> file.latest_commit is None
}

/// Each entry of the tree of a fresh clone is a file of the snapshot, with its path,
/// kind and size and the latest commit of its path. A blob that was found within
/// the repository shows its text; anything else shows none.
pub proof fn law_tree_file_shows_its_entry(
    entries: Seq<EntryModel>,
    previews: Seq<PreviewProbe>,
    index: Map<Seq<char>, CommitModel>,
    i: int,
)
    requires
        0 <= i < entries.len(),
    ensures
        tree_files(entries, previews, index).len() == entries.len(),
        ({
            let file = tree_files(entries, previews, index)[i];
            let entry = entries[i];
            &&& file.path == entry.path && file.kind == entry.kind && file.size == entry.size
            &&& shows_commit_of(file, index)
            &&& index.contains_key(entry.path) ==> file.last_changed_at == Some(
                index[entry.path].timestamp,
            )
            &&& !index.contains_key(entry.path) ==> file.last_changed_at is None
            &&& entry.kind != "blob"@ || i >= previews.len() ==> file.preview_content is None
            &&& entry.kind == "blob"@ && i < previews.len() ==> file.preview_content == preview_of(
                entry.size,
                previews[i],
            )
        }),
{
}

/// The clone is asked for the text of each blob of at most 64 KiB or of unknown
/// size, under its path, and of no other entry; for none at all if there is no
/// such blob.
pub proof fn law_clone_is_asked_for_small_blobs(output: Seq<char>, i: int)
    ensures
        ({
            let entries = entries_of(output);
            let script = checkout_files_script(output);
            &&& script.len() <= 1
            &&& script.len() == 1 ==> {
                &&& script[0] matches RequestModel::Previews { wanted }
                &&& wanted.len() == entries.len()
                &&& 0 <= i < entries.len() ==> wanted[i] == if entries[i].kind == "blob"@ && (
                entries[i].size is None || entries[i].size->0 <= 65536) {
                    Some(entries[i].path)
                } else {
                    None
                }
            }
            &&& script.len() == 0 && 0 <= i < entries.len() ==> !(entries[i].kind == "blob"@ && (
            entries[i].size is None || entries[i].size->0 <= 65536))
        }),
{
    let entries = entries_of(output);
    if 0 <= i < entries.len() {
        assert(previewable(entries[i]) <==> entries[i].kind == "blob"@ && (entries[i].size is None
            || entries[i].size->0 <= 65536));
    }
}

/// The list of a working tree is read path by path: NUL characters part the paths,
/// and only blank ones are passed over.
pub proof fn law_worktree_list_is_read_path_by_path(path: Seq<char>, rest: Seq<char>)
    requires
        !path.contains('\0'),
    ensures
        worktree_paths_of(path + seq!['\0'] + rest) == (if is_blank(path) {
            seq![]
        } else {
            seq![path]
        }) + worktree_paths_of(rest),
        worktree_paths_of(path) == if is_blank(path) {
            seq![]
        } else {
            seq![path]
        },
{
    let p = |q: Seq<char>| !is_blank(q);
    let one = seq![path];
    lemma_split_part(path, rest, '\0');
    lemma_split_whole(path, '\0');
    Seq::filter_distributes_over_add(one, split_on(rest, '\0'), p);
    let none = Seq::<Seq<char>>::empty();
    none.lemma_filter_len(p);
    assert(none.filter(p) =~= none);
    none.lemma_filter_push(path, p);
    assert(none.push(path) =~= one);
    assert(one.filter(p) =~= if is_blank(path) {
        none
    } else {
        one
    });
}

/// Each path of a working tree that is a regular file is a file of the snapshot, in
/// the order of the paths, and nothing else is. Of a list of more than 250
/// files the first 250 are shown.
pub proof fn law_worktree_is_looked_at_path_by_path(
    path: Seq<char>,
    probe: FileProbe,
    paths: Seq<Seq<char>>,
    probes: Seq<FileProbe>,
    index: Map<Seq<char>, CommitModel>,
)
    ensures
        probe is File ==> worktree_file(path, probe, index) is Some && all_worktree_files(
            seq![path] + paths,
            seq![probe] + probes,
            index,
        ) == seq![worktree_file(path, probe, index)->0] + all_worktree_files(paths, probes, index),
        probe is NotAFile ==> all_worktree_files(seq![path] + paths, seq![probe] + probes, index)
            == all_worktree_files(paths, probes, index),
        paths.len() == 0 || probes.len() == 0 ==> all_worktree_files(paths, probes, index).len()
            == 0,
        all_worktree_files(paths, probes, index).len() <= 250 ==> worktree_files_of(
            paths,
            probes,
            index,
        ) == all_worktree_files(paths, probes, index),
        all_worktree_files(paths, probes, index).len() > 250 ==> worktree_files_of(
            paths,
            probes,
            index,
        ) == all_worktree_files(paths, probes, index).take(250),
{
    let f = |p: (Seq<char>, FileProbe)| worktree_file(p.0, p.1, index);
    let rest = probed(paths, probes);
    assert(probed(seq![path] + paths, seq![probe] + probes) =~= seq![(path, probe)] + rest);
    lemma_filter_map_front((path, probe), rest, f);
    assert(Seq::<FileModel>::empty() + rest.filter_map(f) =~= rest.filter_map(f));
}

/// A file of a working tree is a blob with its path and size, the text that was
/// found and the latest commit of its path. It changed last with that commit or,
/// without one, when the file did.
pub proof fn law_worktree_file_shows_what_was_found(
    path: Seq<char>,
    size: u64,
    modified: Option<u64>,
    preview: PreviewProbe,
    index: Map<Seq<char>, CommitModel>,
)
    ensures
        worktree_file(path, FileProbe::File { size, modified, preview }, index) matches Some(file)
            && {
            &&& file.path == path && file.kind == "blob"@ && file.size == Some(size)
            &&& file.preview_content == preview_of(Some(size), preview)
            &&& shows_commit_of(file, index)
            &&& index.contains_key(path) ==> file.last_changed_at == Some(index[path].timestamp)
            &&& !index.contains_key(path) ==> match modified {
                Some(n) => if n <= 0x7fff_ffff_ffff_ffff {
                    file.last_changed_at matches Some(time) && time == n
                } else {
                    file.last_changed_at is None
                },
                None => file.last_changed_at is None,
            }
        },
        worktree_file(path, FileProbe::NotAFile, index) is None,
{
}

/// Each entry of the tree of another reference is a file of the snapshot, with its
/// path, kind and size, the latest commit of its path and the text that git
/// gave for its path.
pub proof fn law_ref_file_shows_its_entry(
    entries: Seq<EntryModel>,
    previews: Map<Seq<char>, Seq<char>>,
    index: Map<Seq<char>, CommitModel>,
    i: int,
)
    requires
        0 <= i < entries.len(),
    ensures
        ref_files(entries, previews, index).len() == entries.len(),
        ({
            let file = ref_files(entries, previews, index)[i];
            let entry = entries[i];
            &&& file.path == entry.path && file.kind == entry.kind && file.size == entry.size
            &&& shows_commit_of(file, index)
            &&& index.contains_key(entry.path) ==> file.last_changed_at == Some(
                index[entry.path].timestamp,
            )
            &&& !index.contains_key(entry.path) ==> file.last_changed_at is None
            &&& previews.contains_key(entry.path) ==> file.preview_content == Some(
                previews[entry.path],
            )
            &&& !previews.contains_key(entry.path) ==> file.preview_content is None
        }),
{
}

/// Git is asked for the objects of the blobs of at most 64 KiB or of unknown size, one
/// to a line and in the order of the entries, and for no others; what it gives is
/// read as the objects of these entries. If it fails there are no texts.
pub proof fn law_git_is_asked_for_small_blobs(entries: Seq<EntryModel>, replies: Seq<Reply>)
    requires
        forall|i: int|
            0 <= i < entries.len() ==> (#[trigger] entries[i]).object.len() > 0
                && !entries[i].object.contains('\n') && entries[i].object.last() != '\r',
    ensures
        ({
            let wanted = entries.filter(
                |e: EntryModel| e.kind == "blob"@ && (e.size is None || e.size->0 <= 65536),
            );
            let script = ref_previews_script(entries);
            &&& wanted.len() == 0 ==> script.len() == 0
            &&& wanted.len() > 0 ==> {
                &&& script.len() == 1
                &&& script[0] matches RequestModel::GitWithInput { args, input }
                &&& args == seq!["cat-file"@, "--batch"@]
                &&& lines_of(input) == wanted.map_values(|e: EntryModel| e.object)
            }
            &&& wanted.len() > 0 ==> (bytes_at(replies, 0) matches Some(output) ==> ref_previews(
                entries,
                replies,
            ) == batch_previews(output, wanted))
            &&& bytes_at(replies, 0) is None ==> ref_previews(entries, replies) == Map::<
                Seq<char>,
                Seq<char>,
            >::empty()
        }),
{
    let p = |e: EntryModel| e.kind == "blob"@ && (e.size is None || e.size->0 <= 65536);
    let q = |e: EntryModel| previewable(e);
    assert(p =~= q);
    let wanted = entries.filter(p);
    assert(wanted == previewed(entries));
    assert forall|i: int| 0 <= i < wanted.len() implies (#[trigger] wanted[i]).object.len() > 0
        && !wanted[i].object.contains('\n') && wanted[i].object.last() != '\r' by {
        assert(wanted.contains(wanted[i]));
        entries.lemma_filter_contains_rev(p, wanted[i]);
        let k = choose|k: int| 0 <= k < entries.len() && entries[k] == wanted[i];
        assert(entries[k].object.len() > 0);
    }
    lemma_batch_input_lines(wanted);
}

proof fn lemma_lines_push(s: Seq<char>, line: Seq<char>)
    requires
        s.len() > 0 ==> s.last() == '\n',
        line.len() > 0 && !line.contains('\n') && line.last() != '\r',
    ensures
        lines_of(s + line + seq!['\n']) == lines_of(s).push(line),
    decreases s.len(),
{
    let whole = s + line + seq!['\n'];
    let none = Seq::<char>::empty();
    if s.len() == 0 {
        law_lines_end_at_newlines(line, none);
        assert(whole =~= line + seq!['\n'] + none);
        assert(lines_of(whole) =~= lines_of(s).push(line));
    } else {
        lemma_position_of(s, '\n');
        let i = position_of(s, '\n');
        assert(i < s.len()) by {
            if i == s.len() {
                assert(s[s.len() - 1] != '\n');
            }
        }
        assert(whole[i] == s[i]);
        assert forall|j: int| 0 <= j < i implies whole[j] != '\n' by {
            assert(whole[j] == s[j]);
        }
        lemma_position_is(whole, '\n', i);
        assert(whole.take(i) =~= s.take(i));
        let rest = s.skip(i + 1);
        assert(whole.skip(i + 1) =~= rest + line + seq!['\n']);
        assert(rest.len() > 0 ==> rest.last() == s.last());
        lemma_lines_push(rest, line);
        assert(lines_of(whole) =~= lines_of(s).push(line));
    }
}

proof fn lemma_batch_input_lines(entries: Seq<EntryModel>)
    requires
        forall|i: int|
            0 <= i < entries.len() ==> (#[trigger] entries[i]).object.len() > 0
                && !entries[i].object.contains('\n') && entries[i].object.last() != '\r',
    ensures
        batch_input(entries).len() > 0 ==> batch_input(entries).last() == '\n',
        lines_of(batch_input(entries)) == entries.map_values(|e: EntryModel| e.object),
    decreases entries.len(),
{
    reveal_strlit("\n");
    assert("\n"@ =~= seq!['\n']);
    if entries.len() > 0 {
        let front = entries.drop_last();
        assert forall|i: int| 0 <= i < front.len() implies (#[trigger] front[i]).object.len() > 0
            && !front[i].object.contains('\n') && front[i].object.last() != '\r' by {
            assert(front[i] == entries[i]);
        }
        lemma_batch_input_lines(front);
        assert(entries[entries.len() - 1].object.len() > 0);
        lemma_lines_push(batch_input(front), entries.last().object);
        assert(lines_of(batch_input(entries)) =~= entries.map_values(|e: EntryModel| e.object));
    } else {
        assert(lines_of(batch_input(entries)) =~= entries.map_values(|e: EntryModel| e.object));
    }
}

/// An object as `git cat-file --batch` describes it: its name and a word, which is
/// the kind of an object that is there and otherwise says that it is missing.
pub struct GitObject {
    pub name: Seq<char>,
    pub word: Seq<char>,
    pub content: Option<Seq<u8>>,
}

pub open spec fn is_git_object(object: GitObject) -> bool {
    &&& object.name.len() > 0 && has_no_space(object.name) && is_ascii_chars(object.name)
    &&& object.word.len() > 0 && has_no_space(object.word) && is_ascii_chars(object.word)
    &&& object.content matches Some(content) ==> content.len() <= usize::MAX
}

/// The object with the header that git writes.
pub open spec fn with_header(object: GitObject) -> BatchObject {
    BatchObject {
        header: encode_utf8(
            match object.content {
                Some(content) => object.name + (seq![' '] + (object.word + (seq![' '] + decimal(
                    content.len(),
                )))),
                None => object.name + (seq![' '] + object.word),
            },
        ),
        content: object.content,
    }
}

pub open spec fn headed(objects: Seq<GitObject>) -> Seq<BatchObject> {
    objects.map_values(|o: GitObject| with_header(o))
}

/// What `git cat-file --batch` writes of `objects`.
pub open spec fn batch_of(objects: Seq<GitObject>) -> Seq<u8> {
    all_written(headed(objects))
}

/// Of a batch that git writes for the entries, the contents of each object that are
/// UTF-8 without a NUL byte stand at the path of the entry, whole, whatever the
/// other objects hold; unless a later entry has the same path. An object that is
/// missing or is no such text leaves its path without one.
pub proof fn law_batch_shows_every_text(
    entries: Seq<EntryModel>,
    objects: Seq<GitObject>,
    i: int,
)
    requires
        0 <= i < entries.len() == objects.len(),
        forall|j: int| 0 <= j < objects.len() ==> is_git_object(#[trigger] objects[j]),
        forall|j: int| i < j < entries.len() ==> (#[trigger] entries[j]).path != entries[i].path,
    ensures
        ({
            let texts = batch_previews(batch_of(objects), entries);
            let path = entries[i].path;
            let is_text = objects[i].content matches Some(content) && valid_utf8(content)
                && !content.contains(0);
            &&& is_text ==> texts.contains_key(path) && encode_utf8(texts[path])
                == objects[i].content->0
            &&& !is_text && (forall|j: int|
                0 <= j < i ==> (#[trigger] entries[j]).path != path) ==> !texts.contains_key(path)
        }),
{
    let written = headed(objects);
    assert forall|j: int| 0 <= j < written.len() implies is_batch_object(#[trigger] written[j]) by {
        let object = objects[j];
        assert(is_git_object(object));
        let size = match object.content {
            Some(content) => content.len(),
            None => 0,
        };
        law_header_announces_size(object.name, object.word, size);
    }
    law_batch_reads_back(entries, written);
    let none = Map::<Seq<char>, Seq<char>>::empty();
    lemma_object_texts_at(entries, written, none, i);
    if let Some(content) = objects[i].content {
        if valid_utf8(content) {
            decode_utf8_encode_utf8(content);
        }
    }
}

proof fn lemma_object_texts_elsewhere(
    entries: Seq<EntryModel>,
    objects: Seq<BatchObject>,
    previews: Map<Seq<char>, Seq<char>>,
    path: Seq<char>,
)
    requires
        forall|j: int| 0 <= j < entries.len() ==> (#[trigger] entries[j]).path != path,
    ensures
        text_for(object_texts(entries, objects, previews), path) == text_for(previews, path),
    decreases objects.len(),
{
    if objects.len() > 0 && entries.len() > 0 {
        let text = match objects[0].content {
            Some(content) => preview_text(content),
            None => None,
        };
        assert(entries[0].path != path);
        let rest = entries.drop_first();
        assert forall|j: int| 0 <= j < rest.len() implies (#[trigger] rest[j]).path != path by {
            assert(rest[j] == entries[j + 1]);
        }
        lemma_object_texts_elsewhere(
            rest,
            objects.drop_first(),
            with_text(previews, entries[0].path, text),
            path,
        );
    }
}

proof fn lemma_object_texts_at(
    entries: Seq<EntryModel>,
    objects: Seq<BatchObject>,
    previews: Map<Seq<char>, Seq<char>>,
    i: int,
)
    requires
        0 <= i < entries.len() == objects.len(),
        forall|j: int| i < j < entries.len() ==> (#[trigger] entries[j]).path != entries[i].path,
    ensures
        ({
            let texts = object_texts(entries, objects, previews);
            let path = entries[i].path;
            let text = match objects[i].content {
                Some(content) => preview_text(content),
                None => None,
            };
            &&& text is Some ==> text_for(texts, path) == text
            &&& text is None && !previews.contains_key(path) && (forall|j: int|
                0 <= j < i ==> (#[trigger] entries[j]).path != path) ==> text_for(
                texts,
                path,
            ) is None
        }),
    decreases objects.len(),
{
    let path = entries[i].path;
    let rest = entries.drop_first();
    let later = objects.drop_first();
    let first = match objects[0].content {
        Some(content) => preview_text(content),
        None => None,
    };
    let now = with_text(previews, entries[0].path, first);
    if i == 0 {
        assert forall|j: int| 0 <= j < rest.len() implies (#[trigger] rest[j]).path != path by {
            assert(rest[j] == entries[j + 1]);
        }
        lemma_object_texts_elsewhere(rest, later, now, path);
    } else {
        assert forall|j: int| i - 1 < j < rest.len() implies (#[trigger] rest[j]).path != rest[i
            - 1].path by {
            assert(rest[j] == entries[j + 1]);
        }
        lemma_object_texts_at(rest, later, now, i - 1);
        if forall|j: int| 0 <= j < i ==> (#[trigger] entries[j]).path != path {
            assert(entries[0].path != path);
            assert forall|j: int| 0 <= j < i - 1 implies (#[trigger] rest[j]).path != path by {
                assert(rest[j] == entries[j + 1]);
            }
        }
    }
}

/// The header of an object announces the number that is its third word, and nothing
/// if there is none or it is no number. A header that is not valid UTF-8 is read
/// as the lossy text.
pub proof fn law_third_word_is_the_length(header: Seq<char>, bytes: Seq<u8>)
    ensures
        tokens_of(header).len() < 3 ==> announced(header) is None,
        tokens_of(header).len() >= 3 ==> announced(header) == unsigned_value(
            tokens_of(header)[2],
            usize::MAX as nat,
        ),
        valid_utf8(bytes) ==> text_of_bytes(bytes) == decode_utf8(bytes),
        !valid_utf8(bytes) ==> text_of_bytes(bytes) == lossy_text(bytes),
{
}

proof fn lemma_batch_goes_on(
    before: Seq<u8>,
    entries: Seq<EntryModel>,
    objects: Seq<BatchObject>,
    tail: Seq<u8>,
    previews: Map<Seq<char>, Seq<char>>,
)
    requires
        objects.len() <= entries.len(),
        forall|i: int| 0 <= i < objects.len() ==> is_batch_object(#[trigger] objects[i]),
    ensures
        ({
            let n = objects.len() as int;
            let output = before + all_written(objects) + tail;
            batch_from(output, before.len() as int, entries, previews) == batch_from(
                output,
                (before + all_written(objects)).len() as int,
                entries.skip(n),
                object_texts(entries.take(n), objects, previews),
            )
        }),
    decreases objects.len(),
{
    let n = objects.len() as int;
    let output = before + all_written(objects) + tail;
    let cursor = before.len() as int;
    if objects.len() == 0 {
        assert(before + all_written(objects) =~= before);
        assert(entries.skip(0) =~= entries);
    } else {
        let object = objects[0];
        let later = objects.drop_first();
        let end = cursor + object.header.len();
        assert(is_batch_object(object));
        assert(output =~= before + written(object) + all_written(later) + tail);
        assert forall|i: int| cursor <= i < end implies output[i] != 10 by {
            assert(output[i] == object.header[i - cursor]);
            assert(object.header.contains(object.header[i - cursor]));
        }
        assert(output[end] == 10);
        lemma_byte_position(output, cursor, 10, end);
        assert(output.subrange(cursor, end) =~= object.header);
        let next = before + written(object);
        assert(before + all_written(objects) =~= next + all_written(later));
        assert(output =~= next + all_written(later) + tail);
        let rest = entries.drop_first();
        assert(entries.skip(n) =~= rest.skip(n - 1));
        assert(entries.take(n).drop_first() =~= rest.take(n - 1));
        match object.content {
            Some(content) => {
                let start = end + 1;
                assert(output.subrange(start, start + content.len()) =~= content);
                assert(next.len() == start + content.len() + 1);
                lemma_batch_goes_on(
                    next,
                    rest,
                    later,
                    tail,
                    with_text(previews, entries[0].path, preview_text(content)),
                );
            },
            None => {
                assert(next.len() == end + 1);
                lemma_batch_goes_on(next, rest, later, tail, previews);
            },
        }
    }
}

/// An output that breaks off keeps what is whole: the texts of the objects before the
/// break are those that a complete output of these objects gives, whether it
/// breaks off in a header or in the contents of an object. Objects behind the
/// last entry change nothing.
pub proof fn law_cut_batch_keeps_what_is_whole(
    entries: Seq<EntryModel>,
    objects: Seq<GitObject>,
    cut: GitObject,
    tail: Seq<u8>,
)
    requires
        objects.len() <= entries.len(),
        forall|j: int| 0 <= j < objects.len() ==> is_git_object(#[trigger] objects[j]),
        is_git_object(cut) && cut.content is Some,
        !tail.contains(10) || (tail.len() < written(with_header(cut)).len() - 1 && tail
            == written(with_header(cut)).take(tail.len() as int)),
    ensures
        batch_previews(batch_of(objects) + tail, entries) == batch_previews(
            batch_of(objects),
            entries.take(objects.len() as int),
        ),
        entries.len() == objects.len() ==> batch_previews(batch_of(objects.push(cut)), entries)
            == batch_previews(batch_of(objects), entries),
{
    let n = objects.len() as int;
    let all = headed(objects);
    lemma_git_objects(objects);
    let none = Map::<Seq<char>, Seq<char>>::empty();
    let empty = Seq::<u8>::empty();
    let head = batch_of(objects);
    let output = head + tail;
    assert(empty + all_written(all) + tail =~= output);
    lemma_batch_goes_on(empty, entries, all, tail, none);
    law_batch_reads_back(entries.take(n), all);
    let texts = object_texts(entries.take(n), all, none);
    let cursor = head.len() as int;
    assert((empty + all_written(all)).len() == cursor);
    lemma_byte_found(output, cursor, 10);
    let end = byte_position(output, cursor, 10);
    if tail.contains(10) {
        let object = with_header(cut);
        law_header_announces_size(cut.name, cut.word, cut.content->0.len());
        let h = object.header.len() as int;
        assert(written(object).len() == h + 1 + cut.content->0.len() + 1);
        assert forall|i: int| 0 <= i < tail.len() implies tail[i] == written(object)[i] by {
            assert(written(object).take(tail.len() as int)[i] == written(object)[i]);
        }
        assert(tail.len() > h) by {
            let i = choose|i: int| 0 <= i < tail.len() && tail[i] == 10;
            if i < h {
                assert(object.header[i] == 10);
                assert(object.header.contains(10));
            }
        }
        assert forall|i: int| cursor <= i < cursor + h implies output[i] != 10 by {
            assert(output[i] == tail[i - cursor]);
            assert(tail[i - cursor] == object.header[i - cursor]);
            assert(object.header.contains(object.header[i - cursor]));
        }
        assert(output[cursor + h] == 10) by {
            assert(output[cursor + h] == tail[h]);
        }
        lemma_byte_position(output, cursor, 10, cursor + h);
        assert(output.subrange(cursor, end) =~= object.header);
    } else if end < output.len() {
        assert(output[end] == tail[end - cursor]);
        assert(tail.contains(tail[end - cursor]));
    }
    assert(batch_from(output, cursor, entries.skip(n), texts) == texts);
    if entries.len() == objects.len() {
        let more = objects.push(cut);
        assert forall|j: int| 0 <= j < more.len() implies is_git_object(#[trigger] more[j]) by {
            if j < n {
                assert(more[j] == objects[j]);
            }
        }
        lemma_git_objects(more);
        let all_more = headed(more);
        law_batch_reads_back(entries, all_more);
        assert(entries.take(n) =~= entries);
        assert(all_more =~= all.push(with_header(cut)));
        lemma_object_texts_stop(entries, all, with_header(cut), none);
    }
}

/// The contents of the last object count though the newline behind them is missing.
pub proof fn law_last_newline_is_optional(
    entries: Seq<EntryModel>,
    objects: Seq<GitObject>,
    last: GitObject,
)
    requires
        objects.len() < entries.len(),
        forall|j: int| 0 <= j < objects.len() ==> is_git_object(#[trigger] objects[j]),
        is_git_object(last) && last.content is Some,
    ensures
        batch_previews(
            batch_of(objects) + written(with_header(last)).drop_last(),
            entries,
        ) == batch_previews(
            batch_of(objects.push(last)),
            entries.take(objects.len() as int + 1),
        ),
{
    let n = objects.len() as int;
    let all = headed(objects);
    let none = Map::<Seq<char>, Seq<char>>::empty();
    let empty = Seq::<u8>::empty();
    let object = with_header(last);
    let content = last.content->0;
    let tail = written(object).drop_last();
    let output = batch_of(objects) + tail;
    lemma_git_objects(objects);
    assert(empty + all_written(all) + tail =~= output);
    lemma_batch_goes_on(empty, entries, all, tail, none);
    let texts = object_texts(entries.take(n), all, none);
    let cursor = batch_of(objects).len() as int;
    assert((empty + all_written(all)).len() == cursor);
    law_header_announces_size(last.name, last.word, content.len());
    let h = object.header.len() as int;
    assert(tail =~= object.header.push(10) + content);
    assert forall|i: int| cursor <= i < cursor + h implies output[i] != 10 by {
        assert(output[i] == object.header[i - cursor]);
        assert(object.header.contains(object.header[i - cursor]));
    }
    assert(output[cursor + h] == 10);
    lemma_byte_position(output, cursor, 10, cursor + h);
    assert(output.subrange(cursor, cursor + h) =~= object.header);
    let start = cursor + h + 1;
    assert(output.len() == start + content.len());
    assert(output.subrange(start, start + content.len()) =~= content);
    let left = entries.skip(n);
    let shown = with_text(texts, left[0].path, preview_text(content));
    lemma_byte_found(output, output.len() as int, 10);
    assert(batch_from(output, output.len() as int, left.drop_first(), shown) == shown);
    assert(batch_from(output, cursor, left, texts) == shown);
    let more = objects.push(last);
    assert forall|j: int| 0 <= j < more.len() implies is_git_object(#[trigger] more[j]) by {
        if j < n {
            assert(more[j] == objects[j]);
        }
    }
    lemma_git_objects(more);
    let all_more = headed(more);
    law_batch_reads_back(entries.take(n + 1), all_more);
    assert(all_more =~= all.push(object));
    assert(entries.take(n + 1) =~= entries.take(n).push(left[0]));
    lemma_object_texts_push(entries.take(n), all, left[0], object, none);
}

proof fn lemma_git_objects(objects: Seq<GitObject>)
    requires
        forall|j: int| 0 <= j < objects.len() ==> is_git_object(#[trigger] objects[j]),
    ensures
        forall|j: int| 0 <= j < objects.len() ==> is_batch_object(#[trigger] headed(objects)[j]),
{
    let all = headed(objects);
    assert forall|j: int| 0 <= j < objects.len() implies is_batch_object(#[trigger] all[j]) by {
        let object = objects[j];
        assert(is_git_object(object));
        let size = match object.content {
            Some(content) => content.len(),
            None => 0,
        };
        law_header_announces_size(object.name, object.word, size);
    }
}

proof fn lemma_object_texts_stop(
    entries: Seq<EntryModel>,
    objects: Seq<BatchObject>,
    more: BatchObject,
    previews: Map<Seq<char>, Seq<char>>,
)
    requires
        entries.len() == objects.len(),
    ensures
        object_texts(entries, objects.push(more), previews) == object_texts(
            entries,
            objects,
            previews,
        ),
    decreases objects.len(),
{
    if objects.len() > 0 {
        assert(objects.push(more).drop_first() =~= objects.drop_first().push(more));
        let text = match objects[0].content {
            Some(content) => preview_text(content),
            None => None,
        };
        lemma_object_texts_stop(
            entries.drop_first(),
            objects.drop_first(),
            more,
            with_text(previews, entries[0].path, text),
        );
    }
}

proof fn lemma_object_texts_push(
    entries: Seq<EntryModel>,
    objects: Seq<BatchObject>,
    entry: EntryModel,
    object: BatchObject,
    previews: Map<Seq<char>, Seq<char>>,
)
    requires
        entries.len() == objects.len(),
    ensures
        object_texts(entries.push(entry), objects.push(object), previews) == with_text(
            object_texts(entries, objects, previews),
            entry.path,
            match object.content {
                Some(content) => preview_text(content),
                None => None,
            },
        ),
    decreases objects.len(),
{
    let es = entries.push(entry);
    let os = objects.push(object);
    if objects.len() > 0 {
        assert(es.drop_first() =~= entries.drop_first().push(entry));
        assert(os.drop_first() =~= objects.drop_first().push(object));
        let text = match objects[0].content {
            Some(content) => preview_text(content),
            None => None,
        };
        lemma_object_texts_push(
            entries.drop_first(),
            objects.drop_first(),
            entry,
            object,
            with_text(previews, entries[0].path, text),
        );
    } else {
        reveal_with_fuel(object_texts, 2);
        assert(es[0] == entry && os[0] == object);
    }
}

} // verus!
