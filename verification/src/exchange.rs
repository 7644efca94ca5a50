//! The exchange with git and the file system.
//!
//! The library runs nothing itself. A function that depends on what git says
//! takes the replies that came in so far and hands back either the next
//! request or, when it needs no more, its value. The caller starts with no
//! reply, carries out each request, appends the reply and calls again.
use crate::model::first_n;
use vstd::prelude::*;
use vstd::slice::slice_subrange;

verus! {

/// What the file system said of a file whose text is wanted.
#[derive(Debug)]
pub enum PreviewProbe {
    /// The file was not looked at, or its path or that of the repository does
    /// not resolve.
    Unresolved,
    /// The components of the file's path and of the repository's, every
    /// symbolic link followed, and the contents of the file, if it was read.
    Resolved { path: Vec<Vec<u8>>, root: Vec<Vec<u8>>, content: Option<Vec<u8>> },
}

/// What the file system said of a path in the working tree.
#[derive(Debug)]
pub enum FileProbe {
    /// Nothing is there, or something that is not a regular file.
    NotAFile,
    /// A regular file of `size` bytes. `modified` is the time of its last
    /// change, in whole seconds since the epoch, where it is known and not
    /// before the epoch.
    File { size: u64, modified: Option<u64>, preview: PreviewProbe },
}

/// Something that only the caller can do.
#[derive(Debug)]
pub enum Request {
    /// Run git with these arguments, in the repository or in no particular
    /// directory, and reply with its output as text.
    Git { args: Vec<String>, in_repo: bool },
    /// Run git in the repository with this text on its input, and reply with
    /// its output as bytes.
    GitWithInput { args: Vec<String>, input: String },
    /// Read the files at these paths of the checkout, and reply with one probe
    /// for each entry; an entry without a path is not read.
    Previews { wanted: Vec<Option<String>> },
    /// Look at these paths of the working tree, in order, and reply with one
    /// probe for each; the reply may stop at the first paths that hold
    /// `limit` regular files.
    Files { paths: Vec<String>, limit: usize },
}

/// What came of a request. A failure brings its message.
#[derive(Debug)]
pub enum Reply {
    Text(Result<String, String>),
    Bytes(Result<Vec<u8>, String>),
    Previews(Vec<PreviewProbe>),
    Files(Vec<FileProbe>),
}

/// The next request, or the value and the number of replies that it rests on.
#[derive(Debug)]
pub enum Progress<T> {
    Ask(Request),
    Done { value: T, used: usize },
}

// ---------------------------------------------------------------------------
// The values behind the types

pub enum RequestModel {
    Git { args: Seq<Seq<char>>, in_repo: bool },
    GitWithInput { args: Seq<Seq<char>>, input: Seq<char> },
    Previews { wanted: Seq<Option<Seq<char>>> },
    Files { paths: Seq<Seq<char>>, limit: nat },
}

impl DeepView for Request {
    type V = RequestModel;

    open spec fn deep_view(&self) -> RequestModel {
        match self {
            Request::Git { args, in_repo } => RequestModel::Git {
                args: args.deep_view(),
                in_repo: *in_repo,
            },
            Request::GitWithInput { args, input } => RequestModel::GitWithInput {
                args: args.deep_view(),
                input: input@,
            },
            Request::Previews { wanted } => RequestModel::Previews { wanted: wanted.deep_view() },
            Request::Files { paths, limit } => RequestModel::Files {
                paths: paths.deep_view(),
                limit: *limit as nat,
            },
        }
    }
}

/// The request to run git in the repository.
pub open spec fn git(args: Seq<Seq<char>>) -> RequestModel {
    RequestModel::Git { args, in_repo: true }
}

/// `progress` is the step that `script` prescribes after `answered` replies:
/// the next request of the script, or `value` once each request is answered.
pub open spec fn follows<T: DeepView>(
    progress: Progress<T>,
    script: Seq<RequestModel>,
    answered: nat,
    value: T::V,
) -> bool {
    match progress {
        Progress::Ask(request) => answered < script.len() && request.deep_view()
            == script[answered as int],
        Progress::Done { value: v, used } => script.len() <= answered && used == script.len()
            && v.deep_view() == value,
    }
}

pub open spec fn result_view<T: DeepView>(r: Result<T, String>) -> Result<T::V, Seq<char>> {
    match r {
        Ok(v) => Ok(v.deep_view()),
        Err(message) => Err(message@),
    }
}

/// As `follows`, for a value that may be a failure with a message.
pub open spec fn follows_result<T: DeepView>(
    progress: Progress<Result<T, String>>,
    script: Seq<RequestModel>,
    answered: nat,
    value: Result<T::V, Seq<char>>,
) -> bool {
    match progress {
        Progress::Ask(request) => answered < script.len() && request.deep_view()
            == script[answered as int],
        Progress::Done { value: v, used } => script.len() <= answered && used == script.len()
            && result_view(v) == value,
    }
}

/// The text that the `i`-th reply brought, if it is there and is no failure.
pub open spec fn text_at(replies: Seq<Reply>, i: int) -> Option<Seq<char>> {
    if 0 <= i < replies.len() {
        match replies[i] {
            Reply::Text(Ok(text)) => Some(text@),
            _ => None,
        }
    } else {
        None
    }
}

/// The message of a reply that brought no text.
pub open spec fn failure_at(replies: Seq<Reply>, i: int) -> Seq<char> {
    match replies[i] {
        Reply::Text(Err(message)) => message@,
        Reply::Bytes(Err(message)) => message@,
        _ => "git gave no text output"@,
    }
}

/// The bytes that the `i`-th reply brought, if it is there and is no failure.
pub open spec fn bytes_at(replies: Seq<Reply>, i: int) -> Option<Seq<u8>> {
    if 0 <= i < replies.len() {
        match replies[i] {
            Reply::Bytes(Ok(bytes)) => Some(bytes@),
            _ => None,
        }
    } else {
        None
    }
}

/// The preview probes that the `i`-th reply brought.
pub open spec fn previews_at(replies: Seq<Reply>, i: int) -> Seq<PreviewProbe> {
    if 0 <= i < replies.len() {
        match replies[i] {
            Reply::Previews(probes) => probes@,
            _ => Seq::empty(),
        }
    } else {
        Seq::empty()
    }
}

/// The file probes that the `i`-th reply brought.
pub open spec fn files_at(replies: Seq<Reply>, i: int) -> Seq<FileProbe> {
    if 0 <= i < replies.len() {
        match replies[i] {
            Reply::Files(probes) => probes@,
            _ => Seq::empty(),
        }
    } else {
        Seq::empty()
    }
}

/// The replies after the first `n`.
pub open spec fn after(replies: Seq<Reply>, n: int) -> Seq<Reply> {
    if n <= replies.len() {
        replies.skip(n)
    } else {
        Seq::empty()
    }
}

/// Two scripts prescribe the same up to and including the request after `n`
/// replies.
pub open spec fn agree_until(a: Seq<RequestModel>, b: Seq<RequestModel>, n: nat) -> bool {
    first_n(a, n + 1) == first_n(b, n + 1)
}

/// A request that looks at the files of the working tree.
pub open spec fn looks_at_worktree(request: RequestModel) -> bool {
    match request {
        RequestModel::Git { args, .. } => args.len() > 0 && args[0] == "ls-files"@,
        RequestModel::GitWithInput { .. } => false,
        RequestModel::Previews { .. } => true,
        RequestModel::Files { .. } => true,
    }
}

pub proof fn lemma_text_at_take(replies: Seq<Reply>, n: int, i: int)
    requires
        0 <= n <= replies.len(),
        i < n,
    ensures
        text_at(replies.take(n), i) == text_at(replies, i),
{
}

pub proof fn lemma_after_take(replies: Seq<Reply>, n: int, k: int)
    requires
        0 <= k <= n <= replies.len(),
    ensures
        after(replies.take(n), k) == after(replies, k).take(n - k),
{
    assert(after(replies.take(n), k) =~= after(replies, k).take(n - k));
}

/// A script that goes on after a first part with a second one, both step by
/// step, goes step by step.
pub proof fn lemma_join_step_by_step(
    head: Seq<RequestModel>,
    a: Seq<RequestModel>,
    b: Seq<RequestModel>,
    n: nat,
)
    requires
        n >= head.len(),
        agree_until(a, b, (n - head.len()) as nat),
    ensures
        agree_until(head + a, head + b, n),
{
    let m = (n - head.len()) as nat;
    assert(first_n(head + a, n + 1) =~= head + first_n(a, m + 1));
    assert(first_n(head + b, n + 1) =~= head + first_n(b, m + 1));
}

// ---------------------------------------------------------------------------
// Reading replies and building requests

pub fn text_reply<'a>(replies: &'a [Reply], i: usize) -> (r: Option<&'a str>)
    ensures
        r.deep_view() == text_at(replies@, i as int),
{
    if i < replies.len() {
        match &replies[i] {
            Reply::Text(Ok(text)) => Some(text.as_str()),
            _ => None,
        }
    } else {
        None
    }
}

pub fn failure_reply(replies: &[Reply], i: usize) -> (r: String)
    requires
        i < replies@.len(),
    ensures
        r@ == failure_at(replies@, i as int),
{
    match &replies[i] {
        Reply::Text(Err(message)) => message.clone(),
        Reply::Bytes(Err(message)) => message.clone(),
        _ => "git gave no text output".to_string(),
    }
}

pub fn bytes_reply<'a>(replies: &'a [Reply], i: usize) -> (r: Option<&'a [u8]>)
    ensures
        match r {
            Some(bytes) => bytes_at(replies@, i as int) == Some(bytes@),
            None => bytes_at(replies@, i as int) is None,
        },
{
    if i < replies.len() {
        match &replies[i] {
            Reply::Bytes(Ok(bytes)) => Some(bytes.as_slice()),
            _ => None,
        }
    } else {
        None
    }
}

pub fn previews_reply<'a>(replies: &'a [Reply], i: usize) -> (r: Option<&'a [PreviewProbe]>)
    ensures
        match r {
            Some(probes) => probes@ == previews_at(replies@, i as int),
            None => previews_at(replies@, i as int).len() == 0,
        },
{
    if i < replies.len() {
        match &replies[i] {
            Reply::Previews(probes) => Some(probes.as_slice()),
            _ => None,
        }
    } else {
        None
    }
}

pub fn files_reply<'a>(replies: &'a [Reply], i: usize) -> (r: Option<&'a [FileProbe]>)
    ensures
        match r {
            Some(probes) => probes@ == files_at(replies@, i as int),
            None => files_at(replies@, i as int).len() == 0,
        },
{
    if i < replies.len() {
        match &replies[i] {
            Reply::Files(probes) => Some(probes.as_slice()),
            _ => None,
        }
    } else {
        None
    }
}

/// The replies after the first `n`.
pub fn rest<'a>(replies: &'a [Reply], n: usize) -> (r: &'a [Reply])
    ensures
        r@ == after(replies@, n as int),
{
    if n <= replies.len() {
        slice_subrange(replies, n, replies.len())
    } else {
        slice_subrange(replies, 0, 0)
    }
}

/// Copies of the given strings.
pub fn owned(parts: &[&str]) -> (r: Vec<String>)
    ensures
        r.deep_view() == parts.deep_view(),
{
    let mut out: Vec<String> = Vec::new();
    let mut i: usize = 0;
    while i < parts.len()
        invariant
            i <= parts.len(),
            out@.len() == i,
            forall|j: int| 0 <= j < i ==> (#[trigger] out@[j])@ == parts@[j]@,
        decreases parts.len() - i,
    {
        out.push(parts[i].to_string());
        i += 1;
    }
    out
}

/// The request to run git in the repository.
pub fn ask_git(args: &[&str]) -> (r: Request)
    ensures
        r.deep_view() == git(args.deep_view()),
{
    Request::Git { args: owned(args), in_repo: true }
}

/// The request to run git in no particular directory.
pub fn ask_git_anywhere(args: &[&str]) -> (r: Request)
    ensures
        r.deep_view() == (RequestModel::Git { args: args.deep_view(), in_repo: false }),
{
    Request::Git { args: owned(args), in_repo: false }
}

// ---------------------------------------------------------------------------
// Laws

/// A reply counts for what it is: text is text, bytes are bytes, and a failure
/// is neither; its message is kept as it is.
pub proof fn law_replies_are_taken_as_they_are(replies: Seq<Reply>, i: int)
    requires
        0 <= i < replies.len(),
    ensures
        replies[i] matches Reply::Text(Ok(text)) ==> text_at(replies, i) == Some(text@),
        replies[i] matches Reply::Text(Err(message)) ==> text_at(replies, i) is None && failure_at(
            replies,
            i,
        ) == message@,
        replies[i] matches Reply::Bytes(Err(message)) ==> text_at(replies, i) is None && failure_at(
            replies,
            i,
        ) == message@,
        replies[i] matches Reply::Bytes(Ok(bytes)) ==> bytes_at(replies, i) == Some(bytes@),
        !(replies[i] matches Reply::Text(Ok(_))) ==> text_at(replies, i) is None,
        !(replies[i] matches Reply::Bytes(Ok(_))) ==> bytes_at(replies, i) is None,
        replies[i] matches Reply::Previews(probes) ==> previews_at(replies, i) == probes@,
        replies[i] matches Reply::Files(probes) ==> files_at(replies, i) == probes@,
        text_at(replies, replies.len() as int) is None,
        bytes_at(replies, replies.len() as int) is None,
{
}

/// A function that follows a script asks for the request whose turn it is, and is
/// done only when every request is answered; then it gives the value and the
/// number of replies that the script has.
pub proof fn law_following_a_script<T: DeepView>(
    progress: Progress<T>,
    script: Seq<RequestModel>,
    answered: nat,
    value: T::V,
)
    requires
        follows(progress, script, answered, value),
    ensures
        progress matches Progress::Ask(request) ==> answered < script.len() && request.deep_view()
            == script[answered as int],
        progress matches Progress::Done { value: given, used } ==> answered >= script.len() && used
            == script.len() && given.deep_view() == value,
{
}

/// A function that may fail follows a script in the same way: what it gives is the
/// value, or the message of the failure, as it is.
pub proof fn law_following_a_script_to_a_result<T: DeepView>(
    progress: Progress<Result<T, String>>,
    script: Seq<RequestModel>,
    answered: nat,
    value: Result<T::V, Seq<char>>,
)
    requires
        follows_result(progress, script, answered, value),
    ensures
        progress matches Progress::Ask(request) ==> answered < script.len() && request.deep_view()
            == script[answered as int],
        progress matches Progress::Done { value: given, used } ==> answered >= script.len() && used
            == script.len() && match given {
            Ok(v) => value == Ok::<T::V, Seq<char>>(v.deep_view()),
            Err(message) => value == Err::<T::V, Seq<char>>(message@),
        },
{
}

/// A request stands for what it holds: the arguments and the input word for word, the
/// paths one by one.
pub proof fn law_requests_are_shown_whole(request: Request, i: int)
    ensures
        request matches Request::Git { args, in_repo } ==> {
            &&& request.deep_view() matches RequestModel::Git { args: shown, in_repo: there }
            &&& there == in_repo && shown.len() == args@.len()
            &&& 0 <= i < args@.len() ==> shown[i] == args@[i]@
        },
        request matches Request::GitWithInput { args, input } ==> {
            &&& request.deep_view() matches RequestModel::GitWithInput { args: shown, input: text }
            &&& text == input@ && shown.len() == args@.len()
            &&& 0 <= i < args@.len() ==> shown[i] == args@[i]@
        },
        request matches Request::Previews { wanted } ==> {
            &&& request.deep_view() matches RequestModel::Previews { wanted: shown }
            &&& shown.len() == wanted@.len()
            &&& 0 <= i < wanted@.len() ==> match wanted@[i] {
                Some(path) => shown[i] == Some(path@),
                None => shown[i] is None,
            }
        },
        request matches Request::Files { paths, limit } ==> {
            &&& request.deep_view() matches RequestModel::Files { paths: shown, limit: most }
            &&& most == limit && shown.len() == paths@.len()
            &&& 0 <= i < paths@.len() ==> shown[i] == paths@[i]@
        },
{
}

} // verus!
