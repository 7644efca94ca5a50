//! The viewer's git identity.
use crate::exchange::{
    ask_git_anywhere, follows, text_at, text_reply, Progress, Reply, RequestModel,
};
use crate::model::{GitIdentityInfo, IdentityModel};
use crate::text::{
    all_space, is_white_space, law_trim_takes_outer_space_only, to_chars, to_text, trim, trim_chars,
};
use vstd::prelude::*;

verus! {

pub open spec fn read_setting(key: Seq<char>) -> RequestModel {
    RequestModel::Git { args: seq!["config"@, "--get"@, key], in_repo: false }
}

/// The value of a setting without outer white space, if it is set and not
/// blank.
pub open spec fn setting_at(replies: Seq<Reply>, i: int) -> Option<Seq<char>> {
    match text_at(replies, i) {
        Some(output) => if trim(output).len() > 0 {
            Some(trim(output))
        } else {
            None
        },
        None => None,
    }
}

pub open spec fn identity_script() -> Seq<RequestModel> {
    seq![read_setting("user.name"@), read_setting("user.email"@)]
}

/// The identity: the name is the first setting, the email the second.
pub open spec fn identity_of(replies: Seq<Reply>) -> IdentityModel {
    IdentityModel { name: setting_at(replies, 0), email: setting_at(replies, 1) }
}

fn setting_reply(replies: &[Reply], i: usize) -> (r: Option<String>)
    ensures
        r.deep_view() == setting_at(replies@, i as int),
{
    match text_reply(replies, i) {
        Some(output) => {
            let cs = to_chars(output);
            let value = trim_chars(cs.as_slice());
            if value.len() > 0 {
                Some(to_text(value))
            } else {
                None
            }
        },
        None => None,
    }
}

/// The viewer's configured git identity (`user.name` and `user.email`), by
/// which their own commits are attributed to their profile when the author
/// strings of git match no profile field.
pub fn get_git_identity(replies: &[Reply]) -> (r: Progress<GitIdentityInfo>)
    ensures
        follows(r, identity_script(), replies@.len(), identity_of(replies@)),
{
    if replies.len() == 0 {
        let request = ask_git_anywhere(&["config", "--get", "user.name"]);
        assert(request.deep_view()->Git_args =~= seq!["config"@, "--get"@, "user.name"@]);
        return Progress::Ask(request);
    }
    if replies.len() == 1 {
        let request = ask_git_anywhere(&["config", "--get", "user.email"]);
        assert(request.deep_view()->Git_args =~= seq!["config"@, "--get"@, "user.email"@]);
        return Progress::Ask(request);
    }
    let value = GitIdentityInfo {
        name: setting_reply(replies, 0),
        email: setting_reply(replies, 1),
    };
    Progress::Done { value, used: 2 }
}

// ---------------------------------------------------------------------------
// Laws

/// The identity is what git has under `user.name` and `user.email`, without the
/// white space round it; a setting that is missing or blank is no part of it.
pub proof fn law_identity_is_what_is_configured(
    replies: Seq<Reply>,
    i: int,
    before: Seq<char>,
    value: Seq<char>,
    after: Seq<char>,
)
    requires
        all_space(before),
        all_space(after),
        value.len() > 0 ==> !is_white_space(value[0]) && !is_white_space(value.last()),
    ensures
        text_at(replies, i) == Some(before + value + after) && value.len() > 0 ==> setting_at(
            replies,
            i,
        ) == Some(value),
        text_at(replies, i) == Some(before + value + after) && value.len() == 0 ==> setting_at(
            replies,
            i,
        ) is None,
        text_at(replies, i) is None ==> setting_at(replies, i) is None,
        identity_of(replies).name == setting_at(replies, 0),
        identity_of(replies).email == setting_at(replies, 1),
        identity_script().len() == 2,
        identity_script()[0] == (RequestModel::Git {
            args: seq!["config"@, "--get"@, "user.name"@],
            in_repo: false,
        }),
        identity_script()[1] == (RequestModel::Git {
            args: seq!["config"@, "--get"@, "user.email"@],
            in_repo: false,
        }),
{
    law_trim_takes_outer_space_only(before, value, after);
}

} // verus!
