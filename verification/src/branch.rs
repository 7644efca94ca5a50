//! Names of branches and commits: normalising them and deciding which may be
//! handed to git.
use crate::exchange::result_view;
use crate::model::first_n;
use crate::text::{
    all_space, ascii_lower, ascii_lowercase, blank, is_ascii_alphanumeric, is_blank, is_hex_digit,
    is_white_space, law_trim_takes_outer_space_only, lemma_trim_end_prefix,
    lemma_trim_start_suffix, same_chars, starts_with, to_ascii_lower, to_chars, to_text, trim,
    trim_chars, trim_end_chars, trim_start_chars,
};
use vstd::prelude::*;
use vstd::slice::slice_subrange;

verus! {

/// The first seven characters of `hash`, or all of it if it is shorter.
pub open spec fn short_form(hash: Seq<char>) -> Seq<char> {
    first_n(hash, 7)
}

/// The abbreviated form of a commit hash.
pub fn short_hash(hash: &str) -> (r: String)
    ensures
        r@ == short_form(hash@),
{
    let cs = to_chars(hash);
    if cs.len() <= 7 {
        to_text(cs.as_slice())
    } else {
        to_text(slice_subrange(cs.as_slice(), 0, 7))
    }
}

/// The bounds of `s` without its outer white space.
fn trim_bounds(s: &[char]) -> (r: (usize, usize))
    ensures
        r.0 <= r.1 <= s@.len(),
        s@.subrange(r.0 as int, r.1 as int) == trim(s@),
{
    let tail = trim_start_chars(s);
    let name = trim_end_chars(tail);
    proof {
        lemma_trim_start_suffix(s@);
        lemma_trim_end_prefix(tail@);
    }
    let a: usize = s.len() - tail.len();
    let b: usize = a + name.len();
    assert(s@.subrange(a as int, b as int) == name@);
    (a, b)
}

/// A branch name without outer white space and without the prefix of the full
/// reference.
pub open spec fn normalized(branch: Seq<char>) -> Seq<char> {
    let name = trim(branch);
    if starts_with(name, "refs/heads/"@) {
        name.skip("refs/heads/"@.len() as int)
    } else {
        name
    }
}

/// Turns `refs/heads/name`, with or without white space round it, into `name`.
pub fn normalize_branch_name(branch: &str) -> (r: &str)
    ensures
        r@ == normalized(branch@),
{
    let cs = to_chars(branch);
    let (a, b) = trim_bounds(cs.as_slice());
    let prefix = to_chars("refs/heads/");
    let n: usize = prefix.len();
    if n <= b - a && same_chars(
        slice_subrange(cs.as_slice(), a, a + n),
        prefix.as_slice(),
    ) {
        proof {
            let name = cs@.subrange(a as int, b as int);
            assert(name.take(n as int) == cs@.subrange(a as int, a + n));
            assert(name.skip(n as int) == cs@.subrange(a + n, b as int));
        }
        branch.substring_char(a + n, b)
    } else {
        proof {
            let name = cs@.subrange(a as int, b as int);
            if n <= name.len() {
                assert(name.take(n as int) == cs@.subrange(a as int, a + n));
            }
        }
        branch.substring_char(a, b)
    }
}

/// The characters that a branch name may hold: ASCII letters and digits, and
/// `/`, `-`, `_` and `.`.
pub open spec fn is_branch_char(c: char) -> bool {
    is_ascii_alphanumeric(c) || c == '/' || c == '-' || c == '_' || c == '.'
}

/// A name that git cannot take for an option and that holds allowed characters
/// only.
pub open spec fn is_safe_branch(name: Seq<char>) -> bool {
    &&& name.len() > 0
    &&& name[0] != '-'
    &&& forall|i: int| 0 <= i < name.len() ==> is_branch_char(#[trigger] name[i])
}

/// The branch name in `value` without outer white space, if it is safe.
pub open spec fn cleaned(value: Option<Seq<char>>) -> Option<Seq<char>> {
    match value {
        Some(text) => if is_safe_branch(trim(text)) {
            Some(trim(text))
        } else {
            None
        },
        None => None,
    }
}

fn safe_branch(name: &[char]) -> (r: bool)
    ensures
        r == is_safe_branch(name@),
{
    if name.len() == 0 || name[0] == '-' {
        return false;
    }
    let mut i: usize = 0;
    while i < name.len()
        invariant
            i <= name.len(),
            forall|j: int| 0 <= j < i ==> is_branch_char(#[trigger] name@[j]),
        decreases name.len() - i,
    {
        let c = name[i];
        let letter = ('a' <= c && c <= 'z') || ('A' <= c && c <= 'Z') || ('0' <= c && c <= '9');
        if !(letter || c == '/' || c == '-' || c == '_' || c == '.') {
            assert(!is_branch_char(name@[i as int]));
            return false;
        }
        i += 1;
    }
    true
}

/// The branch name in `value`, if it may be handed to git: a name of allowed
/// characters that does not look like an option. Which characters are allowed,
/// and that outer white space is dropped, are rules of this library, stricter
/// than git's own. Whoever hands a branch name to git without going through
/// another function of the library, as a push does, validates it here, so that
/// one name is valid everywhere or nowhere.
pub fn clean_branch(value: Option<&str>) -> (r: Option<String>)
    ensures
        r.deep_view() == cleaned(value.deep_view()),
{
    match value {
        Some(text) => {
            let cs = to_chars(text);
            let name = trim_chars(cs.as_slice());
            if safe_branch(name) {
                Some(to_text(name))
            } else {
                None
            }
        },
        None => None,
    }
}

/// Normalizes a branch option that came from outside through the shared
/// validation of [`clean_branch`], so that every command applies the same
/// rules before the value reaches git.
pub fn normalize_branch_option(branch: Option<&str>) -> (r: Option<String>)
    ensures
        r.deep_view() == cleaned(branch.deep_view()),
{
    clean_branch(branch)
}

/// What becomes of a selected branch: no selection if nothing or only white
/// space is given, the cleaned name, or a refusal.
pub open spec fn selection(value: Option<Seq<char>>) -> Result<Option<Seq<char>>, Seq<char>> {
    match value {
        None => Ok(None),
        Some(text) => if is_blank(text) {
            Ok(None)
        } else {
            match cleaned(Some(text)) {
                Some(name) => Ok(Some(name)),
                None => Err("The selected branch name is invalid."@),
            }
        },
    }
}

/// Validates the branch that a user selected. An invalid name is refused; it
/// does not become "no selection".
pub fn clean_selected_branch(value: Option<String>) -> (r: Result<Option<String>, String>)
    ensures
        result_view(r) == selection(value.deep_view()),
{
    match value {
        None => Ok(None),
        Some(text) => {
            let cs = to_chars(text.as_str());
            if blank(cs.as_slice()) {
                return Ok(None);
            }
            match clean_branch(Some(text.as_str())) {
                Some(name) => Ok(Some(name)),
                None => Err("The selected branch name is invalid.".to_string()),
            }
        },
    }
}

/// A full commit hash in lower case: 40 or 64 hexadecimal digits.
pub open spec fn commit_id(value: Seq<char>) -> Option<Seq<char>> {
    if (value.len() == 40 || value.len() == 64) && (forall|i: int|
        0 <= i < value.len() ==> is_hex_digit(#[trigger] value[i])) {
        Some(ascii_lowercase(value))
    } else {
        None
    }
}

/// The commit that a snapshot is asked for, if `value` is a full commit hash.
pub fn clean_target_commit(value: Option<&str>) -> (r: Option<String>)
    ensures
        r.deep_view() == (match value.deep_view() {
            Some(text) => commit_id(text),
            None => None,
        }),
{
    match value {
        Some(text) => {
            let cs = to_chars(text);
            if cs.len() != 40 && cs.len() != 64 {
                return None;
            }
            let mut i: usize = 0;
            while i < cs.len()
                invariant
                    i <= cs.len(),
                    cs@ == text@,
                    value == Some(text),
                    forall|j: int| 0 <= j < i ==> is_hex_digit(#[trigger] cs@[j]),
                decreases cs.len() - i,
            {
                let c = cs[i];
                if !(('0' <= c && c <= '9') || ('a' <= c && c <= 'f') || ('A' <= c && c <= 'F')) {
                    assert(!is_hex_digit(text@[i as int]));
                    return None;
                }
                i += 1;
            }
            Some(to_ascii_lower(text))
        },
        None => None,
    }
}

// ---------------------------------------------------------------------------
// Laws

proof fn lemma_trim_without_space(s: Seq<char>)
    requires
        forall|i: int| 0 <= i < s.len() ==> !is_white_space(#[trigger] s[i]),
    ensures
        trim(s) == s,
{
}

/// A selected branch counts as "no selection" exactly when nothing or only
/// white space was given; a name that is not safe is refused.
pub proof fn law_invalid_selection_is_refused(value: Seq<char>)
    ensures
        selection(Some(value)) == Ok::<Option<Seq<char>>, Seq<char>>(None) <==> is_blank(value),
        selection(Some(value)) is Err <==> !is_blank(value) && !is_safe_branch(trim(value)),
{
}

/// A branch name that passed the validation cannot be taken for an option of
/// git, holds no white space and stays as it is under every normalisation but
/// the removal of `refs/heads/`.
pub proof fn law_cleaned_branch_is_safe(value: Option<Seq<char>>)
    ensures
        cleaned(value) matches Some(name) ==> {
            &&& !starts_with(name, "-"@)
            &&& forall|i: int| 0 <= i < name.len() ==> !is_white_space(#[trigger] name[i])
            &&& trim(name) == name
            &&& cleaned(Some(name)) == Some(name)
            &&& selection(Some(name)) == Ok::<Option<Seq<char>>, Seq<char>>(Some(name))
        },
{
    if let Some(name) = cleaned(value) {
        reveal_strlit("-");
        assert forall|i: int| 0 <= i < name.len() implies !is_white_space(#[trigger] name[i]) by {
            assert(is_branch_char(name[i]));
        }
        lemma_trim_without_space(name);
        if starts_with(name, "-"@) {
            assert(name.take(1)[0] == "-"@[0]);
        }
    }
}

/// A commit that a snapshot is asked for is already in the form in which it is
/// compared.
pub proof fn law_commit_id_is_canonical(value: Seq<char>)
    ensures
        commit_id(value) matches Some(id) ==> ascii_lowercase(id) == id && commit_id(id) == Some(
            id,
        ),
{
    if let Some(id) = commit_id(value) {
        assert forall|i: int| 0 <= i < id.len() implies is_hex_digit(#[trigger] id[i])
            && ascii_lower(id[i]) == id[i] by {
            assert(is_hex_digit(value[i]));
        }
        assert(ascii_lowercase(id) == id);
    }
}

/// The characters that a branch name may hold, spelled out.
pub open spec fn is_plain(c: char) -> bool {
    'a' <= c <= 'z' || 'A' <= c <= 'Z' || '0' <= c <= '9' || c == '/' || c == '-' || c == '_' || c
        == '.'
}

/// A name of letters, digits, `/`, `-`, `_` and `.` that does not begin with `-`
/// is accepted as it is, however long it is and whatever white space stands
/// round it; and it is a selection.
pub proof fn law_plain_names_are_accepted(before: Seq<char>, name: Seq<char>, after: Seq<char>)
    requires
        all_space(before),
        all_space(after),
        name.len() > 0,
        name[0] != '-',
        forall|i: int| 0 <= i < name.len() ==> is_plain(#[trigger] name[i]),
    ensures
        cleaned(Some(before + name + after)) == Some(name),
        selection(Some(before + name + after)) == Ok::<Option<Seq<char>>, Seq<char>>(Some(name)),
{
    assert forall|i: int| 0 <= i < name.len() implies is_branch_char(#[trigger] name[i])
        && !is_white_space(name[i]) by {
        assert(is_plain(name[i]));
    }
    law_trim_takes_outer_space_only(before, name, after);
}

/// A text without outer white space that is empty, that begins with `-` or that
/// holds any other character is no branch name, whatever white space stands
/// round it; unless it is empty, it is refused as a selection too.
pub proof fn law_other_names_are_refused(
    before: Seq<char>,
    name: Seq<char>,
    after: Seq<char>,
    i: int,
)
    requires
        all_space(before),
        all_space(after),
        name.len() > 0 ==> !is_white_space(name[0]) && !is_white_space(name.last()),
        name.len() == 0 || name[0] == '-' || 0 <= i < name.len() && !is_plain(name[i]),
    ensures
        cleaned(Some(before + name + after)) is None,
        name.len() > 0 ==> selection(Some(before + name + after)) == Err::<
            Option<Seq<char>>,
            Seq<char>,
        >("The selected branch name is invalid."@),
        name.len() == 0 ==> selection(Some(before + name + after)) == Ok::<
            Option<Seq<char>>,
            Seq<char>,
        >(None),
        cleaned(None) is None,
        selection(None) == Ok::<Option<Seq<char>>, Seq<char>>(None),
{
    law_trim_takes_outer_space_only(before, name, after);
    if 0 <= i < name.len() && !is_plain(name[i]) {
        assert(!is_branch_char(name[i]));
    }
}

/// A branch name is normalised by taking away outer white space and one
/// `refs/heads/` at the front, and nothing else.
pub proof fn law_normalised_name(before: Seq<char>, name: Seq<char>, after: Seq<char>)
    requires
        all_space(before),
        all_space(after),
        name.len() > 0 ==> !is_white_space(name.last()),
    ensures
        normalized(before + ("refs/heads/"@ + name) + after) == name,
        (name.len() > 0 ==> !is_white_space(name[0])) && !starts_with(name, "refs/heads/"@)
            ==> normalized(before + name + after) == name,
{
    reveal_strlit("refs/heads/");
    let full = "refs/heads/"@ + name;
    assert(full[0] == 'r');
    assert(full.last() == if name.len() > 0 {
        name.last()
    } else {
        '/'
    });
    law_trim_takes_outer_space_only(before, full, after);
    assert(full.take("refs/heads/"@.len() as int) =~= "refs/heads/"@);
    assert(full.skip("refs/heads/"@.len() as int) =~= name);
    if name.len() > 0 ==> !is_white_space(name[0]) {
        law_trim_takes_outer_space_only(before, name, after);
    }
}

/// A commit that may be asked for is 40 or 64 hexadecimal digits; it is taken in
/// lower case. Any other text is none.
pub proof fn law_full_hashes_are_commit_ids(text: Seq<char>, i: int)
    ensures
        (text.len() == 40 || text.len() == 64) && (forall|j: int|
            0 <= j < text.len() ==> ('0' <= #[trigger] text[j] <= '9' || 'a' <= text[j] <= 'f'
                || 'A' <= text[j] <= 'F')) ==> commit_id(text) == Some(ascii_lowercase(text)),
        text.len() != 40 && text.len() != 64 ==> commit_id(text) is None,
        0 <= i < text.len() && !('0' <= text[i] <= '9' || 'a' <= text[i] <= 'f' || 'A' <= text[i]
            <= 'F') ==> commit_id(text) is None,
{
    if 0 <= i < text.len() && !is_hex_digit(text[i]) {
        assert(commit_id(text) is None);
    }
}

/// The short form of a hash is its first seven characters, or all of them.
pub proof fn law_short_form_is_seven_characters(hash: Seq<char>)
    ensures
        hash.len() >= 7 ==> short_form(hash) == hash.take(7),
        hash.len() < 7 ==> short_form(hash) == hash,
{
    assert(hash.take(hash.len() as int) =~= hash);
}

} // verus!
