//! Short outputs of git: single lines, counts and the porcelain status.
use crate::text::{
    all_space, blank, decimal, first_line_in, first_line_of, has_prefix, is_blank, is_digit,
    is_white_space, law_decimal_reads_back, law_lines_end_at_newlines,
    law_trim_takes_outer_space_only, lemma_blank_is_all_space, lemma_blank_lines, lines_in,
    lines_of, read_usize, starts_with, to_chars, to_text, trim, trim_chars, unsigned_value, views,
};
use vstd::prelude::*;

verus! {

/// The first line of `output` without outer white space, if any of it is left.
pub open spec fn first_value(output: Seq<char>) -> Option<Seq<char>> {
    match first_line_of(output) {
        Some(line) => if trim(line).len() > 0 {
            Some(trim(line))
        } else {
            None
        },
        None => None,
    }
}

/// Reads the value on the first line of `output`.
pub fn first_output_line(output: &str) -> (r: Option<String>)
    ensures
        r.deep_view() == first_value(output@),
{
    let cs = to_chars(output);
    match first_line_in(cs.as_slice()) {
        Some(line) => {
            let value = trim_chars(line);
            if value.len() > 0 {
                Some(to_text(value))
            } else {
                None
            }
        },
        None => None,
    }
}

/// The number that `output` writes, or 0 if it writes none that a `usize`
/// holds.
pub open spec fn count_of(output: Seq<char>) -> nat {
    match unsigned_value(trim(output), usize::MAX as nat) {
        Some(n) => n,
        None => 0,
    }
}

/// Reads a count.
pub fn parse_count(output: &str) -> (r: usize)
    ensures
        r == count_of(output@),
{
    let cs = to_chars(output);
    match read_usize(trim_chars(cs.as_slice())) {
        Some(n) => n,
        None => 0,
    }
}

/// A line of the porcelain status that reports a change to a tracked file.
pub open spec fn reports_change(line: Seq<char>) -> bool {
    !starts_with(line, "??"@) && !is_blank(line)
}

/// A line of the porcelain status that reports an untracked file.
pub open spec fn reports_untracked(line: Seq<char>) -> bool {
    starts_with(line, "??"@)
}

/// Whether some line of `output` reports a change to a tracked file.
pub open spec fn any_change(output: Seq<char>) -> bool {
    exists|i: int|
        0 <= i < lines_of(output).len() && reports_change(#[trigger] lines_of(output)[i])
}

/// Whether some line of `output` reports an untracked file.
pub open spec fn any_untracked(output: Seq<char>) -> bool {
    exists|i: int|
        0 <= i < lines_of(output).len() && reports_untracked(#[trigger] lines_of(output)[i])
}

/// Whether the porcelain status reports changes to tracked files.
pub fn has_uncommitted_changes(output: &str) -> (r: bool)
    ensures
        r == any_change(output@),
{
    let cs = to_chars(output);
    let lines = lines_in(cs.as_slice());
    let ghost all = lines_of(output@);
    let mut i: usize = 0;
    while i < lines.len()
        invariant
            i <= lines.len(),
            views(lines@) == all,
            all == lines_of(output@),
            forall|j: int| 0 <= j < i ==> !reports_change(#[trigger] all[j]),
        decreases lines.len() - i,
    {
        let line = lines[i];
        assert(line@ == views(lines@)[i as int]);
        if !has_prefix(line, "??") && !blank(line) {
            assert(reports_change(all[i as int]));
            return true;
        }
        i += 1;
    }
    assert(all.len() == lines@.len());
    false
}

/// Whether the porcelain status reports untracked files.
pub fn has_untracked_files(output: &str) -> (r: bool)
    ensures
        r == any_untracked(output@),
{
    let cs = to_chars(output);
    let lines = lines_in(cs.as_slice());
    let ghost all = lines_of(output@);
    let mut i: usize = 0;
    while i < lines.len()
        invariant
            i <= lines.len(),
            views(lines@) == all,
            all == lines_of(output@),
            forall|j: int| 0 <= j < i ==> !reports_untracked(#[trigger] all[j]),
        decreases lines.len() - i,
    {
        let line = lines[i];
        assert(line@ == views(lines@)[i as int]);
        if has_prefix(line, "??") {
            assert(reports_untracked(all[i as int]));
            return true;
        }
        i += 1;
    }
    assert(all.len() == lines@.len());
    false
}

// ---------------------------------------------------------------------------
// Laws

/// A porcelain status reports a change or an untracked file exactly if it is
/// not blank: a checkout is clean where git has nothing to report.
pub proof fn law_status_reports_unless_blank(output: Seq<char>)
    ensures
        any_change(output) || any_untracked(output) <==> !is_blank(output),
{
    lemma_blank_lines(output);
    let lines = lines_of(output);
    reveal_strlit("??");
    assert forall|i: int| 0 <= i < lines.len() && reports_untracked(
        #[trigger] lines[i],
    ) implies !is_blank(lines[i]) by {
        let line = lines[i];
        lemma_blank_is_all_space(line);
        assert(line.take(2)[0] == "??"@[0]);
        assert(line[0] == '?');
    }
    if !is_blank(output) {
        let i = choose|i: int| 0 <= i < lines.len() && !is_blank(#[trigger] lines[i]);
        assert(reports_change(lines[i]) || reports_untracked(lines[i]));
    }
}

/// A line of the porcelain status that begins with two question marks.
pub open spec fn begins_with_two_question_marks(line: Seq<char>) -> bool {
    line.len() >= 2 && line[0] == '?' && line[1] == '?'
}

/// An untracked file is reported exactly if some line begins with two question
/// marks, and an uncommitted change exactly if some line that does not begin
/// so holds anything but white space.
pub proof fn law_question_marks_tell_untracked_files(output: Seq<char>)
    ensures
        any_untracked(output) <==> exists|i: int|
            0 <= i < lines_of(output).len() && begins_with_two_question_marks(
                #[trigger] lines_of(output)[i],
            ),
        any_change(output) <==> exists|i: int, j: int|
            0 <= i < lines_of(output).len() && 0 <= j < lines_of(output)[i].len()
                && !begins_with_two_question_marks(lines_of(output)[i]) && !is_white_space(
                #[trigger] lines_of(output)[i][j],
            ),
{
    let lines = lines_of(output);
    reveal_strlit("??");
    assert("??"@ =~= seq!['?', '?']);
    assert forall|i: int| 0 <= i < lines.len() implies (reports_untracked(#[trigger] lines[i])
        <==> begins_with_two_question_marks(lines[i])) && (reports_change(lines[i]) <==> (
    !begins_with_two_question_marks(lines[i]) && exists|j: int|
        0 <= j < lines[i].len() && !is_white_space(#[trigger] lines[i][j]))) by {
        let line = lines[i];
        lemma_blank_is_all_space(line);
        if line.len() >= 2 {
            assert(line.take(2) =~= seq![line[0], line[1]]);
            assert(seq![line[0], line[1]][0] == line[0] && seq![line[0], line[1]][1] == line[1]);
            assert(seq!['?', '?'][0] == '?' && seq!['?', '?'][1] == '?');
        }
    }
    if any_change(output) {
        let i = choose|i: int| 0 <= i < lines.len() && reports_change(#[trigger] lines[i]);
        let j = choose|j: int| 0 <= j < lines[i].len() && !is_white_space(#[trigger] lines[i][j]);
        assert(!is_white_space(lines_of(output)[i][j]));
    }
    if exists|i: int, j: int|
        0 <= i < lines_of(output).len() && 0 <= j < lines_of(output)[i].len()
            && !begins_with_two_question_marks(lines_of(output)[i]) && !is_white_space(
            #[trigger] lines_of(output)[i][j],
        ) {
        let (i, j) = choose|i: int, j: int|
            0 <= i < lines_of(output).len() && 0 <= j < lines_of(output)[i].len()
                && !begins_with_two_question_marks(lines_of(output)[i]) && !is_white_space(
                #[trigger] lines_of(output)[i][j],
            );
        assert(!is_white_space(lines[i][j]));
        assert(reports_change(lines[i]));
    }
}

/// One entry of the porcelain status, two letters, a space and a path, reports an
/// untracked file if the letters are `??`, and an uncommitted change otherwise,
/// whatever else they are.
pub proof fn law_status_entry_is_reported(x: char, y: char, path: Seq<char>)
    requires
        x != '\n' && y != '\n' && !path.contains('\n'),
        !is_white_space(x) || !is_white_space(y),
    ensures
        ({
            let entry = seq![x, y, ' '] + path;
            let untracked = x == '?' && y == '?';
            &&& any_untracked(entry) <==> untracked
            &&& any_change(entry) <==> !untracked
            &&& path.len() == 0 || path.last() != '\r' ==> {
                &&& any_untracked(entry + seq!['\n']) <==> untracked
                &&& any_change(entry + seq!['\n']) <==> !untracked
            }
        }),
{
    let entry = seq![x, y, ' '] + path;
    assert(entry[0] == x && entry[1] == y && entry[2] == ' ');
    assert forall|i: int| 0 <= i < entry.len() implies entry[i] != '\n' by {
        if i >= 3 {
            assert(entry[i] == path[i - 3]);
            assert(path.contains(path[i - 3]));
        }
    }
    assert(!entry.contains('\n'));
    law_lines_end_at_newlines(entry, Seq::empty());
    law_question_marks_tell_untracked_files(entry);
    assert(lines_of(entry) =~= seq![entry]);
    assert(lines_of(entry)[0] == entry);
    if !is_white_space(x) {
        assert(!is_white_space(lines_of(entry)[0][0]));
    } else {
        assert(!is_white_space(lines_of(entry)[0][1]));
    }
    let ended = entry + seq!['\n'];
    assert(ended + Seq::<char>::empty() =~= ended);
    if path.len() == 0 || path.last() != '\r' {
        assert(entry.last() != '\r') by {
            if path.len() > 0 {
                assert(entry.last() == path.last());
            }
        }
        law_question_marks_tell_untracked_files(ended);
        assert(lines_of(ended) =~= seq![entry]);
        assert(lines_of(ended)[0] == entry);
        if !is_white_space(x) {
            assert(!is_white_space(lines_of(ended)[0][0]));
        } else {
            assert(!is_white_space(lines_of(ended)[0][1]));
        }
    }
}

/// A value on the first line of an output is read without the white space round
/// it, whatever the further lines hold; of a blank first line none is read.
pub proof fn law_value_stands_on_the_first_line(
    before: Seq<char>,
    value: Seq<char>,
    after: Seq<char>,
    rest: Seq<char>,
)
    requires
        all_space(before) && !before.contains('\n'),
        all_space(after) && !after.contains('\n'),
        !value.contains('\n'),
        value.len() > 0 ==> !is_white_space(value[0]) && !is_white_space(value.last()),
    ensures
        value.len() > 0 ==> first_value(before + value + after + seq!['\n'] + rest) == Some(value),
        value.len() > 0 ==> first_value(before + value + after) == Some(value),
        value.len() == 0 ==> first_value(before + value + after + seq!['\n'] + rest) is None,
        first_value(Seq::<char>::empty()) is None,
{
    let line = before + value + after;
    assert forall|i: int| 0 <= i < line.len() implies line[i] != '\n' by {
        let a = before.len() as int;
        let b = a + value.len();
        if i < a {
            assert(before.contains(before[i]));
        } else if i < b {
            assert(value.contains(value[i - a]));
        } else {
            assert(after.contains(after[i - b]));
        }
    }
    assert(!line.contains('\n'));
    law_trim_takes_outer_space_only(before, value, after);
    law_lines_end_at_newlines(line, rest);
    let whole = line + seq!['\n'] + rest;
    if line.len() == 0 || line.last() != '\r' {
        assert(lines_of(whole)[0] == line);
    } else {
        let short = line.drop_last();
        assert(!short.contains('\n')) by {
            assert forall|i: int| 0 <= i < short.len() implies short[i] != '\n' by {
                assert(short[i] == line[i]);
            }
        }
        law_lines_end_at_newlines(short, rest);
        assert(whole =~= short + seq!['\r', '\n'] + rest);
        assert(lines_of(whole)[0] == short);
        if after.len() > 0 {
            let less = after.drop_last();
            assert(short =~= before + value + less);
            law_trim_takes_outer_space_only(before, value, less);
        } else {
            assert(value.len() > 0 ==> line.last() == value.last());
            let less = before.drop_last();
            assert(short =~= less + value + after);
            law_trim_takes_outer_space_only(less, value, after);
        }
    }
    if line.len() > 0 {
        assert(lines_of(line)[0] == line);
    }
}

/// A count that is written in decimal is read back, with white space round it or
/// without, if a `usize` holds it; text that is no number counts as 0.
pub proof fn law_count_reads_back(before: Seq<char>, n: nat, after: Seq<char>, other: Seq<char>)
    requires
        all_space(before),
        all_space(after),
    ensures
        n <= usize::MAX ==> count_of(before + decimal(n) + after) == n,
        n > usize::MAX ==> count_of(before + decimal(n) + after) == 0,
        unsigned_value(trim(other), usize::MAX as nat) is None ==> count_of(other) == 0,
{
    law_decimal_reads_back(n, usize::MAX as nat);
    let digits = decimal(n);
    assert(is_digit(digits[0]) && is_digit(digits.last()));
    law_trim_takes_outer_space_only(before, digits, after);
}

} // verus!
