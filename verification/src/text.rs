//! Text as sequences of characters: splitting, trimming and reading numbers.
//!
//! Executable code works on `&[char]` slices of a decoded text, so that every
//! function has a contract over `Seq<char>`.
use vstd::prelude::*;
use vstd::slice::slice_subrange;

verus! {

/// Appends one character. `String::push` adds the given character at the end
/// of the string and leaves the rest as it was.
pub assume_specification[ String::push ](s: &mut String, c: char)
    ensures
        final(s)@ == old(s)@.push(c),
;

// ---------------------------------------------------------------------------
// Characters

/// The characters with the Unicode property White_Space.
pub open spec fn is_white_space(c: char) -> bool {
    ||| '\u{9}' <= c <= '\u{d}'
    ||| c == ' '
    ||| c == '\u{85}'
    ||| c == '\u{a0}'
    ||| c == '\u{1680}'
    ||| '\u{2000}' <= c <= '\u{200a}'
    ||| c == '\u{2028}'
    ||| c == '\u{2029}'
    ||| c == '\u{202f}'
    ||| c == '\u{205f}'
    ||| c == '\u{3000}'
}

pub fn white_space(c: char) -> (r: bool)
    ensures
        r == is_white_space(c),
{
    ('\u{9}' <= c && c <= '\u{d}') || c == ' ' || c == '\u{85}' || c == '\u{a0}' || c == '\u{1680}'
        || ('\u{2000}' <= c && c <= '\u{200a}') || c == '\u{2028}' || c == '\u{2029}' || c
        == '\u{202f}' || c == '\u{205f}' || c == '\u{3000}'
}

pub open spec fn is_digit(c: char) -> bool {
    '0' <= c <= '9'
}

pub open spec fn is_ascii_alphanumeric(c: char) -> bool {
    is_digit(c) || 'a' <= c <= 'z' || 'A' <= c <= 'Z'
}

pub open spec fn is_hex_digit(c: char) -> bool {
    is_digit(c) || 'a' <= c <= 'f' || 'A' <= c <= 'F'
}

/// The lower-case form of an ASCII letter; every other character is itself.
pub open spec fn ascii_lower(c: char) -> char {
    if 'A' <= c <= 'Z' {
        (c as u8 + 32) as char
    } else {
        c
    }
}

pub open spec fn ascii_lowercase(s: Seq<char>) -> Seq<char> {
    s.map_values(|c: char| ascii_lower(c))
}

/// `s` with its ASCII letters in lower case.
pub fn to_ascii_lower(s: &str) -> (r: String)
    ensures
        r@ == ascii_lowercase(s@),
{
    let mut out = String::new();
    for c in it: s.chars()
        invariant
            it.seq() == s@,
            out@ == ascii_lowercase(s@.take(it.index())),
    {
        assert(s@.take(it.index() + 1) == s@.take(it.index()).push(c));
        if 'A' <= c && c <= 'Z' {
            out.push((c as u8 + 32u8) as char);
        } else {
            out.push(c);
        }
        assert(out@ == ascii_lowercase(s@.take(it.index() + 1)));
    }
    assert(s@.take(s@.len() as int) == s@);
    out
}

// ---------------------------------------------------------------------------
// Between strings and slices of characters

/// The characters of `s`, in order.
pub fn to_chars(s: &str) -> (r: Vec<char>)
    ensures
        r@ == s@,
{
    let mut out: Vec<char> = Vec::new();
    for c in it: s.chars()
        invariant
            it.seq() == s@,
            out@ == s@.take(it.index()),
    {
        out.push(c);
    }
    out
}

/// The string that holds the characters `cs`.
pub fn to_text(cs: &[char]) -> (r: String)
    ensures
        r@ == cs@,
{
    let mut out = String::new();
    let mut i: usize = 0;
    while i < cs.len()
        invariant
            i <= cs.len(),
            out@ == cs@.take(i as int),
        decreases cs.len() - i,
    {
        out.push(cs[i]);
        i += 1;
        assert(cs@.take(i as int) == cs@.take(i - 1).push(cs@[i - 1]));
    }
    assert(cs@.take(cs@.len() as int) == cs@);
    out
}

/// Whether two slices hold the same characters.
pub fn same_chars(a: &[char], b: &[char]) -> (r: bool)
    ensures
        r == (a@ == b@),
{
    if a.len() != b.len() {
        return false;
    }
    let mut i: usize = 0;
    while i < a.len()
        invariant
            i <= a.len(),
            a.len() == b.len(),
            forall|j: int| 0 <= j < i ==> a@[j] == b@[j],
        decreases a.len() - i,
    {
        if a[i] != b[i] {
            return false;
        }
        i += 1;
    }
    assert(a@ == b@);
    true
}

/// Whether two strings are equal.
pub fn same_text(a: &str, b: &str) -> (r: bool)
    ensures
        r == (a@ == b@),
{
    let left = to_chars(a);
    let right = to_chars(b);
    same_chars(left.as_slice(), right.as_slice())
}

/// `a` followed by `b`.
pub fn join2(a: &str, b: &str) -> (r: String)
    ensures
        r@ == a@ + b@,
{
    let mut out = a.to_string();
    out.append(b);
    out
}

/// `a`, `b` and `c`, one after the other.
pub fn join3(a: &str, b: &str, c: &str) -> (r: String)
    ensures
        r@ == a@ + b@ + c@,
{
    let mut out = join2(a, b);
    out.append(c);
    out
}

/// An optional string, borrowed.
pub fn borrow_option<'a>(s: &'a Option<String>) -> (r: Option<&'a str>)
    ensures
        r.deep_view() == s.deep_view(),
{
    match s {
        Some(text) => Some(text.as_str()),
        None => None,
    }
}

// ---------------------------------------------------------------------------
// Trimming and prefixes

pub open spec fn starts_with(s: Seq<char>, prefix: Seq<char>) -> bool {
    prefix.len() <= s.len() && s.take(prefix.len() as int) == prefix
}

/// Whether `s` begins with `prefix`.
pub fn has_prefix(s: &[char], prefix: &str) -> (r: bool)
    ensures
        r == starts_with(s@, prefix@),
{
    let p = to_chars(prefix);
    if s.len() < p.len() {
        return false;
    }
    same_chars(slice_subrange(s, 0, p.len()), p.as_slice())
}

/// `s` without its leading white space.
pub open spec fn trim_start(s: Seq<char>) -> Seq<char>
    decreases s.len(),
{
    if s.len() > 0 && is_white_space(s[0]) {
        trim_start(s.drop_first())
    } else {
        s
    }
}

/// `s` without its trailing white space.
pub open spec fn trim_end(s: Seq<char>) -> Seq<char>
    decreases s.len(),
{
    if s.len() > 0 && is_white_space(s.last()) {
        trim_end(s.drop_last())
    } else {
        s
    }
}

/// `s` without its leading and trailing white space.
pub open spec fn trim(s: Seq<char>) -> Seq<char> {
    trim_end(trim_start(s))
}

/// Whether `s` is empty or all white space.
pub open spec fn is_blank(s: Seq<char>) -> bool {
    trim(s).len() == 0
}

pub fn trim_start_chars<'a>(s: &'a [char]) -> (r: &'a [char])
    ensures
        r@ == trim_start(s@),
{
    let mut i: usize = 0;
    assert(s@.skip(0) == s@);
    while i < s.len() && white_space(s[i])
        invariant
            i <= s.len(),
            trim_start(s@.skip(i as int)) == trim_start(s@),
        decreases s.len() - i,
    {
        assert(s@.skip(i as int).drop_first() == s@.skip(i + 1));
        i += 1;
    }
    slice_subrange(s, i, s.len())
}

pub fn trim_end_chars<'a>(s: &'a [char]) -> (r: &'a [char])
    ensures
        r@ == trim_end(s@),
{
    let mut n: usize = s.len();
    assert(s@.take(n as int) == s@);
    while n > 0 && white_space(s[n - 1])
        invariant
            n <= s.len(),
            trim_end(s@.take(n as int)) == trim_end(s@),
        decreases n,
    {
        assert(s@.take(n as int).drop_last() == s@.take(n - 1));
        n -= 1;
    }
    slice_subrange(s, 0, n)
}

pub fn trim_chars<'a>(s: &'a [char]) -> (r: &'a [char])
    ensures
        r@ == trim(s@),
{
    trim_end_chars(trim_start_chars(s))
}

/// Whether `s` is empty or all white space.
pub fn blank(s: &[char]) -> (r: bool)
    ensures
        r == is_blank(s@),
{
    trim_chars(s).len() == 0
}

/// Trimming at the front leaves the end of `s`, from its first character that is
/// no white space on.
pub proof fn lemma_trim_start_suffix(s: Seq<char>)
    ensures
        trim_start(s).len() <= s.len(),
        trim_start(s) == s.skip(s.len() - trim_start(s).len()),
        trim_start(s).len() > 0 ==> !is_white_space(trim_start(s)[0]),
        forall|i: int| 0 <= i < s.len() - trim_start(s).len() ==> is_white_space(#[trigger] s[i]),
    decreases s.len(),
{
    if s.len() > 0 && is_white_space(s[0]) {
        let rest = s.drop_first();
        lemma_trim_start_suffix(rest);
        assert forall|i: int| 0 <= i < s.len() - trim_start(s).len() implies is_white_space(
            #[trigger] s[i],
        ) by {
            if i > 0 {
                assert(s[i] == rest[i - 1]);
            }
        }
    }
}

/// Trimming at the end leaves the front of `s`, up to its last character that is
/// no white space.
pub proof fn lemma_trim_end_prefix(s: Seq<char>)
    ensures
        trim_end(s).len() <= s.len(),
        trim_end(s) == s.take(trim_end(s).len() as int),
        s.len() > 0 && !is_white_space(s[0]) ==> trim_end(s).len() > 0,
    decreases s.len(),
{
    if s.len() > 0 && is_white_space(s.last()) {
        lemma_trim_end_prefix(s.drop_last());
    }
}

pub open spec fn all_space(s: Seq<char>) -> bool {
    forall|i: int| 0 <= i < s.len() ==> is_white_space(#[trigger] s[i])
}

/// A text is blank exactly if every character of it is white space.
pub proof fn lemma_blank_is_all_space(s: Seq<char>)
    ensures
        is_blank(s) <==> all_space(s),
{
    let tail = trim_start(s);
    lemma_trim_start_suffix(s);
    lemma_trim_end_prefix(tail);
    if tail.len() > 0 {
        assert(tail[0] == s[s.len() - tail.len()]);
    }
}

// ---------------------------------------------------------------------------
// Splitting

/// The position of the first `c` in `s`, or the length of `s` if there is none.
pub open spec fn position_of(s: Seq<char>, c: char) -> int
    decreases s.len(),
{
    if s.len() == 0 || s[0] == c {
        0
    } else {
        1 + position_of(s.drop_first(), c)
    }
}

pub proof fn lemma_position_of(s: Seq<char>, c: char)
    ensures
        0 <= position_of(s, c) <= s.len(),
        position_of(s, c) < s.len() ==> s[position_of(s, c)] == c,
        forall|j: int| 0 <= j < position_of(s, c) ==> s[j] != c,
    decreases s.len(),
{
    if s.len() > 0 && s[0] != c {
        lemma_position_of(s.drop_first(), c);
        assert forall|j: int| 0 <= j < position_of(s, c) implies s[j] != c by {
            if j > 0 {
                assert(s.drop_first()[j - 1] == s[j]);
            }
        }
    }
}

/// A position with `c` on it and none before it is the first position of `c`.
pub proof fn lemma_position_is(s: Seq<char>, c: char, i: int)
    requires
        0 <= i <= s.len(),
        i < s.len() ==> s[i] == c,
        forall|j: int| 0 <= j < i ==> s[j] != c,
    ensures
        position_of(s, c) == i,
{
    lemma_position_of(s, c);
    let p = position_of(s, c);
    if p < i {
        assert(s[p] == c);
    }
    if i < p {
        assert(s[i] != c);
    }
}

/// The position of the first `c` at or after `start`, or the length of `s`.
pub fn find_char(s: &[char], start: usize, c: char) -> (r: usize)
    requires
        start <= s.len(),
    ensures
        start <= r <= s.len(),
        r - start == position_of(s@.skip(start as int), c),
{
    let mut i: usize = start;
    while i < s.len() && s[i] != c
        invariant
            start <= i <= s.len(),
            forall|j: int| start <= j < i ==> s@[j] != c,
        decreases s.len() - i,
    {
        i += 1;
    }
    proof {
        let tail = s@.skip(start as int);
        assert forall|j: int| 0 <= j < i - start implies tail[j] != c by {
            assert(tail[j] == s@[start + j]);
        }
        lemma_position_is(tail, c, i - start);
    }
    i
}

/// Whether `s` holds `c`.
pub fn contains_char(s: &[char], c: char) -> (r: bool)
    ensures
        r == s@.contains(c),
{
    let i = find_char(s, 0, c);
    proof {
        assert(s@.skip(0) == s@);
        lemma_position_of(s@, c);
    }
    i < s.len()
}

/// The contents of a list of slices.
pub open spec fn views(parts: Seq<&[char]>) -> Seq<Seq<char>> {
    parts.map_values(|p: &[char]| p@)
}

/// The parts of `s` between the separators `c`; one more than there are
/// separators.
pub open spec fn split_on(s: Seq<char>, c: char) -> Seq<Seq<char>>
    decreases s.len(),
    via split_on_decreases
{
    let i = position_of(s, c);
    if i >= s.len() {
        seq![s]
    } else {
        seq![s.take(i)] + split_on(s.skip(i + 1), c)
    }
}

#[via_fn]
proof fn split_on_decreases(s: Seq<char>, c: char) {
    lemma_position_of(s, c);
}

pub fn split_chars<'a>(s: &'a [char], c: char) -> (r: Vec<&'a [char]>)
    ensures
        views(r@) == split_on(s@, c),
        r@.len() >= 1,
{
    let mut out: Vec<&'a [char]> = Vec::new();
    let mut start: usize = 0;
    let mut end: usize = find_char(s, 0, c);
    assert(s@.skip(0) == s@);
    while end < s.len()
        invariant
            start <= end <= s.len(),
            end - start == position_of(s@.skip(start as int), c),
            split_on(s@, c) == views(out@) + split_on(s@.skip(start as int), c),
        decreases s.len() - end,
    {
        let part = slice_subrange(s, start, end);
        let ghost tail = s@.skip(start as int);
        proof {
            assert(part@ == tail.take(end - start));
            assert(tail.skip(end - start + 1) == s@.skip(end + 1));
            assert(views(out@.push(part)) == views(out@).push(part@));
        }
        out.push(part);
        start = end + 1;
        end = find_char(s, start, c);
    }
    let part = slice_subrange(s, start, s.len());
    proof {
        assert(part@ == s@.skip(start as int));
        assert(views(out@.push(part)) == views(out@).push(part@));
    }
    out.push(part);
    out
}

/// `s` without one trailing carriage return.
pub open spec fn drop_carriage_return(s: Seq<char>) -> Seq<char> {
    if s.len() > 0 && s.last() == '\r' {
        s.drop_last()
    } else {
        s
    }
}

/// The lines of `s`. A line ends at a newline or at a carriage return that a
/// newline follows; the end of the last line is optional.
pub open spec fn lines_of(s: Seq<char>) -> Seq<Seq<char>>
    decreases s.len(),
    via lines_of_decreases
{
    let i = position_of(s, '\n');
    if s.len() == 0 {
        seq![]
    } else if i >= s.len() {
        seq![s]
    } else {
        seq![drop_carriage_return(s.take(i))] + lines_of(s.skip(i + 1))
    }
}

#[via_fn]
proof fn lines_of_decreases(s: Seq<char>) {
    lemma_position_of(s, '\n');
}

pub fn lines_in<'a>(s: &'a [char]) -> (r: Vec<&'a [char]>)
    ensures
        views(r@) == lines_of(s@),
        r@.len() <= s@.len(),
{
    let mut out: Vec<&'a [char]> = Vec::new();
    let mut start: usize = 0;
    assert(s@.skip(0) == s@);
    while start < s.len()
        invariant
            start <= s.len(),
            out@.len() <= start,
            lines_of(s@) == views(out@) + lines_of(s@.skip(start as int)),
        decreases s.len() - start,
    {
        let end = find_char(s, start, '\n');
        let ghost tail = s@.skip(start as int);
        let part = if end < s.len() && start < end && s[end - 1] == '\r' {
            slice_subrange(s, start, end - 1)
        } else {
            slice_subrange(s, start, end)
        };
        proof {
            assert(views(out@.push(part)) == views(out@).push(part@));
            if end < s.len() {
                let line = tail.take(end - start);
                assert(line == s@.subrange(start as int, end as int));
                assert(part@ == drop_carriage_return(line));
                assert(tail.skip(end - start + 1) == s@.skip(end + 1));
            } else {
                assert(part@ == tail);
                assert(lines_of(s@.skip(s@.len() as int)) == Seq::<Seq<char>>::empty());
            }
        }
        out.push(part);
        start = if end < s.len() {
            end + 1
        } else {
            end
        };
    }
    out
}

/// The first line of `s`, if there is one.
pub open spec fn first_line_of(s: Seq<char>) -> Option<Seq<char>> {
    if lines_of(s).len() > 0 {
        Some(lines_of(s)[0])
    } else {
        None
    }
}

pub fn first_line_in<'a>(s: &'a [char]) -> (r: Option<&'a [char]>)
    ensures
        match r {
            Some(line) => first_line_of(s@) == Some(line@),
            None => first_line_of(s@) is None,
        },
{
    if s.len() == 0 {
        return None;
    }
    let end = find_char(s, 0, '\n');
    assert(s@.skip(0) == s@);
    if end < s.len() && 0 < end && s[end - 1] == '\r' {
        let part = slice_subrange(s, 0, end - 1);
        assert(part@ == s@.take(end as int).drop_last());
        Some(part)
    } else {
        let part = slice_subrange(s, 0, end);
        assert(part@ == s@.take(end as int));
        Some(part)
    }
}

/// No line holds a newline.
pub proof fn lemma_lines_hold_no_newline(s: Seq<char>, i: int)
    requires
        0 <= i < lines_of(s).len(),
    ensures
        !lines_of(s)[i].contains('\n'),
        lines_of(s)[i].len() > 0 ==> lines_of(lines_of(s)[i]) == seq![lines_of(s)[i]],
    decreases s.len(),
{
    lemma_position_of(s, '\n');
    let p = position_of(s, '\n');
    let line = lines_of(s)[i];
    if p >= s.len() {
    } else if i == 0 {
        assert forall|j: int| 0 <= j < line.len() implies line[j] != '\n' by {
            assert(line[j] == s[j]);
        }
    } else {
        lemma_lines_hold_no_newline(s.skip(p + 1), i - 1);
    }
    lemma_position_is(line, '\n', line.len() as int);
}

/// A text is blank exactly if every line of it is.
pub proof fn lemma_blank_lines(s: Seq<char>)
    ensures
        is_blank(s) <==> forall|i: int|
            0 <= i < lines_of(s).len() ==> is_blank(#[trigger] lines_of(s)[i]),
    decreases s.len(),
{
    lemma_blank_is_all_space(s);
    lemma_position_of(s, '\n');
    let p = position_of(s, '\n');
    let lines = lines_of(s);
    if p < s.len() {
        let head = s.take(p);
        let line = drop_carriage_return(head);
        let rest = s.skip(p + 1);
        lemma_blank_lines(rest);
        lemma_blank_is_all_space(rest);
        lemma_blank_is_all_space(line);
        assert forall|i: int| 0 <= i < lines_of(rest).len() implies lines[i + 1]
            == #[trigger] lines_of(rest)[i] by {}
        assert(lines[0] == line);
        if all_space(s) {
            assert forall|i: int| 0 <= i < line.len() implies is_white_space(
                #[trigger] line[i],
            ) by {
                assert(line[i] == s[i]);
            }
            assert forall|i: int| 0 <= i < rest.len() implies is_white_space(
                #[trigger] rest[i],
            ) by {
                assert(rest[i] == s[p + 1 + i]);
            }
            assert forall|i: int| 0 <= i < lines.len() implies is_blank(#[trigger] lines[i]) by {
                if i > 0 {
                    assert(lines[i] == lines_of(rest)[i - 1]);
                }
            }
        }
        if forall|i: int| 0 <= i < lines.len() ==> is_blank(#[trigger] lines[i]) {
            assert(is_blank(line));
            assert forall|i: int| 0 <= i < lines_of(rest).len() implies is_blank(
                #[trigger] lines_of(rest)[i],
            ) by {
                assert(is_blank(lines[i + 1]));
            }
            assert forall|i: int| 0 <= i < s.len() implies is_white_space(#[trigger] s[i]) by {
                if i < line.len() {
                    assert(s[i] == line[i]);
                } else if i < p {
                    assert(s[i] == head.last());
                } else if i > p {
                    assert(s[i] == rest[i - p - 1]);
                }
            }
        }
    } else if s.len() > 0 {
        assert(lines[0] == s);
    }
}

/// The number of characters of `s` before its first white space.
pub open spec fn token_len(s: Seq<char>) -> int
    decreases s.len(),
{
    if s.len() == 0 || is_white_space(s[0]) {
        0
    } else {
        1 + token_len(s.drop_first())
    }
}

pub proof fn lemma_token_len(s: Seq<char>)
    ensures
        0 <= token_len(s) <= s.len(),
        token_len(s) < s.len() ==> is_white_space(s[token_len(s)]),
        forall|j: int| 0 <= j < token_len(s) ==> !is_white_space(#[trigger] s[j]),
    decreases s.len(),
{
    if s.len() > 0 && !is_white_space(s[0]) {
        lemma_token_len(s.drop_first());
        assert forall|j: int| 0 <= j < token_len(s) implies !is_white_space(#[trigger] s[j]) by {
            if j > 0 {
                assert(s.drop_first()[j - 1] == s[j]);
            }
        }
    }
}

/// The parts of `s` between runs of white space; none of them is empty.
pub open spec fn tokens_of(s: Seq<char>) -> Seq<Seq<char>>
    decreases s.len(),
    via tokens_of_decreases
{
    let t = trim_start(s);
    if t.len() == 0 {
        seq![]
    } else {
        seq![t.take(token_len(t))] + tokens_of(t.skip(token_len(t)))
    }
}

#[via_fn]
proof fn tokens_of_decreases(s: Seq<char>) {
    lemma_trim_start_suffix(s);
    let t = trim_start(s);
    lemma_token_len(t);
}

pub fn tokens_in<'a>(s: &'a [char]) -> (r: Vec<&'a [char]>)
    ensures
        views(r@) == tokens_of(s@),
{
    let mut out: Vec<&'a [char]> = Vec::new();
    let mut rest: &'a [char] = trim_start_chars(s);
    proof {
        lemma_trim_start_idempotent(s@);
    }
    while rest.len() > 0
        invariant
            rest@ == trim_start(rest@),
            tokens_of(s@) == views(out@) + tokens_of(rest@),
        decreases rest.len(),
    {
        let mut n: usize = 0;
        assert(rest@.skip(0) == rest@);
        while n < rest.len() && !white_space(rest[n])
            invariant
                n <= rest.len(),
                token_len(rest@) == n + token_len(rest@.skip(n as int)),
            decreases rest.len() - n,
        {
            assert(rest@.skip(n as int).drop_first() == rest@.skip(n + 1));
            n += 1;
        }
        let part = slice_subrange(rest, 0, n);
        let tail = slice_subrange(rest, n, rest.len());
        proof {
            lemma_trim_start_suffix(rest@);
            lemma_token_len(rest@);
            assert(tail@ == rest@.skip(n as int));
            assert(part@ == rest@.take(n as int));
            assert(views(out@.push(part)) == views(out@).push(part@));
            lemma_trim_start_suffix(tail@);
            lemma_trim_start_idempotent(tail@);
        }
        out.push(part);
        rest = trim_start_chars(tail);
    }
    out
}

pub proof fn lemma_trim_start_idempotent(s: Seq<char>)
    ensures
        trim_start(trim_start(s)) == trim_start(s),
        tokens_of(trim_start(s)) == tokens_of(s),
    decreases s.len(),
{
    lemma_trim_start_suffix(s);
}

// ---------------------------------------------------------------------------
// Decimal numbers

pub open spec fn all_digits(s: Seq<char>) -> bool {
    forall|i: int| 0 <= i < s.len() ==> is_digit(#[trigger] s[i])
}

/// The number that a sequence of decimal digits writes.
pub open spec fn digits_value(s: Seq<char>) -> nat
    decreases s.len(),
{
    if s.len() == 0 {
        0
    } else {
        digits_value(s.drop_last()) * 10 + (s.last() as u32 - '0' as u32) as nat
    }
}

/// The number that a non-empty sequence of decimal digits writes, if it is at
/// most `max`.
pub open spec fn magnitude(s: Seq<char>, max: nat) -> Option<nat> {
    if s.len() > 0 && all_digits(s) && digits_value(s) <= max {
        Some(digits_value(s))
    } else {
        None
    }
}

/// The unsigned number that `s` writes: digits after an optional `+`, at most
/// `max`.
pub open spec fn unsigned_value(s: Seq<char>, max: nat) -> Option<nat> {
    if s.len() > 0 && s[0] == '+' {
        magnitude(s.drop_first(), max)
    } else {
        magnitude(s, max)
    }
}

/// The signed 64-bit number that `s` writes: digits after an optional sign.
pub open spec fn signed_value(s: Seq<char>) -> Option<i64> {
    if s.len() > 0 && s[0] == '-' {
        match magnitude(s.drop_first(), 0x8000_0000_0000_0000) {
            Some(n) => Some((-n) as i64),
            None => None,
        }
    } else {
        match unsigned_value(s, 0x7fff_ffff_ffff_ffff) {
            Some(n) => Some(n as i64),
            None => None,
        }
    }
}

proof fn lemma_digits_value_grows(s: Seq<char>, n: int)
    requires
        0 <= n <= s.len(),
    ensures
        digits_value(s.take(n)) <= digits_value(s),
    decreases s.len(),
{
    if n < s.len() {
        assert(s.drop_last().take(n) == s.take(n));
        lemma_digits_value_grows(s.drop_last(), n);
    } else {
        assert(s.take(n) == s);
    }
}

fn read_magnitude(s: &[char], max: u64) -> (r: Option<u64>)
    ensures
        match r {
            Some(n) => magnitude(s@, max as nat) == Some(n as nat),
            None => magnitude(s@, max as nat) is None,
        },
{
    if s.len() == 0 {
        return None;
    }
    let mut value: u64 = 0;
    let mut i: usize = 0;
    while i < s.len()
        invariant
            i <= s.len(),
            s@.len() > 0,
            value <= max,
            value == digits_value(s@.take(i as int)),
            forall|j: int| 0 <= j < i ==> is_digit(#[trigger] s@[j]),
        decreases s.len() - i,
    {
        let c = s[i];
        if !('0' <= c && c <= '9') {
            assert(!is_digit(s@[i as int]));
            return None;
        }
        let digit: u64 = (c as u32 - '0' as u32) as u64;
        proof {
            assert(s@.take(i + 1).drop_last() == s@.take(i as int));
            lemma_digits_value_grows(s@, i + 1);
        }
        if value > max / 10 {
            return None;
        }
        if digit > max - value * 10 {
            return None;
        }
        value = value * 10 + digit;
        i += 1;
    }
    assert(s@.take(s@.len() as int) == s@);
    Some(value)
}

fn read_unsigned(s: &[char], max: u64) -> (r: Option<u64>)
    ensures
        match r {
            Some(n) => unsigned_value(s@, max as nat) == Some(n as nat),
            None => unsigned_value(s@, max as nat) is None,
        },
{
    if s.len() > 0 && s[0] == '+' {
        let digits = slice_subrange(s, 1, s.len());
        assert(digits@ == s@.drop_first());
        read_magnitude(digits, max)
    } else {
        read_magnitude(s, max)
    }
}

pub fn read_u64(s: &[char]) -> (r: Option<u64>)
    ensures
        match r {
            Some(n) => unsigned_value(s@, u64::MAX as nat) == Some(n as nat),
            None => unsigned_value(s@, u64::MAX as nat) is None,
        },
{
    read_unsigned(s, u64::MAX)
}

pub fn read_usize(s: &[char]) -> (r: Option<usize>)
    ensures
        match r {
            Some(n) => unsigned_value(s@, usize::MAX as nat) == Some(n as nat),
            None => unsigned_value(s@, usize::MAX as nat) is None,
        },
{
    match read_unsigned(s, usize::MAX as u64) {
        Some(n) => Some(n as usize),
        None => None,
    }
}

pub fn read_i64(s: &[char]) -> (r: Option<i64>)
    ensures
        r == signed_value(s@),
{
    if s.len() > 0 && s[0] == '-' {
        let digits = slice_subrange(s, 1, s.len());
        assert(digits@ == s@.drop_first());
        match read_magnitude(digits, 0x8000_0000_0000_0000) {
            Some(n) => if n == 0x8000_0000_0000_0000 {
                Some(i64::MIN)
            } else {
                Some(-(n as i64))
            },
            None => None,
        }
    } else {
        match read_unsigned(s, 0x7fff_ffff_ffff_ffff) {
            Some(n) => Some(n as i64),
            None => None,
        }
    }
}

// ---------------------------------------------------------------------------
// Order

/// The lexicographic order of texts by code point.
pub open spec fn text_le(a: Seq<char>, b: Seq<char>) -> bool
    decreases a.len(),
{
    if a.len() == 0 {
        true
    } else if b.len() == 0 {
        false
    } else if a[0] == b[0] {
        text_le(a.drop_first(), b.drop_first())
    } else {
        a[0] < b[0]
    }
}

/// Whether `a` comes before `b` or equals it.
pub fn at_most(a: &[char], b: &[char]) -> (r: bool)
    ensures
        r == text_le(a@, b@),
{
    let mut i: usize = 0;
    assert(a@.skip(0) == a@);
    assert(b@.skip(0) == b@);
    while i < a.len() && i < b.len() && a[i] == b[i]
        invariant
            i <= a.len(),
            i <= b.len(),
            text_le(a@, b@) == text_le(a@.skip(i as int), b@.skip(i as int)),
        decreases a.len() - i,
    {
        assert(a@.skip(i as int).drop_first() == a@.skip(i + 1));
        assert(b@.skip(i as int).drop_first() == b@.skip(i + 1));
        i += 1;
    }
    if i >= a.len() {
        true
    } else if i >= b.len() {
        false
    } else {
        a[i] < b[i]
    }
}

/// The order of texts is total, antisymmetric and transitive.
pub proof fn lemma_text_order(a: Seq<char>, b: Seq<char>, c: Seq<char>)
    ensures
        text_le(a, b) || text_le(b, a),
        text_le(a, b) && text_le(b, a) ==> a == b,
        text_le(a, b) && text_le(b, c) ==> text_le(a, c),
    decreases a.len() + b.len() + c.len(),
{
    if a.len() > 0 && b.len() > 0 && a[0] == b[0] {
        let rest = if c.len() > 0 {
            c.drop_first()
        } else {
            c
        };
        lemma_text_order(a.drop_first(), b.drop_first(), rest);
        if a.drop_first() == b.drop_first() {
            assert(a == seq![a[0]] + a.drop_first());
            assert(b == seq![b[0]] + b.drop_first());
        }
    }
    if a.len() == 0 && b.len() == 0 {
        assert(a == b);
    }
}

// ---------------------------------------------------------------------------
// Reading back what was written

/// Text without the separator is one part.
pub proof fn lemma_split_whole(s: Seq<char>, c: char)
    requires
        !s.contains(c),
    ensures
        split_on(s, c) == seq![s],
{
    assert forall|j: int| 0 <= j < s.len() implies s[j] != c by {
        assert(s.contains(s[j]));
    }
    lemma_position_is(s, c, s.len() as int);
}

/// A part, the separator and more text split into the part and the parts of
/// the rest.
pub proof fn lemma_split_part(part: Seq<char>, more: Seq<char>, c: char)
    requires
        !part.contains(c),
    ensures
        split_on(part + seq![c] + more, c) == seq![part] + split_on(more, c),
{
    let s = part + seq![c] + more;
    assert forall|j: int| 0 <= j < part.len() implies s[j] != c by {
        assert(part.contains(part[j]));
    }
    lemma_position_is(s, c, part.len() as int);
    assert(s.take(part.len() as int) =~= part);
    assert(s.skip(part.len() as int + 1) =~= more);
}

pub open spec fn has_no_space(s: Seq<char>) -> bool {
    forall|i: int| 0 <= i < s.len() ==> !is_white_space(#[trigger] s[i])
}

/// White space in front does not change the parts between white space.
pub proof fn lemma_tokens_skip_space(space: Seq<char>, more: Seq<char>)
    requires
        forall|i: int| 0 <= i < space.len() ==> is_white_space(#[trigger] space[i]),
    ensures
        tokens_of(space + more) == tokens_of(more),
    decreases space.len(),
{
    if space.len() == 0 {
        assert(space + more =~= more);
    } else {
        assert((space + more)[0] == space[0]);
        assert((space + more).drop_first() =~= space.drop_first() + more);
        lemma_tokens_skip_space(space.drop_first(), more);
        assert(trim_start(space + more) == trim_start(space.drop_first() + more));
    }
}

proof fn lemma_token_len_is(token: Seq<char>, more: Seq<char>)
    requires
        has_no_space(token),
        more.len() > 0 ==> is_white_space(more[0]),
    ensures
        token_len(token + more) == token.len(),
    decreases token.len(),
{
    if token.len() == 0 {
        assert(token + more =~= more);
    } else {
        assert((token + more)[0] == token[0]);
        assert((token + more).drop_first() =~= token.drop_first() + more);
        lemma_token_len_is(token.drop_first(), more);
    }
}

/// A word at the front, with white space or nothing behind it, is the first
/// part between white space.
pub proof fn lemma_tokens_first(token: Seq<char>, more: Seq<char>)
    requires
        token.len() > 0,
        has_no_space(token),
        more.len() > 0 ==> is_white_space(more[0]),
    ensures
        tokens_of(token + more) == seq![token] + tokens_of(more),
{
    let s = token + more;
    assert(s[0] == token[0]);
    lemma_token_len_is(token, more);
    assert(s.take(token.len() as int) =~= token);
    assert(s.skip(token.len() as int) =~= more);
}

/// A number in decimal digits, without leading zeros.
pub open spec fn decimal(n: nat) -> Seq<char>
    decreases n,
{
    let digit = ('0' as u32 + n % 10) as char;
    if n < 10 {
        seq![digit]
    } else {
        decimal(n / 10).push(digit)
    }
}

/// A number that is written in decimal is read back, if it is in the range.
pub proof fn law_decimal_reads_back(n: nat, max: nat)
    ensures
        decimal(n).len() > 0,
        all_digits(decimal(n)),
        digits_value(decimal(n)) == n,
        unsigned_value(decimal(n), max) == (if n <= max {
            Some(n)
        } else {
            None
        }),
    decreases n,
{
    let digit = ('0' as u32 + n % 10) as char;
    assert(is_digit(digit));
    assert(digit as u32 - '0' as u32 == n % 10);
    assert(decimal(n).last() == digit);
    if n >= 10 {
        law_decimal_reads_back(n / 10, max);
        assert(decimal(n).drop_last() =~= decimal(n / 10));
        assert forall|i: int| 0 <= i < decimal(n).len() implies is_digit(
            #[trigger] decimal(n)[i],
        ) by {
            if i < decimal(n).len() - 1 {
                assert(decimal(n)[i] == decimal(n / 10)[i]);
            }
        }
    } else {
        assert(decimal(n).drop_last() =~= Seq::<char>::empty());
        assert(digits_value(Seq::<char>::empty()) == 0);
    }
    assert(is_digit(decimal(n)[0]));
}

/// A signed number that is written in decimal is read back.
pub proof fn law_signed_decimal_reads_back(n: i64)
    ensures
        n >= 0 ==> signed_value(decimal(n as nat)) == Some(n),
        n < 0 ==> signed_value(seq!['-'] + decimal((-n) as nat)) == Some(n),
{
    if n >= 0 {
        law_decimal_reads_back(n as nat, 0x7fff_ffff_ffff_ffff);
        assert(is_digit(decimal(n as nat)[0]));
    } else {
        law_decimal_reads_back((-n) as nat, 0x8000_0000_0000_0000);
        let s = seq!['-'] + decimal((-n) as nat);
        assert(s.drop_first() =~= decimal((-n) as nat));
    }
}

// ---------------------------------------------------------------------------
// Laws

/// Trimming takes away the white space round a text and nothing else: whatever
/// stands between the first and the last character that is no white space
/// stays.
pub proof fn law_trim_takes_outer_space_only(
    before: Seq<char>,
    middle: Seq<char>,
    after: Seq<char>,
)
    requires
        forall|i: int| 0 <= i < before.len() ==> is_white_space(#[trigger] before[i]),
        forall|i: int| 0 <= i < after.len() ==> is_white_space(#[trigger] after[i]),
        middle.len() > 0 ==> !is_white_space(middle[0]) && !is_white_space(middle.last()),
    ensures
        trim(before + middle + after) == middle,
    decreases before.len() + after.len(),
{
    let s = before + middle + after;
    if before.len() > 0 {
        assert(s[0] == before[0]);
        assert(s.drop_first() =~= before.drop_first() + middle + after);
        law_trim_takes_outer_space_only(before.drop_first(), middle, after);
    } else if middle.len() == 0 {
        assert(s =~= after);
        lemma_blank_is_all_space(s);
        assert(trim(s) =~= middle);
    } else {
        assert(s =~= middle + after);
        assert(s[0] == middle[0]);
        assert(trim_start(s) == s);
        if after.len() > 0 {
            assert(s.last() == after.last());
            assert(s.drop_last() =~= before + middle + after.drop_last());
            law_trim_takes_outer_space_only(before, middle, after.drop_last());
            assert(s.drop_last()[0] == middle[0]);
            assert(trim_start(s.drop_last()) == s.drop_last());
        } else {
            assert(s =~= middle);
        }
    }
}

/// A text is blank exactly if it holds nothing but white space.
pub proof fn law_blank_is_white_space_only(s: Seq<char>)
    ensures
        is_blank(s) <==> forall|i: int| 0 <= i < s.len() ==> is_white_space(#[trigger] s[i]),
{
    lemma_blank_is_all_space(s);
}

/// A text starts with a prefix exactly if something completes the prefix to the
/// text.
pub proof fn law_prefix_is_completed(prefix: Seq<char>, rest: Seq<char>, s: Seq<char>)
    ensures
        starts_with(prefix + rest, prefix),
        starts_with(s, prefix) ==> s == prefix + s.skip(prefix.len() as int),
        starts_with(s, prefix) <==> prefix.len() <= s.len() && forall|i: int|
            0 <= i < prefix.len() ==> s[i] == #[trigger] prefix[i],
{
    assert((prefix + rest).take(prefix.len() as int) =~= prefix);
    if starts_with(s, prefix) {
        assert(s =~= s.take(prefix.len() as int) + s.skip(prefix.len() as int));
        assert forall|i: int| 0 <= i < prefix.len() implies s[i] == #[trigger] prefix[i] by {
            assert(s.take(prefix.len() as int)[i] == s[i]);
        }
    } else if prefix.len() <= s.len() && forall|i: int|
        0 <= i < prefix.len() ==> s[i] == #[trigger] prefix[i] {
        assert(s.take(prefix.len() as int) =~= prefix);
    }
}

/// `parts` with `c` between each two of them.
pub open spec fn joined(parts: Seq<Seq<char>>, c: char) -> Seq<char>
    decreases parts.len(),
{
    if parts.len() == 0 {
        seq![]
    } else if parts.len() == 1 {
        parts[0]
    } else {
        parts[0] + seq![c] + joined(parts.drop_first(), c)
    }
}

/// Splitting undoes joining: parts that do not hold the separator come back, all
/// of them and in order.
pub proof fn law_split_undoes_join(parts: Seq<Seq<char>>, c: char)
    requires
        parts.len() > 0,
        forall|i: int| 0 <= i < parts.len() ==> !(#[trigger] parts[i]).contains(c),
    ensures
        split_on(joined(parts, c), c) == parts,
    decreases parts.len(),
{
    if parts.len() == 1 {
        lemma_split_whole(parts[0], c);
        assert(seq![parts[0]] =~= parts);
    } else {
        let rest = parts.drop_first();
        assert forall|i: int| 0 <= i < rest.len() implies !(#[trigger] rest[i]).contains(c) by {
            assert(rest[i] == parts[i + 1]);
        }
        law_split_undoes_join(rest, c);
        assert(!parts[0].contains(c));
        lemma_split_part(parts[0], joined(rest, c), c);
        assert(seq![parts[0]] + rest =~= parts);
    }
}

/// Joining undoes splitting: no character is lost, and no part holds the
/// separator.
pub proof fn law_join_undoes_split(s: Seq<char>, c: char)
    ensures
        joined(split_on(s, c), c) == s,
        split_on(s, c).len() > 0,
        forall|i: int| 0 <= i < split_on(s, c).len() ==> !(#[trigger] split_on(s, c)[i]).contains(c),
    decreases s.len(),
{
    lemma_position_of(s, c);
    let p = position_of(s, c);
    let parts = split_on(s, c);
    if p < s.len() {
        let head = s.take(p);
        let rest = s.skip(p + 1);
        law_join_undoes_split(rest, c);
        assert(parts.drop_first() =~= split_on(rest, c));
        assert(s =~= head + seq![c] + rest);
        assert forall|i: int| 0 <= i < parts.len() implies !(#[trigger] parts[i]).contains(c) by {
            if i > 0 {
                assert(parts[i] == split_on(rest, c)[i - 1]);
            }
        }
    }
}

/// A line is read up to its newline, without the carriage return that may stand
/// before it, and the text behind the newline is read by itself. The last line
/// needs no newline, and only there a carriage return at the end belongs to the
/// line.
pub proof fn law_lines_end_at_newlines(line: Seq<char>, rest: Seq<char>)
    requires
        !line.contains('\n'),
    ensures
        line.len() == 0 || line.last() != '\r' ==> lines_of(line + seq!['\n'] + rest) == seq![line]
            + lines_of(rest),
        lines_of(line + seq!['\r', '\n'] + rest) == seq![line] + lines_of(rest),
        line.len() > 0 ==> lines_of(line) == seq![line],
        lines_of(Seq::<char>::empty()).len() == 0,
{
    let n = line.len() as int;
    assert forall|i: int| 0 <= i < n implies line[i] != '\n' by {
        assert(line.contains(line[i]));
    }
    let a = line + seq!['\n'] + rest;
    assert(a[n] == '\n');
    lemma_position_is(a, '\n', n);
    assert(a.take(n) =~= line);
    assert(a.skip(n + 1) =~= rest);
    let b = line + seq!['\r', '\n'] + rest;
    assert(b[n] == '\r' && b[n + 1] == '\n');
    lemma_position_is(b, '\n', n + 1);
    assert(b.take(n + 1).drop_last() =~= line);
    assert(b.skip(n + 2) =~= rest);
    lemma_position_is(line, '\n', n);
}

/// White space parts words: each run of other characters is a word, and white
/// space before, between and behind them does not matter.
pub proof fn law_words_are_parted_by_space(
    space: Seq<char>,
    word: Seq<char>,
    more: Seq<char>,
)
    requires
        forall|i: int| 0 <= i < space.len() ==> is_white_space(#[trigger] space[i]),
        word.len() > 0,
        forall|i: int| 0 <= i < word.len() ==> !is_white_space(#[trigger] word[i]),
        more.len() > 0 ==> is_white_space(more[0]),
    ensures
        tokens_of(space + word + more) == seq![word] + tokens_of(more),
        tokens_of(space).len() == 0,
{
    lemma_tokens_skip_space(space, word + more);
    assert(space + word + more =~= space + (word + more));
    lemma_tokens_first(word, more);
    lemma_tokens_skip_space(space, Seq::empty());
    assert(space + Seq::<char>::empty() =~= space);
}

/// The digit that stands for `d`.
pub open spec fn digit_char(d: int) -> char {
    ('0' as u32 + d) as char
}

/// Digits are read in the decimal system: a further digit makes the number ten
/// times as great and adds its own value.
pub proof fn law_digits_are_decimal(s: Seq<char>, d: int, max: nat)
    requires
        0 <= d <= 9,
        s.len() > 0 ==> s[0] != '+',
    ensures
        s.len() == 0 ==> unsigned_value(s.push(digit_char(d)), max) == if d <= max {
            Some(d as nat)
        } else {
            None
        },
        unsigned_value(s, max) matches Some(n) ==> unsigned_value(s.push(digit_char(d)), max)
            == if 10 * n + d <= max {
            Some((10 * n + d) as nat)
        } else {
            None
        },
{
    let t = s.push(digit_char(d));
    assert(t.drop_last() =~= s);
    assert(is_digit(digit_char(d)));
    assert(digit_char(d) as u32 - '0' as u32 == d);
    assert(t[0] == if s.len() > 0 {
        s[0]
    } else {
        digit_char(d)
    });
    assert(digits_value(Seq::<char>::empty()) == 0);
    if s.len() == 0 {
        assert(s =~= Seq::<char>::empty());
    }
    if s.len() == 0 || unsigned_value(s, max) is Some {
        assert(all_digits(t)) by {
            assert forall|i: int| 0 <= i < t.len() implies is_digit(#[trigger] t[i]) by {
                if i < s.len() {
                    assert(t[i] == s[i]);
                }
            }
        }
    }
}

/// A number is a run of digits with at most one sign before it; anything else
/// is none. A `+` changes nothing, and a `-` negates.
pub proof fn law_numbers_are_signed_digits(s: Seq<char>, max: nat, i: int)
    ensures
        s.len() == 0 ==> unsigned_value(s, max) is None && signed_value(s) is None,
        0 < i < s.len() && !('0' <= s[i] <= '9') ==> unsigned_value(s, max) is None && signed_value(
            s,
        ) is None,
        s.len() > 0 && !('0' <= s[0] <= '9') && s[0] != '+' ==> unsigned_value(s, max) is None,
        s.len() > 0 && !('0' <= s[0] <= '9') && s[0] != '+' && s[0] != '-' ==> signed_value(
            s,
        ) is None,
        s.len() > 0 && '0' <= s[0] <= '9' ==> {
            &&& unsigned_value(seq!['+'] + s, max) == unsigned_value(s, max)
            &&& signed_value(seq!['+'] + s) == signed_value(s)
            &&& signed_value(s) == match unsigned_value(s, 0x7fff_ffff_ffff_ffff) {
                Some(n) => Some(n as i64),
                None => None,
            }
            &&& signed_value(seq!['-'] + s) == match unsigned_value(s, 0x8000_0000_0000_0000) {
                Some(n) => Some((-n) as i64),
                None => None,
            }
        },
{
    if 0 < i < s.len() && !('0' <= s[i] <= '9') {
        assert(s.drop_first()[i - 1] == s[i]);
        assert(!is_digit(s[i]));
        assert(!all_digits(s));
        assert(!all_digits(s.drop_first()));
    }
    if s.len() > 0 {
        assert((seq!['+'] + s).drop_first() =~= s);
        assert((seq!['-'] + s).drop_first() =~= s);
        if !('0' <= s[0] <= '9') {
            assert(!is_digit(s[0]));
        }
    }
}

/// Texts are in the order of a dictionary: at the first character in which they
/// differ the smaller one decides, and a text stands before what it begins.
pub proof fn law_text_order_is_lexicographic(
    common: Seq<char>,
    a: Seq<char>,
    b: Seq<char>,
)
    ensures
        text_le(common, common + b),
        b.len() > 0 ==> !text_le(common + b, common),
        a.len() > 0 && b.len() > 0 && a[0] < b[0] ==> text_le(common + a, common + b) && !text_le(
            common + b,
            common + a,
        ),
    decreases common.len(),
{
    if common.len() > 0 {
        let rest = common.drop_first();
        law_text_order_is_lexicographic(rest, a, b);
        assert((common + a).drop_first() =~= rest + a);
        assert((common + b).drop_first() =~= rest + b);
    } else {
        assert(common + a =~= a);
        assert(common + b =~= b);
    }
}

/// Lower case changes the letters `A` to `Z` and nothing else.
pub proof fn law_lower_case_of_ascii(s: Seq<char>, i: int)
    requires
        0 <= i < s.len(),
    ensures
        ascii_lowercase(s).len() == s.len(),
        'A' <= s[i] <= 'Z' ==> ascii_lowercase(s)[i] as u32 == s[i] as u32 + 32,
        !('A' <= s[i] <= 'Z') ==> ascii_lowercase(s)[i] == s[i],
{
}

/// A number in decimal, with its sign if it is negative.
pub open spec fn signed_decimal(n: i64) -> Seq<char> {
    if n >= 0 {
        decimal(n as nat)
    } else {
        seq!['-'] + decimal((-n) as nat)
    }
}

/// A number in decimal is one word of digits, with a sign or without, and is read
/// back.
pub proof fn law_signed_decimal_is_a_word(n: i64)
    ensures
        signed_decimal(n).len() > 0,
        signed_value(signed_decimal(n)) == Some(n),
        forall|i: int|
            0 <= i < signed_decimal(n).len() ==> (#[trigger] signed_decimal(n)[i] == '-' || '0'
                <= signed_decimal(n)[i] <= '9'),
        trim(signed_decimal(n)) == signed_decimal(n),
{
    let magnitude = if n >= 0 {
        n as nat
    } else {
        (-n) as nat
    };
    law_signed_decimal_reads_back(n);
    law_decimal_reads_back(magnitude, magnitude);
    let s = signed_decimal(n);
    let digits = decimal(magnitude);
    assert forall|i: int| 0 <= i < s.len() implies (#[trigger] s[i] == '-' || '0' <= s[i] <= '9') by {
        if n >= 0 {
            assert(is_digit(digits[i]));
        } else if i > 0 {
            assert(s[i] == digits[i - 1]);
            assert(is_digit(digits[i - 1]));
        }
    }
    let none = Seq::<char>::empty();
    assert(none + s + none =~= s);
    assert(s[0] == '-' || '0' <= s[0] <= '9');
    assert(s[s.len() - 1] == '-' || '0' <= s[s.len() - 1] <= '9');
    law_trim_takes_outer_space_only(none, s, none);
}

} // verus!
