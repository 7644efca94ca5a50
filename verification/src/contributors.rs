//! Contributors: the authors of the commits of a log, with the number of their
//! commits and the time of the last one.
use crate::history::lemma_filter_map_front;
use crate::model::{first_n, ContributorModel, ProjectRepoContributorInfo};
use crate::order::{
    insert_by, is_ranking, is_sorted, lemma_insert_by_at, lemma_sorted_by, lemma_sorted_by_stable,
    same_rank, sorted_by,
};
use crate::text::{
    ascii_lowercase, at_most, blank, is_blank, is_white_space, joined, law_lines_end_at_newlines,
    law_signed_decimal_is_a_word, law_split_undoes_join, lemma_blank_is_all_space,
    lemma_text_order, lines_in, lines_of, read_i64, signed_decimal, signed_value, split_chars,
    split_on, text_le, to_chars, to_text, trim, trim_chars, views,
};
use vstd::hash_map::StringHashMap;
use vstd::prelude::*;
use vstd::utf8::is_ascii_chars;

verus! {

/// The number of contributors that a snapshot lists at most.
pub const MAX_CONTRIBUTORS: usize = 50;

/// The lower-case form of a text, as `str::to_lowercase` gives it.
pub uninterp spec fn unicode_lowercase(s: Seq<char>) -> Seq<char>;

/// `str::to_lowercase` maps a text to its lower-case form under Unicode; the
/// same text always gives the same result. Of a text of ASCII characters the
/// letters `A` to `Z` become `a` to `z`, and the rest stays as it is. What the
/// form of another text is, is left unsaid.
pub assume_specification[ str::to_lowercase ](s: &str) -> (r: String)
    ensures
        r@ == unicode_lowercase(s@),
        is_ascii_chars(s@) ==> r@ == ascii_lowercase(s@),
;

/// The lower-case form of a text.
pub open spec fn lowercase(s: Seq<char>) -> Seq<char> {
    if is_ascii_chars(s) {
        ascii_lowercase(s)
    } else {
        unicode_lowercase(s)
    }
}

/// One commit of the log, as far as its author is concerned.
#[derive(Debug)]
pub struct Authorship {
    pub name: String,
    pub email: String,
    pub timestamp: i64,
}

pub struct AuthorshipModel {
    pub name: Seq<char>,
    pub email: Seq<char>,
    pub timestamp: i64,
}

impl DeepView for Authorship {
    type V = AuthorshipModel;

    open spec fn deep_view(&self) -> AuthorshipModel {
        AuthorshipModel { name: self.name@, email: self.email@, timestamp: self.timestamp }
    }
}

/// The field `i` of a line without outer white space; empty if it is missing.
pub open spec fn field(fields: Seq<Seq<char>>, i: int) -> Seq<char> {
    if i < fields.len() {
        trim(fields[i])
    } else {
        Seq::empty()
    }
}

/// The author that a line of the log names, if it names one. A time that is
/// missing or cannot be read counts as 0.
pub open spec fn authorship_of(line: Seq<char>) -> Option<AuthorshipModel> {
    let fields = split_on(line, '\0');
    let name = field(fields, 0);
    let email = field(fields, 1);
    if is_blank(line) || (name.len() == 0 && email.len() == 0) {
        None
    } else {
        Some(
            AuthorshipModel {
                name,
                email,
                timestamp: match signed_value(field(fields, 2)) {
                    Some(n) => n,
                    None => 0,
                },
            },
        )
    }
}

fn parse_authorship(line: &[char]) -> (r: Option<Authorship>)
    ensures
        r.deep_view() == authorship_of(line@),
{
    if blank(line) {
        return None;
    }
    let fields = split_chars(line, '\0');
    proof {
        assert(views(fields@).len() == fields@.len());
        assert forall|i: int| 0 <= i < fields@.len() implies #[trigger] fields@[i]@ == views(
            fields@,
        )[i] by {}
    }
    let name = to_text(trim_chars(fields[0]));
    let email = if fields.len() > 1 {
        to_text(trim_chars(fields[1]))
    } else {
        String::new()
    };
    let timestamp: i64 = if fields.len() > 2 {
        match read_i64(trim_chars(fields[2])) {
            Some(n) => n,
            None => 0,
        }
    } else {
        0
    };
    if name.as_str().is_empty() && email.as_str().is_empty() {
        return None;
    }
    Some(Authorship { name, email, timestamp })
}

/// The authors that the lines of `output` name, in order.
pub open spec fn authorships_of(output: Seq<char>) -> Seq<AuthorshipModel> {
    lines_of(output).filter_map(|line: Seq<char>| authorship_of(line))
}

/// Reads the authors of the commits in `output`.
pub fn parse_authorships(output: &str) -> (r: Vec<Authorship>)
    ensures
        r.deep_view() == authorships_of(output@),
{
    let cs = to_chars(output);
    let lines = lines_in(cs.as_slice());
    let ghost all = lines_of(output@);
    let ghost f = |line: Seq<char>| authorship_of(line);
    let mut out: Vec<Authorship> = Vec::new();
    let mut i: usize = 0;
    assert(all.take(0).filter_map(f) == Seq::<AuthorshipModel>::empty());
    while i < lines.len()
        invariant
            i <= lines.len(),
            views(lines@) == all,
            f == (|line: Seq<char>| authorship_of(line)),
            out.deep_view() == all.take(i as int).filter_map(f),
        decreases lines.len() - i,
    {
        proof {
            assert(lines@[i as int]@ == views(lines@)[i as int]);
            all.lemma_filter_map_take_succ(f, i as int);
        }
        let ghost before = out.deep_view();
        if let Some(authorship) = parse_authorship(lines[i]) {
            out.push(authorship);
            assert(out.deep_view() == before.push(authorship.deep_view()));
        }
        i += 1;
    }
    assert(all.take(all.len() as int) == all);
    out
}

/// What an author goes by: the email, or the name if there is no email.
pub open spec fn handle_of(a: AuthorshipModel) -> Seq<char> {
    if a.email.len() == 0 {
        a.name
    } else {
        a.email
    }
}

/// What tells contributors apart: what they go by, in lower case.
pub open spec fn key_of(a: AuthorshipModel) -> Seq<char> {
    lowercase(handle_of(a))
}

/// The keys of `authorships`, in order.
pub open spec fn keys_of(authorships: Seq<AuthorshipModel>) -> Seq<Seq<char>> {
    authorships.map_values(|a: AuthorshipModel| key_of(a))
}

fn contributor_keys(authorships: &Vec<Authorship>) -> (r: Vec<String>)
    ensures
        r.deep_view() == keys_of(authorships.deep_view()),
{
    let mut out: Vec<String> = Vec::new();
    let mut i: usize = 0;
    while i < authorships.len()
        invariant
            i <= authorships.len(),
            out@.len() == i,
            forall|j: int|
                0 <= j < i ==> (#[trigger] out@[j])@ == key_of(authorships@[j].deep_view()),
        decreases authorships.len() - i,
    {
        let a = &authorships[i];
        let key = if a.email.as_str().is_empty() {
            a.name.as_str().to_lowercase()
        } else {
            a.email.as_str().to_lowercase()
        };
        out.push(key);
        i += 1;
    }
    out
}

// ---------------------------------------------------------------------------
// Counting

/// The different keys, in the order in which they first come.
pub open spec fn distinct(keys: Seq<Seq<char>>) -> Seq<Seq<char>>
    decreases keys.len(),
{
    if keys.len() == 0 {
        keys
    } else if keys.drop_last().contains(keys.last()) {
        distinct(keys.drop_last())
    } else {
        distinct(keys.drop_last()).push(keys.last())
    }
}

/// The first position of `key`.
pub open spec fn first_of(keys: Seq<Seq<char>>, key: Seq<char>) -> int
    decreases keys.len(),
{
    if keys.len() == 0 {
        0
    } else if keys.drop_last().contains(key) {
        first_of(keys.drop_last(), key)
    } else {
        keys.len() - 1
    }
}

/// The number of times that `key` comes.
pub open spec fn times(keys: Seq<Seq<char>>, key: Seq<char>) -> nat
    decreases keys.len(),
{
    if keys.len() == 0 {
        0
    } else {
        times(keys.drop_last(), key) + if keys.last() == key {
            1nat
        } else {
            0nat
        }
    }
}

/// The greatest time among the authorships with `key`.
pub open spec fn last_time(
    keys: Seq<Seq<char>>,
    authorships: Seq<AuthorshipModel>,
    key: Seq<char>,
) -> i64
    decreases keys.len(),
{
    if keys.len() == 0 {
        0
    } else {
        let here = authorships[keys.len() - 1].timestamp;
        let before = last_time(keys.drop_last(), authorships, key);
        if keys.last() != key {
            before
        } else if keys.drop_last().contains(key) && before > here {
            before
        } else {
            here
        }
    }
}

/// The contributor with `key`: named as where the key first comes, with the
/// number of its commits and the time of the last of them.
pub open spec fn contributor(
    keys: Seq<Seq<char>>,
    authorships: Seq<AuthorshipModel>,
    key: Seq<char>,
) -> ContributorModel {
    ContributorModel {
        name: authorships[first_of(keys, key)].name,
        email: authorships[first_of(keys, key)].email,
        commit_count: times(keys, key),
        last_commit_at: last_time(keys, authorships, key),
    }
}

/// The contributors behind `authorships`, in the order in which they first
/// come; `keys` tells which authorships are of the same contributor.
pub open spec fn tally(keys: Seq<Seq<char>>, authorships: Seq<AuthorshipModel>) -> Seq<
    ContributorModel,
> {
    distinct(keys).map_values(|key: Seq<char>| contributor(keys, authorships, key))
}

proof fn lemma_distinct(keys: Seq<Seq<char>>)
    ensures
        distinct(keys).len() <= keys.len(),
        forall|k: Seq<char>| #[trigger] distinct(keys).contains(k) <==> keys.contains(k),
        distinct(keys).no_duplicates(),
    decreases keys.len(),
{
    if keys.len() > 0 {
        let front = keys.drop_last();
        lemma_distinct(front);
        assert(keys == front.push(keys.last()));
        assert forall|k: Seq<char>| #[trigger] distinct(keys).contains(k) <==> keys.contains(
            k,
        ) by {
            vstd::seq_lib::lemma_seq_contains_after_push(front, keys.last(), k);
            vstd::seq_lib::lemma_seq_contains_after_push(distinct(front), keys.last(), k);
        }
        assert forall|i: int| 0 <= i < distinct(front).len() implies front.contains(
            #[trigger] distinct(front)[i],
        ) by {
            assert(distinct(front).contains(distinct(front)[i]));
        }
    }
}

proof fn lemma_first_of(keys: Seq<Seq<char>>, key: Seq<char>)
    requires
        keys.contains(key),
    ensures
        0 <= first_of(keys, key) < keys.len(),
        keys[first_of(keys, key)] == key,
        forall|i: int| 0 <= i < first_of(keys, key) ==> keys[i] != key,
    decreases keys.len(),
{
    let front = keys.drop_last();
    if front.contains(key) {
        lemma_first_of(front, key);
        assert forall|i: int| 0 <= i < first_of(keys, key) implies keys[i] != key by {
            assert(front[i] == keys[i]);
        }
    } else {
        let n = choose|n: int| 0 <= n < keys.len() && keys[n] == key;
        if n < front.len() {
            assert(front[n] == key);
        }
        assert forall|i: int| 0 <= i < first_of(keys, key) implies keys[i] != key by {
            assert(front[i] == keys[i]);
            if keys[i] == key {
                assert(front.contains(key));
            }
        }
    }
}

/// One more authorship counts for its own contributor only.
proof fn lemma_tally_step(
    keys: Seq<Seq<char>>,
    authorships: Seq<AuthorshipModel>,
    n: int,
    key: Seq<char>,
)
    requires
        0 <= n < keys.len(),
    ensures
        ({
            let before = contributor(keys.take(n), authorships, key);
            let now = contributor(keys.take(n + 1), authorships, key);
            let a = authorships[n];
            if keys[n] != key {
                keys.take(n).contains(key) ==> now == before
            } else if keys.take(n).contains(key) {
                now == (ContributorModel {
                    commit_count: before.commit_count + 1,
                    last_commit_at: if before.last_commit_at > a.timestamp {
                        before.last_commit_at
                    } else {
                        a.timestamp
                    },
                    ..before
                })
            } else {
                now == (ContributorModel {
                    name: a.name,
                    email: a.email,
                    commit_count: 1,
                    last_commit_at: a.timestamp,
                })
            }
        }),
        times(keys.take(n), key) <= n,
{
    let front = keys.take(n);
    let whole = keys.take(n + 1);
    assert(whole.drop_last() == front);
    assert(whole.last() == keys[n]);
    lemma_times(front, key);
}

proof fn lemma_times(keys: Seq<Seq<char>>, key: Seq<char>)
    ensures
        times(keys, key) <= keys.len(),
        times(keys, key) == 0 <==> !keys.contains(key),
    decreases keys.len(),
{
    if keys.len() > 0 {
        lemma_times(keys.drop_last(), key);
        assert(keys == keys.drop_last().push(keys.last()));
        vstd::seq_lib::lemma_seq_contains_after_push(keys.drop_last(), keys.last(), key);
    }
}

/// Counts the commits of each contributor. `keys` tells, for each authorship,
/// which contributor it is of.
pub fn tally_contributors(keys: &Vec<String>, authorships: &Vec<Authorship>) -> (r: Vec<
    ProjectRepoContributorInfo,
>)
    requires
        keys.len() == authorships.len(),
    ensures
        r.deep_view() == tally(keys.deep_view(), authorships.deep_view()),
{
    let ghost ks = keys.deep_view();
    let ghost aus = authorships.deep_view();
    let mut out: Vec<ProjectRepoContributorInfo> = Vec::new();
    let mut places: StringHashMap<usize> = StringHashMap::new();
    let mut i: usize = 0;
    while i < keys.len()
        invariant
            i <= keys.len(),
            keys.len() == authorships.len(),
            ks == keys.deep_view(),
            aus == authorships.deep_view(),
            out@.len() == distinct(ks.take(i as int)).len(),
            forall|j: int|
                0 <= j < out@.len() ==> (#[trigger] out@[j]).deep_view() == contributor(
                    ks.take(i as int),
                    aus,
                    distinct(ks.take(i as int))[j],
                ),
            forall|k: Seq<char>| #[trigger]
                places@.contains_key(k) <==> ks.take(i as int).contains(k),
            forall|k: Seq<char>| #[trigger]
                places@.contains_key(k) ==> places@[k] < out@.len() && distinct(
                    ks.take(i as int),
                )[places@[k] as int] == k,
        decreases keys.len() - i,
    {
        let key = &keys[i];
        let a = &authorships[i];
        let ghost front = ks.take(i as int);
        let ghost whole = ks.take(i + 1);
        let ghost places_before = places@;
        let ghost out_before = out@;
        proof {
            assert(whole.drop_last() == front);
            assert(whole.last() == key@);
            assert(whole == front.push(key@));
            lemma_distinct(front);
            lemma_distinct(whole);
            lemma_tally_step(ks, aus, i as int, key@);
            assert forall|j: int| 0 <= j < distinct(front).len() && distinct(front)[j]
                != key@ implies contributor(whole, aus, #[trigger] distinct(front)[j])
                == contributor(front, aus, distinct(front)[j]) by {
                assert(distinct(front).contains(distinct(front)[j]));
                lemma_tally_step(ks, aus, i as int, distinct(front)[j]);
            }
            assert forall|k: Seq<char>| whole.contains(k) <==> k == key@ || front.contains(k) by {
                vstd::seq_lib::lemma_seq_contains_after_push(front, key@, k);
            }
        }
        match places.get(key.as_str()) {
            Some(place) => {
                let p: usize = *place;
                let count: usize = out[p].commit_count;
                let last: i64 = out[p].last_commit_at;
                assert(count <= i);
                out[p].commit_count = count + 1;
                if last <= a.timestamp {
                    out[p].last_commit_at = a.timestamp;
                }
                proof {
                    assert forall|j: int| 0 <= j < out@.len() implies (
                    #[trigger] out@[j]).deep_view() == contributor(
                        whole,
                        aus,
                        distinct(whole)[j],
                    ) by {
                        if j != p {
                            assert(out@[j] == out_before[j]);
                            assert(distinct(front)[j] != distinct(front)[p as int]);
                        }
                    }
                }
            },
            None => {
                out.push(
                    ProjectRepoContributorInfo {
                        name: a.name.clone(),
                        email: a.email.clone(),
                        commit_count: 1,
                        last_commit_at: a.timestamp,
                    },
                );
                let place: usize = out.len() - 1;
                places.insert(key.clone(), place);
                proof {
                    assert forall|j: int| 0 <= j < out@.len() implies (
                    #[trigger] out@[j]).deep_view() == contributor(
                        whole,
                        aus,
                        distinct(whole)[j],
                    ) by {
                        if j < out_before.len() {
                            assert(out@[j] == out_before[j]);
                            assert(distinct(front).contains(distinct(front)[j]));
                        }
                    }
                    assert forall|k: Seq<char>| #[trigger] places@.contains_key(k) implies places@[k]
                        < out@.len() && distinct(whole)[places@[k] as int] == k by {
                        if k != key@ {
                            assert(places_before.contains_key(k));
                        }
                    }
                }
            },
        }
        i += 1;
    }
    assert(ks.take(ks.len() as int) == ks);
    assert(out.deep_view() =~= tally(ks, aus));
    out
}

// ---------------------------------------------------------------------------
// Ranking

/// The order of contributors: more commits first, then the later last commit,
/// then the name.
pub open spec fn ranks_before(a: ContributorModel, b: ContributorModel) -> bool {
    ||| a.commit_count > b.commit_count
    ||| a.commit_count == b.commit_count && a.last_commit_at > b.last_commit_at
    ||| a.commit_count == b.commit_count && a.last_commit_at == b.last_commit_at && text_le(
        a.name,
        b.name,
    )
}

pub open spec fn contributor_order() -> spec_fn(ContributorModel, ContributorModel) -> bool {
    |a: ContributorModel, b: ContributorModel| ranks_before(a, b)
}

fn may_precede(a: &ProjectRepoContributorInfo, b: &ProjectRepoContributorInfo) -> (r: bool)
    ensures
        r == ranks_before(a.deep_view(), b.deep_view()),
{
    if a.commit_count != b.commit_count {
        a.commit_count > b.commit_count
    } else if a.last_commit_at != b.last_commit_at {
        a.last_commit_at > b.last_commit_at
    } else {
        let left = to_chars(a.name.as_str());
        let right = to_chars(b.name.as_str());
        at_most(left.as_slice(), right.as_slice())
    }
}

/// Puts `c` into its place among contributors that are in order.
fn place_contributor(ranked: &mut Vec<ProjectRepoContributorInfo>, c: ProjectRepoContributorInfo)
    ensures
        final(ranked).deep_view() == insert_by(
            old(ranked).deep_view(),
            c.deep_view(),
            contributor_order(),
        ),
{
    let ghost before = ranked.deep_view();
    let mut n: usize = ranked.len();
    while n > 0 && !may_precede(&ranked[n - 1], &c)
        invariant
            n <= ranked.len(),
            before == ranked.deep_view(),
            forall|i: int|
                n <= i < before.len() ==> !ranks_before(#[trigger] before[i], c.deep_view()),
        decreases n,
    {
        n -= 1;
    }
    proof {
        let le = contributor_order();
        assert forall|i: int| n <= i < before.len() implies !le(
            #[trigger] before[i],
            c.deep_view(),
        ) by {}
        lemma_insert_by_at(before, c.deep_view(), le, n as int);
    }
    let ghost model = c.deep_view();
    ranked.insert(n, c);
    assert(ranked.deep_view() =~= before.insert(n as int, model));
}

/// The contributors in order, fifty of them at most.
pub open spec fn ranked(contributors: Seq<ContributorModel>) -> Seq<ContributorModel> {
    first_n(sorted_by(contributors, contributor_order()), MAX_CONTRIBUTORS as nat)
}

/// Orders contributors and keeps the first fifty.
pub fn rank_contributors(contributors: Vec<ProjectRepoContributorInfo>) -> (r: Vec<
    ProjectRepoContributorInfo,
>)
    ensures
        r.deep_view() == ranked(contributors.deep_view()),
{
    let ghost all = contributors.deep_view();
    let ghost le = contributor_order();
    let mut out: Vec<ProjectRepoContributorInfo> = Vec::new();
    let mut i: usize = 0;
    while i < contributors.len()
        invariant
            i <= contributors.len(),
            all == contributors.deep_view(),
            le == contributor_order(),
            out.deep_view() == sorted_by(all.take(i as int), le),
        decreases contributors.len() - i,
    {
        let c = &contributors[i];
        let copy = ProjectRepoContributorInfo {
            name: c.name.clone(),
            email: c.email.clone(),
            commit_count: c.commit_count,
            last_commit_at: c.last_commit_at,
        };
        proof {
            assert(all.take(i + 1).drop_last() == all.take(i as int));
            assert(all.take(i + 1).last() == copy.deep_view());
        }
        place_contributor(&mut out, copy);
        i += 1;
    }
    assert(all.take(all.len() as int) == all);
    let ghost sorted = out.deep_view();
    if out.len() > MAX_CONTRIBUTORS {
        out.truncate(MAX_CONTRIBUTORS);
        assert(out.deep_view() =~= sorted.take(MAX_CONTRIBUTORS as int));
    }
    out
}

/// The contributors of the log `output`, in order.
pub open spec fn contributors_of(output: Seq<char>) -> Seq<ContributorModel> {
    let authorships = authorships_of(output);
    ranked(tally(keys_of(authorships), authorships))
}

/// Reads the contributors from a log of author names, emails and times:
/// those with the most commits first, fifty at most. Contributors of the same
/// rank stand in the order in which the log first names them.
pub fn parse_contributors(output: &str) -> (r: Vec<ProjectRepoContributorInfo>)
    ensures
        r.deep_view() == contributors_of(output@),
{
    let authorships = parse_authorships(output);
    let keys = contributor_keys(&authorships);
    assert(keys.deep_view().len() == keys@.len());
    assert(authorships.deep_view().len() == authorships@.len());
    let contributors = tally_contributors(&keys, &authorships);
    rank_contributors(contributors)
}

// ---------------------------------------------------------------------------
// Laws

pub proof fn lemma_contributor_order()
    ensures
        is_ranking(contributor_order()),
{
    let le = contributor_order();
    assert forall|a: ContributorModel, b: ContributorModel| #[trigger] le(a, b) || le(b, a) by {
        lemma_text_order(a.name, b.name, a.name);
    }
    assert forall|a: ContributorModel, b: ContributorModel, c: ContributorModel| #[trigger]
        le(a, b) && #[trigger] le(b, c) implies le(a, c) by {
        lemma_text_order(a.name, b.name, c.name);
    }
}

/// Contributors are listed by rank, with the number of commits first, then the
/// time of the last commit, then the name; fifty at most.
pub proof fn law_contributors_are_ranked(output: Seq<char>)
    ensures
        is_sorted(contributors_of(output), contributor_order()),
        contributors_of(output).len() <= 50,
{
    lemma_contributor_order();
    let authorships = authorships_of(output);
    lemma_sorted_by(tally(keys_of(authorships), authorships), contributor_order());
}

/// Ranking neither adds nor loses a contributor, but for those behind the
/// fiftieth, and leaves contributors of the same rank in their order.
pub proof fn law_ranking_is_a_stable_sort(
    contributors: Seq<ContributorModel>,
    a: ContributorModel,
)
    ensures
        ranked(contributors).is_prefix_of(sorted_by(contributors, contributor_order())),
        sorted_by(contributors, contributor_order()).to_multiset() == contributors.to_multiset(),
        sorted_by(contributors, contributor_order()).filter(
            |b: ContributorModel| same_rank(contributor_order(), a, b),
        ) == contributors.filter(|b: ContributorModel| same_rank(contributor_order(), a, b)),
{
    lemma_contributor_order();
    lemma_sorted_by(contributors, contributor_order());
    lemma_sorted_by_stable(contributors, contributor_order(), a);
}

/// The commits of all contributors together.
pub open spec fn total_commits(contributors: Seq<ContributorModel>) -> nat
    decreases contributors.len(),
{
    if contributors.len() == 0 {
        0
    } else {
        total_commits(contributors.drop_last()) + contributors.last().commit_count
    }
}

spec fn total_times(wanted: Seq<Seq<char>>, keys: Seq<Seq<char>>) -> nat
    decreases wanted.len(),
{
    if wanted.len() == 0 {
        0
    } else {
        total_times(wanted.drop_last(), keys) + times(keys, wanted.last())
    }
}

proof fn lemma_total_times_push(wanted: Seq<Seq<char>>, keys: Seq<Seq<char>>, key: Seq<char>)
    ensures
        total_times(wanted, keys.push(key)) == total_times(wanted, keys) + times(wanted, key),
    decreases wanted.len(),
{
    if wanted.len() > 0 {
        lemma_total_times_push(wanted.drop_last(), keys, key);
        assert(keys.push(key).drop_last() =~= keys);
    }
}

proof fn lemma_times_once(keys: Seq<Seq<char>>, key: Seq<char>)
    requires
        keys.no_duplicates(),
    ensures
        times(keys, key) == if keys.contains(key) {
            1nat
        } else {
            0nat
        },
    decreases keys.len(),
{
    lemma_times(keys, key);
    if keys.len() > 0 {
        let front = keys.drop_last();
        assert(front.no_duplicates());
        lemma_times_once(front, key);
        assert(keys == front.push(keys.last()));
        vstd::seq_lib::lemma_seq_contains_after_push(front, keys.last(), key);
        if front.contains(keys.last()) {
            let i = choose|i: int| 0 <= i < front.len() && front[i] == keys.last();
            assert(keys[i] == keys[keys.len() - 1]);
        }
    }
}

proof fn lemma_total_distinct(keys: Seq<Seq<char>>)
    ensures
        total_times(distinct(keys), keys) == keys.len(),
    decreases keys.len(),
{
    if keys.len() > 0 {
        let front = keys.drop_last();
        let key = keys.last();
        assert(keys == front.push(key));
        lemma_total_distinct(front);
        lemma_distinct(front);
        lemma_total_times_push(distinct(front), front, key);
        lemma_times_once(distinct(front), key);
        lemma_times(front, key);
        if !front.contains(key) {
            assert(distinct(keys).drop_last() =~= distinct(front));
            assert(times(keys, key) == 1);
        }
    }
}

proof fn lemma_total_tally(
    wanted: Seq<Seq<char>>,
    keys: Seq<Seq<char>>,
    authorships: Seq<AuthorshipModel>,
)
    ensures
        total_commits(wanted.map_values(|key: Seq<char>| contributor(keys, authorships, key)))
            == total_times(wanted, keys),
    decreases wanted.len(),
{
    if wanted.len() > 0 {
        let f = |key: Seq<char>| contributor(keys, authorships, key);
        lemma_total_tally(wanted.drop_last(), keys, authorships);
        assert(wanted.map_values(f).drop_last() =~= wanted.drop_last().map_values(f));
    }
}

/// Every commit counts for exactly one contributor.
pub proof fn law_every_commit_counts_once(
    keys: Seq<Seq<char>>,
    authorships: Seq<AuthorshipModel>,
)
    ensures
        total_commits(tally(keys, authorships)) == keys.len(),
{
    lemma_total_distinct(keys);
    lemma_total_tally(distinct(keys), keys, authorships);
}

proof fn lemma_total_insert(
    s: Seq<ContributorModel>,
    x: ContributorModel,
    le: spec_fn(ContributorModel, ContributorModel) -> bool,
)
    ensures
        total_commits(insert_by(s, x, le)) == total_commits(s) + x.commit_count,
    decreases s.len(),
{
    let r = insert_by(s, x, le);
    if s.len() == 0 || le(s.last(), x) {
        assert(r.drop_last() =~= s);
    } else {
        lemma_total_insert(s.drop_last(), x, le);
        assert(r.drop_last() =~= insert_by(s.drop_last(), x, le));
    }
}

proof fn lemma_total_sorted(
    s: Seq<ContributorModel>,
    le: spec_fn(ContributorModel, ContributorModel) -> bool,
)
    ensures
        total_commits(sorted_by(s, le)) == total_commits(s),
    decreases s.len(),
{
    if s.len() > 0 {
        lemma_total_sorted(s.drop_last(), le);
        lemma_total_insert(sorted_by(s.drop_last(), le), s.last(), le);
    }
}

/// While there are no more than fifty contributors, the list leaves none out:
/// the counts on it add up to the number of commits.
pub proof fn law_listed_counts_add_up(keys: Seq<Seq<char>>, authorships: Seq<AuthorshipModel>)
    requires
        distinct(keys).len() <= 50,
    ensures
        ranked(tally(keys, authorships)).len() == distinct(keys).len(),
        total_commits(ranked(tally(keys, authorships))) == keys.len(),
{
    let all = tally(keys, authorships);
    law_every_commit_counts_once(keys, authorships);
    lemma_contributor_order();
    lemma_sorted_by(all, contributor_order());
    lemma_total_sorted(all, contributor_order());
    assert(ranked(all) =~= sorted_by(all, contributor_order()));
}

/// Contributors are told apart by their keys: there is one for each key, and
/// each has a commit.
pub proof fn law_one_contributor_for_each_key(
    keys: Seq<Seq<char>>,
    authorships: Seq<AuthorshipModel>,
)
    ensures
        tally(keys, authorships).len() == distinct(keys).len(),
        distinct(keys).no_duplicates(),
        forall|key: Seq<char>| #[trigger] distinct(keys).contains(key) <==> keys.contains(key),
        forall|i: int|
            0 <= i < tally(keys, authorships).len() ==> (
            #[trigger] tally(keys, authorships)[i]).commit_count > 0,
{
    lemma_distinct(keys);
    assert forall|i: int| 0 <= i < tally(keys, authorships).len() implies (
    #[trigger] tally(keys, authorships)[i]).commit_count > 0 by {
        assert(distinct(keys).contains(distinct(keys)[i]));
        lemma_times(keys, distinct(keys)[i]);
    }
}

proof fn lemma_times_twice(keys: Seq<Seq<char>>, i: int, j: int)
    requires
        0 <= i < j < keys.len(),
        keys[i] == keys[j],
    ensures
        times(keys, keys[i]) >= 2,
    decreases keys.len(),
{
    let front = keys.drop_last();
    if j < front.len() {
        lemma_times_twice(front, i, j);
    } else {
        assert(front[i] == keys[i]);
        lemma_times(front, keys[i]);
    }
}

/// Emails that are ASCII text tell contributors apart without regard to the case
/// of letters: two authorships count for one contributor, which then has both
/// commits, exactly if the emails differ in case at most. So do names where
/// there is no email.
pub proof fn law_case_does_not_part_contributors(
    authorships: Seq<AuthorshipModel>,
    i: int,
    j: int,
)
    requires
        0 <= i < j < authorships.len(),
        is_ascii_chars(handle_of(authorships[i])),
        is_ascii_chars(handle_of(authorships[j])),
    ensures
        ({
            let keys = keys_of(authorships);
            let all = tally(keys, authorships);
            let same = ascii_lowercase(handle_of(authorships[i])) == ascii_lowercase(
                handle_of(authorships[j]),
            );
            &&& keys[i] == keys[j] <==> same
            &&& same ==> exists|k: int|
                0 <= k < all.len() && #[trigger] distinct(keys)[k] == keys[i] && all[k]
                    == contributor(keys, authorships, keys[i]) && all[k].commit_count >= 2
            &&& forall|k: int, m: int|
                0 <= k < all.len() && 0 <= m < all.len() && #[trigger] distinct(keys)[k] == keys[i]
                    && #[trigger] distinct(keys)[m] == keys[j] ==> (k == m <==> same)
        }),
{
    let keys = keys_of(authorships);
    let all = tally(keys, authorships);
    lemma_distinct(keys);
    assert(keys[i] == ascii_lowercase(handle_of(authorships[i])));
    assert(keys[j] == ascii_lowercase(handle_of(authorships[j])));
    if keys[i] == keys[j] {
        assert(keys.contains(keys[i]));
        assert(distinct(keys).contains(keys[i]));
        let k = choose|k: int| 0 <= k < distinct(keys).len() && distinct(keys)[k] == keys[i];
        lemma_times_twice(keys, i, j);
        assert(all[k] == contributor(keys, authorships, keys[i]));
    }
}

/// A contributor is named as in the first authorship with the key, and the time
/// of the last commit is the greatest one among the authorships with the key.
pub proof fn law_contributor_sums_up_its_authorships(
    keys: Seq<Seq<char>>,
    authorships: Seq<AuthorshipModel>,
    key: Seq<char>,
)
    requires
        keys.contains(key),
    ensures
        ({
            let c = contributor(keys, authorships, key);
            let n = first_of(keys, key);
            &&& 0 <= n < keys.len() && keys[n] == key
            &&& forall|i: int| 0 <= i < n ==> keys[i] != key
            &&& c.name == authorships[n].name && c.email == authorships[n].email
            &&& forall|i: int|
                0 <= i < keys.len() && keys[i] == key ==> (#[trigger] authorships[i]).timestamp
                    <= c.last_commit_at
            &&& exists|i: int|
                0 <= i < keys.len() && keys[i] == key && (#[trigger] authorships[i]).timestamp
                    == c.last_commit_at
        }),
    decreases keys.len(),
{
    lemma_first_of(keys, key);
    let front = keys.drop_last();
    let m = front.len() as int;
    if front.contains(key) {
        law_contributor_sums_up_its_authorships(front, authorships, key);
        let before = last_time(front, authorships, key);
        let i = choose|i: int|
            0 <= i < front.len() && front[i] == key && (#[trigger] authorships[i]).timestamp
                == before;
        assert(keys[i] == key);
        assert forall|j: int| 0 <= j < keys.len() && keys[j] == key implies (
        #[trigger] authorships[j]).timestamp <= last_time(keys, authorships, key) by {
            if j < m {
                assert(front[j] == key);
            }
        }
        if keys.last() == key && !(before > authorships[m].timestamp) {
            assert(keys[m] == key && authorships[m].timestamp == last_time(
                keys,
                authorships,
                key,
            ));
        } else {
            assert(authorships[i].timestamp == last_time(keys, authorships, key));
        }
    } else {
        assert(keys[m] == key) by {
            let n = choose|n: int| 0 <= n < keys.len() && keys[n] == key;
            if n < m {
                assert(front[n] == key);
            }
        }
        assert forall|j: int| 0 <= j < keys.len() && keys[j] == key implies (
        #[trigger] authorships[j]).timestamp <= last_time(keys, authorships, key) by {
            if j < m {
                assert(front[j] == key);
                assert(front.contains(key));
            }
        }
        assert(authorships[m].timestamp == last_time(keys, authorships, key));
    }
}

/// A line of the author log is read field by field, each without outer white
/// space: name, email and time. A line with neither name nor email is passed
/// over; a time that is missing or no number counts as 0.
pub proof fn law_author_line_holds_its_fields(fields: Seq<Seq<char>>)
    requires
        fields.len() > 0,
        forall|i: int| 0 <= i < fields.len() ==> !(#[trigger] fields[i]).contains('\0'),
    ensures
        ({
            let read = authorship_of(joined(fields, '\0'));
            let named = !is_blank(fields[0]) || fields.len() > 1 && !is_blank(fields[1]);
            &&& read is Some <==> named
            &&& read matches Some(a) ==> {
                &&& a.name == trim(fields[0])
                &&& fields.len() > 1 ==> a.email == trim(fields[1])
                &&& fields.len() == 1 ==> a.email.len() == 0
                &&& fields.len() > 2 ==> a.timestamp == match signed_value(trim(fields[2])) {
                    Some(time) => time,
                    None => 0,
                }
                &&& fields.len() <= 2 ==> a.timestamp == 0
            }
        }),
{
    let line = joined(fields, '\0');
    law_split_undoes_join(fields, '\0');
    if is_blank(line) {
        lemma_blank_is_all_space(line);
        lemma_blank_is_all_space(fields[0]);
        assert forall|i: int| 0 <= i < fields[0].len() implies is_white_space(
            #[trigger] fields[0][i],
        ) by {
            assert(line[i] == fields[0][i]);
        }
        if fields.len() > 1 {
            assert(line[fields[0].len() as int] == '\0');
        }
    }
}

/// An author that is written in the format of the log is read back, with name,
/// email and time, whatever they are.
pub proof fn law_author_reads_back(name: Seq<char>, email: Seq<char>, time: i64)
    requires
        !name.contains('\0') && !email.contains('\0'),
        trim(name) == name && trim(email) == email,
        name.len() > 0 || email.len() > 0,
    ensures
        authorship_of(name + seq!['\0'] + (email + seq!['\0'] + signed_decimal(time))) == Some(
            AuthorshipModel { name, email, timestamp: time },
        ),
{
    let written = signed_decimal(time);
    let fields = seq![name, email, written];
    law_signed_decimal_is_a_word(time);
    assert forall|i: int| 0 <= i < written.len() implies written[i] != '\0' by {
        assert(written[i] == '-' || '0' <= written[i] <= '9');
    }
    assert forall|i: int| 0 <= i < fields.len() implies !(#[trigger] fields[i]).contains('\0') by {}
    law_author_line_holds_its_fields(fields);
    let rest = fields.drop_first();
    assert(rest.drop_first() =~= seq![written]);
    assert(joined(rest.drop_first(), '\0') == written);
    assert(joined(rest, '\0') == email + seq!['\0'] + written);
    assert(joined(fields, '\0') == name + seq!['\0'] + (email + seq!['\0'] + written));
}

/// The author log is read line by line: each line that names an author adds one
/// authorship, in order, and each other line adds nothing.
pub proof fn law_author_log_is_read_line_by_line(line: Seq<char>, rest: Seq<char>)
    requires
        !line.contains('\n'),
        line.len() == 0 || line.last() != '\r',
    ensures
        authorships_of(line + seq!['\n'] + rest) == (match authorship_of(line) {
            Some(a) => seq![a],
            None => seq![],
        }) + authorships_of(rest),
        authorships_of(Seq::<char>::empty()).len() == 0,
{
    law_lines_end_at_newlines(line, rest);
    lemma_filter_map_front(line, lines_of(rest), |l: Seq<char>| authorship_of(l));
}

/// The number of commits of a contributor is the number of authorships with its
/// key.
pub proof fn law_commit_count_is_the_number_of_commits(
    keys: Seq<Seq<char>>,
    authorships: Seq<AuthorshipModel>,
    key: Seq<char>,
)
    ensures
        contributor(keys, authorships, key).commit_count == keys.filter(
            |k: Seq<char>| k == key,
        ).len(),
    decreases keys.len(),
{
    let p = |k: Seq<char>| k == key;
    if keys.len() == 0 {
        keys.lemma_filter_len(p);
    } else {
        law_commit_count_is_the_number_of_commits(keys.drop_last(), authorships, key);
        assert(keys == keys.drop_last().push(keys.last()));
        keys.drop_last().lemma_filter_push(keys.last(), p);
    }
}

/// The list for a log holds the contributors of its authorships and no others:
/// with fifty or fewer, every authorship is counted on it; with more, the list
/// has fifty. A contributor with more commits stands first, then one with a
/// later commit, then one whose name comes first.
pub proof fn law_list_is_of_the_authors_of_the_log(output: Seq<char>)
    ensures
        ({
            let authorships = authorships_of(output);
            let keys = keys_of(authorships);
            let listed = contributors_of(output);
            &&& distinct(keys).len() <= 50 ==> listed.len() == distinct(keys).len()
            &&& distinct(keys).len() > 50 ==> listed.len() == 50
            &&& distinct(keys).len() <= 50 ==> total_commits(listed) == authorships.len()
            &&& distinct(keys).len() <= 50 ==> forall|i: int|
                0 <= i < authorships.len() ==> listed.contains(
                    contributor(keys, authorships, #[trigger] keys[i]),
                )
            &&& forall|m: int|
                0 <= m < listed.len() ==> tally(keys, authorships).contains(#[trigger] listed[m])
            &&& forall|m: int, n: int|
                0 <= m < n < listed.len() ==> {
                    let a = #[trigger] listed[m];
                    let b = #[trigger] listed[n];
                    ||| a.commit_count > b.commit_count
                    ||| a.commit_count == b.commit_count && a.last_commit_at > b.last_commit_at
                    ||| a.commit_count == b.commit_count && a.last_commit_at == b.last_commit_at
                        && text_le(a.name, b.name)
                }
        }),
{
    let authorships = authorships_of(output);
    let keys = keys_of(authorships);
    let all = tally(keys, authorships);
    let listed = contributors_of(output);
    let sorted = sorted_by(all, contributor_order());
    lemma_contributor_order();
    lemma_sorted_by(all, contributor_order());
    law_contributors_are_ranked(output);
    lemma_distinct(keys);
    broadcast use vstd::seq_lib::group_to_multiset_ensures;

    assert forall|m: int| 0 <= m < listed.len() implies all.contains(#[trigger] listed[m]) by {
        assert(sorted[m] == listed[m]);
        assert(sorted.contains(listed[m]));
        assert(sorted.to_multiset().count(listed[m]) > 0);
    }
    assert forall|m: int, n: int| 0 <= m < n < listed.len() implies {
        let a = #[trigger] listed[m];
        let b = #[trigger] listed[n];
        ||| a.commit_count > b.commit_count
        ||| a.commit_count == b.commit_count && a.last_commit_at > b.last_commit_at
        ||| a.commit_count == b.commit_count && a.last_commit_at == b.last_commit_at && text_le(
            a.name,
            b.name,
        )
    } by {
        let le = contributor_order();
        assert(le(listed[m], listed[n]));
    }
    if distinct(keys).len() <= 50 {
        law_listed_counts_add_up(keys, authorships);
        assert forall|i: int| 0 <= i < authorships.len() implies listed.contains(
            contributor(keys, authorships, #[trigger] keys[i]),
        ) by {
            assert(keys.contains(keys[i]));
            assert(distinct(keys).contains(keys[i]));
            let k = choose|k: int| 0 <= k < distinct(keys).len() && distinct(keys)[k] == keys[i];
            assert(all[k] == contributor(keys, authorships, keys[i]));
            assert(all.contains(all[k]));
            assert(sorted.to_multiset().count(all[k]) > 0);
            assert(sorted.contains(all[k]));
            assert(listed =~= sorted);
        }
    }
}

/// What an author goes by decides who they are: the email, and the name only
/// where there is no email. Two authorships with the same one are of one
/// contributor.
pub proof fn law_email_goes_before_name(authorships: Seq<AuthorshipModel>, i: int, j: int)
    requires
        0 <= i < authorships.len(),
        0 <= j < authorships.len(),
    ensures
        authorships[i].email.len() > 0 && authorships[i].email == authorships[j].email ==> keys_of(
            authorships,
        )[i] == keys_of(authorships)[j],
        authorships[i].email.len() == 0 && authorships[j].email.len() == 0 && authorships[i].name
            == authorships[j].name ==> keys_of(authorships)[i] == keys_of(authorships)[j],
        authorships[i].email.len() > 0 && is_ascii_chars(authorships[i].email) ==> keys_of(
            authorships,
        )[i] == ascii_lowercase(authorships[i].email),
        authorships[i].email.len() == 0 && is_ascii_chars(authorships[i].name) ==> keys_of(
            authorships,
        )[i] == ascii_lowercase(authorships[i].name),
        authorships[i].email.len() > 0 && !is_ascii_chars(authorships[i].email) ==> keys_of(
            authorships,
        )[i] == unicode_lowercase(authorships[i].email),
        authorships[i].email.len() == 0 && !is_ascii_chars(authorships[i].name) ==> keys_of(
            authorships,
        )[i] == unicode_lowercase(authorships[i].name),
        keys_of(authorships).len() == authorships.len(),
{
}

} // verus!
