use project_git::contributors::{
    parse_authorships, parse_contributors, rank_contributors, tally_contributors, Authorship,
};
use project_git::history::{parse_commits, parse_latest_commit, parse_latest_commit_by_path};
use project_git::model::ProjectRepoContributorInfo;

fn line(hash: &str, time: &str, subject: &str) -> String {
    format!("{hash}\0{hash}s\0Ada\0ada@example.com\0{time}\0{subject}")
}

#[test]
fn latest_commit_is_read_from_the_first_line() {
    let output = format!("{}\n{}\n", line("aaa", "1700000000", "First: \u{e9}"), line("b", "1", "x"));
    let commit = parse_latest_commit(&output).expect("a commit");
    assert_eq!(commit.hash, "aaa");
    assert_eq!(commit.short_hash, "aaas");
    assert_eq!(commit.author_name, "Ada");
    assert_eq!(commit.author_email, "ada@example.com");
    assert_eq!(commit.timestamp, 1700000000);
    assert_eq!(commit.subject, "First: \u{e9}");
}

#[test]
fn commit_fields_other_than_the_subject_are_needed() {
    let commit = parse_latest_commit("h\0s\0n\0e\0-5").expect("no subject is fine");
    assert_eq!(commit.timestamp, -5);
    assert_eq!(commit.subject, "");
    assert!(parse_latest_commit("h\0s\0n\0e").is_none());
    assert!(parse_latest_commit("h\0s\0n\0e\0soon\0x").is_none());
    assert!(parse_latest_commit("h\0s\0n\0e\0 5\0x").is_none());
    assert!(parse_latest_commit("").is_none());
    assert!(parse_latest_commit("\nh\0s\0n\0e\x005\0x").is_none());
    assert_eq!(parse_latest_commit("h\0s\0n\0e\x005\0x\0y").unwrap().subject, "x");
}

#[test]
fn commits_are_the_first_fifty_readable_lines() {
    let mut output = String::new();
    for i in 0..60 {
        output.push_str(&line(&format!("c{i}"), &i.to_string(), "s"));
        output.push('\n');
        output.push_str("not a commit\n");
    }
    let commits = parse_commits(&output);
    assert_eq!(commits.len(), 50);
    for (i, commit) in commits.iter().enumerate() {
        assert_eq!(commit.hash, format!("c{i}"));
        assert_eq!(commit.timestamp, i as i64);
    }
    assert!(parse_commits("").is_empty());
    assert_eq!(parse_commits(&line("z", "9", "s")).len(), 1);
}

#[test]
fn each_path_has_the_commit_under_which_it_comes_first() {
    let output = format!(
        "orphan.txt\n{}\n\nREADME.md\nsrc/a b.rs\n{}\n\nREADME.md\nold.rs\nbroken\0header\nlost.rs\n{}\n\nlost.rs\n",
        line("new", "20", "n"),
        line("old", "10", "o"),
        line("first", "5", "f"),
    );
    let index = parse_latest_commit_by_path(&output);
    assert_eq!(index.get("README.md").unwrap().hash, "new");
    assert_eq!(index.get("src/a b.rs").unwrap().hash, "new");
    assert_eq!(index.get("old.rs").unwrap().hash, "old");
    assert_eq!(index.get("lost.rs").unwrap().hash, "first");
    assert!(index.get("orphan.txt").is_none());
    assert!(!index.contains(""));
}

#[test]
fn contributors_are_merged_by_email_without_regard_to_case() {
    let output = "Ada\0ada@example.com\x00100\nGrace\0grace@example.com\x00300\nADA L.\0Ada@Example.com\x00200\n";
    let contributors = parse_contributors(output);
    assert_eq!(contributors.len(), 2);
    assert_eq!(contributors[0].name, "Ada");
    assert_eq!(contributors[0].email, "ada@example.com");
    assert_eq!(contributors[0].commit_count, 2);
    assert_eq!(contributors[0].last_commit_at, 200);
    assert_eq!(contributors[1].name, "Grace");
    assert_eq!(contributors[1].commit_count, 1);
    assert_eq!(contributors[1].last_commit_at, 300);
}

#[test]
fn lower_case_follows_unicode() {
    let contributors = parse_contributors("\u{c4}gir\0\x001\n\u{e4}GIR\0\x002\n");
    assert_eq!(contributors.len(), 1);
    assert_eq!(contributors[0].name, "\u{c4}gir");
    assert_eq!(contributors[0].email, "");
    assert_eq!(contributors[0].commit_count, 2);
    assert_eq!(contributors[0].last_commit_at, 2);
}

#[test]
fn contributors_without_name_and_email_are_passed_over() {
    let authorships = parse_authorships("\n \0 \x005\n  \nAda\nBob\0\0soon\n\0x@y\0 7 \n");
    assert_eq!(authorships.len(), 3);
    assert_eq!(authorships[0].name, "Ada");
    assert_eq!(authorships[0].timestamp, 0);
    assert_eq!(authorships[1].name, "Bob");
    assert_eq!(authorships[1].timestamp, 0);
    assert_eq!(authorships[2].name, "");
    assert_eq!(authorships[2].email, "x@y");
    assert_eq!(authorships[2].timestamp, 7);
}

fn authorship(name: &str, timestamp: i64) -> Authorship {
    Authorship { name: name.to_string(), email: String::new(), timestamp }
}

#[test]
fn every_commit_counts_for_one_contributor() {
    let keys: Vec<String> = ["a", "b", "a", "c", "a", "b"].iter().map(|k| k.to_string()).collect();
    let authorships = vec![
        authorship("A1", 3),
        authorship("B1", -4),
        authorship("A2", 9),
        authorship("C1", 1),
        authorship("A3", 2),
        authorship("B2", -9),
    ];
    let tally = tally_contributors(&keys, &authorships);
    let counts: Vec<(String, usize, i64)> = tally
        .into_iter()
        .map(|c| (c.name, c.commit_count, c.last_commit_at))
        .collect();
    assert_eq!(
        counts,
        vec![("A1".to_string(), 3, 9), ("B1".to_string(), 2, -4), ("C1".to_string(), 1, 1)]
    );
    assert_eq!(counts.iter().map(|c| c.1).sum::<usize>(), keys.len());
}

fn contributor(name: &str, email: &str, commit_count: usize, last_commit_at: i64) -> ProjectRepoContributorInfo {
    ProjectRepoContributorInfo {
        name: name.to_string(),
        email: email.to_string(),
        commit_count,
        last_commit_at,
    }
}

#[test]
fn contributors_are_ranked_by_commits_time_and_name() {
    let ranked = rank_contributors(vec![
        contributor("late", "1", 1, 9),
        contributor("zoe", "2", 2, 5),
        contributor("amy", "3", 2, 5),
        contributor("busy", "4", 7, 1),
        contributor("amy", "5", 2, 5),
        contributor("recent", "6", 2, 6),
    ]);
    let emails: Vec<&str> = ranked.iter().map(|c| c.email.as_str()).collect();
    assert_eq!(emails, vec!["4", "6", "3", "5", "2", "1"]);
}

#[test]
fn fifty_contributors_are_kept() {
    let mut output = String::new();
    for i in 0..70 {
        output.push_str(&format!("n{i}\0e{i}@x\x00{i}\n"));
    }
    let contributors = parse_contributors(&output);
    assert_eq!(contributors.len(), 50);
    assert_eq!(contributors[0].last_commit_at, 69);
    assert_eq!(contributors[49].last_commit_at, 20);
}

#[test]
fn ascii_case_does_not_part_contributors() {
    let contributors = parse_contributors(
        "A\0MiXed@Example.COM\x001\nB\0mixed@example.com\x002\nC\0mixed@example.org\x003\nNick\0\x004\nNICK\0\x005\n",
    );
    let listed: Vec<(&str, usize)> =
        contributors.iter().map(|c| (c.name.as_str(), c.commit_count)).collect();
    assert_eq!(listed, vec![("Nick", 2), ("A", 2), ("C", 1)]);
}

#[test]
fn listed_counts_add_up_to_the_commits() {
    let mut output = String::new();
    for i in 0..200 {
        output.push_str(&format!("n\0e{}@x\x00{i}\n", i % 50));
    }
    let contributors = parse_contributors(&output);
    assert_eq!(contributors.len(), 50);
    assert_eq!(contributors.iter().map(|c| c.commit_count).sum::<usize>(), 200);
}
