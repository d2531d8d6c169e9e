use milestone_changelog::{
    changelog_for_date, create_changelog, format_contributors_to_md, format_items_to_md,
    format_labels_to_md, format_pull_requests_to_md, format_url, get_changelog_info, get_labels,
    map_pull_request, unify_contributors, Args, Author, AuthorNode, Date, Label, LabelConnection,
    LabelNode, MappingError, MilestoneConnection, MilestoneNode, PullRequest,
    PullRequestConnection, PullRequestNode, Repository, ResponseData,
};

fn pr(id: &str, title: &str, number: i64, login: &str, labels: &[&str]) -> PullRequest {
    PullRequest {
        id: id.to_string(),
        title: title.to_string(),
        url: format!("https://api.example.com/repos/org/proj/pulls/{}", number),
        number,
        labels: labels.iter().map(|l| Label { name: l.to_string() }).collect(),
        author: Author {
            login: login.to_string(),
            url: format!("https://api.example.com/users/{}", login),
        },
    }
}

fn node(id: &str, title: &str, number: i64, author: Option<&str>, labels: Option<Vec<Option<&str>>>) -> PullRequestNode {
    PullRequestNode {
        id: id.to_string(),
        title: title.to_string(),
        url: format!("https://api.example.com/repos/org/proj/pulls/{}", number),
        number,
        author: author.map(|login| AuthorNode {
            login: login.to_string(),
            url: format!("https://api.example.com/users/{}", login),
        }),
        labels: labels.map(|names| LabelConnection {
            nodes: Some(
                names
                    .into_iter()
                    .map(|n| n.map(|n| LabelNode { name: n.to_string() }))
                    .collect(),
            ),
        }),
    }
}

fn milestone(prs: Vec<Option<PullRequestNode>>) -> Option<MilestoneNode> {
    Some(MilestoneNode { pull_requests: PullRequestConnection { nodes: Some(prs) } })
}

fn response(milestones: Vec<Option<MilestoneNode>>) -> ResponseData {
    ResponseData {
        repository: Some(Repository {
            milestones: Some(MilestoneConnection {
                total_count: milestones.len() as i64,
                nodes: Some(milestones),
            }),
        }),
    }
}

fn missing_field(r: Result<Vec<PullRequest>, MappingError>) -> String {
    match r {
        Err(MappingError::MissingField(path)) => path,
        Err(MappingError::MissingAuthor(id)) => panic!("unexpected missing author {}", id),
        Ok(_) => panic!("expected a mapping error"),
    }
}

#[test]
fn rewrite_pull_request_url() {
    assert_eq!(
        format_url("https://api.example.com/repos/org/proj/pulls/1".to_string()),
        "https://example.com/org/proj/pulls/1"
    );
}

#[test]
fn rewrite_user_url() {
    assert_eq!(format_url("https://api.example.com/users/alice".to_string()), "https://example.com/alice");
}

#[test]
fn rewrite_replaces_every_occurrence() {
    assert_eq!(
        format_url("api.api.x/repos/repos/users/y/users/".to_string()),
        "x/y/"
    );
    assert_eq!(format_url("https://example.com/a".to_string()), "https://example.com/a");
    assert_eq!(format_url(String::new()), "");
}

#[test]
fn rewrite_removes_in_fixed_order() {
    // Removing `repos/` joins `us` and `ers/`, which the last step then removes.
    assert_eq!(format_url("a/usrepos/ers/b".to_string()), "a/b");
    // Removing `users/` comes last, so the `repos/` that it uncovers stays.
    assert_eq!(format_url("a/repusers/os/b".to_string()), "a/repos/b");
}

#[test]
fn pull_requests_one_line_each_in_order() {
    let prs = vec![pr("1", "Fix a", 1, "alice", &[]), pr("2", "Add b", 2, "bob", &["x"])];
    assert_eq!(
        format_pull_requests_to_md(&prs),
        "- [Fix a](https://example.com/org/proj/pulls/1)\n- [Add b](https://example.com/org/proj/pulls/2)\n"
    );
    assert_eq!(format_pull_requests_to_md(&[]), "");
}

#[test]
fn contributors_deduplicated_by_line() {
    let prs = vec![
        pr("1", "a", 1, "alice", &[]),
        pr("2", "b", 2, "bob", &[]),
        pr("3", "c", 3, "alice", &[]),
        pr("4", "d", 4, "alice", &[]),
    ];
    let out = format_contributors_to_md(&prs);
    assert_eq!(
        out,
        "- [@alice](https://example.com/alice)\n- [@bob](https://example.com/bob)"
    );
    assert!(out.split('\n').all(|l| !l.is_empty()));
    assert_eq!(out.lines().filter(|l| l.contains("@alice")).count(), 1);
}

#[test]
fn contributors_same_login_different_url_stay_apart() {
    let mut other = pr("2", "b", 2, "alice", &[]);
    other.author.url = "https://api.example.com/users/alice-enterprise".to_string();
    let prs = vec![pr("1", "a", 1, "alice", &[]), other];
    let out = format_contributors_to_md(&prs);
    let lines: Vec<&str> = out.split('\n').collect();
    assert_eq!(
        lines,
        vec![
            "- [@alice](https://example.com/alice)",
            "- [@alice](https://example.com/alice-enterprise)"
        ]
    );
}

#[test]
fn contributors_of_no_pull_request_is_empty() {
    assert_eq!(format_contributors_to_md(&[]), "");
}

#[test]
fn unify_keeps_first_occurrences() {
    assert_eq!(unify_contributors("a\nb\na\n".to_string()), "a\nb\n");
    assert_eq!(unify_contributors("b\na\nb\nc".to_string()), "b\na\nc");
    assert_eq!(unify_contributors(String::new()), "");
    assert_eq!(unify_contributors("\n\n".to_string()), "");
    assert_eq!(unify_contributors("x\n\ny".to_string()), "x\n\ny");
}

#[test]
fn labels_not_deduplicated() {
    let prs = vec![
        pr("1", "a", 1, "alice", &["bug"]),
        pr("2", "b", 2, "bob", &["bug", "docs"]),
        pr("3", "c", 3, "carol", &["bug"]),
    ];
    let out = format_labels_to_md(&prs);
    assert_eq!(out, "- bug\n- bug\n- docs\n- bug\n");
    assert_eq!(out.lines().filter(|l| *l == "- bug").count(), 3);
}

#[test]
fn unlabelled_pull_request_adds_no_label_line() {
    let with = vec![pr("1", "a", 1, "alice", &["x"]), pr("2", "b", 2, "bob", &[]), pr("3", "c", 3, "carol", &["y"])];
    let without = vec![pr("1", "a", 1, "alice", &["x"]), pr("3", "c", 3, "carol", &["y"])];
    assert_eq!(format_labels_to_md(&with), format_labels_to_md(&without));
    assert_eq!(format_labels_to_md(&[pr("2", "b", 2, "bob", &[])]), "");
}

#[test]
fn formatting_twice_gives_the_same_text() {
    let prs = vec![
        pr("1", "a", 1, "alice", &["bug"]),
        pr("2", "b", 2, "bob", &[]),
        pr("3", "c", 3, "alice", &["docs"]),
    ];
    assert_eq!(format_pull_requests_to_md(&prs), format_pull_requests_to_md(&prs));
    assert_eq!(format_labels_to_md(&prs), format_labels_to_md(&prs));
    assert_eq!(format_contributors_to_md(&prs), format_contributors_to_md(&prs));
}

#[test]
fn items_formatted_in_order() {
    let prs = vec![pr("1", "a", 1, "alice", &[]), pr("2", "b", 2, "bob", &[])];
    assert_eq!(format_items_to_md(&prs, |p| format!("{};", p.number)), "1;2;");
}

#[test]
fn changelog_info_has_three_sections() {
    let prs = vec![pr("1", "Fix", 7, "alice", &["bug"])];
    let (prs_md, contributors, labels) = get_changelog_info(&prs);
    assert_eq!(prs_md, "- [Fix](https://example.com/org/proj/pulls/7)\n");
    assert_eq!(contributors, "- [@alice](https://example.com/alice)");
    assert_eq!(labels, "- bug\n");
}

#[test]
fn map_flattens_milestones_in_order() {
    let r = response(vec![
        milestone(vec![Some(node("a", "A", 1, Some("alice"), None)), Some(node("b", "B", 2, Some("bob"), None))]),
        milestone(vec![Some(node("c", "C", 3, Some("carol"), None))]),
    ]);
    let prs = match map_pull_request(&r) {
        Ok(prs) => prs,
        Err(_) => panic!("mapping failed"),
    };
    let ids: Vec<&str> = prs.iter().map(|p| p.id.as_str()).collect();
    assert_eq!(ids, vec!["a", "b", "c"]);
    assert_eq!(prs[2].number, 3);
    assert_eq!(prs[1].author.login, "bob");
    assert_eq!(format_pull_requests_to_md(&prs).lines().count(), 3);
}

#[test]
fn map_null_repository_fails() {
    let r = ResponseData { repository: None };
    assert_eq!(missing_field(map_pull_request(&r)), "repository");
}

#[test]
fn map_null_milestones_fails() {
    let r = ResponseData { repository: Some(Repository { milestones: None }) };
    assert_eq!(missing_field(map_pull_request(&r)), "repository.milestones");
}

#[test]
fn map_null_entries_fail() {
    let r = response(vec![milestone(vec![Some(node("a", "A", 1, Some("alice"), None))]), None]);
    assert_eq!(missing_field(map_pull_request(&r)), "repository.milestones.nodes[]");
    let r = response(vec![milestone(vec![Some(node("a", "A", 1, Some("alice"), None)), None])]);
    assert_eq!(
        missing_field(map_pull_request(&r)),
        "repository.milestones.nodes[].pullRequests.nodes[]"
    );
}

#[test]
fn map_null_lists_are_empty() {
    let r = ResponseData {
        repository: Some(Repository { milestones: Some(MilestoneConnection { total_count: 0, nodes: None }) }),
    };
    assert!(matches!(map_pull_request(&r), Ok(v) if v.is_empty()));
    let r = response(vec![Some(MilestoneNode { pull_requests: PullRequestConnection { nodes: None } })]);
    assert!(matches!(map_pull_request(&r), Ok(v) if v.is_empty()));
}

#[test]
fn map_null_labels_give_no_labels() {
    let r = response(vec![milestone(vec![Some(node("a", "A", 1, Some("alice"), None))])]);
    match map_pull_request(&r) {
        Ok(prs) => {
            assert_eq!(prs.len(), 1);
            assert!(prs[0].labels.is_empty());
        },
        Err(_) => panic!("mapping failed"),
    }
    let mut n = node("b", "B", 2, Some("bob"), None);
    n.labels = Some(LabelConnection { nodes: None });
    assert!(get_labels(&n).is_empty());
}

#[test]
fn labels_keep_order_and_skip_null_entries() {
    let n = node("a", "A", 1, Some("alice"), Some(vec![Some("bug"), None, Some("docs")]));
    let names: Vec<String> = get_labels(&n).into_iter().map(|l| l.name).collect();
    assert_eq!(names, vec!["bug", "docs"]);
}

#[test]
fn map_missing_author_fails_batch() {
    let r = response(vec![milestone(vec![
        Some(node("a", "A", 1, Some("alice"), None)),
        Some(node("b", "B", 2, None, None)),
        Some(node("c", "C", 3, None, None)),
    ])]);
    match map_pull_request(&r) {
        Err(MappingError::MissingAuthor(id)) => assert_eq!(id, "b"),
        _ => panic!("expected a missing author"),
    }
}

#[test]
fn map_first_failure_wins() {
    let r = response(vec![
        milestone(vec![Some(node("a", "A", 1, None, None))]),
        None,
    ]);
    assert!(matches!(map_pull_request(&r), Err(MappingError::MissingAuthor(id)) if id == "a"));
}

fn args() -> Args {
    Args {
        release: "v1.2".to_string(),
        owner: "org".to_string(),
        project: "proj".to_string(),
        github_token: "token".to_string(),
    }
}

#[test]
fn changelog_for_given_date() {
    let c = changelog_for_date(&args(), "p", "c", "l", Date { year: 2024, month: 5, day: 17 });
    assert_eq!((c.owner.as_str(), c.project.as_str(), c.release.as_str()), ("org", "proj", "v1.2"));
    assert_eq!((c.pull_requests.as_str(), c.contributors.as_str(), c.labels.as_str()), ("p", "c", "l"));
    assert_eq!((c.date.year, c.date.month, c.date.day), (2024, 5, 17));
}

#[test]
fn changelog_dated_today() {
    let c = create_changelog(&args(), "p", "c", "l");
    assert!((1..=12).contains(&c.date.month));
    assert!((1..=31).contains(&c.date.day));
    assert!(c.date.year >= 2024);
    assert_eq!(c.release, "v1.2");
    assert_eq!(c.pull_requests, "p");
}

#[test]
fn map_first_missing_author_across_milestones() {
    let r = response(vec![
        milestone(vec![Some(node("a", "A", 1, Some("alice"), None))]),
        milestone(vec![
            Some(node("b", "B", 2, Some("bob"), None)),
            Some(node("c", "C", 3, None, None)),
        ]),
        milestone(vec![Some(node("d", "D", 4, None, None))]),
    ]);
    assert!(matches!(map_pull_request(&r), Err(MappingError::MissingAuthor(id)) if id == "c"));
}
