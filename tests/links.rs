use status_update::decimal::{decimal_string, parse_u64};
use status_update::fetch::Item;
use status_update::links::{extract_github_links, GitHubKind};

#[test]
fn extracts_one_issue_link() {
    let links = extract_github_links("Fixed https://github.com/acme/widget/issues/42");
    assert_eq!(links.len(), 1);
    assert_eq!(links[0].owner, "acme");
    assert_eq!(links[0].repo, "widget");
    assert_eq!(links[0].kind, GitHubKind::Issue);
    assert_eq!(links[0].number, 42);
}

#[test]
fn repeated_link_gives_two_equal_links() {
    let url = "https://github.com/oxidecomputer/omicron/pull/7000";
    let links = extract_github_links(&format!("{} and again {}", url, url));
    assert_eq!(links.len(), 2);
    for l in &links {
        assert_eq!(l.owner, "oxidecomputer");
        assert_eq!(l.repo, "omicron");
        assert_eq!(l.kind, GitHubKind::PullRequest);
        assert_eq!(l.number, 7000);
    }
}

#[test]
fn links_keep_text_order() {
    let links = extract_github_links(
        "see http://github.com/a-b/c_d/pull/5, then https://github.com/x/y/issues/6",
    );
    assert_eq!(links.len(), 2);
    assert_eq!((links[0].owner.as_str(), links[0].repo.as_str()), ("a-b", "c_d"));
    assert_eq!(links[0].kind, GitHubKind::PullRequest);
    assert_eq!(links[0].number, 5);
    assert_eq!((links[1].owner.as_str(), links[1].repo.as_str()), ("x", "y"));
    assert_eq!(links[1].kind, GitHubKind::Issue);
    assert_eq!(links[1].number, 6);
}

#[test]
fn text_without_links_gives_none() {
    assert!(extract_github_links("").is_empty());
    assert!(extract_github_links("review the design doc").is_empty());
    assert!(extract_github_links("https://gitlab.com/acme/widget/issues/42").is_empty());
    assert!(extract_github_links("https://github.com/acme/widget/commits/42").is_empty());
}

#[test]
fn oversized_number_is_dropped() {
    let links = extract_github_links(
        "https://github.com/a/b/issues/99999999999999999999 https://github.com/a/b/issues/7",
    );
    assert_eq!(links.len(), 1);
    assert_eq!(links[0].number, 7);
}

#[test]
fn largest_number_is_kept() {
    let links = extract_github_links("https://github.com/a/b/pull/18446744073709551615");
    assert_eq!(links.len(), 1);
    assert_eq!(links[0].number, u64::MAX);
}

#[test]
fn non_ascii_digits_are_dropped() {
    let links = extract_github_links("https://github.com/a/b/issues/\u{0661}\u{0662}");
    assert!(links.is_empty());
}

#[test]
fn item_method_reads_its_content() {
    let item = Item {
        content: "Fixed https://github.com/acme/widget/issues/42".to_string(),
        task_id: "t1".to_string(),
        project_id: "p1".to_string(),
    };
    let links = item.extract_github_links();
    assert_eq!(links.len(), 1);
    assert_eq!(links[0].number, 42);
}

#[test]
fn parses_decimal_numerals() {
    assert_eq!(parse_u64("0"), Some(0));
    assert_eq!(parse_u64("42"), Some(42));
    assert_eq!(parse_u64("007"), Some(7));
    assert_eq!(parse_u64("18446744073709551615"), Some(u64::MAX));
    assert_eq!(parse_u64("18446744073709551616"), None);
    assert_eq!(parse_u64(""), None);
    assert_eq!(parse_u64("12a"), None);
    assert_eq!(parse_u64("+5"), None);
}

#[test]
fn writes_decimal_numerals() {
    assert_eq!(decimal_string(0), "0");
    assert_eq!(decimal_string(9), "9");
    assert_eq!(decimal_string(42), "42");
    assert_eq!(decimal_string(1000), "1000");
    assert_eq!(decimal_string(u64::MAX), u64::MAX.to_string());
}

#[test]
fn zero_number_gives_no_link() {
    assert!(extract_github_links("https://github.com/a/b/issues/0").is_empty());
    assert!(extract_github_links("https://github.com/a/b/pull/000").is_empty());
    let links = extract_github_links("https://github.com/a/b/issues/0 https://github.com/a/b/issues/10");
    assert_eq!(links.len(), 1);
    assert_eq!(links[0].number, 10);
}
