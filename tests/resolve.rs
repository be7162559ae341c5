use status_update::links::extract_github_links;
use status_update::resolve::{
    link_label, resolve_github_titles, resolve_link, RemoteRecord, SkipReason,
};

fn issue(title: &str, url: &str) -> Result<RemoteRecord, String> {
    Ok(RemoteRecord::Issue { title: title.to_string(), url: url.to_string() })
}

#[test]
fn label_names_owner_repo_and_number() {
    let links = extract_github_links("https://github.com/acme/widget/issues/42");
    assert_eq!(link_label(&links[0]), "acme/widget#42");
}

#[test]
fn issue_resolves() {
    let links = extract_github_links("https://github.com/acme/widget/issues/42");
    let w = resolve_link(
        &links[0],
        issue("Widget breaks", "https://github.com/acme/widget/issues/42"),
    )
    .unwrap();
    assert_eq!(w.label, "acme/widget#42");
    assert_eq!(w.url, "https://github.com/acme/widget/issues/42");
    assert_eq!(w.title, "Widget breaks");
}

#[test]
fn pull_request_resolves() {
    let links = extract_github_links("https://github.com/acme/widget/pull/7");
    let w = resolve_link(
        &links[0],
        Ok(RemoteRecord::PullRequest {
            title: Some("Fix it".to_string()),
            url: Some("https://github.com/acme/widget/pull/7".to_string()),
        }),
    )
    .unwrap();
    assert_eq!(w.label, "acme/widget#7");
    assert_eq!(w.title, "Fix it");
}

#[test]
fn pull_request_without_title_is_skipped() {
    let links = extract_github_links("https://github.com/acme/widget/pull/7");
    let r = resolve_link(
        &links[0],
        Ok(RemoteRecord::PullRequest {
            title: None,
            url: Some("https://github.com/acme/widget/pull/7".to_string()),
        }),
    );
    assert!(matches!(r, Err(SkipReason::MissingTitle)));
}

#[test]
fn pull_request_without_url_is_skipped() {
    let links = extract_github_links("https://github.com/acme/widget/pull/7");
    let r = resolve_link(
        &links[0],
        Ok(RemoteRecord::PullRequest { title: Some("Fix it".to_string()), url: None }),
    );
    assert!(matches!(r, Err(SkipReason::MissingUrl)));
}

#[test]
fn failed_lookup_is_skipped() {
    let links = extract_github_links("https://github.com/acme/widget/issues/42");
    let r = resolve_link(&links[0], Err("404 Not Found".to_string()));
    match r {
        Err(SkipReason::FetchFailed(e)) => assert_eq!(e, "404 Not Found"),
        _ => panic!("expected a failed lookup"),
    }
}

#[test]
fn one_failed_lookup_leaves_the_others() {
    let links = extract_github_links(
        "https://github.com/acme/widget/issues/1 https://github.com/acme/widget/issues/2",
    );
    let fetched = vec![
        Err("404 Not Found".to_string()),
        issue("Second", "https://github.com/acme/widget/issues/2"),
    ];
    let items = resolve_github_titles(&links, fetched);
    assert_eq!(items.len(), 1);
    assert_eq!(items[0].label, "acme/widget#2");
    assert_eq!(items[0].title, "Second");
}

#[test]
fn resolved_items_keep_link_order() {
    let links = extract_github_links(
        "https://github.com/a/b/issues/3 https://github.com/a/b/pull/1 https://github.com/a/b/issues/2",
    );
    let fetched = vec![
        issue("three", "u3"),
        Ok(RemoteRecord::PullRequest { title: None, url: None }),
        issue("two", "u2"),
    ];
    let items = resolve_github_titles(&links, fetched);
    let labels: Vec<&str> = items.iter().map(|w| w.label.as_str()).collect();
    assert_eq!(labels, vec!["a/b#3", "a/b#2"]);
}
