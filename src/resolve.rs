//! Turning what GitHub reports about each linked issue or pull request into
//! report lines, passing over the links that could not be resolved.

use vstd::prelude::*;
use vstd::string::*;
use crate::decimal::{decimal_of, decimal_string};
use crate::links::{GitHubKind, GitHubLink, LinkView, links_view};

verus! {

/// What GitHub holds for the issue or pull request that a link names; a pull
/// request may lack a title or a web URL.
#[allow(inconsistent_fields)]
pub enum RemoteRecord {
    Issue { title: String, url: String },
    PullRequest { title: Option<String>, url: Option<String> },
}

/// Why a link was left out of the report.
#[derive(Debug)]
pub enum SkipReason {
    /// The lookup itself failed (not found, rate limit, authentication, ...).
    FetchFailed(String),
    /// The pull request has no title.
    MissingTitle,
    /// The pull request has no web URL.
    MissingUrl,
}

/// A resolved issue or pull request, ready to print under its task.
#[derive(Debug)]
pub struct GitHubWorkItem {
    /// link to the GitHub page for this item
    pub url: String,
    /// title of the item
    pub title: String,
    /// human-readable summary of the item: `owner/repo#123`
    pub label: String,
}

pub struct WorkItemView {
    pub url: Seq<char>,
    pub title: Seq<char>,
    pub label: Seq<char>,
}

impl View for GitHubWorkItem {
    type V = WorkItemView;

    open spec fn view(&self) -> WorkItemView {
        WorkItemView { url: self.url@, title: self.title@, label: self.label@ }
    }
}

/// `owner/repo#number`.
pub open spec fn label_of(l: LinkView) -> Seq<char> {
    l.owner + seq!['/'] + l.repo + seq!['#'] + decimal_of(l.number as nat)
}

/// The report line that a lookup's answer gives for link `l`, if any.
pub open spec fn resolution_of(l: LinkView, fetched: Result<RemoteRecord, String>) -> Option<
    WorkItemView,
> {
    match fetched {
        Ok(RemoteRecord::Issue { title, url }) => Some(
            WorkItemView { url: url@, title: title@, label: label_of(l) },
        ),
        Ok(RemoteRecord::PullRequest { title: Some(title), url: Some(url) }) => Some(
            WorkItemView { url: url@, title: title@, label: label_of(l) },
        ),
        _ => None,
    }
}

/// The label under which a link is reported.
pub fn link_label(link: &GitHubLink) -> (r: String)
    ensures
        r@ == label_of(link@),
{
    proof {
        reveal_strlit("/");
        reveal_strlit("#");
    }
    let mut r = link.owner.clone();
    r.append("/");
    r.append(link.repo.as_str());
    r.append("#");
    let n = decimal_string(link.number);
    r.append(n.as_str());
    assert(r@ =~= label_of(link@));
    r
}

/// Decides what one lookup gives: the item to report, or why the link is
/// passed over. A pull request needs both a title and a URL.
pub fn resolve_link(link: &GitHubLink, fetched: Result<RemoteRecord, String>) -> (r: Result<
    GitHubWorkItem,
    SkipReason,
>)
    ensures
        r matches Ok(w) ==> resolution_of(link@, fetched) == Some(w@),
        r is Err ==> resolution_of(link@, fetched) is None,
        fetched is Err <==> r matches Err(SkipReason::FetchFailed(_)),
        fetched matches Err(f) ==> r == Err::<GitHubWorkItem, SkipReason>(
            SkipReason::FetchFailed(f),
        ),
        r matches Err(SkipReason::MissingTitle) <==> fetched matches Ok(
            RemoteRecord::PullRequest { title: None, .. },
        ),
        r matches Err(SkipReason::MissingUrl) <==> fetched matches Ok(
            RemoteRecord::PullRequest { title: Some(_), url: None },
        ),
{
    match fetched {
        Err(e) => Err(SkipReason::FetchFailed(e)),
        Ok(RemoteRecord::Issue { title, url }) => Ok(
            GitHubWorkItem { url, title, label: link_label(link) },
        ),
        Ok(RemoteRecord::PullRequest { title, url }) => match title {
            None => Err(SkipReason::MissingTitle),
            Some(title) => match url {
                None => Err(SkipReason::MissingUrl),
                Some(url) => Ok(GitHubWorkItem { url, title, label: link_label(link) }),
            },
        },
    }
}

/// The report lines for successive links, given what each lookup answered:
/// the resolved ones, in the order of their links.
pub open spec fn resolutions_of(
    links: Seq<LinkView>,
    fetched: Seq<Result<RemoteRecord, String>>,
) -> Seq<WorkItemView>
    decreases links.len(),
{
    if links.len() == 0 || fetched.len() == 0 {
        Seq::empty()
    } else {
        let before = resolutions_of(links.drop_last(), fetched.drop_last());
        match resolution_of(links.last(), fetched.last()) {
            Some(w) => before.push(w),
            None => before,
        }
    }
}

pub open spec fn work_items_view(v: Seq<GitHubWorkItem>) -> Seq<WorkItemView> {
    v.map_values(|w: GitHubWorkItem| w@)
}

/// Resolves each link with the answer at the same place in `fetched`, and
/// keeps the ones that resolved, in order. A failed lookup leaves out its own
/// link and nothing else.
pub fn resolve_github_titles(
    links: &Vec<GitHubLink>,
    fetched: Vec<Result<RemoteRecord, String>>,
) -> (r: Vec<GitHubWorkItem>)
    requires
        links.len() == fetched.len(),
    ensures
        work_items_view(r@) == resolutions_of(links_view(links@), fetched@),
{
    let ghost all = fetched@;
    let mut rest = fetched;
    let mut r: Vec<GitHubWorkItem> = Vec::new();
    let mut i: usize = 0;
    while i < links.len()
        invariant
            links.len() == all.len(),
            i <= links.len(),
            rest@ == all.subrange(i as int, all.len() as int),
            work_items_view(r@) == resolutions_of(
                links_view(links@.subrange(0, i as int)),
                all.subrange(0, i as int),
            ),
        decreases links.len() - i,
    {
        let f = rest.remove(0);
        let ghost ls = links_view(links@.subrange(0, i + 1));
        let ghost fs = all.subrange(0, i + 1);
        assert(ls.drop_last() == links_view(links@.subrange(0, i as int)));
        assert(fs.drop_last() == all.subrange(0, i as int));
        assert(ls.last() == links@[i as int]@);
        assert(f == fs.last());
        match resolve_link(&links[i], f) {
            Ok(w) => {
                r.push(w);
                assert(work_items_view(r@) =~= resolutions_of(ls, fs));
            },
            Err(_) => {},
        }
        i = i + 1;
    }
    assert(links@.subrange(0, links.len() as int) == links@);
    assert(all.subrange(0, links.len() as int) == all);
    r
}

} // verus!
