//! Finding GitHub issue and pull request links in free text.

use vstd::prelude::*;
use vstd::string::*;
use crate::fetch::Item;
use crate::decimal::{is_numeral, numeral_value, parse_u64, parsed_u64};

verus! {

/// What a GitHub issue or pull request URL looks like; the groups `owner`,
/// `repo` and `number` name its parts, and group 3 is its kind.
pub const GITHUB_LINK_PATTERN: &'static str =
    r"https?://github\.com/(?P<owner>[\w-]+)/(?P<repo>[\w-]+)/(issues|pull)/(?P<number>\d+)";

/// The text of one match of a link pattern: owner, repo, kind and number.
pub struct LinkCapture {
    pub owner: String,
    pub repo: String,
    pub kind: String,
    pub number: String,
}

pub type CaptureView = (Seq<char>, Seq<char>, Seq<char>, Seq<char>);

impl View for LinkCapture {
    type V = CaptureView;

    open spec fn view(&self) -> CaptureView {
        (self.owner@, self.repo@, self.kind@, self.number@)
    }
}

/// What scanning `content` with the regular expression `pattern` finds:
/// `None` where the pattern does not compile, else the groups of each
/// successive non-overlapping match, left to right.
pub uninterp spec fn link_scan(pattern: Seq<char>, content: Seq<char>) -> Option<Seq<CaptureView>>;

pub open spec fn captures_view(v: Seq<LinkCapture>) -> Seq<CaptureView> {
    v.map_values(|c: LinkCapture| c@)
}

/// Relies on regex::Regex::new, which compiles the pattern, and on
/// Regex::captures_iter, which yields the matches in `content` left to right.
/// Indexing a match by group panics for a group that the pattern lacks, so
/// only the link pattern, which has all four, is admitted.
#[verifier::external_body]
fn scan_links(pattern: &str, content: &str) -> (r: Option<Vec<LinkCapture>>)
    requires
        pattern@ == GITHUB_LINK_PATTERN@,
    ensures
        r matches Some(v) ==> link_scan(pattern@, content@) == Some(captures_view(v@)),
        r is None ==> link_scan(pattern@, content@) is None,
{
    let re = regex::Regex::new(pattern).ok()?;
    let mut found = Vec::new();
    for c in re.captures_iter(content) {
        found.push(LinkCapture {
            owner: c["owner"].to_string(),
            repo: c["repo"].to_string(),
            kind: c[3].to_string(),
            number: c["number"].to_string(),
        });
    }
    Some(found)
}

#[derive(Clone, Copy, Debug, PartialEq, Eq, Structural)]
pub enum GitHubKind {
    Issue,
    PullRequest,
}

/// A parsed link to a GitHub issue or pull request.
#[derive(Debug)]
pub struct GitHubLink {
    pub owner: String,
    pub repo: String,
    pub kind: GitHubKind,
    pub number: u64,
}

pub struct LinkView {
    pub owner: Seq<char>,
    pub repo: Seq<char>,
    pub kind: GitHubKind,
    pub number: u64,
}

impl View for GitHubLink {
    type V = LinkView;

    open spec fn view(&self) -> LinkView {
        LinkView { owner: self.owner@, repo: self.repo@, kind: self.kind, number: self.number }
    }
}

pub open spec fn kind_named(word: Seq<char>) -> Option<GitHubKind> {
    if word == seq!['i', 's', 's', 'u', 'e', 's'] {
        Some(GitHubKind::Issue)
    } else if word == seq!['p', 'u', 'l', 'l'] {
        Some(GitHubKind::PullRequest)
    } else {
        None
    }
}

/// The link that one match stands for: none where its kind is unknown, or
/// its number is 0 or does not fit in 64 bits.
pub open spec fn link_of_capture(c: CaptureView) -> Option<LinkView> {
    match (kind_named(c.2), parsed_u64(c.3)) {
        (Some(kind), Some(number)) => if number >= 1 {
            Some(LinkView { owner: c.0, repo: c.1, kind, number })
        } else {
            None
        },
        _ => None,
    }
}

/// The links that successive matches stand for, in their order; a match that
/// stands for no link is passed over.
pub open spec fn links_of_captures(cs: Seq<CaptureView>) -> Seq<LinkView>
    decreases cs.len(),
{
    if cs.len() == 0 {
        Seq::empty()
    } else {
        let before = links_of_captures(cs.drop_last());
        match link_of_capture(cs.last()) {
            Some(l) => before.push(l),
            None => before,
        }
    }
}

/// The links found in `content`.
pub open spec fn links_in(content: Seq<char>) -> Seq<LinkView> {
    match link_scan(GITHUB_LINK_PATTERN@, content) {
        Some(cs) => links_of_captures(cs),
        None => Seq::empty(),
    }
}

pub open spec fn links_view(v: Seq<GitHubLink>) -> Seq<LinkView> {
    v.map_values(|l: GitHubLink| l@)
}

/// The link that one match stands for, if any.
pub fn link_from_capture(c: &LinkCapture) -> (r: Option<GitHubLink>)
    ensures
        r matches Some(l) ==> link_of_capture(c@) == Some(l@),
        r is None ==> link_of_capture(c@) is None,
{
    proof {
        reveal_strlit("issues");
        reveal_strlit("pull");
    }
    let issues = String::from_str("issues");
    let pull = String::from_str("pull");
    assert(issues@ =~= seq!['i', 's', 's', 'u', 'e', 's']);
    assert(pull@ =~= seq!['p', 'u', 'l', 'l']);
    let kind = if c.kind == issues {
        GitHubKind::Issue
    } else if c.kind == pull {
        GitHubKind::PullRequest
    } else {
        return None;
    };
    match parse_u64(c.number.as_str()) {
        Some(0) => None,
        Some(number) => Some(
            GitHubLink { owner: c.owner.clone(), repo: c.repo.clone(), kind, number },
        ),
        None => None,
    }
}

/// The links that successive matches stand for, in order.
pub fn links_from_captures(cs: &Vec<LinkCapture>) -> (r: Vec<GitHubLink>)
    ensures
        links_view(r@) == links_of_captures(captures_view(cs@)),
{
    let mut r: Vec<GitHubLink> = Vec::new();
    let mut i: usize = 0;
    while i < cs.len()
        invariant
            i <= cs.len(),
            links_view(r@) == links_of_captures(captures_view(cs@.subrange(0, i as int))),
        decreases cs.len() - i,
    {
        let ghost prefix = captures_view(cs@.subrange(0, i + 1));
        assert(prefix.drop_last() == captures_view(cs@.subrange(0, i as int)));
        assert(prefix.last() == cs@[i as int]@);
        match link_from_capture(&cs[i]) {
            Some(l) => {
                r.push(l);
                assert(links_view(r@) == links_of_captures(prefix));
            },
            None => {},
        }
        i = i + 1;
    }
    assert(cs@.subrange(0, cs.len() as int) == cs@);
    r
}

/// The GitHub issue and pull request links in `content`, in the order in
/// which they appear, each repetition kept.
pub fn extract_github_links(content: &str) -> (r: Vec<GitHubLink>)
    ensures
        links_view(r@) == links_in(content@),
{
    match scan_links(GITHUB_LINK_PATTERN, content) {
        Some(cs) => links_from_captures(&cs),
        None => Vec::new(),
    }
}

impl Item {
    /// The GitHub issue and pull request links in this completion's text.
    pub fn extract_github_links(&self) -> (r: Vec<GitHubLink>)
        ensures
            links_view(r@) == links_in(self.content@),
    {
        extract_github_links(self.content.as_str())
    }
}

/// Matches are read one by one and in order: the links found in two runs of
/// matches, one after the other, are those of the first run followed by those
/// of the second.
pub proof fn lemma_links_follow_match_order(a: Seq<CaptureView>, b: Seq<CaptureView>)
    ensures
        links_of_captures(a + b) == links_of_captures(a) + links_of_captures(b),
    decreases b.len(),
{
    if b.len() == 0 {
        assert(a + b == a);
        assert(links_of_captures(a) + links_of_captures(b) == links_of_captures(a));
    } else {
        lemma_links_follow_match_order(a, b.drop_last());
        assert((a + b).drop_last() == a + b.drop_last());
        assert((a + b).last() == b.last());
    }
}

/// The same link written twice gives two equal links.
pub proof fn lemma_repeated_link_kept(c: CaptureView)
    requires
        link_of_capture(c) is Some,
    ensures
        links_of_captures(seq![c, c]) == seq![link_of_capture(c)->0, link_of_capture(c)->0],
{
    let l = link_of_capture(c)->0;
    assert(seq![c, c].drop_last() == seq![c]);
    assert(seq![c].drop_last() == Seq::<CaptureView>::empty());
    assert(seq![c].last() == c);
    assert(links_of_captures(Seq::<CaptureView>::empty()) == Seq::<LinkView>::empty());
    assert(links_of_captures(seq![c]) =~= seq![l]);
    assert(seq![c, c].last() == c);
    assert(seq![l].push(l) == seq![l, l]);
}

/// There are never more links than matches; text with no match has no link.
pub proof fn lemma_no_more_links_than_matches(cs: Seq<CaptureView>)
    ensures
        links_of_captures(cs).len() <= cs.len(),
    decreases cs.len(),
{
    if cs.len() > 0 {
        lemma_no_more_links_than_matches(cs.drop_last());
    }
}

/// Text in which the pattern finds nothing has no links.
pub proof fn lemma_no_match_no_links(content: Seq<char>)
    requires
        link_scan(GITHUB_LINK_PATTERN@, content) matches Some(cs) ==> cs.len() == 0,
    ensures
        links_in(content) == Seq::<LinkView>::empty(),
{
    if let Some(cs) = link_scan(GITHUB_LINK_PATTERN@, content) {
        lemma_no_more_links_than_matches(cs);
    }
}

/// A match whose number does not fit in 64 bits adds no link.
pub proof fn lemma_oversized_number_dropped(cs: Seq<CaptureView>, c: CaptureView)
    requires
        numeral_value(c.3) > u64::MAX,
    ensures
        links_of_captures(cs.push(c)) == links_of_captures(cs),
{
    assert(cs.push(c).drop_last() == cs);
}

/// Every link found comes from a match whose digits are a decimal numeral
/// with exactly the link's number as value, and that number lies between 1
/// and `u64::MAX`: a number out of that range gives no link.
pub proof fn lemma_link_numbers_in_range(cs: Seq<CaptureView>)
    ensures
        forall|k: int|
            0 <= k < links_of_captures(cs).len() ==> exists|i: int|
                0 <= i < cs.len() && link_of_capture(#[trigger] cs[i]) == Some(
                    #[trigger] links_of_captures(cs)[k],
                ) && is_numeral(cs[i].3) && numeral_value(cs[i].3) == links_of_captures(cs)[k].number
                    && 1 <= links_of_captures(cs)[k].number <= u64::MAX,
    decreases cs.len(),
{
    if cs.len() > 0 {
        let c0 = cs.drop_last();
        lemma_link_numbers_in_range(c0);
        let ls = links_of_captures(cs);
        let l0 = links_of_captures(c0);
        assert forall|k: int| 0 <= k < ls.len() implies exists|i: int|
            0 <= i < cs.len() && link_of_capture(#[trigger] cs[i]) == Some(#[trigger] ls[k]) && is_numeral(
                cs[i].3,
            ) && numeral_value(cs[i].3) == ls[k].number && 1 <= ls[k].number <= u64::MAX by {
            if k < l0.len() {
                assert(ls[k] == l0[k]);
                let i = choose|i: int|
                    0 <= i < c0.len() && link_of_capture(#[trigger] c0[i]) == Some(l0[k])
                        && is_numeral(c0[i].3) && numeral_value(c0[i].3) == l0[k].number && 1
                        <= l0[k].number <= u64::MAX;
                assert(cs[i] == c0[i]);
            } else {
                let i = cs.len() - 1;
                assert(cs[i] == cs.last());
            }
        }
    }
}

} // verus!
