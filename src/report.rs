//! Splitting the grouped completions into the primary project's section and
//! the section of other work, each task reported once.

use vstd::prelude::*;
use crate::fetch::{GroupView, Item, ItemView, ProjectGroup, groups_view, items_view};

verus! {

/// Names of the project that heads the report start with this.
pub const PRIMARY_PROJECT_PREFIX: &'static str = "Oxide: Reconfigurator";

/// Names of the projects that the report covers start with this.
pub const ORGANIZATION_PREFIX: &'static str = "Oxide";

pub open spec fn is_prefix_of(p: Seq<char>, s: Seq<char>) -> bool {
    p.len() <= s.len() && s.subrange(0, p.len() as int) == p
}

/// Whether `s` starts with `prefix`.
pub fn starts_with(s: &str, prefix: &str) -> (r: bool)
    ensures
        r == is_prefix_of(prefix@, s@),
{
    let n = prefix.unicode_len();
    let m = s.unicode_len();
    if n > m {
        return false;
    }
    let mut i: usize = 0;
    while i < n
        invariant
            n == prefix@.len(),
            m == s@.len(),
            n <= m,
            i <= n,
            forall|k: int| 0 <= k < i ==> s@[k] == prefix@[k],
        decreases n - i,
    {
        if s.get_char(i) != prefix.get_char(i) {
            assert(s@.subrange(0, n as int)[i as int] != prefix@[i as int]);
            return false;
        }
        i = i + 1;
    }
    assert(s@.subrange(0, n as int) =~= prefix@);
    true
}

/// How many groups have a name that starts with `p`.
pub open spec fn matching_count(gs: Seq<GroupView>, p: Seq<char>) -> nat
    decreases gs.len(),
{
    if gs.len() == 0 {
        0
    } else {
        matching_count(gs.drop_last(), p) + if is_prefix_of(p, gs.last().0) {
            1nat
        } else {
            0nat
        }
    }
}

/// The group whose name starts with `p`, where there is exactly one.
pub open spec fn primary_index(gs: Seq<GroupView>, p: Seq<char>) -> int {
    choose|k: int| 0 <= k < gs.len() && is_prefix_of(p, #[trigger] gs[k].0)
}

/// The completions of the groups other than the one at `primary` whose name
/// starts with `org`, group after group.
pub open spec fn other_stream(gs: Seq<GroupView>, primary: int, org: Seq<char>) -> Seq<ItemView>
    decreases gs.len(),
{
    if gs.len() == 0 {
        Seq::empty()
    } else {
        let before = other_stream(gs.drop_last(), primary, org);
        if gs.len() - 1 != primary && is_prefix_of(org, gs.last().0) {
            before + gs.last().1
        } else {
            before
        }
    }
}

pub open spec fn task_ids(s: Seq<ItemView>) -> Seq<Seq<char>> {
    s.map_values(|i: ItemView| i.task_id)
}

/// The completions of `s` whose task appears neither in `prior` nor earlier
/// in `s`: the first completion of each task not reported before.
pub open spec fn first_completions(prior: Seq<ItemView>, s: Seq<ItemView>) -> Seq<ItemView>
    decreases s.len(),
{
    if s.len() == 0 {
        Seq::empty()
    } else {
        let before = first_completions(prior, s.drop_last());
        if task_ids(prior + s.drop_last()).contains(s.last().task_id) {
            before
        } else {
            before.push(s.last())
        }
    }
}

/// The two sections of the report.
#[derive(Debug)]
pub struct Report {
    /// name of the project that heads the report
    pub primary_project: String,
    /// its completions, each task once
    pub primary: Vec<Item>,
    /// completions of the organization's other projects, leaving out every
    /// task already reported
    pub other: Vec<Item>,
}

#[derive(Clone, Copy, Debug, PartialEq, Eq, Structural)]
pub enum ReportError {
    /// No project name starts with the primary prefix.
    NoPrimaryProject,
    /// Two or more project names start with the primary prefix.
    AmbiguousPrimaryProject,
}

proof fn lemma_two_matches(gs: Seq<GroupView>, p: Seq<char>, i: int, j: int)
    requires
        0 <= i < gs.len(),
        0 <= j < gs.len(),
        i != j,
        is_prefix_of(p, gs[i].0),
        is_prefix_of(p, gs[j].0),
    ensures
        matching_count(gs, p) >= 2,
    decreases gs.len(),
{
    let last = gs.len() - 1;
    if i != last && j != last {
        lemma_two_matches(gs.drop_last(), p, i, j);
    } else {
        let k = if i == last { j } else { i };
        lemma_one_match(gs.drop_last(), p, k);
    }
}

proof fn lemma_one_match(gs: Seq<GroupView>, p: Seq<char>, i: int)
    requires
        0 <= i < gs.len(),
        is_prefix_of(p, gs[i].0),
    ensures
        matching_count(gs, p) >= 1,
    decreases gs.len(),
{
    if i != gs.len() - 1 {
        lemma_one_match(gs.drop_last(), p, i);
    }
}

/// Whether `t` is among `seen`.
fn contains_task(seen: &Vec<String>, t: &String) -> (r: bool)
    ensures
        r == seen@.map_values(|s: String| s@).contains(t@),
{
    let ghost v = seen@.map_values(|s: String| s@);
    let mut i: usize = 0;
    while i < seen.len()
        invariant
            i <= seen.len(),
            v == seen@.map_values(|s: String| s@),
            forall|k: int| 0 <= k < i ==> v[k] != t@,
        decreases seen.len() - i,
    {
        if seen[i] == *t {
            assert(v[i as int] == t@);
            return true;
        }
        i = i + 1;
    }
    false
}

/// Keeps the first completion of each task not yet in `seen`, and adds the
/// tasks of `stream` to `seen`.
fn keep_first_completions(stream: Vec<Item>, seen: &mut Vec<String>, Ghost(prior): Ghost<
    Seq<ItemView>,
>) -> (r: Vec<Item>)
    requires
        old(seen)@.map_values(|s: String| s@) == task_ids(prior),
    ensures
        final(seen)@.map_values(|s: String| s@) == task_ids(prior + items_view(stream@)),
        items_view(r@) == first_completions(prior, items_view(stream@)),
{
    let ghost all = items_view(stream@);
    let n = stream.len();
    let mut rest = stream;
    let mut r: Vec<Item> = Vec::new();
    let mut i: usize = 0;
    while i < n
        invariant
            n == all.len(),
            i <= n,
            rest@.len() == n - i,
            items_view(rest@) == all.subrange(i as int, n as int),
            seen@.map_values(|s: String| s@) == task_ids(prior + all.subrange(0, i as int)),
            items_view(r@) == first_completions(prior, all.subrange(0, i as int)),
        decreases n - i,
    {
        let ghost rest_before = rest@;
        let ghost seen_before = seen@;
        assert(items_view(rest_before)[0] == rest_before[0]@);
        let item = rest.remove(0);
        assert forall|j: int| 0 <= j < rest@.len() implies #[trigger] items_view(rest@)[j]
            == all[i + 1 + j] by {
            assert(rest@[j] == rest_before[j + 1]);
            assert(items_view(rest_before)[j + 1] == all.subrange(i as int, n as int)[j + 1]);
        }
        assert(items_view(rest@) =~= all.subrange(i + 1, n as int));
        let ghost pre = all.subrange(0, i + 1);
        assert(pre.drop_last() == all.subrange(0, i as int));
        assert(item@ == all[i as int]);
        assert(pre.last() == item@);
        let known = contains_task(seen, &item.task_id);
        let tid = item.task_id.clone();
        seen.push(tid);
        assert(prior + pre =~= (prior + all.subrange(0, i as int)).push(item@));
        assert(task_ids(prior + pre) =~= task_ids(prior + all.subrange(0, i as int)).push(
            item@.task_id,
        ));
        assert(seen@.map_values(|s: String| s@) =~= seen_before.map_values(|s: String| s@).push(
            tid@,
        ));
        if !known {
            r.push(item);
            assert(items_view(r@) =~= first_completions(prior, pre));
        }
        i = i + 1;
    }
    assert(all.subrange(0, n as int) == all);
    r
}

/// Splits the groups into the report's two sections. The primary project is
/// the one group whose name starts with `primary_prefix`; the other work is
/// the completions of every other group whose name starts with `org_prefix`,
/// group after group. A task is reported at its first completion, across both
/// sections together.
pub fn build_report(groups: Vec<ProjectGroup>, primary_prefix: &str, org_prefix: &str) -> (r:
    Result<Report, ReportError>)
    ensures
        ({
            let gs = groups_view(groups@);
            let count = matching_count(gs, primary_prefix@);
            let k = primary_index(gs, primary_prefix@);
            &&& r == Err::<Report, ReportError>(ReportError::NoPrimaryProject) <==> count == 0
            &&& r == Err::<Report, ReportError>(ReportError::AmbiguousPrimaryProject) <==> count
                >= 2
            &&& r matches Ok(rep) ==> {
                &&& count == 1
                &&& rep.primary_project@ == gs[k].0
                &&& items_view(rep.primary@) == first_completions(Seq::empty(), gs[k].1)
                &&& items_view(rep.other@) == first_completions(
                    gs[k].1,
                    other_stream(gs, k, org_prefix@),
                )
            }
        }),
{
    let ghost gs = groups_view(groups@);
    let n = groups.len();
    let mut count: usize = 0;
    let mut first: usize = 0;
    let mut i: usize = 0;
    while i < n
        invariant
            n == groups.len(),
            gs == groups_view(groups@),
            i <= n,
            count <= i,
            count == matching_count(gs.subrange(0, i as int), primary_prefix@),
            count > 0 ==> first < i && is_prefix_of(primary_prefix@, gs[first as int].0),
            count == 1 ==> forall|j: int|
                0 <= j < i && j != first ==> !is_prefix_of(primary_prefix@, #[trigger] gs[j].0),
        decreases n - i,
    {
        let ghost pre = gs.subrange(0, i + 1);
        assert(pre.drop_last() == gs.subrange(0, i as int));
        assert(pre.last() == gs[i as int]);
        if starts_with(groups[i].name.as_str(), primary_prefix) {
            if count == 0 {
                proof {
                    assert forall|j: int| 0 <= j < i implies !is_prefix_of(
                        primary_prefix@,
                        #[trigger] gs[j].0,
                    ) by {
                        if is_prefix_of(primary_prefix@, gs[j].0) {
                            assert(gs.subrange(0, i as int)[j] == gs[j]);
                            lemma_one_match(gs.subrange(0, i as int), primary_prefix@, j);
                        }
                    }
                }
                first = i;
            }
            count = count + 1;
        }
        i = i + 1;
    }
    assert(gs.subrange(0, n as int) == gs);
    if count == 0 {
        return Err(ReportError::NoPrimaryProject);
    }
    if count >= 2 {
        return Err(ReportError::AmbiguousPrimaryProject);
    }
    let k = first;
    proof {
        let c = primary_index(gs, primary_prefix@);
        if c != k {
            lemma_two_matches(gs, primary_prefix@, c, k as int);
        }
    }
    let mut rest = groups;
    let mut primary_name = String::new();
    let mut primary_items: Vec<Item> = Vec::new();
    let mut other_items: Vec<Item> = Vec::new();
    let mut j: usize = 0;
    while j < n
        invariant
            n == gs.len(),
            k < n,
            j <= n,
            rest@.len() == n - j,
            groups_view(rest@) == gs.subrange(j as int, n as int),
            j > k ==> primary_name@ == gs[k as int].0 && items_view(primary_items@) == gs[k as int].1,
            items_view(other_items@) == other_stream(gs.subrange(0, j as int), k as int, org_prefix@),
        decreases n - j,
    {
        let ghost rest_before = rest@;
        assert(groups_view(rest_before)[0] == gs[j as int]);
        let g = rest.remove(0);
        assert forall|t: int| 0 <= t < rest@.len() implies #[trigger] groups_view(rest@)[t]
            == gs[j + 1 + t] by {
            assert(rest@[t] == rest_before[t + 1]);
            assert(groups_view(rest_before)[t + 1] == gs.subrange(j as int, n as int)[t + 1]);
        }
        assert(groups_view(rest@) =~= gs.subrange(j + 1, n as int));
        let ghost pre = gs.subrange(0, j + 1);
        assert(pre.drop_last() == gs.subrange(0, j as int));
        assert(pre.last() == gs[j as int]);
        let ProjectGroup { name, items } = g;
        if j == k {
            primary_name = name;
            primary_items = items;
        } else if starts_with(name.as_str(), org_prefix) {
            let mut items = items;
            other_items.append(&mut items);
            assert(items_view(other_items@) =~= other_stream(pre, k as int, org_prefix@));
        }
        j = j + 1;
    }
    assert(gs.subrange(0, n as int) == gs);
    let mut seen: Vec<String> = Vec::new();
    assert(seen@.map_values(|s: String| s@) =~= task_ids(Seq::empty()));
    let primary = keep_first_completions(primary_items, &mut seen, Ghost(Seq::empty()));
    assert(Seq::<ItemView>::empty() + gs[k as int].1 =~= gs[k as int].1);
    let other = keep_first_completions(other_items, &mut seen, Ghost(gs[k as int].1));
    Ok(Report { primary_project: primary_name, primary, other })
}

/// Of the completions `s` that follow `prior`, those kept are each the first
/// of a task that `prior` does not hold; no two of them share a task; and
/// every task of `s` that `prior` does not hold is among them.
pub proof fn lemma_first_completions_once(prior: Seq<ItemView>, s: Seq<ItemView>)
    ensures
        forall|i: int|
            0 <= i < first_completions(prior, s).len() ==> task_ids(s).contains(
                #[trigger] first_completions(prior, s)[i].task_id,
            ) && !task_ids(prior).contains(first_completions(prior, s)[i].task_id),
        forall|i: int, j: int|
            0 <= i < j < first_completions(prior, s).len() ==> #[trigger] first_completions(
                prior,
                s,
            )[i].task_id != #[trigger] first_completions(prior, s)[j].task_id,
        forall|t: Seq<char>|
            #[trigger] task_ids(s).contains(t) && !task_ids(prior).contains(t) ==> task_ids(
                first_completions(prior, s),
            ).contains(t),
    decreases s.len(),
{
    let d = first_completions(prior, s);
    if s.len() > 0 {
        let s0 = s.drop_last();
        let x = s.last();
        let d0 = first_completions(prior, s0);
        lemma_first_completions_once(prior, s0);
        assert forall|t: Seq<char>| task_ids(s0).contains(t) implies task_ids(s).contains(t) by {
            let w = choose|w: int| 0 <= w < task_ids(s0).len() && task_ids(s0)[w] == t;
            assert(task_ids(s)[w] == t);
        }
        assert(task_ids(s)[s.len() - 1] == x.task_id);
        let seen = task_ids(prior + s0);
        assert forall|t: Seq<char>| seen.contains(t) implies task_ids(prior).contains(t)
            || task_ids(s0).contains(t) by {
            let w = choose|w: int| 0 <= w < seen.len() && seen[w] == t;
            if w < prior.len() {
                assert(task_ids(prior)[w] == t);
            } else {
                assert(task_ids(s0)[w - prior.len()] == t);
            }
        }
        assert forall|t: Seq<char>| task_ids(prior).contains(t) implies seen.contains(t) by {
            let w = choose|w: int| 0 <= w < task_ids(prior).len() && task_ids(prior)[w] == t;
            assert(seen[w] == t);
        }
        assert forall|t: Seq<char>| task_ids(s0).contains(t) implies seen.contains(t) by {
            let w = choose|w: int| 0 <= w < task_ids(s0).len() && task_ids(s0)[w] == t;
            assert(seen[prior.len() + w] == t);
        }
        assert forall|t: Seq<char>| #[trigger]
            task_ids(s).contains(t) && !task_ids(prior).contains(t) implies task_ids(d).contains(
            t,
        ) by {
            let w = choose|w: int| 0 <= w < task_ids(s).len() && task_ids(s)[w] == t;
            if w < s.len() - 1 {
                assert(s0[w] == s[w]);
                assert(task_ids(s0)[w] == t);
                assert(task_ids(s0).contains(t));
                assert(task_ids(d0).contains(t));
                let v = choose|v: int| 0 <= v < task_ids(d0).len() && task_ids(d0)[v] == t;
                assert(task_ids(d)[v] == t);
            } else if seen.contains(x.task_id) {
                assert(t == x.task_id);
                assert(seen.contains(t));
                assert(task_ids(s0).contains(t));
                assert(task_ids(d0).contains(t));
                assert(d == d0);
            } else {
                assert(task_ids(d)[d.len() - 1] == t);
            }
        }
    }
}

/// Across the report's two sections together, no task appears twice, and
/// every task of the primary project's completions and of the other work
/// appears.
pub proof fn lemma_report_names_each_task_once(primary: Seq<ItemView>, other: Seq<ItemView>)
    ensures
        ({
            let both = first_completions(Seq::empty(), primary) + first_completions(primary, other);
            &&& forall|i: int, j: int|
                0 <= i < j < both.len() ==> #[trigger] both[i].task_id != #[trigger] both[j].task_id
            &&& forall|t: Seq<char>|
                #[trigger] task_ids(primary + other).contains(t) ==> task_ids(both).contains(t)
        }),
{
    let empty = Seq::<ItemView>::empty();
    let p = first_completions(empty, primary);
    let o = first_completions(primary, other);
    let both = p + o;
    lemma_first_completions_once(empty, primary);
    lemma_first_completions_once(primary, other);
    assert forall|t: Seq<char>| !task_ids(empty).contains(t) by {}
    assert forall|i: int, j: int| 0 <= i < j < both.len() implies #[trigger] both[i].task_id
        != #[trigger] both[j].task_id by {
        if j < p.len() {
            assert(p[i].task_id != p[j].task_id);
        } else if i >= p.len() {
            assert(o[i - p.len()].task_id != o[j - p.len()].task_id);
        } else {
            assert(task_ids(primary).contains(p[i].task_id));
            assert(!task_ids(primary).contains(o[j - p.len()].task_id));
        }
    }
    assert forall|t: Seq<char>| #[trigger] task_ids(primary + other).contains(t) implies task_ids(
        both,
    ).contains(t) by {
        let w = choose|w: int|
            0 <= w < task_ids(primary + other).len() && task_ids(primary + other)[w] == t;
        if task_ids(primary).contains(t) {
            let v = choose|v: int| 0 <= v < task_ids(p).len() && task_ids(p)[v] == t;
            assert(task_ids(both)[v] == t);
        } else {
            assert((primary + other)[w].task_id == t);
            if w < primary.len() {
                assert(primary[w] == (primary + other)[w]);
                assert(task_ids(primary)[w] == t);
            }
            assert(other[w - primary.len()] == (primary + other)[w]);
            assert(task_ids(other)[w - primary.len()] == t);
            assert(task_ids(other).contains(t));
            assert(task_ids(o).contains(t));
            let v = choose|v: int| 0 <= v < task_ids(o).len() && task_ids(o)[v] == t;
            assert(task_ids(both)[p.len() + v] == t);
        }
    }
}

} // verus!
