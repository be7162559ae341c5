//! Paging through the completed-task history and grouping what comes back by
//! project name.

use vstd::prelude::*;

verus! {

/// One completion of a task. A recurring task completed several times has
/// one of these per completion, all with the same `task_id`.
#[derive(Debug)]
pub struct Item {
    pub content: String,
    pub task_id: String,
    pub project_id: String,
}

pub struct ItemView {
    pub content: Seq<char>,
    pub task_id: Seq<char>,
    pub project_id: Seq<char>,
}

impl View for Item {
    type V = ItemView;

    open spec fn view(&self) -> ItemView {
        ItemView { content: self.content@, task_id: self.task_id@, project_id: self.project_id@ }
    }
}

pub open spec fn items_view(v: Seq<Item>) -> Seq<ItemView> {
    v.map_values(|i: Item| i@)
}

/// What a page says about one project.
#[derive(Debug)]
pub struct Project {
    pub id: String,
    pub name: String,
}

/// (id, name)
pub open spec fn projects_view(v: Seq<Project>) -> Seq<(Seq<char>, Seq<char>)> {
    v.map_values(|p: Project| (p.id@, p.name@))
}

/// One page of the completed-task history: the completions and the projects
/// that they belong to.
#[derive(Debug)]
pub struct Page {
    pub items: Vec<Item>,
    pub projects: Vec<Project>,
}

/// The completions of one project, in the order in which they arrived.
#[derive(Debug)]
pub struct ProjectGroup {
    pub name: String,
    pub items: Vec<Item>,
}

pub type GroupView = (Seq<char>, Seq<ItemView>);

pub open spec fn groups_view(v: Seq<ProjectGroup>) -> Seq<GroupView> {
    v.map_values(|g: ProjectGroup| (g.name@, items_view(g.items@)))
}

/// The name of the first project in `ps` with the given id.
pub open spec fn project_name_in(ps: Seq<(Seq<char>, Seq<char>)>, id: Seq<char>) -> Option<
    Seq<char>,
>
    decreases ps.len(),
{
    if ps.len() == 0 {
        None
    } else {
        match project_name_in(ps.drop_last(), id) {
            Some(n) => Some(n),
            None => if ps.last().0 == id {
                Some(ps.last().1)
            } else {
                None
            },
        }
    }
}

/// No two groups have the same name.
pub open spec fn names_unique(gs: Seq<GroupView>) -> bool {
    forall|i: int, j: int|
        0 <= i < gs.len() && 0 <= j < gs.len() && i != j ==> #[trigger] gs[i].0 != #[trigger] gs[j].0
}

/// Adds `item` at the end of the group called `name`, or as a new last group
/// of its own where there is none.
pub open spec fn add_to_groups(gs: Seq<GroupView>, name: Seq<char>, item: ItemView) -> Seq<
    GroupView,
> {
    if exists|i: int| 0 <= i < gs.len() && #[trigger] gs[i].0 == name {
        let i = choose|i: int| 0 <= i < gs.len() && #[trigger] gs[i].0 == name;
        gs.update(i, (name, gs[i].1.push(item)))
    } else {
        gs.push((name, seq![item]))
    }
}

/// The groups after the completions `items` of a page with projects `ps`
/// were placed; a completion of a project that the page does not describe
/// is left out.
pub open spec fn grouped(
    gs: Seq<GroupView>,
    items: Seq<ItemView>,
    ps: Seq<(Seq<char>, Seq<char>)>,
) -> Seq<GroupView>
    decreases items.len(),
{
    if items.len() == 0 {
        gs
    } else {
        let before = grouped(gs, items.drop_last(), ps);
        match project_name_in(ps, items.last().project_id) {
            Some(name) => add_to_groups(before, name, items.last()),
            None => before,
        }
    }
}

/// How many of `items` belong to no project in `ps`.
pub open spec fn unplaced(items: Seq<ItemView>, ps: Seq<(Seq<char>, Seq<char>)>) -> nat
    decreases items.len(),
{
    if items.len() == 0 {
        0
    } else {
        unplaced(items.drop_last(), ps) + if project_name_in(ps, items.last().project_id) is None {
            1nat
        } else {
            0nat
        }
    }
}

/// The index in `ps` of the first project with id `id`.
fn find_project(ps: &Vec<Project>, id: &String) -> (r: Option<usize>)
    ensures
        r matches Some(k) ==> k < ps.len() && project_name_in(projects_view(ps@), id@) == Some(
            ps@[k as int].name@,
        ),
        r is None ==> project_name_in(projects_view(ps@), id@) is None,
{
    let mut found: Option<usize> = None;
    let mut i: usize = 0;
    while i < ps.len()
        invariant
            i <= ps.len(),
            found matches Some(k) ==> k < i && project_name_in(
                projects_view(ps@.subrange(0, i as int)),
                id@,
            ) == Some(ps@[k as int].name@),
            found is None ==> project_name_in(projects_view(ps@.subrange(0, i as int)), id@) is None,
        decreases ps.len() - i,
    {
        let ghost pre = projects_view(ps@.subrange(0, i + 1));
        assert(pre.drop_last() == projects_view(ps@.subrange(0, i as int)));
        assert(pre.last() == (ps@[i as int].id@, ps@[i as int].name@));
        if found.is_none() && ps[i].id == *id {
            found = Some(i);
        }
        i = i + 1;
    }
    assert(ps@.subrange(0, ps.len() as int) == ps@);
    found
}

/// Adds `item` to the group called `name`, creating the group where there is
/// none.
fn add_to_group(groups: &mut Vec<ProjectGroup>, name: &String, item: Item)
    requires
        names_unique(groups_view(old(groups)@)),
    ensures
        names_unique(groups_view(final(groups)@)),
        groups_view(final(groups)@) == add_to_groups(groups_view(old(groups)@), name@, item@),
{
    let ghost gs = groups_view(groups@);
    let mut found: Option<usize> = None;
    let mut i: usize = 0;
    while i < groups.len()
        invariant
            i <= groups.len(),
            found matches Some(k) ==> k < groups.len() && groups@[k as int].name@ == name@,
            found is None ==> forall|k: int| 0 <= k < i ==> groups@[k].name@ != name@,
        decreases groups.len() - i,
    {
        if found.is_none() && groups[i].name == *name {
            found = Some(i);
        }
        i = i + 1;
    }
    match found {
        Some(k) => {
            assert(gs[k as int].0 == name@);
            let ghost before = groups@;
            let mut g = groups.remove(k);
            g.items.push(item);
            assert(items_view(g.items@) =~= gs[k as int].1.push(item@));
            groups.insert(k, g);
            assert(groups@ =~= before.update(k as int, g));
            let ghost c = choose|i: int| 0 <= i < gs.len() && #[trigger] gs[i].0 == name@;
            assert(c == k);
            assert(groups_view(groups@) =~= gs.update(k as int, (name@, gs[k as int].1.push(item@))));
        },
        None => {
            assert(!exists|i: int| 0 <= i < gs.len() && #[trigger] gs[i].0 == name@);
            let ghost before = groups@;
            let mut items: Vec<Item> = Vec::new();
            items.push(item);
            assert(items_view(items@) =~= seq![item@]);
            let g = ProjectGroup { name: name.clone(), items };
            groups.push(g);
            assert(groups@ =~= before.push(g));
            assert(groups_view(groups@) =~= gs.push((name@, seq![item@])));
        },
    }
}

/// What to ask for next: `limit` completions from position `offset`.
#[derive(Clone, Copy, Debug, PartialEq, Eq, Structural)]
pub struct PageRequest {
    pub offset: u64,
    pub limit: u64,
}

/// The paging cannot go on: the next offset would not fit in 64 bits.
#[derive(Clone, Copy, Debug, PartialEq, Eq, Structural)]
pub enum PagerError {
    OffsetOverflow,
}

/// How many completions to ask for per page.
pub const PAGE_LIMIT: u64 = 200;

/// Walks the completed-task history page by page. The last page is the first
/// one that holds fewer completions than were asked for.
pub struct Pager {
    offset: u64,
    limit: u64,
    done: bool,
    groups: Vec<ProjectGroup>,
}

pub struct PagerView {
    pub offset: nat,
    pub limit: nat,
    pub done: bool,
    pub groups: Seq<GroupView>,
}

impl View for Pager {
    type V = PagerView;

    closed spec fn view(&self) -> PagerView {
        PagerView {
            offset: self.offset as nat,
            limit: self.limit as nat,
            done: self.done,
            groups: groups_view(self.groups@),
        }
    }
}

/// A pager that has asked for nothing yet.
pub open spec fn initial_pager(limit: nat) -> PagerView {
    PagerView { offset: 0, limit, done: false, groups: Seq::empty() }
}

/// The request that follows state `v`, if any.
pub open spec fn request_of(v: PagerView) -> Option<PageRequest> {
    if v.done {
        None
    } else {
        Some(PageRequest { offset: v.offset as u64, limit: v.limit as u64 })
    }
}

/// The state after a page with completions `items` and projects `ps` came in:
/// a short page ends the walk, a full one moves the offset on by `limit`.
pub open spec fn after_page(
    v: PagerView,
    items: Seq<ItemView>,
    ps: Seq<(Seq<char>, Seq<char>)>,
) -> PagerView {
    PagerView {
        offset: if items.len() < v.limit {
            v.offset
        } else {
            v.offset + v.limit
        },
        limit: v.limit,
        done: v.done || items.len() < v.limit,
        groups: grouped(v.groups, items, ps),
    }
}

impl Pager {
    pub open spec fn wf(&self) -> bool {
        self@.limit > 0 && names_unique(self@.groups)
    }

    /// A pager that asks for `PAGE_LIMIT` completions at a time.
    pub fn new() -> (r: Pager)
        ensures
            r.wf(),
            r@ == initial_pager(PAGE_LIMIT as nat),
    {
        let r = Pager { offset: 0, limit: PAGE_LIMIT, done: false, groups: Vec::new() };
        assert(groups_view(r.groups@) =~= Seq::<GroupView>::empty());
        r
    }

    /// A pager that asks for `limit` completions at a time; none where
    /// `limit` is 0, for which no page could ever be short.
    pub fn with_limit(limit: u64) -> (r: Option<Pager>)
        ensures
            limit == 0 <==> r is None,
            r matches Some(p) ==> p.wf() && p@ == initial_pager(limit as nat),
    {
        if limit == 0 {
            None
        } else {
            let r = Pager { offset: 0, limit, done: false, groups: Vec::new() };
            assert(groups_view(r.groups@) =~= Seq::<GroupView>::empty());
            Some(r)
        }
    }

    /// The page to ask for next; none once the walk has ended.
    pub fn next_request(&self) -> (r: Option<PageRequest>)
        ensures
            r == request_of(self@),
    {
        if self.done {
            None
        } else {
            Some(PageRequest { offset: self.offset, limit: self.limit })
        }
    }

    pub fn is_done(&self) -> (r: bool)
        ensures
            r == self@.done,
    {
        self.done
    }

    /// The completions so far, grouped by project name, the groups in the
    /// order in which their first completion arrived.
    pub fn groups(&self) -> (r: &Vec<ProjectGroup>)
        ensures
            groups_view(r@) == self@.groups,
    {
        &self.groups
    }

    /// The groups, once the walk is over.
    pub fn into_groups(self) -> (r: Vec<ProjectGroup>)
        ensures
            groups_view(r@) == self@.groups,
    {
        self.groups
    }

    /// Takes in the answer to the last request: places each completion in the
    /// group of its project, and returns how many named a project that the
    /// page does not describe (those are left out). Fails, changing nothing,
    /// where a full page would move the offset past `u64::MAX`.
    pub fn absorb_page(&mut self, page: Page) -> (r: Result<usize, PagerError>)
        requires
            old(self).wf(),
        ensures
            final(self).wf(),
            r is Err <==> page.items.len() >= old(self)@.limit && old(self)@.offset + old(self)@.limit
                > u64::MAX,
            r is Err ==> final(self)@ == old(self)@,
            r matches Ok(n) ==> final(self)@ == after_page(
                old(self)@,
                items_view(page.items@),
                projects_view(page.projects@),
            ) && n == unplaced(items_view(page.items@), projects_view(page.projects@)),
    {
        let n = page.items.len();
        let short = (n as u64) < self.limit;
        if !short && self.offset > u64::MAX - self.limit {
            return Err(PagerError::OffsetOverflow);
        }
        let ghost start = self@;
        let ghost all = items_view(page.items@);
        let ghost ps = projects_view(page.projects@);
        let Page { items, projects } = page;
        let mut rest = items;
        let mut skipped: usize = 0;
        let mut i: usize = 0;
        while i < n
            invariant
                n == all.len(),
                i <= n,
                rest@.len() == n - i,
                self.offset == start.offset,
                self.limit == start.limit,
                self.done == start.done,
                start.limit > 0,
                short == (n < start.limit),
                !short ==> start.offset + start.limit <= u64::MAX,
                items_view(rest@) == all.subrange(i as int, n as int),
                ps == projects_view(projects@),
                names_unique(groups_view(self.groups@)),
                groups_view(self.groups@) == grouped(start.groups, all.subrange(0, i as int), ps),
                skipped == unplaced(all.subrange(0, i as int), ps),
                skipped <= i,
            decreases n - i,
        {
            let ghost rest_before = rest@;
            assert(items_view(rest_before)[0] == rest_before[0]@);
            let item = rest.remove(0);
            let ghost pre = all.subrange(0, i + 1);
            assert(pre.drop_last() == all.subrange(0, i as int));
            assert(item@ == all[i as int]);
            assert forall|j: int| 0 <= j < rest@.len() implies #[trigger] items_view(rest@)[j]
                == all[i + 1 + j] by {
                assert(rest@[j] == rest_before[j + 1]);
                assert(items_view(rest_before)[j + 1] == all.subrange(i as int, n as int)[j + 1]);
            }
            assert(items_view(rest@) =~= all.subrange(i + 1, n as int));
            match find_project(&projects, &item.project_id) {
                Some(k) => {
                    let name = projects[k].name.clone();
                    add_to_group(&mut self.groups, &name, item);
                },
                None => {
                    skipped = skipped + 1;
                },
            }
            i = i + 1;
        }
        assert(all.subrange(0, n as int) == all);
        if short {
            self.done = true;
        } else {
            self.offset = self.offset + self.limit;
        }
        Ok(skipped)
    }
}

/// A full page is followed by another request, at the next offset; a short
/// page ends the walk. So a history of one full page and one short page is
/// read with exactly two requests.
pub proof fn lemma_short_page_ends_walk(
    limit: nat,
    first: Seq<ItemView>,
    first_projects: Seq<(Seq<char>, Seq<char>)>,
    second: Seq<ItemView>,
    second_projects: Seq<(Seq<char>, Seq<char>)>,
)
    requires
        0 < limit <= u64::MAX,
        first.len() == limit,
        second.len() < limit,
    ensures
        request_of(initial_pager(limit)) == Some(PageRequest { offset: 0, limit: limit as u64 }),
        request_of(after_page(initial_pager(limit), first, first_projects)) == Some(
            PageRequest { offset: limit as u64, limit: limit as u64 },
        ),
        request_of(
            after_page(
                after_page(initial_pager(limit), first, first_projects),
                second,
                second_projects,
            ),
        ) is None,
{
}

} // verus!
