use status_update::fetch::{Item, Page, PageRequest, Pager, Project, PAGE_LIMIT};

fn item(content: &str, task: &str, project: &str) -> Item {
    Item { content: content.to_string(), task_id: task.to_string(), project_id: project.to_string() }
}

fn project(id: &str, name: &str) -> Project {
    Project { id: id.to_string(), name: name.to_string() }
}

/// A history of `total` completions, all in one project, served in pages.
fn serve(req: PageRequest, total: u64) -> Page {
    let end = std::cmp::min(total, req.offset + req.limit);
    let items = (req.offset..end).map(|i| item(&format!("c{}", i), &format!("t{}", i), "p1")).collect();
    Page { items, projects: vec![project("p1", "Oxide: Reconfigurator")] }
}

#[test]
fn full_then_short_page_takes_two_requests() {
    let mut pager = Pager::with_limit(3).unwrap();
    let mut requests = Vec::new();
    while let Some(req) = pager.next_request() {
        requests.push(req);
        assert!(requests.len() <= 10);
        assert_eq!(pager.absorb_page(serve(req, 4)), Ok(0));
    }
    assert_eq!(
        requests,
        vec![PageRequest { offset: 0, limit: 3 }, PageRequest { offset: 3, limit: 3 }]
    );
    assert!(pager.is_done());
    let groups = pager.into_groups();
    assert_eq!(groups.len(), 1);
    assert_eq!(groups[0].items.len(), 4);
}

#[test]
fn exact_multiple_needs_an_empty_page() {
    let mut pager = Pager::with_limit(2).unwrap();
    let mut n = 0;
    while let Some(req) = pager.next_request() {
        n += 1;
        assert!(n <= 10);
        pager.absorb_page(serve(req, 4)).unwrap();
    }
    assert_eq!(n, 3);
}

#[test]
fn default_pager_asks_for_two_hundred() {
    let pager = Pager::new();
    assert_eq!(PAGE_LIMIT, 200);
    assert_eq!(pager.next_request(), Some(PageRequest { offset: 0, limit: 200 }));
}

#[test]
fn zero_limit_is_refused() {
    assert!(Pager::with_limit(0).is_none());
}

#[test]
fn completions_group_by_project_name_in_arrival_order() {
    let mut pager = Pager::new();
    let page = Page {
        items: vec![
            item("a", "t1", "p2"),
            item("b", "t2", "p1"),
            item("c", "t3", "p2"),
            item("d", "t4", "p3"),
        ],
        projects: vec![project("p1", "Oxide: Reconfigurator"), project("p2", "Oxide: Other"), project("p3", "Oxide: Other")],
    };
    assert_eq!(pager.absorb_page(page), Ok(0));
    assert!(pager.is_done());
    let groups = pager.groups();
    assert_eq!(groups.len(), 2);
    assert_eq!(groups[0].name, "Oxide: Other");
    let contents: Vec<&str> = groups[0].items.iter().map(|i| i.content.as_str()).collect();
    assert_eq!(contents, vec!["a", "c", "d"]);
    assert_eq!(groups[1].name, "Oxide: Reconfigurator");
    assert_eq!(groups[1].items[0].content, "b");
}

#[test]
fn completion_of_unknown_project_is_skipped() {
    let mut pager = Pager::new();
    let page = Page {
        items: vec![item("a", "t1", "p9"), item("b", "t2", "p1")],
        projects: vec![project("p1", "Oxide: Reconfigurator")],
    };
    assert_eq!(pager.absorb_page(page), Ok(1));
    let groups = pager.into_groups();
    assert_eq!(groups.len(), 1);
    assert_eq!(groups[0].items.len(), 1);
    assert_eq!(groups[0].items[0].content, "b");
}
