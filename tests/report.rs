use status_update::fetch::{Item, ProjectGroup};
use status_update::report::{
    build_report, starts_with, ReportError, ORGANIZATION_PREFIX, PRIMARY_PROJECT_PREFIX,
};

fn item(content: &str, task: &str) -> Item {
    Item { content: content.to_string(), task_id: task.to_string(), project_id: String::new() }
}

fn group(name: &str, items: Vec<Item>) -> ProjectGroup {
    ProjectGroup { name: name.to_string(), items }
}

fn contents(items: &[Item]) -> Vec<&str> {
    items.iter().map(|i| i.content.as_str()).collect()
}

fn build(groups: Vec<ProjectGroup>) -> Result<status_update::report::Report, ReportError> {
    build_report(groups, PRIMARY_PROJECT_PREFIX, ORGANIZATION_PREFIX)
}

#[test]
fn prefix_test() {
    assert!(starts_with("Oxide: Reconfigurator", "Oxide"));
    assert!(starts_with("Oxide", "Oxide"));
    assert!(starts_with("anything", ""));
    assert!(!starts_with("Oxid", "Oxide"));
    assert!(!starts_with("Home", "Oxide"));
}

#[test]
fn task_in_two_projects_is_reported_once() {
    let r = build(vec![
        group("Oxide: Reconfigurator", vec![item("weekly sync", "t1")]),
        group("Oxide: Other", vec![item("weekly sync again", "t1"), item("other", "t2")]),
    ])
    .unwrap();
    assert_eq!(contents(&r.primary), vec!["weekly sync"]);
    assert_eq!(contents(&r.other), vec!["other"]);
}

#[test]
fn task_in_two_other_projects_goes_to_the_first() {
    let r = build(vec![
        group("Oxide: A", vec![item("first", "t5")]),
        group("Oxide: Reconfigurator", vec![]),
        group("Oxide: B", vec![item("second", "t5")]),
    ])
    .unwrap();
    assert!(r.primary.is_empty());
    assert_eq!(contents(&r.other), vec!["first"]);
}

#[test]
fn recurring_task_is_reported_once() {
    let r = build(vec![group(
        "Oxide: Reconfigurator",
        vec![item("standup", "t1"), item("review", "t2"), item("standup", "t1")],
    )])
    .unwrap();
    assert_eq!(contents(&r.primary), vec!["standup", "review"]);
    assert!(r.other.is_empty());
}

#[test]
fn no_primary_project_fails() {
    let r = build(vec![group("Oxide: Other", vec![item("x", "t1")])]);
    assert_eq!(r.err(), Some(ReportError::NoPrimaryProject));
    assert_eq!(build(vec![]).err(), Some(ReportError::NoPrimaryProject));
}

#[test]
fn two_primary_projects_fail() {
    let r = build(vec![
        group("Oxide: Reconfigurator", vec![item("x", "t1")]),
        group("Oxide: Reconfigurator planning", vec![item("y", "t2")]),
    ]);
    assert_eq!(r.err(), Some(ReportError::AmbiguousPrimaryProject));
}

#[test]
fn projects_outside_the_organization_are_left_out() {
    let r = build(vec![
        group("Home", vec![item("groceries", "t9")]),
        group("Oxide: Reconfigurator", vec![item("x", "t1")]),
        group("Oxide: Other", vec![item("y", "t2")]),
    ])
    .unwrap();
    assert_eq!(r.primary_project, "Oxide: Reconfigurator");
    assert_eq!(contents(&r.primary), vec!["x"]);
    assert_eq!(contents(&r.other), vec!["y"]);
}

#[test]
fn same_task_in_primary_and_other_is_printed_once_under_primary() {
    let r = build(vec![
        group("Oxide: Reconfigurator", vec![item("A", "t1")]),
        group("Oxide: Misc", vec![item("A", "t1")]),
    ])
    .unwrap();
    assert_eq!(contents(&r.primary), vec!["A"]);
    assert!(r.other.is_empty());
}
