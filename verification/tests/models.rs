use std::str::FromStr;
use std::collections::HashMap;
use todotui::models::{Priority, Status, Task};
use todotui::tree::{build_tree, flatten_tree};

fn t(id: i64, parent: Option<i64>, title: &str) -> Task {
    let mut x = Task::new_now(title);
    x.id = id;
    x.parent_id = parent;
    x
}

#[test]
fn build_tree_two_levels() {
    let tasks = vec![
        t(1, None, "root1"),
        t(2, Some(1), "child"),
        t(3, None, "root2"),
        t(4, Some(2), "grandchild"),
    ];
    let nodes = build_tree(&tasks);
    assert_eq!(nodes.len(), 2);
    assert_eq!(nodes[0].task.id, 1);
    assert_eq!(nodes[0].children.len(), 1);
    assert_eq!(nodes[0].children[0].children.len(), 1);
}

#[test]
fn build_tree_promotes_orphans() {
    // child whose parent isn't in the list should become a root.
    let tasks = vec![t(1, Some(99), "orphan"), t(2, None, "root")];
    let nodes = build_tree(&tasks);
    assert_eq!(nodes.len(), 2);
}

#[test]
fn flatten_respects_collapse() {
    let tasks = vec![t(1, None, "p"), t(2, Some(1), "c")];
    let nodes = build_tree(&tasks);
    let mut expanded = HashMap::new();
    let flat = flatten_tree(&nodes, &expanded);
    assert_eq!(flat.len(), 2);
    expanded.insert(1, false);
    let flat = flatten_tree(&nodes, &expanded);
    assert_eq!(flat.len(), 1);
}

#[test]
fn status_priority_roundtrip() {
    for s in ["todo", "doing", "waiting", "done"] {
        assert_eq!(s.parse::<Status>().unwrap().as_str(), s);
    }
    for s in ["high", "medium", "low"] {
        assert_eq!(s.parse::<Priority>().unwrap().as_str(), s);
    }
}

#[test]
fn build_tree_orders_by_id_and_nests() {
    let tasks = vec![
        t(5, None, "late root"),
        t(3, Some(5), "second child"),
        t(2, Some(5), "first child"),
        t(1, None, "early root"),
    ];
    let nodes = build_tree(&tasks);
    assert_eq!(nodes.len(), 2);
    assert_eq!(nodes[0].task.id, 1);
    assert_eq!(nodes[1].task.id, 5);
    let kids: Vec<i64> = nodes[1].children.iter().map(|n| n.task.id).collect();
    assert_eq!(kids, vec![2, 3]);
}

#[test]
fn flatten_gives_depths_and_markers() {
    let tasks = vec![t(1, None, "p"), t(2, Some(1), "c"), t(3, Some(2), "g")];
    let nodes = build_tree(&tasks);
    let expanded = HashMap::new();
    let flat = flatten_tree(&nodes, &expanded);
    let depths: Vec<usize> = flat.iter().map(|r| r.depth).collect();
    assert_eq!(depths, vec![0, 1, 2]);
    assert!(flat[0].has_children && flat[0].expanded);
    assert!(!flat[2].has_children);
}

#[test]
fn status_and_priority_parse_ignores_case_and_abbreviates() {
    assert_eq!("DoInG".parse::<Status>().unwrap(), Status::Doing);
    assert_eq!("H".parse::<Priority>().unwrap(), Priority::High);
    assert_eq!("med".parse::<Priority>().unwrap(), Priority::Medium);
    assert_eq!("l".parse::<Priority>().unwrap(), Priority::Low);
    assert_eq!(
        "Later".parse::<Status>().unwrap_err(),
        "unknown status: later".to_string()
    );
    assert_eq!(
        "urgent".parse::<Priority>().unwrap_err(),
        "unknown priority: urgent".to_string()
    );
}

#[test]
fn status_and_priority_cycle() {
    let mut s = Status::Todo;
    let mut seen = Vec::new();
    for _ in 0..4 {
        seen.push(s.as_str());
        s = s.cycle_next();
    }
    assert_eq!(seen, vec!["todo", "doing", "waiting", "done"]);
    assert_eq!(s, Status::Todo);
    let p = Priority::High.cycle_next();
    assert_eq!(p, Priority::Medium);
    assert_eq!(p.cycle_next().cycle_next(), Priority::High);
    assert_eq!(Status::Waiting.symbol(), "[?]");
    assert_eq!(Priority::Low.symbol(), "L");
}

#[test]
fn fresh_task_defaults() {
    let x = Task::new_now("hello");
    assert_eq!(x.id, 0);
    assert_eq!(x.title, "hello");
    assert_eq!(x.status, Status::Todo);
    assert_eq!(x.priority, Priority::Medium);
    assert!(x.tags.is_empty());
    assert!(x.description.is_empty());
    assert!(x.completed_at.is_none());
    assert_eq!(x.created_at, x.updated_at);
    assert_eq!(x.due_date_str(), "");
}

#[test]
fn from_str_reads_names_and_reports_the_lowered_text() {
    assert_eq!(Status::from_str("WAITING").unwrap(), Status::Waiting);
    assert_eq!(Status::from_str("Nope").unwrap_err(), "unknown status: nope");
    assert_eq!(Priority::from_str("Med").unwrap(), Priority::Medium);
    assert_eq!(Priority::from_str("Top").unwrap_err(), "unknown priority: top");
}

#[test]
fn build_tree_repeated_id_first_node_takes_children() {
    // Two roots share id 5; the child of 5 goes under the first one built.
    let tasks = vec![
        t(7, None, "other"),
        t(5, None, "first five"),
        t(6, Some(5), "child of five"),
        t(5, None, "second five"),
    ];
    let nodes = build_tree(&tasks);
    assert_eq!(nodes.len(), 3);
    assert_eq!(nodes[0].task.title, "first five");
    assert_eq!(nodes[0].children.len(), 1);
    assert_eq!(nodes[0].children[0].task.id, 6);
    assert_eq!(nodes[1].task.title, "second five");
    assert_eq!(nodes[1].children.len(), 0);
    assert_eq!(nodes[2].task.id, 7);
}

#[test]
fn build_tree_repeated_id_follows_build_order() {
    // Roots are built in list order before sorting: the root with id 9 comes
    // first in the list, so it takes the task whose parent is 9, and the
    // nested task with id 9 (built later, under root 1) stays a leaf.
    let tasks = vec![
        t(9, None, "root nine"),
        t(1, None, "root one"),
        t(9, Some(1), "nested nine"),
        t(3, Some(9), "under nine"),
    ];
    let nodes = build_tree(&tasks);
    assert_eq!(nodes.len(), 2);
    assert_eq!(nodes[0].task.id, 1);
    assert_eq!(nodes[0].children.len(), 1);
    assert_eq!(nodes[0].children[0].task.title, "nested nine");
    assert_eq!(nodes[0].children[0].children.len(), 0);
    assert_eq!(nodes[1].task.title, "root nine");
    assert_eq!(nodes[1].children.len(), 1);
    assert_eq!(nodes[1].children[0].task.id, 3);
}
