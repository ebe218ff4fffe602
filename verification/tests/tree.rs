use task_timer::error::Error;
use task_timer::markdown::{export_text, push_node};
use task_timer::node::Node;
use task_timer::rollup::rollup;

fn sample() -> Node {
    Node::convert_from("- [ ] r\n# A\n- [ ] t1\n- [x] t2\n## B\n- [x] t3\n## C\n# D\n")
}

#[test]
fn rollup_of_nested_headings() {
    let root = Node::convert_from("# A\n- [ ] t1\n## B\n- [x] t2\n");
    let a = &root.children[0];
    let b = &a.children[0];
    assert_eq!(rollup(a).0, false);
    assert_eq!(rollup(b).0, true);
    assert_eq!(rollup(a).1, 0);
}

#[test]
fn a_heading_without_tasks_or_subheadings_is_completed() {
    let root = sample();
    let c = &root.children[0].children[1];
    assert_eq!(rollup(c), (true, 0));
    assert_eq!(rollup(&Node::new()), (true, 0));
}

#[test]
fn rollup_adds_the_times_of_the_whole_subtree() {
    let mut root = sample();
    root.content_times[0] = 7;
    root.children[0].content_times[0] = 10;
    root.children[0].content_times[1] = 20;
    root.children[0].children[0].content_times[0] = 300;
    assert_eq!(rollup(&root.children[0].children[0]), (true, 300));
    assert_eq!(rollup(&root.children[0]), (false, 330));
    assert_eq!(rollup(&root), (false, 337));
}

#[test]
fn rollup_is_completed_only_when_every_task_below_is() {
    let mut root = Node::convert_from("# A\n- [x] a\n## B\n- [x] b\n### C\n- [ ] c\n");
    assert_eq!(rollup(&root.children[0]).0, false);
    root.children[0].children[0].children[0].completed_tasks[0] = true;
    assert_eq!(rollup(&root.children[0]).0, true);
    assert_eq!(rollup(&root).0, true);
}

#[test]
fn get_node_walks_the_child_indices() {
    let root = sample();
    assert!(root.get_node(&vec![]).unwrap().same(&root));
    assert_eq!(root.get_node(&vec![0, 1]).unwrap().heading, Some("## C".to_string()));
    assert_eq!(root.get_node(&vec![1]).unwrap().heading, Some("# D".to_string()));
    assert!(root.get_node(&vec![2]).is_none());
    assert!(root.get_node(&vec![0, 0, 0]).is_none());
}

#[test]
fn get_node_mut_writes_into_the_tree() {
    let mut root = sample();
    root.get_node_mut(&vec![0, 0]).unwrap().content_times[0] = 42;
    assert_eq!(root.children[0].children[0].content_times, vec![42]);
    assert!(root.get_node_mut(&vec![5]).is_none());
}

#[test]
fn find_path_returns_the_first_equal_node() {
    let root = sample();
    assert_eq!(Node::find_path(&root, &root), Ok(vec![]));
    let b = root.children[0].children[0].clone();
    assert_eq!(Node::find_path(&root, &b), Ok(vec![0, 0]));
    let d = root.children[1].clone();
    assert_eq!(Node::find_path(&root, &d), Ok(vec![1]));
}

#[test]
fn find_path_takes_the_first_of_two_equal_nodes() {
    let root = Node::convert_from("# A\n## X\n# B\n## X\n");
    let x = root.children[1].children[0].clone();
    assert_eq!(Node::find_path(&root, &x), Ok(vec![0, 0]));
}

#[test]
fn find_path_fails_on_a_foreign_node() {
    let root = sample();
    let stranger = Node::new_with_heading("# Z".to_string());
    assert_eq!(Node::find_path(&root, &stranger), Err(Error::NotFound));
    let mut changed = root.children[0].clone();
    changed.content_times[0] = 1;
    assert_eq!(Node::find_path(&root, &changed), Err(Error::NotFound));
}

#[test]
fn update_node_copies_times_and_completion_only() {
    let mut root = sample();
    let mut source = Node::new_with_heading("other".to_string());
    source.content = vec!["x".to_string(), "y".to_string()];
    source.content_times = vec![5, 6];
    source.completed_tasks = vec![true, false];
    source.total_time = 11;
    assert_eq!(root.update_node(&vec![0], &source), Ok(()));
    let a = &root.children[0];
    assert_eq!(a.heading, Some("# A".to_string()));
    assert_eq!(a.content, vec!["t1".to_string(), "t2".to_string()]);
    assert_eq!(a.children.len(), 2);
    assert_eq!(a.content_times, vec![5, 6]);
    assert_eq!(a.completed_tasks, vec![true, false]);
    assert_eq!(a.total_time, 11);
}

#[test]
fn update_node_fails_on_a_path_out_of_the_tree() {
    let mut root = sample();
    let before = root.clone();
    let source = Node::new();
    assert_eq!(root.update_node(&vec![7], &source), Err(Error::PathNotFound));
    assert!(root.same(&before));
}

#[test]
fn same_compares_every_field() {
    let root = sample();
    let mut other = root.clone();
    assert!(root.same(&other));
    other.children[0].children[0].completed_tasks[0] = false;
    assert!(!root.same(&other));
    let mut timed = root.clone();
    timed.total_time = 1;
    assert!(!root.same(&timed));
}

#[test]
fn markdown_lists_headings_tasks_and_subheadings_depth_first() {
    let root = sample();
    assert_eq!(
        export_text(&root),
        "- [ ] r\n# A\n- [ ] t1\n- [x] t2\n## B\n- [x] t3\n## C\n# D\n"
    );
    assert_eq!(push_node(&root.children[0].children[0]), "## B\n- [x] t3\n");
    assert_eq!(push_node(&Node::new()), "");
}

#[test]
fn markdown_round_trip_keeps_headings_tasks_and_completion() {
    let text = "  intro\n# A\n- [ ]   t1  \nnoise\n## B\n- [x] t2\n### C\n## D\n- [ ] \n# E\n";
    let first = Node::convert_from(text);
    let written = export_text(&first);
    let second = Node::convert_from(&written);
    assert!(second.same(&first));
    assert_eq!(export_text(&second), written);
}

#[test]
fn markdown_drops_the_times() {
    let mut root = sample();
    root.children[0].content_times[0] = 99;
    root.total_time = 99;
    let again = Node::convert_from(&export_text(&root));
    assert_eq!(again.children[0].content_times, vec![0, 0]);
    assert_eq!(again.total_time, 0);
    assert_eq!(again.children[0].completed_tasks, root.children[0].completed_tasks);
}

#[test]
fn error_messages() {
    assert_eq!(Error::PathNotFound.message(), "Node path not present on the given root node");
    assert_eq!(Error::NoSubheadingOnLine.message(), "No subheading found on selected line");
    assert_eq!(Error::CannotCompleteSubheading.message(), "Cannot complete a subheading");
    assert_eq!(Error::CannotTimeSubheading.message(), "Cannot start a subheading time");
    assert_eq!(
        Error::CannotTimeCompletedTask.message(),
        "Cannot start a time on a completed task"
    );
    assert_eq!(
        Error::ParentNotFound.message(),
        "Failed to convert node path to node when entering previous heading"
    );
    assert_eq!(
        Error::NotFound.message(),
        "Comparing nodes that do not belong on the same tree when collecting display data"
    );
}
