use task_timer::node::Node;

fn strings(items: &[&str]) -> Vec<String> {
    items.iter().map(|s| s.to_string()).collect()
}

#[test]
fn parses_nested_headings_with_tasks() {
    let root = Node::convert_from("# A\n- [ ] t1\n## B\n- [x] t2\n");
    assert_eq!(root.heading, None);
    assert!(root.content.is_empty());
    assert_eq!(root.children.len(), 1);

    let a = &root.children[0];
    assert_eq!(a.heading, Some("# A".to_string()));
    assert_eq!(a.content, strings(&["t1"]));
    assert_eq!(a.completed_tasks, vec![false]);
    assert_eq!(a.content_times, vec![0]);
    assert_eq!(a.children.len(), 1);

    let b = &a.children[0];
    assert_eq!(b.heading, Some("## B".to_string()));
    assert_eq!(b.content, strings(&["t2"]));
    assert_eq!(b.completed_tasks, vec![true]);
    assert_eq!(b.content_times, vec![0]);
    assert!(b.children.is_empty());
}

#[test]
fn empty_text_gives_the_bare_root() {
    let root = Node::convert_from("");
    assert!(root.same(&Node::new()));
}

#[test]
fn lines_that_are_neither_heading_nor_task_are_dropped() {
    let root = Node::convert_from("intro\n\n# A\nsome prose\n- [ ]no space\n- [X] capital\n-[ ] tight\n");
    assert_eq!(root.children.len(), 1);
    assert!(root.content.is_empty());
    assert!(root.children[0].content.is_empty());
}

#[test]
fn task_text_is_trimmed() {
    let root = Node::convert_from("- [ ]   padded \t \n- [x] \u{a0}wide\u{3000}\n- [ ] \n");
    assert_eq!(root.content, strings(&["padded", "wide", ""]));
    assert_eq!(root.completed_tasks, vec![false, true, false]);
    assert_eq!(root.content_times, vec![0, 0, 0]);
}

#[test]
fn a_hash_inside_a_line_opens_no_heading() {
    let root = Node::convert_from("- [ ] fix #12\n");
    assert!(root.children.is_empty());
    assert_eq!(root.content, strings(&["fix #12"]));
}

#[test]
fn a_shallower_heading_closes_the_deeper_ones() {
    let root = Node::convert_from("# A\n## B\n### C\n## D\n# E\n- [ ] e\n");
    assert_eq!(root.children.len(), 2);
    let a = &root.children[0];
    assert_eq!(a.children.len(), 2);
    assert_eq!(a.children[0].heading, Some("## B".to_string()));
    assert_eq!(a.children[0].children[0].heading, Some("### C".to_string()));
    assert_eq!(a.children[1].heading, Some("## D".to_string()));
    assert_eq!(root.children[1].heading, Some("# E".to_string()));
    assert_eq!(root.children[1].content, strings(&["e"]));
}

#[test]
fn a_heading_that_skips_levels_hangs_under_the_last_heading() {
    let root = Node::convert_from("### C\n## B\n");
    assert_eq!(root.children.len(), 1);
    let c = &root.children[0];
    assert_eq!(c.heading, Some("### C".to_string()));
    assert_eq!(c.children.len(), 1);
    assert_eq!(c.children[0].heading, Some("## B".to_string()));
}

#[test]
fn text_without_a_final_line_break_is_read_to_its_end() {
    let root = Node::convert_from("# A\n- [x] last");
    assert_eq!(root.children[0].content, strings(&["last"]));
    assert_eq!(root.children[0].completed_tasks, vec![true]);
}
