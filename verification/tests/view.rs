use task_timer::error::Error;
use task_timer::events::{EventState, Key, KeyConfig};
use task_timer::info_subtype::InfoSubType;
use task_timer::node::Node;
use task_timer::task_view::TaskView;

const TEXT: &str = "# A\n- [ ] t1\n- [x] t2\n## B\n- [ ] b1\n### C\n- [x] c1\n# D\n";

fn view() -> TaskView {
    let mut view = TaskView::new(KeyConfig::default());
    view.on_file_changed(TEXT);
    view
}

fn view_on_a() -> TaskView {
    let mut view = view();
    assert!(view.enter_next_node().is_ok());
    view
}

fn names(view: &TaskView) -> Vec<String> {
    view.tasks.lines.iter().map(|t| t.name.clone()).collect()
}

#[test]
fn a_changed_file_replaces_the_document() {
    let view = view();
    assert!(view.root_node.same(&Node::convert_from(TEXT)));
    assert!(view.displayed_node.same(&view.root_node));
    assert_eq!(names(&view), vec!["# A", "# D"]);
    assert_eq!(view.tasks.task_offset, 0);
    assert_eq!(view.selected_line, 1);
    assert_eq!(view.paginator.page, 0);
    assert_eq!(view.paginator.entry_len, 2);
    assert_eq!(view.content_height, 2);
    assert!(view.nav_bar.breadcrumbs.is_empty());
}

#[test]
fn a_changed_file_discards_times_selection_timer_and_trail() {
    let mut view = view_on_a();
    assert!(view.try_activate().is_ok());
    assert_eq!(view.update_time(), Ok(()));
    view.on_file_changed("# A\n- [ ] t1\n");
    assert_eq!(view.root_node.children[0].content_times, vec![0]);
    assert_eq!(view.tasks.active_time, None);
    assert_eq!(view.selected_line, 1);
    assert!(view.nav_bar.breadcrumbs.is_empty());
    assert!(view.displayed_node.same(&view.root_node));
}

#[test]
fn entering_a_subheading_displays_it() {
    let view = view_on_a();
    assert_eq!(view.displayed_node.heading, Some("# A".to_string()));
    assert_eq!(names(&view), vec!["t1", "t2", "## B"]);
    assert_eq!(view.tasks.task_offset, 2);
    assert_eq!(view.nav_bar.breadcrumbs, vec!["A".to_string()]);
    assert_eq!(view.selected_line, 1);
    assert_eq!(view.paginator.page, 0);
}

#[test]
fn entering_reports_the_heading() {
    let mut view = view();
    assert_eq!(
        view.enter_next_node(),
        Ok((InfoSubType::EnterSubheading, "# A".to_string()))
    );
}

#[test]
fn entering_a_task_row_fails() {
    let mut view = view_on_a();
    let before = view.displayed_node.clone();
    assert_eq!(view.enter_next_node(), Err(Error::NoSubheadingOnLine));
    assert!(view.displayed_node.same(&before));
    assert_eq!(view.nav_bar.breadcrumbs, vec!["A".to_string()]);
}

#[test]
fn entering_the_parent_goes_back_up() {
    let mut view = view_on_a();
    assert_eq!(view.handle_events(Key::Char('j')).unwrap().0, InfoSubType::Nothing);
    assert_eq!(view.handle_events(Key::Char('j')).unwrap().0, InfoSubType::Nothing);
    assert_eq!(view.selected_line, 3);
    assert_eq!(
        view.enter_next_node(),
        Ok((InfoSubType::EnterSubheading, "## B".to_string()))
    );
    assert_eq!(view.nav_bar.breadcrumbs, vec!["A".to_string(), "B".to_string()]);
    assert_eq!(view.enter_prev_node(), Ok((InfoSubType::EnterParent, "# A".to_string())));
    assert_eq!(view.nav_bar.breadcrumbs, vec!["A".to_string()]);
    assert_eq!(
        view.enter_prev_node(),
        Ok((InfoSubType::EnterParent, "Root Node".to_string()))
    );
    assert!(view.displayed_node.same(&view.root_node));
    assert!(view.nav_bar.breadcrumbs.is_empty());
    assert_eq!(
        view.enter_prev_node(),
        Ok((InfoSubType::EnterParent, "Root Node".to_string()))
    );
    assert!(view.displayed_node.same(&view.root_node));
}

#[test]
fn toggling_a_task_reaches_the_document() {
    let mut view = view_on_a();
    assert_eq!(view.toggle_task(), Ok((InfoSubType::CompleteTask, "t1".to_string())));
    assert_eq!(view.displayed_node.completed_tasks, vec![true, true]);
    assert_eq!(view.root_node.children[0].completed_tasks, vec![true, true]);
    assert!(view.tasks.lines[0].completed);
    assert_eq!(view.toggle_task(), Ok((InfoSubType::UncompleteTask, "t1".to_string())));
    assert_eq!(view.root_node.children[0].completed_tasks, vec![false, true]);
}

#[test]
fn toggling_the_timed_task_stops_its_timer() {
    let mut view = view_on_a();
    assert!(view.try_activate().is_ok());
    assert_eq!(view.tasks.active_time, Some(0));
    assert!(view.toggle_task().is_ok());
    assert_eq!(view.tasks.active_time, None);
    assert_eq!(view.displayed_node.completed_tasks[0], true);
}

#[test]
fn a_subheading_cannot_be_completed() {
    let mut view = view();
    let before = view.root_node.clone();
    assert_eq!(view.toggle_task(), Err(Error::CannotCompleteSubheading));
    assert!(view.root_node.same(&before));
}

#[test]
fn five_ticks_reach_the_document() {
    let mut view = view_on_a();
    assert!(view.try_activate().is_ok());
    for _ in 0..5 {
        assert!(view.has_room());
        assert_eq!(view.update_time(), Ok(()));
    }
    assert!(view.try_activate().is_ok());
    assert_eq!(view.tasks.active_time, None);
    assert_eq!(view.displayed_node.content_times[0], 5);
    assert_eq!(view.displayed_node.total_time, 5);
    assert_eq!(view.root_node.children[0].content_times, vec![5, 0]);
    assert_eq!(view.root_node.children[0].total_time, 5);
    assert_eq!(view.update_time(), Ok(()));
    assert_eq!(view.root_node.children[0].content_times, vec![5, 0]);
}

#[test]
fn the_time_of_a_subheading_shows_in_its_parent() {
    let mut view = view_on_a();
    assert!(view.try_activate().is_ok());
    assert_eq!(view.update_time(), Ok(()));
    assert_eq!(view.update_time(), Ok(()));
    assert!(view.enter_prev_node().is_ok());
    assert_eq!(view.tasks.lines[0].name, "# A");
    assert_eq!(view.tasks.lines[0].duration, 2);
    assert_eq!(view.tasks.lines[0].completed, false);
    assert_eq!(view.tasks.lines[1].completed, true);
}

#[test]
fn a_view_that_lost_its_document_reports_it_and_stays() {
    let mut view = view_on_a();
    view.root_node = Node::convert_from("# Other\n");
    let shown = view.displayed_node.clone();
    assert_eq!(view.toggle_task(), Err(Error::NotFound));
    assert_eq!(view.update_time(), Err(Error::NotFound));
    assert_eq!(view.enter_prev_node(), Err(Error::NotFound));
    assert!(view.displayed_node.same(&shown));
    assert_eq!(view.tasks.lines[0].completed, false);
}

#[test]
fn subheading_rows_are_found_by_line() {
    let view = view_on_a();
    assert!(view.get_subheading(1).is_none());
    assert!(view.get_subheading(2).is_none());
    assert_eq!(view.get_subheading(3).unwrap().heading, Some("## B".to_string()));
    assert!(view.get_subheading(4).is_none());
}

#[test]
fn lines_are_selected_within_the_page() {
    let mut view = view_on_a();
    assert_eq!(view.event(Key::Char('k')), EventState::Consumed);
    assert_eq!(view.selected_line, 1);
    assert_eq!(view.event(Key::Char('j')), EventState::Consumed);
    assert_eq!(view.selected_line, 2);
    assert_eq!(view.tasks.selected_line, 2);
    view.event(Key::Char('j'));
    view.event(Key::Char('j'));
    assert_eq!(view.selected_line, 3);
    assert_eq!(view.event(Key::Char('x')), EventState::NotConsumed);
    assert_eq!(view.event(Key::Other), EventState::NotConsumed);
}

#[test]
fn pages_turn_and_select_their_first_row() {
    let mut text = String::from("# A\n");
    for i in 0..60 {
        text.push_str(&format!("- [ ] task {}\n", i));
    }
    let mut view = TaskView::new(KeyConfig::default());
    view.on_file_changed(&text);
    assert!(view.enter_next_node().is_ok());
    assert_eq!(view.paginator.entry_len, 60);
    assert_eq!(view.content_height, 25);
    view.event(Key::Char('j'));
    assert_eq!(view.selected_line, 2);
    view.event(Key::Char('K'));
    assert_eq!(view.paginator.page, 1);
    assert_eq!(view.selected_line, 1);
    assert_eq!((view.tasks.page_start, view.tasks.page_end), (25, 50));
    view.event(Key::Char('K'));
    assert_eq!(view.paginator.page, 2);
    assert_eq!(view.content_height, 10);
    view.event(Key::Char('K'));
    assert_eq!(view.paginator.page, 2);
    assert_eq!(
        view.toggle_task(),
        Ok((InfoSubType::CompleteTask, "task 50".to_string()))
    );
    assert_eq!(view.root_node.children[0].completed_tasks[50], true);
    view.event(Key::Char('J'));
    assert_eq!(view.paginator.page, 1);
    assert_eq!(view.selected_line, 1);
    view.event(Key::Char('J'));
    view.event(Key::Char('J'));
    assert_eq!(view.paginator.page, 0);
}

#[test]
fn keys_do_what_they_are_bound_to() {
    let mut view = view();
    assert_eq!(
        view.handle_events(Key::Enter),
        Ok((InfoSubType::EnterSubheading, "# A".to_string()))
    );
    assert_eq!(
        view.handle_events(Key::Char('s')),
        Ok((InfoSubType::StartTimer, "1".to_string()))
    );
    assert_eq!(
        view.handle_events(Key::Char(' ')),
        Ok((InfoSubType::CompleteTask, "t1".to_string()))
    );
    assert_eq!(view.handle_events(Key::Char('s')), Err(Error::CannotTimeCompletedTask));
    assert_eq!(
        view.handle_events(Key::Char('b')),
        Ok((InfoSubType::EnterParent, "Root Node".to_string()))
    );
    assert_eq!(
        view.handle_events(Key::Char('q')),
        Ok((InfoSubType::Nothing, "erm".to_string()))
    );
}

#[test]
fn an_empty_view() {
    let mut view = TaskView::new(KeyConfig::default());
    assert!(view.root_node.same(&Node::new()));
    assert_eq!(view.paginator.page_size, 25);
    assert_eq!(view.enter_next_node(), Err(Error::NoSubheadingOnLine));
    assert_eq!(view.toggle_task(), Err(Error::CannotCompleteSubheading));
    assert_eq!(view.try_activate(), Err(Error::CannotTimeSubheading));
    assert_eq!(view.update_time(), Ok(()));
    view.update();
    assert_eq!(view.content_height, 0);
}

#[test]
fn the_view_stays_well_formed() {
    let mut view = view();
    assert!(view.is_wf());
    assert!(view.root_node.is_wf());
    let keys = [
        Key::Enter,
        Key::Char('s'),
        Key::Char(' '),
        Key::Char('j'),
        Key::Char('s'),
        Key::Char('j'),
        Key::Enter,
        Key::Char(' '),
        Key::Char('K'),
        Key::Char('b'),
        Key::Char('J'),
        Key::Char('b'),
        Key::Char('k'),
        Key::Other,
    ];
    for key in keys {
        view.handle_events(key).ok();
        assert!(view.is_wf());
        if view.has_room() {
            view.update_time().ok();
        }
        assert!(view.is_wf());
        view.update();
        assert!(view.is_wf());
        for node in [&view.root_node, &view.displayed_node] {
            assert_eq!(node.content.len(), node.completed_tasks.len());
            assert_eq!(node.content.len(), node.content_times.len());
        }
    }
}

#[test]
fn a_view_out_of_step_is_told_apart() {
    let mut view = view_on_a();
    assert!(view.is_wf());
    view.tasks.lines[0].duration = 7;
    assert!(!view.is_wf());
    view.tasks.lines[0].duration = 0;
    assert!(view.is_wf());
    view.displayed_node.completed_tasks.pop();
    assert!(!view.is_wf());
    let mut other = view_on_a();
    other.paginator.page = 1;
    assert!(!other.is_wf());
    let mut third = view_on_a();
    third.root_node.children[0].heading = None;
    assert!(!third.is_wf());
    let mut fourth = view_on_a();
    fourth.root_node.content_times = vec![u64::MAX];
    fourth.root_node.content = vec!["x".to_string()];
    fourth.root_node.completed_tasks = vec![false];
    fourth.root_node.children[0].content_times[0] = 1;
    assert!(!fourth.is_wf());
}
