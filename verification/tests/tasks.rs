use task_timer::error::Error;
use task_timer::info_subtype::InfoSubType;
use task_timer::node::Node;
use task_timer::tasks::{RowStyle, Tasks};

fn rows() -> Tasks {
    let mut node = Node::convert_from("# A\n- [ ] t1\n- [x] t2\n## B\n- [x] b1\n## C\n- [ ] c1\n");
    node.children[0].content_times[0] = 3;
    node.children[0].children[0].content_times[0] = 40;
    let mut tasks = Tasks::new(&node.children[0]);
    let len = tasks.lines.len();
    tasks.slice_bounds(0, len);
    tasks
}

#[test]
fn rows_are_the_tasks_then_the_subheading_summaries() {
    let tasks = rows();
    assert_eq!(tasks.task_offset, 2);
    assert_eq!(tasks.lines.len(), 4);
    let shown: Vec<(&str, u64, bool)> = tasks
        .lines
        .iter()
        .map(|t| (t.name.as_str(), t.duration, t.completed))
        .collect();
    assert_eq!(
        shown,
        vec![("t1", 3, false), ("t2", 0, true), ("## B", 40, true), ("## C", 0, false)]
    );
    assert_eq!(tasks.selected_line, 1);
    assert_eq!(tasks.content_height, 2);
    assert_eq!(tasks.active_time, None);
    assert_eq!(tasks.task_slice().len(), 2);
    assert_eq!(tasks.task_slice()[1].name, "t2");
}

#[test]
fn activate_tick_five_times_and_stop() {
    let mut tasks = rows();
    let before = tasks.lines[0].duration;
    let started = tasks.try_activate();
    assert_eq!(started, Ok((InfoSubType::StartTimer, "1".to_string())));
    assert_eq!(tasks.active_time, Some(0));
    assert!(tasks.active_on_line());
    for _ in 0..5 {
        tasks.update_time();
    }
    let stopped = tasks.try_activate();
    assert_eq!(stopped, Ok((InfoSubType::StopTimer, "1".to_string())));
    assert_eq!(tasks.lines[0].duration, before + 5);
    assert_eq!(tasks.active_time, None);
    assert_eq!(tasks.lines[1].duration, 0);
    assert_eq!(tasks.lines[2].duration, 40);
}

#[test]
fn a_tick_without_a_timer_changes_nothing() {
    let mut tasks = rows();
    tasks.update_time();
    let times: Vec<u64> = tasks.lines.iter().map(|t| t.duration).collect();
    assert_eq!(times, vec![3, 0, 40, 0]);
}

#[test]
fn a_completed_task_cannot_be_timed() {
    let mut tasks = rows();
    tasks.update(2);
    assert_eq!(tasks.try_activate(), Err(Error::CannotTimeCompletedTask));
    assert_eq!(tasks.active_time, None);
}

#[test]
fn a_subheading_cannot_be_timed() {
    let mut tasks = rows();
    tasks.update(3);
    assert_eq!(tasks.try_activate(), Err(Error::CannotTimeSubheading));
    assert_eq!(tasks.active_time, None);
    tasks.update(4);
    assert_eq!(tasks.try_activate(), Err(Error::CannotTimeSubheading));
    assert_eq!(tasks.active_time, None);
}

#[test]
fn a_running_timer_is_stopped_whatever_row_is_selected() {
    let mut tasks = rows();
    assert!(tasks.try_activate().is_ok());
    tasks.update(3);
    assert!(!tasks.active_on_line());
    assert_eq!(tasks.try_activate(), Ok((InfoSubType::StopTimer, "3".to_string())));
    assert_eq!(tasks.active_time, None);
}

#[test]
fn toggling_the_timed_task_stops_the_timer() {
    let mut tasks = rows();
    assert!(tasks.try_activate().is_ok());
    assert_eq!(tasks.toggle_task(0), InfoSubType::CompleteTask);
    assert_eq!(tasks.active_time, None);
    assert!(tasks.lines[0].completed);
    assert_eq!(tasks.toggle_task(0), InfoSubType::UncompleteTask);
    assert!(!tasks.lines[0].completed);
}

#[test]
fn toggling_another_task_leaves_the_timer() {
    let mut tasks = rows();
    assert!(tasks.try_activate().is_ok());
    assert_eq!(tasks.toggle_task(1), InfoSubType::UncompleteTask);
    assert_eq!(tasks.active_time, Some(0));
    assert!(!tasks.lines[1].completed);
}

#[test]
fn the_timer_counts_rows_over_all_pages() {
    let mut tasks = rows();
    tasks.lines[1].completed = false;
    tasks.slice_bounds(1, 3);
    tasks.update(1);
    assert_eq!(tasks.try_activate(), Ok((InfoSubType::StartTimer, "1".to_string())));
    assert_eq!(tasks.active_time, Some(1));
    tasks.update_time();
    assert_eq!(tasks.lines[1].duration, 1);
    assert_eq!(tasks.lines[0].duration, 3);
}

#[test]
fn update_styles_the_rows_of_the_page() {
    let mut tasks = rows();
    tasks.slice_bounds(1, 4);
    tasks.update(2);
    assert_eq!(tasks.selected_line, 2);
    assert_eq!(tasks.lines[0].style, RowStyle { selected: false, completed: false });
    assert_eq!(tasks.lines[1].style, RowStyle { selected: false, completed: true });
    assert_eq!(tasks.lines[2].style, RowStyle { selected: true, completed: true });
    assert_eq!(tasks.lines[3].style, RowStyle { selected: false, completed: false });
}

#[test]
fn no_rows() {
    let mut tasks = Tasks::empty();
    assert!(tasks.lines.is_empty());
    assert_eq!(tasks.try_activate(), Err(Error::CannotTimeSubheading));
    tasks.update_time();
    assert!(!tasks.active_on_line());
}
