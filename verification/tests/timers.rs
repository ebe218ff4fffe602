use task_timer::timer_view::{holds_line, TimeData, TimerView};

fn view() -> TimerView {
    let mut view = TimerView::new();
    view.update_time_data(2, vec![0], 0, false);
    view.update_time_data(3, vec![0], 1, false);
    view.update_time_data(5, vec![0, 1], 0, false);
    view
}

fn running(view: &TimerView) -> Vec<u16> {
    view.active_times().into_iter().map(|at| view.time_data[at].line_num).collect()
}

#[test]
fn timers_are_noted_once() {
    let mut view = view();
    assert_eq!(view.time_data.len(), 3);
    view.update_time_data(3, vec![0], 1, false);
    assert_eq!(view.time_data.len(), 3);
    view.update_time_data(3, vec![0], 1, true);
    assert_eq!(view.time_data.len(), 4);
    view.update_time_data(3, vec![1], 1, false);
    assert_eq!(view.time_data.len(), 5);
    assert_eq!(view.time_data[4].node_path, vec![1]);
}

#[test]
fn at_most_one_timer_runs() {
    let mut view = view();
    assert!(running(&view).is_empty());
    view.selected_line = 2;
    view.try_activate();
    assert_eq!(running(&view), vec![2]);
    view.selected_line = 5;
    view.try_activate();
    assert_eq!(running(&view), vec![5]);
    view.try_activate();
    assert!(running(&view).is_empty());
}

#[test]
fn a_line_without_a_task_switches_nothing() {
    let mut view = view();
    view.selected_line = 2;
    view.try_activate();
    view.selected_line = 4;
    view.try_activate();
    assert_eq!(running(&view), vec![2]);
}

#[test]
fn a_completed_task_is_not_timed() {
    let mut view = view();
    view.completed_tasks = vec![3];
    view.selected_line = 2;
    view.try_activate();
    view.selected_line = 3;
    view.try_activate();
    assert_eq!(running(&view), vec![2]);
    assert!(holds_line(&view.completed_tasks, 3));
    assert!(!holds_line(&view.completed_tasks, 2));
}

#[test]
fn timers_are_compared_in_every_part() {
    let a = TimeData { line_num: 1, node_path: vec![0, 2], task_num: 3, active: false };
    let b = TimeData { line_num: 1, node_path: vec![0, 2], task_num: 3, active: false };
    let c = TimeData { line_num: 1, node_path: vec![0, 1], task_num: 3, active: false };
    let d = TimeData { line_num: 1, node_path: vec![0, 2], task_num: 3, active: true };
    assert!(a.same(&b));
    assert!(!a.same(&c));
    assert!(!a.same(&d));
}
