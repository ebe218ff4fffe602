use task_timer::events::{EventState, Key, KeyConfig, PopupType, SessionState};
use task_timer::home::{TaskOverview, Timers};
use task_timer::error::Error;
use task_timer::info_subtype::{InfoSubType, LogType};
use task_timer::nary_tree;
use task_timer::session::{plan, Turn};
use task_timer::node::Node;
use task_timer::window::{handle_prompt_event, SelectedTab, Window};

const TEXT: &str = "# A\n- [ ] t1\n- [x] t2\n## B\n- [ ] b1\n# D\n";

fn window() -> Window {
    let mut window = Window::new("project", KeyConfig::default());
    window.update_tree(Node::convert_from(TEXT));
    window
}

#[test]
fn a_new_window() {
    let window = Window::new("project", KeyConfig::default());
    assert_eq!(window.title, "project");
    assert_eq!(window.selected_tab, SelectedTab::Tab1);
    assert_eq!(window.popup, PopupType::Closed);
    assert!(window.logger.logs.is_empty());
    assert!(window.extract_node().same(&Node::new()));
    assert_eq!(SelectedTab::Tab2.label(), "(2) Log");
}

#[test]
fn the_document_is_handed_out_as_a_copy() {
    let window = window();
    assert!(window.extract_node().same(&Node::convert_from(TEXT)));
}

#[test]
fn tab_keys_bring_their_tab_to_the_front() {
    let mut window = window();
    assert_eq!(window.event(Key::Char('2')), EventState::Consumed);
    assert_eq!(window.selected_tab, SelectedTab::Tab2);
    assert_eq!(window.event(Key::Char('3')), EventState::Consumed);
    assert_eq!(window.selected_tab, SelectedTab::Tab3);
    assert_eq!(window.event(Key::Char('j')), EventState::NotConsumed);
    assert_eq!(window.event(Key::Char('1')), EventState::Consumed);
    assert_eq!(window.selected_tab, SelectedTab::Tab1);
}

#[test]
fn keys_go_to_the_tab_in_front() {
    let mut window = window();
    assert_eq!(window.event(Key::Enter), EventState::Consumed);
    assert_eq!(window.task_view.displayed_node.heading, Some("# A".to_string()));
    assert_eq!(window.event(Key::Char('l')), EventState::NotConsumed);
    window.event(Key::Char('2'));
    assert_eq!(window.event(Key::Char('l')), EventState::Consumed);
    assert_eq!(window.event(Key::Enter), EventState::NotConsumed);
    assert_eq!(window.task_view.displayed_node.heading, Some("# A".to_string()));
}

#[test]
fn what_the_task_view_reports_is_logged() {
    let mut window = window();
    assert_eq!(window.handle_events(Key::Enter), SessionState::Running);
    assert_eq!(window.logger.logs.len(), 1);
    assert_eq!(window.logger.logs[0].message, "Entering subheading:  # A");
    assert_eq!(
        window.logger.logs[0].log_type,
        LogType::INFO(InfoSubType::EnterSubheading)
    );
    assert_eq!(window.handle_events(Key::Char('j')), SessionState::Running);
    assert_eq!(window.logger.logs.len(), 1);
    assert_eq!(window.handle_events(Key::Char('s')), SessionState::Running);
    assert_eq!(window.logger.logs[1].message, "Cannot start a time on a completed task");
    assert_eq!(window.logger.logs[1].log_type, LogType::ERROR);
    assert_eq!(window.handle_events(Key::Char(' ')), SessionState::Running);
    assert_eq!(window.logger.logs[2].message, "Cancelling completion of task: t2");
    assert_eq!(window.handle_events(Key::Char('s')), SessionState::Running);
    assert_eq!(window.logger.logs[3].message, "Starting time on task at line: 2");
}

#[test]
fn the_quit_key_opens_the_prompt() {
    let mut window = window();
    assert_eq!(window.handle_events(Key::Esc), SessionState::AwaitingPrompt);
    assert_eq!(window.popup, PopupType::ConfirmQuit);
    assert_eq!(window.handle_events(Key::Char('x')), SessionState::AwaitingPrompt);
    assert_eq!(window.popup, PopupType::ConfirmQuit);
    assert_eq!(window.handle_events(Key::Char('n')), SessionState::Running);
    assert_eq!(window.popup, PopupType::Closed);
    assert_eq!(window.handle_events(Key::Esc), SessionState::AwaitingPrompt);
    assert_eq!(window.handle_events(Key::Char('y')), SessionState::Quitting);
    assert_eq!(window.popup, PopupType::Closed);
}

#[test]
fn answers_to_the_prompt() {
    assert_eq!(handle_prompt_event(Key::Char('y')), SessionState::Quitting);
    assert_eq!(handle_prompt_event(Key::Esc), SessionState::Quitting);
    assert_eq!(handle_prompt_event(Key::Char('n')), SessionState::Running);
    assert_eq!(handle_prompt_event(Key::Enter), SessionState::AwaitingPrompt);
    assert_eq!(handle_prompt_event(Key::Other), SessionState::AwaitingPrompt);
}

#[test]
fn while_the_prompt_is_open_keys_do_nothing_else() {
    let mut window = window();
    window.handle_events(Key::Esc);
    window.handle_events(Key::Enter);
    assert!(window.task_view.displayed_node.same(&window.task_view.root_node));
    assert!(window.logger.logs.is_empty());
}

#[test]
fn ticks_through_the_window() {
    let mut window = window();
    window.handle_events(Key::Enter);
    window.handle_events(Key::Char('s'));
    window.update_time();
    window.update_time();
    assert_eq!(window.extract_node().children[0].content_times, vec![2, 0]);
    window.task_view.root_node = Node::new();
    window.update_time();
    let last = window.logger.logs.last().unwrap();
    assert_eq!(last.log_type, LogType::ERROR);
    assert_eq!(last.message, Error::NotFound.message());
}

#[test]
fn update_styles_rows_and_lists_kinds() {
    let mut window = window();
    window.handle_events(Key::Enter);
    window.handle_events(Key::Char('j'));
    window.update();
    let lines = &window.task_view.tasks.lines;
    assert!(!lines[0].style.selected && !lines[0].style.completed);
    assert!(lines[1].style.selected && lines[1].style.completed);
    assert!(!lines[2].style.selected);
    window.logger.next_filter();
    window.update();
    assert_eq!(window.logger.available_subfilters.len(), 1);
}

#[test]
fn a_saved_window_is_taken_over() {
    let mut saved = window();
    saved.handle_events(Key::Enter);
    saved.handle_events(Key::Char('2'));
    let mut fresh = Window::new("fresh", KeyConfig::default());
    fresh.load(saved, KeyConfig::default());
    assert_eq!(fresh.title, "project");
    assert_eq!(fresh.selected_tab, SelectedTab::Tab2);
    assert_eq!(fresh.task_view.displayed_node.heading, Some("# A".to_string()));
    assert_eq!(fresh.logger.logs.len(), 1);
}

#[test]
fn the_two_columns_of_a_heading() {
    let mut node = Node::convert_from(TEXT);
    node.children[0].children[0].content_times[0] = 9;
    node.children[0].content_times[0] = 4;
    let a = &node.children[0];
    let mut timers = Timers::new(a);
    assert_eq!(timers.lines, vec![(false, 4), (true, 0), (false, 9)]);
    assert_eq!(timers.task_offset, 2);
    assert_eq!(timers.content_height, 3);
    assert_eq!(timers.task_slice(), &[(false, 4), (true, 0)]);
    assert_eq!(timers.subheading_slice(), &[(false, 9)]);
    let flags: Vec<bool> = timers.subheading_slice().iter().map(|e| e.0).collect();
    let mut names = TaskOverview::new(a, &flags);
    assert_eq!(
        names.lines,
        vec![
            (false, "t1".to_string()),
            (true, "t2".to_string()),
            (false, "## B".to_string())
        ]
    );
    assert_eq!(names.content_height, 3);
    names.slice_bounds(0, 3);
    timers.slice_bounds(0, 3);
    assert_eq!(
        timers.try_activate(),
        Ok((InfoSubType::StartTimer, "1".to_string()))
    );
    assert!(timers.active_on_line());
    for _ in 0..5 {
        timers.update_time();
    }
    assert!(timers.try_activate().is_ok());
    assert_eq!(timers.lines[0], (false, 9));
    assert_eq!(timers.active_time, None);
    timers.selected_line = 2;
    assert_eq!(timers.try_activate(), Err(Error::CannotTimeCompletedTask));
    timers.selected_line = 3;
    assert_eq!(timers.try_activate(), Err(Error::CannotTimeSubheading));
    assert_eq!(timers.active_time, None);
    assert_eq!(Timers::format_duration(3725), "[01:02:05]");
}

#[test]
fn a_plain_tree_is_displayed_depth_first() {
    let mut root = nary_tree::Node::new("root");
    let mut a = nary_tree::Node::new("a");
    a.insert(nary_tree::Node::new("a1"));
    a.insert(nary_tree::Node::new("a2"));
    root.insert(a);
    root.insert(nary_tree::Node::new("b"));
    let rows: Vec<(usize, &str)> = root.display().into_iter().map(|(d, v)| (d, *v)).collect();
    assert_eq!(rows, vec![(0, "root"), (1, "a"), (2, "a1"), (2, "a2"), (1, "b")]);
}

#[test]
fn what_a_turn_of_the_loop_does() {
    assert_eq!(plan(SessionState::Quitting, true, 5, 100), Turn::Leave);
    assert_eq!(
        plan(SessionState::Running, false, 0, 0),
        Turn::Work { reparse: false, tick: false, save: false }
    );
    assert_eq!(
        plan(SessionState::Running, true, 1, 59),
        Turn::Work { reparse: true, tick: true, save: false }
    );
    assert_eq!(
        plan(SessionState::AwaitingPrompt, false, 3, 60),
        Turn::Work { reparse: false, tick: true, save: true }
    );
}
