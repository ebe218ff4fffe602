use task_timer::events::{EventState, Key, KeyConfig};
use task_timer::info_subtype::{InfoSubType, LogType};
use task_timer::log_view::{find_kind, holds, Filter, LogView, SubFilter};
use task_timer::time_stamp::TimeStamp;

fn stamp(seconds: u32) -> TimeStamp {
    TimeStamp { day: 3, month: "May".to_string(), hours: 7, minutes: 5, seconds }
}

fn filled(n: usize) -> LogView {
    let mut log = LogView::new(KeyConfig::default());
    for i in 0..n {
        log.log_at(&format!("m{}", i), LogType::ERROR, stamp((i % 60) as u32));
    }
    log
}

fn messages(log: &LogView) -> Vec<String> {
    log.logs.iter().map(|e| e.message.clone()).collect()
}

#[test]
fn a_new_log_is_empty() {
    let log = LogView::new(KeyConfig::default());
    assert!(log.logs.is_empty());
    assert_eq!(log.selected_filter, Filter::ALL);
    assert_eq!(log.selected_subfilter, None);
    assert_eq!(log.paginator.page_size, 8);
    assert_eq!(log.paginator.entry_len, 0);
    assert!(log.recent().is_empty());
    assert!(log.page_entries().is_empty());
}

#[test]
fn entries_are_kept_in_order() {
    let log = filled(3);
    assert_eq!(messages(&log), vec!["m0", "m1", "m2"]);
    assert_eq!(log.logs[1].log_type, LogType::ERROR);
    assert_eq!(log.logs[2].time_stamp.seconds, 2);
    assert_eq!(log.paginator.entry_len, 3);
}

#[test]
fn the_oldest_entry_leaves_at_the_limit() {
    let log = filled(98);
    assert_eq!(log.logs.len(), 98);
    let log = filled(99);
    assert_eq!(log.logs.len(), 99);
    assert_eq!(log.logs[0].message, "m0");
    let log = filled(100);
    assert_eq!(log.logs.len(), 99);
    assert_eq!(log.logs[0].message, "m1");
    assert_eq!(log.logs[98].message, "m99");
    assert_eq!(log.paginator.entry_len, 99);
    let log = filled(250);
    assert_eq!(log.logs.len(), 99);
    assert_eq!(log.logs[0].message, "m151");
}

#[test]
fn log_stamps_the_entry_with_a_time_of_day() {
    let mut log = LogView::new(KeyConfig::default());
    log.log("hello", LogType::INFO(InfoSubType::General));
    assert_eq!(log.logs.len(), 1);
    let entry = &log.logs[0];
    assert_eq!(entry.message, "hello");
    assert_eq!(entry.log_type, LogType::INFO(InfoSubType::General));
    let t = &entry.time_stamp;
    assert!(1 <= t.day && t.day <= 31);
    assert!(t.hours <= 23 && t.minutes <= 59 && t.seconds <= 59);
    assert!(!t.month.is_empty());
}

#[test]
fn a_stamp_prints_day_month_and_time() {
    assert_eq!(stamp(9).print(), "3 May: 07:05:09");
    let late = TimeStamp { day: 31, month: "December".to_string(), hours: 23, minutes: 59, seconds: 59 };
    assert_eq!(late.print(), "31 December: 23:59:59");
}

#[test]
fn recent_gives_the_last_fifteen() {
    assert_eq!(filled(4).recent().len(), 4);
    let recent = filled(40).recent();
    assert_eq!(recent.len(), 15);
    assert_eq!(recent[0].message, "m25");
    assert_eq!(recent[14].message, "m39");
    assert_eq!(filled(15).recent()[0].message, "m0");
}

#[test]
fn filters_step_through_the_levels() {
    assert_eq!(Filter::ALL.prev(), Filter::ALL);
    assert_eq!(Filter::ALL.next(), Filter::INFO);
    assert_eq!(Filter::INFO.next(), Filter::ERROR);
    assert_eq!(Filter::ERROR.next(), Filter::ERROR);
    assert_eq!(Filter::ERROR.prev(), Filter::INFO);
    assert_eq!(Filter::INFO.prev(), Filter::ALL);
    assert_eq!(Filter::default(), Filter::ALL);
    assert_eq!(Filter::INFO.label(), "Info");
}

#[test]
fn filters_let_their_level_through() {
    let info = LogType::INFO(InfoSubType::Save);
    assert!(Filter::ALL.includes(info));
    assert!(Filter::ALL.includes(LogType::ERROR));
    assert!(Filter::INFO.includes(info));
    assert!(!Filter::INFO.includes(LogType::ERROR));
    assert!(!Filter::ERROR.includes(info));
    assert!(Filter::ERROR.includes(LogType::ERROR));
}

fn mixed() -> LogView {
    let mut log = LogView::new(KeyConfig::default());
    log.log_at("a", LogType::INFO(InfoSubType::StartTimer), stamp(0));
    log.log_at("b", LogType::ERROR, stamp(1));
    log.log_at("c", LogType::INFO(InfoSubType::General), stamp(2));
    log.log_at("d", LogType::INFO(InfoSubType::StartTimer), stamp(3));
    log.log_at("e", LogType::INFO(InfoSubType::CompleteTask), stamp(4));
    log
}

#[test]
fn the_level_info_narrows_to_the_general_kind() {
    let mut log = mixed();
    log.next_filter();
    assert_eq!(log.selected_filter, Filter::INFO);
    assert_eq!(
        log.selected_subfilter,
        Some(SubFilter { info_type: InfoSubType::General, selected: true })
    );
    log.next_filter();
    assert_eq!(log.selected_filter, Filter::ERROR);
    assert_eq!(log.selected_subfilter, None);
    log.prev_filter();
    assert_eq!(log.selected_filter, Filter::INFO);
    assert!(log.selected_subfilter.is_some());
    log.prev_filter();
    assert_eq!(log.selected_subfilter, None);
}

#[test]
fn the_row_of_kinds_lists_each_kind_once() {
    let mut log = mixed();
    assert!(log.available_subfilters().is_empty());
    log.next_filter();
    log.update();
    assert_eq!(
        log.available_subfilters,
        vec![
            SubFilter { info_type: InfoSubType::StartTimer, selected: false },
            SubFilter { info_type: InfoSubType::General, selected: true },
            SubFilter { info_type: InfoSubType::CompleteTask, selected: false },
        ]
    );
}

#[test]
fn kinds_are_stepped_through_in_a_round() {
    let mut log = mixed();
    log.next_filter();
    log.update();
    log.next_subfilter();
    assert_eq!(log.selected_subfilter.unwrap().info_type, InfoSubType::CompleteTask);
    log.update();
    log.next_subfilter();
    assert_eq!(log.selected_subfilter.unwrap().info_type, InfoSubType::StartTimer);
    log.update();
    log.prev_subfilter();
    assert_eq!(log.selected_subfilter.unwrap().info_type, InfoSubType::CompleteTask);
    log.update();
    log.prev_subfilter();
    assert_eq!(log.selected_subfilter.unwrap().info_type, InfoSubType::General);
    assert_eq!(log.logs.len(), 5);
}

#[test]
fn a_kind_that_is_not_on_the_row_is_reported() {
    let mut log = mixed();
    log.next_filter();
    log.next_subfilter();
    assert_eq!(log.logs.len(), 6);
    assert_eq!(log.logs[5].log_type, LogType::ERROR);
    assert_eq!(
        log.logs[5].message,
        "Could not select next subfilter. Current subfilter not found"
    );
    log.prev_subfilter();
    assert_eq!(
        log.logs[6].message,
        "Could not select previous subfilter. Current subfilter not found"
    );
    assert_eq!(log.selected_subfilter.unwrap().info_type, InfoSubType::General);
}

#[test]
fn without_a_kind_stepping_does_nothing() {
    let mut log = mixed();
    log.next_subfilter();
    log.prev_subfilter();
    assert_eq!(log.logs.len(), 5);
    assert_eq!(log.selected_subfilter, None);
}

#[test]
fn a_page_shows_what_the_filters_let_through_newest_first() {
    let mut log = mixed();
    assert_eq!(log.page_entries(), vec![4, 3, 2, 1, 0]);
    log.next_filter();
    assert_eq!(log.page_entries(), vec![2]);
    log.update();
    log.next_subfilter();
    assert_eq!(log.page_entries(), vec![4]);
    log.next_filter();
    assert_eq!(log.page_entries(), vec![1]);
}

#[test]
fn pages_of_the_log() {
    let mut log = filled(20);
    assert_eq!(log.page_entries(), vec![7, 6, 5, 4, 3, 2, 1, 0]);
    assert_eq!(log.event(Key::Char('K')), EventState::Consumed);
    assert_eq!(log.paginator.page, 1);
    assert_eq!(log.page_entries(), vec![15, 14, 13, 12, 11, 10, 9, 8]);
    log.event(Key::Char('K'));
    assert_eq!(log.page_entries(), vec![19, 18, 17, 16]);
    log.event(Key::Char('K'));
    assert_eq!(log.paginator.page, 2);
    log.event(Key::Char('J'));
    assert_eq!(log.paginator.page, 1);
}

#[test]
fn keys_of_the_log() {
    let mut log = mixed();
    assert_eq!(log.event(Key::Char('l')), EventState::Consumed);
    assert_eq!(log.selected_filter, Filter::INFO);
    log.update();
    assert_eq!(log.event(Key::Char('L')), EventState::Consumed);
    assert_eq!(log.selected_subfilter.unwrap().info_type, InfoSubType::CompleteTask);
    assert_eq!(log.event(Key::Char('H')), EventState::Consumed);
    assert_eq!(log.selected_subfilter.unwrap().info_type, InfoSubType::General);
    assert_eq!(log.event(Key::Char('h')), EventState::Consumed);
    assert_eq!(log.selected_filter, Filter::ALL);
    assert_eq!(log.event(Key::Char('x')), EventState::NotConsumed);
    assert_eq!(log.event(Key::Enter), EventState::NotConsumed);
}

#[test]
fn kinds_are_found_by_their_first_position() {
    let kinds = vec![
        SubFilter { info_type: InfoSubType::Save, selected: false },
        SubFilter { info_type: InfoSubType::General, selected: true },
        SubFilter { info_type: InfoSubType::Save, selected: true },
    ];
    assert_eq!(find_kind(&kinds, InfoSubType::Save), Some(0));
    assert_eq!(find_kind(&kinds, InfoSubType::General), Some(1));
    assert_eq!(find_kind(&kinds, InfoSubType::StopTimer), None);
    assert!(holds(&kinds, SubFilter { info_type: InfoSubType::Save, selected: true }));
    assert!(!holds(&kinds, SubFilter { info_type: InfoSubType::General, selected: false }));
}
