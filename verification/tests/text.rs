use task_timer::controls::{ControlView, Controls, Popup};
use task_timer::events::{EventState, Key, KeyConfig, PopupType, SessionState};
use task_timer::info_subtype::{InfoSubType, LogType};
use task_timer::navigation_bar::NavigationBar;
use task_timer::text::{
    clock_string, decimal_string, is_white_space, string_of, sub_chars, to_chars, trimmed_string,
};

#[test]
fn white_space_is_what_std_calls_white_space() {
    let mut c = 0u32;
    while c <= 0x10ffff {
        if let Some(ch) = char::from_u32(c) {
            assert_eq!(is_white_space(ch), ch.is_whitespace(), "U+{:04X}", c);
        }
        c += 1;
    }
}

#[test]
fn trimming_is_what_std_does() {
    let samples = [
        "",
        " ",
        "a",
        "  a b  ",
        "\t x\u{a0}",
        "\u{3000}wide\u{2003}",
        "no-space",
        " \n mixed \r\n",
        "é ü",
    ];
    for s in samples {
        let chars = to_chars(s);
        assert_eq!(trimmed_string(&chars, 0), s.trim(), "{:?}", s);
    }
    let chars = to_chars("- [ ]   padded  ");
    assert_eq!(trimmed_string(&chars, 6), "padded");
    assert_eq!(trimmed_string(&chars, chars.len()), "");
}

#[test]
fn characters_and_ranges() {
    let chars = to_chars("héllo");
    assert_eq!(chars, vec!['h', 'é', 'l', 'l', 'o']);
    assert_eq!(string_of(&chars, 1, 4), "éll");
    assert_eq!(string_of(&chars, 2, 2), "");
    assert_eq!(sub_chars(&chars, 3, 5), vec!['l', 'o']);
}

#[test]
fn numbers_in_decimal() {
    assert_eq!(decimal_string(0), "0");
    assert_eq!(decimal_string(7), "7");
    assert_eq!(decimal_string(10), "10");
    assert_eq!(decimal_string(65535), "65535");
    assert_eq!(decimal_string(u64::MAX), u64::MAX.to_string());
}

#[test]
fn times_as_a_clock() {
    assert_eq!(clock_string(0), "[00:00:00]");
    assert_eq!(clock_string(5), "[00:00:05]");
    assert_eq!(clock_string(59), "[00:00:59]");
    assert_eq!(clock_string(60), "[00:01:00]");
    assert_eq!(clock_string(3599), "[00:59:59]");
    assert_eq!(clock_string(3600), "[01:00:00]");
    assert_eq!(clock_string(86399), "[23:59:59]");
    assert_eq!(clock_string(360000), "[100:00:00]");
}

#[test]
fn messages_name_their_subject() {
    assert_eq!(InfoSubType::EnterSubheading.message("# A"), "Entering subheading:  # A");
    assert_eq!(InfoSubType::EnterParent.message("Root Node"), "Entering parent: Root Node");
    assert_eq!(InfoSubType::CompleteTask.message("t"), "Completing task: t");
    assert_eq!(InfoSubType::UncompleteTask.message("t"), "Cancelling completion of task: t");
    assert_eq!(InfoSubType::StartTimer.message("3"), "Starting time on task at line: 3");
    assert_eq!(InfoSubType::StopTimer.message("3"), "Stopping timer on task at line: 3");
    assert_eq!(InfoSubType::Save.message("x"), "Successfully saved the project");
    assert_eq!(InfoSubType::General.message("x"), "erm");
    assert_eq!(InfoSubType::Nothing.message("x"), "erm");
}

#[test]
fn kinds_step_through_their_order() {
    let order = [
        InfoSubType::General,
        InfoSubType::EnterSubheading,
        InfoSubType::EnterParent,
        InfoSubType::CompleteTask,
        InfoSubType::UncompleteTask,
        InfoSubType::StartTimer,
        InfoSubType::StopTimer,
        InfoSubType::Save,
        InfoSubType::Nothing,
    ];
    for i in 0..order.len() {
        let next = if i + 1 < order.len() { order[i + 1] } else { order[i] };
        let prev = if i > 0 { order[i - 1] } else { order[i] };
        assert_eq!(order[i].next(), next);
        assert_eq!(order[i].prev(), prev);
    }
    assert_eq!(InfoSubType::default(), InfoSubType::General);
}

#[test]
fn labels() {
    assert_eq!(InfoSubType::General.label(), "General");
    assert_eq!(InfoSubType::EnterSubheading.label(), "Parent Entry");
    assert_eq!(InfoSubType::EnterParent.label(), "Subheading Entry");
    assert_eq!(InfoSubType::Save.label(), "Saving State");
    assert_eq!(InfoSubType::Nothing.label(), "None");
    assert_eq!(LogType::INFO(InfoSubType::General).label(), "INFO");
    assert_eq!(LogType::ERROR.label(), "ERROR");
}

#[test]
fn the_trail_holds_heading_names() {
    let mut bar = NavigationBar::new();
    assert_eq!(bar.back_text, " (b) Back ");
    assert!(bar.breadcrumbs.is_empty());
    bar.pop_breadcrumb();
    assert!(bar.breadcrumbs.is_empty());
    bar.push_breadcrumb("# Project".to_string());
    bar.push_breadcrumb("##   Deep  one ".to_string());
    bar.push_breadcrumb("plain".to_string());
    bar.push_breadcrumb("###".to_string());
    bar.push_breadcrumb("# a # b".to_string());
    assert_eq!(bar.breadcrumbs, vec!["Project", "Deep  one", "plain", "", "a # b"]);
    bar.pop_breadcrumb();
    bar.pop_breadcrumb();
    assert_eq!(bar.breadcrumbs, vec!["Project", "Deep  one", "plain"]);
}

#[test]
fn the_help_page() {
    let controls = Controls::new();
    assert_eq!(controls.main_controls.title, "Main");
    assert_eq!(controls.log_controls.title, "Log");
    assert_eq!(controls.main_controls.control_list.len(), 8);
    assert_eq!(
        controls.main_controls.control_list[0],
        ("j".to_string(), "Next Line".to_string())
    );
    assert_eq!(
        controls.main_controls.control_list[4],
        ("↵".to_string(), "Enter Heading".to_string())
    );
    assert_eq!(
        controls.main_controls.control_list[7],
        ("b".to_string(), "Ender Parent Heading".to_string())
    );
    assert_eq!(controls.log_controls.control_list.len(), 6);
    assert_eq!(
        controls.log_controls.control_list[5],
        ("k".to_string(), "Previous Log Page ".to_string())
    );
    let row = ControlView::new();
    assert_eq!(row.controls.len(), 5);
    assert_eq!(row.controls[3], ("o".to_string(), "Open Headings".to_string()));
    assert_eq!(Popup::new("Quit?".to_string()).message, "Quit?");
}

#[test]
fn keys_and_states() {
    let keys = KeyConfig::default();
    assert_eq!(keys.enter, Key::Enter);
    assert_eq!(keys.quit, Key::Esc);
    assert_eq!(keys.down, Key::Char('j'));
    assert_eq!(keys.up, Key::Char('k'));
    assert_eq!(keys.page_up, Key::Char('J'));
    assert_eq!(keys.page_down, Key::Char('K'));
    assert_eq!(keys.complete, Key::Char(' '));
    assert_eq!(keys.next_subfilter, Key::Char('L'));
    assert!(EventState::Consumed.is_consumed());
    assert!(!EventState::NotConsumed.is_consumed());
    assert_eq!(SessionState::default(), SessionState::Running);
    let mut popup = PopupType::ConfirmQuit;
    assert_eq!(popup.event(Key::Char('y')), EventState::NotConsumed);
    assert_eq!(popup, PopupType::ConfirmQuit);
}
