//! The window: the task view, the log and the help page on three tabs, and
//! the prompt that may lie over them.

use crate::controls::Controls;
use crate::error::Error;
use crate::events::{EventState, Key, KeyConfig, PopupType, SessionState};
use crate::info_subtype::{InfoSubType, LogType};
use crate::log_view::{logged, record_of, LogView};
use crate::node::Node;
use crate::paginator::Paginator;
use crate::task_view::TaskView;
use crate::time_stamp::TimeStamp;
use vstd::prelude::*;
use vstd::string::*;

verus! {

/// The three tabs.
#[derive(Clone, Copy, Debug, PartialEq, Eq, Structural)]
pub enum SelectedTab {
    Tab1,
    Tab2,
    Tab3,
}

impl SelectedTab {
    /// The name of the tab.
    pub open spec fn label_text(self) -> Seq<char> {
        match self {
            SelectedTab::Tab1 => "(1) Main"@,
            SelectedTab::Tab2 => "(2) Log"@,
            SelectedTab::Tab3 => "(3) Controls"@,
        }
    }

    /// The name of the tab.
    pub fn label(&self) -> (text: String)
        ensures
            text@ == self.label_text(),
    {
        String::from_str(
            match self {
                SelectedTab::Tab1 => "(1) Main",
                SelectedTab::Tab2 => "(2) Log",
                SelectedTab::Tab3 => "(3) Controls",
            },
        )
    }
}

/// What the answer to a key gives the log to report: the level and the
/// message; nothing for an answer of the kind that reports nothing.
pub open spec fn report_of(r: Result<(InfoSubType, String), Error>) -> Option<
    (LogType, Seq<char>),
> {
    match r {
        Ok((info, text)) => if info == InfoSubType::Nothing {
            None
        } else {
            Some((LogType::INFO(info), info.message_text(text@)))
        },
        Err(e) => Some((LogType::ERROR, e.message_text())),
    }
}

/// The log after a report: one entry more, stamped with some time of day;
/// the log as it was where there is nothing to report.
pub open spec fn reported(
    pre: &LogView,
    post: &LogView,
    report: Option<(LogType, Seq<char>)>,
) -> bool {
    match report {
        Some((log_type, message)) => {
            &&& exists|stamp: TimeStamp|
                stamp.valid() && post.records() == logged(
                    pre.records(),
                    #[trigger] record_of(log_type, stamp, message),
                )
            &&& post.paginator == (Paginator { entry_len: post.logs.len(), ..pre.paginator })
            &&& post.selected_filter == pre.selected_filter
            &&& post.selected_subfilter == pre.selected_subfilter
            &&& post.available_subfilters == pre.available_subfilters
            &&& post.key_config == pre.key_config
        },
        None => *post == *pre,
    }
}

/// What a key answers to the prompt: `y` and the escape key quit, `n` goes
/// on, any other key leaves the prompt open.
pub open spec fn prompt_answer(key: Key) -> SessionState {
    if key == Key::Char('y') || key == Key::Esc {
        SessionState::Quitting
    } else if key == Key::Char('n') {
        SessionState::Running
    } else {
        SessionState::AwaitingPrompt
    }
}

/// What a key answers to the prompt.
pub fn handle_prompt_event(key: Key) -> (state: SessionState)
    ensures
        state == prompt_answer(key),
{
    match key {
        Key::Char(c) => if c == 'y' {
            SessionState::Quitting
        } else if c == 'n' {
            SessionState::Running
        } else {
            SessionState::AwaitingPrompt
        },
        Key::Esc => SessionState::Quitting,
        _ => SessionState::AwaitingPrompt,
    }
}

/// The window with all that it shows.
#[derive(Debug)]
pub struct Window {
    pub title: String,
    pub selected_tab: SelectedTab,
    pub task_view: TaskView,
    pub logger: LogView,
    pub controls: Controls,
    pub popup: PopupType,
    pub key_config: KeyConfig,
}

impl Window {
    /// The task view and the log are well-formed.
    pub open spec fn wf(&self) -> bool {
        self.task_view.wf() && self.logger.wf()
    }

    /// Whether the window is well-formed.
    pub fn is_wf(&self) -> (r: bool)
        ensures
            r == self.wf(),
    {
        self.task_view.is_wf() && self.logger.is_wf()
    }

    /// A window on an empty document, with the task view in front.
    pub fn new(title: &str, key_config: KeyConfig) -> (window: Window)
        ensures
            window.title@ == title@,
            window.selected_tab == SelectedTab::Tab1,
            window.popup == PopupType::Closed,
            window.key_config == key_config,
            window.task_view.key_config == key_config,
            window.logger.key_config == key_config,
            window.task_view.root_node@ == crate::node::Tree::leaf(None),
            window.logger.records().len() == 0,
            window.wf(),
            window.task_view.anchored(),
    {
        Window {
            title: String::from_str(title),
            task_view: TaskView::new(key_config),
            controls: Controls::new(),
            logger: LogView::new(key_config),
            selected_tab: SelectedTab::Tab1,
            popup: PopupType::Closed,
            key_config,
        }
    }

    /// Takes over a window that was saved: its title, task view, log, tab and
    /// prompt. The keys of this window stay; the task view gets
    /// `key_config`.
    pub fn load(&mut self, window: Window, key_config: KeyConfig)
        ensures
            final(self).title == window.title,
            final(self).task_view.root_node == window.task_view.root_node,
            final(self).task_view.displayed_node == window.task_view.displayed_node,
            final(self).task_view.tasks == window.task_view.tasks,
            final(self).task_view.paginator == window.task_view.paginator,
            final(self).task_view.content_height == window.task_view.tasks.content_height,
            final(self).task_view.selected_line == window.task_view.selected_line,
            final(self).task_view.nav_bar == window.task_view.nav_bar,
            final(self).task_view.key_config == key_config,
            final(self).logger == window.logger,
            final(self).selected_tab == window.selected_tab,
            final(self).popup == window.popup,
            final(self).key_config == old(self).key_config,
    {
        self.title = window.title;
        self.task_view = TaskView::new_with(window.task_view, key_config);
        self.controls = Controls::new();
        self.logger = window.logger;
        self.selected_tab = window.selected_tab;
        self.popup = window.popup;
    }

    /// Adds an entry to the log, with the time of the call.
    pub fn log(&mut self, message: &str, log_type: LogType)
        requires
            old(self).logger.wf(),
        ensures
            reported(&old(self).logger, &final(self).logger, Some((log_type, message@))),
            final(self).logger.wf(),
            *final(self) == (Window { logger: final(self).logger, ..*old(self) }),
    {
        self.logger.log(message, log_type);
    }

    /// Restyles the rows of the task view and draws up the row of kinds of
    /// the log anew.
    pub fn update(&mut self)
        requires
            old(self).wf(),
        ensures
            final(self).task_view.tasks.lines.len() == old(self).task_view.tasks.lines.len(),
            forall|i: int|
                0 <= i < old(self).task_view.tasks.lines.len() ==> (
                #[trigger] final(self).task_view.tasks.rows()[i]) == old(
                    self,
                ).task_view.tasks.restyled_row(
                    i,
                    old(self).task_view.tasks.page_end as int,
                    old(self).task_view.selected_line,
                ),
            final(self).task_view.root_node == old(self).task_view.root_node,
            final(self).task_view.displayed_node == old(self).task_view.displayed_node,
            final(self).task_view.tasks.active_time == old(self).task_view.tasks.active_time,
            final(self).task_view.selected_line == old(self).task_view.selected_line,
            final(self).task_view.paginator == old(self).task_view.paginator,
            final(self).logger.available_subfilters@ == match old(self).logger.selected_subfilter {
                Some(narrowed) => crate::log_view::kinds_of(
                    old(self).logger.records(),
                    old(self).logger.records().len(),
                    narrowed.info_type,
                ),
                None => Seq::empty(),
            },
            final(self).logger == (LogView {
                available_subfilters: final(self).logger.available_subfilters,
                ..old(self).logger
            }),
            final(self).title == old(self).title,
            final(self).selected_tab == old(self).selected_tab,
            final(self).popup == old(self).popup,
            final(self).key_config == old(self).key_config,
            final(self).wf(),
    {
        self.task_view.update();
        self.logger.update();
    }

    /// Takes a new document in place of the old one and displays its root.
    pub fn update_tree(&mut self, new_root: Node)
        requires
            0 < old(self).task_view.paginator.page_size <= u16::MAX,
            new_root@.wf(),
            new_root@.rollup_duration() <= u64::MAX,
        ensures
            final(self).task_view.root_node@ == new_root@,
            final(self).task_view.displayed_node@ == new_root@,
            final(self).task_view.tasks.rows() == new_root@.rows(),
            final(self).task_view.tasks.active_time is None,
            final(self).task_view.selected_line == 1,
            final(self).task_view.paginator.page == 0,
            final(self).task_view.nav_bar.trail() == Seq::<Seq<char>>::empty(),
            final(self).task_view.wf(),
            final(self).task_view.anchored(),
            final(self).logger == old(self).logger,
            final(self).title == old(self).title,
            final(self).selected_tab == old(self).selected_tab,
            final(self).popup == old(self).popup,
            final(self).key_config == old(self).key_config,
    {
        self.task_view.update_tree(new_root);
    }

    /// One tick of the clock on the task view. A refusal goes to the log.
    pub fn update_time(&mut self)
        requires
            old(self).wf(),
            old(self).task_view.can_tick(),
        ensures
            exists|r: Result<(), Error>|
                {
                    &&& #[trigger] TaskView::update_time_post(
                        &old(self).task_view,
                        &final(self).task_view,
                        r,
                    )
                    &&& reported(
                        &old(self).logger,
                        &final(self).logger,
                        match r {
                            Ok(_) => None,
                            Err(e) => Some((LogType::ERROR, e.message_text())),
                        },
                    )
                },
            final(self).title == old(self).title,
            final(self).selected_tab == old(self).selected_tab,
            final(self).popup == old(self).popup,
            final(self).key_config == old(self).key_config,
            final(self).wf(),
    {
        let r = self.task_view.update_time();
        match r {
            Err(e) => {
                let message = e.message();
                self.log(message.as_str(), LogType::ERROR);
            },
            Ok(_) => {},
        }
        assert(TaskView::update_time_post(&old(self).task_view, &self.task_view, r));
    }

    /// A copy of the document.
    pub fn extract_node(&self) -> (root: Node)
        ensures
            root@ == self.task_view.root_node@,
    {
        self.task_view.root_node.clone()
    }
}

impl Window {
    /// The tab that a key brings to the front, if any.
    pub open spec fn tab_of(&self, key: Key) -> Option<SelectedTab> {
        if key == self.key_config.tab_main {
            Some(SelectedTab::Tab1)
        } else if key == self.key_config.tab_log {
            Some(SelectedTab::Tab2)
        } else if key == self.key_config.tab_controls {
            Some(SelectedTab::Tab3)
        } else {
            None
        }
    }

    /// What [`Window::event`] does: a tab key brings its tab to the front;
    /// any other key goes to the tab in front, and counts as taken where
    /// that tab answers to it.
    pub open spec fn event_post(
        pre: &Window,
        key: Key,
        post: &Window,
        state: EventState,
    ) -> bool {
        &&& post.title == pre.title
        &&& post.popup == pre.popup
        &&& post.key_config == pre.key_config
        &&& match pre.tab_of(key) {
            Some(tab) => {
                &&& state == EventState::Consumed
                &&& post.selected_tab == tab
                &&& post.task_view == pre.task_view
                &&& post.logger == pre.logger
            },
            None => {
                &&& post.selected_tab == pre.selected_tab
                &&& match pre.selected_tab {
                    SelectedTab::Tab1 => {
                        &&& state == if pre.task_view.binds(key) {
                            EventState::Consumed
                        } else {
                            EventState::NotConsumed
                        }
                        &&& exists|r: Result<(InfoSubType, String), Error>|
                            TaskView::handle_events_post(&pre.task_view, key, &post.task_view, r)
                        &&& post.logger == pre.logger
                    },
                    SelectedTab::Tab2 => {
                        &&& state == if pre.logger.binds(key) {
                            EventState::Consumed
                        } else {
                            EventState::NotConsumed
                        }
                        &&& LogView::event_post(&pre.logger, key, &post.logger)
                        &&& post.task_view == pre.task_view
                    },
                    SelectedTab::Tab3 => {
                        &&& state == EventState::NotConsumed
                        &&& post.task_view == pre.task_view
                        &&& post.logger == pre.logger
                    },
                }
            },
        }
    }

    /// Hands the key to whom it belongs, and says whether anyone took it.
    pub fn event(&mut self, key: Key) -> (state: EventState)
        requires
            old(self).wf(),
        ensures
            Window::event_post(old(self), key, final(self), state),
            final(self).wf(),
    {
        if self.popup.event(key).is_consumed() {
            return EventState::Consumed;
        }
        if key == self.key_config.tab_main {
            self.selected_tab = SelectedTab::Tab1;
            return EventState::Consumed;
        }
        if key == self.key_config.tab_log {
            self.selected_tab = SelectedTab::Tab2;
            return EventState::Consumed;
        }
        if key == self.key_config.tab_controls {
            self.selected_tab = SelectedTab::Tab3;
            return EventState::Consumed;
        }
        match self.selected_tab {
            SelectedTab::Tab1 => {
                if self.task_view.event(key).is_consumed() {
                    return EventState::Consumed;
                }
            },
            SelectedTab::Tab2 => {
                if self.logger.event(key).is_consumed() {
                    return EventState::Consumed;
                }
            },
            SelectedTab::Tab3 => {},
        }
        EventState::NotConsumed
    }

    /// What [`Window::handle_events`] does. While the prompt is open the key
    /// answers the prompt, which closes unless the answer leaves it open.
    /// Else a tab key brings its tab to the front and the quit key opens the
    /// prompt; the key then goes to the tab in front, and what that tab
    /// reports goes to the log.
    pub open spec fn handle_events_post(
        pre: &Window,
        key: Key,
        post: &Window,
        state: SessionState,
    ) -> bool {
        &&& post.title == pre.title
        &&& post.key_config == pre.key_config
        &&& if pre.popup != PopupType::Closed {
            &&& state == prompt_answer(key)
            &&& post.popup == if state == SessionState::AwaitingPrompt {
                pre.popup
            } else {
                PopupType::Closed
            }
            &&& post.selected_tab == pre.selected_tab
            &&& post.task_view == pre.task_view
            &&& post.logger == pre.logger
        } else {
            &&& post.selected_tab == match pre.tab_of(key) {
                Some(tab) => tab,
                None => pre.selected_tab,
            }
            &&& post.popup == if pre.tab_of(key) is None && key == pre.key_config.quit {
                PopupType::ConfirmQuit
            } else {
                PopupType::Closed
            }
            &&& state == if post.popup == PopupType::ConfirmQuit {
                SessionState::AwaitingPrompt
            } else {
                SessionState::Running
            }
            &&& match post.selected_tab {
                SelectedTab::Tab1 => exists|r: Result<(InfoSubType, String), Error>|
                    {
                        &&& #[trigger] TaskView::handle_events_post(
                            &pre.task_view,
                            key,
                            &post.task_view,
                            r,
                        )
                        &&& reported(&pre.logger, &post.logger, report_of(r))
                    },
                SelectedTab::Tab2 => {
                    &&& LogView::event_post(&pre.logger, key, &post.logger)
                    &&& post.task_view == pre.task_view
                },
                SelectedTab::Tab3 => {
                    &&& post.task_view == pre.task_view
                    &&& post.logger == pre.logger
                },
            }
        }
    }

    /// Does what the key stands for, logs what there is to report, and says
    /// how the session goes on.
    pub fn handle_events(&mut self, key: Key) -> (state: SessionState)
        requires
            old(self).wf(),
        ensures
            Window::handle_events_post(old(self), key, final(self), state),
            final(self).wf(),
    {
        if self.popup != PopupType::Closed {
            let new_state = handle_prompt_event(key);
            if new_state != SessionState::AwaitingPrompt {
                self.popup = PopupType::Closed;
            }
            return new_state;
        }
        let new_state = if key == self.key_config.tab_main {
            self.selected_tab = SelectedTab::Tab1;
            SessionState::Running
        } else if key == self.key_config.tab_log {
            self.selected_tab = SelectedTab::Tab2;
            SessionState::Running
        } else if key == self.key_config.tab_controls {
            self.selected_tab = SelectedTab::Tab3;
            SessionState::Running
        } else if key == self.key_config.quit {
            self.popup = PopupType::ConfirmQuit;
            SessionState::AwaitingPrompt
        } else {
            SessionState::Running
        };
        match self.selected_tab {
            SelectedTab::Tab1 => {
                let res = self.task_view.handle_events(key);
                match &res {
                    Ok((log_type, info)) => {
                        if *log_type != InfoSubType::Nothing {
                            let message = log_type.message(info.as_str());
                            self.log(message.as_str(), LogType::INFO(*log_type));
                        }
                    },
                    Err(e) => {
                        let message = e.message();
                        self.log(message.as_str(), LogType::ERROR);
                    },
                }
                assert(TaskView::handle_events_post(
                    &old(self).task_view,
                    key,
                    &self.task_view,
                    res,
                ));
                assert(reported(&old(self).logger, &self.logger, report_of(res)));
            },
            SelectedTab::Tab2 => {
                self.logger.event(key);
            },
            SelectedTab::Tab3 => {},
        }
        new_state
    }
}

} // verus!
