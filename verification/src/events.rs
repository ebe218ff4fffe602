//! Keys, and what became of a key that was handed to a component.

use vstd::prelude::*;

verus! {

/// A key of the keyboard, as far as the program tells keys apart.
#[derive(Clone, Copy, Debug, PartialEq, Eq, Structural)]
pub enum Key {
    Enter,
    Esc,
    Char(char),
    /// Any other key.
    Other,
}

/// Whether a component took a key.
#[derive(Clone, Copy, Debug, PartialEq, Eq, Structural)]
pub enum EventState {
    Consumed,
    NotConsumed,
}

impl EventState {
    /// Whether the key was taken.
    pub fn is_consumed(&self) -> (r: bool)
        ensures
            r == (*self == EventState::Consumed),
    {
        *self == EventState::Consumed
    }
}

/// Whether the session goes on.
#[derive(Clone, Copy, Debug, PartialEq, Eq, Structural)]
pub enum SessionState {
    Running,
    AwaitingPrompt,
    Quitting,
}

impl Default for SessionState {
    fn default() -> (state: SessionState)
        ensures
            state == SessionState::Running,
    {
        SessionState::Running
    }
}

/// The prompt that lies over the window, if any.
#[derive(Clone, Copy, Debug, PartialEq, Eq, Structural)]
pub enum PopupType {
    Closed,
    ConfirmQuit,
}

impl PopupType {
    /// The prompt takes no key for itself.
    pub fn event(&mut self, key: Key) -> (state: EventState)
        ensures
            state == EventState::NotConsumed,
            *final(self) == *old(self),
    {
        EventState::NotConsumed
    }
}

/// The keys that the program answers to.
#[derive(Clone, Copy, Debug)]
pub struct KeyConfig {
    pub enter: Key,
    pub quit: Key,
    pub tab_main: Key,
    pub tab_log: Key,
    pub tab_controls: Key,
    pub up: Key,
    pub down: Key,
    pub left: Key,
    pub right: Key,
    pub page_up: Key,
    pub page_down: Key,
    pub start_timer: Key,
    pub complete: Key,
    pub back: Key,
    pub prev_subfilter: Key,
    pub next_subfilter: Key,
}

impl KeyConfig {
    /// The keys as the program comes.
    pub open spec fn standard() -> KeyConfig {
        KeyConfig {
            enter: Key::Enter,
            quit: Key::Esc,
            tab_main: Key::Char('1'),
            tab_log: Key::Char('2'),
            tab_controls: Key::Char('3'),
            up: Key::Char('k'),
            down: Key::Char('j'),
            left: Key::Char('h'),
            right: Key::Char('l'),
            page_up: Key::Char('J'),
            page_down: Key::Char('K'),
            start_timer: Key::Char('s'),
            complete: Key::Char(' '),
            back: Key::Char('b'),
            prev_subfilter: Key::Char('H'),
            next_subfilter: Key::Char('L'),
        }
    }
}

impl Default for KeyConfig {
    fn default() -> (keys: KeyConfig)
        ensures
            keys == KeyConfig::standard(),
    {
        KeyConfig {
            enter: Key::Enter,
            quit: Key::Esc,
            tab_main: Key::Char('1'),
            tab_log: Key::Char('2'),
            tab_controls: Key::Char('3'),
            up: Key::Char('k'),
            down: Key::Char('j'),
            left: Key::Char('h'),
            right: Key::Char('l'),
            page_up: Key::Char('J'),
            page_down: Key::Char('K'),
            start_timer: Key::Char('s'),
            complete: Key::Char(' '),
            back: Key::Char('b'),
            prev_subfilter: Key::Char('H'),
            next_subfilter: Key::Char('L'),
        }
    }
}

} // verus!
