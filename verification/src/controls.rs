//! The help page: which key does what.

use vstd::prelude::*;
use vstd::string::*;

verus! {

/// A key and what it does, as the help page shows them.
pub type Control = (String, String);

/// The views of a list of controls.
pub open spec fn controls_view(v: Seq<Control>) -> Seq<(Seq<char>, Seq<char>)> {
    Seq::new(v.len(), |i: int| (v[i].0@, v[i].1@))
}

/// The keys of the task view.
pub open spec fn main_controls() -> Seq<(Seq<char>, Seq<char>)> {
    seq![
        ("j"@, "Next Line"@),
        ("k"@, "Previous Line"@),
        ("J"@, "Next Page"@),
        ("K"@, "Previous Page"@),
        ("↵"@, "Enter Heading"@),
        ("␣"@, "Complete Task"@),
        ("s"@, "Toggle Time"@),
        ("b"@, "Ender Parent Heading"@),
    ]
}

/// The keys of the log.
pub open spec fn log_controls() -> Seq<(Seq<char>, Seq<char>)> {
    seq![
        ("h"@, "Previous Filter"@),
        ("l"@, "Next Filter"@),
        ("H"@, "Previous Subfilter"@),
        ("L"@, "Next Subfilter"@),
        ("j"@, "Next Log Page"@),
        ("k"@, "Previous Log Page "@),
    ]
}

/// The keys of the outline, where headings fold.
pub open spec fn outline_controls() -> Seq<(Seq<char>, Seq<char>)> {
    seq![
        ("↵"@, "Toggle Heading"@),
        ("␣"@, "Complete Task"@),
        ("s"@, "Toggle Time"@),
        ("o"@, "Open Headings"@),
        ("c"@, "Close Headings"@),
    ]
}

/// A key and what it does.
fn control(key: &str, does: &str) -> (c: Control)
    ensures
        c.0@ == key@,
        c.1@ == does@,
{
    (String::from_str(key), String::from_str(does))
}

/// A titled list of keys.
#[derive(Debug)]
pub struct ControlSection {
    pub title: String,
    pub control_list: Vec<Control>,
}

/// The two lists of the help page.
#[derive(Debug)]
pub struct Controls {
    pub main_controls: ControlSection,
    pub log_controls: ControlSection,
}

impl Controls {
    /// The help page.
    pub fn new() -> (controls: Controls)
        ensures
            controls.main_controls.title@ == "Main"@,
            controls_view(controls.main_controls.control_list@) == main_controls(),
            controls.log_controls.title@ == "Log"@,
            controls_view(controls.log_controls.control_list@) == log_controls(),
    {
        Controls {
            main_controls: ControlSection {
                title: String::from_str("Main"),
                control_list: Controls::define_main_controls(),
            },
            log_controls: ControlSection {
                title: String::from_str("Log"),
                control_list: Controls::define_log_controls(),
            },
        }
    }

    /// The keys of the task view.
    pub fn define_main_controls() -> (list: Vec<Control>)
        ensures
            controls_view(list@) == main_controls(),
    {
        let mut list: Vec<Control> = Vec::new();
        list.push(control("j", "Next Line"));
        list.push(control("k", "Previous Line"));
        list.push(control("J", "Next Page"));
        list.push(control("K", "Previous Page"));
        list.push(control("↵", "Enter Heading"));
        list.push(control("␣", "Complete Task"));
        list.push(control("s", "Toggle Time"));
        list.push(control("b", "Ender Parent Heading"));
        assert(controls_view(list@) =~= main_controls());
        list
    }

    /// The keys of the log.
    pub fn define_log_controls() -> (list: Vec<Control>)
        ensures
            controls_view(list@) == log_controls(),
    {
        let mut list: Vec<Control> = Vec::new();
        list.push(control("h", "Previous Filter"));
        list.push(control("l", "Next Filter"));
        list.push(control("H", "Previous Subfilter"));
        list.push(control("L", "Next Subfilter"));
        list.push(control("j", "Next Log Page"));
        list.push(control("k", "Previous Log Page "));
        assert(controls_view(list@) =~= log_controls());
        list
    }
}

/// The row of keys under the outline.
#[derive(Debug)]
pub struct ControlView {
    pub controls: Vec<Control>,
}

impl ControlView {
    /// The row of keys.
    pub fn new() -> (view: ControlView)
        ensures
            controls_view(view.controls@) == outline_controls(),
    {
        ControlView { controls: ControlView::define_controls() }
    }

    /// The keys of the outline.
    pub fn define_controls() -> (list: Vec<Control>)
        ensures
            controls_view(list@) == outline_controls(),
    {
        let mut list: Vec<Control> = Vec::new();
        list.push(control("↵", "Toggle Heading"));
        list.push(control("␣", "Complete Task"));
        list.push(control("s", "Toggle Time"));
        list.push(control("o", "Open Headings"));
        list.push(control("c", "Close Headings"));
        assert(controls_view(list@) =~= outline_controls());
        list
    }
}

/// A prompt with a message.
#[derive(Debug)]
pub struct Popup {
    pub message: String,
}

impl Popup {
    /// A prompt that shows `message`.
    pub fn new(message: String) -> (popup: Popup)
        ensures
            popup.message == message,
    {
        Popup { message }
    }
}

impl Clone for Popup {
    fn clone(&self) -> (popup: Popup)
        ensures
            popup.message@ == self.message@,
    {
        Popup { message: self.message.clone() }
    }
}

} // verus!
