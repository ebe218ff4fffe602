//! The kinds of message that the log holds.

use vstd::prelude::*;
use vstd::string::*;

verus! {

/// What an informational log entry is about.
#[derive(Clone, Copy, Debug, PartialEq, Eq, Structural)]
pub enum InfoSubType {
    General,
    EnterSubheading,
    EnterParent,
    CompleteTask,
    UncompleteTask,
    StartTimer,
    StopTimer,
    Save,
    Nothing,
}

impl Default for InfoSubType {
    fn default() -> (r: InfoSubType)
        ensures
            r == InfoSubType::General,
    {
        InfoSubType::General
    }
}

impl InfoSubType {
    /// The position of the kind in the order in which the kinds are listed.
    pub open spec fn index(self) -> nat {
        match self {
            InfoSubType::General => 0,
            InfoSubType::EnterSubheading => 1,
            InfoSubType::EnterParent => 2,
            InfoSubType::CompleteTask => 3,
            InfoSubType::UncompleteTask => 4,
            InfoSubType::StartTimer => 5,
            InfoSubType::StopTimer => 6,
            InfoSubType::Save => 7,
            InfoSubType::Nothing => 8,
        }
    }

    /// The kind before this one; the first kind is its own predecessor.
    pub open spec fn spec_prev(self) -> InfoSubType {
        match self {
            InfoSubType::General => InfoSubType::General,
            InfoSubType::EnterSubheading => InfoSubType::General,
            InfoSubType::EnterParent => InfoSubType::EnterSubheading,
            InfoSubType::CompleteTask => InfoSubType::EnterParent,
            InfoSubType::UncompleteTask => InfoSubType::CompleteTask,
            InfoSubType::StartTimer => InfoSubType::UncompleteTask,
            InfoSubType::StopTimer => InfoSubType::StartTimer,
            InfoSubType::Save => InfoSubType::StopTimer,
            InfoSubType::Nothing => InfoSubType::Save,
        }
    }

    /// The kind after this one; the last kind is its own successor.
    pub open spec fn spec_next(self) -> InfoSubType {
        match self {
            InfoSubType::General => InfoSubType::EnterSubheading,
            InfoSubType::EnterSubheading => InfoSubType::EnterParent,
            InfoSubType::EnterParent => InfoSubType::CompleteTask,
            InfoSubType::CompleteTask => InfoSubType::UncompleteTask,
            InfoSubType::UncompleteTask => InfoSubType::StartTimer,
            InfoSubType::StartTimer => InfoSubType::StopTimer,
            InfoSubType::StopTimer => InfoSubType::Save,
            InfoSubType::Save => InfoSubType::Nothing,
            InfoSubType::Nothing => InfoSubType::Nothing,
        }
    }

    /// What the message of each kind starts with; the subject follows.
    pub open spec fn message_prefix(self) -> Seq<char> {
        match self {
            InfoSubType::EnterSubheading => "Entering subheading:  "@,
            InfoSubType::EnterParent => "Entering parent: "@,
            InfoSubType::CompleteTask => "Completing task: "@,
            InfoSubType::UncompleteTask => "Cancelling completion of task: "@,
            InfoSubType::StartTimer => "Starting time on task at line: "@,
            InfoSubType::StopTimer => "Stopping timer on task at line: "@,
            InfoSubType::Save => "Successfully saved the project"@,
            _ => "erm"@,
        }
    }

    /// Whether the message of the kind names its subject.
    pub open spec fn names_subject(self) -> bool {
        !(self is General || self is Save || self is Nothing)
    }

    /// The message of the kind about the subject `info`.
    pub open spec fn message_text(self, info: Seq<char>) -> Seq<char> {
        if self.names_subject() {
            self.message_prefix() + info
        } else {
            self.message_prefix()
        }
    }

    /// The name of the kind on a tab.
    pub open spec fn label_text(self) -> Seq<char> {
        match self {
            InfoSubType::General => "General"@,
            InfoSubType::EnterSubheading => "Parent Entry"@,
            InfoSubType::EnterParent => "Subheading Entry"@,
            InfoSubType::CompleteTask => "Complete Task"@,
            InfoSubType::UncompleteTask => "Uncomplete Task"@,
            InfoSubType::StartTimer => "Starting Timer"@,
            InfoSubType::StopTimer => "Stopping Timer"@,
            InfoSubType::Save => "Saving State"@,
            InfoSubType::Nothing => "None"@,
        }
    }

    /// The log message of the kind about the subject `info`.
    pub fn message(&self, info: &str) -> (text: String)
        ensures
            text@ == self.message_text(info@),
    {
        let prefix = match self {
            InfoSubType::EnterSubheading => "Entering subheading:  ",
            InfoSubType::EnterParent => "Entering parent: ",
            InfoSubType::CompleteTask => "Completing task: ",
            InfoSubType::UncompleteTask => "Cancelling completion of task: ",
            InfoSubType::StartTimer => "Starting time on task at line: ",
            InfoSubType::StopTimer => "Stopping timer on task at line: ",
            InfoSubType::Save => "Successfully saved the project",
            _ => "erm",
        };
        let mut text = String::from_str(prefix);
        match self {
            InfoSubType::General | InfoSubType::Save | InfoSubType::Nothing => {},
            _ => {
                text.append(info);
            },
        }
        text
    }

    /// The kind before this one; the first kind is its own predecessor.
    pub fn prev(self) -> (r: InfoSubType)
        ensures
            r == self.spec_prev(),
            r.index() == if self.index() == 0 {
                0
            } else {
                self.index() - 1
            },
    {
        match self {
            InfoSubType::General => InfoSubType::General,
            InfoSubType::EnterSubheading => InfoSubType::General,
            InfoSubType::EnterParent => InfoSubType::EnterSubheading,
            InfoSubType::CompleteTask => InfoSubType::EnterParent,
            InfoSubType::UncompleteTask => InfoSubType::CompleteTask,
            InfoSubType::StartTimer => InfoSubType::UncompleteTask,
            InfoSubType::StopTimer => InfoSubType::StartTimer,
            InfoSubType::Save => InfoSubType::StopTimer,
            InfoSubType::Nothing => InfoSubType::Save,
        }
    }

    /// The kind after this one; the last kind is its own successor.
    pub fn next(self) -> (r: InfoSubType)
        ensures
            r == self.spec_next(),
            r.index() == if self.index() == 8 {
                8
            } else {
                self.index() + 1
            },
    {
        match self {
            InfoSubType::General => InfoSubType::EnterSubheading,
            InfoSubType::EnterSubheading => InfoSubType::EnterParent,
            InfoSubType::EnterParent => InfoSubType::CompleteTask,
            InfoSubType::CompleteTask => InfoSubType::UncompleteTask,
            InfoSubType::UncompleteTask => InfoSubType::StartTimer,
            InfoSubType::StartTimer => InfoSubType::StopTimer,
            InfoSubType::StopTimer => InfoSubType::Save,
            InfoSubType::Save => InfoSubType::Nothing,
            InfoSubType::Nothing => InfoSubType::Nothing,
        }
    }

    /// The name of the kind on a tab.
    pub fn label(&self) -> (text: String)
        ensures
            text@ == self.label_text(),
    {
        String::from_str(
            match self {
                InfoSubType::General => "General",
                InfoSubType::EnterSubheading => "Parent Entry",
                InfoSubType::EnterParent => "Subheading Entry",
                InfoSubType::CompleteTask => "Complete Task",
                InfoSubType::UncompleteTask => "Uncomplete Task",
                InfoSubType::StartTimer => "Starting Timer",
                InfoSubType::StopTimer => "Stopping Timer",
                InfoSubType::Save => "Saving State",
                InfoSubType::Nothing => "None",
            },
        )
    }
}

/// The two levels of a log entry.
#[derive(Clone, Copy, Debug, PartialEq, Eq, Structural)]
#[allow(clippy::upper_case_acronyms)]
pub enum LogType {
    INFO(InfoSubType),
    ERROR,
}

impl LogType {
    /// The name of the level.
    pub open spec fn label_text(self) -> Seq<char> {
        match self {
            LogType::INFO(_) => "INFO"@,
            LogType::ERROR => "ERROR"@,
        }
    }

    /// The name of the level.
    pub fn label(&self) -> (text: String)
        ensures
            text@ == self.label_text(),
    {
        String::from_str(
            match self {
                LogType::INFO(_) => "INFO",
                LogType::ERROR => "ERROR",
            },
        )
    }
}

} // verus!
