//! The rows of the displayed heading: its tasks, then one summary row for each
//! subheading; and the one timer that may run on a task.

use crate::error::Error;
use crate::info_subtype::InfoSubType;
use crate::node::{lemma_view_fields, Node, Tree};
use crate::rollup::{lemma_children_duration_bounds, rollup};
use crate::text::{decimal, decimal_string};
use vstd::prelude::*;
use vstd::slice::slice_subrange;

verus! {

/// How a row is drawn: highlighted for the selected row, dimmed for a
/// completed one.
#[derive(Clone, Copy, Debug, PartialEq, Eq, Structural)]
pub struct RowStyle {
    pub selected: bool,
    pub completed: bool,
}

impl Default for RowStyle {
    fn default() -> (style: RowStyle)
        ensures
            style == RowStyle::plain(),
    {
        RowStyle { selected: false, completed: false }
    }
}

impl RowStyle {
    /// Neither highlighted nor dimmed.
    pub open spec fn plain() -> RowStyle {
        RowStyle { selected: false, completed: false }
    }
}

/// The mathematical value of a [`Task`].
pub struct Line {
    pub name: Seq<char>,
    pub duration: nat,
    pub completed: bool,
    pub style: RowStyle,
}

impl Line {
    /// The row with another completion flag.
    pub open spec fn with_completed(self, completed: bool) -> Line {
        Line { completed, ..self }
    }

    /// The row with another time.
    pub open spec fn with_duration(self, duration: nat) -> Line {
        Line { duration, ..self }
    }

    /// The row with another style.
    pub open spec fn with_style(self, style: RowStyle) -> Line {
        Line { style, ..self }
    }
}

/// One row: a task, or the summary of a subheading.
#[derive(Debug)]
pub struct Task {
    pub name: String,
    /// Seconds spent.
    pub duration: u64,
    pub completed: bool,
    pub style: RowStyle,
}

impl View for Task {
    type V = Line;

    open spec fn view(&self) -> Line {
        Line {
            name: self.name@,
            duration: self.duration as nat,
            completed: self.completed,
            style: self.style,
        }
    }
}

impl Clone for Task {
    fn clone(&self) -> (r: Task)
        ensures
            r@ == self@,
    {
        Task {
            name: self.name.clone(),
            duration: self.duration,
            completed: self.completed,
            style: self.style,
        }
    }
}

/// The views of a list of rows.
pub open spec fn lines_view(v: Seq<Task>) -> Seq<Line> {
    Seq::new(v.len(), |i: int| v[i]@)
}

impl Tree {
    /// The row of task `i` of this heading, not yet styled.
    pub open spec fn task_row(self, i: int) -> Line {
        Line {
            name: self.content[i],
            duration: self.content_times[i],
            completed: self.completed_tasks[i],
            style: RowStyle::plain(),
        }
    }

    /// The summary row of this heading, as its parent shows it: its name,
    /// and completion and time rolled up from everything below it.
    pub open spec fn summary_row(self) -> Line {
        Line {
            name: self.heading.unwrap(),
            duration: self.rollup_duration(),
            completed: self.rollup_completed(),
            style: RowStyle::plain(),
        }
    }

    /// The rows of the tasks of this heading.
    pub open spec fn task_rows(self) -> Seq<Line> {
        Seq::new(self.content.len(), |i: int| self.task_row(i))
    }

    /// The summary rows of the subheadings of this heading.
    pub open spec fn summary_rows(self) -> Seq<Line> {
        Seq::new(self.children.len(), |i: int| self.children[i].summary_row())
    }

    /// All rows of this heading: its tasks, then its subheadings.
    pub open spec fn rows(self) -> Seq<Line> {
        self.task_rows() + self.summary_rows()
    }
}

/// The rows of the displayed heading, the selection, the visible page and the
/// running timer.
#[derive(Debug)]
pub struct Tasks {
    pub lines: Vec<Task>,
    /// The number of task rows; the summary rows follow them.
    pub task_offset: usize,
    /// The selected row on the page, counted from 1.
    pub selected_line: u16,
    pub content_height: u16,
    pub total_time: u64,
    /// The row, counted from 0 over all pages, whose timer runs.
    pub active_time: Option<usize>,
    pub page_start: usize,
    pub page_end: usize,
}

impl Tasks {
    /// The rows as mathematical values.
    pub open spec fn rows(&self) -> Seq<Line> {
        lines_view(self.lines@)
    }

    /// The selected row, counted from 0 over all pages.
    pub open spec fn selected_row(&self) -> int {
        self.page_start + self.selected_line - 1
    }

    /// The task rows come first, the page lies within the rows, a row is
    /// selected, and a running timer is on a task that is not completed.
    pub open spec fn wf(&self) -> bool {
        &&& self.task_offset <= self.lines.len()
        &&& self.page_start <= self.page_end <= self.lines.len()
        &&& self.selected_line >= 1
        &&& match self.active_time {
            Some(row) => row < self.task_offset && !self.lines@[row as int].completed,
            None => true,
        }
    }

    /// Row `i` as it is drawn when line `selected_line` of the page is
    /// selected: restyled where it lies on the page before row `end`, as it
    /// was elsewhere.
    pub open spec fn restyled_row(&self, i: int, end: int, selected_line: u16) -> Line {
        if self.page_start <= i < end {
            self.lines@[i]@.with_style(
                RowStyle {
                    selected: i - self.page_start + 1 == selected_line,
                    completed: self.lines@[i].completed,
                },
            )
        } else {
            self.lines@[i]@
        }
    }

    /// Whether the rows are well-formed.
    pub fn is_wf(&self) -> (r: bool)
        ensures
            r == self.wf(),
    {
        if self.task_offset > self.lines.len() || self.page_start > self.page_end || self.page_end
            > self.lines.len() || self.selected_line < 1 {
            return false;
        }
        match self.active_time {
            Some(row) => row < self.task_offset && !self.lines[row].completed,
            None => true,
        }
    }

    /// No rows, no timer.
    pub fn empty() -> (tasks: Tasks)
        ensures
            tasks.rows() == Seq::<Line>::empty(),
            tasks.task_offset == 0,
            tasks.selected_line == 1,
            tasks.content_height == 0,
            tasks.total_time == 0,
            tasks.active_time is None,
            tasks.page_start == 0,
            tasks.page_end == 0,
            tasks.wf(),
    {
        let tasks = Tasks {
            lines: Vec::new(),
            task_offset: 0,
            selected_line: 1,
            content_height: 0,
            total_time: 0,
            active_time: None,
            page_start: 0,
            page_end: 0,
        };
        assert(tasks.rows() =~= Seq::<Line>::empty());
        tasks
    }

    /// The rows of a heading, with the first row selected, no page set and
    /// no timer running.
    pub fn new(node: &Node) -> (tasks: Tasks)
        requires
            node@.wf(),
            node@.rollup_duration() <= u64::MAX,
        ensures
            tasks.rows() == node@.rows(),
            tasks.task_offset == node@.content.len(),
            tasks.selected_line == 1,
            tasks.content_height == node@.content.len() as u16,
            tasks.total_time == 0,
            tasks.active_time is None,
            tasks.page_start == 0,
            tasks.page_end == 0,
            tasks.wf(),
    {
        let mut lines = Tasks::extract_tasks(node);
        let mut subheadings = Tasks::subheading_times(node);
        let task_offset = lines.len();
        let ghost tasks_part = lines@;
        let ghost summary_part = subheadings@;
        lines.append(&mut subheadings);
        let tasks = Tasks {
            lines,
            task_offset,
            selected_line: 1,
            #[verifier::truncate]
            content_height: (task_offset as u16),
            total_time: 0,
            active_time: None,
            page_start: 0,
            page_end: 0,
        };
        proof {
            assert(tasks.lines@ =~= tasks_part + summary_part);
            assert(tasks.rows() =~= node@.rows());
        }
        tasks
    }

    /// The rows of the tasks of a heading.
    pub fn extract_tasks(node: &Node) -> (tasks: Vec<Task>)
        requires
            node@.aligned(),
        ensures
            lines_view(tasks@) == node@.task_rows(),
    {
        proof {
            lemma_view_fields(node);
        }
        let mut tasks: Vec<Task> = Vec::new();
        let mut idx: usize = 0;
        while idx < node.completed_tasks.len()
            invariant
                idx <= node.completed_tasks.len(),
                node@.aligned(),
                node@.content.len() == node.content.len(),
                node@.content_times.len() == node.content_times.len(),
                node@.completed_tasks == node.completed_tasks@,
                forall|k: int| 0 <= k < node.content.len() ==> node@.content[k] == node.content@[k]@,
                forall|k: int|
                    0 <= k < node.content_times.len() ==> node@.content_times[k]
                        == node.content_times@[k],
                tasks.len() == idx,
                forall|k: int| 0 <= k < idx ==> tasks@[k]@ == node@.task_row(k),
            decreases node.completed_tasks.len() - idx,
        {
            let task = Task {
                name: node.content[idx].clone(),
                completed: node.completed_tasks[idx],
                duration: node.content_times[idx],
                style: RowStyle::default(),
            };
            tasks.push(task);
            idx += 1;
        }
        assert(lines_view(tasks@) =~= node@.task_rows());
        tasks
    }

    /// The summary rows of the subheadings of a heading.
    pub fn subheading_times(node: &Node) -> (entries: Vec<Task>)
        requires
            node@.wf(),
            node@.rollup_duration() <= u64::MAX,
        ensures
            lines_view(entries@) == node@.summary_rows(),
    {
        proof {
            lemma_view_fields(node);
        }
        let mut entries: Vec<Task> = Vec::new();
        let mut idx: usize = 0;
        while idx < node.children.len()
            invariant
                idx <= node.children.len(),
                node@.wf(),
                node@.rollup_duration() <= u64::MAX,
                node@.children.len() == node.children.len(),
                forall|k: int| 0 <= k < node.children.len() ==> node@.children[k] == node.children@[k]@,
                entries.len() == idx,
                forall|k: int| 0 <= k < idx ==> entries@[k]@ == node@.children[k].summary_row(),
            decreases node.children.len() - idx,
        {
            proof {
                lemma_children_duration_bounds(node@, idx as nat);
                assert(node@.children[idx as int].heading is Some);
            }
            let full_entry = Tasks::extract_entry(&node.children[idx]);
            entries.push(full_entry);
            idx += 1;
        }
        assert(lines_view(entries@) =~= node@.summary_rows());
        entries
    }

    /// The summary row of a heading.
    pub fn extract_entry(node: &Node) -> (task: Task)
        requires
            node@.heading is Some,
            node@.rollup_duration() <= u64::MAX,
        ensures
            task@ == node@.summary_row(),
    {
        proof {
            lemma_view_fields(node);
        }
        let (completed, duration) = rollup(node);
        let name = match &node.heading {
            Some(heading) => heading.clone(),
            None => String::new(),
        };
        Task { name, duration, completed, style: RowStyle::default() }
    }

    /// The task rows, without the summary rows.
    pub fn task_slice(&self) -> (slice: &[Task])
        requires
            self.task_offset <= self.lines.len(),
        ensures
            slice@ == self.lines@.take(self.task_offset as int),
    {
        slice_subrange(self.lines.as_slice(), 0, self.task_offset)
    }
}

impl Tasks {
    /// Flips the completion of row `idx` and says which way it went. A timer
    /// that runs on that row is stopped first: no time is spent on a
    /// completed task.
    pub fn toggle_task(&mut self, idx: usize) -> (info: InfoSubType)
        requires
            old(self).wf(),
            idx < old(self).lines.len(),
        ensures
            info == if old(self).lines@[idx as int].completed {
                InfoSubType::UncompleteTask
            } else {
                InfoSubType::CompleteTask
            },
            final(self).rows() == old(self).rows().update(
                idx as int,
                old(self).lines@[idx as int]@.with_completed(
                    !old(self).lines@[idx as int].completed,
                ),
            ),
            final(self).active_time == if old(self).active_time == Some(idx) {
                None
            } else {
                old(self).active_time
            },
            final(self).task_offset == old(self).task_offset,
            final(self).selected_line == old(self).selected_line,
            final(self).content_height == old(self).content_height,
            final(self).total_time == old(self).total_time,
            final(self).page_start == old(self).page_start,
            final(self).page_end == old(self).page_end,
            final(self).wf(),
    {
        match self.active_time {
            Some(row) => {
                if row == idx {
                    self.active_time = None;
                }
            },
            None => {},
        }
        let info_type = if self.lines[idx].completed {
            InfoSubType::UncompleteTask
        } else {
            InfoSubType::CompleteTask
        };
        let line = &mut self.lines[idx];
        line.completed = !line.completed;
        proof {
            assert(self.rows() =~= old(self).rows().update(
                idx as int,
                old(self).lines@[idx as int]@.with_completed(
                    !old(self).lines@[idx as int].completed,
                ),
            ));
        }
        info_type
    }

    /// Sets the rows of the visible page: from `start_idx` up to, and
    /// without, `end_idx`.
    pub fn slice_bounds(&mut self, start_idx: usize, end_idx: usize)
        requires
            old(self).wf(),
            start_idx <= end_idx <= old(self).lines.len(),
        ensures
            *final(self) == (Tasks { page_start: start_idx, page_end: end_idx, ..*old(self) }),
            final(self).wf(),
    {
        self.page_start = start_idx;
        self.page_end = end_idx;
    }

    /// Whether the timer runs on the selected row.
    pub fn active_on_line(&self) -> (r: bool)
        requires
            self.wf(),
        ensures
            r == match self.active_time {
                Some(row) => row == self.selected_row(),
                None => false,
            },
    {
        match self.active_time {
            Some(line_num) => line_num >= self.page_start && line_num - self.page_start == (
                self.selected_line - 1) as usize,
            None => false,
        }
    }

    /// What [`Tasks::try_activate`] does.
    pub open spec fn try_activate_post(
        pre: &Tasks,
        post: &Tasks,
        r: Result<(InfoSubType, String), Error>,
    ) -> bool {
        let row = pre.selected_row();
        match r {
            Ok((info, line)) => {
                &&& line@ == decimal(pre.selected_line as nat)
                &&& if pre.active_time is Some {
                    &&& info == InfoSubType::StopTimer
                    &&& *post == (Tasks { active_time: None, ..*pre })
                } else {
                    &&& info == InfoSubType::StartTimer
                    &&& 0 <= row < pre.task_offset
                    &&& !pre.lines@[row].completed
                    &&& *post == (Tasks { active_time: Some(row as usize), ..*pre })
                }
            },
            Err(e) => {
                &&& pre.active_time is None
                &&& *post == *pre
                &&& if row >= pre.task_offset {
                    e == Error::CannotTimeSubheading
                } else {
                    e == Error::CannotTimeCompletedTask && pre.lines@[row].completed
                }
            },
        }
    }

    /// Stops the running timer; or, when none runs, starts one on the
    /// selected row, which a subheading or a completed task refuses.
    pub fn try_activate(&mut self) -> (r: Result<(InfoSubType, String), Error>)
        requires
            old(self).wf(),
        ensures
            Tasks::try_activate_post(old(self), final(self), r),
            final(self).wf(),
    {
        let info_type = if self.active_time.is_some() {
            self.active_time = None;
            InfoSubType::StopTimer
        } else {
            let line_on_page: usize = (self.selected_line - 1) as usize;
            if line_on_page >= self.task_offset || self.page_start >= self.task_offset
                - line_on_page {
                return Err(Error::CannotTimeSubheading);
            }
            let timer_pos = self.page_start + line_on_page;
            let completed = self.lines[timer_pos].completed;
            if !completed {
                self.active_time = Some(timer_pos);
            } else {
                return Err(Error::CannotTimeCompletedTask);
            }
            InfoSubType::StartTimer
        };
        Ok((info_type, decimal_string(self.selected_line as u64)))
    }

    /// One second more on the task whose timer runs. No other row changes:
    /// at most one task accrues time.
    pub fn update_time(&mut self)
        requires
            old(self).wf(),
            match old(self).active_time {
                Some(row) => old(self).lines@[row as int].duration < u64::MAX,
                None => true,
            },
        ensures
            final(self).rows() == match old(self).active_time {
                Some(row) => old(self).rows().update(
                    row as int,
                    old(self).lines@[row as int]@.with_duration(
                        old(self).lines@[row as int].duration as nat + 1,
                    ),
                ),
                None => old(self).rows(),
            },
            forall|i: int|
                0 <= i < old(self).lines.len() && old(self).active_time != Some(i as usize)
                    ==> final(self).rows()[i] == old(self).rows()[i],
            final(self).active_time == old(self).active_time,
            final(self).task_offset == old(self).task_offset,
            final(self).selected_line == old(self).selected_line,
            final(self).content_height == old(self).content_height,
            final(self).total_time == old(self).total_time,
            final(self).page_start == old(self).page_start,
            final(self).page_end == old(self).page_end,
            final(self).wf(),
    {
        match self.active_time {
            Some(idx) => {
                if idx < self.task_offset {
                    let line = &mut self.lines[idx];
                    line.duration = line.duration + 1;
                    proof {
                        assert(self.rows() =~= old(self).rows().update(
                            idx as int,
                            old(self).lines@[idx as int]@.with_duration(
                                old(self).lines@[idx as int].duration as nat + 1,
                            ),
                        ));
                    }
                }
            },
            None => {},
        }
    }

    /// Selects a row of the page and restyles the rows of the page: the
    /// selected one highlighted, the completed ones dimmed.
    pub fn update(&mut self, selected_line: u16)
        requires
            old(self).wf(),
            selected_line >= 1,
        ensures
            final(self).selected_line == selected_line,
            final(self).lines.len() == old(self).lines.len(),
            forall|i: int|
                0 <= i < old(self).lines.len() ==> (#[trigger] final(self).rows()[i]) == old(
                    self,
                ).restyled_row(i, old(self).page_end as int, selected_line),
            final(self).active_time == old(self).active_time,
            final(self).task_offset == old(self).task_offset,
            final(self).content_height == old(self).content_height,
            final(self).total_time == old(self).total_time,
            final(self).page_start == old(self).page_start,
            final(self).page_end == old(self).page_end,
            final(self).wf(),
    {
        self.selected_line = selected_line;
        let mut idx: usize = self.page_start;
        while idx < self.page_end
            invariant
                self.page_start <= idx <= self.page_end <= self.lines.len(),
                self.lines.len() == old(self).lines.len(),
                self.selected_line == selected_line,
                selected_line >= 1,
                self.active_time == old(self).active_time,
                self.task_offset == old(self).task_offset,
                self.content_height == old(self).content_height,
                self.total_time == old(self).total_time,
                self.page_start == old(self).page_start,
                self.page_end == old(self).page_end,
                forall|i: int|
                    0 <= i < self.lines.len() ==> (#[trigger] self.lines@[i])@ == old(
                        self,
                    ).restyled_row(i, idx as int, selected_line),
            decreases self.page_end - idx,
        {
            let selected = idx - self.page_start == (selected_line - 1) as usize;
            let entry = &mut self.lines[idx];
            entry.style = RowStyle { selected, completed: entry.completed };
            idx += 1;
        }
    }
}

} // verus!
