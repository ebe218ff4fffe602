//! The displayed heading as two columns that run side by side: the times of
//! its rows, and their names.

use crate::error::Error;
use crate::info_subtype::InfoSubType;
use crate::node::{lemma_view_fields, Node, Tree};
use crate::rollup::{lemma_children_duration_bounds, rollup};
use crate::text::{clock, clock_string, decimal, decimal_string};
use vstd::prelude::*;
use vstd::slice::slice_subrange;

verus! {

/// A list of seconds as natural numbers, each with its completion flag.
pub open spec fn timed_view(v: Seq<(bool, u64)>) -> Seq<(bool, nat)> {
    Seq::new(v.len(), |i: int| (v[i].0, v[i].1 as nat))
}

/// A list of names, each with its completion flag.
pub open spec fn named_view(v: Seq<(bool, String)>) -> Seq<(bool, Seq<char>)> {
    Seq::new(v.len(), |i: int| (v[i].0, v[i].1@))
}

impl Tree {
    /// Completion and time of each task of this heading.
    pub open spec fn task_times(self) -> Seq<(bool, nat)> {
        Seq::new(self.content.len(), |i: int| (self.completed_tasks[i], self.content_times[i]))
    }

    /// Completion and time of each subheading, rolled up from everything
    /// below it.
    pub open spec fn summary_times(self) -> Seq<(bool, nat)> {
        Seq::new(
            self.children.len(),
            |i: int| (self.children[i].rollup_completed(), self.children[i].rollup_duration()),
        )
    }

    /// Completion and name of each task of this heading.
    pub open spec fn task_names(self) -> Seq<(bool, Seq<char>)> {
        Seq::new(self.content.len(), |i: int| (self.completed_tasks[i], self.content[i]))
    }

    /// The names of the first `n` subheadings that have one, each with the
    /// flag given for it.
    pub open spec fn summary_names(self, flags: Seq<bool>, n: nat) -> Seq<(bool, Seq<char>)>
        decreases n,
    {
        if n == 0 || n > self.children.len() {
            Seq::empty()
        } else {
            let before = self.summary_names(flags, (n - 1) as nat);
            match self.children[n - 1].heading {
                Some(h) => before.push((flags[n - 1], h)),
                None => before,
            }
        }
    }
}

/// The column of times: the tasks of the displayed heading, then its
/// subheadings; and the one timer that may run on a task.
#[derive(Debug)]
pub struct Timers {
    pub total_time: u64,
    pub lines: Vec<(bool, u64)>,
    /// The number of task rows; the summary rows follow them.
    pub task_offset: usize,
    /// The selected row on the page, counted from 1.
    pub selected_line: u16,
    pub content_height: u16,
    /// The row, counted from 0 over all pages, whose timer runs.
    pub active_time: Option<usize>,
    pub page_start: usize,
    pub page_end: usize,
}

impl Timers {
    /// The rows as mathematical values.
    pub open spec fn rows(&self) -> Seq<(bool, nat)> {
        timed_view(self.lines@)
    }

    /// The selected row, counted from 0 over all pages.
    pub open spec fn selected_row(&self) -> int {
        self.page_start + self.selected_line - 1
    }

    /// The task rows come first, the page lies within the rows, a row is
    /// selected, and a running timer is on a task that is not completed.
    pub open spec fn wf(&self) -> bool {
        &&& self.task_offset <= self.lines.len()
        &&& self.page_start <= self.page_end <= self.lines.len()
        &&& self.selected_line >= 1
        &&& match self.active_time {
            Some(row) => row < self.task_offset && !self.lines@[row as int].0,
            None => true,
        }
    }

    /// The column of times of a heading, with the first row selected, no
    /// page set and no timer running.
    pub fn new(node: &Node) -> (timers: Timers)
        requires
            node@.aligned(),
            node@.rollup_duration() <= u64::MAX,
            node@.content.len() + node@.children.len() <= u16::MAX,
        ensures
            timers.rows() == node@.task_times() + node@.summary_times(),
            timers.total_time == node@.total_time,
            timers.task_offset == node@.content.len(),
            timers.selected_line == 1,
            timers.content_height == node@.content.len() + node@.children.len(),
            timers.active_time is None,
            timers.page_start == 0,
            timers.page_end == 0,
            timers.wf(),
    {
        proof {
            lemma_view_fields(node);
        }
        let mut lines: Vec<(bool, u64)> = Vec::new();
        let mut i: usize = 0;
        while i < node.completed_tasks.len()
            invariant
                i <= node.completed_tasks.len(),
                node@.aligned(),
                node@.content_times.len() == node.content_times.len(),
                node@.completed_tasks == node.completed_tasks@,
                forall|k: int|
                    0 <= k < node.content_times.len() ==> node@.content_times[k]
                        == node.content_times@[k],
                lines.len() == i,
                forall|k: int|
                    0 <= k < i ==> (lines@[k].0, lines@[k].1 as nat) == node@.task_times()[k],
            decreases node.completed_tasks.len() - i,
        {
            lines.push((node.completed_tasks[i], node.content_times[i]));
            i += 1;
        }
        let task_offset = lines.len();
        let mut subheadings = Timers::subheading_times(node);
        let ghost tasks_part = lines@;
        let ghost summary_part = subheadings@;
        let content_height = task_offset as u16 + subheadings.len() as u16;
        lines.append(&mut subheadings);
        let timers = Timers {
            total_time: node.total_time,
            lines,
            task_offset,
            selected_line: 1,
            content_height,
            active_time: None,
            page_start: 0,
            page_end: 0,
        };
        proof {
            assert(timers.lines@ =~= tasks_part + summary_part);
            assert(timers.rows() =~= node@.task_times() + node@.summary_times());
        }
        timers
    }

    /// One second more on the task whose timer runs. No other row changes:
    /// at most one task accrues time.
    pub fn update_time(&mut self)
        requires
            old(self).wf(),
            match old(self).active_time {
                Some(row) => old(self).lines@[row as int].1 < u64::MAX,
                None => true,
            },
        ensures
            final(self).rows() == match old(self).active_time {
                Some(row) => old(self).rows().update(
                    row as int,
                    (false, old(self).lines@[row as int].1 as nat + 1),
                ),
                None => old(self).rows(),
            },
            forall|i: int|
                0 <= i < old(self).lines.len() && old(self).active_time != Some(i as usize)
                    ==> final(self).rows()[i] == old(self).rows()[i],
            *final(self) == (Timers { lines: final(self).lines, ..*old(self) }),
            final(self).wf(),
    {
        match self.active_time {
            Some(idx) => {
                if idx < self.task_offset {
                    let line = &mut self.lines[idx];
                    line.1 = line.1 + 1;
                    proof {
                        assert(self.rows() =~= old(self).rows().update(
                            idx as int,
                            (false, old(self).lines@[idx as int].1 as nat + 1),
                        ));
                    }
                }
            },
            None => {},
        }
    }

    /// What [`Timers::try_activate`] does.
    pub open spec fn try_activate_post(
        pre: &Timers,
        post: &Timers,
        r: Result<(InfoSubType, String), Error>,
    ) -> bool {
        let row = pre.selected_row();
        match r {
            Ok((info, line)) => {
                &&& line@ == decimal(pre.selected_line as nat)
                &&& if pre.active_time is Some {
                    &&& info == InfoSubType::StopTimer
                    &&& *post == (Timers { active_time: None, ..*pre })
                } else {
                    &&& info == InfoSubType::StartTimer
                    &&& 0 <= row < pre.task_offset
                    &&& !pre.lines@[row].0
                    &&& *post == (Timers { active_time: Some(row as usize), ..*pre })
                }
            },
            Err(e) => {
                &&& pre.active_time is None
                &&& *post == *pre
                &&& if row >= pre.task_offset {
                    e == Error::CannotTimeSubheading
                } else {
                    e == Error::CannotTimeCompletedTask && pre.lines@[row].0
                }
            },
        }
    }

    /// Stops the running timer; or, when none runs, starts one on the
    /// selected row, which a subheading or a completed task refuses.
    pub fn try_activate(&mut self) -> (r: Result<(InfoSubType, String), Error>)
        requires
            old(self).wf(),
        ensures
            Timers::try_activate_post(old(self), final(self), r),
            final(self).wf(),
    {
        let info_type = if self.active_time.is_some() {
            self.active_time = None;
            InfoSubType::StopTimer
        } else {
            let line_on_page: usize = (self.selected_line - 1) as usize;
            if line_on_page >= self.task_offset || self.page_start >= self.task_offset
                - line_on_page {
                return Err(Error::CannotTimeSubheading);
            }
            let timer_pos = self.page_start + line_on_page;
            let completed = self.lines[timer_pos].0;
            if !completed {
                self.active_time = Some(timer_pos);
            } else {
                return Err(Error::CannotTimeCompletedTask);
            }
            InfoSubType::StartTimer
        };
        Ok((info_type, decimal_string(self.selected_line as u64)))
    }

    /// Whether the timer runs on the selected row.
    pub fn active_on_line(&self) -> (r: bool)
        requires
            self.wf(),
        ensures
            r == match self.active_time {
                Some(row) => row == self.selected_row(),
                None => false,
            },
    {
        match self.active_time {
            Some(line_num) => line_num >= self.page_start && line_num - self.page_start == (
                self.selected_line - 1) as usize,
            None => false,
        }
    }

    /// The task rows, without the summary rows.
    pub fn task_slice(&self) -> (slice: &[(bool, u64)])
        requires
            self.task_offset <= self.lines.len(),
        ensures
            slice@ == self.lines@.take(self.task_offset as int),
    {
        slice_subrange(self.lines.as_slice(), 0, self.task_offset)
    }

    /// The summary rows, without the task rows.
    pub fn subheading_slice(&self) -> (slice: &[(bool, u64)])
        requires
            self.task_offset <= self.lines.len(),
        ensures
            slice@ == self.lines@.skip(self.task_offset as int),
    {
        slice_subrange(self.lines.as_slice(), self.task_offset, self.lines.len())
    }

    /// Sets the rows of the visible page: from `start_idx` up to, and
    /// without, `end_idx`.
    pub fn slice_bounds(&mut self, start_idx: usize, end_idx: usize)
        requires
            old(self).wf(),
            start_idx <= end_idx <= old(self).lines.len(),
        ensures
            *final(self) == (Timers { page_start: start_idx, page_end: end_idx, ..*old(self) }),
            final(self).wf(),
    {
        self.page_start = start_idx;
        self.page_end = end_idx;
    }

    /// Completion and time of each subheading of a heading.
    pub fn subheading_times(node: &Node) -> (times: Vec<(bool, u64)>)
        requires
            node@.rollup_duration() <= u64::MAX,
        ensures
            timed_view(times@) == node@.summary_times(),
            times.len() == node@.children.len(),
    {
        proof {
            lemma_view_fields(node);
        }
        let mut times: Vec<(bool, u64)> = Vec::new();
        let mut idx: usize = 0;
        while idx < node.children.len()
            invariant
                idx <= node.children.len(),
                node@.rollup_duration() <= u64::MAX,
                node@.children.len() == node.children.len(),
                forall|k: int| 0 <= k < node.children.len() ==> node@.children[k] == node.children@[k]@,
                times.len() == idx,
                forall|k: int|
                    0 <= k < idx ==> (times@[k].0, times@[k].1 as nat) == node@.summary_times()[k],
            decreases node.children.len() - idx,
        {
            proof {
                lemma_children_duration_bounds(node@, idx as nat);
            }
            let full_entry = Timers::extract_entry(&node.children[idx]);
            times.push(full_entry);
            idx += 1;
        }
        assert(timed_view(times@) =~= node@.summary_times());
        times
    }

    /// Completion and time of a heading, rolled up from everything below it.
    pub fn extract_entry(node: &Node) -> (entry: (bool, u64))
        requires
            node@.rollup_duration() <= u64::MAX,
        ensures
            entry.0 == node@.rollup_completed(),
            entry.1 == node@.rollup_duration(),
    {
        rollup(node)
    }

    /// A number of seconds as `[hh:mm:ss]`.
    pub fn format_duration(duration: u64) -> (text: String)
        ensures
            text@ == clock(duration as nat),
    {
        clock_string(duration)
    }
}

/// The column of names: the tasks of the displayed heading, then its
/// subheadings.
#[derive(Debug)]
pub struct TaskOverview {
    /// The selected row on the page, counted from 1.
    pub selected_line: u16,
    pub content_height: u16,
    pub lines: Vec<(bool, String)>,
    /// The number of task rows; the summary rows follow them.
    pub task_offset: usize,
    pub page_start: usize,
    pub page_end: usize,
}

impl TaskOverview {
    /// The rows as mathematical values.
    pub open spec fn rows(&self) -> Seq<(bool, Seq<char>)> {
        named_view(self.lines@)
    }

    /// The column of names of a heading, with the completion of each
    /// subheading as given, the first row selected and no page set.
    pub fn new(node: &Node, completed_subheadings: &Vec<bool>) -> (overview: TaskOverview)
        requires
            node@.aligned(),
            node@.children.len() == completed_subheadings.len(),
            node@.content.len() + node@.children.len() <= u16::MAX,
        ensures
            overview.rows() == node@.task_names() + node@.summary_names(
                completed_subheadings@,
                node@.children.len(),
            ),
            overview.task_offset == node@.content.len(),
            overview.selected_line == 1,
            overview.content_height == overview.lines.len(),
            overview.page_start == 0,
            overview.page_end == 0,
    {
        proof {
            lemma_view_fields(node);
        }
        let mut lines: Vec<(bool, String)> = Vec::new();
        let mut i: usize = 0;
        while i < node.completed_tasks.len()
            invariant
                i <= node.completed_tasks.len(),
                node@.aligned(),
                node@.content.len() == node.content.len(),
                node@.completed_tasks == node.completed_tasks@,
                forall|k: int| 0 <= k < node.content.len() ==> node@.content[k] == node.content@[k]@,
                lines.len() == i,
                forall|k: int| 0 <= k < i ==> (lines@[k].0, lines@[k].1@) == node@.task_names()[k],
            decreases node.completed_tasks.len() - i,
        {
            lines.push((node.completed_tasks[i], node.content[i].clone()));
            i += 1;
        }
        let task_offset = lines.len();
        let ghost tasks_part = named_view(lines@);
        assert(tasks_part =~= node@.task_names());
        let mut k: usize = 0;
        while k < node.children.len()
            invariant
                k <= node.children.len(),
                task_offset == node@.content.len(),
                node@.children.len() == node.children.len(),
                node@.children.len() == completed_subheadings.len(),
                forall|c: int| 0 <= c < node.children.len() ==> node@.children[c] == node.children@[c]@,
                lines.len() <= task_offset + k,
                named_view(lines@) == tasks_part + node@.summary_names(
                    completed_subheadings@,
                    k as nat,
                ),
            decreases node.children.len() - k,
        {
            let ghost before = named_view(lines@);
            proof {
                lemma_view_fields(&node.children[k as int]);
            }
            match &node.children[k].heading {
                Some(heading) => {
                    lines.push((completed_subheadings[k], heading.clone()));
                    proof {
                        let so_far = node@.summary_names(completed_subheadings@, k as nat);
                        assert(named_view(lines@) =~= before.push(
                            (completed_subheadings@[k as int], heading@),
                        ));
                        assert(before.push((completed_subheadings@[k as int], heading@))
                            =~= tasks_part + so_far.push(
                            (completed_subheadings@[k as int], heading@),
                        ));
                    }
                },
                None => {},
            }
            k += 1;
        }
        let content_height = lines.len() as u16;
        TaskOverview {
            selected_line: 1,
            content_height,
            lines,
            task_offset,
            page_start: 0,
            page_end: 0,
        }
    }

    /// Sets the rows of the visible page: from `start_idx` up to, and
    /// without, `end_idx`.
    pub fn slice_bounds(&mut self, start_idx: usize, end_idx: usize)
        ensures
            *final(self) == (TaskOverview {
                page_start: start_idx,
                page_end: end_idx,
                ..*old(self)
            }),
    {
        self.page_start = start_idx;
        self.page_end = end_idx;
    }
}

} // verus!
