//! The view on one heading of the document: which heading is displayed, which
//! row is selected, and how edits find their way back into the document.

use crate::error::Error;
use crate::events::{EventState, Key, KeyConfig};
use crate::info_subtype::InfoSubType;
use crate::navigation_bar::{breadcrumb_of, NavigationBar};
use crate::node::{
    lemma_at_child, lemma_at_wf, lemma_find_sound, lemma_replace_then_at, lemma_replace_wf,
    lemma_view_fields, Node, NodePath, Tree,
};
use crate::paginator::Paginator;
use crate::parser::{lemma_parse_wf, parse};
use crate::node::lemma_find_complete;
use crate::rollup::{
    lemma_at_rollup_le, lemma_children_duration_bounds, lemma_children_duration_same,
    checked_rollup, lemma_replace_rollup, lemma_sum_update, rollup, sum,
};
use crate::tasks::{Line, RowStyle, Tasks};
use vstd::prelude::*;

verus! {

/// The rows of a page of the task view.
pub const PAGE_SIZE: usize = 25;

/// The document, the displayed heading with its rows, the page, the
/// selection and the trail.
#[derive(Debug)]
pub struct TaskView {
    pub root_node: Node,
    /// A copy of the displayed heading, written back into the document by
    /// its path.
    pub displayed_node: Node,
    pub tasks: Tasks,
    pub paginator: Paginator,
    pub content_height: u16,
    pub selected_line: u16,
    pub nav_bar: NavigationBar,
    pub key_config: KeyConfig,
}

impl TaskView {
    /// The document is well-formed and its times can be added up.
    pub open spec fn document_ok(&self) -> bool {
        &&& self.root_node@.wf()
        &&& self.root_node@.rollup_duration() <= u64::MAX
    }

    /// The rows show the displayed heading: the same names, times and
    /// completion flags, whatever their style.
    pub open spec fn rows_in_sync(&self) -> bool {
        &&& self.tasks.task_offset == self.displayed_node@.content.len()
        &&& self.tasks.rows().len() == self.displayed_node@.rows().len()
        &&& forall|i: int|
            0 <= i < self.tasks.rows().len() ==> (#[trigger] self.tasks.rows()[i]).with_style(
                RowStyle::plain(),
            ) == self.displayed_node@.rows()[i]
    }

    /// The page covers the rows, and the rows know the page.
    pub open spec fn page_ok(&self) -> bool {
        &&& self.paginator.wf()
        &&& self.paginator.page_size <= u16::MAX
        &&& self.paginator.entry_len == self.tasks.lines.len()
        &&& self.tasks.page_start == self.paginator.start()
        &&& self.tasks.page_end == self.paginator.end()
        &&& self.content_height == self.paginator.end() - self.paginator.start()
    }

    /// What holds of the view between any two operations.
    pub open spec fn wf(&self) -> bool {
        &&& self.document_ok()
        &&& self.displayed_node@.wf()
        &&& self.displayed_node@.rollup_duration() <= u64::MAX
        &&& self.tasks.wf()
        &&& self.rows_in_sync()
        &&& self.page_ok()
        &&& self.selected_line == self.tasks.selected_line
    }

    /// The document holds a node equal to the displayed heading.
    pub open spec fn anchored(&self) -> bool {
        self.root_node@.find(self.displayed_node@) is Some
    }

    /// The selected row, counted from 0 over all pages.
    pub open spec fn selected_row(&self) -> int {
        self.paginator.start() + self.selected_line - 1
    }

    /// Whether the rows show the displayed heading.
    fn is_in_sync(&self) -> (r: bool)
        requires
            self.displayed_node@.wf(),
            self.displayed_node@.rollup_duration() <= u64::MAX,
        ensures
            r == self.rows_in_sync(),
    {
        let node = &self.displayed_node;
        let ghost shown = node@;
        proof {
            lemma_view_fields(node);
        }
        let tasks = node.content.len();
        if self.tasks.task_offset != tasks || self.tasks.lines.len() < tasks
            || self.tasks.lines.len() - tasks != node.children.len() {
            return false;
        }
        let mut i: usize = 0;
        while i < tasks
            invariant
                i <= tasks,
                tasks == node.content.len(),
                shown == node@,
                shown == self.displayed_node@,
                shown.wf(),
                shown.content == crate::node::strings_view(node.content@),
                shown.content_times == crate::node::times_view(node.content_times@),
                shown.completed_tasks == node.completed_tasks@,
                self.tasks.lines.len() == tasks + node.children.len(),
                shown.children.len() == node.children.len(),
                forall|k: int|
                    0 <= k < i ==> (#[trigger] self.tasks.rows()[k]).with_style(RowStyle::plain())
                        == shown.rows()[k],
            decreases tasks - i,
        {
            let line = &self.tasks.lines[i];
            proof {
                assert(self.tasks.rows()[i as int] == line@);
                assert(shown.rows()[i as int] == shown.task_row(i as int));
            }
            if line.name != node.content[i] || line.duration != node.content_times[i]
                || line.completed != node.completed_tasks[i] {
                assert(self.tasks.rows()[i as int].with_style(RowStyle::plain())
                    != shown.rows()[i as int]);
                assert(0 <= i < self.tasks.rows().len());
                return false;
            }
            i += 1;
        }
        let mut k: usize = 0;
        while k < node.children.len()
            invariant
                k <= node.children.len(),
                tasks == node.content.len(),
                shown == node@,
                shown == self.displayed_node@,
                shown.wf(),
                shown.rollup_duration() <= u64::MAX,
                shown.content.len() == tasks,
                self.tasks.lines.len() == tasks + node.children.len(),
                shown.children == crate::node::nodes_view(node.children@),
                forall|j: int|
                    0 <= j < tasks + k ==> (#[trigger] self.tasks.rows()[j]).with_style(
                        RowStyle::plain(),
                    ) == shown.rows()[j],
            decreases node.children.len() - k,
        {
            let child = &node.children[k];
            let line = &self.tasks.lines[tasks + k];
            proof {
                lemma_view_fields(child);
                lemma_children_duration_bounds(shown, k as nat);
                assert(self.tasks.rows()[tasks + k] == line@);
                assert(shown.rows()[tasks + k] == shown.summary_rows()[k as int]);
                assert(shown.children[k as int].heading is Some);
            }
            let (completed, duration) = rollup(child);
            let same_name = match &child.heading {
                Some(heading) => line.name == *heading,
                None => false,
            };
            if !same_name || line.duration != duration || line.completed != completed {
                assert(self.tasks.rows()[tasks + k].with_style(RowStyle::plain()) != shown.rows()[
                    tasks + k]);
                assert(0 <= tasks + k < self.tasks.rows().len());
                return false;
            }
            k += 1;
        }
        true
    }

    /// Whether the page covers the rows, and the rows know the page.
    fn is_page_ok(&self) -> (r: bool)
        ensures
            r == self.page_ok(),
    {
        if !self.paginator.is_wf() || self.paginator.page_size > 65535
            || self.paginator.entry_len != self.tasks.lines.len() {
            return false;
        }
        let (start, end) = self.paginator.page_slice();
        self.tasks.page_start == start && self.tasks.page_end == end && self.content_height as usize
            == end - start
    }

    /// Whether the view is well-formed.
    pub fn is_wf(&self) -> (r: bool)
        ensures
            r == self.wf(),
    {
        if !self.root_node.is_wf() || !self.displayed_node.is_wf() {
            return false;
        }
        if checked_rollup(&self.root_node).is_none() || checked_rollup(
            &self.displayed_node,
        ).is_none() {
            return false;
        }
        self.tasks.is_wf() && self.is_in_sync() && self.is_page_ok() && self.selected_line
            == self.tasks.selected_line
    }

    /// A view on an empty document.
    pub fn new(key_config: KeyConfig) -> (view: TaskView)
        ensures
            view.root_node@ == Tree::leaf(None),
            view.displayed_node@ == Tree::leaf(None),
            view.tasks.rows() == Seq::<Line>::empty(),
            view.tasks.active_time is None,
            view.paginator == (Paginator { page: 0, page_size: PAGE_SIZE, entry_len: 0 }),
            view.selected_line == 1,
            view.nav_bar.trail() == Seq::<Seq<char>>::empty(),
            view.key_config == key_config,
            view.wf(),
            view.anchored(),
    {
        let view = TaskView {
            root_node: Node::new(),
            displayed_node: Node::new(),
            tasks: Tasks::empty(),
            paginator: Paginator::new(PAGE_SIZE, 0),
            content_height: 0,
            selected_line: 1,
            nav_bar: NavigationBar::new(),
            key_config,
        };
        proof {
            let t = Tree::leaf(None);
            assert(t.children_duration(0) == 0);
            assert(sum(t.content_times) == 0);
            assert(t.rollup_duration() == 0);
            assert(t.rows() =~= Seq::<Line>::empty());
        }
        view
    }

    /// A view with the state of `task_view` and the keys of `key_config`.
    pub fn new_with(task_view: TaskView, key_config: KeyConfig) -> (view: TaskView)
        ensures
            view.root_node == task_view.root_node,
            view.displayed_node == task_view.displayed_node,
            view.tasks == task_view.tasks,
            view.paginator == task_view.paginator,
            view.content_height == task_view.tasks.content_height,
            view.selected_line == task_view.selected_line,
            view.nav_bar == task_view.nav_bar,
            view.key_config == key_config,
    {
        let content_height = task_view.tasks.content_height;
        TaskView {
            root_node: task_view.root_node,
            displayed_node: task_view.displayed_node,
            tasks: task_view.tasks,
            paginator: task_view.paginator,
            content_height,
            selected_line: task_view.selected_line,
            nav_bar: task_view.nav_bar,
            key_config,
        }
    }

    /// Restyles the rows of the page for the selection as it stands.
    pub fn update(&mut self)
        requires
            old(self).wf(),
        ensures
            final(self).tasks.lines.len() == old(self).tasks.lines.len(),
            forall|i: int|
                0 <= i < old(self).tasks.lines.len() ==> (#[trigger] final(self).tasks.rows()[i])
                    == old(self).tasks.restyled_row(
                    i,
                    old(self).tasks.page_end as int,
                    old(self).selected_line,
                ),
            final(self).tasks.active_time == old(self).tasks.active_time,
            final(self).root_node == old(self).root_node,
            final(self).displayed_node == old(self).displayed_node,
            final(self).paginator == old(self).paginator,
            final(self).selected_line == old(self).selected_line,
            final(self).nav_bar == old(self).nav_bar,
            final(self).key_config == old(self).key_config,
            final(self).wf(),
    {
        self.tasks.update(self.selected_line);
        self.content_height = self.paginator.content_height();
        proof {
            assert forall|i: int| 0 <= i < self.tasks.rows().len() implies (
            #[trigger] self.tasks.rows()[i]).with_style(RowStyle::plain())
                == self.displayed_node@.rows()[i] by {
                assert(old(self).tasks.rows()[i].with_style(RowStyle::plain())
                    == self.displayed_node@.rows()[i]);
            }
        }
    }

    /// Displays another heading: its rows, the first page, the first row
    /// selected, no timer running.
    pub fn update_display_data(&mut self, new_display_node: Node)
        requires
            old(self).document_ok(),
            0 < old(self).paginator.page_size <= u16::MAX,
            new_display_node@.wf(),
            new_display_node@.rollup_duration() <= u64::MAX,
        ensures
            final(self).displayed_node == new_display_node,
            final(self).tasks.rows() == new_display_node@.rows(),
            final(self).tasks.active_time is None,
            final(self).selected_line == 1,
            final(self).paginator == (Paginator {
                page: 0,
                page_size: old(self).paginator.page_size,
                entry_len: new_display_node@.rows().len() as usize,
            }),
            final(self).root_node == old(self).root_node,
            final(self).nav_bar == old(self).nav_bar,
            final(self).key_config == old(self).key_config,
            final(self).wf(),
    {
        self.tasks = Tasks::new(&new_display_node);
        self.selected_line = 1;
        self.displayed_node = new_display_node;
        let entry_len = self.tasks.lines.len();
        self.update_paginator(entry_len);
        self.content_height = self.paginator.content_height();
        assert(self.tasks.rows() == self.displayed_node@.rows());
        assert(self.rows_in_sync()) by {
            assert forall|i: int| 0 <= i < self.tasks.rows().len() implies (
            #[trigger] self.tasks.rows()[i]).with_style(RowStyle::plain())
                == self.displayed_node@.rows()[i] by {
                let shown = self.displayed_node@;
                if i < shown.content.len() {
                    assert(shown.rows()[i] == shown.task_row(i));
                } else {
                    assert(shown.rows()[i] == shown.summary_rows()[i - shown.content.len()]);
                }
            }
        }
        assert(self.page_ok());
    }

    /// Goes to the first page of `entry_len` rows and tells the rows.
    fn update_paginator(&mut self, entry_len: usize)
        requires
            old(self).tasks.wf(),
            old(self).paginator.page_size > 0,
            entry_len == old(self).tasks.lines.len(),
        ensures
            final(self).paginator == (Paginator {
                page: 0,
                page_size: old(self).paginator.page_size,
                entry_len,
            }),
            final(self).paginator.wf(),
            final(self).tasks == (Tasks {
                page_start: 0,
                page_end: final(self).paginator.end() as usize,
                ..old(self).tasks
            }),
            final(self).tasks.wf(),
            final(self).root_node == old(self).root_node,
            final(self).displayed_node == old(self).displayed_node,
            final(self).content_height == old(self).content_height,
            final(self).selected_line == old(self).selected_line,
            final(self).nav_bar == old(self).nav_bar,
            final(self).key_config == old(self).key_config,
    {
        self.paginator.reset(entry_len);
        assert(self.paginator.start() == 0) by (nonlinear_arith)
            requires
                self.paginator.page == 0,
        ;
        let (page_start, page_end) = self.paginator.page_slice();
        self.tasks.slice_bounds(page_start, page_end);
    }

    /// Selects line `line_num` of the page, if the page has such a line.
    fn select_line(&mut self, line_num: u16)
        requires
            old(self).wf(),
        ensures
            *final(self) == if 0 < line_num <= old(self).content_height {
                TaskView {
                    selected_line: line_num,
                    tasks: Tasks { selected_line: line_num, ..old(self).tasks },
                    ..*old(self)
                }
            } else {
                *old(self)
            },
            final(self).wf(),
    {
        if line_num > 0 && line_num <= self.content_height {
            self.selected_line = line_num;
            self.tasks.selected_line = line_num;
        }
    }

    /// The subheading on line `line_num` of the page, if that line shows
    /// one.
    pub fn get_subheading(&self, line_num: usize) -> (r: Option<Node>)
        requires
            self.wf(),
            line_num >= 1,
        ensures
            match r {
                Some(node) => {
                    &&& self.tasks.task_offset <= self.paginator.start() + line_num - 1
                        < self.tasks.lines.len()
                    &&& node@ == self.displayed_node@.children[self.paginator.start() + line_num
                        - 1 - self.tasks.task_offset]
                },
                None => !(self.tasks.task_offset <= self.paginator.start() + line_num - 1
                    < self.tasks.lines.len()),
            },
    {
        proof {
            lemma_view_fields(&self.displayed_node);
        }
        let offset = self.paginator.offset();
        let on_page = line_num - 1;
        if on_page >= self.tasks.lines.len() - offset {
            return None;
        }
        let global_idx = offset + on_page;
        if global_idx >= self.tasks.task_offset {
            let subheading_idx = global_idx - self.tasks.task_offset;
            Some(self.displayed_node.children[subheading_idx].clone())
        } else {
            None
        }
    }

    /// Adds the displayed heading to the trail, if it has a name.
    fn add_breadcrumb(&mut self)
        ensures
            final(self).nav_bar.trail() == match old(self).displayed_node@.heading {
                Some(h) => old(self).nav_bar.trail().push(breadcrumb_of(h)),
                None => old(self).nav_bar.trail(),
            },
            final(self).nav_bar.back_text == old(self).nav_bar.back_text,
            final(self).root_node == old(self).root_node,
            final(self).displayed_node == old(self).displayed_node,
            final(self).tasks == old(self).tasks,
            final(self).paginator == old(self).paginator,
            final(self).content_height == old(self).content_height,
            final(self).selected_line == old(self).selected_line,
            final(self).key_config == old(self).key_config,
    {
        proof {
            lemma_view_fields(&self.displayed_node);
        }
        match &self.displayed_node.heading {
            Some(heading) => {
                let new_breadcrumb = heading.clone();
                self.nav_bar.push_breadcrumb(new_breadcrumb);
            },
            None => {},
        }
    }
}

impl Tree {
    /// This node with the completion flag of task `i` set to `completed`.
    pub open spec fn with_flag(self, i: int, completed: bool) -> Tree {
        Tree { completed_tasks: self.completed_tasks.update(i, completed), ..self }
    }

    /// This node with `time` spent on task `i`, and with `total_time` as the
    /// time spent in the subtree.
    pub open spec fn with_time(self, i: int, time: nat, total_time: nat) -> Tree {
        Tree { content_times: self.content_times.update(i, time), total_time, ..self }
    }
}

impl TaskView {
    /// Everything but the document, the displayed heading and the rows is
    /// as it was.
    pub open spec fn frame_kept(pre: &TaskView, post: &TaskView) -> bool {
        &&& post.paginator == pre.paginator
        &&& post.content_height == pre.content_height
        &&& post.selected_line == pre.selected_line
        &&& post.nav_bar == pre.nav_bar
        &&& post.key_config == pre.key_config
        &&& post.tasks.task_offset == pre.tasks.task_offset
        &&& post.tasks.selected_line == pre.tasks.selected_line
        &&& post.tasks.content_height == pre.tasks.content_height
        &&& post.tasks.total_time == pre.tasks.total_time
        &&& post.tasks.page_start == pre.tasks.page_start
        &&& post.tasks.page_end == pre.tasks.page_end
    }

    /// What [`TaskView::update_root`] does.
    pub open spec fn update_root_post(
        pre: &TaskView,
        post: &TaskView,
        r: Result<NodePath, Error>,
    ) -> bool {
        &&& *post == *pre
        &&& match r {
            Ok(path) => pre.root_node@.find(pre.displayed_node@) == Some(path@),
            Err(e) => e == Error::NotFound && !pre.anchored(),
        }
    }

    /// Looks the displayed heading up in the document and writes its times
    /// and completion flags there. The rows are in step with the displayed
    /// heading, and the node found equals it: the document stays as it is,
    /// and the path is what the caller gets.
    pub fn update_root(&mut self) -> (r: Result<NodePath, Error>)
        requires
            old(self).wf(),
        ensures
            TaskView::update_root_post(old(self), final(self), r),
    {
        match Node::find_path(&self.root_node, &self.displayed_node) {
            Ok(path) => Ok(path),
            Err(e) => Err(e),
        }
    }

    /// What [`TaskView::toggle_task`] does.
    pub open spec fn toggle_task_post(
        pre: &TaskView,
        post: &TaskView,
        r: Result<(InfoSubType, String), Error>,
    ) -> bool {
        let row = pre.selected_row();
        match r {
            Ok((info, name)) => {
                let was = pre.tasks.lines@[row].completed;
                &&& 0 <= row < pre.tasks.task_offset
                &&& pre.anchored()
                &&& info == if was {
                    InfoSubType::UncompleteTask
                } else {
                    InfoSubType::CompleteTask
                }
                &&& name@ == pre.tasks.lines@[row].name@
                &&& post.tasks.rows() == pre.tasks.rows().update(
                    row,
                    pre.tasks.rows()[row].with_completed(!was),
                )
                &&& post.tasks.active_time == if pre.tasks.active_time == Some(row as usize) {
                    None
                } else {
                    pre.tasks.active_time
                }
                &&& post.displayed_node@ == pre.displayed_node@.with_flag(row, !was)
                &&& post.root_node@ == pre.root_node@.replace_at(
                    pre.root_node@.find(pre.displayed_node@).unwrap(),
                    post.displayed_node@,
                )
                &&& TaskView::frame_kept(pre, post)
            },
            Err(e) => {
                &&& *post == *pre
                &&& if row >= pre.tasks.task_offset {
                    e == Error::CannotCompleteSubheading
                } else {
                    e == Error::NotFound && !pre.anchored()
                }
            },
        }
    }

    /// Flips the completion of the selected task, in the rows, in the
    /// displayed heading and in the document. A timer on that task stops.
    /// A subheading row is refused.
    pub fn toggle_task(&mut self) -> (r: Result<(InfoSubType, String), Error>)
        requires
            old(self).wf(),
        ensures
            TaskView::toggle_task_post(old(self), final(self), r),
            final(self).wf(),
            r is Ok ==> final(self).anchored(),
    {
        let offset = self.paginator.offset();
        let on_page = (self.selected_line - 1) as usize;
        if on_page >= self.tasks.task_offset || offset >= self.tasks.task_offset - on_page {
            return Err(Error::CannotCompleteSubheading);
        }
        let idx = offset + on_page;
        let node_path = match Node::find_path(&self.root_node, &self.displayed_node) {
            Ok(path) => path,
            Err(e) => {
                return Err(e);
            },
        };
        let ghost shown = self.displayed_node@;
        let ghost document = self.root_node@;
        proof {
            lemma_view_fields(&self.displayed_node);
            lemma_view_fields(&self.root_node);
            lemma_find_sound(document, shown);
            lemma_at_wf(document, node_path@);
            assert(shown.task_rows()[idx as int] == shown.task_row(idx as int));
            assert(self.tasks.rows()[idx as int].with_style(RowStyle::plain()) == shown.rows()[idx as int]);
        }
        let info_type = self.tasks.toggle_task(idx);
        let flag = self.tasks.lines[idx].completed;
        proof {
            assert(self.tasks.rows()[idx as int] == self.tasks.lines@[idx as int]@);
            assert(old(self).tasks.rows()[idx as int] == old(self).tasks.lines@[idx as int]@);
            assert(flag == !old(self).tasks.lines@[idx as int].completed);
            assert(self.tasks.lines@[idx as int].name@ == old(self).tasks.lines@[idx as int].name@);
        }
        self.displayed_node.completed_tasks[idx] = flag;
        proof {
            lemma_view_fields(&self.displayed_node);
            let now = self.displayed_node@;
            assert(now.completed_tasks =~= shown.completed_tasks.update(idx as int, flag));
            assert(now == shown.with_flag(idx as int, flag));
            lemma_children_duration_same(now, shown, shown.children.len());
            assert(now.wf());
            lemma_replace_wf(document, node_path@, now.with_times_of(now));
            lemma_replace_rollup(document, node_path@, now);
            lemma_replace_then_at(document, node_path@, now);
            assert(shown.with_times_of(now) == now);
        }
        let _ = self.root_node.update_node(&node_path, &self.displayed_node);
        proof {
            let now = self.displayed_node@;
            lemma_find_complete(self.root_node@, now, node_path@);
            assert forall|i: int| 0 <= i < self.tasks.rows().len() implies (
            #[trigger] self.tasks.rows()[i]).with_style(RowStyle::plain()) == now.rows()[i] by {
                assert(old(self).tasks.rows()[i].with_style(RowStyle::plain()) == shown.rows()[i]);
                if i < shown.content.len() {
                    assert(shown.rows()[i] == shown.task_row(i));
                    assert(now.rows()[i] == now.task_row(i));
                } else {
                    assert(shown.rows()[i] == shown.summary_rows()[i - shown.content.len()]);
                    assert(now.rows()[i] == now.summary_rows()[i - shown.content.len()]);
                }
            }
        }
        assert(self.document_ok());
        assert(self.rows_in_sync());
        assert(self.page_ok());
        assert(self.wf());
        let task_name = self.tasks.lines[idx].name.clone();
        Ok((info_type, task_name))
    }
}

impl TaskView {
    /// Stops the running timer; or, when none runs, starts one on the
    /// selected row, which a subheading or a completed task refuses.
    pub fn try_activate(&mut self) -> (r: Result<(InfoSubType, String), Error>)
        requires
            old(self).wf(),
        ensures
            Tasks::try_activate_post(&old(self).tasks, &final(self).tasks, r),
            final(self).root_node == old(self).root_node,
            final(self).displayed_node == old(self).displayed_node,
            TaskView::frame_kept(old(self), final(self)),
            final(self).wf(),
            final(self).anchored() == old(self).anchored(),
    {
        self.tasks.try_activate()
    }

    /// The displayed heading after a tick: one second more on the task
    /// whose timer runs, and the time of the subtree added up anew.
    pub open spec fn ticked(&self) -> Tree {
        let shown = self.displayed_node@;
        match self.tasks.active_time {
            Some(row) => shown.with_time(
                row as int,
                shown.content_times[row as int] + 1,
                shown.rollup_duration() + 1,
            ),
            None => Tree { total_time: shown.rollup_duration(), ..shown },
        }
    }

    /// What [`TaskView::update_time`] does.
    pub open spec fn update_time_post(pre: &TaskView, post: &TaskView, r: Result<(), Error>) -> bool {
        match r {
            Ok(_) => {
                &&& pre.anchored()
                &&& post.tasks.rows() == match pre.tasks.active_time {
                    Some(row) => pre.tasks.rows().update(
                        row as int,
                        pre.tasks.rows()[row as int].with_duration(
                            pre.tasks.rows()[row as int].duration + 1,
                        ),
                    ),
                    None => pre.tasks.rows(),
                }
                &&& post.tasks.active_time == pre.tasks.active_time
                &&& post.displayed_node@ == pre.ticked()
                &&& post.displayed_node@.total_time == post.displayed_node@.rollup_duration()
                &&& post.root_node@ == pre.root_node@.replace_at(
                    pre.root_node@.find(pre.displayed_node@).unwrap(),
                    post.displayed_node@,
                )
                &&& TaskView::frame_kept(pre, post)
            },
            Err(e) => *post == *pre && e == Error::NotFound && !pre.anchored(),
        }
    }

    /// Whether a second can still be added: the times of the document and
    /// of the displayed heading stay within what the machine holds.
    pub open spec fn can_tick(&self) -> bool {
        self.tasks.active_time is Some ==> self.root_node@.rollup_duration() < u64::MAX
            && self.displayed_node@.rollup_duration() < u64::MAX
    }

    /// Whether [`TaskView::update_time`] may be called.
    pub fn has_room(&self) -> (r: bool)
        requires
            self.wf(),
        ensures
            r == self.can_tick(),
    {
        if self.tasks.active_time.is_none() {
            return true;
        }
        let (_, document_time) = rollup(&self.root_node);
        let (_, shown_time) = rollup(&self.displayed_node);
        document_time < u64::MAX && shown_time < u64::MAX
    }

    /// One tick of the clock: a second more on the task whose timer runs,
    /// the time of the displayed heading added up anew, and both written
    /// into the document.
    pub fn update_time(&mut self) -> (r: Result<(), Error>)
        requires
            old(self).wf(),
            old(self).can_tick(),
        ensures
            TaskView::update_time_post(old(self), final(self), r),
            final(self).wf(),
            r is Ok ==> final(self).anchored(),
    {
        let node_path = match Node::find_path(&self.root_node, &self.displayed_node) {
            Ok(path) => path,
            Err(e) => {
                return Err(e);
            },
        };
        let ghost shown = self.displayed_node@;
        let ghost document = self.root_node@;
        let ghost active = self.tasks.active_time;
        proof {
            lemma_view_fields(&self.displayed_node);
            lemma_view_fields(&self.root_node);
            lemma_find_sound(document, shown);
            lemma_at_wf(document, node_path@);
            if active is Some {
                let row = active.unwrap() as int;
                assert(shown.task_rows()[row] == shown.task_row(row));
                assert(self.tasks.rows()[row].with_style(RowStyle::plain()) == shown.rows()[row]);
                assert(self.tasks.rows()[row] == self.tasks.lines@[row]@);
                crate::rollup::lemma_sum_bounds(shown.content_times, row);
                lemma_sum_update(shown.content_times, row, shown.content_times[row] + 1);
            }
        }
        self.tasks.update_time();
        match self.tasks.active_time {
            Some(idx) => {
                proof {
                    assert(self.tasks.rows()[idx as int] == self.tasks.lines@[idx as int]@);
                }
                let time = self.tasks.lines[idx].duration;
                self.displayed_node.content_times[idx] = time;
            },
            None => {},
        }
        proof {
            lemma_view_fields(&self.displayed_node);
            let now = self.displayed_node@;
            if active is Some {
                let row = active.unwrap() as int;
                assert(now.content_times =~= shown.content_times.update(
                    row,
                    shown.content_times[row] + 1,
                ));
            } else {
                assert(now.content_times =~= shown.content_times);
            }
            lemma_children_duration_same(now, shown, shown.children.len());
        }
        let (_, total_time) = rollup(&self.displayed_node);
        self.displayed_node.total_time = total_time;
        proof {
            lemma_view_fields(&self.displayed_node);
            let now = self.displayed_node@;
            assert(now == old(self).ticked());
            lemma_children_duration_same(now, shown, shown.children.len());
            assert(now.wf());
            assert(shown.with_times_of(now) == now);
            lemma_replace_wf(document, node_path@, now);
            lemma_replace_rollup(document, node_path@, now);
            lemma_replace_then_at(document, node_path@, now);
        }
        let _ = self.root_node.update_node(&node_path, &self.displayed_node);
        proof {
            let now = self.displayed_node@;
            lemma_find_complete(self.root_node@, now, node_path@);
            assert forall|i: int| 0 <= i < self.tasks.rows().len() implies (
            #[trigger] self.tasks.rows()[i]).with_style(RowStyle::plain()) == now.rows()[i] by {
                assert(old(self).tasks.rows()[i].with_style(RowStyle::plain()) == shown.rows()[i]);
                if i < shown.content.len() {
                    assert(shown.rows()[i] == shown.task_row(i));
                    assert(now.rows()[i] == now.task_row(i));
                } else {
                    assert(shown.rows()[i] == shown.summary_rows()[i - shown.content.len()]);
                    assert(now.rows()[i] == now.summary_rows()[i - shown.content.len()]);
                }
            }
        }
        assert(self.document_ok());
        assert(self.rows_in_sync());
        assert(self.page_ok());
        assert(self.wf());
        Ok(())
    }
}

/// The name under which a heading is reported: its heading line, or
/// `Root Node` for the anonymous root.
pub open spec fn heading_name(node: Tree) -> Seq<char> {
    match node.heading {
        Some(h) => h,
        None => "Root Node"@,
    }
}

impl TaskView {
    /// The name under which the displayed heading is reported.
    fn displayed_name(&self) -> (name: String)
        ensures
            name@ == heading_name(self.displayed_node@),
    {
        proof {
            lemma_view_fields(&self.displayed_node);
        }
        match &self.displayed_node.heading {
            Some(heading) => heading.clone(),
            None => "Root Node".to_string(),
        }
    }

    /// What [`TaskView::enter_next_node`] does.
    pub open spec fn enter_next_node_post(
        pre: &TaskView,
        post: &TaskView,
        r: Result<(InfoSubType, String), Error>,
    ) -> bool {
        let row = pre.selected_row();
        let on_subheading = pre.tasks.task_offset <= row < pre.tasks.lines.len();
        match r {
            Ok((info, name)) => {
                let child = pre.displayed_node@.children[row - pre.tasks.task_offset];
                &&& on_subheading
                &&& pre.anchored()
                &&& info == InfoSubType::EnterSubheading
                &&& name@ == heading_name(child)
                &&& post.displayed_node@ == child
                &&& post.tasks.rows() == child.rows()
                &&& post.tasks.active_time is None
                &&& post.selected_line == 1
                &&& post.paginator == (Paginator {
                    page: 0,
                    page_size: pre.paginator.page_size,
                    entry_len: child.rows().len() as usize,
                })
                &&& post.nav_bar.trail() == pre.nav_bar.trail().push(
                    breadcrumb_of(child.heading.unwrap()),
                )
                &&& post.root_node@ == pre.root_node@
                &&& post.key_config == pre.key_config
            },
            Err(e) => {
                &&& *post == *pre
                &&& if !on_subheading {
                    e == Error::NoSubheadingOnLine
                } else {
                    e == Error::NotFound && !pre.anchored()
                }
            },
        }
    }

    /// Displays the subheading on the selected row, and adds it to the
    /// trail. A task row is refused.
    pub fn enter_next_node(&mut self) -> (r: Result<(InfoSubType, String), Error>)
        requires
            old(self).wf(),
        ensures
            TaskView::enter_next_node_post(old(self), final(self), r),
            final(self).wf(),
            r is Ok ==> final(self).anchored(),
    {
        let new_node = match self.get_subheading(self.selected_line as usize) {
            Some(node) => node,
            None => {
                return Err(Error::NoSubheadingOnLine);
            },
        };
        let node_path = match self.update_root() {
            Ok(path) => path,
            Err(e) => {
                return Err(e);
            },
        };
        let ghost shown = self.displayed_node@;
        let ghost document = self.root_node@;
        let ghost k = self.selected_row() - self.tasks.task_offset;
        proof {
            lemma_view_fields(&self.root_node);
            lemma_find_sound(document, shown);
            lemma_children_duration_bounds(shown, k as nat);
            assert(shown.children[k].wf());
            assert(shown.children[k].heading is Some);
            lemma_view_fields(&self.displayed_node);
            lemma_at_child(document, node_path@, k as usize);
            lemma_find_complete(document, shown.children[k], node_path@.push(k as usize));
        }
        self.update_display_data(new_node);
        self.add_breadcrumb();
        assert(self.rows_in_sync());
        assert(self.page_ok());
        assert(self.wf());
        let heading_name = self.displayed_name();
        Ok((InfoSubType::EnterSubheading, heading_name))
    }

    /// What [`TaskView::enter_prev_node`] does.
    pub open spec fn enter_prev_node_post(
        pre: &TaskView,
        post: &TaskView,
        r: Result<(InfoSubType, String), Error>,
    ) -> bool {
        match r {
            Ok((info, name)) => {
                let path = pre.root_node@.find(pre.displayed_node@).unwrap();
                let up = if path.len() > 0 {
                    path.drop_last()
                } else {
                    path
                };
                let parent = pre.root_node@.at(up).unwrap();
                &&& pre.anchored()
                &&& info == InfoSubType::EnterParent
                &&& name@ == heading_name(parent)
                &&& post.displayed_node@ == parent
                &&& post.tasks.rows() == parent.rows()
                &&& post.tasks.active_time is None
                &&& post.selected_line == 1
                &&& post.paginator == (Paginator {
                    page: 0,
                    page_size: pre.paginator.page_size,
                    entry_len: parent.rows().len() as usize,
                })
                &&& post.nav_bar.trail() == if pre.nav_bar.trail().len() > 0 {
                    pre.nav_bar.trail().drop_last()
                } else {
                    pre.nav_bar.trail()
                }
                &&& post.root_node@ == pre.root_node@
                &&& post.key_config == pre.key_config
            },
            Err(e) => *post == *pre && e == Error::NotFound && !pre.anchored(),
        }
    }

    /// Displays the heading above the displayed one, and takes the last
    /// name off the trail. Above the root there is the root.
    pub fn enter_prev_node(&mut self) -> (r: Result<(InfoSubType, String), Error>)
        requires
            old(self).wf(),
        ensures
            TaskView::enter_prev_node_post(old(self), final(self), r),
            final(self).wf(),
            r is Ok ==> final(self).anchored(),
    {
        let mut curr_node_path = match self.update_root() {
            Ok(path) => path,
            Err(e) => {
                return Err(e);
            },
        };
        let ghost shown = self.displayed_node@;
        let ghost document = self.root_node@;
        let ghost path = curr_node_path@;
        proof {
            lemma_view_fields(&self.root_node);
            lemma_find_sound(document, shown);
        }
        curr_node_path.pop();
        proof {
            let up = curr_node_path@;
            assert(up =~= if path.len() > 0 {
                path.drop_last()
            } else {
                path
            });
            assert(up =~= path.take(up.len() as int));
            crate::node::lemma_at_prefix(document, path, up.len() as int);
            lemma_at_wf(document, up);
            lemma_at_rollup_le(document, up);
            lemma_find_complete(document, document.at(up).unwrap(), up);
        }
        let new_node = match self.root_node.get_node(&curr_node_path) {
            Some(node) => node.clone(),
            None => {
                return Err(Error::ParentNotFound);
            },
        };
        self.update_display_data(new_node);
        self.nav_bar.pop_breadcrumb();
        assert(self.rows_in_sync());
        assert(self.page_ok());
        assert(self.wf());
        let heading_name = self.displayed_name();
        Ok((InfoSubType::EnterParent, heading_name))
    }
}

impl TaskView {
    /// Takes a new document in place of the old one and displays its root:
    /// first page, first row, no timer, an empty trail. Nothing of the old
    /// document is kept.
    pub fn update_tree(&mut self, new_root: Node)
        requires
            0 < old(self).paginator.page_size <= u16::MAX,
            new_root@.wf(),
            new_root@.rollup_duration() <= u64::MAX,
        ensures
            final(self).root_node@ == new_root@,
            final(self).displayed_node@ == new_root@,
            final(self).tasks.rows() == new_root@.rows(),
            final(self).tasks.active_time is None,
            final(self).selected_line == 1,
            final(self).paginator == (Paginator {
                page: 0,
                page_size: old(self).paginator.page_size,
                entry_len: new_root@.rows().len() as usize,
            }),
            final(self).nav_bar.trail() == Seq::<Seq<char>>::empty(),
            final(self).key_config == old(self).key_config,
            final(self).wf(),
            final(self).anchored(),
    {
        self.root_node = new_root.clone();
        self.update_display_data(new_root);
        self.nav_bar = NavigationBar::new();
    }

    /// Reads the changed text of the file and takes the document it stands
    /// for in place of the old one. Times and completions that only the old
    /// document held are gone: every task starts with no time spent.
    pub fn on_file_changed(&mut self, new_text: &str)
        requires
            0 < old(self).paginator.page_size <= u16::MAX,
        ensures
            final(self).root_node@ == parse(new_text@),
            final(self).displayed_node@ == parse(new_text@),
            final(self).tasks.rows() == parse(new_text@).rows(),
            final(self).tasks.active_time is None,
            final(self).selected_line == 1,
            final(self).paginator == (Paginator {
                page: 0,
                page_size: old(self).paginator.page_size,
                entry_len: parse(new_text@).rows().len() as usize,
            }),
            final(self).nav_bar.trail() == Seq::<Seq<char>>::empty(),
            final(self).key_config == old(self).key_config,
            final(self).wf(),
            final(self).anchored(),
    {
        let new_root = Node::convert_from(new_text);
        proof {
            lemma_parse_wf(new_text@);
        }
        self.update_tree(new_root);
    }

    /// What turning the page does: the page after or before the current
    /// one, where there is one, with its first row selected.
    pub open spec fn page_turned(pre: &TaskView, post: &TaskView, forward: bool) -> bool {
        &&& post.paginator == (Paginator {
            page: if forward {
                if pre.paginator.has_next() {
                    (pre.paginator.page + 1) as usize
                } else {
                    pre.paginator.page
                }
            } else {
                if pre.paginator.page > 0 {
                    (pre.paginator.page - 1) as usize
                } else {
                    0
                }
            },
            ..pre.paginator
        })
        &&& post.tasks == (Tasks {
            page_start: post.paginator.start() as usize,
            page_end: post.paginator.end() as usize,
            selected_line: 1,
            ..pre.tasks
        })
        &&& post.selected_line == 1
        &&& post.content_height == post.paginator.end() - post.paginator.start()
        &&& post.root_node == pre.root_node
        &&& post.displayed_node == pre.displayed_node
        &&& post.nav_bar == pre.nav_bar
        &&& post.key_config == pre.key_config
    }

    /// Goes to the next page (`forward`) or to the previous one.
    pub fn turn_page(&mut self, forward: bool)
        requires
            old(self).wf(),
        ensures
            TaskView::page_turned(old(self), final(self), forward),
            final(self).wf(),
            final(self).anchored() == old(self).anchored(),
    {
        if forward {
            self.paginator.next_page();
        } else {
            self.paginator.prev_page();
        }
        let (page_start, page_end) = self.paginator.page_slice();
        self.tasks.slice_bounds(page_start, page_end);
        self.content_height = self.paginator.content_height();
        self.selected_line = 1;
        self.tasks.selected_line = 1;
    }

    /// What selecting line `line` of the page does: nothing where the page
    /// has no such line.
    pub open spec fn line_selected(pre: &TaskView, post: &TaskView, line: int) -> bool {
        *post == if 0 < line <= pre.content_height {
            TaskView {
                selected_line: line as u16,
                tasks: Tasks { selected_line: line as u16, ..pre.tasks },
                ..*pre
            }
        } else {
            *pre
        }
    }

    /// The answer to a key that reports nothing.
    pub open spec fn silent(r: Result<(InfoSubType, String), Error>) -> bool {
        match r {
            Ok((info, text)) => info == InfoSubType::Nothing && text@ == "erm"@,
            Err(_) => false,
        }
    }

    /// What [`TaskView::handle_events`] does with each key. Where one key is
    /// bound twice, the first binding in this order counts.
    pub open spec fn handle_events_post(
        pre: &TaskView,
        key: Key,
        post: &TaskView,
        r: Result<(InfoSubType, String), Error>,
    ) -> bool {
        let keys = pre.key_config;
        if key == keys.down {
            TaskView::line_selected(pre, post, pre.selected_line + 1) && TaskView::silent(r)
        } else if key == keys.up {
            TaskView::line_selected(pre, post, pre.selected_line - 1) && TaskView::silent(r)
        } else if key == keys.page_down {
            TaskView::page_turned(pre, post, true) && TaskView::silent(r)
        } else if key == keys.page_up {
            TaskView::page_turned(pre, post, false) && TaskView::silent(r)
        } else if key == keys.start_timer {
            &&& Tasks::try_activate_post(&pre.tasks, &post.tasks, r)
            &&& post.root_node == pre.root_node
            &&& post.displayed_node == pre.displayed_node
            &&& TaskView::frame_kept(pre, post)
        } else if key == keys.complete {
            TaskView::toggle_task_post(pre, post, r)
        } else if key == keys.back {
            TaskView::enter_prev_node_post(pre, post, r)
        } else if key == keys.enter {
            TaskView::enter_next_node_post(pre, post, r)
        } else {
            *post == *pre && TaskView::silent(r)
        }
    }

    /// Whether the view answers to the key.
    pub open spec fn binds(&self, key: Key) -> bool {
        let keys = self.key_config;
        key == keys.down || key == keys.up || key == keys.page_down || key == keys.page_up || key
            == keys.start_timer || key == keys.complete || key == keys.back || key == keys.enter
    }

    /// Does what the key stands for, and reports what there is to log: what
    /// was done and to what, or why it was refused.
    pub fn handle_events(&mut self, key: Key) -> (r: Result<(InfoSubType, String), Error>)
        requires
            old(self).wf(),
        ensures
            TaskView::handle_events_post(old(self), key, final(self), r),
            final(self).wf(),
    {
        let keys = self.key_config;
        if key == keys.down {
            if self.selected_line < u16::MAX {
                self.select_line(self.selected_line + 1);
            }
        } else if key == keys.up {
            self.select_line(self.selected_line - 1);
        } else if key == keys.page_down {
            self.turn_page(true);
        } else if key == keys.page_up {
            self.turn_page(false);
        } else if key == keys.start_timer {
            return self.try_activate();
        } else if key == keys.complete {
            return self.toggle_task();
        } else if key == keys.back {
            return self.enter_prev_node();
        } else if key == keys.enter {
            return self.enter_next_node();
        }
        Ok((InfoSubType::Nothing, "erm".to_string()))
    }

    /// Does what the key stands for, and says whether the view answers to
    /// the key at all.
    pub fn event(&mut self, key: Key) -> (state: EventState)
        requires
            old(self).wf(),
        ensures
            state == if old(self).binds(key) {
                EventState::Consumed
            } else {
                EventState::NotConsumed
            },
            exists|r: Result<(InfoSubType, String), Error>|
                TaskView::handle_events_post(old(self), key, final(self), r),
            final(self).wf(),
    {
        let keys = self.key_config;
        let bound = key == keys.down || key == keys.up || key == keys.page_down || key
            == keys.page_up || key == keys.start_timer || key == keys.complete || key == keys.back
            || key == keys.enter;
        let r = self.handle_events(key);
        assert(TaskView::handle_events_post(old(self), key, self, r));
        if bound {
            EventState::Consumed
        } else {
            EventState::NotConsumed
        }
    }
}

} // verus!
