//! Timers by the line on which a task is drawn: at most one of them runs.

use crate::node::NodePath;
use vstd::prelude::*;

verus! {

/// The timer of one task: where the task is drawn, where it lies in the
/// document, and whether the timer runs.
#[derive(Debug)]
pub struct TimeData {
    pub line_num: u16,
    pub node_path: NodePath,
    pub task_num: usize,
    pub active: bool,
}

/// The mathematical value of a [`TimeData`].
pub struct Timer {
    pub line_num: u16,
    pub node_path: Seq<usize>,
    pub task_num: usize,
    pub active: bool,
}

impl View for TimeData {
    type V = Timer;

    open spec fn view(&self) -> Timer {
        Timer {
            line_num: self.line_num,
            node_path: self.node_path@,
            task_num: self.task_num,
            active: self.active,
        }
    }
}

impl TimeData {
    /// Whether two timers are equal in every part.
    pub fn same(&self, other: &TimeData) -> (r: bool)
        ensures
            r == (self@ == other@),
    {
        if self.line_num != other.line_num || self.task_num != other.task_num || self.active
            != other.active || self.node_path.len() != other.node_path.len() {
            return false;
        }
        let mut i: usize = 0;
        while i < self.node_path.len()
            invariant
                i <= self.node_path.len(),
                self.node_path.len() == other.node_path.len(),
                forall|k: int| 0 <= k < i ==> self.node_path@[k] == other.node_path@[k],
            decreases self.node_path.len() - i,
        {
            if self.node_path[i] != other.node_path[i] {
                return false;
            }
            i += 1;
        }
        assert(self.node_path@ =~= other.node_path@);
        true
    }
}

/// The views of a list of timers.
pub open spec fn timers_view(v: Seq<TimeData>) -> Seq<Timer> {
    Seq::new(v.len(), |i: int| v[i]@)
}

/// The position of the first timer at or after `from` that is drawn on
/// `line`.
pub open spec fn timer_on(timers: Seq<Timer>, line: u16, from: int) -> Option<int>
    decreases timers.len() - from,
{
    if from < 0 || from >= timers.len() {
        None
    } else if timers[from].line_num == line {
        Some(from)
    } else {
        timer_on(timers, line, from + 1)
    }
}

/// At most one timer of the list runs.
pub open spec fn at_most_one_runs(timers: Seq<Timer>) -> bool {
    forall|i: int, j: int|
        0 <= i < timers.len() && 0 <= j < timers.len() && timers[i].active && timers[j].active
            ==> i == j
}

/// The timers of the drawn tasks and the selected line.
#[derive(Debug)]
pub struct TimerView {
    pub selected_line: u16,
    /// The lines on which completed tasks are drawn.
    pub completed_tasks: Vec<u16>,
    pub time_data: Vec<TimeData>,
}

impl TimerView {
    /// The timers as mathematical values.
    pub open spec fn timers(&self) -> Seq<Timer> {
        timers_view(self.time_data@)
    }

    /// The timers after the timer at position `at` was switched: it runs if
    /// it did not, and no other timer runs.
    pub open spec fn switched(timers: Seq<Timer>, at: int) -> Seq<Timer> {
        Seq::new(
            timers.len(),
            |i: int| Timer { active: i == at && !timers[at].active, ..timers[i] },
        )
    }

    /// No timers, the first line selected.
    pub fn new() -> (view: TimerView)
        ensures
            view.selected_line == 1,
            view.completed_tasks@.len() == 0,
            view.timers() == Seq::<Timer>::empty(),
    {
        let view = TimerView { selected_line: 1, completed_tasks: Vec::new(), time_data: Vec::new() };
        assert(view.timers() =~= Seq::<Timer>::empty());
        view
    }

    /// Switches the timer of the task on the selected line, and stops every
    /// other timer. Nothing happens where no task is drawn on that line, or
    /// a completed one.
    pub fn try_activate(&mut self)
        ensures
            final(self).timers() == match timer_on(old(self).timers(), old(self).selected_line, 0) {
                Some(at) => if old(self).completed_tasks@.contains(old(self).selected_line) {
                    old(self).timers()
                } else {
                    TimerView::switched(old(self).timers(), at)
                },
                None => old(self).timers(),
            },
            final(self).selected_line == old(self).selected_line,
            final(self).completed_tasks == old(self).completed_tasks,
            at_most_one_runs(old(self).timers()) ==> at_most_one_runs(final(self).timers()),
    {
        let idx = match self.position_on_line() {
            Some(idx) => idx,
            None => {
                return ;
            },
        };
        if holds_line(&self.completed_tasks, self.selected_line) {
            return ;
        }
        let target = !self.time_data[idx].active;
        let mut i: usize = 0;
        while i < self.time_data.len()
            invariant
                i <= self.time_data.len(),
                idx < self.time_data.len(),
                self.time_data.len() == old(self).time_data.len(),
                self.selected_line == old(self).selected_line,
                self.completed_tasks == old(self).completed_tasks,
                target == !old(self).time_data@[idx as int].active,
                forall|k: int|
                    0 <= k < i ==> (#[trigger] self.time_data@[k])@ == TimerView::switched(
                        old(self).timers(),
                        idx as int,
                    )[k],
                forall|k: int|
                    i <= k < self.time_data.len() ==> (#[trigger] self.time_data@[k])@ == old(
                        self,
                    ).time_data@[k]@,
            decreases self.time_data.len() - i,
        {
            let entry = &mut self.time_data[i];
            entry.active = i == idx && target;
            i += 1;
        }
        assert(self.timers() =~= TimerView::switched(old(self).timers(), idx as int));
    }

    /// The position of the first timer that is drawn on the selected line.
    fn position_on_line(&self) -> (r: Option<usize>)
        ensures
            match r {
                Some(at) => timer_on(self.timers(), self.selected_line, 0) == Some(at as int)
                    && at < self.time_data.len(),
                None => timer_on(self.timers(), self.selected_line, 0) is None,
            },
    {
        let mut i: usize = 0;
        while i < self.time_data.len()
            invariant
                i <= self.time_data.len(),
                timer_on(self.timers(), self.selected_line, i as int) == timer_on(
                    self.timers(),
                    self.selected_line,
                    0,
                ),
            decreases self.time_data.len() - i,
        {
            assert(self.timers()[i as int] == self.time_data@[i as int]@);
            if self.time_data[i].line_num == self.selected_line {
                return Some(i);
            }
            i += 1;
        }
        None
    }

    /// The positions of the timers that run.
    pub fn active_times(&self) -> (running: Vec<usize>)
        ensures
            forall|k: int|
                0 <= k < running.len() ==> running@[k] < self.time_data.len()
                    && self.time_data@[running@[k] as int].active,
            forall|i: int|
                0 <= i < self.time_data.len() && self.time_data@[i].active ==> running@.contains(
                    i as usize,
                ),
            forall|a: int, b: int| 0 <= a < b < running.len() ==> running@[a] < running@[b],
    {
        let mut running: Vec<usize> = Vec::new();
        let mut i: usize = 0;
        while i < self.time_data.len()
            invariant
                i <= self.time_data.len(),
                forall|k: int|
                    0 <= k < running.len() ==> running@[k] < i && self.time_data@[running@[k] as int].active,
                forall|j: int|
                    0 <= j < i && self.time_data@[j].active ==> running@.contains(j as usize),
                forall|a: int, b: int| 0 <= a < b < running.len() ==> running@[a] < running@[b],
            decreases self.time_data.len() - i,
        {
            if self.time_data[i].active {
                let ghost before = running@;
                running.push(i);
                proof {
                    assert(running@[before.len() as int] == i);
                    assert forall|j: int|
                        0 <= j < i + 1 && self.time_data@[j].active implies running@.contains(
                        j as usize,
                    ) by {
                        if j < i {
                            let at = choose|at: int| 0 <= at < before.len() && before[at] == j as usize;
                            assert(running@[at] == j as usize);
                        }
                    }
                }
            }
            i += 1;
        }
        running
    }

    /// Takes note of the timer of a drawn task, unless it is noted already.
    pub fn update_time_data(
        &mut self,
        line_num: u16,
        node_path: NodePath,
        task_num: usize,
        active: bool,
    )
        ensures
            final(self).timers() == if old(self).timers().contains(
                Timer { line_num, node_path: node_path@, task_num, active },
            ) {
                old(self).timers()
            } else {
                old(self).timers().push(Timer { line_num, node_path: node_path@, task_num, active })
            },
            final(self).selected_line == old(self).selected_line,
            final(self).completed_tasks == old(self).completed_tasks,
    {
        let ghost noted = Timer { line_num, node_path: node_path@, task_num, active };
        let entry = TimeData { line_num, node_path, task_num, active };
        let mut i: usize = 0;
        while i < self.time_data.len()
            invariant
                i <= self.time_data.len(),
                *self == *old(self),
                entry@ == noted,
                noted == (Timer { line_num, node_path: node_path@, task_num, active }),
                forall|k: int| 0 <= k < i ==> self.timers()[k] != noted,
            decreases self.time_data.len() - i,
        {
            assert(self.timers()[i as int] == self.time_data@[i as int]@);
            if self.time_data[i].same(&entry) {
                assert(self.timers().contains(noted));
                return ;
            }
            i += 1;
        }
        self.time_data.push(entry);
        assert(self.timers() =~= old(self).timers().push(entry@));
    }
}

/// Whether the list holds the line.
pub fn holds_line(lines: &Vec<u16>, line: u16) -> (r: bool)
    ensures
        r == lines@.contains(line),
{
    let mut i: usize = 0;
    while i < lines.len()
        invariant
            i <= lines.len(),
            forall|k: int| 0 <= k < i ==> lines@[k] != line,
        decreases lines.len() - i,
    {
        if lines[i] == line {
            return true;
        }
        i += 1;
    }
    false
}

} // verus!
