//! Completion and elapsed time of a heading, rolled up from everything below
//! it.

use crate::node::{lemma_view_fields, Node, Tree};
use vstd::prelude::*;

verus! {

/// The sum of a list of times.
pub open spec fn sum(times: Seq<nat>) -> nat
    decreases times.len(),
{
    if times.len() == 0 {
        0
    } else {
        sum(times.drop_last()) + times.last()
    }
}

/// Whether every flag of the list is set.
pub open spec fn all_set(flags: Seq<bool>) -> bool {
    forall|i: int| 0 <= i < flags.len() ==> flags[i]
}

impl Tree {
    /// The time spent on the tasks of this heading and of every heading below
    /// it.
    pub open spec fn rollup_duration(self) -> nat
        decreases self, 1nat, 0nat,
    {
        sum(self.content_times) + self.children_duration(self.children.len())
    }

    /// The time spent below the first `n` subheadings.
    pub open spec fn children_duration(self, n: nat) -> nat
        decreases self, 0nat, n,
    {
        if n == 0 || n > self.children.len() {
            0
        } else {
            self.children_duration((n - 1) as nat) + self.children[n - 1].rollup_duration()
        }
    }

    /// Whether every task of this heading and of every heading below it is
    /// completed. A heading without tasks and subheadings is.
    pub open spec fn rollup_completed(self) -> bool
        decreases self,
    {
        &&& all_set(self.completed_tasks)
        &&& forall|i: int|
            0 <= i < self.children.len() ==> (#[trigger] self.children[i]).rollup_completed()
    }

    /// The times of all tasks of the subtree: this heading's own, then those
    /// below each subheading in turn.
    pub open spec fn all_times(self) -> Seq<nat>
        decreases self, 1nat, 0nat,
    {
        self.content_times + self.children_times(self.children.len())
    }

    /// The times of all tasks below the first `n` subheadings.
    pub open spec fn children_times(self, n: nat) -> Seq<nat>
        decreases self, 0nat, n,
    {
        if n == 0 || n > self.children.len() {
            Seq::empty()
        } else {
            self.children_times((n - 1) as nat) + self.children[n - 1].all_times()
        }
    }
}

/// The sum of two lists, one after the other, is the sum of their sums.
pub proof fn lemma_sum_concat(a: Seq<nat>, b: Seq<nat>)
    ensures
        sum(a + b) == sum(a) + sum(b),
    decreases b.len(),
{
    if b.len() == 0 {
        assert(a + b =~= a);
    } else {
        assert((a + b).drop_last() =~= a + b.drop_last());
        lemma_sum_concat(a, b.drop_last());
    }
}

/// Each time of a list, and the sum of each beginning of it, is at most the
/// sum of the list.
pub proof fn lemma_sum_bounds(times: Seq<nat>, n: int)
    requires
        0 <= n <= times.len(),
    ensures
        sum(times.take(n)) <= sum(times),
        n < times.len() ==> sum(times.take(n)) + times[n] <= sum(times),
    decreases times.len() - n,
{
    if n == times.len() {
        assert(times.take(n) =~= times);
    } else {
        assert(times.take(n + 1).drop_last() =~= times.take(n));
        lemma_sum_bounds(times, n + 1);
    }
}

/// The time below the first subheadings, with the next one's, is at most the
/// time below all of them.
pub proof fn lemma_children_duration_bounds(t: Tree, n: nat)
    requires
        n <= t.children.len(),
    ensures
        t.children_duration(n) <= t.children_duration(t.children.len()),
        n < t.children.len() ==> t.children_duration(n) + t.children[n as int].rollup_duration()
            <= t.children_duration(t.children.len()),
    decreases t.children.len() - n,
{
    if n < t.children.len() {
        lemma_children_duration_bounds(t, n + 1);
    }
}

/// The rolled-up time of a heading is the sum of the times of all tasks in
/// its subtree.
pub proof fn lemma_rollup_duration_is_sum(t: Tree)
    ensures
        t.rollup_duration() == sum(t.all_times()),
    decreases t, 1nat, 0nat,
{
    lemma_children_duration_is_sum(t, t.children.len());
    lemma_sum_concat(t.content_times, t.children_times(t.children.len()));
}

/// [`lemma_rollup_duration_is_sum`] for the first `n` subheadings.
pub proof fn lemma_children_duration_is_sum(t: Tree, n: nat)
    requires
        n <= t.children.len(),
    ensures
        t.children_duration(n) == sum(t.children_times(n)),
    decreases t, 0nat, n,
{
    if n > 0 {
        lemma_children_duration_is_sum(t, (n - 1) as nat);
        lemma_rollup_duration_is_sum(t.children[n - 1]);
        lemma_sum_concat(t.children_times((n - 1) as nat), t.children[n - 1].all_times());
    }
}

/// A heading rolls up as completed exactly when every task of every node of
/// its subtree is completed.
pub proof fn lemma_rollup_completed_is_all(t: Tree)
    requires
        t.bounded(),
    ensures
        t.rollup_completed() <==> forall|path: Seq<usize>, i: int|
            t.at(path) is Some && 0 <= i < t.at(path).unwrap().completed_tasks.len() ==> (
            #[trigger] t.at(path).unwrap().completed_tasks[i]),
{
    if t.rollup_completed() {
        assert forall|path: Seq<usize>, i: int|
            t.at(path) is Some && 0 <= i < t.at(path).unwrap().completed_tasks.len() implies (
        #[trigger] t.at(path).unwrap().completed_tasks[i]) by {
            lemma_completed_below(t, path);
        }
    } else {
        lemma_open_task_exists(t);
    }
}

/// Every node below a heading that rolls up as completed does so too.
pub proof fn lemma_completed_below(t: Tree, path: Seq<usize>)
    requires
        t.rollup_completed(),
        t.at(path) is Some,
    ensures
        t.at(path).unwrap().rollup_completed(),
    decreases path.len(),
{
    if path.len() > 0 {
        lemma_completed_below(t.children[path[0] as int], path.drop_first());
    }
}

/// Below a heading that does not roll up as completed, some path leads to a
/// node with an open task.
pub proof fn lemma_open_task_exists(t: Tree)
    requires
        t.bounded(),
        !t.rollup_completed(),
    ensures
        exists|path: Seq<usize>, i: int|
            t.at(path) is Some && 0 <= i < t.at(path).unwrap().completed_tasks.len() && !(
            #[trigger] t.at(path).unwrap().completed_tasks[i]),
    decreases t,
{
    if !all_set(t.completed_tasks) {
        let i = choose|i: int| 0 <= i < t.completed_tasks.len() && !t.completed_tasks[i];
        let path = Seq::<usize>::empty();
        assert(t.at(path) == Some(t));
        assert(!t.at(path).unwrap().completed_tasks[i]);
    } else {
        let k = choose|k: int|
            0 <= k < t.children.len() && !(#[trigger] t.children[k]).rollup_completed();
        lemma_open_task_exists(t.children[k]);
        let (sub, i) = choose|sub: Seq<usize>, i: int|
            t.children[k].at(sub) is Some && 0 <= i < t.children[k].at(
                sub,
            ).unwrap().completed_tasks.len() && !(#[trigger] t.children[k].at(
                sub,
            ).unwrap().completed_tasks[i]);
        let path = seq![k as usize] + sub;
        assert(path.drop_first() =~= sub);
        assert(t.at(path) == t.children[k].at(sub));
        assert(!t.at(path).unwrap().completed_tasks[i]);
    }
}

/// The time below the subheadings depends on the subheadings alone.
pub proof fn lemma_children_duration_same(a: Tree, b: Tree, n: nat)
    requires
        a.children == b.children,
    ensures
        a.children_duration(n) == b.children_duration(n),
    decreases n,
{
    if n > 0 && n <= a.children.len() {
        lemma_children_duration_same(a, b, (n - 1) as nat);
    }
}

/// One second more on one task is one second more on the sum.
pub proof fn lemma_sum_update(times: Seq<nat>, i: int, time: nat)
    requires
        0 <= i < times.len(),
    ensures
        sum(times.update(i, time)) + times[i] == sum(times) + time,
    decreases times.len(),
{
    let after = times.update(i, time);
    if i == times.len() - 1 {
        assert(after.drop_last() =~= times.drop_last());
    } else {
        assert(after.drop_last() =~= times.drop_last().update(i, time));
        lemma_sum_update(times.drop_last(), i, time);
    }
}

/// Where no time has been spent on any task, none has been spent in all.
pub proof fn lemma_untimed_rollup(t: Tree)
    requires
        t.untimed(),
    ensures
        t.rollup_duration() == 0,
    decreases t, 1nat, 0nat,
{
    lemma_zero_sum(t.content_times);
    lemma_untimed_children(t, t.children.len());
}

/// [`lemma_untimed_rollup`] for the first `n` subheadings.
pub proof fn lemma_untimed_children(t: Tree, n: nat)
    requires
        t.untimed(),
        n <= t.children.len(),
    ensures
        t.children_duration(n) == 0,
    decreases t, 0nat, n,
{
    if n > 0 {
        lemma_untimed_children(t, (n - 1) as nat);
        lemma_untimed_rollup(t.children[n - 1]);
    }
}

/// A list of zeros adds up to zero.
pub proof fn lemma_zero_sum(times: Seq<nat>)
    requires
        forall|i: int| 0 <= i < times.len() ==> times[i] == 0,
    ensures
        sum(times) == 0,
    decreases times.len(),
{
    if times.len() > 0 {
        lemma_zero_sum(times.drop_last());
    }
}

/// The time below a node is part of the time below the tree.
pub proof fn lemma_at_rollup_le(t: Tree, path: Seq<usize>)
    requires
        t.at(path) is Some,
    ensures
        t.at(path).unwrap().rollup_duration() <= t.rollup_duration(),
    decreases path.len(),
{
    if path.len() > 0 {
        lemma_at_rollup_le(t.children[path[0] as int], path.drop_first());
        lemma_children_duration_bounds(t, path[0] as nat);
    }
}

/// Replacing subheading `k` changes the time below the first `n`
/// subheadings by the difference of the two, where `k` is among them.
pub proof fn lemma_children_duration_update(t: Tree, k: int, child: Tree, n: nat)
    requires
        0 <= k < t.children.len(),
        n <= t.children.len(),
    ensures
        (Tree { children: t.children.update(k, child), ..t }).children_duration(n) + (if k < n {
            t.children[k].rollup_duration()
        } else {
            0
        }) == t.children_duration(n) + (if k < n {
            child.rollup_duration()
        } else {
            0
        }),
    decreases n,
{
    if n > 0 {
        lemma_children_duration_update(t, k, child, (n - 1) as nat);
    }
}

/// Replacing a node changes the time below the tree by the difference of the
/// times below the old node and the new one.
pub proof fn lemma_replace_rollup(t: Tree, path: Seq<usize>, node: Tree)
    requires
        t.at(path) is Some,
    ensures
        t.replace_at(path, node).rollup_duration() + t.at(path).unwrap().rollup_duration()
            == t.rollup_duration() + node.rollup_duration(),
    decreases path.len(),
{
    if path.len() > 0 {
        let k = path[0] as int;
        let below = t.children[k].replace_at(path.drop_first(), node);
        lemma_replace_rollup(t.children[k], path.drop_first(), node);
        lemma_children_duration_update(t, k, below, t.children.len());
    }
}

/// Completion and elapsed seconds of a heading, rolled up from its own tasks
/// and from every heading below it.
pub fn rollup(node: &Node) -> (entry: (bool, u64))
    requires
        node@.rollup_duration() <= u64::MAX,
    ensures
        entry.0 == node@.rollup_completed(),
        entry.1 == node@.rollup_duration(),
    decreases node,
{
    proof {
        lemma_view_fields(node);
    }
    let ghost t = node@;
    let mut completed = true;
    let mut i: usize = 0;
    while i < node.completed_tasks.len()
        invariant
            i <= node.completed_tasks.len(),
            completed == all_set(node.completed_tasks@.take(i as int)),
        decreases node.completed_tasks.len() - i,
    {
        let flag = node.completed_tasks[i];
        proof {
            let now = node.completed_tasks@.take(i as int);
            let next = node.completed_tasks@.take(i + 1);
            if completed && flag {
                assert forall|j: int| 0 <= j < next.len() implies next[j] by {
                    if j < i {
                        assert(now[j]);
                    }
                }
            } else if !flag {
                assert(!next[i as int]);
            } else {
                let j = choose|j: int| 0 <= j < now.len() && !now[j];
                assert(!next[j]);
            }
        }
        completed = completed && flag;
        i += 1;
    }
    assert(node.completed_tasks@.take(i as int) =~= t.completed_tasks);
    let mut time: u64 = 0;
    let mut j: usize = 0;
    while j < node.content_times.len()
        invariant
            j <= node.content_times.len(),
            t == node@,
            t.content_times.len() == node.content_times.len(),
            forall|k: int| 0 <= k < t.content_times.len() ==> t.content_times[k] == node.content_times@[k],
            t.rollup_duration() <= u64::MAX,
            time == sum(t.content_times.take(j as int)),
        decreases node.content_times.len() - j,
    {
        proof {
            lemma_sum_bounds(t.content_times, j as int);
            assert(t.content_times.take(j + 1).drop_last() =~= t.content_times.take(j as int));
        }
        time += node.content_times[j];
        j += 1;
    }
    assert(t.content_times.take(j as int) =~= t.content_times);
    let mut k: usize = 0;
    while k < node.children.len()
        invariant
            k <= node.children.len(),
            t == node@,
            t.children.len() == node.children.len(),
            forall|c: int| 0 <= c < t.children.len() ==> t.children[c] == node.children@[c]@,
            t.rollup_duration() <= u64::MAX,
            time == sum(t.content_times) + t.children_duration(k as nat),
            completed == (all_set(t.completed_tasks) && forall|c: int|
                0 <= c < k ==> (#[trigger] t.children[c]).rollup_completed()),
        decreases node.children.len() - k,
    {
        proof {
            lemma_children_duration_bounds(t, k as nat);
        }
        let (below_completed, below_time) = rollup(&node.children[k]);
        time += below_time;
        completed = completed && below_completed;
        k += 1;
    }
    (completed, time)
}

/// The elapsed seconds of a heading, rolled up from everything below it;
/// nothing where they are more than the machine holds.
pub fn checked_rollup(node: &Node) -> (time: Option<u64>)
    ensures
        match time {
            Some(seconds) => seconds == node@.rollup_duration(),
            None => node@.rollup_duration() > u64::MAX,
        },
    decreases node,
{
    proof {
        lemma_view_fields(node);
    }
    let ghost t = node@;
    let mut time: u64 = 0;
    let mut j: usize = 0;
    while j < node.content_times.len()
        invariant
            j <= node.content_times.len(),
            t == node@,
            t.content_times.len() == node.content_times.len(),
            forall|k: int| 0 <= k < t.content_times.len() ==> t.content_times[k] == node.content_times@[k],
            time == sum(t.content_times.take(j as int)),
        decreases node.content_times.len() - j,
    {
        proof {
            lemma_sum_bounds(t.content_times, j as int);
            assert(t.content_times.take(j + 1).drop_last() =~= t.content_times.take(j as int));
        }
        let next = node.content_times[j];
        if next > u64::MAX - time {
            return None;
        }
        time += next;
        j += 1;
    }
    assert(t.content_times.take(j as int) =~= t.content_times);
    let mut k: usize = 0;
    while k < node.children.len()
        invariant
            k <= node.children.len(),
            t == node@,
            t.children.len() == node.children.len(),
            forall|c: int| 0 <= c < t.children.len() ==> t.children[c] == node.children@[c]@,
            time == sum(t.content_times) + t.children_duration(k as nat),
        decreases node.children.len() - k,
    {
        proof {
            lemma_children_duration_bounds(t, k as nat);
        }
        match checked_rollup(&node.children[k]) {
            Some(below) => {
                if below > u64::MAX - time {
                    return None;
                }
                time += below;
            },
            None => {
                return None;
            },
        }
        k += 1;
    }
    Some(time)
}

} // verus!
