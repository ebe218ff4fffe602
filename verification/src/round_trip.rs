//! Writing a tree as markdown and reading the markdown again gives the tree
//! back, but for its times.

use crate::markdown::{line_of, task_line};
use crate::node::{
    lemma_at_child, lemma_at_prefix, lemma_replace_same, lemma_replace_then_at, Tree,
};
use crate::parser::{
    done_marker, heading_depth, lemma_line_end_bounds, line_end, lines, lines_from,
    open_marker, parse, starts_with, ParseState,
};
use crate::text::{lemma_trim_bounds, lemma_trimmed_idempotent, trim_start, trimmed};
use vstd::prelude::*;

verus! {

/// No line break occurs in the text.
pub open spec fn no_break(s: Seq<char>) -> bool {
    forall|i: int| 0 <= i < s.len() ==> s[i] != '\n'
}

/// The text is made of whole lines: it is empty or ends with a line break.
pub open spec fn complete(s: Seq<char>) -> bool {
    s.len() == 0 || s.last() == '\n'
}

/// Where a line ends is the first line break from its start on.
pub proof fn lemma_line_end_is(text: Seq<char>, from: int, end: int)
    requires
        0 <= from <= end <= text.len(),
        forall|i: int| from <= i < end ==> text[i] != '\n',
        end < text.len() ==> text[end] == '\n',
    ensures
        line_end(text, from) == end,
    decreases end - from,
{
    if from < end {
        lemma_line_end_is(text, from + 1, end);
    }
}

/// Text that follows does not move the end of a line that ends with a line
/// break.
pub proof fn lemma_line_end_prefix(a: Seq<char>, b: Seq<char>, from: int)
    requires
        0 <= from <= a.len(),
        line_end(a, from) < a.len(),
    ensures
        line_end(a + b, from) == line_end(a, from),
{
    lemma_line_end_bounds(a, from);
    let end = line_end(a, from);
    assert forall|i: int| from <= i < end implies (a + b)[i] != '\n' by {
        assert((a + b)[i] == a[i]);
    }
    assert((a + b)[end] == a[end]);
    lemma_line_end_is(a + b, from, end);
}

/// Text in front moves the end of a line by its length.
pub proof fn lemma_line_end_shift(a: Seq<char>, b: Seq<char>, from: int)
    requires
        0 <= from <= b.len(),
    ensures
        line_end(a + b, a.len() + from) == a.len() + line_end(b, from),
{
    lemma_line_end_bounds(b, from);
    let end = line_end(b, from);
    assert forall|i: int| a.len() + from <= i < a.len() + end implies (a + b)[i] != '\n' by {
        assert((a + b)[i] == b[i - a.len()]);
    }
    if end < b.len() {
        assert((a + b)[a.len() + end] == b[end]);
    }
    lemma_line_end_is(a + b, a.len() + from, a.len() + end);
}

/// The lines from a position in the second of two texts on are those of the
/// second text alone.
pub proof fn lemma_lines_shift(a: Seq<char>, b: Seq<char>, from: int)
    requires
        0 <= from,
    ensures
        lines_from(a + b, a.len() + from) == lines_from(b, from),
    decreases b.len() - from + 1,
{
    if from < b.len() {
        lemma_line_end_bounds(b, from);
        lemma_line_end_shift(a, b, from);
        let end = line_end(b, from);
        lemma_lines_shift(a, b, end + 1);
        assert((a + b).subrange(a.len() + from, a.len() + end) =~= b.subrange(from, end));
    }
}

/// The lines of two texts, the first made of whole lines, are the lines of
/// the first followed by the lines of the second.
pub proof fn lemma_lines_concat_from(a: Seq<char>, b: Seq<char>, from: int)
    requires
        complete(a),
        0 <= from <= a.len(),
    ensures
        lines_from(a + b, from) == lines_from(a, from) + lines_from(b, 0),
    decreases a.len() - from + 1,
{
    if from == a.len() {
        lemma_lines_shift(a, b, 0);
        assert(lines_from(a, from) + lines_from(b, 0) =~= lines_from(b, 0));
    } else {
        lemma_line_end_bounds(a, from);
        let end = line_end(a, from);
        if end == a.len() {
            assert(a[a.len() - 1] != '\n');
        }
        lemma_line_end_prefix(a, b, from);
        lemma_lines_concat_from(a, b, end + 1);
        assert((a + b).subrange(from, end) =~= a.subrange(from, end));
        assert(from < (a + b).len());
        let rest = lines_from(a, end + 1);
        let tail = lines_from(b, 0);
        if end > from {
            assert(seq![a.subrange(from, end)] + (rest + tail) =~= (seq![a.subrange(from, end)]
                + rest) + tail);
        }
    }
}

/// The lines of two texts, the first made of whole lines, are the lines of
/// the first followed by the lines of the second.
pub proof fn lemma_lines_concat(a: Seq<char>, b: Seq<char>)
    requires
        complete(a),
    ensures
        lines(a + b) == lines(a) + lines(b),
{
    lemma_lines_concat_from(a, b, 0);
}

/// A line with its line break is read as that one line.
pub proof fn lemma_lines_of_line(line: Seq<char>)
    requires
        no_break(line),
        line.len() > 0,
    ensures
        lines(line_of(line)) == seq![line],
        complete(line_of(line)),
{
    let text = line_of(line);
    assert forall|i: int| 0 <= i < line.len() implies text[i] != '\n' by {
        assert(text[i] == line[i]);
    }
    lemma_line_end_is(text, 0, line.len() as int);
    assert(text.subrange(0, line.len() as int) =~= line);
    assert(lines_from(text, line.len() as int + 1) =~= Seq::<Seq<char>>::empty());
    assert(seq![line] + Seq::<Seq<char>>::empty() =~= seq![line]);
}

/// Running the parser over lines one after the other is running it over the
/// first lines and then over the rest.
pub proof fn lemma_run_concat(st: ParseState, a: Seq<Seq<char>>, b: Seq<Seq<char>>)
    ensures
        st.run(a + b) == st.run(a).run(b),
    decreases a.len(),
{
    if a.len() == 0 {
        assert(a + b =~= b);
    } else {
        assert((a + b).drop_first() =~= a.drop_first() + b);
        assert((a + b)[0] == a[0]);
        lemma_run_concat(st.step(a[0]), a.drop_first(), b);
    }
}

/// Of two replacements at one path the second one stands.
pub proof fn lemma_replace_twice(t: Tree, path: Seq<usize>, first: Tree, second: Tree)
    ensures
        t.replace_at(path, first).replace_at(path, second) == t.replace_at(path, second),
    decreases path.len(),
{
    if path.len() > 0 && path[0] < t.children.len() {
        let k = path[0] as int;
        lemma_replace_twice(t.children[k], path.drop_first(), first, second);
        assert(t.replace_at(path, first).replace_at(path, second).children =~= t.replace_at(
            path,
            second,
        ).children);
    }
}

/// Replacing a node and then one of its children is replacing the node by
/// itself with that child replaced.
pub proof fn lemma_replace_below(t: Tree, path: Seq<usize>, node: Tree, k: usize, child: Tree)
    requires
        t.at(path) is Some,
        k < node.children.len(),
    ensures
        t.replace_at(path, node).replace_at(path.push(k), child) == t.replace_at(
            path,
            Tree { children: node.children.update(k as int, child), ..node },
        ),
    decreases path.len(),
{
    let grown = Tree { children: node.children.update(k as int, child), ..node };
    if path.len() == 0 {
        assert(path.push(k).drop_first() =~= Seq::<usize>::empty());
        assert(node.children[k as int].replace_at(Seq::<usize>::empty(), child) == child);
        assert(node.replace_at(path.push(k), child).children =~= grown.children);
    } else {
        let j = path[0] as int;
        assert(path.push(k).drop_first() =~= path.drop_first().push(k));
        lemma_replace_below(t.children[j], path.drop_first(), node, k, child);
        assert(t.replace_at(path, node).replace_at(path.push(k), child).children =~= t.replace_at(
            path,
            grown,
        ).children);
    }
}

/// A list of `n` zeros.
pub open spec fn zeros(n: nat) -> Seq<nat> {
    Seq::new(n, |i: int| 0nat)
}

/// The text of a task that is written and read back unchanged: one line,
/// with no white space at its ends.
pub open spec fn plain(text: Seq<char>) -> bool {
    no_break(text) && trimmed(text) == text
}

impl Tree {
    /// The tree without its times: what markdown tells of it.
    pub open spec fn outline(self) -> Tree
        decreases self,
    {
        Tree {
            heading: self.heading,
            content: self.content,
            children: Seq::new(
                self.children.len(),
                |i: int|
                    if 0 <= i < self.children.len() {
                        self.children[i].outline()
                    } else {
                        self
                    },
            ),
            total_time: 0,
            content_times: zeros(self.content.len()),
            completed_tasks: self.completed_tasks,
        }
    }

    /// What is asked of the tasks and subheadings of a node `level` headings
    /// deep for the markdown to give it back: as many completion flags and
    /// times as tasks; every task text plain; and the subheadings readable
    /// one level deeper, the first as a first one.
    pub open spec fn readable_body(self, level: nat) -> bool
        decreases self, 0nat,
    {
        &&& self.aligned()
        &&& forall|i: int| 0 <= i < self.content.len() ==> plain(#[trigger] self.content[i])
        &&& forall|i: int|
            0 <= i < self.children.len() ==> (#[trigger] self.children[i]).readable_at(
                level + 1,
                i == 0,
            )
    }

    /// What is asked of a heading `level` headings deep: its heading line is
    /// one line and starts with `level` `#` characters, or with at least as
    /// many where it is the first subheading of its parent; and its body is
    /// readable.
    pub open spec fn readable_at(self, level: nat, first: bool) -> bool
        decreases self, 1nat,
    {
        &&& self.heading is Some
        &&& no_break(self.heading.unwrap())
        &&& if first {
            heading_depth(self.heading.unwrap()) >= level
        } else {
            heading_depth(self.heading.unwrap()) == level
        }
        &&& self.readable_body(level)
    }

    /// What is asked of a document for the markdown to give it back: an
    /// anonymous root with a readable body.
    pub open spec fn readable(self) -> bool {
        self.heading is None && self.readable_body(0)
    }

    /// This node with the first `n` tasks of `source` added, with no time
    /// spent on them.
    pub open spec fn with_tasks(self, source: Tree, n: nat) -> Tree {
        Tree {
            content: self.content + source.content.take(n as int),
            content_times: self.content_times + zeros(n),
            completed_tasks: self.completed_tasks + source.completed_tasks.take(n as int),
            ..self
        }
    }

    /// This node with the outlines of the first `n` subheadings of `source`
    /// for its subheadings.
    pub open spec fn with_outlines(self, source: Tree, n: nat) -> Tree {
        Tree { children: Seq::new(n, |i: int| source.children[i].outline()), ..self }
    }
}

/// Running the parser over one line is one step.
pub proof fn lemma_run_one(st: ParseState, line: Seq<char>)
    ensures
        st.run(seq![line]) == st.step(line),
{
    assert(seq![line].drop_first() =~= Seq::<Seq<char>>::empty());
    assert(st.step(line).run(Seq::<Seq<char>>::empty()) == st.step(line));
    assert(seq![line][0] == line);
}

/// The marker of a task.
pub open spec fn marker(completed: bool) -> Seq<char> {
    if completed {
        done_marker()
    } else {
        open_marker()
    }
}

/// The checkbox line of a plain task is read as that task.
pub proof fn lemma_step_task(st: ParseState, text: Seq<char>, completed: bool)
    requires
        plain(text),
    ensures
        st.step(marker(completed) + text) == st.add_task(text, completed),
        no_break(marker(completed) + text),
        (marker(completed) + text).len() > 0,
{
    let line = marker(completed) + text;
    assert(line[0] == '-');
    assert(heading_depth(line) == 0);
    assert(line.take(6) =~= marker(completed));
    assert(line.skip(6) =~= text);
    if completed {
        assert(line.take(6)[3] == 'x');
        assert(open_marker()[3] == ' ');
        assert(!starts_with(line, open_marker()));
    }
    assert forall|i: int| 0 <= i < line.len() implies line[i] != '\n' by {
        if i >= 6 {
            assert(line[i] == text[i - 6]);
        }
    }
}

/// Reading the checkbox lines of the first `n` tasks of a node adds those
/// tasks to the node that the parser is at.
pub proof fn lemma_run_tasks(st: ParseState, c: Tree, n: nat)
    requires
        st.valid(),
        n <= c.content.len(),
        c.aligned(),
        forall|i: int| 0 <= i < c.content.len() ==> plain(#[trigger] c.content[i]),
    ensures
        st.run(lines(c.tasks_markdown(n))) == (ParseState {
            tree: st.tree.replace_at(st.stack, st.tree.at(st.stack).unwrap().with_tasks(c, n)),
            stack: st.stack,
        }),
        complete(c.tasks_markdown(n)),
    decreases n,
{
    let here = st.tree.at(st.stack).unwrap();
    if n == 0 {
        assert(here.with_tasks(c, 0).content =~= here.content);
        assert(here.with_tasks(c, 0).content_times =~= here.content_times);
        assert(here.with_tasks(c, 0).completed_tasks =~= here.completed_tasks);
        lemma_replace_same(st.tree, st.stack);
        assert(lines(c.tasks_markdown(0)) =~= Seq::<Seq<char>>::empty());
    } else {
        let m = (n - 1) as nat;
        lemma_run_tasks(st, c, m);
        let before = c.tasks_markdown(m);
        let text = c.content[n - 1];
        let done = c.completed_tasks[n - 1];
        let line = marker(done) + text;
        assert(plain(text));
        assert(task_line(text, done) == line_of(line));
        let mid = st.run(lines(before));
        lemma_step_task(mid, text, done);
        lemma_lines_of_line(line);
        lemma_lines_concat(before, line_of(line));
        lemma_run_concat(st, lines(before), seq![line]);
        lemma_run_one(mid, line);
        let so_far = here.with_tasks(c, m);
        lemma_replace_then_at(st.tree, st.stack, so_far);
        lemma_replace_twice(st.tree, st.stack, so_far, so_far.with_task(text, done));
        let more = so_far.with_task(text, done);
        let all = here.with_tasks(c, n);
        assert(c.content.take(n as int) =~= c.content.take(m as int).push(text));
        assert(c.completed_tasks.take(n as int) =~= c.completed_tasks.take(m as int).push(done));
        assert(more.content =~= all.content);
        assert(more.content_times =~= all.content_times);
        assert(more.completed_tasks =~= all.completed_tasks);
        assert(more == all);
        assert((before + line_of(line)).last() == '\n');
    }
}

/// Reading the markdown of the first `m` subheadings of a node, with the
/// parser at a node that has no subheadings yet, gives that node the
/// outlines of those subheadings, and leaves the parser at or below it.
pub proof fn lemma_run_children(st: ParseState, c: Tree, level: nat, m: nat)
    requires
        st.valid(),
        st.stack.len() == level,
        st.tree.at(st.stack).unwrap().children.len() == 0,
        c.readable_body(level),
        c.bounded(),
        m <= c.children.len(),
    ensures
        st.run(lines(c.children_markdown(m))).tree == st.tree.replace_at(
            st.stack,
            st.tree.at(st.stack).unwrap().with_outlines(c, m),
        ),
        st.run(lines(c.children_markdown(m))).stack.len() >= level,
        st.run(lines(c.children_markdown(m))).stack.take(level as int) == st.stack,
        m > 0 ==> st.run(lines(c.children_markdown(m))).stack.len() > level,
        m == 0 ==> st.run(lines(c.children_markdown(m))).stack == st.stack,
        st.run(lines(c.children_markdown(m))).valid(),
        complete(c.children_markdown(m)),
    decreases c, 0nat, m,
{
    let here = st.tree.at(st.stack).unwrap();
    if m == 0 {
        assert(here.with_outlines(c, 0).children =~= here.children);
        lemma_replace_same(st.tree, st.stack);
        assert(lines(c.children_markdown(0)) =~= Seq::<Seq<char>>::empty());
        assert(st.stack.take(level as int) =~= st.stack);
    } else {
        let n = (m - 1) as nat;
        lemma_run_children(st, c, level, n);
        let before = c.children_markdown(n);
        let mid = st.run(lines(before));
        let child = c.children[n as int];
        let so_far = here.with_outlines(c, n);
        assert(child.readable_at(level + 1, n == 0));
        assert(child.bounded());
        lemma_replace_then_at(st.tree, st.stack, so_far);
        assert(mid.stack.take((level + 1) - 1) == st.stack);
        lemma_run_subtree(mid, child, level + 1, n == 0);
        lemma_lines_concat(before, child.markdown());
        lemma_run_concat(st, lines(before), lines(child.markdown()));
        let end = mid.run(lines(child.markdown()));
        lemma_replace_twice(st.tree, st.stack, so_far, so_far.with_child(child.outline()));
        assert(so_far.with_child(child.outline()).children =~= here.with_outlines(c, m).children);
        assert(end.stack.take(level as int) =~= end.stack.take(level as int + 1).take(level as int));
        assert(st.stack.push(so_far.children.len() as usize).take(level as int) =~= st.stack);
        assert((before + child.markdown()).last() == child.markdown().last());
    }
}

/// Reading the markdown of a heading, with the parser at or below the node
/// that is to be its parent, adds the outline of the heading to that node
/// as its last subheading, and leaves the parser at or below the heading.
pub proof fn lemma_run_subtree(st: ParseState, c: Tree, level: nat, first: bool)
    requires
        level >= 1,
        c.readable_at(level, first),
        c.bounded(),
        st.valid(),
        st.stack.len() >= level - 1,
        first ==> st.stack.len() == level - 1,
        !first ==> st.stack.len() >= level,
        st.tree.at(st.stack.take(level - 1)) is Some ==> st.tree.at(
            st.stack.take(level - 1),
        ).unwrap().children.len() < usize::MAX,
    ensures
        st.tree.at(st.stack.take(level - 1)) is Some,
        st.run(lines(c.markdown())).tree == st.tree.replace_at(
            st.stack.take(level - 1),
            st.tree.at(st.stack.take(level - 1)).unwrap().with_child(c.outline()),
        ),
        st.run(lines(c.markdown())).stack.len() >= level,
        st.run(lines(c.markdown())).stack.take(level as int) == st.stack.take(level - 1).push(
            st.tree.at(st.stack.take(level - 1)).unwrap().children.len() as usize,
        ),
        st.run(lines(c.markdown())).valid(),
        complete(c.markdown()),
        c.markdown().len() > 0,
    decreases c, 1nat, 0nat,
{
    let h = c.heading.unwrap();
    let d = heading_depth(h);
    let q = st.stack.take(level - 1);
    lemma_at_prefix(st.tree, st.stack, level - 1);
    let parent = st.tree.at(q).unwrap();
    let k = parent.children.len() as usize;
    assert(h.len() > 0);
    // The heading line.
    let st1 = st.step(h);
    let leaf = Tree::leaf(Some(h));
    let tree1 = st.tree.replace_at(q, parent.with_child(leaf));
    let p = q.push(k);
    assert(st1 == (ParseState { tree: tree1, stack: p }));
    lemma_replace_then_at(st.tree, q, parent.with_child(leaf));
    lemma_at_child(tree1, q, k);
    assert(tree1.at(p) == Some(leaf));
    lemma_lines_of_line(h);
    lemma_run_one(st, h);
    // The tasks.
    let n = c.content.len();
    let tm = c.tasks_markdown(n);
    lemma_run_tasks(st1, c, n);
    let st2 = st1.run(lines(tm));
    let with_tasks = leaf.with_tasks(c, n);
    lemma_replace_then_at(tree1, p, with_tasks);
    // The subheadings.
    let m = c.children.len();
    let cm = c.children_markdown(m);
    lemma_run_children(st2, c, level, m);
    let st3 = st2.run(lines(cm));
    let whole = with_tasks.with_outlines(c, m);
    assert(whole.content =~= c.content);
    assert(whole.content_times =~= zeros(c.content.len()));
    assert(whole.completed_tasks =~= c.completed_tasks);
    assert(whole.children =~= c.outline().children);
    assert(whole == c.outline());
    lemma_replace_twice(tree1, p, with_tasks, whole);
    lemma_replace_below(st.tree, q, parent.with_child(leaf), k, whole);
    assert(parent.with_child(leaf).children.update(k as int, whole) =~= parent.with_child(
        whole,
    ).children);
    // The text and its lines.
    let hl = line_of(h);
    assert(c.heading_markdown() == hl);
    lemma_lines_concat(hl, tm);
    assert(complete(hl + tm)) by {
        if tm.len() > 0 {
            assert((hl + tm).last() == tm.last());
        } else {
            assert(hl + tm =~= hl);
        }
    }
    lemma_lines_concat(hl + tm, cm);
    lemma_run_concat(st, seq![h], lines(tm));
    lemma_run_concat(st, seq![h] + lines(tm), lines(cm));
    assert(complete(c.markdown())) by {
        if cm.len() > 0 {
            assert((hl + tm + cm).last() == cm.last());
        } else {
            assert(hl + tm + cm =~= hl + tm);
        }
    }
    assert(st3.stack.take(level as int) == p);
}

/// Reading the markdown of a readable document gives its outline: the same
/// headings, task texts and completion flags, with no time spent.
pub proof fn lemma_round_trip(t: Tree)
    requires
        t.readable(),
        t.bounded(),
    ensures
        parse(t.markdown()) == t.outline(),
{
    let st = ParseState::start();
    let root = Tree::leaf(None);
    let none = Seq::<usize>::empty();
    assert(st.tree.at(st.stack) == Some(root));
    let n = t.content.len();
    let tm = t.tasks_markdown(n);
    lemma_run_tasks(st, t, n);
    let st1 = st.run(lines(tm));
    let with_tasks = root.with_tasks(t, n);
    assert(root.replace_at(none, with_tasks) == with_tasks);
    assert(st1.tree.at(st1.stack) == Some(with_tasks));
    let m = t.children.len();
    let cm = t.children_markdown(m);
    lemma_run_children(st1, t, 0, m);
    let whole = with_tasks.with_outlines(t, m);
    assert(whole.content =~= t.content);
    assert(whole.content_times =~= zeros(t.content.len()));
    assert(whole.completed_tasks =~= t.completed_tasks);
    assert(whole.children =~= t.outline().children);
    assert(whole == t.outline());
    assert(with_tasks.replace_at(none, whole) == whole);
    assert(t.heading_markdown() + tm =~= tm);
    lemma_lines_concat(tm, cm);
    lemma_run_concat(st, lines(tm), lines(cm));
}

/// Every line of a text is not empty and holds no line break.
pub proof fn lemma_lines_plain(text: Seq<char>, from: int)
    requires
        0 <= from,
    ensures
        forall|i: int|
            0 <= i < lines_from(text, from).len() ==> no_break(#[trigger] lines_from(text, from)[i])
                && lines_from(text, from)[i].len() > 0,
    decreases text.len() - from + 1,
{
    if from < text.len() {
        lemma_line_end_bounds(text, from);
        let end = line_end(text, from);
        lemma_lines_plain(text, end + 1);
        let rest = lines_from(text, end + 1);
        if end > from {
            let line = text.subrange(from, end);
            assert forall|i: int| 0 <= i < lines_from(text, from).len() implies no_break(
                #[trigger] lines_from(text, from)[i],
            ) && lines_from(text, from)[i].len() > 0 by {
                if i == 0 {
                    assert(lines_from(text, from)[0] == line);
                    assert forall|j: int| 0 <= j < line.len() implies line[j] != '\n' by {
                        assert(line[j] == text[from + j]);
                    }
                } else {
                    assert(lines_from(text, from)[i] == rest[i - 1]);
                }
            }
        }
    }
}

/// What is left of a line without line break after trimming is plain.
pub proof fn lemma_trimmed_plain(line: Seq<char>, from: int)
    requires
        no_break(line),
        0 <= from <= line.len(),
    ensures
        plain(trimmed(line.skip(from))),
{
    let rest = line.skip(from);
    lemma_trimmed_idempotent(rest);
    let a = trim_start(rest, 0);
    lemma_trim_bounds(rest, 0, rest.len() as int);
    lemma_trim_bounds(rest, a, rest.len() as int);
    let t = trimmed(rest);
    assert forall|i: int| 0 <= i < t.len() implies t[i] != '\n' by {
        assert(t[i] == line[from + a + i]);
    }
}

/// Below a node with a readable body every node has one, at its depth.
pub proof fn lemma_at_readable(t: Tree, level: nat, path: Seq<usize>)
    requires
        t.readable_body(level),
        t.at(path) is Some,
    ensures
        t.at(path).unwrap().readable_body(level + path.len()),
    decreases path.len(),
{
    if path.len() > 0 {
        let k = path[0] as int;
        assert(t.children[k].readable_at(level + 1, k == 0));
        lemma_at_readable(t.children[k], level + 1, path.drop_first());
    }
}

/// Replacing a node by one with the same heading and a readable body leaves
/// the body above it readable.
pub proof fn lemma_replace_readable(t: Tree, level: nat, path: Seq<usize>, node: Tree)
    requires
        t.readable_body(level),
        t.at(path) is Some,
        node.readable_body(level + path.len()),
        node.heading == t.at(path).unwrap().heading,
    ensures
        t.replace_at(path, node).readable_body(level),
        t.replace_at(path, node).heading == t.heading,
    decreases path.len(),
{
    if path.len() > 0 {
        let k = path[0] as int;
        let below = path.drop_first();
        assert(t.children[k].readable_at(level + 1, k == 0));
        lemma_replace_readable(t.children[k], level + 1, below, node);
        let r = t.replace_at(path, node);
        assert forall|i: int| 0 <= i < r.children.len() implies (
        #[trigger] r.children[i]).readable_at(level + 1, i == 0) by {
            if i != k {
                assert(r.children[i] == t.children[i]);
                assert(t.children[i].readable_at(level + 1, i == 0));
            }
        }
    }
}

impl Tree {
    /// No node of the tree has more than `bound` subheadings.
    pub open spec fn narrow(self, bound: nat) -> bool
        decreases self,
    {
        &&& self.children.len() <= bound
        &&& forall|i: int|
            0 <= i < self.children.len() ==> (#[trigger] self.children[i]).narrow(bound)
    }
}

/// A tree that is narrow within a bound is so within any greater bound.
pub proof fn lemma_narrow_more(t: Tree, bound: nat, more: nat)
    requires
        t.narrow(bound),
        bound <= more,
    ensures
        t.narrow(more),
    decreases t,
{
    assert forall|i: int| 0 <= i < t.children.len() implies (#[trigger] t.children[i]).narrow(
        more,
    ) by {
        lemma_narrow_more(t.children[i], bound, more);
    }
}

/// Every node of a narrow tree is narrow.
pub proof fn lemma_at_narrow(t: Tree, bound: nat, path: Seq<usize>)
    requires
        t.narrow(bound),
        t.at(path) is Some,
    ensures
        t.at(path).unwrap().narrow(bound),
    decreases path.len(),
{
    if path.len() > 0 {
        lemma_at_narrow(t.children[path[0] as int], bound, path.drop_first());
    }
}

/// Replacing a node of a narrow tree by a narrow node leaves it narrow.
pub proof fn lemma_replace_narrow(t: Tree, bound: nat, path: Seq<usize>, node: Tree)
    requires
        t.narrow(bound),
        node.narrow(bound),
    ensures
        t.replace_at(path, node).narrow(bound),
    decreases path.len(),
{
    if path.len() > 0 && path[0] < t.children.len() {
        let k = path[0] as int;
        lemma_replace_narrow(t.children[k], bound, path.drop_first(), node);
        let r = t.replace_at(path, node);
        assert forall|i: int| 0 <= i < r.children.len() implies (#[trigger] r.children[i]).narrow(
            bound,
        ) by {
            if i != k {
                assert(r.children[i] == t.children[i]);
            }
        }
    }
}

/// A narrow tree on which no time has been spent has the value of a node.
pub proof fn lemma_narrow_bounded(t: Tree, bound: nat)
    requires
        t.narrow(bound),
        t.untimed(),
        bound <= usize::MAX,
    ensures
        t.bounded(),
    decreases t,
{
    assert forall|i: int| 0 <= i < t.children.len() implies (#[trigger] t.children[i]).bounded() by {
        lemma_narrow_bounded(t.children[i], bound);
    }
}

impl ParseState {
    /// What holds of the parser between lines: the tree so far is readable
    /// and narrow within `bound`, and the parser is at a node without
    /// subheadings.
    pub open spec fn tidy(self, bound: nat) -> bool {
        &&& self.valid()
        &&& self.tree.readable()
        &&& self.tree.narrow(bound)
        &&& self.tree.at(self.stack).unwrap().children.len() == 0
    }

    /// A tidy parser stays tidy over one more line, within a bound that is
    /// greater by one.
    pub proof fn lemma_step_tidy(self, line: Seq<char>, bound: nat)
        requires
            self.tidy(bound),
            bound < usize::MAX,
            no_break(line),
        ensures
            self.step(line).tidy(bound + 1),
    {
        let depth = heading_depth(line);
        lemma_narrow_more(self.tree, bound, bound + 1);
        if depth > 0 {
            let keep = if self.stack.len() < depth {
                self.stack.len() as int
            } else {
                depth - 1
            };
            let stack = self.stack.take(keep);
            lemma_at_prefix(self.tree, self.stack, keep);
            let parent = self.tree.at(stack).unwrap();
            let k = parent.children.len();
            let leaf = Tree::leaf(Some(line));
            let grown = parent.with_child(leaf);
            lemma_at_readable(self.tree, 0, stack);
            lemma_at_narrow(self.tree, bound, stack);
            if keep == self.stack.len() {
                assert(stack =~= self.stack);
            }
            assert(leaf.readable_at((keep + 1) as nat, k == 0));
            assert(grown.readable_body(keep as nat)) by {
                assert forall|i: int| 0 <= i < grown.children.len() implies (
                #[trigger] grown.children[i]).readable_at((keep + 1) as nat, i == 0) by {
                    if i < k {
                        assert(grown.children[i] == parent.children[i]);
                        assert(parent.children[i].readable_at((keep + 1) as nat, i == 0));
                    }
                }
            }
            assert(grown.narrow(bound + 1)) by {
                assert forall|i: int| 0 <= i < grown.children.len() implies (
                #[trigger] grown.children[i]).narrow(bound + 1) by {
                    if i < k {
                        assert(grown.children[i] == parent.children[i]);
                        lemma_narrow_more(parent.children[i], bound, bound + 1);
                    }
                }
            }
            lemma_replace_readable(self.tree, 0, stack, grown);
            lemma_replace_narrow(self.tree, bound + 1, stack, grown);
            lemma_replace_then_at(self.tree, stack, grown);
            lemma_at_child(self.tree.replace_at(stack, grown), stack, k as usize);
            assert(grown.children[k as int] == leaf);
        } else if starts_with(line, open_marker()) || starts_with(line, done_marker()) {
            let node = self.tree.at(self.stack).unwrap();
            let text = trimmed(line.skip(6));
            let done = !starts_with(line, open_marker());
            lemma_trimmed_plain(line, 6);
            lemma_at_readable(self.tree, 0, self.stack);
            lemma_at_narrow(self.tree, bound, self.stack);
            let grown = node.with_task(text, done);
            assert(grown.readable_body(self.stack.len())) by {
                assert forall|i: int| 0 <= i < grown.content.len() implies plain(
                    #[trigger] grown.content[i],
                ) by {
                    if i < node.content.len() {
                        assert(grown.content[i] == node.content[i]);
                    }
                }
                assert forall|i: int| 0 <= i < grown.children.len() implies (
                #[trigger] grown.children[i]).readable_at(self.stack.len() + 1, i == 0) by {
                    assert(grown.children[i] == node.children[i]);
                }
            }
            assert(grown.narrow(bound + 1)) by {
                lemma_narrow_more(node, bound, bound + 1);
            }
            lemma_replace_readable(self.tree, 0, self.stack, grown);
            lemma_replace_narrow(self.tree, bound + 1, self.stack, grown);
            lemma_replace_then_at(self.tree, self.stack, grown);
        }
    }

    /// A tidy parser stays tidy over any lines without line break, within a
    /// bound that is greater by their number.
    pub proof fn lemma_run_tidy(self, lines: Seq<Seq<char>>, bound: nat)
        requires
            self.tidy(bound),
            bound + lines.len() <= usize::MAX,
            forall|i: int| 0 <= i < lines.len() ==> no_break(#[trigger] lines[i]),
        ensures
            self.run(lines).tidy(bound + lines.len()),
        decreases lines.len(),
    {
        if lines.len() > 0 {
            self.lemma_step_tidy(lines[0], bound);
            assert forall|i: int| 0 <= i < lines.drop_first().len() implies no_break(
                #[trigger] lines.drop_first()[i],
            ) by {
                assert(lines.drop_first()[i] == lines[i + 1]);
            }
            self.step(lines[0]).lemma_run_tidy(lines.drop_first(), bound + 1);
        }
    }
}

/// A text has at most as many lines as characters.
pub proof fn lemma_lines_count(text: Seq<char>, from: int)
    requires
        0 <= from <= text.len(),
    ensures
        lines_from(text, from).len() <= text.len() - from,
    decreases text.len() - from + 1,
{
    if from < text.len() {
        lemma_line_end_bounds(text, from);
        let end = line_end(text, from);
        if end < text.len() {
            lemma_lines_count(text, end + 1);
        }
    }
}

/// Every tree that parsing gives is readable, and has the value of a node.
pub proof fn lemma_parse_readable(text: Seq<char>)
    requires
        text.len() <= usize::MAX,
    ensures
        parse(text).readable(),
        parse(text).bounded(),
{
    lemma_lines_plain(text, 0);
    lemma_lines_count(text, 0);
    ParseState::start().lemma_run_tidy(lines(text), 0);
    crate::parser::lemma_parse_wf(text);
    lemma_narrow_bounded(parse(text), lines(text).len());
}

/// A well-formed tree on which no time has been spent is its own outline.
pub proof fn lemma_untimed_outline(t: Tree)
    requires
        t.wf(),
        t.untimed(),
    ensures
        t.outline() == t,
    decreases t,
{
    assert forall|i: int| 0 <= i < t.children.len() implies (#[trigger] t.children[i]).outline()
        == t.children[i] by {
        lemma_untimed_outline(t.children[i]);
    }
    assert(t.outline().children =~= t.children);
    assert(t.outline().content_times =~= t.content_times);
}

/// Markdown tells nothing of times: a tree and its outline are written
/// alike.
pub proof fn lemma_outline_markdown(t: Tree)
    ensures
        t.outline().markdown() == t.markdown(),
    decreases t, 1nat, 0nat,
{
    lemma_outline_tasks(t, t.content.len());
    lemma_outline_children(t, t.children.len());
}

/// [`lemma_outline_markdown`] for the first `n` tasks.
pub proof fn lemma_outline_tasks(t: Tree, n: nat)
    ensures
        t.outline().tasks_markdown(n) == t.tasks_markdown(n),
    decreases n,
{
    if n > 0 && n <= t.content.len() {
        lemma_outline_tasks(t, (n - 1) as nat);
    }
}

/// [`lemma_outline_markdown`] for the first `n` subheadings.
pub proof fn lemma_outline_children(t: Tree, n: nat)
    ensures
        t.outline().children_markdown(n) == t.children_markdown(n),
    decreases t, 0nat, n,
{
    if n > 0 && n <= t.children.len() {
        lemma_outline_children(t, (n - 1) as nat);
        lemma_outline_markdown(t.children[n - 1]);
    }
}

/// Writing what was read from a text and reading it again gives the same
/// tree.
pub proof fn lemma_text_round_trip(text: Seq<char>)
    requires
        text.len() <= usize::MAX,
    ensures
        parse(parse(text).markdown()) == parse(text),
{
    lemma_parse_readable(text);
    crate::parser::lemma_parse_wf(text);
    lemma_round_trip(parse(text));
    lemma_untimed_outline(parse(text));
}

/// Reading the markdown of a readable document and writing it again gives
/// the same markdown.
pub proof fn lemma_markdown_round_trip(t: Tree)
    requires
        t.readable(),
        t.bounded(),
    ensures
        parse(t.markdown()).markdown() == t.markdown(),
{
    lemma_round_trip(t);
    lemma_outline_markdown(t);
}

} // verus!
