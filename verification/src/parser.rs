//! Reads the markdown dialect into a tree: heading lines and checkbox lines.

use crate::node::{
    lemma_at_child, lemma_at_prefix, lemma_at_untimed, lemma_at_wf, lemma_nodes_view_update,
    lemma_replace_then_at, lemma_replace_untimed, lemma_replace_wf,
    lemma_tree_children, lemma_update_same, lemma_view_fields, Node, Tree,
};
use crate::rollup::lemma_untimed_rollup;
use crate::text::{string_of, sub_chars, to_chars, trimmed, trimmed_string};
use vstd::prelude::*;

verus! {

/// The position of the first line break at or after `from`; the length of the
/// text where there is none.
pub open spec fn line_end(text: Seq<char>, from: int) -> int
    decreases text.len() - from,
{
    if from >= text.len() {
        text.len() as int
    } else if text[from] == '\n' {
        from
    } else {
        line_end(text, from + 1)
    }
}

/// A line ends at or after the position it is looked for from.
pub proof fn lemma_line_end_bounds(text: Seq<char>, from: int)
    requires
        0 <= from <= text.len(),
    ensures
        from <= line_end(text, from) <= text.len(),
        forall|i: int| from <= i < line_end(text, from) ==> text[i] != '\n',
        line_end(text, from) < text.len() ==> text[line_end(text, from)] == '\n',
    decreases text.len() - from,
{
    if from < text.len() && text[from] != '\n' {
        lemma_line_end_bounds(text, from + 1);
    }
}

/// The non-empty lines of the text from position `from` on, in order.
pub open spec fn lines_from(text: Seq<char>, from: int) -> Seq<Seq<char>>
    decreases text.len() - from + 1,
    when 0 <= from
{
    if from >= text.len() {
        Seq::empty()
    } else {
        proof {
            lemma_line_end_bounds(text, from);
        }
        let end = line_end(text, from);
        let rest = lines_from(text, end + 1);
        if end > from {
            seq![text.subrange(from, end)] + rest
        } else {
            rest
        }
    }
}

/// The non-empty lines of the text, in order.
pub open spec fn lines(text: Seq<char>) -> Seq<Seq<char>> {
    lines_from(text, 0)
}

/// The number of `#` characters that the line starts with, counted from
/// position `from`.
pub open spec fn hashes_from(line: Seq<char>, from: int) -> nat
    decreases line.len() - from,
{
    if 0 <= from < line.len() && line[from] == '#' {
        1 + hashes_from(line, from + 1)
    } else {
        0
    }
}

/// The depth of a heading line: the number of `#` characters it starts with.
/// A line of depth 0 is no heading.
pub open spec fn heading_depth(line: Seq<char>) -> nat {
    hashes_from(line, 0)
}

/// The marker that an open task starts with.
pub open spec fn open_marker() -> Seq<char> {
    seq!['-', ' ', '[', ' ', ']', ' ']
}

/// The marker that a completed task starts with.
pub open spec fn done_marker() -> Seq<char> {
    seq!['-', ' ', '[', 'x', ']', ' ']
}

/// Whether `line` starts with `prefix`.
pub open spec fn starts_with(line: Seq<char>, prefix: Seq<char>) -> bool {
    prefix.len() <= line.len() && line.take(prefix.len() as int) == prefix
}

impl Tree {
    /// This node with one more subheading at the end.
    pub open spec fn with_child(self, child: Tree) -> Tree {
        Tree { children: self.children.push(child), ..self }
    }

    /// This node with one more task at the end, with no time spent on it.
    pub open spec fn with_task(self, text: Seq<char>, completed: bool) -> Tree {
        Tree {
            content: self.content.push(text),
            content_times: self.content_times.push(0),
            completed_tasks: self.completed_tasks.push(completed),
            ..self
        }
    }
}

/// What the parser holds between two lines: the tree so far, and the path to
/// the heading that the next task line belongs to.
pub struct ParseState {
    pub tree: Tree,
    pub stack: Seq<usize>,
}

impl ParseState {
    /// The state before the first line.
    pub open spec fn start() -> ParseState {
        ParseState { tree: Tree::leaf(None), stack: Seq::empty() }
    }

    /// The stack leads to a node of the tree.
    pub open spec fn valid(self) -> bool {
        self.tree.at(self.stack) is Some
    }

    /// The state after a heading line of depth `depth`: the stack is cut to
    /// less than `depth` entries, the heading becomes the last child of the
    /// node the stack then leads to, and the stack leads to the heading.
    pub open spec fn open_heading(self, line: Seq<char>, depth: nat) -> ParseState {
        let keep = if self.stack.len() < depth {
            self.stack.len() as int
        } else {
            depth - 1
        };
        let stack = self.stack.take(keep);
        match self.tree.at(stack) {
            Some(parent) => ParseState {
                tree: self.tree.replace_at(stack, parent.with_child(Tree::leaf(Some(line)))),
                stack: stack.push(parent.children.len() as usize),
            },
            None => self,
        }
    }

    /// The state after a task line: the task is added to the node the stack
    /// leads to.
    pub open spec fn add_task(self, text: Seq<char>, completed: bool) -> ParseState {
        match self.tree.at(self.stack) {
            Some(node) => ParseState {
                tree: self.tree.replace_at(self.stack, node.with_task(text, completed)),
                stack: self.stack,
            },
            None => self,
        }
    }

    /// The state after one non-empty line. A line that is neither a heading
    /// nor a task changes nothing.
    pub open spec fn step(self, line: Seq<char>) -> ParseState {
        let depth = heading_depth(line);
        if depth > 0 {
            self.open_heading(line, depth)
        } else if starts_with(line, open_marker()) {
            self.add_task(trimmed(line.skip(6)), false)
        } else if starts_with(line, done_marker()) {
            self.add_task(trimmed(line.skip(6)), true)
        } else {
            self
        }
    }

    /// The state after the given lines, one after the other.
    pub open spec fn run(self, lines: Seq<Seq<char>>) -> ParseState
        decreases lines.len(),
    {
        if lines.len() == 0 {
            self
        } else {
            self.step(lines[0]).run(lines.drop_first())
        }
    }
}

/// The tree that a text stands for.
pub open spec fn parse(text: Seq<char>) -> Tree {
    ParseState::start().run(lines(text)).tree
}

/// The position of the first line break at or after `from`.
fn find_line_end(text: &Vec<char>, from: usize) -> (end: usize)
    requires
        from <= text.len(),
    ensures
        end == line_end(text@, from as int),
        from <= end <= text.len(),
{
    let mut end: usize = from;
    while end < text.len() && text[end] != '\n'
        invariant
            from <= end <= text.len(),
            line_end(text@, end as int) == line_end(text@, from as int),
        decreases text.len() - end,
    {
        end += 1;
    }
    end
}

/// The number of `#` characters that the line starts with.
fn count_hashes(line: &Vec<char>) -> (depth: usize)
    ensures
        depth == heading_depth(line@),
{
    let mut depth: usize = 0;
    while depth < line.len() && line[depth] == '#'
        invariant
            depth <= line.len(),
            hashes_from(line@, depth as int) + depth == heading_depth(line@),
        decreases line.len() - depth,
    {
        depth += 1;
    }
    depth
}

/// Whether the line starts with the marker of an open task (`completed` is
/// false) or of a completed one.
fn has_marker(line: &Vec<char>, completed: bool) -> (r: bool)
    ensures
        r == starts_with(
            line@,
            if completed {
                done_marker()
            } else {
                open_marker()
            },
        ),
{
    let ghost marker = if completed {
        done_marker()
    } else {
        open_marker()
    };
    if line.len() < 6 {
        return false;
    }
    let mark: char = if completed {
        'x'
    } else {
        ' '
    };
    let r = line[0] == '-' && line[1] == ' ' && line[2] == '[' && line[3] == mark && line[4] == ']'
        && line[5] == ' ';
    proof {
        let head = line@.take(6);
        if r {
            assert(head =~= marker);
        } else {
            assert(head[0] == line@[0] && head[1] == line@[1] && head[2] == line@[2] && head[3]
                == line@[3] && head[4] == line@[4] && head[5] == line@[5]);
        }
    }
    r
}

impl Node {
    /// The node that `indices` leads to, for writing.
    fn find_heading_level<'a>(root: &'a mut Node, indices: &Vec<usize>) -> (node: &'a mut Node)
        requires
            old(root)@.at(indices@) is Some,
        ensures
            old(root)@.at(indices@) == Some(node@),
            final(root)@ == old(root)@.replace_at(indices@, final(node)@),
    {
        assert(indices@.skip(0) =~= indices@);
        Node::descend(root, indices, 0)
    }

    /// [`Node::find_heading_level`] for the rest of `indices`, from position
    /// `from` on.
    fn descend<'a>(root: &'a mut Node, indices: &Vec<usize>, from: usize) -> (node: &'a mut Node)
        requires
            from <= indices.len(),
            old(root)@.at(indices@.skip(from as int)) is Some,
        ensures
            old(root)@.at(indices@.skip(from as int)) == Some(node@),
            final(root)@ == old(root)@.replace_at(indices@.skip(from as int), final(node)@),
        decreases indices.len() - from,
    {
        proof {
            lemma_view_fields(root);
        }
        if from == indices.len() {
            root
        } else {
            broadcast use lemma_tree_children, lemma_nodes_view_update, lemma_update_same;

            let idx = indices[from];
            assert(indices@.skip(from as int).drop_first() =~= indices@.skip(from as int + 1));
            Node::descend(&mut root.children[idx], indices, from + 1)
        }
    }
}

impl Node {
    /// Takes one non-empty line into the tree: a heading opens a new node, a
    /// checkbox line adds a task to the heading above it, any other line is
    /// dropped.
    fn convert_line(line: &Vec<char>, root: &mut Node, indices: &mut Vec<usize>)
        requires
            old(root)@.at(old(indices)@) is Some,
        ensures
            (ParseState { tree: final(root)@, stack: final(indices)@ }) == (ParseState {
                tree: old(root)@,
                stack: old(indices)@,
            }).step(line@),
            final(root)@.at(final(indices)@) is Some,
    {
        let ghost before = ParseState { tree: root@, stack: indices@ };
        let depth = count_hashes(line);
        assert(indices@ =~= before.stack.take(indices.len() as int));
        if depth > 0 {
            let heading = string_of(line, 0, line.len());
            assert(line@.subrange(0, line@.len() as int) =~= line@);
            while indices.len() >= depth
                invariant
                    depth > 0,
                    indices.len() <= before.stack.len(),
                    indices@ == before.stack.take(indices.len() as int),
                    before.stack.len() < depth ==> indices.len() == before.stack.len(),
                    before.stack.len() >= depth ==> indices.len() >= depth - 1,
                decreases indices.len(),
            {
                indices.pop();
                assert(indices@ =~= before.stack.take(indices.len() as int));
            }
            proof {
                lemma_at_prefix(before.tree, before.stack, indices.len() as int);
            }
            let ghost stack = indices@;
            let parent_node = Node::find_heading_level(root, indices);
            let ghost parent = parent_node@;
            proof {
                lemma_view_fields(parent_node);
            }
            parent_node.children.push(Node::new_with_heading(heading));
            proof {
                lemma_view_fields(parent_node);
                assert(parent_node@.children =~= parent.children.push(Tree::leaf(Some(line@))));
                assert(parent_node@ == parent.with_child(Tree::leaf(Some(line@))));
            }
            // Every heading becomes the node that the next lines belong to.
            if depth > indices.len() {
                indices.push(parent_node.children.len() - 1);
            }
            proof {
                let grown = parent.with_child(Tree::leaf(Some(line@)));
                lemma_replace_then_at(before.tree, stack, grown);
                lemma_at_child(
                    before.tree.replace_at(stack, grown),
                    stack,
                    parent.children.len() as usize,
                );
            }
        } else if has_marker(line, false) {
            let text = trimmed_string(line, 6);
            Node::push_task(root, indices, text, false);
        } else if has_marker(line, true) {
            let text = trimmed_string(line, 6);
            Node::push_task(root, indices, text, true);
        }
    }

    /// Adds a task, with no time spent on it, to the node that `indices`
    /// leads to.
    fn push_task(root: &mut Node, indices: &Vec<usize>, text: String, completed: bool)
        requires
            old(root)@.at(indices@) is Some,
        ensures
            final(root)@ == old(root)@.replace_at(
                indices@,
                old(root)@.at(indices@).unwrap().with_task(text@, completed),
            ),
            final(root)@.at(indices@) is Some,
    {
        let ghost before = root@;
        let current_node = Node::find_heading_level(root, indices);
        let ghost node = current_node@;
        proof {
            lemma_view_fields(current_node);
        }
        current_node.content.push(text);
        current_node.content_times.push(0);
        current_node.completed_tasks.push(completed);
        proof {
            lemma_view_fields(current_node);
            assert(current_node@.content =~= node.content.push(text@));
            assert(current_node@.content_times =~= node.content_times.push(0));
            assert(current_node@ == node.with_task(text@, completed));
            lemma_replace_then_at(before, indices@, node.with_task(text@, completed));
        }
    }
}

impl ParseState {
    /// A valid state over a well-formed tree stays so over one more line.
    pub proof fn lemma_step_keeps(self, line: Seq<char>)
        requires
            self.valid(),
            self.tree.wf(),
        ensures
            self.step(line).valid(),
            self.step(line).tree.wf(),
    {
        let depth = heading_depth(line);
        if depth > 0 {
            let keep = if self.stack.len() < depth {
                self.stack.len() as int
            } else {
                depth - 1
            };
            let stack = self.stack.take(keep);
            lemma_at_prefix(self.tree, self.stack, keep);
            let parent = self.tree.at(stack).unwrap();
            let grown = parent.with_child(Tree::leaf(Some(line)));
            lemma_at_wf(self.tree, stack);
            assert(grown.wf()) by {
                assert forall|i: int| 0 <= i < grown.children.len() implies (
                #[trigger] grown.children[i]).wf() by {
                    if i < parent.children.len() {
                        assert(grown.children[i] == parent.children[i]);
                    }
                }
            }
            lemma_replace_wf(self.tree, stack, grown);
            lemma_replace_then_at(self.tree, stack, grown);
            lemma_at_child(
                self.tree.replace_at(stack, grown),
                stack,
                parent.children.len() as usize,
            );
        } else if starts_with(line, open_marker()) || starts_with(line, done_marker()) {
            let node = self.tree.at(self.stack).unwrap();
            let text = trimmed(line.skip(6));
            let done = !starts_with(line, open_marker());
            lemma_at_wf(self.tree, self.stack);
            let grown = node.with_task(text, done);
            assert(grown.wf()) by {
                assert forall|i: int| 0 <= i < grown.children.len() implies (
                #[trigger] grown.children[i]).wf() by {
                    assert(grown.children[i] == node.children[i]);
                }
            }
            lemma_replace_wf(self.tree, self.stack, grown);
            lemma_replace_then_at(self.tree, self.stack, grown);
        }
    }

    /// A valid state over a well-formed tree stays so over any lines.
    pub proof fn lemma_run_keeps(self, lines: Seq<Seq<char>>)
        requires
            self.valid(),
            self.tree.wf(),
        ensures
            self.run(lines).valid(),
            self.run(lines).tree.wf(),
        decreases lines.len(),
    {
        if lines.len() > 0 {
            self.lemma_step_keeps(lines[0]);
            self.step(lines[0]).lemma_run_keeps(lines.drop_first());
        }
    }
}

impl ParseState {
    /// One more line spends no time.
    pub proof fn lemma_step_untimed(self, line: Seq<char>)
        requires
            self.tree.untimed(),
        ensures
            self.step(line).tree.untimed(),
    {
        let depth = heading_depth(line);
        if depth > 0 {
            let keep = if self.stack.len() < depth {
                self.stack.len() as int
            } else {
                depth - 1
            };
            let stack = self.stack.take(keep);
            if self.tree.at(stack) is Some {
                let parent = self.tree.at(stack).unwrap();
                let grown = parent.with_child(Tree::leaf(Some(line)));
                lemma_at_untimed(self.tree, stack);
                assert(grown.untimed()) by {
                    assert forall|i: int| 0 <= i < grown.children.len() implies (
                    #[trigger] grown.children[i]).untimed() by {
                        if i < parent.children.len() {
                            assert(grown.children[i] == parent.children[i]);
                        }
                    }
                }
                lemma_replace_untimed(self.tree, stack, grown);
            }
        } else if starts_with(line, open_marker()) || starts_with(line, done_marker()) {
            if self.tree.at(self.stack) is Some {
                let node = self.tree.at(self.stack).unwrap();
                let text = trimmed(line.skip(6));
                let done = !starts_with(line, open_marker());
                lemma_at_untimed(self.tree, self.stack);
                let grown = node.with_task(text, done);
                assert(grown.untimed()) by {
                    assert forall|i: int| 0 <= i < grown.children.len() implies (
                    #[trigger] grown.children[i]).untimed() by {
                        assert(grown.children[i] == node.children[i]);
                    }
                }
                lemma_replace_untimed(self.tree, self.stack, grown);
            }
        }
    }

    /// No lines spend any time.
    pub proof fn lemma_run_untimed(self, lines: Seq<Seq<char>>)
        requires
            self.tree.untimed(),
        ensures
            self.run(lines).tree.untimed(),
        decreases lines.len(),
    {
        if lines.len() > 0 {
            self.lemma_step_untimed(lines[0]);
            self.step(lines[0]).lemma_run_untimed(lines.drop_first());
        }
    }
}

/// In every tree that parsing gives, each node has as many completion flags
/// and times as it has tasks, every node but the root has a heading, and no
/// time has been spent on any task.
pub proof fn lemma_parse_wf(text: Seq<char>)
    ensures
        parse(text).wf(),
        parse(text).untimed(),
        parse(text).rollup_duration() == 0,
{
    ParseState::start().lemma_run_keeps(lines(text));
    ParseState::start().lemma_run_untimed(lines(text));
    lemma_untimed_rollup(parse(text));
}

impl Node {
    /// Reads the text into a tree. Every task starts with no time spent on
    /// it.
    pub fn convert_from(buf: &str) -> (root: Node)
        ensures
            root@ == parse(buf@),
            root@.wf(),
            root@.untimed(),
            root@.rollup_duration() == 0,
    {
        let text = to_chars(buf);
        let mut root = Node::new();
        let mut stack: Vec<usize> = Vec::new();
        let mut pos: usize = 0;
        while pos < text.len()
            invariant
                pos <= text.len(),
                root@.at(stack@) is Some,
                (ParseState { tree: root@, stack: stack@ }).run(lines_from(text@, pos as int))
                    == ParseState::start().run(lines(text@)),
            decreases text.len() - pos,
        {
            let end = find_line_end(&text, pos);
            let ghost rest = lines_from(text@, end + 1);
            if end > pos {
                let line = sub_chars(&text, pos, end);
                assert((seq![line@] + rest).drop_first() =~= rest);
                Node::convert_line(&line, &mut root, &mut stack);
            }
            if end == text.len() {
                pos = end;
            } else {
                pos = end + 1;
            }
        }
        proof {
            lemma_parse_wf(buf@);
        }
        root
    }
}

} // verus!
