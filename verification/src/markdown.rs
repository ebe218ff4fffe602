//! Writes a tree back as markdown: each heading, its checkbox lines, then its
//! subheadings.

use crate::node::{lemma_view_fields, Node, Tree};
use crate::parser::{done_marker, open_marker};
use vstd::prelude::*;
use vstd::string::*;

verus! {

/// A line of text followed by a line break.
pub open spec fn line_of(text: Seq<char>) -> Seq<char> {
    text.push('\n')
}

/// The checkbox line of a task.
pub open spec fn task_line(text: Seq<char>, completed: bool) -> Seq<char> {
    line_of(
        if completed {
            done_marker()
        } else {
            open_marker()
        } + text,
    )
}

impl Tree {
    /// The heading line; nothing for a node without heading.
    pub open spec fn heading_markdown(self) -> Seq<char> {
        match self.heading {
            Some(h) => line_of(h),
            None => Seq::empty(),
        }
    }

    /// The checkbox lines of the first `n` tasks.
    pub open spec fn tasks_markdown(self, n: nat) -> Seq<char>
        decreases n,
    {
        if n == 0 || n > self.content.len() {
            Seq::empty()
        } else {
            self.tasks_markdown((n - 1) as nat) + task_line(
                self.content[n - 1],
                self.completed_tasks[n - 1],
            )
        }
    }

    /// The markdown of the first `n` subheadings.
    pub open spec fn children_markdown(self, n: nat) -> Seq<char>
        decreases self, 0nat, n,
    {
        if n == 0 || n > self.children.len() {
            Seq::empty()
        } else {
            self.children_markdown((n - 1) as nat) + self.children[n - 1].markdown()
        }
    }

    /// The markdown of the whole subtree, depth first.
    pub open spec fn markdown(self) -> Seq<char>
        decreases self, 1nat, 0nat,
    {
        self.heading_markdown() + self.tasks_markdown(self.content.len()) + self.children_markdown(
            self.children.len(),
        )
    }
}

/// The markdown of a node and of everything below it. Nothing is indented:
/// depth shows in the heading lines alone.
pub fn push_node(node: &Node) -> (contents: String)
    requires
        node@.wf(),
    ensures
        contents@ == node@.markdown(),
    decreases node,
{
    proof {
        lemma_view_fields(node);
    }
    let ghost t = node@;
    let mut contents = String::new();
    match &node.heading {
        Some(heading) => {
            contents.append(heading.as_str());
            contents.push('\n');
        },
        None => {},
    }
    assert(contents@ =~= t.heading_markdown());
    let mut idx: usize = 0;
    while idx < node.content.len()
        invariant
            idx <= node.content.len(),
            t == node@,
            t.wf(),
            t.content.len() == node.content.len(),
            t.completed_tasks == node.completed_tasks@,
            forall|k: int| 0 <= k < t.content.len() ==> t.content[k] == node.content@[k]@,
            contents@ == t.heading_markdown() + t.tasks_markdown(idx as nat),
        decreases node.content.len() - idx,
    {
        let ghost before = contents@;
        if node.completed_tasks[idx] {
            contents.append("- [x] ");
        } else {
            contents.append("- [ ] ");
        }
        contents.append(node.content[idx].as_str());
        contents.push('\n');
        proof {
            reveal_strlit("- [x] ");
            reveal_strlit("- [ ] ");
            let line = task_line(t.content[idx as int], t.completed_tasks[idx as int]);
            assert("- [x] "@ =~= done_marker());
            assert("- [ ] "@ =~= open_marker());
            assert(contents@ =~= before + line);
            assert(contents@ =~= t.heading_markdown() + t.tasks_markdown((idx + 1) as nat));
        }
        idx += 1;
    }
    let mut k: usize = 0;
    while k < node.children.len()
        invariant
            k <= node.children.len(),
            t == node@,
            t.wf(),
            t.children.len() == node.children.len(),
            forall|c: int| 0 <= c < t.children.len() ==> t.children[c] == node.children@[c]@,
            contents@ == t.heading_markdown() + t.tasks_markdown(t.content.len())
                + t.children_markdown(k as nat),
        decreases node.children.len() - k,
    {
        let ghost before = contents@;
        let child = &node.children[k];
        assert(t.children[k as int].wf());
        let below = push_node(child);
        contents.append(below.as_str());
        proof {
            assert(contents@ =~= t.heading_markdown() + t.tasks_markdown(t.content.len())
                + t.children_markdown((k + 1) as nat));
        }
        k += 1;
    }
    contents
}


/// The markdown that saving writes in place of the source text: the root's
/// own tasks, then every heading, depth first.
pub fn export_text(root_node: &Node) -> (contents: String)
    requires
        root_node@.wf(),
    ensures
        contents@ == root_node@.markdown(),
{
    push_node(root_node)
}

} // verus!
