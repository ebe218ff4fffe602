//! The document tree: headings, their task lines and their subheadings.

use crate::error::Error;
use vstd::prelude::*;

verus! {

/// Child indices from the root down to a node; the empty path is the root.
pub type NodePath = Vec<usize>;

/// The mathematical value of a [`Node`].
pub struct Tree {
    pub heading: Option<Seq<char>>,
    pub content: Seq<Seq<char>>,
    pub children: Seq<Tree>,
    pub total_time: nat,
    pub content_times: Seq<nat>,
    pub completed_tasks: Seq<bool>,
}

impl Tree {
    /// A node without tasks or subheadings.
    pub open spec fn leaf(heading: Option<Seq<char>>) -> Tree {
        Tree {
            heading,
            content: Seq::empty(),
            children: Seq::empty(),
            total_time: 0,
            content_times: Seq::empty(),
            completed_tasks: Seq::empty(),
        }
    }

    /// The three per-task lists of this one node have the same length.
    pub open spec fn aligned(self) -> bool {
        &&& self.content.len() == self.completed_tasks.len()
        &&& self.content.len() == self.content_times.len()
    }

    /// Every node of the tree is aligned, and every node below this one has a
    /// heading: only a root is anonymous.
    pub open spec fn wf(self) -> bool
        decreases self,
    {
        &&& self.aligned()
        &&& forall|i: int|
            0 <= i < self.children.len() ==> (#[trigger] self.children[i]).heading is Some
        &&& forall|i: int| 0 <= i < self.children.len() ==> (#[trigger] self.children[i]).wf()
    }

    /// Every elapsed time and every number of children in the tree fits the
    /// machine representation, as in the view of any [`Node`].
    pub open spec fn bounded(self) -> bool
        decreases self,
    {
        &&& self.total_time <= u64::MAX
        &&& self.children.len() <= usize::MAX
        &&& forall|i: int|
            0 <= i < self.content_times.len() ==> (#[trigger] self.content_times[i]) <= u64::MAX
        &&& forall|i: int| 0 <= i < self.children.len() ==> (#[trigger] self.children[i]).bounded()
    }

    /// No time has been spent on any task of the tree.
    pub open spec fn untimed(self) -> bool
        decreases self,
    {
        &&& self.total_time == 0
        &&& forall|i: int| 0 <= i < self.content_times.len() ==> self.content_times[i] == 0
        &&& forall|i: int| 0 <= i < self.children.len() ==> (#[trigger] self.children[i]).untimed()
    }

    /// The node that `path` leads to, if every index on the way is in range.
    pub open spec fn at(self, path: Seq<usize>) -> Option<Tree>
        decreases path.len(),
    {
        if path.len() == 0 {
            Some(self)
        } else if path[0] < self.children.len() {
            self.children[path[0] as int].at(path.drop_first())
        } else {
            None
        }
    }

    /// The tree with the node at `path` replaced by `node`; the tree itself
    /// where `path` leads nowhere.
    pub open spec fn replace_at(self, path: Seq<usize>, node: Tree) -> Tree
        decreases path.len(),
    {
        if path.len() == 0 {
            node
        } else if path[0] < self.children.len() {
            Tree {
                children: self.children.update(
                    path[0] as int,
                    self.children[path[0] as int].replace_at(path.drop_first(), node),
                ),
                ..self
            }
        } else {
            self
        }
    }

    /// The path to the first node, in depth-first order, that equals
    /// `target`.
    pub open spec fn find(self, target: Tree) -> Option<Seq<usize>>
        decreases self, 1nat, 0nat,
    {
        if self == target {
            Some(Seq::empty())
        } else {
            self.find_below(target, 0)
        }
    }

    /// [`Tree::find`] among the subtrees from child `i` on.
    pub open spec fn find_below(self, target: Tree, i: nat) -> Option<Seq<usize>>
        decreases self, 0nat, self.children.len() - i,
    {
        if i >= self.children.len() {
            None
        } else {
            match self.children[i as int].find(target) {
                Some(p) => Some(seq![i as usize] + p),
                None => self.find_below(target, i + 1),
            }
        }
    }

    /// This node with the time and completion fields of `source`; heading,
    /// task text and children stay.
    pub open spec fn with_times_of(self, source: Tree) -> Tree {
        Tree {
            content_times: source.content_times,
            total_time: source.total_time,
            completed_tasks: source.completed_tasks,
            ..self
        }
    }
}

/// One heading (or the anonymous root) with its direct task lines.
#[derive(Debug)]
pub struct Node {
    pub heading: Option<String>,
    pub content: Vec<String>,
    pub children: Vec<Node>,
    /// Seconds spent in this subtree, as last committed.
    pub total_time: u64,
    /// Seconds spent on each task.
    pub content_times: Vec<u64>,
    pub completed_tasks: Vec<bool>,
}

impl Node {
    /// The mathematical value of this node and of everything below it.
    pub open spec fn tree(&self) -> Tree
        decreases self,
    {
        Tree {
            heading: match self.heading {
                Some(h) => Some(h@),
                None => None,
            },
            content: Seq::new(self.content@.len(), |i: int| self.content@[i]@),
            children: Seq::new(
                self.children@.len(),
                |i: int|
                    if 0 <= i < self.children@.len() {
                        self.children@[i].tree()
                    } else {
                        arbitrary()
                    },
            ),
            total_time: self.total_time as nat,
            content_times: Seq::new(
                self.content_times@.len(),
                |i: int| self.content_times@[i] as nat,
            ),
            completed_tasks: self.completed_tasks@,
        }
    }
}

impl View for Node {
    type V = Tree;

    open spec fn view(&self) -> Tree {
        self.tree()
    }
}

/// The views of a list of strings.
pub open spec fn strings_view(v: Seq<String>) -> Seq<Seq<char>> {
    Seq::new(v.len(), |i: int| v[i]@)
}

/// The views of a list of nodes.
pub open spec fn nodes_view(v: Seq<Node>) -> Seq<Tree> {
    Seq::new(v.len(), |i: int| v[i]@)
}

/// A list of seconds as natural numbers.
pub open spec fn times_view(v: Seq<u64>) -> Seq<nat> {
    Seq::new(v.len(), |i: int| v[i] as nat)
}

/// The fields of a node's view, one by one.
pub proof fn lemma_view_fields(n: &Node)
    ensures
        n@.heading == heading_view(n.heading),
        n@.content == strings_view(n.content@),
        n@.children == nodes_view(n.children@),
        n@.total_time == n.total_time as nat,
        n@.content_times == times_view(n.content_times@),
        n@.completed_tasks == n.completed_tasks@,
        n@.bounded(),
    decreases n,
{
    assert(n@.content =~= strings_view(n.content@));
    assert(n@.children =~= nodes_view(n.children@));
    assert(n@.content_times =~= times_view(n.content_times@));
    assert(n.children.len() == n.children@.len());
    assert forall|i: int| 0 <= i < n@.children.len() implies (#[trigger] n@.children[i]).bounded() by {
        lemma_view_fields(&n.children@[i]);
    }
}

/// The subtrees of a node's view are the views of its children.
pub broadcast proof fn lemma_tree_children(n: Node)
    ensures
        (#[trigger] n.tree()).children == nodes_view(n.children@),
        n.tree().content == strings_view(n.content@),
        n.tree().content_times == times_view(n.content_times@),
        n.tree().heading == heading_view(n.heading),
{
    lemma_view_fields(&n);
}

/// Replacing one node of a list replaces its view in the list of views.
pub broadcast proof fn lemma_nodes_view_update(v: Seq<Node>, i: int, c: Node)
    requires
        0 <= i < v.len(),
    ensures
        #[trigger] nodes_view(v.update(i, c)) == nodes_view(v).update(i, c@),
{
    assert(nodes_view(v.update(i, c)) =~= nodes_view(v).update(i, c@));
}

/// Writing back the subtree that is already there changes nothing.
pub broadcast proof fn lemma_update_same(s: Seq<Tree>, i: int, t: Tree)
    requires
        0 <= i < s.len(),
        s[i] == t,
    ensures
        #[trigger] s.update(i, t) == s,
{
    assert(s.update(i, t) =~= s);
}

/// A copy of a list of strings.
pub fn copy_strings(v: &Vec<String>) -> (r: Vec<String>)
    ensures
        strings_view(r@) == strings_view(v@),
{
    let mut r: Vec<String> = Vec::new();
    let mut i: usize = 0;
    while i < v.len()
        invariant
            i <= v.len(),
            r.len() == i,
            forall|j: int| 0 <= j < i ==> r@[j]@ == v@[j]@,
        decreases v.len() - i,
    {
        r.push(v[i].clone());
        i += 1;
    }
    assert(strings_view(r@) =~= strings_view(v@));
    r
}

/// Whether two lists of strings hold the same text.
pub fn same_strings(a: &Vec<String>, b: &Vec<String>) -> (r: bool)
    ensures
        r == (strings_view(a@) == strings_view(b@)),
{
    if a.len() != b.len() {
        assert(strings_view(a@).len() != strings_view(b@).len());
        return false;
    }
    let mut i: usize = 0;
    while i < a.len()
        invariant
            i <= a.len(),
            a.len() == b.len(),
            forall|j: int| 0 <= j < i ==> a@[j]@ == b@[j]@,
        decreases a.len() - i,
    {
        if a[i] != b[i] {
            assert(strings_view(a@)[i as int] != strings_view(b@)[i as int]);
            return false;
        }
        i += 1;
    }
    assert(strings_view(a@) =~= strings_view(b@));
    true
}

/// The view of an optional heading.
pub open spec fn heading_view(h: Option<String>) -> Option<Seq<char>> {
    match h {
        Some(s) => Some(s@),
        None => None,
    }
}

/// Whether two optional headings hold the same text.
pub fn same_heading(a: &Option<String>, b: &Option<String>) -> (r: bool)
    ensures
        r == (heading_view(*a) == heading_view(*b)),
{
    match a {
        Some(x) => match b {
            Some(y) => *x == *y,
            None => false,
        },
        None => b.is_none(),
    }
}

/// Whether two lists of seconds are equal.
pub fn same_times(a: &Vec<u64>, b: &Vec<u64>) -> (r: bool)
    ensures
        r == (a@ == b@),
        r == (times_view(a@) == times_view(b@)),
{
    if a.len() != b.len() {
        assert(times_view(a@).len() != times_view(b@).len());
        return false;
    }
    let mut i: usize = 0;
    while i < a.len()
        invariant
            i <= a.len(),
            a.len() == b.len(),
            forall|j: int| 0 <= j < i ==> a@[j] == b@[j],
        decreases a.len() - i,
    {
        if a[i] != b[i] {
            assert(times_view(a@)[i as int] != times_view(b@)[i as int]);
            return false;
        }
        i += 1;
    }
    assert(a@ =~= b@);
    true
}

/// Whether two lists of completion flags are equal.
pub fn same_flags(a: &Vec<bool>, b: &Vec<bool>) -> (r: bool)
    ensures
        r == (a@ == b@),
{
    if a.len() != b.len() {
        return false;
    }
    let mut i: usize = 0;
    while i < a.len()
        invariant
            i <= a.len(),
            a.len() == b.len(),
            forall|j: int| 0 <= j < i ==> a@[j] == b@[j],
        decreases a.len() - i,
    {
        if a[i] != b[i] {
            return false;
        }
        i += 1;
    }
    assert(a@ =~= b@);
    true
}

impl Node {
    /// The anonymous root: no heading, no tasks, no subheadings.
    pub fn new() -> (n: Node)
        ensures
            n@ == Tree::leaf(None),
    {
        let n = Node {
            heading: None,
            content: Vec::new(),
            children: Vec::new(),
            total_time: 0,
            content_times: Vec::new(),
            completed_tasks: Vec::new(),
        };
        proof {
            lemma_view_fields(&n);
            assert(n@.content =~= Seq::empty());
            assert(n@.children =~= Seq::empty());
            assert(n@.content_times =~= Seq::empty());
            assert(n@.completed_tasks =~= Seq::empty());
        }
        n
    }

    /// A heading without tasks or subheadings.
    pub fn new_with_heading(heading: String) -> (n: Node)
        ensures
            n@ == Tree::leaf(Some(heading@)),
    {
        let n = Node {
            heading: Some(heading),
            content: Vec::new(),
            children: Vec::new(),
            total_time: 0,
            content_times: Vec::new(),
            completed_tasks: Vec::new(),
        };
        proof {
            lemma_view_fields(&n);
            assert(n@.content =~= Seq::empty());
            assert(n@.children =~= Seq::empty());
            assert(n@.content_times =~= Seq::empty());
            assert(n@.completed_tasks =~= Seq::empty());
        }
        n
    }

    /// A deep copy.
    pub fn duplicate(&self) -> (r: Node)
        ensures
            r@ == self@,
        decreases self,
    {
        let heading = match &self.heading {
            Some(h) => Some(h.clone()),
            None => None,
        };
        let mut children: Vec<Node> = Vec::new();
        let mut i: usize = 0;
        while i < self.children.len()
            invariant
                i <= self.children.len(),
                children.len() == i,
                forall|j: int| 0 <= j < i ==> children@[j]@ == self.children@[j]@,
            decreases self.children.len() - i,
        {
            let c = self.children[i].duplicate();
            children.push(c);
            i += 1;
        }
        let r = Node {
            heading,
            content: copy_strings(&self.content),
            children,
            total_time: self.total_time,
            content_times: self.content_times.clone(),
            completed_tasks: self.completed_tasks.clone(),
        };
        proof {
            lemma_view_fields(&r);
            lemma_view_fields(self);
            assert(nodes_view(r.children@) =~= nodes_view(self.children@));
            assert(r.content_times@ =~= self.content_times@);
            assert(r.completed_tasks@ =~= self.completed_tasks@);
        }
        r
    }

    /// Structural equality: the same heading, tasks, times and subtrees.
    pub fn same(&self, other: &Node) -> (r: bool)
        ensures
            r == (self@ == other@),
        decreases self,
    {
        proof {
            lemma_view_fields(self);
            lemma_view_fields(other);
        }
        if !same_heading(&self.heading, &other.heading) || self.total_time != other.total_time {
            return false;
        }
        if !same_strings(&self.content, &other.content) || !same_times(
            &self.content_times,
            &other.content_times,
        ) || !same_flags(&self.completed_tasks, &other.completed_tasks) {
            return false;
        }
        if self.children.len() != other.children.len() {
            assert(self@.children.len() != other@.children.len());
            return false;
        }
        let mut i: usize = 0;
        while i < self.children.len()
            invariant
                i <= self.children.len(),
                self.children.len() == other.children.len(),
                forall|j: int| 0 <= j < i ==> self.children@[j]@ == other.children@[j]@,
            decreases self.children.len() - i,
        {
            if !self.children[i].same(&other.children[i]) {
                assert(self@.children[i as int] != other@.children[i as int]);
                return false;
            }
            i += 1;
        }
        assert(self@.children =~= other@.children);
        true
    }
}

impl Clone for Node {
    fn clone(&self) -> (r: Node)
        ensures
            r@ == self@,
    {
        self.duplicate()
    }
}

impl Node {
    /// The node that `path` leads to.
    pub fn get_node(&self, path: &NodePath) -> (r: Option<&Node>)
        ensures
            match r {
                Some(n) => self@.at(path@) == Some(n@),
                None => self@.at(path@).is_none(),
            },
    {
        assert(path@.skip(0) =~= path@);
        self.get_node_from(path, 0)
    }

    /// The node that the rest of `path`, from position `from` on, leads to.
    fn get_node_from<'a>(&'a self, path: &NodePath, from: usize) -> (r: Option<&'a Node>)
        requires
            from <= path.len(),
        ensures
            match r {
                Some(n) => self@.at(path@.skip(from as int)) == Some(n@),
                None => self@.at(path@.skip(from as int)).is_none(),
            },
        decreases path.len() - from,
    {
        proof {
            lemma_view_fields(self);
        }
        if from == path.len() {
            Some(self)
        } else {
            let idx = path[from];
            assert(path@.skip(from as int).drop_first() =~= path@.skip(from as int + 1));
            if idx < self.children.len() {
                self.children[idx].get_node_from(path, from + 1)
            } else {
                None
            }
        }
    }
}

impl Node {
    /// The node that `path` leads to, for writing. What the caller leaves in
    /// it takes that node's place in the tree.
    pub fn get_node_mut(&mut self, path: &NodePath) -> (r: Option<&mut Node>)
        ensures
            match r {
                Some(n) => {
                    &&& old(self)@.at(path@) == Some(n@)
                    &&& final(self)@ == old(self)@.replace_at(path@, final(n)@)
                },
                None => old(self)@.at(path@).is_none() && final(self)@ == old(self)@,
            },
    {
        assert(path@.skip(0) =~= path@);
        self.get_node_mut_from(path, 0)
    }

    /// [`Node::get_node_mut`] for the rest of `path`, from position `from` on.
    fn get_node_mut_from<'a>(&'a mut self, path: &NodePath, from: usize) -> (r: Option<
        &'a mut Node,
    >)
        requires
            from <= path.len(),
        ensures
            match r {
                Some(n) => {
                    &&& old(self)@.at(path@.skip(from as int)) == Some(n@)
                    &&& final(self)@ == old(self)@.replace_at(
                        path@.skip(from as int),
                        final(n)@,
                    )
                },
                None => old(self)@.at(path@.skip(from as int)).is_none() && final(self)@ == old(
                    self,
                )@,
            },
        decreases path.len() - from,
    {
        proof {
            lemma_view_fields(self);
        }
        if from == path.len() {
            Some(self)
        } else {
            let idx = path[from];
            assert(path@.skip(from as int).drop_first() =~= path@.skip(from as int + 1));
            if idx < self.children.len() {
                broadcast use lemma_tree_children, lemma_nodes_view_update, lemma_update_same;
                let child = &mut self.children[idx];
                child.get_node_mut_from(path, from + 1)
            } else {
                None
            }
        }
    }
}

impl Node {
    /// Copies the time and completion fields of `contents` into the node at
    /// `modify_path`. Heading, task text and children are not touched.
    pub fn update_node(&mut self, modify_path: &NodePath, contents: &Node) -> (r: Result<
        (),
        Error,
    >)
        requires
            match old(self)@.at(modify_path@) {
                Some(t) => t.content_times.len() == contents@.content_times.len(),
                None => true,
            },
        ensures
            match r {
                Ok(_) => {
                    &&& old(self)@.at(modify_path@) is Some
                    &&& final(self)@ == old(self)@.replace_at(
                        modify_path@,
                        old(self)@.at(modify_path@).unwrap().with_times_of(contents@),
                    )
                },
                Err(e) => {
                    &&& e == Error::PathNotFound
                    &&& old(self)@.at(modify_path@) is None
                    &&& final(self)@ == old(self)@
                },
            },
    {
        match self.get_node_mut(modify_path) {
            Some(found) => {
                let ghost before = found@;
                proof {
                    lemma_view_fields(found);
                    lemma_view_fields(contents);
                }
                found.content_times = contents.content_times.clone();
                found.total_time = contents.total_time;
                found.completed_tasks = contents.completed_tasks.clone();
                proof {
                    lemma_view_fields(found);
                    assert(found.content_times@ =~= contents.content_times@);
                    assert(found.completed_tasks@ =~= contents.completed_tasks@);
                    assert(found@ == before.with_times_of(contents@));
                }
                Ok(())
            },
            None => Err(Error::PathNotFound),
        }
    }
}

impl Node {
    /// The path from `current` to the first node below it, in depth-first
    /// order, that is structurally equal to `target`.
    pub fn find_path(current: &Node, target: &Node) -> (r: Result<NodePath, Error>)
        ensures
            match r {
                Ok(p) => current@.find(target@) == Some(p@),
                Err(e) => e == Error::NotFound && current@.find(target@) is None,
            },
    {
        let mut path: Vec<usize> = Vec::new();
        if Node::find_inner_path(current, target, &mut path) {
            assert(path@ =~= Seq::<usize>::empty() + path@);
            Ok(path)
        } else {
            Err(Error::NotFound)
        }
    }

    /// Extends `path` by the way from `current` to `target`, if there is one.
    fn find_inner_path(current: &Node, target: &Node, path: &mut Vec<usize>) -> (found: bool)
        ensures
            match current@.find(target@) {
                Some(p) => found && final(path)@ == old(path)@ + p,
                None => !found && final(path)@ == old(path)@,
            },
        decreases current,
    {
        proof {
            lemma_view_fields(current);
        }
        if current.same(target) {
            assert(path@ =~= path@ + Seq::<usize>::empty());
            return true;
        }
        let mut i: usize = 0;
        while i < current.children.len()
            invariant
                i <= current.children.len(),
                current@.children == nodes_view(current.children@),
                current@.find_below(target@, i as nat) == current@.find(target@),
                path@ == old(path)@,
            decreases current.children.len() - i,
        {
            path.push(i);
            if Node::find_inner_path(&current.children[i], target, path) {
                proof {
                    let p = current.children@[i as int]@.find(target@).unwrap();
                    assert(old(path)@.push(i) + p =~= old(path)@ + (seq![i] + p));
                }
                return true;
            }
            path.pop();
            assert(path@ =~= old(path)@);
            i += 1;
        }
        false
    }
}

/// A path that [`Tree::find`] returns leads to a node equal to the target.
pub proof fn lemma_find_sound(t: Tree, target: Tree)
    requires
        t.bounded(),
        t.find(target) is Some,
    ensures
        t.at(t.find(target).unwrap()) == Some(target),
    decreases t, 1nat, 0nat,
{
    if t != target {
        lemma_find_below_sound(t, target, 0);
    }
}

/// [`lemma_find_sound`] for the search among the children from `i` on.
pub proof fn lemma_find_below_sound(t: Tree, target: Tree, i: nat)
    requires
        t.bounded(),
        t.find_below(target, i) is Some,
    ensures
        t.at(t.find_below(target, i).unwrap()) == Some(target),
    decreases t, 0nat, t.children.len() - i,
{
    if i < t.children.len() {
        match t.children[i as int].find(target) {
            Some(p) => {
                lemma_find_sound(t.children[i as int], target);
                let q = seq![i as usize] + p;
                assert(q.drop_first() =~= p);
                assert(q[0] == i as usize);
                assert(t.at(q) == t.children[q[0] as int].at(q.drop_first()));
            },
            None => {
                lemma_find_below_sound(t, target, i + 1);
            },
        }
    }
}

/// Whenever some path leads to a node equal to the target, [`Tree::find`]
/// finds one.
pub proof fn lemma_find_complete(t: Tree, target: Tree, path: Seq<usize>)
    requires
        t.at(path) == Some(target),
    ensures
        t.find(target) is Some,
    decreases t,
{
    if t != target {
        assert(path.len() > 0);
        let k = path[0] as nat;
        lemma_find_complete(t.children[k as int], target, path.drop_first());
        lemma_find_below_reaches(t, target, 0, k);
    }
}

/// A search from child `i` on succeeds when the search in a later child `k`
/// does.
pub proof fn lemma_find_below_reaches(t: Tree, target: Tree, i: nat, k: nat)
    requires
        i <= k < t.children.len(),
        t.children[k as int].find(target) is Some,
    ensures
        t.find_below(target, i) is Some,
    decreases k - i,
{
    if i < k && t.children[i as int].find(target) is None {
        lemma_find_below_reaches(t, target, i + 1, k);
    }
}

/// Every node of a well-formed tree is well-formed, and every node but the
/// root has a heading.
pub proof fn lemma_at_wf(t: Tree, path: Seq<usize>)
    requires
        t.wf(),
        t.at(path) is Some,
    ensures
        t.at(path).unwrap().wf(),
        path.len() > 0 ==> t.at(path).unwrap().heading is Some,
    decreases path.len(),
{
    if path.len() > 0 {
        lemma_at_wf(t.children[path[0] as int], path.drop_first());
    }
}

/// Replacing a node of a well-formed tree by a well-formed node leaves the
/// tree well-formed.
pub proof fn lemma_replace_wf(t: Tree, path: Seq<usize>, node: Tree)
    requires
        t.wf(),
        node.wf(),
        path.len() > 0 ==> node.heading is Some,
    ensures
        t.replace_at(path, node).wf(),
    decreases path.len(),
{
    if path.len() > 0 && path[0] < t.children.len() {
        lemma_replace_wf(t.children[path[0] as int], path.drop_first(), node);
        let r = t.replace_at(path, node);
        assert forall|i: int| 0 <= i < r.children.len() implies (#[trigger] r.children[i]).wf()
            && r.children[i].heading is Some by {
            if i != path[0] as int {
                assert(r.children[i] == t.children[i]);
            } else if path.len() > 1 {
                let below = path.drop_first();
                assert(t.children[i].replace_at(below, node).heading == t.children[i].heading);
            }
        }
    }
}

/// After a replacement the path leads to the new node.
pub proof fn lemma_replace_then_at(t: Tree, path: Seq<usize>, node: Tree)
    requires
        t.at(path) is Some,
    ensures
        t.replace_at(path, node).at(path) == Some(node),
    decreases path.len(),
{
    if path.len() > 0 {
        lemma_replace_then_at(t.children[path[0] as int], path.drop_first(), node);
    }
}

/// Writing back the node that is already at a path changes nothing.
pub proof fn lemma_replace_same(t: Tree, path: Seq<usize>)
    requires
        t.at(path) is Some,
    ensures
        t.replace_at(path, t.at(path).unwrap()) == t,
    decreases path.len(),
{
    if path.len() > 0 {
        lemma_replace_same(t.children[path[0] as int], path.drop_first());
        assert(t.replace_at(path, t.at(path).unwrap()).children =~= t.children);
    }
}

/// One step further down a path leads to the child with that index.
pub proof fn lemma_at_child(t: Tree, path: Seq<usize>, k: usize)
    requires
        t.at(path) is Some,
        k < t.at(path).unwrap().children.len(),
    ensures
        t.at(path.push(k)) == Some(t.at(path).unwrap().children[k as int]),
    decreases path.len(),
{
    if path.len() == 0 {
        assert(path.push(k).drop_first() =~= Seq::<usize>::empty());
        assert(t.children[k as int].at(Seq::<usize>::empty()) == Some(t.children[k as int]));
    } else {
        assert(path.push(k).drop_first() =~= path.drop_first().push(k));
        lemma_at_child(t.children[path[0] as int], path.drop_first(), k);
    }
}

/// A path that leads to a node leads to one with each of its beginnings.
pub proof fn lemma_at_prefix(t: Tree, path: Seq<usize>, len: int)
    requires
        t.at(path) is Some,
        0 <= len <= path.len(),
    ensures
        t.at(path.take(len)) is Some,
    decreases path.len(),
{
    if len > 0 {
        assert(path.take(len).drop_first() =~= path.drop_first().take(len - 1));
        lemma_at_prefix(t.children[path[0] as int], path.drop_first(), len - 1);
    }
}

/// No time has been spent below a node of a tree on which none has been
/// spent.
pub proof fn lemma_at_untimed(t: Tree, path: Seq<usize>)
    requires
        t.untimed(),
        t.at(path) is Some,
    ensures
        t.at(path).unwrap().untimed(),
    decreases path.len(),
{
    if path.len() > 0 {
        lemma_at_untimed(t.children[path[0] as int], path.drop_first());
    }
}

/// Replacing a node by one on which no time has been spent leaves a tree on
/// which none has been spent so.
pub proof fn lemma_replace_untimed(t: Tree, path: Seq<usize>, node: Tree)
    requires
        t.untimed(),
        node.untimed(),
    ensures
        t.replace_at(path, node).untimed(),
    decreases path.len(),
{
    if path.len() > 0 && path[0] < t.children.len() {
        lemma_replace_untimed(t.children[path[0] as int], path.drop_first(), node);
        let r = t.replace_at(path, node);
        assert forall|i: int| 0 <= i < r.children.len() implies (
        #[trigger] r.children[i]).untimed() by {
            if i != path[0] as int {
                assert(r.children[i] == t.children[i]);
            }
        }
    }
}

impl Node {
    /// Whether the tree is well-formed.
    pub fn is_wf(&self) -> (r: bool)
        ensures
            r == self@.wf(),
        decreases self,
    {
        proof {
            lemma_view_fields(self);
        }
        if self.content.len() != self.completed_tasks.len() || self.content.len()
            != self.content_times.len() {
            return false;
        }
        let mut i: usize = 0;
        while i < self.children.len()
            invariant
                i <= self.children.len(),
                self@.aligned(),
                self@.children == nodes_view(self.children@),
                forall|k: int| 0 <= k < i ==> (#[trigger] self@.children[k]).heading is Some,
                forall|k: int| 0 <= k < i ==> (#[trigger] self@.children[k]).wf(),
            decreases self.children.len() - i,
        {
            let child = &self.children[i];
            proof {
                lemma_view_fields(child);
            }
            if child.heading.is_none() {
                assert(self@.children[i as int].heading is None);
                return false;
            }
            if !child.is_wf() {
                assert(!self@.children[i as int].wf());
                return false;
            }
            i += 1;
        }
        true
    }
}

} // verus!
