//! A prefix tree of move sequences.
//!
//! A node holds its children in the order in which they were added, each under the move
//! that leads to it, and a mark that says whether a line ends at the node.

use vstd::prelude::*;
use vstd::string::StringExecFns;
use crate::pieces::Move;
use crate::text::texts;

verus! {

/// A node of the tree.
#[derive(Debug)]
pub struct Node {
    children: Vec<(Move, Node)>,
    is_end: bool,
}

/// Index of the first entry at or after `from` whose key is `m`, or -1 if there is none.
pub open spec fn find_from(entries: Seq<(Move, Node)>, m: Move, from: int) -> int
    decreases entries.len() - from,
{
    if from < 0 || from >= entries.len() {
        -1
    } else if entries[from].0 == m {
        from
    } else {
        find_from(entries, m, from + 1)
    }
}

proof fn lemma_find_from_range(entries: Seq<(Move, Node)>, m: Move, from: int)
    requires
        0 <= from,
    ensures
        find_from(entries, m, from) == -1 || (from <= find_from(entries, m, from) < entries.len()
            && entries[find_from(entries, m, from)].0 == m),
        find_from(entries, m, from) == -1 ==> forall|j: int|
            from <= j < entries.len() ==> (#[trigger] entries[j]).0 != m,
    decreases entries.len() - from,
{
    if from < entries.len() && entries[from].0 != m {
        lemma_find_from_range(entries, m, from + 1);
    }
}

proof fn lemma_find_from_update(
    entries: Seq<(Move, Node)>,
    idx: int,
    node: Node,
    m: Move,
    from: int,
)
    requires
        0 <= idx < entries.len(),
        0 <= from,
    ensures
        find_from(entries.update(idx, (entries[idx].0, node)), m, from) == find_from(
            entries,
            m,
            from,
        ),
    decreases entries.len() - from,
{
    if from < entries.len() && entries[from].0 != m {
        lemma_find_from_update(entries, idx, node, m, from + 1);
    }
}

proof fn lemma_find_from_push(entries: Seq<(Move, Node)>, key: Move, node: Node, m: Move, from: int)
    requires
        0 <= from <= entries.len(),
    ensures
        find_from(entries.push((key, node)), m, from) == if find_from(entries, m, from) != -1 {
            find_from(entries, m, from)
        } else if m == key {
            entries.len() as int
        } else {
            -1
        },
    decreases entries.len() - from,
{
    let pushed = entries.push((key, node));
    if from < entries.len() {
        if entries[from].0 != m {
            lemma_find_from_push(entries, key, node, m, from + 1);
        }
    } else {
        assert(find_from(pushed, m, from + 1) == -1);
    }
}

impl Node {
    /// The children of the node with the moves that lead to them, in the order in which
    /// they were added.
    pub closed spec fn entries(self) -> Seq<(Move, Node)> {
        self.children@
    }

    /// Whether a line ends at the node.
    pub closed spec fn terminal(self) -> bool {
        self.is_end
    }

    /// The child that `m` leads to.
    pub open spec fn child(self, m: Move) -> Option<Node> {
        let i = find_from(self.entries(), m, 0);
        if i < 0 {
            None
        } else {
            Some(self.entries()[i].1)
        }
    }

    /// Whether the moves of `path` can be followed from the node.
    pub open spec fn has_path(self, path: Seq<Move>) -> bool
        decreases path.len(),
    {
        if path.len() == 0 {
            true
        } else {
            match self.child(path[0]) {
                Some(c) => c.has_path(path.drop_first()),
                None => false,
            }
        }
    }

    /// Whether the moves of `path` can be followed from the node and a line ends there.
    pub open spec fn ends_at(self, path: Seq<Move>) -> bool
        decreases path.len(),
    {
        if path.len() == 0 {
            self.terminal()
        } else {
            match self.child(path[0]) {
                Some(c) => c.ends_at(path.drop_first()),
                None => false,
            }
        }
    }

    /// A line can only end where its moves can be followed.
    pub proof fn lemma_end_is_on_path(self, path: Seq<Move>)
        ensures
            self.ends_at(path) ==> self.has_path(path),
        decreases path.len(),
    {
        if path.len() > 0 {
            match self.child(path[0]) {
                Some(c) => {
                    c.lemma_end_is_on_path(path.drop_first());
                },
                None => {},
            }
        }
    }

    /// Where `path` goes on from a node, it goes on from its child: following `m` and then
    /// `path` is following `path` from the child under `m`.
    pub proof fn lemma_step(self, m: Move, path: Seq<Move>)
        ensures
            self.has_path(seq![m] + path) == match self.child(m) {
                Some(c) => c.has_path(path),
                None => false,
            },
            self.ends_at(seq![m] + path) == match self.child(m) {
                Some(c) => c.ends_at(path),
                None => false,
            },
    {
        assert((seq![m] + path).drop_first() =~= path);
    }

    /// The children of the node, each with the move that leads to it.
    pub fn childern(&self) -> (r: &Vec<(Move, Node)>)
        ensures
            r@ == self.entries(),
    {
        &self.children
    }

    /// Whether a line ends at the node.
    pub fn is_end(&self) -> (r: bool)
        ensures
            r == self.terminal(),
    {
        self.is_end
    }

    fn find(&self, m: &Move) -> (r: Option<usize>)
        ensures
            match r {
                Some(i) => i == find_from(self.entries(), *m, 0) && i < self.entries().len(),
                None => find_from(self.entries(), *m, 0) == -1,
            },
    {
        let mut i: usize = 0;
        while i < self.children.len()
            invariant
                i <= self.children.len(),
                find_from(self.entries(), *m, 0) == find_from(self.entries(), *m, i as int),
            decreases self.children.len() - i,
        {
            if self.children[i].0 == *m {
                return Some(i);
            }
            i += 1;
        }
        None
    }

    /// The child that `m` leads to.
    pub fn get(&self, m: &Move) -> (r: Option<&Node>)
        ensures
            match r {
                Some(c) => self.child(*m) == Some(*c),
                None => self.child(*m).is_none(),
            },
    {
        match self.find(m) {
            Some(i) => Some(&self.children[i].1),
            None => None,
        }
    }
}

impl Default for Node {
    fn default() -> (r: Self)
        ensures
            r.entries().len() == 0,
            !r.terminal(),
    {
        Self { children: Vec::new(), is_end: false }
    }
}

/// What `line` makes of the mark at the end of `path` when it is added to a tree in which
/// the mark was `before`: the end of the line is marked, the nodes that the line passes
/// are not, and every other mark stays.
pub open spec fn mark_after_insert(before: bool, line: Seq<Move>, path: Seq<Move>) -> bool {
    if path == line {
        true
    } else if path.len() > 0 && path.is_prefix_of(line) {
        false
    } else {
        before
    }
}

impl Node {
    /// Whether two trees hold the same children in the same order, with the same marks.
    pub open spec fn same_as(self, other: Node) -> bool
        decreases self,
    {
        &&& self.terminal() == other.terminal()
        &&& self.entries().len() == other.entries().len()
        &&& forall|i: int|
            0 <= i < self.entries().len() ==> (#[trigger] self.entries()[i]).0
                == other.entries()[i].0 && self.entries()[i].1.same_as(other.entries()[i].1)
    }

    proof fn lemma_entries_decrease(self, i: int)
        requires
            0 <= i < self.entries().len(),
        ensures
            decreases_to!(self => self.entries()[i].1),
    {
        broadcast use vstd::std_specs::vec::axiom_vec_decreases_to_view;

    }
}

impl Node {
    /// Adds the moves of `items` from `start` on as a line below the node.
    fn insert_from(&mut self, items: &[Move], start: usize)
        requires
            start <= items@.len(),
        ensures
            forall|p: Seq<Move>| #[trigger]
                final(self).has_path(p) <==> old(self).has_path(p) || p.is_prefix_of(
                    items@.skip(start as int),
                ),
            forall|p: Seq<Move>| #[trigger]
                final(self).ends_at(p) == mark_after_insert(
                    old(self).ends_at(p),
                    items@.skip(start as int),
                    p,
                ),
        decreases items@.len() - start,
    {
        let ghost line = items@.skip(start as int);
        let ghost before = *self;
        if start == items.len() {
            self.is_end = true;
            assert forall|p: Seq<Move>| #[trigger]
                self.ends_at(p) == mark_after_insert(before.ends_at(p), line, p) by {
                if p.len() == 0 {
                    assert(p =~= line);
                }
            }
            return ;
        }
        let key = items[start];
        let ghost rest = items@.skip(start as int + 1);
        assert(line.drop_first() =~= rest);
        let found = self.find(&key);
        proof {
            lemma_find_from_range(before.entries(), key, 0);
        }
        let mut child = match found {
            Some(i) => self.children.remove(i).1,
            None => Node::default(),
        };
        let ghost child_before = child;
        child.is_end = false;
        let ghost child_cleared = child;
        child.insert_from(items, start + 1);
        match found {
            Some(i) => {
                self.children.insert(i, (key, child));
                proof {
                    assert(self.entries() =~= before.entries().update(i as int, (key, child)));
                    assert forall|m: Move|
                        find_from(self.entries(), m, 0) == find_from(
                            before.entries(),
                            m,
                            0,
                        ) by {
                        lemma_find_from_update(before.entries(), i as int, child, m, 0);
                    }
                }
            },
            None => {
                self.children.push((key, child));
                proof {
                    assert forall|m: Move|
                        find_from(self.entries(), m, 0) == if find_from(before.entries(), m, 0)
                            != -1 {
                            find_from(before.entries(), m, 0)
                        } else if m == key {
                            before.entries().len() as int
                        } else {
                            -1
                        } by {
                        lemma_find_from_push(before.entries(), key, child, m, 0);
                    }
                    assert forall|m: Move| find_from(before.entries(), m, 0) < before.entries().len() by {
                        lemma_find_from_range(before.entries(), m, 0);
                    }
                }
            },
        }
        proof {
            assert forall|m: Move| m != key implies self.child(m) == before.child(m) by {
                lemma_find_from_range(before.entries(), m, 0);
            }
            assert forall|q: Seq<Move>| #[trigger]
                child_cleared.has_path(q) <==> (q.len() == 0 || (found.is_some()
                    && child_before.has_path(q))) by {}
            assert forall|q: Seq<Move>| #[trigger]
                child_cleared.ends_at(q) <==> (q.len() > 0 && found.is_some()
                    && child_before.ends_at(q)) by {}
            assert forall|p: Seq<Move>| #[trigger]
                self.has_path(p) <==> before.has_path(p) || p.is_prefix_of(line) by {
                if p.len() > 0 {
                    let q = p.drop_first();
                    if p[0] == key {
                        assert(child.has_path(q) <==> child_cleared.has_path(q) || q.is_prefix_of(
                            rest,
                        ));
                        lemma_prefix_step(p, line);
                    } else {
                        lemma_prefix_step(p, line);
                    }
                }
            }
            assert forall|p: Seq<Move>| #[trigger]
                self.ends_at(p) == mark_after_insert(before.ends_at(p), line, p) by {
                if p.len() > 0 {
                    let q = p.drop_first();
                    lemma_prefix_step(p, line);
                    if p[0] == key {
                        assert(child.ends_at(q) == mark_after_insert(
                            child_cleared.ends_at(q),
                            rest,
                            q,
                        ));
                        if q == rest {
                            assert(p =~= line);
                        }
                    }
                }
            }
        }
    }

    /// A copy of the tree.
    pub fn duplicate(&self) -> (r: Node)
        ensures
            r.same_as(*self),
        decreases self,
    {
        let mut children: Vec<(Move, Node)> = Vec::new();
        let mut i: usize = 0;
        while i < self.children.len()
            invariant
                i <= self.children.len(),
                children@.len() == i,
                forall|j: int|
                    0 <= j < i ==> (#[trigger] children@[j]).0 == self.children@[j].0
                        && children@[j].1.same_as(self.children@[j].1),
            decreases self.children.len() - i,
        {
            proof {
                self.lemma_entries_decrease(i as int);
            }
            let copy = self.children[i].1.duplicate();
            children.push((self.children[i].0, copy));
            i += 1;
        }
        Node { children, is_end: self.is_end }
    }
}

proof fn lemma_prefix_step(p: Seq<Move>, line: Seq<Move>)
    requires
        p.len() > 0,
    ensures
        p.is_prefix_of(line) <==> line.len() > 0 && p[0] == line[0] && p.drop_first().is_prefix_of(
            line.drop_first(),
        ),
{
    if line.len() > 0 && p[0] == line[0] && p.drop_first().is_prefix_of(line.drop_first()) {
        let q = p.drop_first();
        let rest = line.drop_first();
        assert forall|i: int| 0 <= i < p.len() implies p[i] == line[i] by {
            if i > 0 {
                assert(q[i - 1] == rest[i - 1]);
            }
        }
    }
}

impl Node {
    /// Trees that are the same have the same children under the same moves.
    pub proof fn lemma_same_child(self, other: Node, m: Move)
        requires
            self.same_as(other),
        ensures
            match (self.child(m), other.child(m)) {
                (Some(a), Some(b)) => a.same_as(b),
                (None, None) => true,
                _ => false,
            },
    {
        self.lemma_same_find(other, m, 0);
        lemma_find_from_range(self.entries(), m, 0);
    }

    proof fn lemma_same_find(self, other: Node, m: Move, from: int)
        requires
            self.same_as(other),
            0 <= from,
        ensures
            find_from(self.entries(), m, from) == find_from(other.entries(), m, from),
        decreases self.entries().len() - from,
    {
        if from < self.entries().len() {
            if self.entries()[from].0 != m {
                self.lemma_same_find(other, m, from + 1);
            }
        }
    }

    /// Trees that are the same hold the same lines.
    pub proof fn lemma_same_lines(self, other: Node, path: Seq<Move>)
        requires
            self.same_as(other),
        ensures
            self.has_path(path) == other.has_path(path),
            self.ends_at(path) == other.ends_at(path),
        decreases path.len(),
    {
        if path.len() > 0 {
            self.lemma_same_child(other, path[0]);
            match (self.child(path[0]), other.child(path[0])) {
                (Some(a), Some(b)) => {
                    a.lemma_same_lines(b, path.drop_first());
                },
                _ => {},
            }
        }
    }
}

/// A prefix tree of lines of moves, with a root that moves down the tree as the moves of
/// a game are played.
#[derive(Debug)]
pub struct Trie {
    root: Node,
}

impl Default for Trie {
    fn default() -> (r: Self)
        ensures
            r.tree().entries().len() == 0,
            !r.tree().terminal(),
    {
        Self { root: Node::default() }
    }
}

impl Clone for Trie {
    fn clone(&self) -> (r: Self)
        ensures
            r.tree().same_as(self.tree()),
    {
        Self { root: self.root.duplicate() }
    }
}

impl Trie {
    /// The tree below the current root.
    pub closed spec fn tree(self) -> Node {
        self.root
    }

    /// Whether a line ends at the current root.
    pub fn is_end(&self) -> (r: bool)
        ensures
            r == self.tree().terminal(),
    {
        self.root.is_end
    }

    /// Adds a line. Every move of the line can then be followed from the root, and the
    /// line ends where its last move leads; the nodes it passes on the way end no line.
    pub fn insert(&mut self, items: &[Move])
        ensures
            forall|p: Seq<Move>| #[trigger]
                final(self).tree().has_path(p) <==> old(self).tree().has_path(p) || p.is_prefix_of(
                    items@,
                ),
            forall|p: Seq<Move>| #[trigger]
                final(self).tree().ends_at(p) == mark_after_insert(
                    old(self).tree().ends_at(p),
                    items@,
                    p,
                ),
    {
        assert(items@.skip(0) =~= items@);
        self.root.insert_from(items, 0);
    }

    /// Whether the root has a child under `needle`.
    pub fn child_exits(&self, needle: &Move) -> (r: bool)
        ensures
            r == self.tree().child(*needle).is_some(),
    {
        self.root.find(needle).is_some()
    }

    /// Moves the root to its child under `new_root_value`, if it has one, and says
    /// whether it had.
    pub fn change_root(&mut self, new_root_value: Move) -> (r: bool)
        ensures
            r == old(self).tree().child(new_root_value).is_some(),
            final(self).tree() == match old(self).tree().child(new_root_value) {
                Some(c) => c,
                None => old(self).tree(),
            },
    {
        match self.root.find(&new_root_value) {
            Some(i) => {
                let entry = self.root.children.remove(i);
                self.root = entry.1;
                true
            },
            None => false,
        }
    }

    /// Whether `items` is a line of the tree: its moves can be followed from the root and
    /// a line ends there.
    pub fn search(&self, items: &[Move]) -> (r: bool)
        ensures
            r == self.tree().ends_at(items@),
    {
        let mut current = &self.root;
        let mut i: usize = 0;
        assert(items@.skip(0) =~= items@);
        while i < items.len()
            invariant
                i <= items@.len(),
                self.tree().ends_at(items@) == current.ends_at(items@.skip(i as int)),
            decreases items@.len() - i,
        {
            assert(items@.skip(i as int).drop_first() =~= items@.skip(i + 1));
            match current.get(&items[i]) {
                Some(node) => {
                    current = node;
                },
                None => {
                    return false;
                },
            }
            i += 1;
        }
        current.is_end
    }

    /// The current root.
    pub fn root(&self) -> (r: &Node)
        ensures
            *r == self.tree(),
    {
        &self.root
    }

    /// The move under which the root got its first child, if it has a child.
    pub fn first_key(&self) -> (r: Option<Move>)
        ensures
            r == if self.tree().entries().len() > 0 {
                Some(self.tree().entries()[0].0)
            } else {
                None::<Move>
            },
            r matches Some(m) ==> self.tree().child(m).is_some(),
    {
        if self.root.children.len() > 0 {
            Some(self.root.children[0].0)
        } else {
            None
        }
    }

    /// Whether the root has no child.
    pub fn is_leaf(&self) -> (r: bool)
        ensures
            r == (self.tree().entries().len() == 0),
    {
        self.root.children.len() == 0
    }
}

/// The white space before a line of a printed tree: two spaces for each level.
pub open spec fn indent(level: nat) -> Seq<char> {
    Seq::new(2 * level, |i: int| ' ')
}

/// The level below `level`. The levels end where the machine's numbers do.
pub open spec fn level_below(level: nat) -> nat {
    if level < usize::MAX {
        level + 1
    } else {
        level
    }
}

/// The lines of a printed tree: the node's name after its indent, the mark `[END]` if a
/// line ends at the node, and then the children, each under the text of its move and one
/// level deeper.
pub open spec fn printed(node: Node, name: Seq<char>, level: nat) -> Seq<Seq<char>>
    decreases node, node.entries().len() + 1,
{
    seq![indent(level) + name] + (if node.terminal() {
        seq![indent(level) + "[END]"@]
    } else {
        Seq::empty()
    }) + printed_children(node, 0, level_below(level))
}

/// The lines of the children of a node from number `i` on.
pub open spec fn printed_children(node: Node, i: nat, level: nat) -> Seq<Seq<char>>
    decreases node, node.entries().len() - i,
{
    if i >= node.entries().len() {
        Seq::empty()
    } else {
        printed(node.entries()[i as int].1, node.entries()[i as int].0.text(), level)
            + printed_children(node, i + 1, level)
    }
}

impl Node {
    /// Adds the lines of the printed tree to `out`.
    pub fn pprint(&self, prefix: &str, level: usize, out: &mut Vec<String>)
        ensures
            texts(final(out)@) == texts(old(out)@) + printed(*self, prefix@, level as nat),
        decreases self, self.entries().len() + 2,
    {
        let mut head = String::new();
        let mut n: usize = 0;
        proof {
            reveal_strlit("  ");
        }
        while n < level
            invariant
                n <= level,
                head@ == indent(n as nat),
                "  "@ == seq![' ', ' '],
            decreases level - n,
        {
            head.append("  ");
            n += 1;
        }
        let mut first = head.clone();
        first.append(prefix);
        out.push(first);
        if self.is_end {
            let mut mark = head.clone();
            mark.append("[END]");
            out.push(mark);
        }
        let ghost start = texts(out@);
        let below: usize = if level < usize::MAX {
            level + 1
        } else {
            level
        };
        let mut i: usize = 0;
        while i < self.children.len()
            invariant
                i <= self.children.len(),
                below == level_below(level as nat),
                texts(out@) + printed_children(*self, i as nat, below as nat) == start
                    + printed_children(*self, 0, below as nat),
            decreases self.children.len() - i,
        {
            proof {
                self.lemma_entries_decrease(i as int);
            }
            let name = self.children[i].0.to_uci();
            self.children[i].1.pprint(name.as_str(), below, out);
            i += 1;
        }
    }
}

/// The lines that list the children of a node from number `i` on: for each child the
/// letter `a`, the prefix and the text of the child's move.
pub open spec fn listed(node: Node, prefix: Seq<char>, i: nat) -> Seq<Seq<char>>
    decreases node.entries().len() - i,
{
    if i >= node.entries().len() {
        Seq::empty()
    } else {
        seq![seq!['a'] + prefix + node.entries()[i as int].0.text()] + listed(node, prefix, i + 1)
    }
}

impl Node {
    /// The lines that list the children of the node.
    pub fn print(&self, prefix: &str) -> (lines: Vec<String>)
        ensures
            texts(lines@) == listed(*self, prefix@, 0),
    {
        let mut lines: Vec<String> = Vec::new();
        let mut i: usize = 0;
        proof {
            reveal_strlit("a");
        }
        while i < self.children.len()
            invariant
                i <= self.children.len(),
                "a"@ == seq!['a'],
                texts(lines@) + listed(*self, prefix@, i as nat) == listed(*self, prefix@, 0),
            decreases self.children.len() - i,
        {
            let mut line = String::from_str("a");
            line.append(prefix);
            line.append(self.children[i].0.to_uci().as_str());
            lines.push(line);
            i += 1;
        }
        lines
    }
}

impl Trie {
    /// The lines of the printed tree below the root.
    pub fn print(&self) -> (lines: Vec<String>)
        ensures
            texts(lines@) == printed(self.tree(), Seq::empty(), 0),
    {
        let mut lines: Vec<String> = Vec::new();
        proof {
            reveal_strlit("");
        }
        self.root.pprint("", 0, &mut lines);
        lines
    }
}

} // verus!
