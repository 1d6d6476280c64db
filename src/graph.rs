//! A directed graph grown node by node, walked breadth first from its first node.
use vstd::prelude::*;

verus! {

pub type NodeIndex = usize;

/// A node and what it holds.
pub struct Node<T> {
    content: T,
}

impl<T> Node<T> {
    /// What the node holds.
    pub closed spec fn spec_content(&self) -> T {
        self.content
    }

    pub fn new(content: T) -> (r: Self)
        ensures
            r.spec_content() == content,
    {
        Node { content }
    }

    pub fn content(&self) -> (r: &T)
        ensures
            *r == self.spec_content(),
    {
        &self.content
    }
}

/// The edges that leave one node, in the order they were added.
pub struct Edge {
    next_edges: Vec<NodeIndex>,
}

impl Edge {
    /// The targets of the edges.
    pub closed spec fn targets(&self) -> Seq<NodeIndex> {
        self.next_edges@
    }
}

impl Default for Edge {
    fn default() -> (r: Self)
        ensures
            r.targets() == Seq::<NodeIndex>::empty(),
    {
        Edge { next_edges: Vec::new() }
    }
}

/// The targets of the edges that leave the nodes of `frontier`, node after
/// node, each node's edges in the order they were added.
pub open spec fn expand(succ: Seq<Seq<NodeIndex>>, frontier: Seq<NodeIndex>) -> Seq<NodeIndex>
    decreases frontier.len(),
{
    if frontier.len() == 0 {
        Seq::empty()
    } else {
        expand(succ, frontier.drop_last()) + succ[frontier.last() as int]
    }
}

/// The last node of each path of exactly `d` edges from node 0, one entry
/// per path, in the order a first-in first-out queue meets them.
pub open spec fn level(succ: Seq<Seq<NodeIndex>>, d: nat) -> Seq<NodeIndex>
    decreases d,
{
    if d == 0 {
        seq![0]
    } else {
        expand(succ, level(succ, (d - 1) as nat))
    }
}

/// The levels below `d`, one after the other.
pub open spec fn levels_before(succ: Seq<Seq<NodeIndex>>, d: nat) -> Seq<NodeIndex>
    decreases d,
{
    if d == 0 {
        Seq::empty()
    } else {
        levels_before(succ, (d - 1) as nat) + level(succ, (d - 1) as nat)
    }
}

/// No path from node 0 has `n` edges: in a graph of `n` nodes, no cycle can
/// be reached from node 0.
pub open spec fn no_cycle_from_root(succ: Seq<Seq<NodeIndex>>, n: nat) -> bool {
    level(succ, n).len() == 0
}

/// The breadth-first walk from node 0 of a graph with `n` nodes: every node
/// that ends a path from node 0, once per such path, shorter paths first.
pub open spec fn bfs_walk(succ: Seq<Seq<NodeIndex>>, n: nat) -> Seq<NodeIndex> {
    if n == 0 {
        Seq::empty()
    } else {
        levels_before(succ, n)
    }
}

/// Past an empty level every level is empty, and adds nothing to the walk.
proof fn lemma_empty_levels(succ: Seq<Seq<NodeIndex>>, d: nat, k: nat)
    requires
        level(succ, d).len() == 0,
    ensures
        level(succ, d + k).len() == 0,
        levels_before(succ, d + k) == levels_before(succ, d),
    decreases k,
{
    if k > 0 {
        lemma_empty_levels(succ, d, (k - 1) as nat);
        let l = level(succ, (d + k - 1) as nat);
        assert(l =~= Seq::<NodeIndex>::empty());
        assert(expand(succ, l) == Seq::<NodeIndex>::empty());
        assert(levels_before(succ, d + k) =~= levels_before(succ, (d + k - 1) as nat) + l);
    }
}

/// A directed graph whose nodes are numbered in the order they were added.
pub struct Graph<T> {
    nodes: Vec<Node<T>>,
    edges: Vec<Edge>,
    bfs_traversal: Option<Vec<NodeIndex>>,
    walked_graph: Ghost<Seq<Seq<NodeIndex>>>,
}

impl<T> Default for Graph<T> {
    fn default() -> (r: Self)
        ensures
            r.well_formed(),
            r.node_count() == 0,
            r.contents() == Seq::<T>::empty(),
            r.successors() == Seq::<Seq<NodeIndex>>::empty(),
            r.cached_traversal() is None,
    {
        let r = Graph {
            nodes: Vec::new(),
            edges: Vec::new(),
            bfs_traversal: None,
            walked_graph: Ghost(Seq::empty()),
        };
        assert(r.contents() =~= Seq::<T>::empty());
        assert(r.successors() =~= Seq::<Seq<NodeIndex>>::empty());
        r
    }
}

impl<T> Graph<T> {
    /// The number of nodes.
    pub open spec fn node_count(&self) -> nat {
        self.contents().len()
    }

    /// What the nodes hold, by index.
    pub closed spec fn contents(&self) -> Seq<T> {
        self.nodes@.map_values(|n: Node<T>| n.content)
    }

    /// The targets of the edges that leave each node, by index.
    pub closed spec fn successors(&self) -> Seq<Seq<NodeIndex>> {
        self.edges@.map_values(|e: Edge| e.next_edges@)
    }

    /// The walk kept from the first call of `bfs`, if any. It is kept as it
    /// was, whatever nodes and edges were added since.
    pub closed spec fn cached_traversal(&self) -> Option<Seq<NodeIndex>> {
        match self.bfs_traversal {
            Some(t) => Some(t@),
            None => None,
        }
    }

    /// The successor lists of the graph as it stood when the kept walk was
    /// made.
    pub closed spec fn walked_successors(&self) -> Seq<Seq<NodeIndex>> {
        self.walked_graph@
    }

    /// Every edge joins two nodes of the graph, and a kept walk is the walk
    /// of the graph as it stood when it was made, and names nodes of the
    /// graph.
    pub closed spec fn well_formed(&self) -> bool {
        &&& self.nodes@.len() == self.edges@.len()
        &&& forall|i: int, k: int|
            0 <= i < self.edges@.len() && 0 <= k < self.edges@[i].next_edges@.len()
                ==> #[trigger] self.edges@[i].next_edges@[k] < self.nodes@.len()
        &&& self.bfs_traversal matches Some(t) ==> forall|i: int|
            0 <= i < t@.len() ==> #[trigger] t@[i] < self.nodes@.len()
        &&& self.bfs_traversal matches Some(t) ==> t@ == bfs_walk(
            self.walked_graph@,
            self.walked_graph@.len(),
        )
    }

    /// A well-formed graph holds one list of successors per node, and a kept
    /// walk names nodes of the graph.
    pub proof fn lemma_sizes(&self)
        requires
            self.well_formed(),
        ensures
            self.successors().len() == self.node_count(),
            forall|i: int, k: int|
                0 <= i < self.node_count() && 0 <= k < self.successors()[i].len()
                    ==> #[trigger] self.successors()[i][k] < self.node_count(),
            self.cached_traversal() matches Some(t) ==> forall|i: int|
                0 <= i < t.len() ==> #[trigger] t[i] < self.node_count(),
            self.cached_traversal() matches Some(t) ==> t == bfs_walk(
                self.walked_successors(),
                self.walked_successors().len(),
            ),
    {
        assert forall|i: int, k: int|
            0 <= i < self.node_count() && 0 <= k < self.successors()[i].len()
                implies #[trigger] self.successors()[i][k] < self.node_count() by {
            assert(self.successors()[i] == self.edges@[i].next_edges@);
        }
    }

    pub fn len(&self) -> (r: usize)
        ensures
            r == self.node_count(),
    {
        self.nodes.len()
    }

    pub fn is_empty(&self) -> (r: bool)
        ensures
            r == (self.node_count() == 0),
    {
        self.len() == 0
    }

    /// The node at `index`, if there is one.
    pub fn get_node(&self, index: NodeIndex) -> (r: Option<&Node<T>>)
        ensures
            index < self.node_count() ==> (r matches Some(node) && node.spec_content()
                == self.contents()[index as int]),
            index >= self.node_count() ==> r is None,
    {
        if index < self.nodes.len() {
            Some(&self.nodes[index])
        } else {
            None
        }
    }

    /// Adds a node without edges and returns its index.
    pub fn add_node(&mut self, node: Node<T>) -> (r: NodeIndex)
        requires
            old(self).well_formed(),
        ensures
            final(self).well_formed(),
            r == old(self).node_count(),
            final(self).contents() == old(self).contents().push(node.spec_content()),
            final(self).successors() == old(self).successors().push(Seq::<NodeIndex>::empty()),
            final(self).cached_traversal() == old(self).cached_traversal(),
            final(self).walked_successors() == old(self).walked_successors(),
    {
        let index = self.nodes.len();
        self.nodes.push(node);
        self.edges.push(Edge::default());
        assert(self.contents() =~= old(self).contents().push(node.spec_content()));
        assert(self.successors() =~= old(self).successors().push(Seq::<NodeIndex>::empty()));
        assert forall|i: int, k: int|
            0 <= i < self.edges@.len() && 0 <= k < self.edges@[i].next_edges@.len()
                implies #[trigger] self.edges@[i].next_edges@[k] < self.nodes@.len() by {
            if i < index {
                assert(self.edges@[i] == old(self).edges@[i]);
            }
        }
        index
    }

    /// Adds an edge from `source` to `target` where both are nodes of the
    /// graph; otherwise leaves the graph as it is.
    pub fn add_edge(&mut self, source: NodeIndex, target: NodeIndex)
        requires
            old(self).well_formed(),
        ensures
            final(self).well_formed(),
            final(self).contents() == old(self).contents(),
            final(self).cached_traversal() == old(self).cached_traversal(),
            final(self).walked_successors() == old(self).walked_successors(),
            source < old(self).node_count() && target < old(self).node_count()
                ==> final(self).successors() == old(self).successors().update(
                source as int,
                old(self).successors()[source as int].push(target),
            ),
            !(source < old(self).node_count() && target < old(self).node_count()) ==> *final(self)
                == *old(self),
    {
        if source >= self.nodes.len() || target >= self.nodes.len() {
            return;
        }
        let mut edge = self.edges.remove(source);
        edge.next_edges.push(target);
        self.edges.insert(source, edge);
        assert(self.successors() =~= old(self).successors().update(
            source as int,
            old(self).successors()[source as int].push(target),
        ));
        assert(self.contents() =~= old(self).contents());
        assert forall|i: int, k: int|
            0 <= i < self.edges@.len() && 0 <= k < self.edges@[i].next_edges@.len()
                implies #[trigger] self.edges@[i].next_edges@[k] < self.nodes@.len() by {
            if i != source {
                assert(self.edges@[i] == old(self).edges@[i]);
            } else if k < old(self).edges@[i].next_edges@.len() {
                assert(self.edges@[i].next_edges@[k] == old(self).edges@[i].next_edges@[k]);
            }
        }
    }

    /// Walks the graph breadth first from node 0, one level of paths at a time.
    fn walk(&self) -> (r: Vec<NodeIndex>)
        requires
            self.well_formed(),
            no_cycle_from_root(self.successors(), self.node_count()),
        ensures
            r@ == bfs_walk(self.successors(), self.node_count()),
            forall|i: int| 0 <= i < r@.len() ==> #[trigger] r@[i] < self.node_count(),
    {
        let n = self.nodes.len();
        let mut traversal: Vec<NodeIndex> = Vec::new();
        if n == 0 {
            return traversal;
        }
        let ghost succ = self.successors();
        proof {
            self.lemma_sizes();
        }
        let mut frontier: Vec<NodeIndex> = Vec::new();
        frontier.push(0);
        assert(frontier@ =~= level(succ, 0));
        let mut depth: usize = 0;
        while frontier.len() > 0
            invariant
                self.well_formed(),
                succ == self.successors(),
                n == self.node_count(),
                n > 0,
                succ.len() == n,
                forall|i: int, k: int|
                    0 <= i < n && 0 <= k < succ[i].len() ==> #[trigger] succ[i][k] < n,
                level(succ, n as nat).len() == 0,
                depth <= n,
                frontier@ == level(succ, depth as nat),
                traversal@ == levels_before(succ, depth as nat),
                forall|i: int| 0 <= i < frontier@.len() ==> #[trigger] frontier@[i] < n,
                forall|i: int| 0 <= i < traversal@.len() ==> #[trigger] traversal@[i] < n,
            decreases n - depth,
        {
            assert(depth != n);
            let mut next: Vec<NodeIndex> = Vec::new();
            let mut i: usize = 0;
            let ghost walked = traversal@;
            assert(frontier@.take(0) =~= Seq::<NodeIndex>::empty());
            assert(walked + frontier@.take(0) =~= walked);
            while i < frontier.len()
                invariant
                    self.well_formed(),
                    succ == self.successors(),
                    n == self.node_count(),
                    succ.len() == n,
                    forall|a: int, k: int|
                        0 <= a < n && 0 <= k < succ[a].len() ==> #[trigger] succ[a][k] < n,
                    i <= frontier@.len(),
                    forall|a: int| 0 <= a < frontier@.len() ==> #[trigger] frontier@[a] < n,
                    forall|a: int| 0 <= a < walked.len() ==> #[trigger] walked[a] < n,
                    next@ == expand(succ, frontier@.take(i as int)),
                    traversal@ == walked + frontier@.take(i as int),
                    forall|a: int| 0 <= a < next@.len() ==> #[trigger] next@[a] < n,
                decreases frontier@.len() - i,
            {
                let v = frontier[i];
                traversal.push(v);
                let targets = &self.edges[v].next_edges;
                assert(targets@ == succ[v as int]);
                let ghost before = next@;
                let mut k: usize = 0;
                while k < targets.len()
                    invariant
                        targets@ == succ[v as int],
                        v < n,
                        forall|a: int, kk: int|
                            0 <= a < n && 0 <= kk < succ[a].len() ==> #[trigger] succ[a][kk] < n,
                        k <= targets@.len(),
                        next@ == before + targets@.take(k as int),
                        forall|a: int| 0 <= a < next@.len() ==> #[trigger] next@[a] < n,
                        forall|a: int| 0 <= a < before.len() ==> #[trigger] before[a] < n,
                    decreases targets@.len() - k,
                {
                    assert(succ[v as int][k as int] < n);
                    next.push(targets[k]);
                    k = k + 1;
                    assert(next@ =~= before + targets@.take(k as int));
                }
                proof {
                    assert(targets@.take(k as int) =~= targets@);
                    let f = frontier@.take(i as int + 1);
                    assert(f.drop_last() =~= frontier@.take(i as int));
                    assert(f.last() == v);
                    assert(traversal@ =~= walked + f);
                }
                i = i + 1;
            }
            proof {
                assert(frontier@.take(i as int) =~= frontier@);
                assert(levels_before(succ, (depth + 1) as nat) == levels_before(succ, depth as nat)
                    + level(succ, depth as nat));
            }
            frontier = next;
            depth = depth + 1;
        }
        proof {
            lemma_empty_levels(succ, depth as nat, (n - depth) as nat);
        }
        traversal
    }

    /// The breadth-first walk from node 0. The first call walks the graph and
    /// keeps the walk; later calls return the kept walk, even where nodes or
    /// edges were added since. A walk needs the part of the graph reachable
    /// from node 0 to be free of cycles: otherwise it would never end.
    pub fn bfs(&mut self) -> (r: &Vec<NodeIndex>)
        requires
            old(self).well_formed(),
            old(self).cached_traversal() is None ==> no_cycle_from_root(
                old(self).successors(),
                old(self).node_count(),
            ),
        ensures
            final(self).well_formed(),
            final(self).contents() == old(self).contents(),
            final(self).successors() == old(self).successors(),
            final(self).cached_traversal() == Some(r@),
            old(self).cached_traversal() is Some ==> old(self).cached_traversal() == Some(r@),
            old(self).cached_traversal() is None ==> r@ == bfs_walk(
                old(self).successors(),
                old(self).node_count(),
            ),
            old(self).cached_traversal() is None ==> final(self).walked_successors()
                == old(self).successors(),
    {
        if self.bfs_traversal.is_none() {
            let traversal = self.walk();
            proof {
                self.lemma_sizes();
            }
            self.walked_graph = Ghost(self.successors());
            self.bfs_traversal = Some(traversal);
        }
        self.bfs_traversal.as_ref().unwrap()
    }

    /// The entries of the walk of `bfs` whose node has no outgoing edge now,
    /// in the order of the walk.
    pub fn leafs(&mut self) -> (r: Vec<NodeIndex>)
        requires
            old(self).well_formed(),
            old(self).cached_traversal() is None ==> no_cycle_from_root(
                old(self).successors(),
                old(self).node_count(),
            ),
        ensures
            final(self).well_formed(),
            final(self).contents() == old(self).contents(),
            final(self).successors() == old(self).successors(),
            old(self).cached_traversal() is Some ==> old(self).cached_traversal()
                == final(self).cached_traversal(),
            old(self).cached_traversal() is None ==> final(self).cached_traversal() == Some(
                bfs_walk(old(self).successors(), old(self).node_count()),
            ),
            final(self).cached_traversal() matches Some(t) && r@ == t.filter(
                |v: NodeIndex| final(self).successors()[v as int].len() == 0,
            ),
    {
        let walk = self.bfs();
        let mut order: Vec<NodeIndex> = Vec::new();
        let mut i: usize = 0;
        while i < walk.len()
            invariant
                i <= walk@.len(),
                order@ == walk@.take(i as int),
            decreases walk@.len() - i,
        {
            order.push(walk[i]);
            i = i + 1;
            assert(order@ =~= walk@.take(i as int));
        }
        assert(walk@.take(i as int) =~= walk@);
        proof {
            self.lemma_sizes();
        }
        let ghost succ = self.successors();
        let ghost leaf = |v: NodeIndex| succ[v as int].len() == 0;
        let mut r: Vec<NodeIndex> = Vec::new();
        let mut j: usize = 0;
        while j < order.len()
            invariant
                self.well_formed(),
                succ == self.successors(),
                forall|a: int| 0 <= a < order@.len() ==> #[trigger] order@[a] < self.node_count(),
                j <= order@.len(),
                leaf == (|v: NodeIndex| succ[v as int].len() == 0),
                r@ == order@.take(j as int).filter(leaf),
            decreases order@.len() - j,
        {
            let v = order[j];
            proof {
                assert(order@.take(j as int + 1) =~= order@.take(j as int).push(v));
                order@.take(j as int).lemma_filter_push(v, leaf);
            }
            if self.is_leaf(v) {
                r.push(v);
            }
            j = j + 1;
        }
        assert(order@.take(j as int) =~= order@);
        r
    }

    /// Whether no edge leaves node `index`.
    fn is_leaf(&self, index: NodeIndex) -> (r: bool)
        requires
            self.well_formed(),
            index < self.node_count(),
        ensures
            r == (self.successors()[index as int].len() == 0),
    {
        self.edges[index].next_edges.len() == 0
    }
}

} // verus!
