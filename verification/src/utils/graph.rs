use vstd::prelude::*;

verus! {

/// A node of a graph with its optional data.
pub struct GraphNode<TNodeData> {
    pub id: u64,
    pub data: Option<TNodeData>,
}

impl<TNodeData> GraphNode<TNodeData> {
    pub fn new(id: u64, data: Option<TNodeData>) -> (res: Self)
        ensures
            res.id == id,
            res.data == data,
    {
        Self { id, data }
    }

    pub fn id(&self) -> (res: &u64)
        ensures
            *res == self.id,
    {
        &self.id
    }

    pub fn data(&self) -> (res: Option<&TNodeData>)
        ensures
            res == opt_ref(&self.data),
    {
        match &self.data {
            Some(data) => Some(data),
            None => None,
        }
    }
}

/// An edge from `from_node` to `to_node` with its optional data.
pub struct GraphEdge<TEdgeData> {
    pub from_node: u64,
    pub to_node: u64,
    pub data: Option<TEdgeData>,
}

impl<TEdgeData> GraphEdge<TEdgeData> {
    pub fn new(from_node: u64, to_node: u64, data: Option<TEdgeData>) -> (res: Self)
        ensures
            res.from_node == from_node,
            res.to_node == to_node,
            res.data == data,
    {
        Self { from_node, to_node, data }
    }
}

/// A reference to the content of an option.
pub open spec fn opt_ref<T>(o: &Option<T>) -> Option<&T> {
    match o {
        Some(x) => Some(x),
        None => None,
    }
}

/// The outgoing edges of one node: the target of each and its data.
pub type Connections<TEdgeData> = Vec<(u64, Option<TEdgeData>)>;

/// A directed graph. Node ids come from `next_id`, which advances by one
/// at each new node. `connections` lists, for the nodes that have
/// had outgoing edges, the targets of those edges.
pub struct Graph<TNodeData, TEdgeData> {
    pub nodes: Vec<GraphNode<TNodeData>>,
    pub connections: Vec<(u64, Connections<TEdgeData>)>,
    pub next_id: u64,
}

pub type DefaultGraph = Graph<String, String>;

/// Whether some edge of the list ends at `to`.
pub open spec fn targets_contain<E>(edges: Seq<(u64, Option<E>)>, to: u64) -> bool {
    exists|l: int| 0 <= l < edges.len() && edges[l].0 == to
}

/// The edges of one list, with references to their data.
pub open spec fn list_edges<'a, E>(first: u64, list: Seq<(u64, Option<E>)>) -> Seq<GraphEdge<&'a E>> {
    list.map_values(|e: (u64, Option<E>)| GraphEdge { from_node: first, to_node: e.0, data: opt_ref(&e.1) })
}

/// The edges of all lists, list after list.
pub open spec fn edges_of<'a, E>(conns: Seq<(u64, Seq<(u64, Option<E>)>)>) -> Seq<GraphEdge<&'a E>>
    decreases conns.len(),
{
    if conns.len() == 0 {
        Seq::empty()
    } else {
        edges_of(conns.drop_last()) + list_edges(conns.last().0, conns.last().1)
    }
}

/// Some edge of the sequence goes from `a` to `b`.
pub open spec fn has_edge<T>(edges: Seq<GraphEdge<T>>, a: u64, b: u64) -> bool {
    exists|i: int| 0 <= i < edges.len() && edges[i].from_node == a && edges[i].to_node == b
}

/// The edges of all lists hold an edge from `a` to `b` exactly when `a`'s
/// list has an edge to `b`.
pub proof fn lemma_edges_of_members<E>(conns: Seq<(u64, Seq<(u64, Option<E>)>)>)
    ensures
        forall|a: u64, b: u64| #[trigger] has_edge(edges_of::<E>(conns), a, b)
            <==> exists|k: int| 0 <= k < conns.len() && conns[k].0 == a && targets_contain(conns[k].1, b),
    decreases conns.len(),
{
    if conns.len() > 0 {
        let rest = conns.drop_last();
        lemma_edges_of_members::<E>(rest);
        let front = edges_of::<E>(rest);
        let last = list_edges::<E>(conns.last().0, conns.last().1);
        let all = edges_of::<E>(conns);
        assert(all == front + last);
        assert(conns[conns.len() - 1] == conns.last());
        assert forall|a: u64, b: u64| #[trigger] has_edge(all, a, b)
            <==> exists|k: int| 0 <= k < conns.len() && conns[k].0 == a && targets_contain(conns[k].1, b) by {
            if has_edge(all, a, b) {
                let i = choose|i: int| 0 <= i < all.len() && all[i].from_node == a && all[i].to_node == b;
                if i < front.len() {
                    assert(all[i] == front[i]);
                    assert(has_edge(front, a, b));
                    let k = choose|k: int| 0 <= k < rest.len() && rest[k].0 == a && targets_contain(rest[k].1, b);
                    assert(conns[k] == rest[k]);
                } else {
                    let l = i - front.len();
                    assert(all[i] == last[l]);
                    assert(conns.last().1[l].0 == b);
                    assert(targets_contain(conns.last().1, b));
                }
            }
            if exists|k: int| 0 <= k < conns.len() && conns[k].0 == a && targets_contain(conns[k].1, b) {
                let k = choose|k: int| 0 <= k < conns.len() && conns[k].0 == a && targets_contain(conns[k].1, b);
                if k < rest.len() {
                    assert(rest[k] == conns[k]);
                    assert(has_edge(front, a, b));
                    let i = choose|i: int| 0 <= i < front.len() && front[i].from_node == a && front[i].to_node == b;
                    assert(all[i] == front[i]);
                } else {
                    let l = choose|l: int| 0 <= l < conns.last().1.len() && conns.last().1[l].0 == b;
                    assert(all[front.len() + l] == last[l]);
                }
            }
        }
    }
}

/// The targets in the first list of edges of `node` (none if it has no list).
pub open spec fn targets_of<E>(conns: Seq<(u64, Seq<(u64, Option<E>)>)>, node: u64) -> Seq<u64>
    decreases conns.len(),
{
    if conns.len() == 0 {
        Seq::empty()
    } else if conns[0].0 == node {
        conns[0].1.map_values(|e: (u64, Option<E>)| e.0)
    } else {
        targets_of(conns.drop_first(), node)
    }
}

/// The sources of lists that contain an edge to `node`, in order.
pub open spec fn sources_to<E>(conns: Seq<(u64, Seq<(u64, Option<E>)>)>, node: u64) -> Seq<u64>
    decreases conns.len(),
{
    if conns.len() == 0 {
        Seq::empty()
    } else if targets_contain(conns.last().1, node) {
        sources_to(conns.drop_last(), node).push(conns.last().0)
    } else {
        sources_to(conns.drop_last(), node)
    }
}

/// The sources of lists that contain an edge to their own source, in order.
pub open spec fn self_loop_sources<E>(conns: Seq<(u64, Seq<(u64, Option<E>)>)>) -> Seq<u64>
    decreases conns.len(),
{
    if conns.len() == 0 {
        Seq::empty()
    } else if targets_contain(conns.last().1, conns.last().0) {
        self_loop_sources(conns.drop_last()).push(conns.last().0)
    } else {
        self_loop_sources(conns.drop_last())
    }
}

/// The ids that a sequence of references points at.
pub open spec fn ref_ids(v: Seq<&u64>) -> Seq<u64> {
    v.map_values(|x: &u64| *x)
}

/// A node is among `sources_to(conns, node)` exactly when it is the source of
/// a list with an edge to `node`; with no source listed twice, none is there
/// twice.
pub proof fn lemma_sources_to_members<E>(conns: Seq<(u64, Seq<(u64, Option<E>)>)>, node: u64)
    ensures
        forall|a: u64| #[trigger] sources_to(conns, node).contains(a)
            <==> exists|k: int| 0 <= k < conns.len() && conns[k].0 == a && targets_contain(conns[k].1, node),
        (forall|i: int, j: int| 0 <= i < j < conns.len() ==> conns[i].0 != conns[j].0) ==> sources_to(conns, node).no_duplicates(),
    decreases conns.len(),
{
    if conns.len() > 0 {
        let rest = conns.drop_last();
        lemma_sources_to_members(rest, node);
        let before = sources_to(rest, node);
        assert forall|a: u64| #[trigger] sources_to(conns, node).contains(a)
            <==> exists|k: int| 0 <= k < conns.len() && conns[k].0 == a && targets_contain(conns[k].1, node) by {
            if sources_to(conns, node).contains(a) {
                if before.contains(a) {
                    let k = choose|k: int| 0 <= k < rest.len() && rest[k].0 == a && targets_contain(rest[k].1, node);
                    assert(conns[k] == rest[k]);
                } else {
                    assert(a == conns.last().0);
                    assert(conns[conns.len() - 1] == conns.last());
                }
            }
            if exists|k: int| 0 <= k < conns.len() && conns[k].0 == a && targets_contain(conns[k].1, node) {
                let k = choose|k: int| 0 <= k < conns.len() && conns[k].0 == a && targets_contain(conns[k].1, node);
                if k < rest.len() {
                    assert(rest[k] == conns[k]);
                    assert(before.contains(a));
                    if targets_contain(conns.last().1, node) {
                        assert(sources_to(conns, node) == before.push(conns.last().0));
                        let w = choose|w: int| 0 <= w < before.len() && before[w] == a;
                        assert(sources_to(conns, node)[w] == a);
                    }
                } else {
                    assert(sources_to(conns, node) == before.push(conns.last().0));
                    assert(sources_to(conns, node)[before.len() as int] == a);
                }
            }
        }
        if forall|i: int, j: int| 0 <= i < j < conns.len() ==> conns[i].0 != conns[j].0 {
            assert forall|i: int, j: int| 0 <= i < j < rest.len() implies rest[i].0 != rest[j].0 by {
                assert(rest[i] == conns[i] && rest[j] == conns[j]);
            }
            if targets_contain(conns.last().1, node) {
                let last = conns.last().0;
                assert(!before.contains(last)) by {
                    if before.contains(last) {
                        let k = choose|k: int| 0 <= k < rest.len() && rest[k].0 == last && targets_contain(rest[k].1, node);
                        assert(conns[k].0 == conns[conns.len() - 1].0);
                    }
                }
                let after = before.push(last);
                assert forall|i: int, j: int| 0 <= i < after.len() && 0 <= j < after.len() && i != j implies after[i] != after[j] by {
                    if i < before.len() && j < before.len() {
                    } else if i < before.len() {
                        assert(before.contains(before[i]));
                    } else {
                        assert(before.contains(before[j]));
                    }
                }
            }
        }
    }
}

/// A node is among `self_loop_sources(conns)` exactly when it is the source
/// of a list with an edge to itself.
pub proof fn lemma_self_loop_sources_members<E>(conns: Seq<(u64, Seq<(u64, Option<E>)>)>)
    ensures
        forall|a: u64| #[trigger] self_loop_sources(conns).contains(a)
            <==> exists|k: int| 0 <= k < conns.len() && conns[k].0 == a && targets_contain(conns[k].1, a),
    decreases conns.len(),
{
    if conns.len() > 0 {
        let rest = conns.drop_last();
        lemma_self_loop_sources_members(rest);
        let before = self_loop_sources(rest);
        assert forall|a: u64| #[trigger] self_loop_sources(conns).contains(a)
            <==> exists|k: int| 0 <= k < conns.len() && conns[k].0 == a && targets_contain(conns[k].1, a) by {
            if self_loop_sources(conns).contains(a) {
                if before.contains(a) {
                    let k = choose|k: int| 0 <= k < rest.len() && rest[k].0 == a && targets_contain(rest[k].1, a);
                    assert(conns[k] == rest[k]);
                } else {
                    assert(a == conns.last().0);
                    assert(conns[conns.len() - 1] == conns.last());
                }
            }
            if exists|k: int| 0 <= k < conns.len() && conns[k].0 == a && targets_contain(conns[k].1, a) {
                let k = choose|k: int| 0 <= k < conns.len() && conns[k].0 == a && targets_contain(conns[k].1, a);
                if k < rest.len() {
                    assert(rest[k] == conns[k]);
                    assert(before.contains(a));
                    if targets_contain(conns.last().1, conns.last().0) {
                        assert(self_loop_sources(conns) == before.push(conns.last().0));
                        let w = choose|w: int| 0 <= w < before.len() && before[w] == a;
                        assert(self_loop_sources(conns)[w] == a);
                    }
                } else {
                    assert(self_loop_sources(conns) == before.push(conns.last().0));
                    assert(self_loop_sources(conns)[before.len() as int] == a);
                }
            }
        }
    }
}

/// Where no source is listed twice, a node is among `targets_of(conns,
/// node)` exactly when the list of `node` has an edge to it, and none is
/// there twice when no list has two edges to the same target.
pub proof fn lemma_targets_of_members<E>(conns: Seq<(u64, Seq<(u64, Option<E>)>)>, node: u64)
    requires
        forall|i: int, j: int| 0 <= i < j < conns.len() ==> conns[i].0 != conns[j].0,
        forall|k: int, a: int, b: int| 0 <= k < conns.len() && 0 <= a < b < conns[k].1.len() ==> conns[k].1[a].0 != conns[k].1[b].0,
    ensures
        forall|b: u64| #[trigger] targets_of(conns, node).contains(b)
            <==> exists|k: int| 0 <= k < conns.len() && conns[k].0 == node && targets_contain(conns[k].1, b),
        targets_of(conns, node).no_duplicates(),
{
    if exists|k: int| 0 <= k < conns.len() && conns[k].0 == node {
        let k = choose|k: int| 0 <= k < conns.len() && conns[k].0 == node;
        assert forall|j: int| 0 <= j < k implies conns[j].0 != node by {
            assert(conns[j].0 != conns[k].0);
        }
        lemma_targets_of_first(conns, node, k);
        let ts = conns[k].1.map_values(|e: (u64, Option<E>)| e.0);
        assert forall|b: u64| #[trigger] targets_of(conns, node).contains(b)
            <==> exists|k2: int| 0 <= k2 < conns.len() && conns[k2].0 == node && targets_contain(conns[k2].1, b) by {
            if targets_of(conns, node).contains(b) {
                let l = choose|l: int| 0 <= l < ts.len() && ts[l] == b;
                assert(conns[k].1[l].0 == b);
            }
            if exists|k2: int| 0 <= k2 < conns.len() && conns[k2].0 == node && targets_contain(conns[k2].1, b) {
                let k2 = choose|k2: int| 0 <= k2 < conns.len() && conns[k2].0 == node && targets_contain(conns[k2].1, b);
                if k2 != k {
                    if k2 < k {
                        assert(conns[k2].0 != conns[k].0);
                    } else {
                        assert(conns[k].0 != conns[k2].0);
                    }
                }
                let l = choose|l: int| 0 <= l < conns[k].1.len() && conns[k].1[l].0 == b;
                assert(ts[l] == b);
            }
        }
        assert forall|i: int, j: int| 0 <= i < ts.len() && 0 <= j < ts.len() && i != j implies ts[i] != ts[j] by {
            if i < j {
                assert(conns[k].1[i].0 != conns[k].1[j].0);
            } else {
                assert(conns[k].1[j].0 != conns[k].1[i].0);
            }
        }
    } else {
        lemma_targets_of_absent(conns, node);
    }
}

proof fn lemma_targets_of_absent<E>(conns: Seq<(u64, Seq<(u64, Option<E>)>)>, node: u64)
    requires
        forall|k: int| 0 <= k < conns.len() ==> conns[k].0 != node,
    ensures
        targets_of(conns, node) == Seq::<u64>::empty(),
    decreases conns.len(),
{
    if conns.len() > 0 {
        lemma_targets_of_absent(conns.drop_first(), node);
    }
}

proof fn lemma_targets_of_first<E>(conns: Seq<(u64, Seq<(u64, Option<E>)>)>, node: u64, k: int)
    requires
        0 <= k < conns.len(),
        conns[k].0 == node,
        forall|j: int| 0 <= j < k ==> conns[j].0 != node,
    ensures
        targets_of(conns, node) == conns[k].1.map_values(|e: (u64, Option<E>)| e.0),
    decreases conns.len(),
{
    if k > 0 {
        lemma_targets_of_first(conns.drop_first(), node, k - 1);
    }
}

impl<TNodeData, TEdgeData> Graph<TNodeData, TEdgeData> {
    /// No two nodes share an id, every id of a node, of a list's source and
    /// of an edge's target is below the next one to hand out, no node has two
    /// lists of edges, and no list has two edges to the same target.
    pub open spec fn wf(&self) -> bool {
        &&& forall|i: int, j: int| 0 <= i < j < self.nodes@.len() ==> self.nodes@[i].id != self.nodes@[j].id
        &&& forall|i: int| 0 <= i < self.nodes@.len() ==> #[trigger] self.nodes@[i].id < self.next_id
        &&& forall|i: int, j: int| 0 <= i < j < self.connections@.len() ==> self.connections@[i].0 != self.connections@[j].0
        &&& forall|k: int, a: int, b: int| 0 <= k < self.connections@.len() && 0 <= a < b < self.connections@[k].1@.len()
            ==> self.connections@[k].1@[a].0 != self.connections@[k].1@[b].0
        &&& forall|k: int| 0 <= k < self.connections@.len() ==> #[trigger] self.connections@[k].0 < self.next_id
        &&& forall|k: int, a: int| 0 <= k < self.connections@.len() && 0 <= a < self.connections@[k].1@.len()
            ==> #[trigger] self.connections@[k].1@[a].0 < self.next_id
    }

    pub open spec fn has_node(&self, id: u64) -> bool {
        exists|i: int| 0 <= i < self.nodes@.len() && self.nodes@[i].id == id
    }

    pub open spec fn has_source(&self, id: u64) -> bool {
        exists|k: int| 0 <= k < self.connections@.len() && self.connections@[k].0 == id
    }

    /// There is an edge from `first` to `second`.
    pub open spec fn connected(&self, first: u64, second: u64) -> bool {
        exists|k: int| 0 <= k < self.connections@.len() && self.connections@[k].0 == first
            && targets_contain(self.connections@[k].1@, second)
    }

    pub fn empty() -> (res: Self)
        ensures
            res.wf(),
            res.nodes@.len() == 0,
            res.connections@.len() == 0,
            res.next_id == 0,
    {
        Self { connections: Vec::new(), nodes: Vec::new(), next_id: 0 }
    }

    pub(crate) fn node_index(&self, id: u64) -> (res: Option<usize>)
        ensures
            match res {
                Some(i) => i < self.nodes@.len() && self.nodes@[i as int].id == id,
                None => !self.has_node(id),
            },
    {
        let mut i: usize = 0;
        while i < self.nodes.len()
            invariant
                i <= self.nodes@.len(),
                forall|j: int| 0 <= j < i ==> self.nodes@[j].id != id,
            decreases self.nodes@.len() - i,
        {
            if self.nodes[i].id == id {
                return Some(i);
            }
            i = i + 1;
        }
        None
    }

    pub(crate) fn source_index(&self, id: u64) -> (res: Option<usize>)
        ensures
            match res {
                Some(k) => k < self.connections@.len() && self.connections@[k as int].0 == id,
                None => !self.has_source(id),
            },
    {
        let mut k: usize = 0;
        while k < self.connections.len()
            invariant
                k <= self.connections@.len(),
                forall|j: int| 0 <= j < k ==> self.connections@[j].0 != id,
            decreases self.connections@.len() - k,
        {
            if self.connections[k].0 == id {
                return Some(k);
            }
            k = k + 1;
        }
        None
    }

    pub(crate) fn target_index(edges: &Connections<TEdgeData>, to: u64) -> (res: Option<usize>)
        ensures
            match res {
                Some(l) => l < edges@.len() && edges@[l as int].0 == to,
                None => !targets_contain(edges@, to),
            },
    {
        let mut l: usize = 0;
        while l < edges.len()
            invariant
                l <= edges@.len(),
                forall|j: int| 0 <= j < l ==> edges@[j].0 != to,
            decreases edges@.len() - l,
        {
            if edges[l].0 == to {
                return Some(l);
            }
            l = l + 1;
        }
        None
    }

    /// The node with the given id.
    pub fn node(&self, id: &u64) -> (res: Option<&GraphNode<TNodeData>>)
        ensures
            match res {
                Some(node) => exists|i: int| 0 <= i < self.nodes@.len() && self.nodes@[i] == *node && node.id == *id,
                None => !self.has_node(*id),
            },
    {
        match self.node_index(*id) {
            Some(i) => Some(&self.nodes[i]),
            None => None,
        }
    }

    /// Every node.
    pub fn all_nodes(&self) -> (res: Vec<&GraphNode<TNodeData>>)
        ensures
            res@.len() == self.nodes@.len(),
            forall|i: int| 0 <= i < res@.len() ==> *res@[i] == self.nodes@[i],
    {
        let mut res: Vec<&GraphNode<TNodeData>> = Vec::new();
        let mut i: usize = 0;
        while i < self.nodes.len()
            invariant
                i <= self.nodes@.len(),
                res@.len() == i,
                forall|j: int| 0 <= j < i ==> *res@[j] == self.nodes@[j],
            decreases self.nodes@.len() - i,
        {
            res.push(&self.nodes[i]);
            i = i + 1;
        }
        res
    }

    /// Adds a node with a fresh id and the given data and returns the id.
    /// Ids are handed out one by one from `next_id`; the requires keeps the
    /// counter from running past the largest `u64`.
    pub fn add_node(&mut self, node_data: Option<TNodeData>) -> (res: u64)
        requires
            old(self).wf(),
            old(self).next_id < u64::MAX,
        ensures
            final(self).wf(),
            res == old(self).next_id,
            !old(self).has_node(res),
            final(self).next_id == old(self).next_id + 1,
            final(self).connections == old(self).connections,
            final(self).nodes@ == old(self).nodes@.push(GraphNode { id: res, data: node_data }),
            final(self).has_node(res),
            forall|id: u64| #[trigger] final(self).has_node(id) <==> (old(self).has_node(id) || id == res),
    {
        let ghost old_nodes = self.nodes@;
        let id = self.next_id;
        self.next_id = self.next_id + 1;
        self.nodes.push(GraphNode::new(id, node_data));
        proof {
            assert(self.nodes@[self.nodes@.len() - 1].id == id);
            assert forall|x: u64| #[trigger] self.has_node(x) <==> (old(self).has_node(x) || x == id) by {
                if old(self).has_node(x) {
                    let j = choose|j: int| 0 <= j < old_nodes.len() && old_nodes[j].id == x;
                    assert(self.nodes@[j].id == x);
                }
                if self.has_node(x) {
                    let j = choose|j: int| 0 <= j < self.nodes@.len() && self.nodes@[j].id == x;
                    if j < old_nodes.len() {
                        assert(old_nodes[j].id == x);
                    }
                }
            }
            assert(!old(self).has_node(id)) by {
                if old(self).has_node(id) {
                    let j = choose|j: int| 0 <= j < old_nodes.len() && old_nodes[j].id == id;
                    assert(old_nodes[j].id < old(self).next_id);
                }
            }
        }
        id
    }

    /// Whether there is an edge from the first node to the second.
    pub fn are_nodes_connected(&self, first_node_id: &u64, second_node_id: &u64) -> (res: bool)
        requires
            self.wf(),
        ensures
            res == self.connected(*first_node_id, *second_node_id),
    {
        match self.source_index(*first_node_id) {
            Some(k) => match Self::target_index(&self.connections[k].1, *second_node_id) {
                Some(_) => true,
                None => false,
            },
            None => false,
        }
    }

    /// The lists of outgoing edges, each with its source.
    pub open spec fn conn_view(&self) -> Seq<(u64, Seq<(u64, Option<TEdgeData>)>)> {
        self.connections@.map_values(|c: (u64, Connections<TEdgeData>)| (c.0, c.1@))
    }

    /// Adds an edge from the first node to the second with the given data,
    /// unless they are already connected or one of them is not in the graph.
    pub fn connect_nodes(&mut self, first_node_id: &u64, second_node_id: &u64, edge_data: Option<TEdgeData>)
        requires
            old(self).wf(),
        ensures
            final(self).wf(),
            final(self).nodes == old(self).nodes,
            final(self).next_id == old(self).next_id,
            ({
                let f = *first_node_id;
                let t = *second_node_id;
                if old(self).connected(f, t) || !old(self).has_node(f) || !old(self).has_node(t) {
                    final(self).conn_view() == old(self).conn_view()
                } else if old(self).has_source(f) {
                    exists|k: int| 0 <= k < old(self).connections@.len() && old(self).connections@[k].0 == f
                        && final(self).conn_view() == old(self).conn_view().update(k, (f, old(self).conn_view()[k].1.push((t, edge_data))))
                } else {
                    final(self).conn_view() == old(self).conn_view().push((f, seq![(t, edge_data)]))
                }
            }),
            forall|a: u64, b: u64| #[trigger] final(self).connected(a, b) <==> (old(self).connected(a, b)
                || (a == *first_node_id && b == *second_node_id && old(self).has_node(a) && old(self).has_node(b))),
    {
        let ghost old_view = self.conn_view();
        if self.are_nodes_connected(first_node_id, second_node_id) {
            return;
        }
        if let Some(_) = self.node_index(*first_node_id) {
            if let Some(_) = self.node_index(*second_node_id) {
                match self.source_index(*first_node_id) {
                    Some(k) => {
                        let (source, mut edges) = self.connections.remove(k);
                        let ghost old_edges = edges@;
                        edges.push((*second_node_id, edge_data));
                        self.connections.insert(k, (source, edges));
                        proof {
                            assert(self.conn_view() =~= old_view.update(k as int, (source, old_edges.push((*second_node_id, edge_data)))));
                            self.lemma_connected_after_update(old(self), k as int);
                        }
                    },
                    None => {
                        let mut edges: Connections<TEdgeData> = Vec::new();
                        edges.push((*second_node_id, edge_data));
                        self.connections.push((*first_node_id, edges));
                        proof {
                            assert(self.conn_view() =~= old_view.push((*first_node_id, seq![(*second_node_id, edge_data)])));
                            assert forall|a: u64, b: u64| #[trigger] self.connected(a, b) <==> (old(self).connected(a, b)
                                || (a == *first_node_id && b == *second_node_id)) by {
                                let n = old(self).connections@.len();
                                if old(self).connected(a, b) {
                                    let k = choose|k: int| 0 <= k < n && old(self).connections@[k].0 == a
                                        && targets_contain(old(self).connections@[k].1@, b);
                                    assert(self.connections@[k] == old(self).connections@[k]);
                                }
                                if a == *first_node_id && b == *second_node_id {
                                    assert(self.connections@[n as int].1@[0].0 == b);
                                }
                                if self.connected(a, b) {
                                    let k = choose|k: int| 0 <= k < self.connections@.len() && self.connections@[k].0 == a
                                        && targets_contain(self.connections@[k].1@, b);
                                    if k < n {
                                        assert(self.connections@[k] == old(self).connections@[k]);
                                    } else {
                                        let l = choose|l: int| 0 <= l < self.connections@[k].1@.len() && self.connections@[k].1@[l].0 == b;
                                        assert(l == 0);
                                    }
                                }
                            }
                        }
                    },
                }
            }
        }
    }

    proof fn lemma_connected_after_update(&self, old_graph: &Self, k: int)
        requires
            old_graph.wf(),
            0 <= k < old_graph.connections@.len(),
            self.connections@.len() == old_graph.connections@.len(),
            self.connections@[k].0 == old_graph.connections@[k].0,
            forall|j: int| 0 <= j < self.connections@.len() && j != k ==> self.connections@[j] == old_graph.connections@[j],
            self.connections@[k].1@.len() == old_graph.connections@[k].1@.len() + 1,
            forall|l: int| 0 <= l < old_graph.connections@[k].1@.len() ==> self.connections@[k].1@[l] == old_graph.connections@[k].1@[l],
            !targets_contain(old_graph.connections@[k].1@, self.connections@[k].1@.last().0),
            self.connections@[k].1@.last().0 < self.next_id,
            self.nodes == old_graph.nodes,
            self.next_id == old_graph.next_id,
        ensures
            self.wf(),
            forall|a: u64, b: u64| #[trigger] self.connected(a, b) <==> (old_graph.connected(a, b)
                || (a == self.connections@[k].0 && b == self.connections@[k].1@.last().0)),
    {
        let n = old_graph.connections@[k].1@.len();
        assert forall|j: int, a: int, b: int| 0 <= j < self.connections@.len() && 0 <= a < b < self.connections@[j].1@.len()
            implies self.connections@[j].1@[a].0 != self.connections@[j].1@[b].0 by {
            if j == k && b == n {
                assert(old_graph.connections@[k].1@[a].0 == self.connections@[k].1@[a].0);
            }
        }
        assert forall|j: int| 0 <= j < self.connections@.len() implies #[trigger] self.connections@[j].0 < self.next_id by {
            if j != k {
                assert(self.connections@[j] == old_graph.connections@[j]);
            }
        }
        assert forall|j: int, a: int| 0 <= j < self.connections@.len() && 0 <= a < self.connections@[j].1@.len()
            implies #[trigger] self.connections@[j].1@[a].0 < self.next_id by {
            if j != k {
                assert(self.connections@[j] == old_graph.connections@[j]);
            } else if a < n {
                assert(self.connections@[k].1@[a] == old_graph.connections@[k].1@[a]);
            }
        }
        assert forall|a: u64, b: u64| #[trigger] self.connected(a, b) <==> (old_graph.connected(a, b)
            || (a == self.connections@[k].0 && b == self.connections@[k].1@.last().0)) by {
            if old_graph.connected(a, b) {
                let j = choose|j: int| 0 <= j < old_graph.connections@.len() && old_graph.connections@[j].0 == a
                    && targets_contain(old_graph.connections@[j].1@, b);
                let l = choose|l: int| 0 <= l < old_graph.connections@[j].1@.len() && old_graph.connections@[j].1@[l].0 == b;
                assert(self.connections@[j].1@[l].0 == b);
            }
            if a == self.connections@[k].0 && b == self.connections@[k].1@.last().0 {
                assert(self.connections@[k].1@[n as int].0 == b);
            }
            if self.connected(a, b) {
                let j = choose|j: int| 0 <= j < self.connections@.len() && self.connections@[j].0 == a
                    && targets_contain(self.connections@[j].1@, b);
                let l = choose|l: int| 0 <= l < self.connections@[j].1@.len() && self.connections@[j].1@[l].0 == b;
                if j != k {
                    assert(old_graph.connections@[j].1@[l].0 == b);
                } else if l < n {
                    assert(old_graph.connections@[k].1@[l].0 == b);
                }
            }
        }
    }

    /// Removes the edge from the first node to the second; whether there was one.
    pub fn disconnect_nodes(&mut self, first_node_id: &u64, second_node_id: &u64) -> (res: bool)
        requires
            old(self).wf(),
        ensures
            final(self).wf(),
            final(self).nodes == old(self).nodes,
            final(self).next_id == old(self).next_id,
            res == old(self).connected(*first_node_id, *second_node_id),
            !res ==> final(self).conn_view() == old(self).conn_view(),
            res ==> exists|k: int, l: int| 0 <= k < old(self).connections@.len() && old(self).connections@[k].0 == *first_node_id
                && 0 <= l < old(self).connections@[k].1@.len() && old(self).connections@[k].1@[l].0 == *second_node_id
                && final(self).conn_view() == old(self).conn_view().update(k, (*first_node_id, old(self).conn_view()[k].1.remove(l))),
            forall|a: u64, b: u64| #[trigger] final(self).connected(a, b) <==> (old(self).connected(a, b)
                && !(a == *first_node_id && b == *second_node_id)),
    {
        let ghost old_view = self.conn_view();
        match self.source_index(*first_node_id) {
            Some(k) => {
                match Self::target_index(&self.connections[k].1, *second_node_id) {
                    Some(l) => {
                        let (source, mut edges) = self.connections.remove(k);
                        let ghost old_edges = edges@;
                        edges.remove(l);
                        self.connections.insert(k, (source, edges));
                        proof {
                            assert(old_view[k as int].1 == old_edges);
                            assert(self.conn_view() =~= old_view.update(k as int, (source, old_edges.remove(l as int))));
                            assert forall|j: int, a: int, b: int| 0 <= j < self.connections@.len() && 0 <= a < b < self.connections@[j].1@.len()
                                implies self.connections@[j].1@[a].0 != self.connections@[j].1@[b].0 by {
                                if j == k {
                                    let a0 = if a < l as int { a } else { a + 1 };
                                    let b0 = if b < l as int { b } else { b + 1 };
                                    assert(self.connections@[k as int].1@[a] == old_edges[a0]);
                                    assert(self.connections@[k as int].1@[b] == old_edges[b0]);
                                }
                            }
                            assert forall|a: u64, b: u64| #[trigger] self.connected(a, b) <==> (old(self).connected(a, b)
                                && !(a == *first_node_id && b == *second_node_id)) by {
                                if old(self).connected(a, b) && !(a == *first_node_id && b == *second_node_id) {
                                    let j = choose|j: int| 0 <= j < old(self).connections@.len() && old(self).connections@[j].0 == a
                                        && targets_contain(old(self).connections@[j].1@, b);
                                    let m = choose|m: int| 0 <= m < old(self).connections@[j].1@.len() && old(self).connections@[j].1@[m].0 == b;
                                    if j == k {
                                        assert(m != l as int);
                                        let m1 = if m < l as int { m } else { m - 1 };
                                        assert(self.connections@[k as int].1@[m1].0 == b);
                                    } else {
                                        assert(self.connections@[j].1@[m].0 == b);
                                    }
                                }
                                if self.connected(a, b) {
                                    let j = choose|j: int| 0 <= j < self.connections@.len() && self.connections@[j].0 == a
                                        && targets_contain(self.connections@[j].1@, b);
                                    let m = choose|m: int| 0 <= m < self.connections@[j].1@.len() && self.connections@[j].1@[m].0 == b;
                                    if j == k {
                                        let m0 = if m < l as int { m } else { m + 1 };
                                        assert(old_edges[m0].0 == b);
                                        assert(m0 != l as int);
                                    } else {
                                        assert(old(self).connections@[j].1@[m].0 == b);
                                    }
                                }
                            }
                        }
                        true
                    },
                    None => false,
                }
            },
            None => false,
        }
    }

    /// Every edge, with references to its data, list after list.
    pub fn all_edges(&self) -> (res: Vec<GraphEdge<&TEdgeData>>)
        ensures
            res@ == edges_of(self.conn_view()),
            forall|a: u64, b: u64| #![trigger has_edge(res@, a, b)] #![trigger self.connected(a, b)]
                has_edge(res@, a, b) <==> self.connected(a, b),
    {
        proof {
            let cv = self.conn_view();
            lemma_edges_of_members::<TEdgeData>(cv);
            assert forall|a: u64, b: u64| #[trigger] has_edge(edges_of::<TEdgeData>(cv), a, b) <==> self.connected(a, b) by {
                if has_edge(edges_of::<TEdgeData>(cv), a, b) {
                    let k = choose|k: int| 0 <= k < cv.len() && cv[k].0 == a && targets_contain(cv[k].1, b);
                    assert(self.connections@[k].0 == a && targets_contain(self.connections@[k].1@, b));
                }
                if self.connected(a, b) {
                    let k = choose|k: int| 0 <= k < self.connections@.len() && self.connections@[k].0 == a
                        && targets_contain(self.connections@[k].1@, b);
                    assert(cv[k].0 == a && targets_contain(cv[k].1, b));
                }
            }
        }
        let mut edges: Vec<GraphEdge<&TEdgeData>> = Vec::new();
        let mut k: usize = 0;
        while k < self.connections.len()
            invariant
                k <= self.connections@.len(),
                edges@ == edges_of(self.conn_view().take(k as int)),
            decreases self.connections@.len() - k,
        {
            let first = self.connections[k].0;
            let list = &self.connections[k].1;
            let ghost base = edges@;
            let mut l: usize = 0;
            while l < list.len()
                invariant
                    l <= list@.len(),
                    list@ == self.conn_view()[k as int].1,
                    first == self.conn_view()[k as int].0,
                    edges@ == base + list_edges(first, list@.take(l as int)),
                decreases list@.len() - l,
            {
                let data = match &list[l].1 {
                    Some(d) => Some(d),
                    None => None,
                };
                edges.push(GraphEdge::new(first, list[l].0, data));
                proof {
                    assert(list@.take(l + 1).drop_last() =~= list@.take(l as int));
                    assert(list_edges(first, list@.take(l + 1)) =~= list_edges(first, list@.take(l as int)).push(
                        GraphEdge { from_node: first, to_node: list@[l as int].0, data: opt_ref(&list@[l as int].1) }));
                }
                l = l + 1;
            }
            proof {
                assert(list@.take(l as int) =~= list@);
                assert(self.conn_view().take(k + 1).drop_last() =~= self.conn_view().take(k as int));
            }
            k = k + 1;
        }
        proof {
            assert(self.conn_view().take(k as int) =~= self.conn_view());
        }
        edges
    }

    /// The targets of the node's outgoing edges, then every node that has an
    /// edge to itself.
    pub fn all_connected_nodes(&self, node_id: &u64) -> (res: Vec<&u64>)
        requires
            self.wf(),
        ensures
            res@.map_values(|x: &u64| *x) == targets_of(self.conn_view(), *node_id) + self_loop_sources(self.conn_view()),
            forall|x: u64| #![trigger ref_ids(res@).contains(x)]
                ref_ids(res@).contains(x) <==> (self.connected(*node_id, x) || self.connected(x, x)),
    {
        proof {
            self.lemma_targets_of_connected(*node_id);
            let cv = self.conn_view();
            lemma_self_loop_sources_members(cv);
            assert forall|x: u64| #[trigger] self_loop_sources(cv).contains(x) <==> self.connected(x, x) by {
                if self_loop_sources(cv).contains(x) {
                    let k = choose|k: int| 0 <= k < cv.len() && cv[k].0 == x && targets_contain(cv[k].1, x);
                    assert(self.connections@[k].0 == x && targets_contain(self.connections@[k].1@, x));
                }
                if self.connected(x, x) {
                    let k = choose|k: int| 0 <= k < self.connections@.len() && self.connections@[k].0 == x
                        && targets_contain(self.connections@[k].1@, x);
                    assert(cv[k].0 == x && targets_contain(cv[k].1, x));
                }
            }
        }
        let mut connected_nodes = self.outgoing_nodes(node_id);
        let ghost first = connected_nodes@.map_values(|x: &u64| *x);
        let mut k: usize = 0;
        while k < self.connections.len()
            invariant
                k <= self.connections@.len(),
                connected_nodes@.map_values(|x: &u64| *x) == first + self_loop_sources(self.conn_view().take(k as int)),
            decreases self.connections@.len() - k,
        {
            let ghost before = connected_nodes@;
            let candidate = &self.connections[k].0;
            proof {
                assert(self.conn_view().take(k + 1).drop_last() =~= self.conn_view().take(k as int));
            }
            if let Some(_) = Self::target_index(&self.connections[k].1, *candidate) {
                connected_nodes.push(candidate);
                proof {
                    assert(connected_nodes@.map_values(|x: &u64| *x) =~= before.map_values(|x: &u64| *x).push(*candidate));
                }
            }
            proof {
                assert(connected_nodes@.map_values(|x: &u64| *x) =~= first + self_loop_sources(self.conn_view().take(k + 1)));
            }
            k = k + 1;
        }
        proof {
            assert(self.conn_view().take(k as int) =~= self.conn_view());
            let t = targets_of(self.conn_view(), *node_id);
            let l = self_loop_sources(self.conn_view());
            assert forall|x: u64| #[trigger] (t + l).contains(x) <==> (t.contains(x) || l.contains(x)) by {
                if (t + l).contains(x) {
                    let w = choose|w: int| 0 <= w < (t + l).len() && (t + l)[w] == x;
                    if w >= t.len() {
                        assert(l[w - t.len()] == x);
                    }
                }
                if t.contains(x) {
                    let w = choose|w: int| 0 <= w < t.len() && t[w] == x;
                    assert((t + l)[w] == x);
                }
                if l.contains(x) {
                    let w = choose|w: int| 0 <= w < l.len() && l[w] == x;
                    assert((t + l)[t.len() + w] == x);
                }
            }
        }
        connected_nodes
    }

    /// The targets of the node's outgoing edges.
    pub fn outgoing_nodes(&self, node_id: &u64) -> (res: Vec<&u64>)
        requires
            self.wf(),
        ensures
            res@.map_values(|x: &u64| *x) == targets_of(self.conn_view(), *node_id),
            forall|b: u64| #![trigger ref_ids(res@).contains(b)] #![trigger self.connected(*node_id, b)]
                ref_ids(res@).contains(b) <==> self.connected(*node_id, b),
            ref_ids(res@).no_duplicates(),
    {
        proof {
            self.lemma_targets_of_connected(*node_id);
        }
        match self.source_index(*node_id) {
            None => {
                proof {
                    lemma_targets_of_absent(self.conn_view(), *node_id);
                }
                Vec::new()
            },
            Some(k) => {
                let list = &self.connections[k].1;
                let mut res: Vec<&u64> = Vec::new();
                let mut l: usize = 0;
                while l < list.len()
                    invariant
                        l <= list@.len(),
                        res@.map_values(|x: &u64| *x) == list@.take(l as int).map_values(|e: (u64, Option<TEdgeData>)| e.0),
                    decreases list@.len() - l,
                {
                    let ghost before = res@;
                    res.push(&list[l].0);
                    proof {
                        assert(res@.map_values(|x: &u64| *x) =~= before.map_values(|x: &u64| *x).push(list@[l as int].0));
                        assert(list@.take(l + 1).drop_last() =~= list@.take(l as int));
                        assert(res@.map_values(|x: &u64| *x) =~= list@.take(l + 1).map_values(|e: (u64, Option<TEdgeData>)| e.0));
                    }
                    l = l + 1;
                }
                proof {
                    assert(list@.take(l as int) =~= list@);
                    assert forall|j: int| 0 <= j < k implies self.conn_view()[j].0 != *node_id by {
                        assert(self.connections@[j].0 != self.connections@[k as int].0);
                    }
                    lemma_targets_of_first(self.conn_view(), *node_id, k as int);
                }
                res
            },
        }
    }

    /// A node is among the sources of edges into `node` exactly when it has
    /// an edge to `node`; in a well-formed graph none is there twice.
    pub proof fn lemma_sources_to_connected(&self, node: u64)
        ensures
            forall|a: u64| #[trigger] sources_to(self.conn_view(), node).contains(a) <==> self.connected(a, node),
            self.wf() ==> sources_to(self.conn_view(), node).no_duplicates(),
    {
        let cv = self.conn_view();
        lemma_sources_to_members(cv, node);
        assert forall|a: u64| #[trigger] sources_to(cv, node).contains(a) <==> self.connected(a, node) by {
            if sources_to(cv, node).contains(a) {
                let k = choose|k: int| 0 <= k < cv.len() && cv[k].0 == a && targets_contain(cv[k].1, node);
                assert(self.connections@[k].0 == a && targets_contain(self.connections@[k].1@, node));
            }
            if self.connected(a, node) {
                let k = choose|k: int| 0 <= k < self.connections@.len() && self.connections@[k].0 == a
                    && targets_contain(self.connections@[k].1@, node);
                assert(cv[k].0 == a && targets_contain(cv[k].1, node));
            }
        }
        if self.wf() {
            assert forall|i: int, j: int| 0 <= i < j < cv.len() implies cv[i].0 != cv[j].0 by {
                assert(self.connections@[i].0 != self.connections@[j].0);
            }
        }
    }

    /// In a well-formed graph, a node is among the targets of the edges out
    /// of `node` exactly when `node` has an edge to it, and none is there
    /// twice.
    pub proof fn lemma_targets_of_connected(&self, node: u64)
        requires
            self.wf(),
        ensures
            forall|b: u64| #[trigger] targets_of(self.conn_view(), node).contains(b) <==> self.connected(node, b),
            targets_of(self.conn_view(), node).no_duplicates(),
    {
        let cv = self.conn_view();
        assert forall|i: int, j: int| 0 <= i < j < cv.len() implies cv[i].0 != cv[j].0 by {
            assert(self.connections@[i].0 != self.connections@[j].0);
        }
        assert forall|k: int, a: int, b: int| 0 <= k < cv.len() && 0 <= a < b < cv[k].1.len() implies cv[k].1[a].0 != cv[k].1[b].0 by {
            assert(self.connections@[k].1@[a].0 != self.connections@[k].1@[b].0);
        }
        lemma_targets_of_members(cv, node);
        assert forall|b: u64| #[trigger] targets_of(cv, node).contains(b) <==> self.connected(node, b) by {
            if targets_of(cv, node).contains(b) {
                let k = choose|k: int| 0 <= k < cv.len() && cv[k].0 == node && targets_contain(cv[k].1, b);
                assert(self.connections@[k].0 == node && targets_contain(self.connections@[k].1@, b));
            }
            if self.connected(node, b) {
                let k = choose|k: int| 0 <= k < self.connections@.len() && self.connections@[k].0 == node
                    && targets_contain(self.connections@[k].1@, b);
                assert(cv[k].0 == node && targets_contain(cv[k].1, b));
            }
        }
    }

    /// The nodes that have an edge to the given node.
    pub fn incoming_edges(&self, node_id: &u64) -> (res: Vec<&u64>)
        ensures
            res@.map_values(|x: &u64| *x) == sources_to(self.conn_view(), *node_id),
            forall|a: u64| #![trigger ref_ids(res@).contains(a)] #![trigger self.connected(a, *node_id)]
                ref_ids(res@).contains(a) <==> self.connected(a, *node_id),
            self.wf() ==> ref_ids(res@).no_duplicates(),
    {
        proof {
            self.lemma_sources_to_connected(*node_id);
        }
        let mut result: Vec<&u64> = Vec::new();
        let mut k: usize = 0;
        while k < self.connections.len()
            invariant
                k <= self.connections@.len(),
                result@.map_values(|x: &u64| *x) == sources_to(self.conn_view().take(k as int), *node_id),
            decreases self.connections@.len() - k,
        {
            let ghost before = result@;
            proof {
                assert(self.conn_view().take(k + 1).drop_last() =~= self.conn_view().take(k as int));
            }
            if let Some(_) = Self::target_index(&self.connections[k].1, *node_id) {
                result.push(&self.connections[k].0);
                proof {
                    assert(result@.map_values(|x: &u64| *x) =~= before.map_values(|x: &u64| *x).push(self.connections@[k as int].0));
                }
            }
            proof {
                assert(result@.map_values(|x: &u64| *x) =~= sources_to(self.conn_view().take(k + 1), *node_id));
            }
            k = k + 1;
        }
        proof {
            assert(self.conn_view().take(k as int) =~= self.conn_view());
        }
        result
    }
}

} // verus!
