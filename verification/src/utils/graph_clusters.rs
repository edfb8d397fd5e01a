use vstd::prelude::*;

use super::graph::{opt_ref, targets_contain, Connections, Graph, GraphNode};

verus! {

/// The data of the edge from `a` to `b`, when there is one.
pub open spec fn edge_data<N, E>(g: Graph<N, E>, a: u64, b: u64) -> Option<E> {
    let k = choose|k: int| 0 <= k < g.connections@.len() && g.connections@[k].0 == a && targets_contain(g.connections@[k].1@, b);
    let l = choose|l: int| 0 <= l < g.connections@[k].1@.len() && g.connections@[k].1@[l].0 == b;
    g.connections@[k].1@[l].1
}

/// The data of the node, when there is one.
pub open spec fn node_data<N, E>(g: Graph<N, E>, id: u64) -> Option<N> {
    g.nodes@[choose|i: int| 0 <= i < g.nodes@.len() && g.nodes@[i].id == id].data
}

/// The data of the cluster's nodes, in the cluster's order.
pub open spec fn cluster_node_data<'a, N, E>(g: Graph<N, E>, cluster: Seq<u64>) -> Seq<Option<&'a N>> {
    Seq::new(cluster.len(), |i: int| opt_ref(&node_data(g, cluster[i])))
}

/// The data of the edges from `a` into the cluster, in the cluster's order.
pub open spec fn incoming_data<'a, N, E>(g: Graph<N, E>, cluster: Seq<u64>, a: u64) -> Seq<Option<&'a E>>
    decreases cluster.len(),
{
    if cluster.len() == 0 {
        Seq::empty()
    } else if g.connected(a, cluster.last()) {
        incoming_data(g, cluster.drop_last(), a).push(opt_ref(&edge_data(g, a, cluster.last())))
    } else {
        incoming_data(g, cluster.drop_last(), a)
    }
}

/// The data of the edges from the cluster to `b`, in the cluster's order.
pub open spec fn outgoing_data<'a, N, E>(g: Graph<N, E>, cluster: Seq<u64>, b: u64) -> Seq<Option<&'a E>>
    decreases cluster.len(),
{
    if cluster.len() == 0 {
        Seq::empty()
    } else if g.connected(cluster.last(), b) {
        outgoing_data(g, cluster.drop_last(), b).push(opt_ref(&edge_data(g, cluster.last(), b)))
    } else {
        outgoing_data(g, cluster.drop_last(), b)
    }
}

/// `result` is a result that the merger may give for a vector with the data.
pub open spec fn merged_from<'a, E, G: Fn(&Vec<Option<&'a E>>) -> Option<E>>(merger: G, data: Seq<Option<&'a E>>, result: Option<E>) -> bool {
    exists|v: Vec<Option<&'a E>>| v@ == data && #[trigger] merger.ensures((&v,), result)
}

/// The ids that the entries are for.
pub open spec fn entry_ids<E>(entries: Seq<(u64, Option<E>)>) -> Set<u64> {
    Set::new(|a: u64| exists|i: int| 0 <= i < entries.len() && #[trigger] entries[i].0 == a)
}

/// The nodes outside the cluster with edges into it, among the first `j` nodes.
pub open spec fn entering_nodes<N, E>(g: Graph<N, E>, cluster: Seq<u64>, j: int) -> Set<u64> {
    Set::new(|a: u64| (exists|m: int| 0 <= m < j && #[trigger] g.nodes@[m].id == a) && !cluster.contains(a) && enters_cluster(g, cluster, a))
}

/// `a` has an edge into the cluster.
pub open spec fn enters_cluster<N, E>(g: Graph<N, E>, cluster: Seq<u64>, a: u64) -> bool {
    exists|i: int| 0 <= i < cluster.len() && g.connected(a, #[trigger] cluster[i])
}

/// Some node of the cluster has an edge to `b`.
pub open spec fn leaves_cluster<N, E>(g: Graph<N, E>, cluster: Seq<u64>, b: u64) -> bool {
    exists|i: int| 0 <= i < cluster.len() && g.connected(#[trigger] cluster[i], b)
}

/// The edges after the cluster became the node `n`: the edges between nodes
/// outside the cluster stay; an edge leaves `n` for each node that the
/// cluster has edges to, and one enters `n` from each node with edges into
/// the cluster.
pub open spec fn merged_connected<N, E>(g: Graph<N, E>, cluster: Seq<u64>, n: u64, a: u64, b: u64) -> bool {
    ||| (g.connected(a, b) && !cluster.contains(a) && !cluster.contains(b))
    ||| (a == n && !cluster.contains(b) && leaves_cluster(g, cluster, b))
    ||| (b == n && !cluster.contains(a) && g.has_node(a) && enters_cluster(g, cluster, a))
}

impl<TNodeData, TEdgeData> Graph<TNodeData, TEdgeData> {
    /// In a well-formed graph the edge data found by position is the edge's data.
    proof fn lemma_edge_data(&self, k: int, l: int)
        requires
            self.wf(),
            0 <= k < self.connections@.len(),
            0 <= l < self.connections@[k].1@.len(),
        ensures
            self.connected(self.connections@[k].0, self.connections@[k].1@[l].0),
            edge_data(*self, self.connections@[k].0, self.connections@[k].1@[l].0) == self.connections@[k].1@[l].1,
    {
        let a = self.connections@[k].0;
        let b = self.connections@[k].1@[l].0;
        assert(targets_contain(self.connections@[k].1@, b));
        let k2 = choose|k2: int| 0 <= k2 < self.connections@.len() && self.connections@[k2].0 == a && targets_contain(self.connections@[k2].1@, b);
        assert(k2 == k) by {
            if k2 < k {
                assert(self.connections@[k2].0 != self.connections@[k].0);
            }
            if k < k2 {
                assert(self.connections@[k].0 != self.connections@[k2].0);
            }
        }
        let l2 = choose|l2: int| 0 <= l2 < self.connections@[k].1@.len() && self.connections@[k].1@[l2].0 == b;
        assert(l2 == l) by {
            if l2 < l {
                assert(self.connections@[k].1@[l2].0 != self.connections@[k].1@[l].0);
            }
            if l < l2 {
                assert(self.connections@[k].1@[l].0 != self.connections@[k].1@[l2].0);
            }
        }
    }

    /// In a well-formed graph the node found by id has the node's data.
    proof fn lemma_node_data(&self, i: int)
        requires
            self.wf(),
            0 <= i < self.nodes@.len(),
        ensures
            node_data(*self, self.nodes@[i].id) == self.nodes@[i].data,
    {
        let id = self.nodes@[i].id;
        let j = choose|j: int| 0 <= j < self.nodes@.len() && self.nodes@[j].id == id;
        if j < i {
            assert(self.nodes@[j].id != self.nodes@[i].id);
        }
        if i < j {
            assert(self.nodes@[i].id != self.nodes@[j].id);
        }
    }
}

/// Whether the ids hold `x`.
fn contains_id(ids: &Vec<u64>, x: u64) -> (res: bool)
    ensures
        res == ids@.contains(x),
{
    let mut i: usize = 0;
    while i < ids.len()
        invariant
            i <= ids@.len(),
            forall|j: int| 0 <= j < i ==> ids@[j] != x,
        decreases ids@.len() - i,
    {
        if ids[i] == x {
            return true;
        }
        i = i + 1;
    }
    false
}

/// The data of the edges from `a` into the cluster: for each node of the
/// cluster that `a` has an edge to, in the cluster's order, the data of that
/// edge.
pub proof fn lemma_incoming_data_filter<N, E>(g: Graph<N, E>, cluster: Seq<u64>, a: u64)
    ensures
        incoming_data(g, cluster, a)
            == cluster.filter(|x: u64| g.connected(a, x)).map_values(|x: u64| opt_ref::<E>(&edge_data(g, a, x))),
    decreases cluster.len(),
{
    reveal(Seq::filter);
    if cluster.len() > 0 {
        lemma_incoming_data_filter::<N, E>(g, cluster.drop_last(), a);
        let p = |x: u64| g.connected(a, x);
        let f = |x: u64| opt_ref::<E>(&edge_data(g, a, x));
        let rest = cluster.drop_last().filter(p);
        assert(cluster.filter(p) == (if p(cluster.last()) { rest.push(cluster.last()) } else { rest }));
        if p(cluster.last()) {
            assert(rest.push(cluster.last()).map_values(f) =~= rest.map_values(f).push(f(cluster.last())));
        }
    }
}

/// The data of the edges from the cluster to `b`: for each node of the
/// cluster that has an edge to `b`, in the cluster's order, the data of that
/// edge.
pub proof fn lemma_outgoing_data_filter<N, E>(g: Graph<N, E>, cluster: Seq<u64>, b: u64)
    ensures
        outgoing_data(g, cluster, b)
            == cluster.filter(|x: u64| g.connected(x, b)).map_values(|x: u64| opt_ref::<E>(&edge_data(g, x, b))),
    decreases cluster.len(),
{
    reveal(Seq::filter);
    if cluster.len() > 0 {
        lemma_outgoing_data_filter::<N, E>(g, cluster.drop_last(), b);
        let p = |x: u64| g.connected(x, b);
        let f = |x: u64| opt_ref::<E>(&edge_data(g, x, b));
        let rest = cluster.drop_last().filter(p);
        assert(cluster.filter(p) == (if p(cluster.last()) { rest.push(cluster.last()) } else { rest }));
        if p(cluster.last()) {
            assert(rest.push(cluster.last()).map_values(f) =~= rest.map_values(f).push(f(cluster.last())));
        }
    }
}

proof fn lemma_incoming_data_len<N, E>(g: Graph<N, E>, cluster: Seq<u64>, a: u64)
    ensures
        (incoming_data(g, cluster, a).len() > 0) == enters_cluster(g, cluster, a),
    decreases cluster.len(),
{
    if cluster.len() > 0 {
        lemma_incoming_data_len(g, cluster.drop_last(), a);
        if enters_cluster(g, cluster, a) && !g.connected(a, cluster.last()) {
            let i = choose|i: int| 0 <= i < cluster.len() && g.connected(a, #[trigger] cluster[i]);
            assert(cluster.drop_last()[i] == cluster[i]);
        }
        if enters_cluster(g, cluster.drop_last(), a) {
            let i = choose|i: int| 0 <= i < cluster.drop_last().len() && g.connected(a, #[trigger] cluster.drop_last()[i]);
            assert(cluster[i] == cluster.drop_last()[i]);
        }
        if g.connected(a, cluster.last()) {
            assert(g.connected(a, cluster[cluster.len() - 1]));
        }
    }
}

impl<TNodeData, TEdgeData> Graph<TNodeData, TEdgeData> {
    /// In a well-formed graph, `a`'s list is the `k`-th: `a` is connected to
    /// the targets of that list and to nothing else.
    proof fn lemma_connected_by_list(&self, k: int, b: u64)
        requires
            self.wf(),
            0 <= k < self.connections@.len(),
        ensures
            self.connected(self.connections@[k].0, b) == targets_contain(self.connections@[k].1@, b),
    {
        let a = self.connections@[k].0;
        if self.connected(a, b) {
            let k2 = choose|k2: int| 0 <= k2 < self.connections@.len() && self.connections@[k2].0 == a
                && targets_contain(self.connections@[k2].1@, b);
            if k2 < k {
                assert(self.connections@[k2].0 != self.connections@[k].0);
            }
            if k < k2 {
                assert(self.connections@[k].0 != self.connections@[k2].0);
            }
        }
    }

    /// The data of the edges of the `k`-th list into the cluster, in the cluster's order.
    fn edges_into_cluster<'a>(&'a self, k: usize, cluster_nodes: &Vec<u64>) -> (res: Vec<Option<&'a TEdgeData>>)
        requires
            self.wf(),
            k < self.connections@.len(),
        ensures
            res@ == incoming_data(*self, cluster_nodes@, self.connections@[k as int].0),
    {
        let list = &self.connections[k].1;
        let ghost a = self.connections@[k as int].0;
        let mut edges: Vec<Option<&TEdgeData>> = Vec::new();
        let mut q: usize = 0;
        proof {
            assert(cluster_nodes@.take(0) =~= Seq::<u64>::empty());
        }
        while q < cluster_nodes.len()
            invariant
                q <= cluster_nodes@.len(),
                self.wf(),
                k < self.connections@.len(),
                *list == self.connections@[k as int].1,
                a == self.connections@[k as int].0,
                edges@ == incoming_data(*self, cluster_nodes@.take(q as int), a),
            decreases cluster_nodes@.len() - q,
        {
            let c = cluster_nodes[q];
            proof {
                assert(cluster_nodes@.take(q + 1).drop_last() =~= cluster_nodes@.take(q as int));
                assert(cluster_nodes@.take(q + 1).last() == c);
                self.lemma_connected_by_list(k as int, c);
            }
            match Self::target_index(list, c) {
                Some(l) => {
                    let data = match &list[l].1 {
                        Some(d) => Some(d),
                        None => None,
                    };
                    proof {
                        self.lemma_edge_data(k as int, l as int);
                    }
                    edges.push(data);
                },
                None => {},
            }
            q = q + 1;
        }
        proof {
            assert(cluster_nodes@.take(q as int) =~= cluster_nodes@);
        }
        edges
    }

    /// For each node outside the cluster with edges into it, in the nodes'
    /// order, the merge of the data of those edges.
    fn find_incoming_edges<G: Fn(&Vec<Option<&TEdgeData>>) -> Option<TEdgeData>>(
        &self,
        cluster_nodes: &Vec<u64>,
        edge_data_merger: &G,
    ) -> (res: Vec<(u64, Option<TEdgeData>)>)
        requires
            self.wf(),
            forall|v: &Vec<Option<&TEdgeData>>| #[trigger] edge_data_merger.requires((v,)),
        ensures
            forall|i: int, j: int| 0 <= i < j < res@.len() ==> res@[i].0 != res@[j].0,
            entry_ids(res@) == Set::new(|a: u64| self.has_node(a) && !cluster_nodes@.contains(a) && enters_cluster(*self, cluster_nodes@, a)),
            forall|i: int| 0 <= i < res@.len() ==> merged_from(*edge_data_merger, incoming_data(*self, cluster_nodes@, #[trigger] res@[i].0), res@[i].1),
    {
        let mut res: Vec<(u64, Option<TEdgeData>)> = Vec::new();
        let mut j: usize = 0;
        proof {
            assert(entry_ids(res@) =~= entering_nodes(*self, cluster_nodes@, 0));
        }
        while j < self.nodes.len()
            invariant
                j <= self.nodes@.len(),
                self.wf(),
                forall|v: &Vec<Option<&TEdgeData>>| #[trigger] edge_data_merger.requires((v,)),
                forall|x: int, y: int| 0 <= x < y < res@.len() ==> res@[x].0 != res@[y].0,
                entry_ids(res@) == entering_nodes(*self, cluster_nodes@, j as int),
                forall|i: int| 0 <= i < res@.len() ==> merged_from(*edge_data_merger, incoming_data(*self, cluster_nodes@, #[trigger] res@[i].0), res@[i].1),
            decreases self.nodes@.len() - j,
        {
            let a = self.nodes[j].id;
            let ghost before = res@;
            if !contains_id(cluster_nodes, a) {
                match self.source_index(a) {
                    Some(k) => {
                        let edges = self.edges_into_cluster(k, cluster_nodes);
                        proof {
                            lemma_incoming_data_len(*self, cluster_nodes@, a);
                        }
                        if edges.len() > 0 {
                            let merged = (*edge_data_merger)(&edges);
                            res.push((a, merged));
                            proof {
                                assert forall|x: int, y: int| 0 <= x < y < res@.len() implies res@[x].0 != res@[y].0 by {
                                    if y == before.len() {
                                        assert(res@[x] == before[x]);
                                        if before[x].0 == a {
                                            assert(entry_ids(before).contains(a));
                                            assert(entering_nodes(*self, cluster_nodes@, j as int).contains(a));
                                            let m = choose|m: int| 0 <= m < j && #[trigger] self.nodes@[m].id == a;
                                            assert(self.nodes@[m].id != self.nodes@[j as int].id);
                                        }
                                    } else {
                                        assert(res@[x] == before[x] && res@[y] == before[y]);
                                    }
                                }
                                assert forall|i: int| 0 <= i < res@.len() implies
                                    merged_from(*edge_data_merger, incoming_data(*self, cluster_nodes@, #[trigger] res@[i].0), res@[i].1) by {
                                    if i < before.len() {
                                        assert(res@[i] == before[i]);
                                    } else {
                                        assert(edges@ == incoming_data(*self, cluster_nodes@, res@[i].0));
                                        assert((*edge_data_merger).ensures((&edges,), merged));
                                    }
                                }
                            }
                        }
                    },
                    None => {
                        proof {
                            if enters_cluster(*self, cluster_nodes@, a) {
                                let i = choose|i: int| 0 <= i < cluster_nodes@.len() && self.connected(a, #[trigger] cluster_nodes@[i]);
                                assert(self.has_source(a));
                            }
                        }
                    },
                }
            }
            proof {
                assert forall|x: u64| entry_ids(res@).contains(x) == entering_nodes(*self, cluster_nodes@, j + 1).contains(x) by {
                    if entry_ids(res@).contains(x) {
                        let i = choose|i: int| 0 <= i < res@.len() && #[trigger] res@[i].0 == x;
                        if i < before.len() {
                            assert(before[i].0 == x);
                            assert(entry_ids(before).contains(x));
                            let m = choose|m: int| 0 <= m < j && #[trigger] self.nodes@[m].id == x;
                            assert(self.nodes@[m].id == x);
                        } else {
                            assert(self.nodes@[j as int].id == x);
                        }
                    }
                    if entering_nodes(*self, cluster_nodes@, j + 1).contains(x) {
                        let m = choose|m: int| 0 <= m < j + 1 && #[trigger] self.nodes@[m].id == x;
                        if m < j {
                            assert(entering_nodes(*self, cluster_nodes@, j as int).contains(x));
                            assert(entry_ids(before).contains(x));
                            let i = choose|i: int| 0 <= i < before.len() && #[trigger] before[i].0 == x;
                            assert(res@[i].0 == x);
                        } else {
                            assert(res@[res@.len() - 1].0 == x);
                        }
                    }
                }
                assert(entry_ids(res@) =~= entering_nodes(*self, cluster_nodes@, j + 1));
            }
            j = j + 1;
        }
        proof {
            assert(entering_nodes(*self, cluster_nodes@, j as int) =~= Set::new(|a: u64| self.has_node(a) && !cluster_nodes@.contains(a)
                && enters_cluster(*self, cluster_nodes@, a))) by {
                assert forall|x: u64| self.has_node(x) implies (exists|m: int| 0 <= m < j && #[trigger] self.nodes@[m].id == x) by {
                    let m = choose|m: int| 0 <= m < self.nodes@.len() && self.nodes@[m].id == x;
                    assert(self.nodes@[m].id == x);
                }
            }
        }
        res
    }
}

impl<TNodeData, TEdgeData> Graph<TNodeData, TEdgeData> {
    /// The data of the cluster's edges to `b`, in the cluster's order.
    fn edges_from_cluster<'a>(&'a self, cluster_nodes: &Vec<u64>, b: u64) -> (res: Vec<Option<&'a TEdgeData>>)
        requires
            self.wf(),
        ensures
            res@ == outgoing_data(*self, cluster_nodes@, b),
    {
        let mut edges: Vec<Option<&TEdgeData>> = Vec::new();
        let mut q: usize = 0;
        proof {
            assert(cluster_nodes@.take(0) =~= Seq::<u64>::empty());
        }
        while q < cluster_nodes.len()
            invariant
                q <= cluster_nodes@.len(),
                self.wf(),
                edges@ == outgoing_data(*self, cluster_nodes@.take(q as int), b),
            decreases cluster_nodes@.len() - q,
        {
            let c = cluster_nodes[q];
            proof {
                assert(cluster_nodes@.take(q + 1).drop_last() =~= cluster_nodes@.take(q as int));
                assert(cluster_nodes@.take(q + 1).last() == c);
            }
            match self.source_index(c) {
                Some(k) => {
                    proof {
                        self.lemma_connected_by_list(k as int, b);
                    }
                    match Self::target_index(&self.connections[k].1, b) {
                        Some(l) => {
                            let data = match &self.connections[k].1[l].1 {
                                Some(d) => Some(d),
                                None => None,
                            };
                            proof {
                                self.lemma_edge_data(k as int, l as int);
                            }
                            edges.push(data);
                        },
                        None => {},
                    }
                },
                None => {},
            }
            q = q + 1;
        }
        proof {
            assert(cluster_nodes@.take(q as int) =~= cluster_nodes@);
        }
        edges
    }

    /// The nodes outside the cluster that the cluster has edges to, in the
    /// order in which the cluster's lists reach them first.
    fn cluster_targets(&self, cluster_nodes: &Vec<u64>) -> (res: Vec<u64>)
        requires
            self.wf(),
        ensures
            forall|x: int, y: int| 0 <= x < y < res@.len() ==> res@[x] != res@[y],
            res@.to_set() == Set::new(|b: u64| !cluster_nodes@.contains(b) && leaves_cluster(*self, cluster_nodes@, b)),
    {
        let mut targets: Vec<u64> = Vec::new();
        let mut q: usize = 0;
        proof {
            assert(targets@.to_set() =~= Set::new(|b: u64| !cluster_nodes@.contains(b) && leaves_cluster(*self, cluster_nodes@.take(0), b)));
        }
        while q < cluster_nodes.len()
            invariant
                q <= cluster_nodes@.len(),
                self.wf(),
                forall|x: int, y: int| 0 <= x < y < targets@.len() ==> targets@[x] != targets@[y],
                targets@.to_set() == Set::new(|b: u64| !cluster_nodes@.contains(b) && leaves_cluster(*self, cluster_nodes@.take(q as int), b)),
            decreases cluster_nodes@.len() - q,
        {
            let c = cluster_nodes[q];
            let ghost before = Set::new(|b: u64| !cluster_nodes@.contains(b) && leaves_cluster(*self, cluster_nodes@.take(q as int), b));
            match self.source_index(c) {
                Some(k) => {
                    let list = &self.connections[k].1;
                    let mut l: usize = 0;
                    while l < list.len()
                        invariant
                            l <= list@.len(),
                            forall|x: int, y: int| 0 <= x < y < targets@.len() ==> targets@[x] != targets@[y],
                            targets@.to_set() == before + Set::new(|b: u64| !cluster_nodes@.contains(b)
                                && exists|m: int| 0 <= m < l && #[trigger] list@[m].0 == b),
                        decreases list@.len() - l,
                    {
                        let t = list[l].0;
                        let ghost old_targets = targets@;
                        if !contains_id(cluster_nodes, t) && !contains_id(&targets, t) {
                            targets.push(t);
                            proof {
                                assert(targets@.to_set() =~= old_targets.to_set().insert(t)) by {
                                    assert forall|x: u64| targets@.to_set().contains(x) implies old_targets.to_set().insert(t).contains(x) by {
                                        let i = choose|i: int| 0 <= i < targets@.len() && targets@[i] == x;
                                        if i < old_targets.len() {
                                            assert(old_targets[i] == x);
                                        }
                                    }
                                    assert forall|x: u64| old_targets.to_set().insert(t).contains(x) implies targets@.to_set().contains(x) by {
                                        if x == t {
                                            assert(targets@[old_targets.len() as int] == x);
                                        } else {
                                            let i = choose|i: int| 0 <= i < old_targets.len() && old_targets[i] == x;
                                            assert(targets@[i] == x);
                                        }
                                    }
                                }
                            }
                        }
                        proof {
                            let after = before + Set::new(|b: u64| !cluster_nodes@.contains(b) && exists|m: int| 0 <= m < l + 1 && #[trigger] list@[m].0 == b);
                            assert forall|x: u64| targets@.to_set().contains(x) == after.contains(x) by {
                                if x == t && !cluster_nodes@.contains(t) {
                                    assert(list@[l as int].0 == t);
                                }
                                if after.contains(x) && !before.contains(x) {
                                    let m = choose|m: int| 0 <= m < l + 1 && #[trigger] list@[m].0 == x;
                                    if m < l {
                                        assert(old_targets.to_set().contains(x));
                                    }
                                }
                                if old_targets.to_set().contains(x) && !before.contains(x) {
                                    let m = choose|m: int| 0 <= m < l && #[trigger] list@[m].0 == x;
                                    assert(list@[m].0 == x);
                                }
                            }
                            assert(targets@.to_set() =~= after);
                        }
                        l = l + 1;
                    }
                    proof {
                        assert forall|b: u64| #[trigger] leaves_cluster(*self, cluster_nodes@.take(q + 1), b)
                            == (leaves_cluster(*self, cluster_nodes@.take(q as int), b) || self.connected(c, b)) by {
                            let t1 = cluster_nodes@.take(q + 1);
                            let t0 = cluster_nodes@.take(q as int);
                            if leaves_cluster(*self, t1, b) {
                                let i = choose|i: int| 0 <= i < t1.len() && self.connected(#[trigger] t1[i], b);
                                if i < q {
                                    assert(t0[i] == t1[i]);
                                }
                            }
                            if leaves_cluster(*self, t0, b) {
                                let i = choose|i: int| 0 <= i < t0.len() && self.connected(#[trigger] t0[i], b);
                                assert(t1[i] == t0[i]);
                            }
                            if self.connected(c, b) {
                                assert(t1[q as int] == c);
                            }
                        }
                        assert forall|b: u64| self.connected(c, b) == (exists|m: int| 0 <= m < list@.len() && #[trigger] list@[m].0 == b) by {
                            self.lemma_connected_by_list(k as int, b);
                        }
                        assert(targets@.to_set() =~= Set::new(|b: u64| !cluster_nodes@.contains(b) && leaves_cluster(*self, cluster_nodes@.take(q + 1), b)));
                    }
                },
                None => {
                    proof {
                        assert forall|b: u64| #[trigger] leaves_cluster(*self, cluster_nodes@.take(q + 1), b)
                            == leaves_cluster(*self, cluster_nodes@.take(q as int), b) by {
                            let t1 = cluster_nodes@.take(q + 1);
                            let t0 = cluster_nodes@.take(q as int);
                            if leaves_cluster(*self, t1, b) {
                                let i = choose|i: int| 0 <= i < t1.len() && self.connected(#[trigger] t1[i], b);
                                if i < q {
                                    assert(t0[i] == t1[i]);
                                } else {
                                    assert(t1[i] == c);
                                    assert(!self.has_source(c));
                                }
                            }
                            if leaves_cluster(*self, t0, b) {
                                let i = choose|i: int| 0 <= i < t0.len() && self.connected(#[trigger] t0[i], b);
                                assert(t1[i] == t0[i]);
                            }
                        }
                        assert(targets@.to_set() =~= Set::new(|b: u64| !cluster_nodes@.contains(b) && leaves_cluster(*self, cluster_nodes@.take(q + 1), b)));
                    }
                },
            }
            q = q + 1;
        }
        proof {
            assert(cluster_nodes@.take(q as int) =~= cluster_nodes@);
        }
        targets
    }

    /// For each node outside the cluster that the cluster has edges to, the
    /// merge of the data of those edges.
    fn find_outgoing_edges<G: Fn(&Vec<Option<&TEdgeData>>) -> Option<TEdgeData>>(
        &self,
        cluster_nodes: &Vec<u64>,
        edge_data_merger: &G,
    ) -> (res: Vec<(u64, Option<TEdgeData>)>)
        requires
            self.wf(),
            forall|v: &Vec<Option<&TEdgeData>>| #[trigger] edge_data_merger.requires((v,)),
        ensures
            forall|i: int, j: int| 0 <= i < j < res@.len() ==> res@[i].0 != res@[j].0,
            entry_ids(res@) == Set::new(|b: u64| !cluster_nodes@.contains(b) && leaves_cluster(*self, cluster_nodes@, b)),
            forall|i: int| 0 <= i < res@.len() ==> merged_from(*edge_data_merger, outgoing_data(*self, cluster_nodes@, #[trigger] res@[i].0), res@[i].1),
    {
        let targets = self.cluster_targets(cluster_nodes);
        let mut res: Vec<(u64, Option<TEdgeData>)> = Vec::new();
        let mut i: usize = 0;
        while i < targets.len()
            invariant
                i <= targets@.len(),
                self.wf(),
                forall|v: &Vec<Option<&TEdgeData>>| #[trigger] edge_data_merger.requires((v,)),
                res@.len() == i,
                forall|x: int| 0 <= x < i ==> (#[trigger] res@[x]).0 == targets@[x],
                forall|x: int| 0 <= x < res@.len() ==> merged_from(*edge_data_merger, outgoing_data(*self, cluster_nodes@, #[trigger] res@[x].0), res@[x].1),
            decreases targets@.len() - i,
        {
            let b = targets[i];
            let edges = self.edges_from_cluster(cluster_nodes, b);
            let merged = (*edge_data_merger)(&edges);
            let ghost before = res@;
            res.push((b, merged));
            proof {
                assert forall|x: int| 0 <= x < res@.len() implies merged_from(*edge_data_merger, outgoing_data(*self, cluster_nodes@, #[trigger] res@[x].0), res@[x].1) by {
                    if x < before.len() {
                        assert(res@[x] == before[x]);
                    } else {
                        assert((*edge_data_merger).ensures((&edges,), merged));
                    }
                }
            }
            i = i + 1;
        }
        proof {
            assert forall|x: int, y: int| 0 <= x < y < res@.len() implies res@[x].0 != res@[y].0 by {
                assert(res@[x].0 == targets@[x] && res@[y].0 == targets@[y]);
            }
            assert(entry_ids(res@) =~= targets@.to_set()) by {
                assert forall|b: u64| entry_ids(res@).contains(b) implies targets@.to_set().contains(b) by {
                    let x = choose|x: int| 0 <= x < res@.len() && #[trigger] res@[x].0 == b;
                    assert(targets@[x] == b);
                }
                assert forall|b: u64| targets@.to_set().contains(b) implies entry_ids(res@).contains(b) by {
                    let x = choose|x: int| 0 <= x < targets@.len() && targets@[x] == b;
                    assert(res@[x].0 == b);
                }
            }
        }
        res
    }
}

/// Some list of `a` has the entry `(b, d)`.
pub open spec fn conns_have<E>(conns: Seq<(u64, Connections<E>)>, a: u64, b: u64, d: Option<E>) -> bool {
    exists|k: int, l: int| #![trigger conns[k].1@[l]]
        0 <= k < conns.len() && 0 <= l < conns[k].1@.len() && conns[k].0 == a && conns[k].1@[l] == (b, d)
}

/// The graph has an edge from `a` to `b` with the data.
pub open spec fn has_edge<N, E>(g: Graph<N, E>, a: u64, b: u64, d: Option<E>) -> bool {
    conns_have(g.connections@, a, b, d)
}

/// No two lists have the same source and no list has two entries with the same target.
pub open spec fn conns_wf<E>(conns: Seq<(u64, Connections<E>)>) -> bool {
    &&& forall|i: int, j: int| 0 <= i < j < conns.len() ==> conns[i].0 != conns[j].0
    &&& forall|k: int, a: int, b: int| 0 <= k < conns.len() && 0 <= a < b < conns[k].1@.len() ==> conns[k].1@[a].0 != conns[k].1@[b].0
}

/// The sources of the lists.
pub open spec fn conns_sources<E>(conns: Seq<(u64, Connections<E>)>) -> Set<u64> {
    Set::new(|a: u64| exists|k: int| 0 <= k < conns.len() && #[trigger] conns[k].0 == a)
}

/// The lists after a merge start at and lead to nodes made before the new
/// node, or to the new node `n` itself.
proof fn lemma_merged_ids_below<N, E>(
    g0: Graph<N, E>,
    g1: Graph<N, E>,
    c1: Seq<(u64, Connections<E>)>,
    c2: Seq<(u64, Connections<E>)>,
    g: Graph<N, E>,
    cluster: Seq<u64>,
    n: u64,
    outgoing: Seq<(u64, Option<E>)>,
    incoming: Seq<(u64, Option<E>)>,
)
    requires
        g0.wf(),
        n == g0.next_id,
        g.next_id == n + 1,
        g1.connections == g0.connections,
        conns_sources(c1) == conns_sources(g1.connections@),
        c2 == c1.push((n, c2.last().1)),
        c2.len() > 0,
        conns_sources(g.connections@) == Set::new(|a: u64| conns_sources(c2).contains(a) && !cluster.contains(a)),
        entry_ids(outgoing) == Set::new(|b: u64| !cluster.contains(b) && leaves_cluster(g0, cluster, b)),
        forall|a: u64, b: u64, d: Option<E>| #[trigger] conns_have(g.connections@, a, b, d)
            == ((conns_have(g0.connections@, a, b, d) || (b == n && incoming.contains((a, d))) || (a == n && outgoing.contains((b, d))))
                && !cluster.contains(a) && !cluster.contains(b)),
    ensures
        forall|k: int| 0 <= k < g.connections@.len() ==> #[trigger] g.connections@[k].0 < g.next_id,
        forall|k: int, l: int| 0 <= k < g.connections@.len() && 0 <= l < g.connections@[k].1@.len()
            ==> #[trigger] g.connections@[k].1@[l].0 < g.next_id,
{
    assert forall|k: int| 0 <= k < g.connections@.len() implies #[trigger] g.connections@[k].0 < g.next_id by {
        let a = g.connections@[k].0;
        assert(conns_sources(g.connections@).contains(a));
        assert(conns_sources(c2).contains(a));
        let j = choose|j: int| 0 <= j < c2.len() && #[trigger] c2[j].0 == a;
        if j < c1.len() {
            assert(c2[j] == c1[j]);
            assert(conns_sources(c1).contains(a));
            assert(conns_sources(g0.connections@).contains(a));
            let q = choose|q: int| 0 <= q < g0.connections@.len() && #[trigger] g0.connections@[q].0 == a;
            assert(g0.connections@[q].0 < g0.next_id);
        }
    }
    assert forall|k: int, l: int| 0 <= k < g.connections@.len() && 0 <= l < g.connections@[k].1@.len()
        implies #[trigger] g.connections@[k].1@[l].0 < g.next_id by {
        let a = g.connections@[k].0;
        let b = g.connections@[k].1@[l].0;
        let d = g.connections@[k].1@[l].1;
        assert(conns_have(g.connections@, a, b, d));
        if conns_have(g0.connections@, a, b, d) {
            let (k2, l2) = choose|k2: int, l2: int| #![trigger g0.connections@[k2].1@[l2]]
                0 <= k2 < g0.connections@.len() && 0 <= l2 < g0.connections@[k2].1@.len()
                && g0.connections@[k2].0 == a && g0.connections@[k2].1@[l2] == (b, d);
            assert(g0.connections@[k2].1@[l2].0 < g0.next_id);
        } else if b != n {
            assert(outgoing.contains((b, d)));
            let i = choose|i: int| 0 <= i < outgoing.len() && outgoing[i] == (b, d);
            assert(entry_ids(outgoing).contains(outgoing[i].0));
            assert(leaves_cluster(g0, cluster, b));
            let c = choose|c: int| 0 <= c < cluster.len() && g0.connected(#[trigger] cluster[c], b);
            let k3 = choose|k3: int| 0 <= k3 < g0.connections@.len() && g0.connections@[k3].0 == cluster[c]
                && targets_contain(g0.connections@[k3].1@, b);
            let l3 = choose|l3: int| 0 <= l3 < g0.connections@[k3].1@.len() && g0.connections@[k3].1@[l3].0 == b;
            assert(g0.connections@[k3].1@[l3].0 < g0.next_id);
        }
    }
}

proof fn lemma_has_edge_data<N, E>(g: Graph<N, E>, a: u64, b: u64, d: Option<E>)
    requires
        g.wf(),
        has_edge(g, a, b, d),
    ensures
        g.connected(a, b),
        edge_data(g, a, b) == d,
{
    let conns = g.connections@;
    let (k, l) = choose|k: int, l: int| #![trigger conns[k].1@[l]]
        0 <= k < conns.len() && 0 <= l < conns[k].1@.len() && conns[k].0 == a && conns[k].1@[l] == (b, d);
    g.lemma_edge_data(k, l);
}

proof fn lemma_connected_has_edge<N, E>(g: Graph<N, E>, a: u64, b: u64)
    requires
        g.wf(),
        g.connected(a, b),
    ensures
        has_edge(g, a, b, edge_data(g, a, b)),
{
    let k = choose|k: int| 0 <= k < g.connections@.len() && g.connections@[k].0 == a && targets_contain(g.connections@[k].1@, b);
    let l = choose|l: int| 0 <= l < g.connections@[k].1@.len() && g.connections@[k].1@[l].0 == b;
    g.lemma_edge_data(k, l);
    assert(g.connections@[k].1@[l] == (b, edge_data(g, a, b)));
}

/// The entries of the list whose targets are outside the cluster, in order.
fn filter_out_targets<E>(list: Connections<E>, cluster_nodes: &Vec<u64>) -> (res: Connections<E>)
    requires
        forall|x: int, y: int| 0 <= x < y < list@.len() ==> list@[x].0 != list@[y].0,
    ensures
        forall|x: int, y: int| 0 <= x < y < res@.len() ==> res@[x].0 != res@[y].0,
        forall|e: (u64, Option<E>)| #[trigger] res@.contains(e) == (list@.contains(e) && !cluster_nodes@.contains(e.0)),
{
    let ghost initial_items = list@;
    let mut list = list;
    let mut res: Connections<E> = Vec::new();
    let ghost mut i: int = 0;
    while list.len() > 0
        invariant
            0 <= i <= initial_items.len(),
            list@ == initial_items.skip(i),
            forall|x: int, y: int| 0 <= x < y < initial_items.len() ==> initial_items[x].0 != initial_items[y].0,
            forall|x: int, y: int| 0 <= x < y < res@.len() ==> res@[x].0 != res@[y].0,
            forall|e: (u64, Option<E>)| #[trigger] res@.contains(e) == (initial_items.take(i).contains(e) && !cluster_nodes@.contains(e.0)),
        decreases list@.len(),
    {
        let ghost before = res@;
        let entry = list.remove(0);
        proof {
            assert(entry == initial_items[i]);
            assert(list@ =~= initial_items.skip(i + 1));
            assert(initial_items.take(i + 1) =~= initial_items.take(i).push(entry));
        }
        if !contains_id(cluster_nodes, entry.0) {
            res.push(entry);
            proof {
                assert forall|x: int, y: int| 0 <= x < y < res@.len() implies res@[x].0 != res@[y].0 by {
                    if y == before.len() {
                        assert(before.contains(before[x]));
                        let m = choose|m: int| 0 <= m < i && #[trigger] initial_items[m] == before[x];
                        assert(initial_items[m] == before[x]);
                    } else {
                        assert(res@[x] == before[x] && res@[y] == before[y]);
                    }
                }
                assert forall|e: (u64, Option<E>)| #[trigger] res@.contains(e) == (initial_items.take(i + 1).contains(e) && !cluster_nodes@.contains(e.0)) by {
                    if res@.contains(e) && e != entry {
                        let m = choose|m: int| 0 <= m < res@.len() && res@[m] == e;
                        assert(before[m] == e);
                        assert(before.contains(e));
                    }
                    if initial_items.take(i + 1).contains(e) && e != entry && !cluster_nodes@.contains(e.0) {
                        let m = choose|m: int| 0 <= m < i + 1 && #[trigger] initial_items[m] == e;
                        assert(initial_items.take(i)[m] == e);
                        assert(before.contains(e));
                        let r = choose|r: int| 0 <= r < before.len() && before[r] == e;
                        assert(res@[r] == e);
                    }
                    if e == entry {
                        assert(res@[before.len() as int] == e);
                        assert(initial_items.take(i + 1)[i] == e);
                    }
                }
            }
        } else {
            proof {
                assert forall|e: (u64, Option<E>)| #[trigger] res@.contains(e) == (initial_items.take(i + 1).contains(e) && !cluster_nodes@.contains(e.0)) by {
                    if initial_items.take(i + 1).contains(e) && e != entry {
                        let m = choose|m: int| 0 <= m < i + 1 && #[trigger] initial_items[m] == e;
                        assert(initial_items.take(i)[m] == e);
                    }
                }
            }
        }
        proof {
            i = i + 1;
        }
    }
    proof {
        assert(initial_items.take(i) =~= initial_items);
    }
    res
}

/// The lists whose sources are outside the cluster, each without its entries
/// for targets in the cluster, in order.
fn keep_outside_lists<E>(old_conns: Vec<(u64, Connections<E>)>, cluster_nodes: &Vec<u64>) -> (res: Vec<(u64, Connections<E>)>)
    requires
        conns_wf(old_conns@),
    ensures
        conns_wf(res@),
        conns_sources(res@) == Set::new(|a: u64| conns_sources(old_conns@).contains(a) && !cluster_nodes@.contains(a)),
        forall|a: u64, b: u64, d: Option<E>| #[trigger] conns_have(res@, a, b, d)
            == (conns_have(old_conns@, a, b, d) && !cluster_nodes@.contains(a) && !cluster_nodes@.contains(b)),
{
    let ghost oc = old_conns@;
    let mut old_conns = old_conns;
    let mut res: Vec<(u64, Connections<E>)> = Vec::new();
    let ghost mut p: int = 0;
    while old_conns.len() > 0
        invariant
            0 <= p <= oc.len(),
            old_conns@ == oc.skip(p),
            conns_wf(oc),
            conns_wf(res@),
            forall|j: int| #![trigger res@[j]] 0 <= j < res@.len() ==> exists|k: int| 0 <= k < p && #[trigger] oc[k].0 == res@[j].0,
            conns_sources(res@) == Set::new(|a: u64| conns_sources(oc.take(p)).contains(a) && !cluster_nodes@.contains(a)),
            forall|a: u64, b: u64, d: Option<E>| #[trigger] conns_have(res@, a, b, d)
                == (conns_have(oc.take(p), a, b, d) && !cluster_nodes@.contains(a) && !cluster_nodes@.contains(b)),
        decreases old_conns@.len(),
    {
        let ghost before = res@;
        let (source, list) = old_conns.remove(0);
        proof {
            assert((source, list) == oc[p]);
            assert(old_conns@ =~= oc.skip(p + 1));
            assert(oc.take(p + 1) =~= oc.take(p).push(oc[p]));
        }
        if !contains_id(cluster_nodes, source) {
            proof {
                assert forall|x: int, y: int| 0 <= x < y < list@.len() implies list@[x].0 != list@[y].0 by {
                    assert(oc[p].1@[x].0 != oc[p].1@[y].0);
                }
            }
            let filtered = filter_out_targets(list, cluster_nodes);
            res.push((source, filtered));
            proof {
                assert(conns_wf(res@)) by {
                    assert forall|i: int, j: int| 0 <= i < j < res@.len() implies res@[i].0 != res@[j].0 by {
                        if j == before.len() {
                            assert(res@[i] == before[i]);
                            let k = choose|k: int| 0 <= k < p && #[trigger] oc[k].0 == before[i].0;
                            assert(oc[k].0 != oc[p].0);
                        } else {
                            assert(res@[i] == before[i] && res@[j] == before[j]);
                        }
                    }
                    assert forall|k: int, a: int, b: int| 0 <= k < res@.len() && 0 <= a < b < res@[k].1@.len()
                        implies res@[k].1@[a].0 != res@[k].1@[b].0 by {
                        if k < before.len() {
                            assert(res@[k] == before[k]);
                        }
                    }
                }
                assert forall|j: int| #![trigger res@[j]] 0 <= j < res@.len() implies exists|k: int| 0 <= k < p + 1 && #[trigger] oc[k].0 == res@[j].0 by {
                    if j < before.len() {
                        assert(res@[j] == before[j]);
                        let k = choose|k: int| 0 <= k < p && #[trigger] oc[k].0 == before[j].0;
                        assert(oc[k].0 == res@[j].0);
                    } else {
                        assert(oc[p].0 == res@[j].0);
                    }
                }
                assert(!cluster_nodes@.contains(source));
                assert forall|a: u64| #![trigger conns_sources(res@).contains(a)] conns_sources(res@).contains(a) implies conns_sources(oc.take(p + 1)).contains(a) && !cluster_nodes@.contains(a) by {
                        let j = choose|j: int| 0 <= j < res@.len() && #[trigger] res@[j].0 == a;
                        if j < before.len() {
                            assert(before[j].0 == a);
                            assert(conns_sources(before).contains(a));
                            let k = choose|k: int| 0 <= k < oc.take(p).len() && #[trigger] oc.take(p)[k].0 == a;
                            assert(oc.take(p + 1)[k].0 == a);
                        } else {
                            assert(oc.take(p + 1)[p].0 == a);
                        }
                    }
                    assert forall|a: u64| #![trigger conns_sources(res@).contains(a)] conns_sources(oc.take(p + 1)).contains(a) && !cluster_nodes@.contains(a) implies conns_sources(res@).contains(a) by {
                        let k = choose|k: int| 0 <= k < oc.take(p + 1).len() && #[trigger] oc.take(p + 1)[k].0 == a;
                        if k < p {
                            assert(oc.take(p)[k].0 == a);
                            assert(conns_sources(before).contains(a));
                            let j = choose|j: int| 0 <= j < before.len() && #[trigger] before[j].0 == a;
                            assert(res@[j].0 == a);
                        } else {
                            assert(res@[before.len() as int].0 == a);
                        }
                    }
                assert(conns_sources(res@) =~= Set::new(|a: u64| conns_sources(oc.take(p + 1)).contains(a) && !cluster_nodes@.contains(a)));
                assert forall|a: u64, b: u64, d: Option<E>| #[trigger] conns_have(res@, a, b, d)
                    == (conns_have(oc.take(p + 1), a, b, d) && !cluster_nodes@.contains(a) && !cluster_nodes@.contains(b)) by {
                    let t0 = oc.take(p);
                    let t1 = oc.take(p + 1);
                    if conns_have(res@, a, b, d) {
                        let (k, l) = choose|k: int, l: int| #![trigger res@[k].1@[l]]
                            0 <= k < res@.len() && 0 <= l < res@[k].1@.len() && res@[k].0 == a && res@[k].1@[l] == (b, d);
                        if k < before.len() {
                            assert(before[k].1@[l] == (b, d));
                            assert(conns_have(before, a, b, d));
                            let (k2, l2) = choose|k2: int, l2: int| #![trigger t0[k2].1@[l2]]
                                0 <= k2 < t0.len() && 0 <= l2 < t0[k2].1@.len() && t0[k2].0 == a && t0[k2].1@[l2] == (b, d);
                            assert(t1[k2].1@[l2] == (b, d));
                        } else {
                            assert(res@[k].1@.contains((b, d)));
                            let l2 = choose|l2: int| 0 <= l2 < list@.len() && list@[l2] == (b, d);
                            assert(t1[p].1@[l2] == (b, d));
                        }
                    }
                    if conns_have(t1, a, b, d) && !cluster_nodes@.contains(a) && !cluster_nodes@.contains(b) {
                        let (k, l) = choose|k: int, l: int| #![trigger t1[k].1@[l]]
                            0 <= k < t1.len() && 0 <= l < t1[k].1@.len() && t1[k].0 == a && t1[k].1@[l] == (b, d);
                        if k < p {
                            assert(t0[k].1@[l] == (b, d));
                            assert(conns_have(t0, a, b, d));
                            assert(conns_have(before, a, b, d));
                            let (k2, l2) = choose|k2: int, l2: int| #![trigger before[k2].1@[l2]]
                                0 <= k2 < before.len() && 0 <= l2 < before[k2].1@.len() && before[k2].0 == a && before[k2].1@[l2] == (b, d);
                            assert(res@[k2].1@[l2] == (b, d));
                        } else {
                            assert(list@[l] == (b, d));
                            assert(list@.contains((b, d)));
                            assert(filtered@.contains((b, d)));
                            let l2 = choose|l2: int| 0 <= l2 < filtered@.len() && filtered@[l2] == (b, d);
                            assert(res@[before.len() as int].1@[l2] == (b, d));
                        }
                    }
                }
            }
        } else {
            proof {
                assert forall|j: int| #![trigger res@[j]] 0 <= j < res@.len() implies exists|k: int| 0 <= k < p + 1 && #[trigger] oc[k].0 == res@[j].0 by {
                    let k = choose|k: int| 0 <= k < p && #[trigger] oc[k].0 == res@[j].0;
                }
                assert(conns_sources(res@) =~= Set::new(|a: u64| conns_sources(oc.take(p + 1)).contains(a) && !cluster_nodes@.contains(a))) by {
                    assert forall|a: u64| conns_sources(oc.take(p + 1)).contains(a) && !cluster_nodes@.contains(a) implies conns_sources(oc.take(p)).contains(a) by {
                        let k = choose|k: int| 0 <= k < oc.take(p + 1).len() && #[trigger] oc.take(p + 1)[k].0 == a;
                        if k < p {
                            assert(oc.take(p)[k].0 == a);
                        } else {
                            assert(oc.take(p + 1)[k].0 == source);
                        }
                    }
                    assert forall|a: u64| conns_sources(oc.take(p)).contains(a) implies conns_sources(oc.take(p + 1)).contains(a) by {
                        let k = choose|k: int| 0 <= k < oc.take(p).len() && #[trigger] oc.take(p)[k].0 == a;
                        assert(oc.take(p + 1)[k].0 == a);
                    }
                }
                assert forall|a: u64, b: u64, d: Option<E>| #[trigger] conns_have(res@, a, b, d)
                    == (conns_have(oc.take(p + 1), a, b, d) && !cluster_nodes@.contains(a) && !cluster_nodes@.contains(b)) by {
                    let t0 = oc.take(p);
                    let t1 = oc.take(p + 1);
                    if conns_have(t1, a, b, d) && !cluster_nodes@.contains(a) {
                        let (k, l) = choose|k: int, l: int| #![trigger t1[k].1@[l]]
                            0 <= k < t1.len() && 0 <= l < t1[k].1@.len() && t1[k].0 == a && t1[k].1@[l] == (b, d);
                        assert(t0[k].1@[l] == (b, d));
                    }
                    if conns_have(t0, a, b, d) {
                        let (k, l) = choose|k: int, l: int| #![trigger t0[k].1@[l]]
                            0 <= k < t0.len() && 0 <= l < t0[k].1@.len() && t0[k].0 == a && t0[k].1@[l] == (b, d);
                        assert(t1[k].1@[l] == (b, d));
                    }
                }
            }
        }
        proof {
            p = p + 1;
        }
    }
    proof {
        assert(oc.take(p) =~= oc);
    }
    res
}

proof fn lemma_conns_have_update<E>(c: Seq<(u64, Connections<E>)>, k: int, list: Connections<E>, e: (u64, Option<E>))
    requires
        0 <= k < c.len(),
        list@ == c[k].1@.push(e),
    ensures
        forall|a: u64, b: u64, d: Option<E>| #[trigger] conns_have(c.update(k, (c[k].0, list)), a, b, d)
            == (conns_have(c, a, b, d) || (a == c[k].0 && (b, d) == e)),
{
    let c2 = c.update(k, (c[k].0, list));
    assert forall|a: u64, b: u64, d: Option<E>| #[trigger] conns_have(c2, a, b, d)
        == (conns_have(c, a, b, d) || (a == c[k].0 && (b, d) == e)) by {
        if conns_have(c2, a, b, d) {
            let (k2, l2) = choose|k2: int, l2: int| #![trigger c2[k2].1@[l2]]
                0 <= k2 < c2.len() && 0 <= l2 < c2[k2].1@.len() && c2[k2].0 == a && c2[k2].1@[l2] == (b, d);
            if k2 != k {
                assert(c[k2].1@[l2] == (b, d));
            } else if l2 < c[k].1@.len() {
                assert(c[k].1@[l2] == (b, d));
            }
        }
        if conns_have(c, a, b, d) {
            let (k2, l2) = choose|k2: int, l2: int| #![trigger c[k2].1@[l2]]
                0 <= k2 < c.len() && 0 <= l2 < c[k2].1@.len() && c[k2].0 == a && c[k2].1@[l2] == (b, d);
            if k2 != k {
                assert(c2[k2].1@[l2] == (b, d));
            } else {
                assert(c2[k].1@[l2] == (b, d));
            }
        }
        if a == c[k].0 && (b, d) == e {
            assert(c2[k].1@[c[k].1@.len() as int] == (b, d));
        }
    }
}

proof fn lemma_conns_have_push<E>(c: Seq<(u64, Connections<E>)>, src: u64, list: Connections<E>)
    ensures
        forall|a: u64, b: u64, d: Option<E>| #[trigger] conns_have(c.push((src, list)), a, b, d)
            == (conns_have(c, a, b, d) || (a == src && list@.contains((b, d)))),
{
    let c2 = c.push((src, list));
    assert forall|a: u64, b: u64, d: Option<E>| #[trigger] conns_have(c2, a, b, d)
        == (conns_have(c, a, b, d) || (a == src && list@.contains((b, d)))) by {
        if conns_have(c2, a, b, d) {
            let (k2, l2) = choose|k2: int, l2: int| #![trigger c2[k2].1@[l2]]
                0 <= k2 < c2.len() && 0 <= l2 < c2[k2].1@.len() && c2[k2].0 == a && c2[k2].1@[l2] == (b, d);
            if k2 < c.len() {
                assert(c[k2].1@[l2] == (b, d));
            } else {
                assert(list@[l2] == (b, d));
            }
        }
        if conns_have(c, a, b, d) {
            let (k2, l2) = choose|k2: int, l2: int| #![trigger c[k2].1@[l2]]
                0 <= k2 < c.len() && 0 <= l2 < c[k2].1@.len() && c[k2].0 == a && c[k2].1@[l2] == (b, d);
            assert(c2[k2].1@[l2] == (b, d));
        }
        if a == src && list@.contains((b, d)) {
            let l2 = choose|l2: int| 0 <= l2 < list@.len() && list@[l2] == (b, d);
            assert(c2[c.len() as int].1@[l2] == (b, d));
        }
    }
}

impl<TNodeData, TEdgeData> Graph<TNodeData, TEdgeData> {
    /// Adds to the list of each source of `incoming` an edge to `n` with
    /// the entry's data.
    fn attach_incoming(&mut self, n: u64, incoming: Vec<(u64, Option<TEdgeData>)>)
        requires
            conns_wf(old(self).connections@),
            forall|k: int, l: int| 0 <= k < old(self).connections@.len() && 0 <= l < old(self).connections@[k].1@.len()
                ==> old(self).connections@[k].1@[l].0 != n,
            forall|i: int, j: int| 0 <= i < j < incoming@.len() ==> incoming@[i].0 != incoming@[j].0,
            forall|i: int| 0 <= i < incoming@.len() ==> old(self).has_source(#[trigger] incoming@[i].0),
        ensures
            final(self).nodes == old(self).nodes,
            final(self).next_id == old(self).next_id,
            conns_wf(final(self).connections@),
            conns_sources(final(self).connections@) == conns_sources(old(self).connections@),
            forall|a: u64, b: u64, d: Option<TEdgeData>| #[trigger] conns_have(final(self).connections@, a, b, d)
                == (conns_have(old(self).connections@, a, b, d) || (b == n && incoming@.contains((a, d)))),
    {
        let ghost c0 = self.connections@;
        let ghost all = incoming@;
        proof {
            assert forall|i: int| 0 <= i < all.len() implies conns_sources(c0).contains(#[trigger] all[i].0) by {
                assert(old(self).has_source(incoming@[i].0));
                let k = choose|k: int| 0 <= k < c0.len() && c0[k].0 == all[i].0;
                assert(c0[k].0 == all[i].0);
            }
            assert(all.skip(all.len() as int) =~= Seq::<(u64, Option<TEdgeData>)>::empty());
            assert(all.take(all.len() as int) =~= all);
        }
        let mut incoming = incoming;
        while incoming.len() > 0
            invariant
                self.nodes == old(self).nodes,
                self.next_id == old(self).next_id,
                c0 == old(self).connections@,
                incoming@ == all.take(incoming@.len() as int),
                incoming@.len() <= all.len(),
                forall|i: int, j: int| 0 <= i < j < all.len() ==> all[i].0 != all[j].0,
                forall|i: int| 0 <= i < all.len() ==> conns_sources(c0).contains(#[trigger] all[i].0),
                conns_wf(self.connections@),
                self.connections@.len() == c0.len(),
                forall|k: int| 0 <= k < c0.len() ==> #[trigger] self.connections@[k].0 == c0[k].0,
                forall|k: int, l: int, i: int| #![trigger self.connections@[k].1@[l], all[i]]
                    0 <= k < self.connections@.len() && 0 <= l < self.connections@[k].1@.len()
                    && 0 <= i < incoming@.len() && self.connections@[k].0 == all[i].0
                    ==> self.connections@[k].1@[l].0 != n,
                forall|a: u64, b: u64, d: Option<TEdgeData>| #[trigger] conns_have(self.connections@, a, b, d)
                    == (conns_have(c0, a, b, d) || (b == n && all.skip(incoming@.len() as int).contains((a, d)))),
            decreases incoming@.len(),
        {
            let ghost before = self.connections@;
            let ghost m: int = incoming@.len() - 1;
            let (a, d) = incoming.pop().unwrap();
            proof {
                assert((a, d) == all[m]);
                assert(incoming@ =~= all.take(m));
                assert(all.skip(m) =~= seq![all[m]] + all.skip(m + 1));
                let k0 = choose|k0: int| 0 <= k0 < c0.len() && #[trigger] c0[k0].0 == all[m].0;
                assert(self.connections@[k0].0 == a);
            }
            match self.source_index(a) {
                Some(k) => {
                    let (src, mut list) = self.connections.remove(k);
                    proof {
                        assert(src == a);
                        assert(list == before[k as int].1);
                    }
                    list.push((n, d));
                    let ghost entry = (src, list);
                    self.connections.insert(k, (src, list));
                    proof {
                        assert(self.connections@ =~= before.update(k as int, entry));
                        lemma_conns_have_update(before, k as int, entry.1, (n, d));
                        assert forall|x: int| 0 <= x < before[k as int].1@.len() implies #[trigger] before[k as int].1@[x].0 != n by {
                            assert(before[k as int].0 == all[m].0);
                        }
                        assert(conns_wf(self.connections@)) by {
                            assert forall|i: int, j: int| 0 <= i < j < self.connections@.len() implies
                                self.connections@[i].0 != self.connections@[j].0 by {
                                assert(self.connections@[i].0 == before[i].0 && self.connections@[j].0 == before[j].0);
                            }
                            assert forall|q: int, x: int, y: int| 0 <= q < self.connections@.len() && 0 <= x < y < self.connections@[q].1@.len()
                                implies self.connections@[q].1@[x].0 != self.connections@[q].1@[y].0 by {
                                if q == k {
                                    if y == before[k as int].1@.len() {
                                        assert(self.connections@[q].1@[x] == before[k as int].1@[x]);
                                    } else {
                                        assert(self.connections@[q].1@[x] == before[k as int].1@[x]);
                                        assert(self.connections@[q].1@[y] == before[k as int].1@[y]);
                                    }
                                }
                            }
                        }
                        assert forall|x: u64, y: u64, z: Option<TEdgeData>| #[trigger] conns_have(self.connections@, x, y, z)
                            == (conns_have(c0, x, y, z) || (y == n && all.skip(m).contains((x, z)))) by {
                            let s1 = all.skip(m + 1);
                            let s0 = all.skip(m);
                            if s0.contains((x, z)) && (x, z) != all[m] {
                                let i = choose|i: int| 0 <= i < s0.len() && s0[i] == (x, z);
                                assert(i > 0);
                                assert(s1[i - 1] == (x, z));
                            }
                            if s1.contains((x, z)) {
                                let i = choose|i: int| 0 <= i < s1.len() && s1[i] == (x, z);
                                assert(s0[i + 1] == (x, z));
                            }
                            if (x, z) == all[m] {
                                assert(s0[0] == (x, z));
                            }
                        }
                        assert forall|q: int| 0 <= q < c0.len() implies #[trigger] self.connections@[q].0 == c0[q].0 by {
                            assert(self.connections@[q].0 == before[q].0);
                        }
                        assert forall|q: int, l: int, i: int| #![trigger self.connections@[q].1@[l], all[i]]
                            0 <= q < self.connections@.len() && 0 <= l < self.connections@[q].1@.len()
                            && 0 <= i < incoming@.len() && self.connections@[q].0 == all[i].0
                            implies self.connections@[q].1@[l].0 != n by {
                            if q == k {
                                assert(all[i].0 != all[m].0);
                            } else {
                                assert(self.connections@[q] == before[q]);
                            }
                        }
                    }
                },
                None => {
                    proof {
                        assert(false);
                    }
                },
            }
        }
        proof {
            assert(all.skip(0) =~= all);
            assert(conns_sources(self.connections@) =~= conns_sources(c0)) by {
                assert forall|a: u64| conns_sources(self.connections@).contains(a) == conns_sources(c0).contains(a) by {
                    if conns_sources(self.connections@).contains(a) {
                        let k = choose|k: int| 0 <= k < self.connections@.len() && #[trigger] self.connections@[k].0 == a;
                        assert(c0[k].0 == a);
                    }
                    if conns_sources(c0).contains(a) {
                        let k = choose|k: int| 0 <= k < c0.len() && #[trigger] c0[k].0 == a;
                        assert(self.connections@[k].0 == a);
                    }
                }
            }
        }
    }
}

/// The nodes whose ids are outside the cluster, in order.
fn keep_outside_nodes<N>(nodes: Vec<GraphNode<N>>, cluster_nodes: &Vec<u64>) -> (res: Vec<GraphNode<N>>)
    requires
        forall|x: int, y: int| 0 <= x < y < nodes@.len() ==> nodes@[x].id != nodes@[y].id,
    ensures
        forall|x: int, y: int| 0 <= x < y < res@.len() ==> res@[x].id != res@[y].id,
        forall|e: GraphNode<N>| #[trigger] res@.contains(e) == (nodes@.contains(e) && !cluster_nodes@.contains(e.id)),
{
    let ghost initial_items = nodes@;
    let mut nodes = nodes;
    let mut res: Vec<GraphNode<N>> = Vec::new();
    let ghost mut i: int = 0;
    while nodes.len() > 0
        invariant
            0 <= i <= initial_items.len(),
            nodes@ == initial_items.skip(i),
            forall|x: int, y: int| 0 <= x < y < initial_items.len() ==> initial_items[x].id != initial_items[y].id,
            forall|x: int, y: int| 0 <= x < y < res@.len() ==> res@[x].id != res@[y].id,
            forall|e: GraphNode<N>| #[trigger] res@.contains(e) == (initial_items.take(i).contains(e) && !cluster_nodes@.contains(e.id)),
        decreases nodes@.len(),
    {
        let ghost before = res@;
        let node = nodes.remove(0);
        proof {
            assert(node == initial_items[i]);
            assert(nodes@ =~= initial_items.skip(i + 1));
            assert(initial_items.take(i + 1) =~= initial_items.take(i).push(node));
        }
        if !contains_id(cluster_nodes, node.id) {
            res.push(node);
            proof {
                assert forall|x: int, y: int| 0 <= x < y < res@.len() implies res@[x].id != res@[y].id by {
                    if y == before.len() {
                        assert(before.contains(before[x]));
                        let m = choose|m: int| 0 <= m < i && #[trigger] initial_items[m] == before[x];
                        assert(initial_items[m] == before[x]);
                    } else {
                        assert(res@[x] == before[x] && res@[y] == before[y]);
                    }
                }
                assert forall|e: GraphNode<N>| #[trigger] res@.contains(e) == (initial_items.take(i + 1).contains(e) && !cluster_nodes@.contains(e.id)) by {
                    if res@.contains(e) && e != initial_items[i] {
                        let m = choose|m: int| 0 <= m < res@.len() && res@[m] == e;
                        assert(before[m] == e);
                        assert(before.contains(e));
                    }
                    if initial_items.take(i + 1).contains(e) && e != initial_items[i] && !cluster_nodes@.contains(e.id) {
                        let m = choose|m: int| 0 <= m < i + 1 && #[trigger] initial_items[m] == e;
                        assert(initial_items.take(i)[m] == e);
                        assert(before.contains(e));
                        let r = choose|r: int| 0 <= r < before.len() && before[r] == e;
                        assert(res@[r] == e);
                    }
                    if e == initial_items[i] {
                        assert(res@[before.len() as int] == e);
                        assert(initial_items.take(i + 1)[i] == e);
                    }
                }
            }
        } else {
            proof {
                assert forall|e: GraphNode<N>| #[trigger] res@.contains(e) == (initial_items.take(i + 1).contains(e) && !cluster_nodes@.contains(e.id)) by {
                    if initial_items.take(i + 1).contains(e) && e != initial_items[i] {
                        let m = choose|m: int| 0 <= m < i + 1 && #[trigger] initial_items[m] == e;
                        assert(initial_items.take(i)[m] == e);
                    }
                }
            }
        }
        proof {
            i = i + 1;
        }
    }
    proof {
        assert(initial_items.take(i) =~= initial_items);
    }
    res
}

impl<TNodeData, TEdgeData> Graph<TNodeData, TEdgeData> {
    /// The data of the cluster's nodes, in the cluster's order.
    fn cluster_nodes_data<'a>(&'a self, cluster_nodes: &Vec<u64>) -> (res: Vec<Option<&'a TNodeData>>)
        requires
            self.wf(),
            forall|i: int| 0 <= i < cluster_nodes@.len() ==> self.has_node(#[trigger] cluster_nodes@[i]),
        ensures
            res@ == cluster_node_data(*self, cluster_nodes@),
    {
        let mut res: Vec<Option<&TNodeData>> = Vec::new();
        let mut q: usize = 0;
        while q < cluster_nodes.len()
            invariant
                q <= cluster_nodes@.len(),
                self.wf(),
                forall|i: int| 0 <= i < cluster_nodes@.len() ==> self.has_node(#[trigger] cluster_nodes@[i]),
                res@.len() == q,
                forall|i: int| 0 <= i < q ==> #[trigger] res@[i] == opt_ref(&node_data(*self, cluster_nodes@[i])),
            decreases cluster_nodes@.len() - q,
        {
            let c = cluster_nodes[q];
            proof {
                assert(self.has_node(cluster_nodes@[q as int]));
            }
            match self.node_index(c) {
                Some(i) => {
                    proof {
                        self.lemma_node_data(i as int);
                    }
                    res.push(self.nodes[i].data());
                },
                None => {
                    proof {
                        assert(false);
                    }
                },
            }
            q = q + 1;
        }
        proof {
            assert(res@ =~= cluster_node_data(*self, cluster_nodes@));
        }
        res
    }
}

/// `result` is a result that the merger may give for a vector with the data.
pub open spec fn node_merged_from<'a, N, F: Fn(Vec<Option<&'a N>>) -> Option<N>>(merger: F, data: Seq<Option<&'a N>>, result: Option<N>) -> bool {
    exists|v: Vec<Option<&'a N>>| v@ == data && #[trigger] merger.ensures((v,), result)
}

/// The edges that the lists of `g` hold, once the cluster became `n`,
/// are those that `merged_connected` names, with the data it gives them.
proof fn lemma_merged_edges<N, E, G: Fn(&Vec<Option<&E>>) -> Option<E>>(
    g0: Graph<N, E>,
    g: Graph<N, E>,
    cluster: Seq<u64>,
    n: u64,
    merger: G,
    incoming: Seq<(u64, Option<E>)>,
    outgoing: Seq<(u64, Option<E>)>,
)
    requires
        g0.wf(),
        g.wf(),
        !g0.has_source(n),
        !g0.has_node(n),
        !cluster.contains(n),
        forall|a: u64| !g0.connected(a, n),
        entry_ids(incoming) == Set::new(|a: u64| g0.has_node(a) && !cluster.contains(a) && enters_cluster(g0, cluster, a)),
        forall|i: int| 0 <= i < incoming.len() ==> merged_from(merger, incoming_data(g0, cluster, #[trigger] incoming[i].0), incoming[i].1),
        entry_ids(outgoing) == Set::new(|b: u64| !cluster.contains(b) && leaves_cluster(g0, cluster, b)),
        forall|i: int| 0 <= i < outgoing.len() ==> merged_from(merger, outgoing_data(g0, cluster, #[trigger] outgoing[i].0), outgoing[i].1),
        forall|a: u64, b: u64, d: Option<E>| #[trigger] conns_have(g.connections@, a, b, d)
            == ((conns_have(g0.connections@, a, b, d) || (b == n && incoming.contains((a, d))) || (a == n && outgoing.contains((b, d))))
                && !cluster.contains(a) && !cluster.contains(b)),
    ensures
        forall|a: u64, b: u64| #[trigger] g.connected(a, b) == merged_connected(g0, cluster, n, a, b),
        forall|b: u64| #[trigger] g.connected(n, b) ==> merged_from(merger, outgoing_data(g0, cluster, b), edge_data(g, n, b)),
        forall|a: u64| #[trigger] g.connected(a, n) ==> merged_from(merger, incoming_data(g0, cluster, a), edge_data(g, a, n)),
        forall|a: u64, b: u64| #[trigger] g.connected(a, b) && a != n && b != n ==> edge_data(g, a, b) == edge_data(g0, a, b),
{
    assert forall|a: u64, b: u64, d: Option<E>| conns_have(g0.connections@, a, b, d) implies a != n && b != n by {
        lemma_has_edge_data(g0, a, b, d);
        let k = choose|k: int| 0 <= k < g0.connections@.len() && g0.connections@[k].0 == a && targets_contain(g0.connections@[k].1@, b);
        assert(g0.has_source(a) || g0.connections@[k].0 == a);
    }
    assert forall|a: u64, d: Option<E>| incoming.contains((a, d)) implies a != n && g0.has_node(a) && !cluster.contains(a)
        && enters_cluster(g0, cluster, a) && merged_from(merger, incoming_data(g0, cluster, a), d) by {
        let i = choose|i: int| 0 <= i < incoming.len() && incoming[i] == (a, d);
        assert(entry_ids(incoming).contains(incoming[i].0));
    }
    assert forall|b: u64, d: Option<E>| outgoing.contains((b, d)) implies !cluster.contains(b)
        && leaves_cluster(g0, cluster, b) && merged_from(merger, outgoing_data(g0, cluster, b), d) by {
        let i = choose|i: int| 0 <= i < outgoing.len() && outgoing[i] == (b, d);
        assert(entry_ids(outgoing).contains(outgoing[i].0));
    }
    assert forall|a: u64, b: u64| #[trigger] g.connected(a, b) == merged_connected(g0, cluster, n, a, b) by {
        if g.connected(a, b) {
            lemma_connected_has_edge(g, a, b);
        }
        if g0.connected(a, b) && !cluster.contains(a) && !cluster.contains(b) {
            lemma_connected_has_edge(g0, a, b);
            assert(conns_have(g.connections@, a, b, edge_data(g0, a, b)));
            lemma_has_edge_data(g, a, b, edge_data(g0, a, b));
        }
        if a == n && !cluster.contains(b) && leaves_cluster(g0, cluster, b) {
            assert(entry_ids(outgoing).contains(b));
            let i = choose|i: int| 0 <= i < outgoing.len() && #[trigger] outgoing[i].0 == b;
            assert(outgoing.contains(outgoing[i]));
            assert(conns_have(g.connections@, a, b, outgoing[i].1));
            lemma_has_edge_data(g, a, b, outgoing[i].1);
        }
        if b == n && !cluster.contains(a) && g0.has_node(a) && enters_cluster(g0, cluster, a) {
            assert(entry_ids(incoming).contains(a));
            let i = choose|i: int| 0 <= i < incoming.len() && #[trigger] incoming[i].0 == a;
            assert(incoming.contains(incoming[i]));
            assert(conns_have(g.connections@, a, b, incoming[i].1));
            lemma_has_edge_data(g, a, b, incoming[i].1);
        }
        if g.connected(a, b) {
            let d = edge_data(g, a, b);
            if conns_have(g0.connections@, a, b, d) {
                lemma_has_edge_data(g0, a, b, d);
            }
        }
    }
    assert forall|a: u64, b: u64| #[trigger] g.connected(a, b) implies
        (a == n ==> merged_from(merger, outgoing_data(g0, cluster, b), edge_data(g, a, b)))
        && (b == n ==> merged_from(merger, incoming_data(g0, cluster, a), edge_data(g, a, b)))
        && (a != n && b != n ==> edge_data(g, a, b) == edge_data(g0, a, b)) by {
        lemma_connected_has_edge(g, a, b);
        let d = edge_data(g, a, b);
        if conns_have(g0.connections@, a, b, d) {
            lemma_has_edge_data(g0, a, b, d);
        }
    }
}

impl<TNodeData, TEdgeData> Graph<TNodeData, TEdgeData> {
    /// Replaces the cluster's nodes by one new node, whose data the node
    /// merger makes from theirs. Edges inside the cluster go; an edge from
    /// the new node goes to each node outside that the cluster had edges to,
    /// and one comes to it from each node outside with edges into the
    /// cluster, the edge merger making the data of each from theirs.
    pub fn merge_nodes_into_one<F, G>(&mut self, cluster_nodes: &Vec<u64>, node_data_merger: F, edge_data_merger: G)
        where
            F: Fn(Vec<Option<&TNodeData>>) -> Option<TNodeData>,
            G: Fn(&Vec<Option<&TEdgeData>>) -> Option<TEdgeData>,
        requires
            old(self).wf(),
            forall|i: int| 0 <= i < cluster_nodes@.len() ==> old(self).has_node(#[trigger] cluster_nodes@[i]),
            forall|i: int, j: int| 0 <= i < j < cluster_nodes@.len() ==> cluster_nodes@[i] != cluster_nodes@[j],
            old(self).next_id < u64::MAX,
            forall|v: Vec<Option<&TNodeData>>| #[trigger] node_data_merger.requires((v,)),
            forall|v: &Vec<Option<&TEdgeData>>| #[trigger] edge_data_merger.requires((v,)),
        ensures
            final(self).wf(),
            final(self).next_id == old(self).next_id + 1,
            forall|id: u64| #[trigger] final(self).has_node(id)
                == ((old(self).has_node(id) && !cluster_nodes@.contains(id)) || id == old(self).next_id),
            forall|id: u64| final(self).has_node(id) && id != old(self).next_id
                ==> #[trigger] node_data(*final(self), id) == node_data(*old(self), id),
            node_merged_from(node_data_merger, cluster_node_data(*old(self), cluster_nodes@), node_data(*final(self), old(self).next_id)),
            forall|a: u64, b: u64| #[trigger] final(self).connected(a, b)
                == merged_connected(*old(self), cluster_nodes@, old(self).next_id, a, b),
            forall|b: u64| #[trigger] final(self).connected(old(self).next_id, b)
                ==> merged_from(edge_data_merger, outgoing_data(*old(self), cluster_nodes@, b), edge_data(*final(self), old(self).next_id, b)),
            forall|a: u64| #[trigger] final(self).connected(a, old(self).next_id)
                ==> merged_from(edge_data_merger, incoming_data(*old(self), cluster_nodes@, a), edge_data(*final(self), a, old(self).next_id)),
            forall|a: u64, b: u64| #[trigger] final(self).connected(a, b) && a != old(self).next_id && b != old(self).next_id
                ==> edge_data(*final(self), a, b) == edge_data(*old(self), a, b),
    {
        let ghost g0 = *self;
        let n = self.next_id;
        let nodes_data = self.cluster_nodes_data(cluster_nodes);
        let ghost data_seen = nodes_data;
        let merged = node_data_merger(nodes_data);
        let incoming = self.find_incoming_edges(cluster_nodes, &edge_data_merger);
        let outgoing = self.find_outgoing_edges(cluster_nodes, &edge_data_merger);
        let ghost incoming_view = incoming@;
        let ghost outgoing_view = outgoing@;
        proof {
            assert(node_data_merger.ensures((data_seen,), merged));
            assert(!cluster_nodes@.contains(n));
            assert forall|k: int, l: int| 0 <= k < g0.connections@.len() && 0 <= l < g0.connections@[k].1@.len()
                implies g0.connections@[k].1@[l].0 != n by {
                if g0.connections@[k].1@[l].0 == n {
                    assert(targets_contain(g0.connections@[k].1@, n));
                    assert(g0.connected(g0.connections@[k].0, n));
                }
            }
            assert forall|i: int| 0 <= i < incoming@.len() implies g0.has_source(#[trigger] incoming@[i].0) by {
                assert(entry_ids(incoming@).contains(incoming@[i].0));
                let c = choose|c: int| 0 <= c < cluster_nodes@.len() && g0.connected(incoming@[i].0, #[trigger] cluster_nodes@[c]);
                assert(g0.connected(incoming@[i].0, cluster_nodes@[c]));
            }
        }
        let id = self.add_node(merged);
        let ghost g1 = *self;
        self.attach_incoming(n, incoming);
        let ghost c1 = self.connections@;
        self.connections.push((n, outgoing));
        let ghost c2 = self.connections@;
        proof {
            assert(!conns_sources(c1).contains(n)) by {
                if conns_sources(g0.connections@).contains(n) {
                    let k = choose|k: int| 0 <= k < g0.connections@.len() && #[trigger] g0.connections@[k].0 == n;
                    assert(g0.connections@[k].0 == n);
                }
            }
            lemma_conns_have_push(c1, n, c2[c2.len() - 1].1);
            assert(conns_wf(c2)) by {
                assert forall|i: int, j: int| 0 <= i < j < c2.len() implies c2[i].0 != c2[j].0 by {
                    if j == c1.len() {
                        assert(c2[i] == c1[i]);
                        assert(conns_sources(c1).contains(c1[i].0));
                    } else {
                        assert(c2[i] == c1[i] && c2[j] == c1[j]);
                    }
                }
                assert forall|k: int, x: int, y: int| 0 <= k < c2.len() && 0 <= x < y < c2[k].1@.len()
                    implies c2[k].1@[x].0 != c2[k].1@[y].0 by {
                    if k < c1.len() {
                        assert(c2[k] == c1[k]);
                    }
                }
            }
        }
        let mut conns: Vec<(u64, Connections<TEdgeData>)> = Vec::new();
        std::mem::swap(&mut conns, &mut self.connections);
        self.connections = keep_outside_lists(conns, cluster_nodes);
        let mut nodes: Vec<GraphNode<TNodeData>> = Vec::new();
        std::mem::swap(&mut nodes, &mut self.nodes);
        self.nodes = keep_outside_nodes(nodes, cluster_nodes);
        proof {
            assert(g1.nodes@ == g0.nodes@.push(GraphNode { id: n, data: merged }));
            assert forall|i: int| 0 <= i < self.nodes@.len() implies #[trigger] self.nodes@[i].id < self.next_id by {
                assert(self.nodes@.contains(self.nodes@[i]));
                assert(g1.nodes@.contains(self.nodes@[i]));
                let j = choose|j: int| 0 <= j < g1.nodes@.len() && g1.nodes@[j] == self.nodes@[i];
                assert(g1.nodes@[j].id < g1.next_id);
            }
            assert forall|a: u64, b: u64, d: Option<TEdgeData>| #[trigger] conns_have(self.connections@, a, b, d)
                == ((conns_have(g0.connections@, a, b, d) || (b == n && incoming_view.contains((a, d))) || (a == n && outgoing_view.contains((b, d))))
                    && !cluster_nodes@.contains(a) && !cluster_nodes@.contains(b)) by {
                assert(conns_have(c2, a, b, d) == (conns_have(c1, a, b, d) || (a == n && outgoing_view.contains((b, d)))));
                assert(conns_have(c1, a, b, d) == (conns_have(g0.connections@, a, b, d) || (b == n && incoming_view.contains((a, d)))));
            }
            lemma_merged_ids_below(g0, g1, c1, c2, *self, cluster_nodes@, n, outgoing_view, incoming_view);
            assert(self.wf());
            lemma_merged_edges(g0, *self, cluster_nodes@, n, edge_data_merger, incoming_view, outgoing_view);
            assert forall|x: u64| #[trigger] self.has_node(x) == ((g0.has_node(x) && !cluster_nodes@.contains(x)) || x == n) by {
                if self.has_node(x) {
                    let i = choose|i: int| 0 <= i < self.nodes@.len() && self.nodes@[i].id == x;
                    assert(self.nodes@.contains(self.nodes@[i]));
                    assert(g1.nodes@.contains(self.nodes@[i]));
                    let j = choose|j: int| 0 <= j < g1.nodes@.len() && g1.nodes@[j] == self.nodes@[i];
                    if j < g0.nodes@.len() {
                        assert(g0.nodes@[j].id == x);
                    }
                }
                if g0.has_node(x) && !cluster_nodes@.contains(x) {
                    let j = choose|j: int| 0 <= j < g0.nodes@.len() && g0.nodes@[j].id == x;
                    assert(g1.nodes@[j] == g0.nodes@[j]);
                    assert(g1.nodes@.contains(g0.nodes@[j]));
                    assert(self.nodes@.contains(g0.nodes@[j]));
                    let i = choose|i: int| 0 <= i < self.nodes@.len() && self.nodes@[i] == g0.nodes@[j];
                    assert(self.nodes@[i].id == x);
                }
                if x == n {
                    assert(g1.nodes@.contains(g1.nodes@[g0.nodes@.len() as int]));
                    assert(self.nodes@.contains(GraphNode { id: n, data: merged }));
                    let i = choose|i: int| 0 <= i < self.nodes@.len() && self.nodes@[i] == GraphNode { id: n, data: merged };
                    assert(self.nodes@[i].id == x);
                }
            }
            assert forall|x: u64| self.has_node(x) && x != n implies #[trigger] node_data(*self, x) == node_data(g0, x) by {
                let i = choose|i: int| 0 <= i < self.nodes@.len() && self.nodes@[i].id == x;
                self.lemma_node_data(i);
                assert(self.nodes@.contains(self.nodes@[i]));
                assert(g1.nodes@.contains(self.nodes@[i]));
                let j = choose|j: int| 0 <= j < g1.nodes@.len() && g1.nodes@[j] == self.nodes@[i];
                assert(j < g0.nodes@.len());
                assert(g0.nodes@[j] == self.nodes@[i]);
                g0.lemma_node_data(j);
            }
            assert(node_data(*self, n) == merged) by {
                assert(g1.nodes@.contains(g1.nodes@[g0.nodes@.len() as int]));
                assert(self.nodes@.contains(GraphNode { id: n, data: merged }));
                let i = choose|i: int| 0 <= i < self.nodes@.len() && self.nodes@[i] == GraphNode { id: n, data: merged };
                self.lemma_node_data(i);
            }
        }
    }
}

} // verus!
