//! The ownership check. Where several consumers take the same value and one
//! of them needs it to itself, the value is cloned for every consumer but the
//! first, if its cloning strategy allows that, and the build fails otherwise.

use vstd::prelude::*;
use crate::call_graph::{
    CallGraph, CallGraphEdge, CallGraphNode, EdgeKind, GraphBuilder, GraphState, InputParameterSource,
};
use crate::diagnostic::{ConfigErrorView, Failure};
use crate::model::{CloningStrategy, TypeId, UserComponentId};
use crate::resolver::ComponentDb;

verus! {

/// Whether edge `e` hands the value of node `v` to a consumer.
pub open spec fn consumes_from(edges: Seq<CallGraphEdge>, e: int, v: int) -> bool {
    0 <= e < edges.len() && edges[e].from == v && edges[e].kind is Consume
}

/// The edges before `upto` that hand the value of node `v` to a consumer, in
/// order.
pub open spec fn consumer_edges(edges: Seq<CallGraphEdge>, v: int, upto: int) -> Seq<usize>
    decreases upto,
{
    if upto <= 0 {
        Seq::empty()
    } else {
        let rest = consumer_edges(edges, v, upto - 1);
        if consumes_from(edges, upto - 1, v) {
            rest.push((upto - 1) as usize)
        } else {
            rest
        }
    }
}

/// Whether one of the first `upto` listed edges needs the value to itself.
pub open spec fn any_exclusive(edges: Seq<CallGraphEdge>, listed: Seq<usize>, upto: int) -> bool
    decreases upto,
{
    if upto <= 0 {
        false
    } else {
        any_exclusive(edges, listed, upto - 1) || (upto <= listed.len() && listed[upto - 1] < edges.len()
            && match edges[listed[upto - 1] as int].kind {
            EdgeKind::Consume(access) => access.excludes_others(),
            _ => false,
        })
    }
}

/// The component that a node invokes or stands for, if it is one.
pub open spec fn component_of(nodes: Seq<CallGraphNode>, v: int) -> Option<UserComponentId> {
    if 0 <= v < nodes.len() {
        match nodes[v] {
            CallGraphNode::Compute { component_id } => Some(component_id),
            CallGraphNode::Duplicate { component_id } => Some(component_id),
            CallGraphNode::InputParameter {
                source: InputParameterSource::ApplicationState { component_id },
                ..
            } => Some(component_id),
            CallGraphNode::InputParameter { source: InputParameterSource::Framework, .. } => None,
            CallGraphNode::MatchBranching => None,
            CallGraphNode::StateAggregate => None,
        }
    } else {
        None
    }
}

/// The component whose value consumers take from node `v`: for a branch node,
/// the fallible component before it.
pub open spec fn owner_of(nodes: Seq<CallGraphNode>, v: int) -> Option<UserComponentId> {
    if 0 < v < nodes.len() && nodes[v] is MatchBranching {
        component_of(nodes, v - 1)
    } else {
        component_of(nodes, v)
    }
}

/// The components that the first `upto` listed edges lead to, in order. An
/// edge that leads to no component is passed over.
pub open spec fn consumer_ids(nodes: Seq<CallGraphNode>, edges: Seq<CallGraphEdge>, listed: Seq<usize>, upto: int) -> Seq<
    UserComponentId,
>
    decreases upto,
{
    if upto <= 0 {
        Seq::empty()
    } else {
        let rest = consumer_ids(nodes, edges, listed, upto - 1);
        if upto <= listed.len() && listed[upto - 1] < edges.len() {
            match component_of(nodes, edges[listed[upto - 1] as int].to as int) {
                Some(c) => rest.push(c),
                None => rest,
            }
        } else {
            rest
        }
    }
}

impl GraphState {
    /// The state with edge `e` leaving from node `from` instead.
    pub open spec fn redirected(self, e: int, from: int) -> GraphState {
        if 0 <= e < self.edges.len() {
            GraphState {
                edges: self.edges.update(e, CallGraphEdge { from: from as usize, ..self.edges[e] }),
                ..self
            }
        } else {
            self
        }
    }
}

impl ComponentDb {
    /// Whether the value of component `c` may be cloned.
    pub open spec fn may_clone(self, c: UserComponentId) -> bool {
        self.has(c) && self.components@[c as int].cloning_strategy == Some(CloningStrategy::CloneIfNecessary)
    }

    /// The type of the value that consumers take from node `v`.
    pub open spec fn value_type(self, nodes: Seq<CallGraphNode>, v: int) -> TypeId {
        if 0 <= v < nodes.len() && nodes[v] is InputParameter {
            nodes[v]->ty
        } else {
            match owner_of(nodes, v) {
                Some(c) => if self.has(c) && self.components@[c as int].output is Some {
                    self.components@[c as int].output->0
                } else {
                    0
                },
                None => 0,
            }
        }
    }

    /// The state after every listed consumer from the `k`-th on was given a
    /// clone of its own of the value of node `v`.
    pub open spec fn duplicate_for(self, c: UserComponentId, v: int, listed: Seq<usize>, k: int, st: GraphState) -> GraphState
        decreases listed.len() - k,
    {
        if 0 <= k < listed.len() {
            let at = st.nodes.len() as int;
            self.duplicate_for(
                c,
                v,
                listed,
                k + 1,
                st.with_node(CallGraphNode::Duplicate { component_id: c }).with_edge(v, at, EdgeKind::Clone).redirected(
                    listed[k] as int,
                    at,
                ),
            )
        } else {
            st
        }
    }

    /// The state after the consumers of node `v` of the graph `given` were
    /// reconciled: nothing changes unless several consumers take the value and
    /// one of them needs it to itself.
    pub open spec fn settle_node(self, given: GraphState, v: int, st: GraphState) -> GraphState {
        let listed = consumer_edges(given.edges, v, given.edges.len() as int);
        if listed.len() >= 2 && any_exclusive(given.edges, listed, listed.len() as int) {
            match owner_of(given.nodes, v) {
                Some(c) => if self.may_clone(c) {
                    self.duplicate_for(c, v, listed, 1, st)
                } else {
                    st.with_error(
                        Failure::AliasingConflict {
                            ty: self.value_type(given.nodes, v),
                            consumers: consumer_ids(given.nodes, given.edges, listed, listed.len() as int),
                        },
                    )
                },
                None => st.with_error(
                    Failure::AliasingConflict {
                        ty: self.value_type(given.nodes, v),
                        consumers: consumer_ids(given.nodes, given.edges, listed, listed.len() as int),
                    },
                ),
            }
        } else {
            st
        }
    }

    /// The state after the nodes of `given` from the `v`-th on were
    /// reconciled.
    pub open spec fn settle_from(self, given: GraphState, v: int, st: GraphState) -> GraphState
        decreases given.nodes.len() - v,
    {
        if 0 <= v < given.nodes.len() {
            self.settle_from(given, v + 1, self.settle_node(given, v, st))
        } else {
            st
        }
    }

    /// The graph with every node reconciled, in the order of the nodes.
    pub open spec fn settled(self, given: GraphState) -> GraphState {
        self.settle_from(given, 0, given)
    }
}

/// The edges that hand the value of node `v` to a consumer, in order.
pub fn list_consumer_edges(edges: &Vec<CallGraphEdge>, v: usize) -> (listed: Vec<usize>)
    ensures
        listed@ == consumer_edges(edges@, v as int, edges@.len() as int),
        forall|k: int| 0 <= k < listed@.len() ==> (#[trigger] listed@[k]) < edges@.len(),
{
    let mut listed: Vec<usize> = Vec::new();
    let mut e: usize = 0;
    while e < edges.len()
        invariant
            e <= edges@.len(),
            listed@ == consumer_edges(edges@, v as int, e as int),
            forall|k: int| 0 <= k < listed@.len() ==> (#[trigger] listed@[k]) < e,
        decreases edges@.len() - e,
    {
        let consume = match edges[e].kind {
            EdgeKind::Consume(_) => true,
            _ => false,
        };
        if edges[e].from == v && consume {
            listed.push(e);
        }
        e += 1;
    }
    listed
}

/// Whether one of the listed edges needs the value to itself.
pub fn has_exclusive(edges: &Vec<CallGraphEdge>, listed: &Vec<usize>) -> (r: bool)
    ensures
        r == any_exclusive(edges@, listed@, listed@.len() as int),
{
    let mut r = false;
    let mut k: usize = 0;
    while k < listed.len()
        invariant
            k <= listed@.len(),
            r == any_exclusive(edges@, listed@, k as int),
        decreases listed@.len() - k,
    {
        if listed[k] < edges.len() {
            match edges[listed[k]].kind {
                EdgeKind::Consume(access) => {
                    if access.is_exclusive() {
                        r = true;
                    }
                },
                _ => {},
            }
        }
        k += 1;
    }
    r
}

/// The component that node `v` invokes or stands for.
pub fn node_component(nodes: &Vec<CallGraphNode>, v: usize) -> (c: Option<UserComponentId>)
    ensures
        c == component_of(nodes@, v as int),
{
    if v < nodes.len() {
        match nodes[v] {
            CallGraphNode::Compute { component_id } => Some(component_id),
            CallGraphNode::Duplicate { component_id } => Some(component_id),
            CallGraphNode::InputParameter { source, .. } => match source {
                InputParameterSource::ApplicationState { component_id } => Some(component_id),
                InputParameterSource::Framework => None,
            },
            CallGraphNode::MatchBranching => None,
            CallGraphNode::StateAggregate => None,
        }
    } else {
        None
    }
}

/// The component whose value consumers take from node `v`.
pub fn node_owner(nodes: &Vec<CallGraphNode>, v: usize) -> (c: Option<UserComponentId>)
    ensures
        c == owner_of(nodes@, v as int),
{
    if 0 < v && v < nodes.len() {
        let branching = match nodes[v] {
            CallGraphNode::MatchBranching => true,
            _ => false,
        };
        if branching {
            return node_component(nodes, v - 1);
        }
    }
    node_component(nodes, v)
}

/// The components that the listed edges lead to, in order.
pub fn list_consumer_ids(nodes: &Vec<CallGraphNode>, edges: &Vec<CallGraphEdge>, listed: &Vec<usize>) -> (ids: Vec<
    UserComponentId,
>)
    ensures
        ids@ == consumer_ids(nodes@, edges@, listed@, listed@.len() as int),
{
    let mut ids: Vec<UserComponentId> = Vec::new();
    let mut k: usize = 0;
    while k < listed.len()
        invariant
            k <= listed@.len(),
            ids@ == consumer_ids(nodes@, edges@, listed@, k as int),
        decreases listed@.len() - k,
    {
        if listed[k] < edges.len() {
            match node_component(nodes, edges[listed[k]].to) {
                Some(c) => {
                    ids.push(c);
                },
                None => {},
            }
        }
        k += 1;
    }
    ids
}

impl ComponentDb {
    /// The type of the value that consumers take from node `v`.
    pub fn node_value_type(&self, nodes: &Vec<CallGraphNode>, v: usize) -> (ty: TypeId)
        ensures
            ty == self.value_type(nodes@, v as int),
    {
        if v < nodes.len() {
            match nodes[v] {
                CallGraphNode::InputParameter { ty, .. } => {
                    return ty;
                },
                _ => {},
            }
        }
        match node_owner(nodes, v) {
            Some(c) => {
                if c < self.components.len() {
                    match self.components[c].output {
                        Some(ty) => ty,
                        None => 0,
                    }
                } else {
                    0
                }
            },
            None => 0,
        }
    }

    /// Whether the value of component `c` may be cloned.
    pub fn can_clone(&self, c: UserComponentId) -> (r: bool)
        ensures
            r == self.may_clone(c),
    {
        if c < self.components.len() {
            match self.components[c].cloning_strategy {
                Some(CloningStrategy::CloneIfNecessary) => true,
                _ => false,
            }
        } else {
            false
        }
    }

    /// Reconciles the consumers of every node of `graph`: a value that several
    /// consumers take, one of them to itself, is cloned for every consumer but
    /// the first, or reported where it cannot be cloned.
    pub fn settle_aliasing(&self, graph: &CallGraph) -> (settled: GraphBuilder)
        ensures
            settled@ == self.settled(graph@),
            crate::graph_order::is_acyclic(graph@) ==> crate::graph_order::is_acyclic(settled@),
    {
        let settled = self.settle(graph);
        proof {
            if crate::graph_order::is_acyclic(graph@) {
                assert(graph.edges@.len() == graph.edges.len());
                assert(settled.nodes@.len() == settled.nodes.len());
                let rank = choose|rank: Seq<int>| crate::graph_order::is_numbering(graph@, rank);
                self.lemma_settled_is_acyclic(graph@, rank);
            }
        }
        settled
    }

    /// The graph with the consumers of every node reconciled, node by node.
    fn settle(&self, graph: &CallGraph) -> (settled: GraphBuilder)
        ensures
            settled@ == self.settled(graph@),
    {
        let ghost given = graph@;
        let mut builder = GraphBuilder::new();
        let mut i: usize = 0;
        while i < graph.nodes.len()
            invariant
                i <= graph.nodes@.len(),
                builder@.nodes == graph.nodes@.take(i as int),
                builder@.edges == Seq::<CallGraphEdge>::empty(),
                builder@.errors == Seq::<ConfigErrorView>::empty(),
            decreases graph.nodes@.len() - i,
        {
            builder.add_node(graph.nodes[i]);
            i += 1;
            assert(builder@.nodes =~= graph.nodes@.take(i as int));
        }
        assert(graph.nodes@.take(i as int) =~= graph.nodes@);
        let mut j: usize = 0;
        while j < graph.edges.len()
            invariant
                j <= graph.edges@.len(),
                builder@.nodes == graph.nodes@,
                builder@.edges == graph.edges@.take(j as int),
                builder@.errors == Seq::<ConfigErrorView>::empty(),
            decreases graph.edges@.len() - j,
        {
            let edge = graph.edges[j];
            builder.add_edge(edge.from, edge.to, edge.kind);
            j += 1;
            assert(builder@.edges =~= graph.edges@.take(j as int));
        }
        assert(graph.edges@.take(j as int) =~= graph.edges@);
        assert(builder@ == given);
        let mut v: usize = 0;
        while v < graph.nodes.len()
            invariant
                v <= graph.nodes@.len(),
                given == graph@,
                given.edges.len() <= builder@.edges.len(),
                self.settle_from(given, v as int, builder@) == self.settled(given),
            decreases graph.nodes@.len() - v,
        {
            let ghost before = builder@;
            let listed = list_consumer_edges(&graph.edges, v);
            if listed.len() >= 2 && has_exclusive(&graph.edges, &listed) {
                let cloneable = match node_owner(&graph.nodes, v) {
                    Some(c) => if self.can_clone(c) {
                        Some(c)
                    } else {
                        None
                    },
                    None => None,
                };
                match cloneable {
                    Some(c) => {
                        let mut k: usize = 1;
                        while k < listed.len()
                            invariant
                                1 <= k <= listed@.len(),
                                given.edges.len() <= builder@.edges.len(),
                                forall|j: int| 0 <= j < listed@.len() ==> (#[trigger] listed@[j]) < given.edges.len(),
                                self.duplicate_for(c, v as int, listed@, k as int, builder@) == self.duplicate_for(
                                    c,
                                    v as int,
                                    listed@,
                                    1,
                                    before,
                                ),
                            decreases listed@.len() - k,
                        {
                            let at = builder.add_node(CallGraphNode::Duplicate { component_id: c });
                            builder.add_edge(v, at, EdgeKind::Clone);
                            let e = listed[k];
                            let moved = CallGraphEdge { from: at, to: builder.edges[e].to, kind: builder.edges[e].kind };
                            builder.edges.set(e, moved);
                            k += 1;
                        }
                    },
                    None => {
                        let ty = self.node_value_type(&graph.nodes, v);
                        let consumers = list_consumer_ids(&graph.nodes, &graph.edges, &listed);
                        builder.add_error(Failure::AliasingConflict { ty, consumers });
                    },
                }
            }
            v += 1;
        }
        builder
    }
}

/// The listed edges are exactly the edges before `upto` that hand the value
/// of node `v` to a consumer, in increasing order.
pub proof fn lemma_consumer_edges(edges: Seq<CallGraphEdge>, v: int, upto: int)
    requires
        0 <= upto <= edges.len() <= usize::MAX,
    ensures
        forall|e: int|
            0 <= e < upto && consumes_from(edges, e, v) ==> consumer_edges(edges, v, upto).contains(e as usize),
        forall|k: int|
            0 <= k < consumer_edges(edges, v, upto).len() ==> (#[trigger] consumer_edges(edges, v, upto)[k]) < upto
                && consumes_from(edges, consumer_edges(edges, v, upto)[k] as int, v),
        forall|j: int, k: int|
            0 <= j < k < consumer_edges(edges, v, upto).len() ==> consumer_edges(edges, v, upto)[j] < consumer_edges(
                edges,
                v,
                upto,
            )[k],
    decreases upto,
{
    if upto > 0 {
        lemma_consumer_edges(edges, v, upto - 1);
        let rest = consumer_edges(edges, v, upto - 1);
        let all = consumer_edges(edges, v, upto);
        assert forall|e: int| 0 <= e < upto && consumes_from(edges, e, v) implies all.contains(e as usize) by {
            if e == upto - 1 {
                assert(all[rest.len() as int] == e as usize);
            } else {
                assert(rest.contains(e as usize));
                let k = choose|k: int| 0 <= k < rest.len() && rest[k] == e as usize;
                assert(all[k] == e as usize);
            }
        }
        assert forall|k: int| 0 <= k < all.len() implies (#[trigger] all[k]) < upto && consumes_from(
            edges,
            all[k] as int,
            v,
        ) by {
            if k < rest.len() {
                assert(all[k] == rest[k]);
            }
        }
        assert forall|j: int, k: int| 0 <= j < k < all.len() implies all[j] < all[k] by {
            assert(all[j] == rest[j]);
            if k < rest.len() {
                assert(all[k] == rest[k]);
            }
        }
    }
}

/// One of the listed edges needs the value to itself if and only if the
/// check finds one.
pub proof fn lemma_any_exclusive(edges: Seq<CallGraphEdge>, listed: Seq<usize>, upto: int, k: int)
    requires
        0 <= k < upto <= listed.len(),
        listed[k] < edges.len(),
        edges[listed[k] as int].kind matches EdgeKind::Consume(access) && access.excludes_others(),
    ensures
        any_exclusive(edges, listed, upto),
    decreases upto,
{
    if k < upto - 1 {
        lemma_any_exclusive(edges, listed, upto - 1, k);
    }
}

impl ComponentDb {
    /// Giving consumers a clone adds no failure.
    pub proof fn lemma_duplicate_for_keeps_failures(
        self,
        c: UserComponentId,
        v: int,
        listed: Seq<usize>,
        k: int,
        st: GraphState,
    )
        ensures
            self.duplicate_for(c, v, listed, k, st).errors == st.errors,
        decreases listed.len() - k,
    {
        if 0 <= k < listed.len() {
            let at = st.nodes.len() as int;
            let next = st.with_node(CallGraphNode::Duplicate { component_id: c }).with_edge(v, at, EdgeKind::Clone).redirected(
                listed[k] as int,
                at,
            );
            self.lemma_duplicate_for_keeps_failures(c, v, listed, k + 1, next);
        }
    }

    /// Giving consumers a clone adds a node for each of them, after the nodes
    /// that were there.
    pub proof fn lemma_duplicate_for(self, c: UserComponentId, v: int, listed: Seq<usize>, k: int, st: GraphState)
        requires
            0 <= k <= listed.len(),
        ensures
            self.duplicate_for(c, v, listed, k, st).nodes.len() == st.nodes.len() + listed.len() - k,
            forall|i: int|
                st.nodes.len() <= i < st.nodes.len() + listed.len() - k ==> self.duplicate_for(
                    c,
                    v,
                    listed,
                    k,
                    st,
                ).nodes[i] == (CallGraphNode::Duplicate { component_id: c }),
            forall|i: int| 0 <= i < st.nodes.len() ==> self.duplicate_for(c, v, listed, k, st).nodes[i] == st.nodes[i],
        decreases listed.len() - k,
    {
        if k < listed.len() {
            let at = st.nodes.len() as int;
            let next = st.with_node(CallGraphNode::Duplicate { component_id: c }).with_edge(v, at, EdgeKind::Clone).redirected(
                listed[k] as int,
                at,
            );
            assert(next.nodes == st.nodes.push(CallGraphNode::Duplicate { component_id: c }));
            self.lemma_duplicate_for(c, v, listed, k + 1, next);
            let done = self.duplicate_for(c, v, listed, k, st);
            assert(done == self.duplicate_for(c, v, listed, k + 1, next));
            assert forall|i: int| st.nodes.len() <= i < st.nodes.len() + listed.len() - k implies done.nodes[i] == (
            CallGraphNode::Duplicate { component_id: c }) by {
                if i == st.nodes.len() {
                    assert(done.nodes[i] == next.nodes[i]);
                }
            }
            assert forall|i: int| 0 <= i < st.nodes.len() implies done.nodes[i] == st.nodes[i] by {
                assert(done.nodes[i] == next.nodes[i]);
            }
        }
    }

    /// Reconciling a node takes no failure away.
    pub proof fn lemma_settle_node_keeps_failures(self, given: GraphState, v: int, st: GraphState)
        ensures
            st.errors.len() <= self.settle_node(given, v, st).errors.len(),
            forall|i: int| 0 <= i < st.errors.len() ==> self.settle_node(given, v, st).errors[i] == st.errors[i],
    {
        let listed = consumer_edges(given.edges, v, given.edges.len() as int);
        match owner_of(given.nodes, v) {
            Some(c) => {
                self.lemma_duplicate_for_keeps_failures(c, v, listed, 1, st);
            },
            None => {},
        }
    }

    /// Reconciling the nodes from the `v`-th on takes no failure away.
    pub proof fn lemma_settle_keeps_failures(self, given: GraphState, v: int, st: GraphState)
        ensures
            st.errors.len() <= self.settle_from(given, v, st).errors.len(),
            forall|i: int| 0 <= i < st.errors.len() ==> self.settle_from(given, v, st).errors[i] == st.errors[i],
        decreases given.nodes.len() - v,
    {
        if 0 <= v < given.nodes.len() {
            self.lemma_settle_node_keeps_failures(given, v, st);
            self.lemma_settle_keeps_failures(given, v + 1, self.settle_node(given, v, st));
        }
    }

    /// The failure that node `v` of a graph is reported with when its value
    /// is taken by consumers that cannot share it and cannot be cloned.
    pub open spec fn conflict_at(self, graph: GraphState, v: int) -> ConfigErrorView {
        let listed = consumer_edges(graph.edges, v, graph.edges.len() as int);
        Failure::AliasingConflict {
            ty: self.value_type(graph.nodes, v),
            consumers: consumer_ids(graph.nodes, graph.edges, listed, listed.len() as int),
        }
    }

    /// Where the failure of node `v` is due, reconciling the nodes from an
    /// earlier one on reports it.
    pub proof fn lemma_settle_reports(self, given: GraphState, from: int, v: int, st: GraphState)
        requires
            0 <= from <= v < given.nodes.len(),
            self.settle_node(given, v, st).errors == st.errors.push(self.conflict_at(given, v)),
            forall|other: GraphState| #[trigger]
                self.settle_node(given, v, other).errors == other.errors.push(self.conflict_at(given, v)),
        ensures
            self.settle_from(given, from, st).errors.contains(self.conflict_at(given, v)),
        decreases v - from,
    {
        if from == v {
            let reported = self.settle_node(given, v, st);
            assert(reported.errors[st.errors.len() as int] == self.conflict_at(given, v));
            self.lemma_settle_keeps_failures(given, v + 1, reported);
            assert(self.settle_from(given, v + 1, reported).errors[st.errors.len() as int] == self.conflict_at(
                given,
                v,
            ));
        } else {
            let next = self.settle_node(given, from, st);
            assert(self.settle_node(given, v, next).errors == next.errors.push(self.conflict_at(given, v)));
            self.lemma_settle_reports(given, from + 1, v, next);
        }
    }

    /// Two consumers that take the same value, one of them to itself, are an
    /// aliasing conflict where the value cannot be cloned: the ownership check
    /// reports the conflict, with the type of the value and the consumers.
    pub proof fn lemma_unclonable_conflict_is_reported(self, graph: GraphState, v: int, first: int, second: int)
        requires
            0 <= v < graph.nodes.len(),
            graph.edges.len() <= usize::MAX,
            first != second,
            consumes_from(graph.edges, first, v),
            consumes_from(graph.edges, second, v),
            graph.edges[first].kind matches EdgeKind::Consume(access) && access.excludes_others(),
            owner_of(graph.nodes, v) matches Some(c) ==> !self.may_clone(c),
        ensures
            self.settled(graph).errors.contains(self.conflict_at(graph, v)),
    {
        let listed = consumer_edges(graph.edges, v, graph.edges.len() as int);
        lemma_consumer_edges(graph.edges, v, graph.edges.len() as int);
        assert(listed.contains(first as usize));
        assert(listed.contains(second as usize));
        let i = choose|i: int| 0 <= i < listed.len() && listed[i] == first as usize;
        let j = choose|j: int| 0 <= j < listed.len() && listed[j] == second as usize;
        assert(i != j);
        lemma_any_exclusive(graph.edges, listed, listed.len() as int, i);
        assert forall|other: GraphState| #[trigger]
            self.settle_node(graph, v, other).errors == other.errors.push(self.conflict_at(graph, v)) by {}
        self.lemma_settle_reports(graph, 0, v, graph);
    }

    /// Where the value can be cloned, the same two consumers are no failure:
    /// every consumer but the first is given a clone of its own.
    pub proof fn lemma_clonable_conflict_is_cloned(
        self,
        graph: GraphState,
        v: int,
        first: int,
        second: int,
        st: GraphState,
    )
        requires
            0 <= v < graph.nodes.len(),
            graph.edges.len() <= usize::MAX,
            first != second,
            consumes_from(graph.edges, first, v),
            consumes_from(graph.edges, second, v),
            graph.edges[first].kind matches EdgeKind::Consume(access) && access.excludes_others(),
            owner_of(graph.nodes, v) matches Some(c) && self.may_clone(c),
        ensures
            self.settle_node(graph, v, st).errors == st.errors,
            self.settle_node(graph, v, st).nodes.len() == st.nodes.len() + consumer_edges(
                graph.edges,
                v,
                graph.edges.len() as int,
            ).len() - 1,
            forall|i: int|
                st.nodes.len() <= i < self.settle_node(graph, v, st).nodes.len() ==> self.settle_node(
                    graph,
                    v,
                    st,
                ).nodes[i] == (CallGraphNode::Duplicate { component_id: owner_of(graph.nodes, v)->0 }),
    {
        let listed = consumer_edges(graph.edges, v, graph.edges.len() as int);
        lemma_consumer_edges(graph.edges, v, graph.edges.len() as int);
        assert(listed.contains(first as usize));
        assert(listed.contains(second as usize));
        let i = choose|i: int| 0 <= i < listed.len() && listed[i] == first as usize;
        let j = choose|j: int| 0 <= j < listed.len() && listed[j] == second as usize;
        assert(i != j);
        lemma_any_exclusive(graph.edges, listed, listed.len() as int, i);
        self.lemma_duplicate_for_keeps_failures(owner_of(graph.nodes, v)->0, v, listed, 1, st);
        self.lemma_duplicate_for(owner_of(graph.nodes, v)->0, v, listed, 1, st);
    }
}

impl ComponentDb {
    /// Reconciling a node keeps every node where it is.
    pub proof fn lemma_settle_node_keeps_nodes(self, given: GraphState, v: int, st: GraphState)
        ensures
            st.nodes.len() <= self.settle_node(given, v, st).nodes.len(),
            forall|i: int| 0 <= i < st.nodes.len() ==> self.settle_node(given, v, st).nodes[i] == st.nodes[i],
    {
        let listed = consumer_edges(given.edges, v, given.edges.len() as int);
        if listed.len() >= 2 {
            match owner_of(given.nodes, v) {
                Some(c) => {
                    self.lemma_duplicate_for(c, v, listed, 1, st);
                },
                None => {},
            }
        }
    }

    /// The ownership check keeps every node where it is: the terminal node of
    /// a graph stays its node 0.
    pub proof fn lemma_settle_keeps_nodes(self, given: GraphState, v: int, st: GraphState)
        ensures
            st.nodes.len() <= self.settle_from(given, v, st).nodes.len(),
            forall|i: int| 0 <= i < st.nodes.len() ==> self.settle_from(given, v, st).nodes[i] == st.nodes[i],
        decreases given.nodes.len() - v,
    {
        if 0 <= v < given.nodes.len() {
            self.lemma_settle_node_keeps_nodes(given, v, st);
            self.lemma_settle_keeps_nodes(given, v + 1, self.settle_node(given, v, st));
        }
    }
}

impl ComponentDb {
    /// Reconciling a node adds clones and no other node.
    pub proof fn lemma_settle_node_adds_clones(self, given: GraphState, v: int, st: GraphState, base: int)
        requires
            0 <= base <= st.nodes.len(),
            forall|i: int| base <= i < st.nodes.len() ==> #[trigger] st.nodes[i] is Duplicate,
        ensures
            forall|i: int|
                base <= i < self.settle_node(given, v, st).nodes.len() ==> #[trigger] self.settle_node(
                    given,
                    v,
                    st,
                ).nodes[i] is Duplicate,
    {
        let listed = consumer_edges(given.edges, v, given.edges.len() as int);
        let after = self.settle_node(given, v, st);
        self.lemma_settle_node_keeps_nodes(given, v, st);
        if listed.len() >= 2 {
            match owner_of(given.nodes, v) {
                Some(c) => {
                    self.lemma_duplicate_for(c, v, listed, 1, st);
                },
                None => {},
            }
        }
        assert forall|i: int| base <= i < after.nodes.len() implies #[trigger] after.nodes[i] is Duplicate by {
            if i < st.nodes.len() {
                assert(after.nodes[i] == st.nodes[i]);
            }
        }
    }

    /// The ownership check adds clones and no other node.
    pub proof fn lemma_settle_adds_clones(self, given: GraphState, v: int, st: GraphState, base: int)
        requires
            0 <= base <= st.nodes.len(),
            forall|i: int| base <= i < st.nodes.len() ==> #[trigger] st.nodes[i] is Duplicate,
        ensures
            forall|i: int|
                base <= i < self.settle_from(given, v, st).nodes.len() ==> #[trigger] self.settle_from(
                    given,
                    v,
                    st,
                ).nodes[i] is Duplicate,
        decreases given.nodes.len() - v,
    {
        if 0 <= v < given.nodes.len() {
            self.lemma_settle_node_adds_clones(given, v, st, base);
            self.lemma_settle_node_keeps_nodes(given, v, st);
            self.lemma_settle_adds_clones(given, v + 1, self.settle_node(given, v, st), base);
        }
    }
}

} // verus!
