//! The pipeline of a request handler: a call graph for each middleware around
//! it and one for the handler itself.
//!
//! The stages are listed in the order of the handler's middleware, from the
//! root scope down. Pre-processing middleware runs first, in that order, and
//! before anything the handler needs is built. Wrapping middleware then wraps
//! what is left, the first the outermost. Post-processing middleware runs on
//! the response, in that same order.

use vstd::prelude::*;
use crate::call_graph::{CallGraph, GraphBuilder, GraphState};
use crate::diagnostic::{failures_view, ConfigError, ConfigErrorView};
use crate::model::{ComponentKind, UserComponentId};
use crate::resolver::{ComponentDb, GraphKind};

verus! {

/// One stage of a pipeline: a middleware, or the handler, with its call graph.
#[derive(Debug, Clone, PartialEq, Eq)]
pub struct Stage {
    pub component_id: UserComponentId,
    pub call_graph: CallGraph,
    /// For a wrapping middleware, what its continuation invokes: the next
    /// wrapping middleware, or the handler after the last. The middleware may
    /// leave it uninvoked. `None` for every other stage.
    pub continuation: Option<UserComponentId>,
}

/// The pipeline of one request handler.
#[derive(Debug, Clone, PartialEq, Eq)]
pub struct RequestHandlerPipeline {
    pub handler_id: UserComponentId,
    /// One stage for each middleware of the handler, in their order.
    pub middleware_stages: Vec<Stage>,
    /// The stage of the handler itself.
    pub handler_stage: Stage,
}

impl ComponentDb {
    /// The finished call graph of `terminal`: built, then reconciled. Its
    /// failures are those of the walk followed by those of the ownership check.
    pub open spec fn finished_graph(self, kind: GraphKind, observers: Seq<UserComponentId>, terminal: UserComponentId) -> GraphState {
        let built = self.call_graph_of(kind, observers, terminal);
        let settled = self.settled(GraphState { errors: Seq::empty(), ..built });
        GraphState { nodes: settled.nodes, edges: settled.edges, errors: built.errors + settled.errors }
    }

    /// The error observers of `handler`.
    pub open spec fn observers_of(self, handler: UserComponentId) -> Seq<UserComponentId> {
        self.components@[handler as int].error_observers@
    }

    /// The failures of the first `upto` middleware stages of `handler`.
    pub open spec fn stage_failures(self, handler: UserComponentId, upto: int) -> Seq<ConfigErrorView>
        decreases upto,
    {
        if upto <= 0 {
            Seq::empty()
        } else {
            self.stage_failures(handler, upto - 1) + self.finished_graph(
                GraphKind::RequestHandling,
                self.observers_of(handler),
                self.components@[handler as int].middleware@[upto - 1],
            ).errors
        }
    }

    /// The failures of the pipeline of `handler`: those of its middleware
    /// stages in order, then those of the handler's own stage.
    pub open spec fn pipeline_failures(self, handler: UserComponentId) -> Seq<ConfigErrorView> {
        self.stage_failures(handler, self.components@[handler as int].middleware@.len() as int)
            + self.finished_graph(GraphKind::RequestHandling, self.observers_of(handler), handler).errors
    }

    /// Whether `stage` is the finished stage of `component` in the pipeline of
    /// `handler`, but for its continuation.
    pub open spec fn is_stage_of(self, stage: Stage, handler: UserComponentId, component: UserComponentId) -> bool {
        let finished = self.finished_graph(GraphKind::RequestHandling, self.observers_of(handler), component);
        &&& stage.component_id == component
        &&& stage.call_graph.nodes@ == finished.nodes
        &&& stage.call_graph.edges@ == finished.edges
        &&& crate::graph_order::is_acyclic(stage.call_graph@)
        &&& self.consumes_transients_once(stage.call_graph@)
        &&& (!self.is_singleton(component as int) ==> self.computes_no_singleton(stage.call_graph@))
    }

    /// Whether `c` is a wrapping middleware.
    pub open spec fn wraps(self, c: UserComponentId) -> bool {
        self.has(c) && self.components@[c as int].kind == ComponentKind::WrappingMiddleware
    }

    /// The first wrapping middleware among the listed components from the
    /// `k`-th on, and `handler` if there is none.
    pub open spec fn downstream_from(self, listed: Seq<UserComponentId>, k: int, handler: UserComponentId) -> UserComponentId
        decreases listed.len() - k,
    {
        if 0 <= k < listed.len() {
            if self.wraps(listed[k]) {
                listed[k]
            } else {
                self.downstream_from(listed, k + 1, handler)
            }
        } else {
            handler
        }
    }

    /// What the continuation of the `k`-th middleware of `handler` invokes,
    /// if that middleware is a wrapping middleware: the next wrapping
    /// middleware after it, or the handler.
    pub open spec fn continuation_of(self, handler: UserComponentId, k: int) -> Option<UserComponentId> {
        let listed = self.components@[handler as int].middleware@;
        if 0 <= k < listed.len() && self.wraps(listed[k]) {
            Some(self.downstream_from(listed, k + 1, handler))
        } else {
            None
        }
    }

    /// The first wrapping middleware among the listed components from the
    /// `k`-th on, and `handler` if there is none.
    pub fn find_downstream(&self, listed: &Vec<UserComponentId>, k: usize, handler: UserComponentId) -> (next:
        UserComponentId)
        ensures
            next == self.downstream_from(listed@, k as int, handler),
    {
        let mut i: usize = k;
        while i < listed.len()
            invariant
                k <= i,
                self.downstream_from(listed@, i as int, handler) == self.downstream_from(listed@, k as int, handler),
            decreases listed@.len() - i,
        {
            let id = listed[i];
            if id < self.components.len() && self.components[id].kind == ComponentKind::WrappingMiddleware {
                return id;
            }
            i += 1;
        }
        handler
    }

    /// Those of the first `n` listed components that are of this kind, in
    /// order.
    pub open spec fn of_kind_upto(self, listed: Seq<UserComponentId>, kind: ComponentKind, n: int) -> Seq<
        UserComponentId,
    >
        decreases n,
    {
        if n <= 0 {
            Seq::empty()
        } else if n <= listed.len() && self.has(listed[n - 1]) && self.components@[listed[n - 1] as int].kind
            == kind {
            self.of_kind_upto(listed, kind, n - 1).push(listed[n - 1])
        } else {
            self.of_kind_upto(listed, kind, n - 1)
        }
    }

    /// The order in which the stages of the pipeline of `handler` run: its
    /// pre-processing middleware, then its wrapping middleware from the
    /// outermost in, then the handler, then its post-processing middleware;
    /// each kind in the order of the handler's middleware.
    pub open spec fn execution_order(self, handler: UserComponentId) -> Seq<UserComponentId> {
        let listed = self.components@[handler as int].middleware@;
        let n = listed.len() as int;
        self.of_kind_upto(listed, ComponentKind::PreProcessingMiddleware, n) + self.of_kind_upto(
            listed,
            ComponentKind::WrappingMiddleware,
            n,
        ) + seq![handler] + self.of_kind_upto(listed, ComponentKind::PostProcessingMiddleware, n)
    }

    /// Appends those of the listed components that are of this kind, in
    /// order.
    pub fn append_of_kind(&self, listed: &Vec<UserComponentId>, kind: ComponentKind, order: &mut Vec<UserComponentId>)
        ensures
            final(order)@ == old(order)@ + self.of_kind_upto(listed@, kind, listed@.len() as int),
    {
        let mut i: usize = 0;
        assert(order@ =~= old(order)@ + self.of_kind_upto(listed@, kind, 0));
        while i < listed.len()
            invariant
                i <= listed@.len(),
                order@ == old(order)@ + self.of_kind_upto(listed@, kind, i as int),
            decreases listed@.len() - i,
        {
            let id = listed[i];
            if id < self.components.len() && self.components[id].kind == kind {
                order.push(id);
            }
            i += 1;
            assert(order@ =~= old(order)@ + self.of_kind_upto(listed@, kind, i as int));
        }
    }

    /// The order in which the stages of the pipeline of `handler` run.
    pub fn order_of_execution(&self, handler: UserComponentId) -> (order: Vec<UserComponentId>)
        requires
            self.has(handler),
        ensures
            order@ == self.execution_order(handler),
    {
        let listed = &self.components[handler].middleware;
        let mut order: Vec<UserComponentId> = Vec::new();
        self.append_of_kind(listed, ComponentKind::PreProcessingMiddleware, &mut order);
        self.append_of_kind(listed, ComponentKind::WrappingMiddleware, &mut order);
        order.push(handler);
        self.append_of_kind(listed, ComponentKind::PostProcessingMiddleware, &mut order);
        assert(order@ =~= self.execution_order(handler));
        order
    }

    /// Whether `pipeline` is the finished pipeline of `handler`.
    pub open spec fn is_pipeline_of(self, pipeline: RequestHandlerPipeline, handler: UserComponentId) -> bool {
        &&& pipeline.handler_id == handler
        &&& self.is_stage_of(pipeline.handler_stage, handler, handler)
        &&& pipeline.handler_stage.continuation is None
        &&& pipeline.middleware_stages@.len() == self.components@[handler as int].middleware@.len()
        &&& forall|k: int|
            0 <= k < pipeline.middleware_stages@.len() ==> self.is_stage_of(
                #[trigger] pipeline.middleware_stages@[k],
                handler,
                self.components@[handler as int].middleware@[k],
            ) && pipeline.middleware_stages@[k].continuation == self.continuation_of(handler, k)
    }

    /// Builds the call graph of `terminal` and reconciles the consumers of
    /// every value in it. Returns the graph with every failure met.
    pub fn finish_call_graph(&self, kind: GraphKind, terminal: UserComponentId, observers: &Vec<UserComponentId>) -> (r: (
        CallGraph,
        Vec<ConfigError>,
    ))
        requires
            self.wf(),
        ensures
            r.0.nodes@ == self.finished_graph(kind, observers@, terminal).nodes,
            r.0.edges@ == self.finished_graph(kind, observers@, terminal).edges,
            failures_view(r.1@) == self.finished_graph(kind, observers@, terminal).errors,
            crate::graph_order::is_acyclic(r.0@),
            self.consumes_transients_once(r.0@),
            kind == GraphKind::RequestHandling && !self.is_singleton(terminal as int) ==> self.computes_no_singleton(
                r.0@,
            ),
    {
        let mut builder = GraphBuilder::new();
        let mut path: Vec<UserComponentId> = Vec::new();
        self.expand_into(kind, observers, terminal, &mut path, &mut builder);
        let built = CallGraph { nodes: builder.nodes, edges: builder.edges };
        let mut errors = builder.errors;
        let settled = self.settle_aliasing(&built);
        let ghost walk_errors = errors@;
        let mut late = settled.errors;
        let ghost late_errors = late@;
        errors.append(&mut late);
        assert(failures_view(errors@) =~= failures_view(walk_errors) + failures_view(late_errors));
        let finished = CallGraph { nodes: settled.nodes, edges: settled.edges };
        proof {
            assert(built.edges@.len() == built.edges.len());
            assert(finished.nodes@.len() == finished.nodes.len());
            self.lemma_finished_graph_is_acyclic(kind, observers@, terminal);
            crate::graph_order::lemma_same_shape_is_acyclic(self.finished_graph(kind, observers@, terminal), finished@);
            self.lemma_finished_graph_consumes_transients_once(kind, observers@, terminal);
            crate::graph_consumers::lemma_same_shape_same_consumers(
                *self,
                self.finished_graph(kind, observers@, terminal),
                finished@,
            );
            if kind == GraphKind::RequestHandling && !self.is_singleton(terminal as int) {
                crate::graph_facts::lemma_finished_graph_computes_no_singleton(*self, observers@, terminal);
                let spec_graph = self.finished_graph(kind, observers@, terminal);
                assert forall|i: int| 0 <= i < finished@.nodes.len() implies ((
                #[trigger] finished@.nodes[i]) matches crate::call_graph::CallGraphNode::Compute { component_id }
                    ==> !self.is_singleton(component_id as int)) by {
                    assert(finished@.nodes[i] == spec_graph.nodes[i]);
                }
            }
        }
        (finished, errors)
    }

    /// Builds the pipeline of `handler`: a stage for each of its middleware
    /// and one for the handler. Where any stage fails, the failures of all
    /// stages are returned, in the order of the stages.
    pub fn build_pipeline(&self, handler: UserComponentId) -> (r: Result<RequestHandlerPipeline, Vec<ConfigError>>)
        requires
            self.wf(),
            self.has(handler),
        ensures
            match r {
                Ok(pipeline) => {
                    &&& self.pipeline_failures(handler).len() == 0
                    &&& self.is_pipeline_of(pipeline, handler)
                },
                Err(errors) => {
                    &&& errors@.len() > 0
                    &&& failures_view(errors@) == self.pipeline_failures(handler)
                },
            },
    {
        let observers = &self.components[handler].error_observers;
        let middleware = &self.components[handler].middleware;
        let mut stages: Vec<Stage> = Vec::new();
        let mut errors: Vec<ConfigError> = Vec::new();
        assert(failures_view(errors@) =~= Seq::<ConfigErrorView>::empty());
        let mut k: usize = 0;
        while k < middleware.len()
            invariant
                self.wf(),
                self.has(handler),
                observers@ == self.observers_of(handler),
                middleware@ == self.components@[handler as int].middleware@,
                k <= middleware@.len(),
                stages@.len() == k,
                forall|j: int|
                    0 <= j < k ==> self.is_stage_of(#[trigger] stages@[j], handler, middleware@[j])
                        && stages@[j].continuation == self.continuation_of(handler, j),
                failures_view(errors@) == self.stage_failures(handler, k as int),
            decreases middleware@.len() - k,
        {
            let (call_graph, mut failures) = self.finish_call_graph(GraphKind::RequestHandling, middleware[k], observers);
            let ghost earlier = errors@;
            let ghost added = failures@;
            errors.append(&mut failures);
            assert(failures_view(errors@) =~= failures_view(earlier) + failures_view(added));
            let id = middleware[k];
            let continuation = if id < self.components.len() && self.components[id].kind
                == ComponentKind::WrappingMiddleware {
                Some(self.find_downstream(middleware, k + 1, handler))
            } else {
                None
            };
            stages.push(Stage { component_id: id, call_graph, continuation });
            k += 1;
        }
        let (call_graph, mut failures) = self.finish_call_graph(GraphKind::RequestHandling, handler, observers);
        let ghost earlier = errors@;
        let ghost added = failures@;
        errors.append(&mut failures);
        assert(failures_view(errors@) =~= failures_view(earlier) + failures_view(added));
        if errors.len() == 0 {
            Ok(
                RequestHandlerPipeline {
                    handler_id: handler,
                    middleware_stages: stages,
                    handler_stage: Stage { component_id: handler, call_graph, continuation: None },
                },
            )
        } else {
            Err(errors)
        }
    }
}

} // verus!
