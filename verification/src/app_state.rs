//! The application state: the one graph that builds every singleton when the
//! application starts, the slots that hold them and the error that startup
//! can fail with.
//!
//! Node 0 of the graph gathers the singletons. A singleton that fails aborts
//! startup: its branch node has no error handler behind it, and its error is a
//! variant of the startup error.

use vstd::prelude::*;
use crate::call_graph::{CallGraph, CallGraphNode, EdgeKind, GraphBuilder, GraphState};
use crate::diagnostic::{failures_view, ConfigError};
use crate::model::{Lifecycle, TypeId, UserComponentId};
use crate::resolver::{ComponentDb, GraphKind};

verus! {

/// The slots of the application state: slot `i` holds the value of the
/// singleton `bindings[i]`.
#[derive(Debug, Clone, PartialEq, Eq)]
pub struct ApplicationState {
    pub bindings: Vec<UserComponentId>,
}

/// One way in which startup can fail: the error of a fallible singleton.
#[derive(Debug, Clone, Copy, PartialEq, Eq, Hash, Structural)]
pub struct ErrorVariant {
    pub component_id: UserComponentId,
    pub error: TypeId,
}

/// The error of startup: one variant for each fallible singleton.
#[derive(Debug, Clone, PartialEq, Eq)]
pub struct ApplicationStateError {
    pub variants: Vec<ErrorVariant>,
}

/// The graph that builds the application state, with its slots and its
/// error.
#[derive(Debug, Clone, PartialEq, Eq)]
pub struct ApplicationStateCallGraph {
    pub call_graph: CallGraph,
    pub application_state: ApplicationState,
    pub error: ApplicationStateError,
}

impl ComponentDb {
    /// Whether `c` is a singleton that the application state holds.
    pub open spec fn is_singleton(self, c: int) -> bool {
        0 <= c < self.components@.len() && self.is_producer(c) && self.components@[c].lifecycle
            == Lifecycle::Singleton
    }

    /// The singletons among the first `n` components, in order.
    pub open spec fn singletons_upto(self, n: int) -> Seq<UserComponentId>
        decreases n,
    {
        if n <= 0 {
            Seq::empty()
        } else if self.is_singleton(n - 1) {
            self.singletons_upto(n - 1).push((n - 1) as usize)
        } else {
            self.singletons_upto(n - 1)
        }
    }

    /// The errors of the fallible singletons among the first `n` components,
    /// in order.
    pub open spec fn error_variants_upto(self, n: int) -> Seq<ErrorVariant>
        decreases n,
    {
        if n <= 0 {
            Seq::empty()
        } else if self.is_singleton(n - 1) && self.components@[n - 1].error is Some {
            self.error_variants_upto(n - 1).push(
                ErrorVariant { component_id: (n - 1) as usize, error: self.components@[n - 1].error->0 },
            )
        } else {
            self.error_variants_upto(n - 1)
        }
    }

    /// The state after singleton `c` was stored in the application state: it
    /// is built first, with what it needs, unless the graph holds it already.
    pub open spec fn store_singleton(self, c: UserComponentId, st: GraphState) -> GraphState {
        let shared = CallGraphNode::Compute { component_id: c };
        if st.nodes.contains(shared) {
            st.with_edge(self.value_node(c, st.shared_node_index(shared)), 0, EdgeKind::Store)
        } else {
            self.expand(GraphKind::ApplicationState, Seq::empty(), c, Seq::empty(), st).with_edge(
                self.value_node(c, st.nodes.len() as int),
                0,
                EdgeKind::Store,
            )
        }
    }

    /// The state after every singleton from the `c`-th component on was
    /// stored.
    pub open spec fn store_singletons_from(self, c: int, st: GraphState) -> GraphState
        decreases self.components@.len() - c,
    {
        if 0 <= c < self.components@.len() {
            self.store_singletons_from(
                c + 1,
                if self.is_singleton(c) {
                    self.store_singleton(c as usize, st)
                } else {
                    st
                },
            )
        } else {
            st
        }
    }

    /// The graph that builds every singleton, before the ownership check.
    pub open spec fn state_graph(self) -> GraphState {
        self.store_singletons_from(0, GraphState::empty().with_node(CallGraphNode::StateAggregate))
    }

    /// The finished graph of the application state. Its failures are those of
    /// the walk followed by those of the ownership check.
    pub open spec fn finished_state_graph(self) -> GraphState {
        let built = self.state_graph();
        let settled = self.settled(GraphState { errors: Seq::empty(), ..built });
        GraphState { nodes: settled.nodes, edges: settled.edges, errors: built.errors + settled.errors }
    }

    /// Whether `state` is the finished graph of the application state, with
    /// a slot for every singleton and a variant for every fallible one.
    pub open spec fn is_state_graph(self, state: ApplicationStateCallGraph) -> bool {
        &&& state.call_graph.nodes@ == self.finished_state_graph().nodes
        &&& state.call_graph.edges@ == self.finished_state_graph().edges
        &&& crate::graph_order::is_acyclic(state.call_graph@)
        &&& self.consumes_transients_once(state.call_graph@)
        &&& state.application_state.bindings@ == self.singletons_upto(self.components@.len() as int)
        &&& state.error.variants@ == self.error_variants_upto(self.components@.len() as int)
    }

    /// Whether `c` is a singleton that the application state holds.
    pub fn holds_singleton(&self, c: UserComponentId) -> (r: bool)
        ensures
            r == self.is_singleton(c as int),
    {
        if c >= self.components.len() {
            return false;
        }
        let producer = match self.components[c].kind {
            crate::model::ComponentKind::Constructor => true,
            crate::model::ComponentKind::PrebuiltType => true,
            crate::model::ComponentKind::ConfigType => true,
            _ => false,
        };
        let singleton = match self.components[c].lifecycle {
            Lifecycle::Singleton => true,
            _ => false,
        };
        producer && singleton
    }

    /// Builds the one graph that covers every singleton, the slots of the
    /// application state and the error of startup. Where the graph cannot be
    /// built, every failure is returned, in the order in which it was met.
    pub fn build_application_state(&self) -> (r: Result<ApplicationStateCallGraph, Vec<ConfigError>>)
        requires
            self.wf(),
        ensures
            match r {
                Ok(state) => {
                    &&& self.finished_state_graph().errors.len() == 0
                    &&& self.is_state_graph(state)
                },
                Err(errors) => {
                    &&& errors@.len() > 0
                    &&& failures_view(errors@) == self.finished_state_graph().errors
                },
            },
    {
        let mut builder = GraphBuilder::new();
        builder.add_node(CallGraphNode::StateAggregate);
        let mut bindings: Vec<UserComponentId> = Vec::new();
        let mut variants: Vec<ErrorVariant> = Vec::new();
        let mut path: Vec<UserComponentId> = Vec::new();
        let observers: Vec<UserComponentId> = Vec::new();
        let ghost start = builder@;
        let mut c: usize = 0;
        while c < self.components.len()
            invariant
                self.wf(),
                c <= self.components@.len(),
                path@ == Seq::<UserComponentId>::empty(),
                observers@ == Seq::<UserComponentId>::empty(),
                bindings@ == self.singletons_upto(c as int),
                variants@ == self.error_variants_upto(c as int),
                self.store_singletons_from(c as int, builder@) == self.store_singletons_from(0, start),
            decreases self.components@.len() - c,
        {
            if self.holds_singleton(c) {
                bindings.push(c);
                match self.components[c].error {
                    Some(error) => {
                        variants.push(ErrorVariant { component_id: c, error });
                    },
                    None => {},
                }
                let fallible = self.is_fallible(c);
                let at = match builder.find_node(CallGraphNode::Compute { component_id: c }) {
                    Some(found) => found,
                    None => {
                        let at = builder.nodes.len();
                        self.expand_into(GraphKind::ApplicationState, &observers, c, &mut path, &mut builder);
                        at
                    },
                };
                assert(builder.nodes@.len() == builder.nodes.len());
                if fallible {
                    builder.add_edge(at + 1, 0, EdgeKind::Store);
                } else {
                    builder.add_edge(at, 0, EdgeKind::Store);
                }
            }
            c += 1;
        }
        let built = CallGraph { nodes: builder.nodes, edges: builder.edges };
        let mut errors = builder.errors;
        let settled = self.settle_aliasing(&built);
        let ghost walk_errors = errors@;
        let mut late = settled.errors;
        let ghost late_errors = late@;
        errors.append(&mut late);
        assert(failures_view(errors@) =~= failures_view(walk_errors) + failures_view(late_errors));
        if errors.len() == 0 {
            let call_graph = CallGraph { nodes: settled.nodes, edges: settled.edges };
            proof {
                assert(built.edges@.len() == built.edges.len());
                assert(call_graph.nodes@.len() == call_graph.nodes.len());
                self.lemma_finished_state_graph_is_acyclic();
                crate::graph_order::lemma_same_shape_is_acyclic(self.finished_state_graph(), call_graph@);
                self.lemma_finished_state_graph_consumes_transients_once();
                crate::graph_consumers::lemma_same_shape_same_consumers(*self, self.finished_state_graph(), call_graph@);
            }
            Ok(
                ApplicationStateCallGraph {
                    call_graph,
                    application_state: ApplicationState { bindings },
                    error: ApplicationStateError { variants },
                },
            )
        } else {
            Err(errors)
        }
    }
}

} // verus!
