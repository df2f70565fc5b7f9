//! The whole build: a pipeline for every request handler and fallback, and
//! the graph of the application state. A handler that cannot be built does
//! not stop the others: the failures of all of them are reported together.

use vstd::prelude::*;
use crate::app_state::ApplicationStateCallGraph;
use crate::diagnostic::{failures_view, ConfigError, ConfigErrorView};
use crate::model::{ComponentKind, UserComponentId};
use crate::pipeline::RequestHandlerPipeline;
use crate::resolver::ComponentDb;

verus! {

/// What the build hands to the code generator.
#[derive(Debug, Clone, PartialEq, Eq)]
pub struct ExecutionPlan {
    /// One pipeline for each request handler and fallback, in the order of
    /// their identifiers.
    pub pipelines: Vec<RequestHandlerPipeline>,
    /// The graph that builds the singletons.
    pub application_state: ApplicationStateCallGraph,
}

impl ComponentDb {
    /// Whether `c` is a request handler or a fallback.
    pub open spec fn is_handler(self, c: int) -> bool {
        0 <= c < self.components@.len() && (self.components@[c].kind == ComponentKind::RequestHandler
            || self.components@[c].kind == ComponentKind::Fallback)
    }

    /// The request handlers among the first `n` components, in order.
    pub open spec fn handlers_upto(self, n: int) -> Seq<UserComponentId>
        decreases n,
    {
        if n <= 0 {
            Seq::empty()
        } else if self.is_handler(n - 1) {
            self.handlers_upto(n - 1).push((n - 1) as usize)
        } else {
            self.handlers_upto(n - 1)
        }
    }

    /// The failures of the pipelines of the request handlers among the first
    /// `n` components, in order.
    pub open spec fn handler_failures_upto(self, n: int) -> Seq<ConfigErrorView>
        decreases n,
    {
        if n <= 0 {
            Seq::empty()
        } else if self.is_handler(n - 1) {
            self.handler_failures_upto(n - 1) + self.pipeline_failures((n - 1) as usize)
        } else {
            self.handler_failures_upto(n - 1)
        }
    }

    /// Every failure of the build: those of the pipelines, handler by
    /// handler, then those of the graph of the application state.
    pub open spec fn build_failures(self) -> Seq<ConfigErrorView> {
        self.handler_failures_upto(self.components@.len() as int) + self.finished_state_graph().errors
    }

    /// Builds the pipeline of every request handler and fallback and the
    /// graph of the application state. The plan is returned if nothing
    /// failed, and else every failure, whatever handler it comes from.
    pub fn compile(&self) -> (r: Result<ExecutionPlan, Vec<ConfigError>>)
        requires
            self.wf(),
        ensures
            match r {
                Ok(plan) => {
                    &&& self.build_failures().len() == 0
                    &&& plan.pipelines@.len() == self.handlers_upto(self.components@.len() as int).len()
                    &&& forall|k: int|
                        0 <= k < plan.pipelines@.len() ==> (#[trigger] plan.pipelines@[k]).handler_id
                            == self.handlers_upto(self.components@.len() as int)[k]
                    &&& forall|k: int|
                        0 <= k < plan.pipelines@.len() ==> self.is_pipeline_of(
                            #[trigger] plan.pipelines@[k],
                            self.handlers_upto(self.components@.len() as int)[k],
                        )
                    &&& self.is_state_graph(plan.application_state)
                },
                Err(errors) => {
                    &&& errors@.len() > 0
                    &&& failures_view(errors@) == self.build_failures()
                },
            },
    {
        let mut pipelines: Vec<RequestHandlerPipeline> = Vec::new();
        let mut errors: Vec<ConfigError> = Vec::new();
        assert(failures_view(errors@) =~= Seq::<ConfigErrorView>::empty());
        let mut c: usize = 0;
        while c < self.components.len()
            invariant
                self.wf(),
                c <= self.components@.len(),
                failures_view(errors@) == self.handler_failures_upto(c as int),
                errors@.len() == 0 ==> pipelines@.len() == self.handlers_upto(c as int).len(),
                errors@.len() == 0 ==> forall|k: int|
                    0 <= k < pipelines@.len() ==> (#[trigger] pipelines@[k]).handler_id == self.handlers_upto(
                        c as int,
                    )[k],
                errors@.len() == 0 ==> forall|k: int|
                    0 <= k < pipelines@.len() ==> self.is_pipeline_of(
                        #[trigger] pipelines@[k],
                        self.handlers_upto(c as int)[k],
                    ),
            decreases self.components@.len() - c,
        {
            let handler = match self.components[c].kind {
                ComponentKind::RequestHandler => true,
                ComponentKind::Fallback => true,
                _ => false,
            };
            if handler {
                let ghost earlier = errors@;
                match self.build_pipeline(c) {
                    Ok(pipeline) => {
                        assert(failures_view(errors@) + self.pipeline_failures(c) =~= failures_view(errors@));
                        pipelines.push(pipeline);
                    },
                    Err(mut failures) => {
                        let ghost added = failures@;
                        errors.append(&mut failures);
                        assert(failures_view(errors@) =~= failures_view(earlier) + failures_view(added));
                    },
                }
            }
            c += 1;
        }
        let ghost handler_errors = errors@;
        match self.build_application_state() {
            Ok(application_state) => {
                assert(failures_view(errors@) + self.finished_state_graph().errors =~= failures_view(errors@));
                if errors.len() == 0 {
                    Ok(ExecutionPlan { pipelines, application_state })
                } else {
                    Err(errors)
                }
            },
            Err(mut failures) => {
                let ghost added = failures@;
                errors.append(&mut failures);
                assert(failures_view(errors@) =~= failures_view(handler_errors) + failures_view(added));
                Err(errors)
            },
        }
    }
}

} // verus!
