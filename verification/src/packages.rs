//! The packages that the generated application depends on: those of every
//! type and every callable that a call graph mentions, each once, in the order
//! in which the graphs are walked.

use vstd::prelude::*;
use crate::call_graph::{CallGraph, CallGraphNode};
use crate::model::{Input, TypeId};
use crate::package_set::{
    insert_unique, package_set_get, package_set_insert, package_set_items, package_set_len, package_set_new,
};
use crate::pipeline::RequestHandlerPipeline;
use crate::resolver::ComponentDb;

verus! {

/// The identifier of a package of the dependency graph.
pub type PackageId = u64;

/// An argument of a generic type.
#[derive(Debug, Clone, Copy, PartialEq, Eq, Hash, Structural)]
pub enum GenericArgument {
    TypeParameter(TypeId),
    Lifetime,
}

/// What a type is made of.
#[derive(Debug, Clone, PartialEq, Eq, Hash)]
pub enum ResolvedType {
    /// A type defined in a package, with its generic arguments.
    ResolvedPath { package_id: PackageId, generic_arguments: Vec<GenericArgument> },
    Reference { inner: TypeId },
    Tuple { elements: Vec<TypeId> },
    Slice { element_type: TypeId },
    Generic,
    ScalarPrimitive,
}

/// The types of the application: the type with identifier `t` is the `t`-th.
/// A type is made of types that come before it.
#[derive(Debug, Clone, PartialEq, Eq)]
pub struct TypeTable {
    pub types: Vec<ResolvedType>,
}

impl ResolvedType {
    /// Whether every type that this type is made of comes before `whole`.
    pub open spec fn parts_precede(self, whole: TypeId) -> bool {
        match self {
            ResolvedType::ResolvedPath { generic_arguments, .. } => forall|k: int|
                0 <= k < generic_arguments@.len() ==> ((#[trigger] generic_arguments@[k]) matches GenericArgument::TypeParameter(
                    t,
                ) ==> t < whole),
            ResolvedType::Reference { inner } => inner < whole,
            ResolvedType::Tuple { elements } => forall|k: int|
                0 <= k < elements@.len() ==> (#[trigger] elements@[k]) < whole,
            ResolvedType::Slice { element_type } => element_type < whole,
            ResolvedType::Generic => true,
            ResolvedType::ScalarPrimitive => true,
        }
    }

    /// Whether every type that this type is made of comes before `whole`.
    pub fn has_parts_before(&self, whole: TypeId) -> (r: bool)
        ensures
            r == self.parts_precede(whole),
    {
        match self {
            ResolvedType::ResolvedPath { generic_arguments, .. } => {
                let mut k: usize = 0;
                while k < generic_arguments.len()
                    invariant
                        k <= generic_arguments@.len(),
                        *self matches ResolvedType::ResolvedPath { generic_arguments: listed, .. } && listed
                            == generic_arguments,
                        forall|j: int|
                            0 <= j < k ==> ((#[trigger] generic_arguments@[j]) matches GenericArgument::TypeParameter(t)
                                ==> t < whole),
                    decreases generic_arguments@.len() - k,
                {
                    match generic_arguments[k] {
                        GenericArgument::TypeParameter(t) => {
                            if t >= whole {
                                assert(generic_arguments@[k as int] == GenericArgument::TypeParameter(t));
                                return false;
                            }
                        },
                        GenericArgument::Lifetime => {},
                    }
                    k += 1;
                }
                true
            },
            ResolvedType::Reference { inner } => *inner < whole,
            ResolvedType::Tuple { elements } => {
                let mut k: usize = 0;
                while k < elements.len()
                    invariant
                        k <= elements@.len(),
                        *self matches ResolvedType::Tuple { elements: listed } && listed == elements,
                        forall|j: int| 0 <= j < k ==> (#[trigger] elements@[j]) < whole,
                    decreases elements@.len() - k,
                {
                    if elements[k] >= whole {
                        assert(elements@[k as int] >= whole);
                        return false;
                    }
                    k += 1;
                }
                true
            },
            ResolvedType::Slice { element_type } => *element_type < whole,
            ResolvedType::Generic => true,
            ResolvedType::ScalarPrimitive => true,
        }
    }
}

impl TypeTable {
    /// Every type is made of types that come before it.
    pub open spec fn wf(self) -> bool {
        forall|t: int| 0 <= t < self.types@.len() ==> (#[trigger] self.types@[t]).parts_precede(t as u64)
    }

    /// Whether every type is made of types that come before it: the check
    /// that `wf` states.
    pub fn is_well_formed(&self) -> (r: bool)
        ensures
            r == self.wf(),
    {
        let mut t: usize = 0;
        while t < self.types.len()
            invariant
                t <= self.types@.len(),
                forall|j: int| 0 <= j < t ==> (#[trigger] self.types@[j]).parts_precede(j as u64),
            decreases self.types@.len() - t,
        {
            if !self.types[t].has_parts_before(t as u64) {
                return false;
            }
            t += 1;
        }
        true
    }

    /// The state of a set after the packages of type `ty` were added: the
    /// package of a path and those of its generic arguments, in order; those
    /// of what a reference, a tuple or a slice is made of. A type that the
    /// table does not hold adds nothing. (The walk goes on into a part only
    /// if it comes before the whole, as every part of a well-formed table
    /// does.)
    pub open spec fn with_type(self, ty: TypeId, items: Seq<PackageId>) -> Seq<PackageId>
        decreases ty, 1int, 0int,
    {
        if ty < self.types@.len() {
            match self.types@[ty as int] {
                ResolvedType::ResolvedPath { package_id, generic_arguments } => self.with_arguments(
                    ty,
                    generic_arguments@,
                    0,
                    insert_unique(items, package_id),
                ),
                ResolvedType::Reference { inner } => if inner < ty {
                    self.with_type(inner, items)
                } else {
                    items
                },
                ResolvedType::Tuple { elements } => self.with_parts(ty, elements@, 0, items),
                ResolvedType::Slice { element_type } => if element_type < ty {
                    self.with_type(element_type, items)
                } else {
                    items
                },
                ResolvedType::Generic => items,
                ResolvedType::ScalarPrimitive => items,
            }
        } else {
            items
        }
    }

    /// The state of a set after the packages of the generic arguments from
    /// the `i`-th on were added. A lifetime adds nothing.
    pub open spec fn with_arguments(
        self,
        whole: TypeId,
        arguments: Seq<GenericArgument>,
        i: int,
        items: Seq<PackageId>,
    ) -> Seq<PackageId>
        decreases whole, 0int, arguments.len() - i,
    {
        if 0 <= i < arguments.len() {
            let next = match arguments[i] {
                GenericArgument::TypeParameter(t) => if t < whole {
                    self.with_type(t, items)
                } else {
                    items
                },
                GenericArgument::Lifetime => items,
            };
            self.with_arguments(whole, arguments, i + 1, next)
        } else {
            items
        }
    }

    /// The state of a set after the packages of the parts of a type from the
    /// `i`-th on were added.
    pub open spec fn with_parts(self, whole: TypeId, parts: Seq<TypeId>, i: int, items: Seq<PackageId>) -> Seq<
        PackageId,
    >
        decreases whole, 0int, parts.len() - i,
    {
        if 0 <= i < parts.len() {
            let next = if parts[i] < whole {
                self.with_type(parts[i], items)
            } else {
                items
            };
            self.with_parts(whole, parts, i + 1, next)
        } else {
            items
        }
    }

    /// The state of a set after the packages of the types of the inputs from
    /// the `i`-th on were added.
    pub open spec fn with_inputs(self, inputs: Seq<Input>, i: int, items: Seq<PackageId>) -> Seq<PackageId>
        decreases inputs.len() - i,
    {
        if 0 <= i < inputs.len() {
            self.with_inputs(inputs, i + 1, self.with_type(inputs[i].ty, items))
        } else {
            items
        }
    }

    /// The state of a set after the packages of a callable were added: the
    /// package that defines it, then those of its inputs, then those of the
    /// value it produces, then those of its error if it can fail.
    pub open spec fn with_callable(
        self,
        package_id: PackageId,
        inputs: Seq<Input>,
        output: Option<TypeId>,
        error: Option<TypeId>,
        items: Seq<PackageId>,
    ) -> Seq<PackageId> {
        let with_inputs = self.with_inputs(inputs, 0, insert_unique(items, package_id));
        let with_output = match output {
            Some(ty) => self.with_type(ty, with_inputs),
            None => with_inputs,
        };
        match error {
            Some(ty) => self.with_type(ty, with_output),
            None => with_output,
        }
    }

    /// The state of a set after the packages of a node were added: those of
    /// the callable of the component that it computes, if the component and
    /// its package are known; those of the type of an input parameter.
    pub open spec fn with_node(
        self,
        db: ComponentDb,
        component_packages: Seq<PackageId>,
        node: CallGraphNode,
        items: Seq<PackageId>,
    ) -> Seq<PackageId> {
        match node {
            CallGraphNode::Compute { component_id } => if db.has(component_id) && component_id
                < component_packages.len() {
                self.with_callable(
                    component_packages[component_id as int],
                    db.components@[component_id as int].inputs@,
                    db.components@[component_id as int].output,
                    db.components@[component_id as int].error,
                    items,
                )
            } else {
                items
            },
            CallGraphNode::InputParameter { ty, .. } => self.with_type(ty, items),
            CallGraphNode::Duplicate { .. } => items,
            CallGraphNode::MatchBranching => items,
            CallGraphNode::StateAggregate => items,
        }
    }

    /// The state of a set after the packages of the nodes from the `i`-th on
    /// were added.
    pub open spec fn with_nodes(
        self,
        db: ComponentDb,
        component_packages: Seq<PackageId>,
        nodes: Seq<CallGraphNode>,
        i: int,
        items: Seq<PackageId>,
    ) -> Seq<PackageId>
        decreases nodes.len() - i,
    {
        if 0 <= i < nodes.len() {
            self.with_nodes(db, component_packages, nodes, i + 1, self.with_node(db, component_packages, nodes[i], items))
        } else {
            items
        }
    }

    /// The state of a set after the packages of a pipeline were added: those
    /// of the graphs of its middleware, in order, then those of the graph of
    /// the handler.
    pub open spec fn with_pipeline(
        self,
        db: ComponentDb,
        component_packages: Seq<PackageId>,
        pipeline: RequestHandlerPipeline,
        items: Seq<PackageId>,
    ) -> Seq<PackageId> {
        self.with_nodes(
            db,
            component_packages,
            pipeline.handler_stage.call_graph.nodes@,
            0,
            self.with_stages(db, component_packages, pipeline, 0, items),
        )
    }

    /// The state of a set after the packages of the middleware stages from the
    /// `k`-th on were added.
    pub open spec fn with_stages(
        self,
        db: ComponentDb,
        component_packages: Seq<PackageId>,
        pipeline: RequestHandlerPipeline,
        k: int,
        items: Seq<PackageId>,
    ) -> Seq<PackageId>
        decreases pipeline.middleware_stages@.len() - k,
    {
        if 0 <= k < pipeline.middleware_stages@.len() {
            self.with_stages(
                db,
                component_packages,
                pipeline,
                k + 1,
                self.with_nodes(db, component_packages, pipeline.middleware_stages@[k].call_graph.nodes@, 0, items),
            )
        } else {
            items
        }
    }

    /// The state of a set after the packages of the pipelines from the `k`-th
    /// on were added.
    pub open spec fn with_pipelines(
        self,
        db: ComponentDb,
        component_packages: Seq<PackageId>,
        pipelines: Seq<RequestHandlerPipeline>,
        k: int,
        items: Seq<PackageId>,
    ) -> Seq<PackageId>
        decreases pipelines.len() - k,
    {
        if 0 <= k < pipelines.len() {
            self.with_pipelines(
                db,
                component_packages,
                pipelines,
                k + 1,
                self.with_pipeline(db, component_packages, pipelines[k], items),
            )
        } else {
            items
        }
    }

    /// Adds the packages of type `ty`, and of every type it is made of, to
    /// the set.
    pub fn collect_type_package_ids(&self, package_ids: &mut indexmap::IndexSet<u64>, ty: TypeId)
        requires
            self.wf(),
        ensures
            package_set_items(*final(package_ids)) == self.with_type(ty, package_set_items(*old(package_ids))),
        decreases ty,
    {
        if ty >= self.types.len() as u64 {
            return;
        }
        assert(self.types@[ty as int].parts_precede(ty));
        match &self.types[ty as usize] {
            ResolvedType::ResolvedPath { package_id, generic_arguments } => {
                package_set_insert(package_ids, *package_id);
                let ghost start = package_set_items(*package_ids);
                let mut i: usize = 0;
                while i < generic_arguments.len()
                    invariant
                        self.wf(),
                        i <= generic_arguments@.len(),
                        self.types@[ty as int].parts_precede(ty),
                        self.types@[ty as int] matches ResolvedType::ResolvedPath { generic_arguments: listed, .. }
                            && listed == generic_arguments,
                        self.with_arguments(ty, generic_arguments@, i as int, package_set_items(*package_ids))
                            == self.with_arguments(ty, generic_arguments@, 0, start),
                    decreases generic_arguments@.len() - i,
                {
                    match generic_arguments[i] {
                        GenericArgument::TypeParameter(t) => {
                            self.collect_type_package_ids(package_ids, t);
                        },
                        GenericArgument::Lifetime => {},
                    }
                    i += 1;
                }
            },
            ResolvedType::Reference { inner } => {
                self.collect_type_package_ids(package_ids, *inner);
            },
            ResolvedType::Tuple { elements } => {
                let ghost start = package_set_items(*package_ids);
                let mut i: usize = 0;
                while i < elements.len()
                    invariant
                        self.wf(),
                        i <= elements@.len(),
                        self.types@[ty as int].parts_precede(ty),
                        self.types@[ty as int] matches ResolvedType::Tuple { elements: listed } && listed == elements,
                        self.with_parts(ty, elements@, i as int, package_set_items(*package_ids)) == self.with_parts(
                            ty,
                            elements@,
                            0,
                            start,
                        ),
                    decreases elements@.len() - i,
                {
                    self.collect_type_package_ids(package_ids, elements[i]);
                    i += 1;
                }
            },
            ResolvedType::Slice { element_type } => {
                self.collect_type_package_ids(package_ids, *element_type);
            },
            ResolvedType::Generic => {},
            ResolvedType::ScalarPrimitive => {},
        }
    }

    /// Adds the packages of a callable to the set: the package that defines
    /// it, then those of its inputs, then those of the value it produces,
    /// then those of its error if it can fail.
    pub fn collect_callable_package_ids(
        &self,
        package_ids: &mut indexmap::IndexSet<u64>,
        package_id: PackageId,
        inputs: &Vec<Input>,
        output: Option<TypeId>,
        error: Option<TypeId>,
    )
        requires
            self.wf(),
        ensures
            package_set_items(*final(package_ids)) == self.with_callable(
                package_id,
                inputs@,
                output,
                error,
                package_set_items(*old(package_ids)),
            ),
    {
        package_set_insert(package_ids, package_id);
        let ghost start = package_set_items(*package_ids);
        let mut i: usize = 0;
        while i < inputs.len()
            invariant
                self.wf(),
                i <= inputs@.len(),
                self.with_inputs(inputs@, i as int, package_set_items(*package_ids)) == self.with_inputs(
                    inputs@,
                    0,
                    start,
                ),
            decreases inputs@.len() - i,
        {
            self.collect_type_package_ids(package_ids, inputs[i].ty);
            i += 1;
        }
        match output {
            Some(ty) => {
                self.collect_type_package_ids(package_ids, ty);
            },
            None => {},
        }
        match error {
            Some(ty) => {
                self.collect_type_package_ids(package_ids, ty);
            },
            None => {},
        }
    }

    /// Adds the packages that the nodes of a call graph mention to the set,
    /// in the order of the nodes. `component_packages` gives the package that
    /// defines the callable of each component.
    pub fn collect_call_graph_package_ids(
        &self,
        package_ids: &mut indexmap::IndexSet<u64>,
        db: &ComponentDb,
        component_packages: &Vec<PackageId>,
        call_graph: &CallGraph,
    )
        requires
            self.wf(),
        ensures
            package_set_items(*final(package_ids)) == self.with_nodes(
                *db,
                component_packages@,
                call_graph.nodes@,
                0,
                package_set_items(*old(package_ids)),
            ),
    {
        let ghost start = package_set_items(*package_ids);
        let mut i: usize = 0;
        while i < call_graph.nodes.len()
            invariant
                self.wf(),
                i <= call_graph.nodes@.len(),
                self.with_nodes(*db, component_packages@, call_graph.nodes@, i as int, package_set_items(*package_ids))
                    == self.with_nodes(*db, component_packages@, call_graph.nodes@, 0, start),
            decreases call_graph.nodes@.len() - i,
        {
            match call_graph.nodes[i] {
                CallGraphNode::Compute { component_id } => {
                    if component_id < db.components.len() && component_id < component_packages.len() {
                        self.collect_callable_package_ids(
                            package_ids,
                            component_packages[component_id],
                            &db.components[component_id].inputs,
                            db.components[component_id].output,
                            db.components[component_id].error,
                        );
                    }
                },
                CallGraphNode::InputParameter { ty, .. } => {
                    self.collect_type_package_ids(package_ids, ty);
                },
                CallGraphNode::Duplicate { .. } => {},
                CallGraphNode::MatchBranching => {},
                CallGraphNode::StateAggregate => {},
            }
            i += 1;
        }
    }

    /// The state of a set after the listed packages from the `i`-th on were
    /// added.
    pub open spec fn with_listed(listed: Seq<PackageId>, i: int, items: Seq<PackageId>) -> Seq<PackageId>
        decreases listed.len() - i,
    {
        if 0 <= i < listed.len() {
            Self::with_listed(listed, i + 1, insert_unique(items, listed[i]))
        } else {
            items
        }
    }

    /// The state of a set after the packages of the listed types from the
    /// `i`-th on were added.
    pub open spec fn with_types(self, types: Seq<TypeId>, i: int, items: Seq<PackageId>) -> Seq<PackageId>
        decreases types.len() - i,
    {
        if 0 <= i < types.len() {
            self.with_types(types, i + 1, self.with_type(types[i], items))
        } else {
            items
        }
    }

    /// The state of a set after the packages of the signatures of the
    /// components from the `c`-th on were added. A component whose package is
    /// not known adds nothing.
    pub open spec fn with_components(
        self,
        db: ComponentDb,
        component_packages: Seq<PackageId>,
        c: int,
        items: Seq<PackageId>,
    ) -> Seq<PackageId>
        decreases db.components@.len() - c,
    {
        if 0 <= c < db.components@.len() {
            self.with_components(
                db,
                component_packages,
                c + 1,
                if c < component_packages.len() {
                    self.with_callable(
                        component_packages[c],
                        db.components@[c].inputs@,
                        db.components@[c].output,
                        db.components@[c].error,
                        items,
                    )
                } else {
                    items
                },
            )
        } else {
            items
        }
    }

    /// The packages whose documentation the build needs, each once: those of
    /// the signature of every component, in order, then the packages that may
    /// hold annotated components.
    pub open spec fn docs_batch(
        self,
        db: ComponentDb,
        component_packages: Seq<PackageId>,
        annotation_sources: Seq<PackageId>,
    ) -> Seq<PackageId> {
        Self::with_listed(annotation_sources, 0, self.with_components(db, component_packages, 0, Seq::empty()))
    }

    /// Collects, before anything is resolved, every package whose
    /// documentation the build will need, so that all of it can be asked for
    /// in one query.
    pub fn precompute_crate_docs(
        &self,
        db: &ComponentDb,
        component_packages: &Vec<PackageId>,
        annotation_sources: &Vec<PackageId>,
    ) -> (package_ids: Vec<PackageId>)
        requires
            self.wf(),
        ensures
            package_ids@ == self.docs_batch(*db, component_packages@, annotation_sources@),
    {
        let mut set = package_set_new();
        let ghost start = package_set_items(set);
        let mut c: usize = 0;
        while c < db.components.len()
            invariant
                self.wf(),
                c <= db.components@.len(),
                self.with_components(*db, component_packages@, c as int, package_set_items(set))
                    == self.with_components(*db, component_packages@, 0, start),
            decreases db.components@.len() - c,
        {
            if c < component_packages.len() {
                self.collect_callable_package_ids(
                    &mut set,
                    component_packages[c],
                    &db.components[c].inputs,
                    db.components[c].output,
                    db.components[c].error,
                );
            }
            c += 1;
        }
        let ghost signatures = package_set_items(set);
        let mut j: usize = 0;
        while j < annotation_sources.len()
            invariant
                j <= annotation_sources@.len(),
                Self::with_listed(annotation_sources@, j as int, package_set_items(set)) == Self::with_listed(
                    annotation_sources@,
                    0,
                    signatures,
                ),
            decreases annotation_sources@.len() - j,
        {
            package_set_insert(&mut set, annotation_sources[j]);
            j += 1;
        }
        set_to_vec(&set)
    }

    /// Every package that the generated application depends on, each once:
    /// those of the types that the framework provides, then the packages that
    /// code generation itself needs, then those of the graph of the
    /// application state, then those of every pipeline, in order.
    pub open spec fn all_packages(
        self,
        db: ComponentDb,
        component_packages: Seq<PackageId>,
        codegen_deps: Seq<PackageId>,
        application_state: CallGraph,
        pipelines: Seq<RequestHandlerPipeline>,
    ) -> Seq<PackageId> {
        let framework = self.with_types(db.framework_types@, 0, Seq::empty());
        let codegen = Self::with_listed(codegen_deps, 0, framework);
        let state = self.with_nodes(db, component_packages, application_state.nodes@, 0, codegen);
        self.with_pipelines(db, component_packages, pipelines, 0, state)
    }

    /// Collects every package that the generated application depends on, each
    /// once, in the order in which they are met.
    pub fn collect_package_ids(
        &self,
        db: &ComponentDb,
        component_packages: &Vec<PackageId>,
        codegen_deps: &Vec<PackageId>,
        application_state: &CallGraph,
        pipelines: &Vec<RequestHandlerPipeline>,
    ) -> (package_ids: Vec<PackageId>)
        requires
            self.wf(),
        ensures
            package_ids@ == self.all_packages(*db, component_packages@, codegen_deps@, *application_state, pipelines@),
    {
        let mut set = package_set_new();
        let ghost start = package_set_items(set);
        let mut i: usize = 0;
        while i < db.framework_types.len()
            invariant
                self.wf(),
                i <= db.framework_types@.len(),
                self.with_types(db.framework_types@, i as int, package_set_items(set)) == self.with_types(
                    db.framework_types@,
                    0,
                    start,
                ),
            decreases db.framework_types@.len() - i,
        {
            self.collect_type_package_ids(&mut set, db.framework_types[i]);
            i += 1;
        }
        let ghost framework = package_set_items(set);
        let mut j: usize = 0;
        while j < codegen_deps.len()
            invariant
                j <= codegen_deps@.len(),
                Self::with_listed(codegen_deps@, j as int, package_set_items(set)) == Self::with_listed(
                    codegen_deps@,
                    0,
                    framework,
                ),
            decreases codegen_deps@.len() - j,
        {
            package_set_insert(&mut set, codegen_deps[j]);
            j += 1;
        }
        self.collect_call_graph_package_ids(&mut set, db, component_packages, application_state);
        let ghost state = package_set_items(set);
        let mut k: usize = 0;
        while k < pipelines.len()
            invariant
                self.wf(),
                k <= pipelines@.len(),
                self.with_pipelines(*db, component_packages@, pipelines@, k as int, package_set_items(set))
                    == self.with_pipelines(*db, component_packages@, pipelines@, 0, state),
            decreases pipelines@.len() - k,
        {
            let pipeline = &pipelines[k];
            let ghost before = package_set_items(set);
            let mut m: usize = 0;
            while m < pipeline.middleware_stages.len()
                invariant
                    self.wf(),
                    m <= pipeline.middleware_stages@.len(),
                    self.with_stages(*db, component_packages@, *pipeline, m as int, package_set_items(set))
                        == self.with_stages(*db, component_packages@, *pipeline, 0, before),
                decreases pipeline.middleware_stages@.len() - m,
            {
                self.collect_call_graph_package_ids(
                    &mut set,
                    db,
                    component_packages,
                    &pipeline.middleware_stages[m].call_graph,
                );
                m += 1;
            }
            self.collect_call_graph_package_ids(&mut set, db, component_packages, &pipeline.handler_stage.call_graph);
            k += 1;
        }
        set_to_vec(&set)
    }
}

/// The items of a set, in the order of their insertion.
pub fn set_to_vec(set: &indexmap::IndexSet<u64>) -> (items: Vec<PackageId>)
    ensures
        items@ == package_set_items(*set),
{
    let n = package_set_len(set);
    let mut items: Vec<PackageId> = Vec::new();
    let mut at: usize = 0;
    while at < n
        invariant
            at <= n,
            n == package_set_items(*set).len(),
            items@ == package_set_items(*set).take(at as int),
        decreases n - at,
    {
        match package_set_get(set, at) {
            Some(item) => {
                items.push(item);
            },
            None => {},
        }
        at += 1;
        assert(items@ =~= package_set_items(*set).take(at as int));
    }
    assert(package_set_items(*set).take(at as int) =~= package_set_items(*set));
    items
}

} // verus!
