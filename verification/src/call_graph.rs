//! What every representation of the call graph offers: the contract that
//! the analyses are written against.
use vstd::prelude::*;
use crate::chains::chain_views;
use crate::chains::chains_from;
use crate::types::CallRelation;
use crate::types::CodeGraphStats;
use crate::types::FunctionInfo;

verus! {

/// The functions that `ids` name, in the order of `ids`; an identifier
/// without a function is passed over.
pub open spec fn known_functions(ids: Seq<u128>, functions: Map<u128, FunctionInfo>) -> Seq<
    FunctionInfo,
> {
    ids.filter(|id: u128| functions.contains_key(id)).map_values(|id: u128| functions[id])
}

/// `order` lists every identifier of `functions` once: one of the orders in
/// which a walk over the functions may come by them.
pub open spec fn is_walk_of(order: Seq<u128>, functions: Map<u128, FunctionInfo>) -> bool {
    order.no_duplicates() && order.to_set() == functions.dom()
}

/// A call graph, whichever way it is kept.
pub trait CallGraph: Sized {
    /// The functions, each under its identifier.
    spec fn function_map(&self) -> Map<u128, FunctionInfo>;

    /// The identifiers listed under the name `name`, in the order of their
    /// arrival.
    spec fn ids_named(&self, name: Seq<char>) -> Seq<u128>;

    /// The call edges that end in the function `id`, in the order in which
    /// the graph hands them out.
    spec fn edges_into(&self, id: u128) -> Seq<CallRelation>;

    /// The call edges that start in the function `id`, in the order in
    /// which the graph hands them out.
    spec fn edges_from(&self, id: u128) -> Seq<CallRelation>;

    /// For each function its callees, one for each edge that starts in it,
    /// in the order in which a walk follows them.
    spec fn callee_fn(&self) -> spec_fn(u128) -> Seq<u128>;

    /// The number of call edges.
    spec fn edge_count(&self) -> nat;

    /// The aggregate numbers.
    spec fn numbers(&self) -> CodeGraphStats;

    /// `text` is a flow chart of the graph.
    spec fn is_mermaid(&self, text: Seq<char>) -> bool;

    /// `text` is a digraph of the graph.
    spec fn is_dot(&self, text: Seq<char>) -> bool;

    /// The function with identifier `id`.
    fn function_by_id(&self, id: &u128) -> (found: Option<&FunctionInfo>)
        ensures
            match found {
                Some(function) => self.function_map().contains_key(*id) && *function
                    == self.function_map()[*id],
                None => !self.function_map().contains_key(*id),
            },
    ;

    /// The functions that `ids` name, in the order of `ids`.
    fn functions_of(&self, ids: &Vec<u128>) -> (found: Vec<&FunctionInfo>)
        ensures
            found@.unref() == known_functions(ids@, self.function_map()),
    ;

    /// The functions named `name`, in the order of their arrival.
    fn functions_named(&self, name: &str) -> (found: Vec<&FunctionInfo>)
        ensures
            found@.unref() == known_functions(self.ids_named(name@), self.function_map()),
    ;

    /// The call edges that end in the function `id`.
    fn callers(&self, id: &u128) -> (edges: Vec<&CallRelation>)
        ensures
            edges@.unref() == self.edges_into(*id),
            edges@.len() <= self.edge_count(),
    ;

    /// The call edges that start in the function `id`.
    fn callees(&self, id: &u128) -> (edges: Vec<&CallRelation>)
        ensures
            edges@.unref() == self.edges_from(*id),
            edges@.len() <= self.edge_count(),
    ;

    /// The callees of the function `id`, in the order in which a walk
    /// follows them.
    fn callee_list(&self, id: &u128) -> (list: Vec<u128>)
        ensures
            list@ == (self.callee_fn())(*id),
    ;

    /// The identifiers of the functions, each once, in the order in which
    /// the graph hands them out.
    fn walk(&self) -> (ids: Vec<u128>)
        ensures
            is_walk_of(ids@, self.function_map()),
    ;

    /// The call chains from `id`: the paths of at most `max_depth` functions
    /// that a depth-first expansion of callees with one shared visited set
    /// emits.
    fn call_chain(&self, id: &u128, max_depth: usize) -> (chains: Vec<Vec<u128>>)
        ensures
            chain_views(chains@) == chains_from(
                self.callee_fn(),
                *id,
                Set::empty(),
                0,
                max_depth as nat,
            ).0,
    ;

    /// The aggregate numbers.
    fn numbers_of(&self) -> (stats: &CodeGraphStats)
        ensures
            *stats == self.numbers(),
    ;

    /// The number of call edges.
    fn edge_total(&self) -> (count: usize)
        ensures
            count == self.edge_count(),
    ;

    /// A flow chart of the graph.
    fn mermaid(&self) -> (out: String)
        ensures
            self.is_mermaid(out@),
    ;

    /// A digraph of the graph.
    fn dot(&self) -> (out: String)
        ensures
            self.is_dot(out@),
    ;
}

} // verus!
