//! The call graph over an indexed directed graph: each function is a node
//! with a stable number, each call an edge between two nodes.
use petgraph::graph::DiGraph;
use std::collections::HashMap;
use std::collections::HashSet;
use vstd::prelude::*;
use vstd::std_specs::iter::IteratorSpec;
use crate::call_graph::CallGraph;
use crate::chains::append_prefixed;
use crate::chains::chain_views;
use crate::chains::chains_from;
use crate::chains::chains_over;
use crate::digraph::graph_add_edge;
use crate::digraph::graph_add_node;
use crate::digraph::graph_components;
use crate::digraph::graph_edge_count;
use crate::digraph::graph_edge_endpoints;
use crate::digraph::graph_edge_weight;
use crate::digraph::graph_edge_weights;
use crate::digraph::graph_edges;
use crate::digraph::graph_incoming;
use crate::digraph::graph_incoming_edges;
use crate::digraph::graph_is_cyclic;
use crate::digraph::graph_new;
use crate::digraph::graph_node_weight;
use crate::digraph::graph_node_weights;
use crate::digraph::graph_nodes;
use crate::digraph::graph_outgoing;
use crate::digraph::graph_outgoing_edges;
use crate::digraph::graph_toposort;
use crate::digraph::group_views;
use crate::digraph::has_cycle;
use crate::digraph::is_component_split;
use crate::digraph::is_topological;
use crate::digraph::on_cycle;
use crate::digraph::GraphEdge;
use crate::call_graph::known_functions;
use crate::graph::lemma_known_views;
use crate::graph::listed;
use crate::graph::GraphView;
use crate::export::dot_document;
use crate::export::dot_text;
use crate::export::mermaid_document;
use crate::export::mermaid_text;
use crate::export::Link;
use crate::seq_util::lemma_distinct_below;
use crate::seq_util::lemma_filter_distinct;
use crate::seq_util::lemma_filter_empty;
use crate::seq_util::lemma_filter_step;
use crate::seq_util::lemma_take_all;
use crate::text::hyphenated;
use crate::text::uuid_text;
use crate::text_map::IdIndex;
use crate::types::call_views;
use crate::types::function_views;
use crate::types::CallRelation;
use crate::types::CallView;
use crate::types::CodeGraphStats;
use crate::types::FunctionInfo;
use crate::types::FunctionView;

verus! {

broadcast use vstd::std_specs::hash::group_hash_axioms;

/// A call graph over an indexed directed graph.
#[derive(Debug)]
pub struct PetGraphCodeGraph {
    /// The directed graph: functions on the nodes, calls on the edges.
    pub graph: DiGraph<FunctionInfo, CallRelation>,
    /// The node of each function, by the function's identifier.
    pub function_to_node: HashMap<u128, u32>,
    /// The identifier of the function of each node.
    pub node_to_function: HashMap<u32, u128>,
    /// The identifiers of the functions of each name, in the order of their arrival.
    pub function_names: IdIndex,
    /// The identifiers of the functions of each file, in the order of their arrival.
    pub file_functions: IdIndex,
    /// The aggregate numbers.
    pub stats: CodeGraphStats,
}

/// The same type under its shorter name.
pub type PetCodeGraph = PetGraphCodeGraph;

/// The text of the error for an edge whose caller is no function of the graph.
pub open spec fn caller_not_found(id: u128) -> Seq<char> {
    "Caller function "@ + hyphenated(id) + " not found"@
}

/// The text of the error for an edge whose callee is no function of the graph.
pub open spec fn callee_not_found(id: u128) -> Seq<char> {
    "Callee function "@ + hyphenated(id) + " not found"@
}

impl View for PetGraphCodeGraph {
    type V = GraphView;

    open spec fn view(&self) -> GraphView {
        GraphView {
            functions: Map::new(
                |id: u128| self.function_to_node@.contains_key(id),
                |id: u128| self.nodes()[self.function_to_node@[id] as int]@,
            ),
            function_names: self.function_names.ids(),
            name_order: self.function_names.key_seq(),
            file_functions: self.file_functions.ids(),
            file_order: self.file_functions.key_seq(),
            call_relations: call_views(self.relations()),
            stats: self.stats@,
        }
    }
}

impl PetGraphCodeGraph {
    /// The functions on the nodes, by node number.
    pub open spec fn nodes(&self) -> Seq<FunctionInfo> {
        graph_nodes(self.graph)
    }

    /// The edges, by edge number.
    pub open spec fn edges(&self) -> Seq<GraphEdge> {
        graph_edges(self.graph)
    }

    /// The calls on the edges, by edge number.
    pub open spec fn relations(&self) -> Seq<CallRelation> {
        self.edges().map_values(|e: GraphEdge| e.weight)
    }

    /// The two tables between identifiers and nodes agree with the graph:
    /// an identifier leads to a node that carries a function of that
    /// identifier, and every node is listed with the identifier of its
    /// function, which leads to some node.
    pub open spec fn wf(&self) -> bool {
        &&& forall|id: u128| #[trigger]
            self.function_to_node@.contains_key(id) ==> self.function_to_node@[id]
                < self.nodes().len() && self.nodes()[self.function_to_node@[id] as int].id == id
        &&& forall|node: u32|
            node < self.nodes().len() ==> #[trigger] self.node_to_function@.contains_key(node)
                && self.node_to_function@[node] == self.nodes()[node as int].id
                && self.function_to_node@.contains_key(self.nodes()[node as int].id)
        &&& forall|node: u32| #[trigger]
            self.node_to_function@.contains_key(node) ==> node < self.nodes().len()
    }

    /// Both ends of every call edge are functions of the graph: the
    /// identifiers that the call names lead to nodes.
    pub open spec fn edges_known(&self) -> bool {
        forall|e: int|
            0 <= e < self.edges().len() ==> self.function_to_node@.contains_key(
                (#[trigger] self.edges()[e]).weight.caller_id,
            ) && self.function_to_node@.contains_key(self.edges()[e].weight.callee_id)
    }

    /// The counters agree with what the graph holds: the number of functions
    /// with the nodes and with the sum of the language histogram, and the two
    /// edge counters with the resolved and the unresolved edges.
    pub open spec fn consistent(&self) -> bool {
        &&& self.stats.total_functions == self.nodes().len()
        &&& self.stats.languages.total() == self.stats.total_functions
        &&& self.stats.resolved_calls == crate::types::resolved_count(self.relations())
        &&& self.stats.unresolved_calls == crate::types::unresolved_count(self.relations())
    }

    /// Every node has an identifier of its own: the table from identifiers
    /// to nodes has as many entries as the graph has nodes.
    pub open spec fn functions_counted(&self) -> bool {
        self.function_to_node@.dom().len() == self.nodes().len()
    }

    /// The function with identifier `id`, where the graph has one.
    pub open spec fn function_of(&self, id: u128) -> Option<FunctionInfo> {
        if self.function_map().contains_key(id) {
            Some(self.function_map()[id])
        } else {
            None
        }
    }

    /// An empty graph.
    pub fn new() -> (graph: Self)
        ensures
            graph.nodes() == Seq::<FunctionInfo>::empty(),
            graph.edges() == Seq::<GraphEdge>::empty(),
            graph.function_to_node@ == Map::<u128, u32>::empty(),
            graph.node_to_function@ == Map::<u32, u128>::empty(),
            graph.function_names@ == Map::<Seq<char>, Vec<u128>>::empty(),
            graph.file_functions@ == Map::<Seq<char>, Vec<u128>>::empty(),
            graph.stats.total_functions == 0,
            graph.stats.total_files == 0,
            graph.stats.total_languages == 0,
            graph.stats.resolved_calls == 0,
            graph.stats.unresolved_calls == 0,
            graph.stats.languages@ == Map::<Seq<char>, usize>::empty(),
            graph@ == GraphView::empty(),
            graph.wf(),
            graph.edges_known(),
            graph.consistent(),
            graph.functions_counted(),
    {
        let graph = PetGraphCodeGraph {
            graph: graph_new(),
            function_to_node: HashMap::new(),
            node_to_function: HashMap::new(),
            function_names: IdIndex::new(),
            file_functions: IdIndex::new(),
            stats: CodeGraphStats::default(),
        };
        proof {
            assert(graph.relations() =~= Seq::<CallRelation>::empty());
            assert(graph@.functions =~= Map::<u128, FunctionView>::empty());
            assert(graph@.function_names =~= Map::<Seq<char>, Seq<u128>>::empty());
            assert(graph@.file_functions =~= Map::<Seq<char>, Seq<u128>>::empty());
            assert(graph@.call_relations =~= Seq::<CallView>::empty());
        }
        graph
    }

    /// Adds a function as a new node and returns the node's number. The
    /// function's identifier leads to the new node from now on, also where it
    /// led to another node before.
    pub fn add_function(&mut self, function: FunctionInfo) -> (node: u32)
        requires
            old(self).wf(),
            old(self).nodes().len() < u32::MAX,
            old(self).stats.total_functions < usize::MAX,
            old(self).stats.languages.count_of(function.language@) < usize::MAX,
        ensures
            final(self)@ == old(self)@.with_function(function@),
            node == old(self).nodes().len(),
            final(self).nodes() == old(self).nodes().push(function),
            final(self).edges() == old(self).edges(),
            final(self).function_to_node@ == old(self).function_to_node@.insert(function.id, node),
            final(self).node_to_function@ == old(self).node_to_function@.insert(node, function.id),
            final(self).function_names.ids() == old(self).function_names.ids().insert(
                function.name@,
                old(self).function_names.ids_under(function.name@).push(function.id),
            ),
            final(self).file_functions.ids() == old(self).file_functions.ids().insert(
                function.file_path@,
                old(self).file_functions.ids_under(function.file_path@).push(function.id),
            ),
            final(self).stats.total_functions == old(self).stats.total_functions + 1,
            final(self).stats.languages@ == old(self).stats.languages@.insert(
                function.language@,
                (old(self).stats.languages.count_of(function.language@) + 1) as usize,
            ),
            final(self).stats.languages.total() == old(self).stats.languages.total() + 1,
            final(self).stats.total_files == old(self).stats.total_files,
            final(self).stats.total_languages == old(self).stats.total_languages,
            final(self).stats.resolved_calls == old(self).stats.resolved_calls,
            final(self).stats.unresolved_calls == old(self).stats.unresolved_calls,
            forall|n: u32| #[trigger]
                graph_outgoing(final(self).graph, n) == graph_outgoing(old(self).graph, n),
            forall|n: u32| #[trigger]
                graph_incoming(final(self).graph, n) == graph_incoming(old(self).graph, n),
            final(self).wf(),
            old(self).edges_known() ==> final(self).edges_known(),
            old(self).consistent() ==> final(self).consistent(),
            old(self).functions_counted() && !old(self).function_to_node@.contains_key(function.id)
                ==> final(self).functions_counted(),
    {
        let id = function.id;
        let name = function.name.clone();
        let file_path = function.file_path.clone();
        let language = function.language.clone();
        let node = graph_add_node(&mut self.graph, function);
        self.function_to_node.insert(id, node);
        self.node_to_function.insert(node, id);
        self.function_names.append_id(name.as_str(), id);
        self.file_functions.append_id(file_path.as_str(), id);
        self.stats.total_functions = self.stats.total_functions + 1;
        self.stats.languages.increment(language.as_str());
        proof {
            assert(self.relations() =~= old(self).relations());
            let expected = old(self)@.with_function(function@);
            assert(self@.functions =~= expected.functions);
            assert(self@.function_names =~= expected.function_names);
            assert(self@.file_functions =~= expected.file_functions);
            assert(self@.stats.languages =~= expected.stats.languages);
            assert(self@.stats == expected.stats);
            assert forall|x: u128| #[trigger] self.function_to_node@.contains_key(x) implies self.function_to_node@[x]
                < self.nodes().len() && self.nodes()[self.function_to_node@[x] as int].id == x by {
                if x != id {
                    assert(old(self).function_to_node@.contains_key(x));
                }
            }
            assert forall|n: u32| n < self.nodes().len() implies #[trigger] self.node_to_function@.contains_key(
                n,
            ) && self.node_to_function@[n] == self.nodes()[n as int].id
                && self.function_to_node@.contains_key(self.nodes()[n as int].id) by {
                if n != node {
                    assert(old(self).node_to_function@.contains_key(n));
                }
            }
            assert forall|n: u32| #[trigger] self.node_to_function@.contains_key(n) implies n
                < self.nodes().len() by {
                if n != node {
                    assert(old(self).node_to_function@.contains_key(n));
                }
            }
        }
        node
    }

    /// Adds a call edge from the node of its caller to the node of its
    /// callee. An edge whose caller, or else whose callee, is no function of
    /// the graph is refused with a message that names it, and the graph
    /// stays as it is.
    pub fn add_call_relation(&mut self, relation: CallRelation) -> (added: Result<(), String>)
        requires
            old(self).wf(),
            old(self).edges().len() < u32::MAX,
            old(self).stats.resolved_calls < usize::MAX,
            old(self).stats.unresolved_calls < usize::MAX,
        ensures
            added is Ok <==> old(self).function_to_node@.contains_key(relation.caller_id) && old(
                self,
            ).function_to_node@.contains_key(relation.callee_id),
            added matches Err(message) ==> *final(self) == *old(self) && message@ == if !old(
                self,
            ).function_to_node@.contains_key(relation.caller_id) {
                caller_not_found(relation.caller_id)
            } else {
                callee_not_found(relation.callee_id)
            },
            added is Ok ==> final(self)@ == old(self)@.with_call(relation@),
            added is Ok ==> {
                &&& final(self).nodes() == old(self).nodes()
                &&& final(self).edges() == old(self).edges().push(
                    GraphEdge {
                        source: old(self).function_to_node@[relation.caller_id],
                        target: old(self).function_to_node@[relation.callee_id],
                        weight: relation,
                    },
                )
                &&& forall|n: u32| #[trigger]
                    graph_outgoing(final(self).graph, n) == if n == old(
                        self,
                    ).function_to_node@[relation.caller_id] {
                        seq![old(self).edges().len() as u32] + graph_outgoing(old(self).graph, n)
                    } else {
                        graph_outgoing(old(self).graph, n)
                    }
                &&& forall|n: u32| #[trigger]
                    graph_incoming(final(self).graph, n) == if n == old(
                        self,
                    ).function_to_node@[relation.callee_id] {
                        seq![old(self).edges().len() as u32] + graph_incoming(old(self).graph, n)
                    } else {
                        graph_incoming(old(self).graph, n)
                    }
                &&& final(self).function_to_node == old(self).function_to_node
                &&& final(self).node_to_function == old(self).node_to_function
                &&& final(self).function_names == old(self).function_names
                &&& final(self).file_functions == old(self).file_functions
                &&& final(self).stats.total_functions == old(self).stats.total_functions
                &&& final(self).stats.total_files == old(self).stats.total_files
                &&& final(self).stats.total_languages == old(self).stats.total_languages
                &&& final(self).stats.languages == old(self).stats.languages
                &&& final(self).stats.resolved_calls == old(self).stats.resolved_calls
                    + if relation.is_resolved {
                    1int
                } else {
                    0int
                }
                &&& final(self).stats.unresolved_calls == old(self).stats.unresolved_calls
                    + if relation.is_resolved {
                    0int
                } else {
                    1int
                }
            },
            final(self).wf(),
            old(self).edges_known() ==> final(self).edges_known(),
            old(self).consistent() ==> final(self).consistent(),
    {
        let caller_node = match self.function_to_node.get(&relation.caller_id) {
            Some(node) => *node,
            None => {
                let mut message = String::from_str("Caller function ");
                message.append(uuid_text(relation.caller_id).as_str());
                message.append(" not found");
                return Err(message);
            },
        };
        let callee_node = match self.function_to_node.get(&relation.callee_id) {
            Some(node) => *node,
            None => {
                let mut message = String::from_str("Callee function ");
                message.append(uuid_text(relation.callee_id).as_str());
                message.append(" not found");
                return Err(message);
            },
        };
        let is_resolved = relation.is_resolved;
        graph_add_edge(&mut self.graph, caller_node, callee_node, relation);
        if is_resolved {
            self.stats.resolved_calls = self.stats.resolved_calls + 1;
        } else {
            self.stats.unresolved_calls = self.stats.unresolved_calls + 1;
        }
        proof {
            assert(self.relations().drop_last() =~= old(self).relations());
            assert(self.relations() =~= old(self).relations().push(relation));
            assert(self.nodes() == old(self).nodes());
            assert(self.function_to_node == old(self).function_to_node);
            assert(self.node_to_function == old(self).node_to_function);
            assert(self.wf()) by {
                assert forall|x: u128| #[trigger] self.function_to_node@.contains_key(x) implies self.function_to_node@[x]
                    < self.nodes().len() && self.nodes()[self.function_to_node@[x] as int].id == x by {
                    assert(old(self).function_to_node@.contains_key(x));
                }
                assert forall|n: u32| n < self.nodes().len() implies #[trigger] self.node_to_function@.contains_key(
                    n,
                ) && self.node_to_function@[n] == self.nodes()[n as int].id
                    && self.function_to_node@.contains_key(self.nodes()[n as int].id) by {
                    assert(old(self).node_to_function@.contains_key(n));
                }
                assert forall|n: u32| #[trigger] self.node_to_function@.contains_key(n) implies n
                    < self.nodes().len() by {
                    assert(old(self).node_to_function@.contains_key(n));
                }
            }
            let expected = old(self)@.with_call(relation@);
            assert(self@.call_relations =~= expected.call_relations);
            assert(self@.functions =~= expected.functions);
            assert(self@.stats == expected.stats);
        }
        Ok(())
    }

    /// The node of the function with identifier `function_id`.
    pub fn get_node_index(&self, function_id: &u128) -> (node: Option<u32>)
        ensures
            node == if self.function_to_node@.contains_key(*function_id) {
                Some(self.function_to_node@[*function_id])
            } else {
                None
            },
    {
        match self.function_to_node.get(function_id) {
            Some(node) => Some(*node),
            None => None,
        }
    }

    /// The function of the node `node_index`.
    pub fn get_function(&self, node_index: u32) -> (function: Option<&FunctionInfo>)
        ensures
            function == if node_index < self.nodes().len() {
                Some(&self.nodes()[node_index as int])
            } else {
                None
            },
    {
        graph_node_weight(&self.graph, node_index)
    }

    /// The function with identifier `function_id`.
    pub fn get_function_by_id(&self, function_id: &u128) -> (function: Option<&FunctionInfo>)
        ensures
            function == match self.function_of(*function_id) {
                Some(f) => Some(&f),
                None => None,
            },
    {
        match self.function_to_node.get(function_id) {
            Some(node) => graph_node_weight(&self.graph, *node),
            None => None,
        }
    }

    /// The numbers of the edges that end in the function `id`, in the order
    /// in which the graph hands them out; none for an unknown identifier.
    pub open spec fn caller_edges(&self, id: u128) -> Seq<u32> {
        if self.function_to_node@.contains_key(id) {
            graph_incoming(self.graph, self.function_to_node@[id])
        } else {
            Seq::empty()
        }
    }

    /// The numbers of the edges that start in the function `id`, in the
    /// order in which the graph hands them out; none for an unknown identifier.
    pub open spec fn callee_edges(&self, id: u128) -> Seq<u32> {
        if self.function_to_node@.contains_key(id) {
            graph_outgoing(self.graph, self.function_to_node@[id])
        } else {
            Seq::empty()
        }
    }

    /// The calling function and the call of edge `e`.
    pub open spec fn caller_pair(&self, e: u32) -> (FunctionInfo, CallRelation) {
        (self.nodes()[self.edges()[e as int].source as int], self.edges()[e as int].weight)
    }

    /// The called function and the call of edge `e`.
    pub open spec fn callee_pair(&self, e: u32) -> (FunctionInfo, CallRelation) {
        (self.nodes()[self.edges()[e as int].target as int], self.edges()[e as int].weight)
    }

    /// For each edge that ends in `function_id`, the calling function and
    /// the call, in the order in which the graph hands the edges out.
    pub fn get_callers(&self, function_id: &u128) -> (pairs: Vec<(&FunctionInfo, &CallRelation)>)
        ensures
            pairs@.unref() == self.caller_edges(*function_id).map_values(
                |e: u32| self.caller_pair(e),
            ),
            pairs@.len() <= self.edges().len(),
    {
        let mut pairs: Vec<(&FunctionInfo, &CallRelation)> = Vec::new();
        let ghost list = self.caller_edges(*function_id);
        let ghost pick = |e: u32| self.caller_pair(e);
        match self.function_to_node.get(function_id) {
            Some(node) => {
                let found = graph_incoming_edges(&self.graph, *node);
                let mut i: usize = 0;
                assert(pairs@.unref() =~= list.take(0).map_values(pick));
                proof {
                    lemma_distinct_below(list, self.edges().len());
                }
                while i < found.len()
                    invariant
                        i <= found@.len(),
                        found@ == list,
                        pick == |e: u32| self.caller_pair(e),
                        crate::digraph::lists_incoming(self.edges(), *node, list),
                        pairs@.unref() == list.take(i as int).map_values(pick),
                        pairs@.len() == i,
                        list.len() <= self.edges().len(),
                    decreases found@.len() - i,
                {
                    let e = found[i];
                    let ghost prev = pairs@.unref();
                    let ends = graph_edge_endpoints(&self.graph, e).unwrap();
                    let caller = graph_node_weight(&self.graph, ends.0).unwrap();
                    let relation = graph_edge_weight(&self.graph, e).unwrap();
                    pairs.push((caller, relation));
                    proof {
                        assert(pairs@.unref() =~= prev.push((*caller, *relation)));
                        assert(list.take(i + 1).map_values(pick) =~= list.take(i as int).map_values(
                            pick,
                        ).push(pick(list[i as int])));
                    }
                    i += 1;
                }
                proof {
                    lemma_take_all(list);
                }
            },
            None => {
                assert(pairs@.unref() =~= list.map_values(pick));
            },
        }
        pairs
    }

    /// For each edge that starts in `function_id`, the called function and
    /// the call, in the order in which the graph hands the edges out.
    pub fn get_callees(&self, function_id: &u128) -> (pairs: Vec<(&FunctionInfo, &CallRelation)>)
        ensures
            pairs@.unref() == self.callee_edges(*function_id).map_values(
                |e: u32| self.callee_pair(e),
            ),
            pairs@.len() <= self.edges().len(),
    {
        let mut pairs: Vec<(&FunctionInfo, &CallRelation)> = Vec::new();
        let ghost list = self.callee_edges(*function_id);
        let ghost pick = |e: u32| self.callee_pair(e);
        match self.function_to_node.get(function_id) {
            Some(node) => {
                let found = graph_outgoing_edges(&self.graph, *node);
                let mut i: usize = 0;
                assert(pairs@.unref() =~= list.take(0).map_values(pick));
                proof {
                    lemma_distinct_below(list, self.edges().len());
                }
                while i < found.len()
                    invariant
                        i <= found@.len(),
                        found@ == list,
                        pick == |e: u32| self.callee_pair(e),
                        crate::digraph::lists_outgoing(self.edges(), *node, list),
                        pairs@.unref() == list.take(i as int).map_values(pick),
                        pairs@.len() == i,
                        list.len() <= self.edges().len(),
                    decreases found@.len() - i,
                {
                    let e = found[i];
                    let ghost prev = pairs@.unref();
                    let ends = graph_edge_endpoints(&self.graph, e).unwrap();
                    let callee = graph_node_weight(&self.graph, ends.1).unwrap();
                    let relation = graph_edge_weight(&self.graph, e).unwrap();
                    pairs.push((callee, relation));
                    proof {
                        assert(pairs@.unref() =~= prev.push((*callee, *relation)));
                        assert(list.take(i + 1).map_values(pick) =~= list.take(i as int).map_values(
                            pick,
                        ).push(pick(list[i as int])));
                    }
                    i += 1;
                }
                proof {
                    lemma_take_all(list);
                }
            },
            None => {
                assert(pairs@.unref() =~= list.map_values(pick));
            },
        }
        pairs
    }

    /// The functions that `ids` name, in the order of `ids`; an identifier
    /// without a function is passed over.
    pub open spec fn known(&self, ids: Seq<u128>) -> Seq<FunctionInfo> {
        known_functions(ids, self.function_map())
    }

    /// The functions that `ids` name, in the order of `ids`.
    fn resolve(&self, ids: &Vec<u128>) -> (found: Vec<&FunctionInfo>)
        ensures
            found@.unref() == self.known(ids@),
    {
        let mut found: Vec<&FunctionInfo> = Vec::new();
        let ghost pred = |id: u128| self.function_map().contains_key(id);
        let ghost pick = |id: u128| self.function_map()[id];
        let mut i: usize = 0;
        proof {
            lemma_filter_empty(ids@.take(0), pred);
            assert(found@.unref() =~= ids@.take(0).filter(pred).map_values(pick));
        }
        while i < ids.len()
            invariant
                i <= ids@.len(),
                pred == |id: u128| self.function_map().contains_key(id),
                pick == |id: u128| self.function_map()[id],
                found@.unref() == ids@.take(i as int).filter(pred).map_values(pick),
            decreases ids@.len() - i,
        {
            proof {
                lemma_filter_step(ids@, i as int, pred);
            }
            let ghost prev = found@.unref();
            match self.get_function_by_id(&ids[i]) {
                Some(function) => {
                    found.push(function);
                    proof {
                        assert(found@.unref() =~= prev.push(*function));
                        assert(ids@.take(i + 1).filter(pred).map_values(pick) =~= ids@.take(
                            i as int,
                        ).filter(pred).map_values(pick).push(pick(ids@[i as int])));
                    }
                },
                None => {},
            }
            i += 1;
        }
        proof {
            lemma_take_all(ids@);
        }
        found
    }

    /// The functions named `name`, in the order of their arrival.
    pub fn find_functions_by_name(&self, name: &str) -> (found: Vec<&FunctionInfo>)
        ensures
            found@.unref() == self.known(self.function_names.ids_under(name@)),
            self.wf() ==> function_views(found@.unref()) == self@.named(name@),
    {
        proof {
            if self.wf() {
                lemma_known_views(
                    self.function_names.ids_under(name@),
                    self.function_map(),
                    self@.functions,
                );
                assert(self.function_names.ids_under(name@) =~= listed(
                    self@.function_names,
                    name@,
                ));
            }
        }
        match self.function_names.get(name) {
            Some(ids) => self.resolve(ids),
            None => {
                let found: Vec<&FunctionInfo> = Vec::new();
                proof {
                    lemma_filter_empty(
                        Seq::<u128>::empty(),
                        |id: u128| self.function_map().contains_key(id),
                    );
                    assert(found@.unref() =~= self.known(Seq::<u128>::empty()));
                }
                found
            },
        }
    }

    /// The functions declared in the file `file_path`, in the order of their
    /// arrival.
    pub fn find_functions_by_file(&self, file_path: &str) -> (found: Vec<&FunctionInfo>)
        ensures
            found@.unref() == self.known(self.file_functions.ids_under(file_path@)),
    {
        match self.file_functions.get(file_path) {
            Some(ids) => self.resolve(ids),
            None => {
                let found: Vec<&FunctionInfo> = Vec::new();
                proof {
                    lemma_filter_empty(
                        Seq::<u128>::empty(),
                        |id: u128| self.function_map().contains_key(id),
                    );
                    assert(found@.unref() =~= self.known(Seq::<u128>::empty()));
                }
                found
            },
        }
    }

    /// The callees of `id`, one for each edge that starts in it: the
    /// identifier of the function on the edge's end node.
    pub open spec fn callee_ids(&self, id: u128) -> Seq<u128> {
        self.callee_edges(id).map_values(|e: u32| self.callee_pair(e).0.id)
    }

    /// `callee_ids` as a function of the identifier.
    pub open spec fn callee_map(&self) -> spec_fn(u128) -> Seq<u128> {
        |id: u128| self.callee_ids(id)
    }

    /// The call chains from `function_id`: the paths of at most `max_depth`
    /// functions that a depth-first expansion of callees with one shared
    /// visited set emits.
    pub fn get_call_chain(&self, function_id: &u128, max_depth: usize) -> (chains: Vec<Vec<u128>>)
        ensures
            chain_views(chains@) == chains_from(
                self.callee_map(),
                *function_id,
                Set::empty(),
                0,
                max_depth as nat,
            ).0,
    {
        let mut visited: HashSet<u128> = HashSet::new();
        self.call_chain_recursive(*function_id, &mut visited, 0, max_depth)
    }

    /// The expansion of one function at `depth`.
    fn call_chain_recursive(
        &self,
        function_id: u128,
        visited: &mut HashSet<u128>,
        depth: usize,
        max_depth: usize,
    ) -> (chains: Vec<Vec<u128>>)
        requires
            depth <= max_depth,
        ensures
            chain_views(chains@) == chains_from(
                self.callee_map(),
                function_id,
                old(visited)@,
                depth as nat,
                max_depth as nat,
            ).0,
            final(visited)@ == chains_from(
                self.callee_map(),
                function_id,
                old(visited)@,
                depth as nat,
                max_depth as nat,
            ).1,
        decreases max_depth - depth,
    {
        let mut chains: Vec<Vec<u128>> = Vec::new();
        if depth >= max_depth || visited.contains(&function_id) {
            assert(chain_views(chains@) =~= Seq::<Seq<u128>>::empty());
            return chains;
        }
        visited.insert(function_id);
        let callees = self.get_callees(&function_id);
        let ghost list = self.callee_ids(function_id);
        let ghost start = visited@;
        assert(callees@.unref().len() == callees@.len());
        assert(list.len() == callees@.len());
        if callees.len() == 0 || depth + 1 >= max_depth {
            let mut chain: Vec<u128> = Vec::new();
            chain.push(function_id);
            chains.push(chain);
            assert(chain_views(chains@) =~= seq![seq![function_id]]);
            return chains;
        }
        let mut i: usize = 0;
        assert(chain_views(chains@) =~= Seq::<Seq<u128>>::empty());
        assert forall|k: int| 0 <= k < callees@.len() implies callees@[k].0.id == #[trigger] list[k] by {
            assert(callees@.unref()[k].0.id == list[k]);
        }
        while i < callees.len()
            invariant
                i <= callees@.len(),
                depth + 1 < max_depth,
                list == self.callee_ids(function_id),
                list.len() == callees@.len(),
                forall|k: int| 0 <= k < callees@.len() ==> callees@[k].0.id == #[trigger] list[k],
                chain_views(chains@) == chains_over(
                    self.callee_map(),
                    function_id,
                    list.take(i as int),
                    start,
                    depth as nat,
                    max_depth as nat,
                ).0,
                visited@ == chains_over(
                    self.callee_map(),
                    function_id,
                    list.take(i as int),
                    start,
                    depth as nat,
                    max_depth as nat,
                ).1,
            decreases callees@.len() - i,
        {
            let callee = callees[i].0.id;
            let sub = self.call_chain_recursive(callee, visited, depth + 1, max_depth);
            append_prefixed(&mut chains, function_id, &sub);
            proof {
                assert(list.take(i + 1).drop_last() =~= list.take(i as int));
                assert(list.take(i + 1).last() == callee);
            }
            i += 1;
        }
        proof {
            assert(list.take(list.len() as int) =~= list);
        }
        chains
    }

    /// The diagram edge of edge `e`: the identifiers of the functions on its
    /// two end nodes, and whether its call is resolved.
    pub open spec fn link(&self, e: int) -> Link {
        Link {
            caller: self.nodes()[self.edges()[e].source as int].id,
            callee: self.nodes()[self.edges()[e].target as int].id,
            is_resolved: self.edges()[e].weight.is_resolved,
        }
    }

    /// The diagram edges of all edges, by edge number.
    pub open spec fn links(&self) -> Seq<Link> {
        Seq::new(self.edges().len(), |e: int| self.link(e))
    }

    /// The diagram edges of all edges, by edge number.
    fn collect_links(&self) -> (links: Vec<Link>)
        ensures
            links@ == self.links(),
    {
        let mut links: Vec<Link> = Vec::new();
        let count = graph_edge_count(&self.graph);
        let mut e: usize = 0;
        while e < count
            invariant
                e <= count,
                count == self.edges().len(),
                count <= u32::MAX,
                links@.len() == e,
                forall|k: int| 0 <= k < e ==> #[trigger] links@[k] == self.link(k),
            decreases count - e,
        {
            let ends = graph_edge_endpoints(&self.graph, e as u32).unwrap();
            let caller = graph_node_weight(&self.graph, ends.0).unwrap();
            let callee = graph_node_weight(&self.graph, ends.1).unwrap();
            let relation = graph_edge_weight(&self.graph, e as u32).unwrap();
            links.push(Link { caller: caller.id, callee: callee.id, is_resolved: relation.is_resolved });
            e += 1;
        }
        assert(links@ =~= self.links());
        links
    }

    /// The flow chart of the graph: one node for each function, by node
    /// number, and one edge for each call edge, by edge number.
    pub fn to_mermaid(&self) -> (out: String)
        ensures
            out@ == mermaid_text(self.nodes(), self.links()),
    {
        let nodes = graph_node_weights(&self.graph);
        let links = self.collect_links();
        mermaid_document(&nodes, &links)
    }

    /// The digraph of the graph: one node for each function, by node number,
    /// and one edge for each call edge, by edge number.
    pub fn to_dot(&self) -> (out: String)
        ensures
            out@ == dot_text(self.nodes(), self.links()),
    {
        let nodes = graph_node_weights(&self.graph);
        let links = self.collect_links();
        dot_document(&nodes, &links)
    }

    /// The aggregate numbers.
    pub fn get_stats(&self) -> (stats: &CodeGraphStats)
        ensures
            *stats == self.stats,
    {
        &self.stats
    }

    /// Brings the number of files and the number of languages up to date:
    /// the keys of the file index and of the language histogram.
    pub fn update_stats(&mut self)
        ensures
            final(self)@ == old(self)@.refreshed(),
            final(self).stats.total_files == old(self).file_functions@.dom().len(),
            final(self).stats.total_languages == old(self).stats.languages@.dom().len(),
            final(self).stats.total_functions == old(self).stats.total_functions,
            final(self).stats.resolved_calls == old(self).stats.resolved_calls,
            final(self).stats.unresolved_calls == old(self).stats.unresolved_calls,
            final(self).stats.languages == old(self).stats.languages,
            final(self).graph == old(self).graph,
            final(self).function_to_node == old(self).function_to_node,
            final(self).node_to_function == old(self).node_to_function,
            final(self).function_names == old(self).function_names,
            final(self).file_functions == old(self).file_functions,
            old(self).wf() ==> final(self).wf(),
            old(self).edges_known() ==> final(self).edges_known(),
            old(self).consistent() ==> final(self).consistent(),
    {
        self.stats.total_files = self.file_functions.len();
        self.stats.total_languages = self.stats.languages.len();
        proof {
            assert(self.edges() == old(self).edges());
            assert(self.nodes() == old(self).nodes());
            assert(self.file_functions.ids().dom() =~= self.file_functions@.dom());
            assert(self@.functions =~= old(self)@.functions);
            assert(self@.stats == old(self)@.refreshed().stats);
        }
    }

    /// All functions, by node number.
    pub fn get_all_functions(&self) -> (functions: Vec<&FunctionInfo>)
        ensures
            functions@.unref() == self.nodes(),
    {
        graph_node_weights(&self.graph)
    }

    /// All call edges, by edge number.
    pub fn get_all_call_relations(&self) -> (relations: Vec<&CallRelation>)
        ensures
            relations@.unref() == self.relations(),
    {
        graph_edge_weights(&self.graph)
    }

    /// Whether some chain of calls leads from a function back to itself.
    pub fn has_cycles(&self) -> (cyclic: bool)
        ensures
            cyclic == has_cycle(self.edges()),
    {
        graph_is_cyclic(&self.graph)
    }

    /// The nodes in an order in which every call leads forward. Where the
    /// calls form a cycle there is no such order, and the error is a node
    /// that lies on a cycle.
    pub fn topological_sort(&self) -> (sorted: Result<Vec<u32>, u32>)
        ensures
            sorted is Ok <==> !has_cycle(self.edges()),
            sorted matches Ok(order) ==> is_topological(order@, self.nodes().len(), self.edges()),
            sorted matches Err(node) ==> node < self.nodes().len() && on_cycle(self.edges(), node),
    {
        graph_toposort(&self.graph)
    }

    /// The groups of nodes that reach one another, a group that is reached
    /// from another one before it. A node outside every cycle is a group of
    /// its own.
    pub fn strongly_connected_components(&self) -> (parts: Vec<Vec<u32>>)
        ensures
            is_component_split(group_views(parts@), self.nodes().len(), self.edges()),
    {
        graph_components(&self.graph)
    }
}

/// With counters that agree with the contents, every call edge is counted
/// once, as resolved or as unresolved.
pub proof fn lemma_indexed_call_partition(graph: PetGraphCodeGraph)
    requires
        graph.consistent(),
    ensures
        graph.stats.resolved_calls + graph.stats.unresolved_calls == graph.edges().len(),
{
    crate::types::lemma_resolved_partition(graph.relations());
}

/// With counters that agree with the contents, the number of functions is
/// the number of nodes and the sum of the language histogram; where every
/// node has an identifier of its own, it is also the size of the table from
/// identifiers to nodes.
pub proof fn lemma_indexed_function_count(graph: PetGraphCodeGraph)
    requires
        graph.consistent(),
    ensures
        graph.stats.total_functions == graph.nodes().len(),
        graph.stats.total_functions == graph.stats.languages.total(),
        graph.functions_counted() ==> graph.stats.total_functions
            == graph.function_to_node@.dom().len(),
{
}

impl CallGraph for PetGraphCodeGraph {
    open spec fn function_map(&self) -> Map<u128, FunctionInfo> {
        Map::new(
            |id: u128|
                self.function_to_node@.contains_key(id) && self.function_to_node@[id]
                    < self.nodes().len(),
            |id: u128| self.nodes()[self.function_to_node@[id] as int],
        )
    }

    open spec fn ids_named(&self, name: Seq<char>) -> Seq<u128> {
        self.function_names.ids_under(name)
    }

    open spec fn edges_into(&self, id: u128) -> Seq<CallRelation> {
        self.caller_edges(id).map_values(|e: u32| self.caller_pair(e).1)
    }

    open spec fn edges_from(&self, id: u128) -> Seq<CallRelation> {
        self.callee_edges(id).map_values(|e: u32| self.callee_pair(e).1)
    }

    open spec fn callee_fn(&self) -> spec_fn(u128) -> Seq<u128> {
        self.callee_map()
    }

    open spec fn edge_count(&self) -> nat {
        self.edges().len()
    }

    open spec fn numbers(&self) -> CodeGraphStats {
        self.stats
    }

    open spec fn is_mermaid(&self, text: Seq<char>) -> bool {
        text == mermaid_text(self.nodes(), self.links())
    }

    open spec fn is_dot(&self, text: Seq<char>) -> bool {
        text == dot_text(self.nodes(), self.links())
    }

    fn function_by_id(&self, id: &u128) -> (found: Option<&FunctionInfo>) {
        self.get_function_by_id(id)
    }

    fn functions_of(&self, ids: &Vec<u128>) -> (found: Vec<&FunctionInfo>) {
        self.resolve(ids)
    }

    fn functions_named(&self, name: &str) -> (found: Vec<&FunctionInfo>) {
        self.find_functions_by_name(name)
    }

    fn callers(&self, id: &u128) -> (edges: Vec<&CallRelation>) {
        let pairs = self.get_callers(id);
        let mut edges: Vec<&CallRelation> = Vec::new();
        let mut k: usize = 0;
        while k < pairs.len()
            invariant
                k <= pairs@.len(),
                edges@.len() == k,
                forall|m: int| 0 <= m < k ==> *(#[trigger] edges@[m]) == *pairs@[m].1,
            decreases pairs@.len() - k,
        {
            edges.push(pairs[k].1);
            k += 1;
        }
        proof {
            assert(pairs@.unref().len() == pairs@.len());
            assert forall|m: int| 0 <= m < edges@.len() implies edges@.unref()[m] == self.edges_into(
                *id,
            )[m] by {
                assert(pairs@.unref()[m].1 == *pairs@[m].1);
            }
            assert(edges@.unref() =~= self.edges_into(*id));
        }
        edges
    }

    fn callees(&self, id: &u128) -> (edges: Vec<&CallRelation>) {
        let pairs = self.get_callees(id);
        let mut edges: Vec<&CallRelation> = Vec::new();
        let mut k: usize = 0;
        while k < pairs.len()
            invariant
                k <= pairs@.len(),
                edges@.len() == k,
                forall|m: int| 0 <= m < k ==> *(#[trigger] edges@[m]) == *pairs@[m].1,
            decreases pairs@.len() - k,
        {
            edges.push(pairs[k].1);
            k += 1;
        }
        proof {
            assert(pairs@.unref().len() == pairs@.len());
            assert forall|m: int| 0 <= m < edges@.len() implies edges@.unref()[m] == self.edges_from(
                *id,
            )[m] by {
                assert(pairs@.unref()[m].1 == *pairs@[m].1);
            }
            assert(edges@.unref() =~= self.edges_from(*id));
        }
        edges
    }

    fn callee_list(&self, id: &u128) -> (list: Vec<u128>) {
        let pairs = self.get_callees(id);
        let mut list: Vec<u128> = Vec::new();
        let mut k: usize = 0;
        while k < pairs.len()
            invariant
                k <= pairs@.len(),
                list@.len() == k,
                forall|m: int| 0 <= m < k ==> #[trigger] list@[m] == pairs@[m].0.id,
            decreases pairs@.len() - k,
        {
            list.push(pairs[k].0.id);
            k += 1;
        }
        proof {
            assert(pairs@.unref().len() == pairs@.len());
            assert forall|m: int| 0 <= m < list@.len() implies list@[m] == self.callee_ids(*id)[m] by {
                assert(pairs@.unref()[m].0 == *pairs@[m].0);
            }
            assert(list@ =~= self.callee_ids(*id));
        }
        list
    }

    fn walk(&self) -> (ids: Vec<u128>) {
        let mut ids: Vec<u128> = Vec::new();
        let ghost keys = self.function_to_node.keys().remaining();
        let ghost valid = |id: u128| self.function_map().contains_key(id);
        proof {
            lemma_filter_empty(keys.unref().take(0), valid);
        }
        for key in it: self.function_to_node.keys()
            invariant
                it.seq() == keys,
                valid == |id: u128| self.function_map().contains_key(id),
                ids@ == keys.unref().take(it.index() as int).filter(valid),
        {
            proof {
                lemma_filter_step(keys.unref(), it.index() as int, valid);
            }
            if self.get_function_by_id(key).is_some() {
                ids.push(*key);
            }
        }
        proof {
            let all = keys.unref();
            lemma_take_all(all);
            assert(all.no_duplicates()) by {
                assert forall|i: int, j: int|
                    0 <= i < all.len() && 0 <= j < all.len() && i != j implies all[i] != all[j] by {
                    assert(keys[i] != keys[j]);
                }
            }
            lemma_filter_distinct(all, valid);
            assert(all.to_set() =~= self.function_to_node@.dom());
            assert(ids@.to_set() =~= self.function_map().dom()) by {
                assert forall|id: u128| ids@.to_set().contains(id) <==> self.function_map().dom().contains(
                    id,
                ) by {
                    assert(ids@.contains(id) <==> all.contains(id) && valid(id));
                    assert(all.contains(id) <==> all.to_set().contains(id));
                }
            }
        }
        ids
    }

    fn call_chain(&self, id: &u128, max_depth: usize) -> (chains: Vec<Vec<u128>>) {
        self.get_call_chain(id, max_depth)
    }

    fn numbers_of(&self) -> (stats: &CodeGraphStats) {
        self.get_stats()
    }

    fn edge_total(&self) -> (count: usize) {
        graph_edge_count(&self.graph)
    }

    fn mermaid(&self) -> (out: String) {
        self.to_mermaid()
    }

    fn dot(&self) -> (out: String) {
        self.to_dot()
    }
}

impl Default for PetGraphCodeGraph {
    fn default() -> (graph: Self)
        ensures
            graph.nodes() == Seq::<FunctionInfo>::empty(),
            graph.edges() == Seq::<GraphEdge>::empty(),
            graph.wf(),
            graph.edges_known(),
            graph.consistent(),
    {
        PetGraphCodeGraph::new()
    }
}

} // verus!
