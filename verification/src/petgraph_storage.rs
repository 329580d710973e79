//! The stored form of the graph-backed call graph, and the two XML
//! documents for visualisation tools.
//!
//! The stored form lists what a graph holds as plain lists and tables. It is
//! what gets written out and read back, so a graph must come out of it as it
//! went in.
use vstd::prelude::*;
use crate::digraph::GraphEdge;
use crate::pet_graph::PetGraphCodeGraph;
use crate::seq_util::joined;
use crate::seq_util::lemma_filter_all;
use crate::seq_util::lemma_filter_empty;
use crate::seq_util::lemma_filter_step;
use crate::seq_util::lemma_joined_empty;
use crate::seq_util::lemma_joined_step;
use crate::seq_util::lemma_take_all;
use crate::text::bool_text;
use crate::text::bool_text_of;
use crate::text::decimal;
use crate::text::usize_text;
use crate::text_map::IdIndex;
use crate::types::call_views;
use crate::types::function_views;
use crate::types::lemma_resolved_partition;
use crate::types::CallRelation;
use crate::types::CodeGraphStats;
use crate::types::FunctionInfo;

verus! {

/// What a graph-backed call graph holds, as lists and tables.
#[derive(Debug)]
pub struct PetGraphStorage {
    /// The functions, by node number.
    pub functions: Vec<FunctionInfo>,
    /// The call edges, by edge number.
    pub call_relations: Vec<CallRelation>,
    /// The identifiers of the functions of each name.
    pub function_names: IdIndex,
    /// The identifiers of the functions of each file.
    pub file_functions: IdIndex,
    /// The aggregate numbers.
    pub stats: CodeGraphStats,
}

/// Whether `functions` holds a function with identifier `id`.
pub open spec fn has_id(functions: Seq<FunctionInfo>, id: u128) -> bool {
    exists|i: int| 0 <= i < functions.len() && (#[trigger] functions[i]).id == id
}

/// The last position in `functions` of a function with identifier `id`.
pub open spec fn last_position(functions: Seq<FunctionInfo>, id: u128, position: int) -> bool {
    &&& 0 <= position < functions.len()
    &&& functions[position].id == id
    &&& forall|j: int| position < j < functions.len() ==> (#[trigger] functions[j]).id != id
}

/// The edges of `relations` of which both ends are among `functions`.
pub open spec fn kept_relations(relations: Seq<CallRelation>, functions: Seq<FunctionInfo>) -> Seq<
    CallRelation,
> {
    relations.filter(
        |r: CallRelation| has_id(functions, r.caller_id) && has_id(functions, r.callee_id),
    )
}

impl PetGraphStorage {
    /// This is the stored form of `graph`: the same functions by node
    /// number, the same call edges by edge number, the same two indices and
    /// the same numbers.
    pub open spec fn holds(&self, graph: &PetGraphCodeGraph) -> bool {
        &&& function_views(self.functions@) == function_views(graph.nodes())
        &&& call_views(self.call_relations@) == call_views(graph.relations())
        &&& self.function_names.ids() == graph.function_names.ids()
        &&& self.function_names.key_seq() == graph.function_names.key_seq()
        &&& self.file_functions.ids() == graph.file_functions.ids()
        &&& self.file_functions.key_seq() == graph.file_functions.key_seq()
        &&& self.stats@ == graph.stats@
    }

    /// `graph` is what this stored form gives back: a node for each stored
    /// function, in order; an edge for each stored call of which both ends
    /// are stored functions, in order, from the node of its caller to the
    /// node of its callee, where an identifier that several functions share
    /// stands for the last of them; and the stored indices and numbers.
    pub open spec fn restores(&self, graph: &PetGraphCodeGraph) -> bool {
        &&& function_views(graph.nodes()) == function_views(self.functions@)
        &&& call_views(graph.relations()) == call_views(
            kept_relations(self.call_relations@, self.functions@),
        )
        &&& forall|id: u128|
            graph.function_to_node@.contains_key(id) <==> #[trigger] has_id(self.functions@, id)
        &&& forall|id: u128| #[trigger]
            graph.function_to_node@.contains_key(id) ==> last_position(
                self.functions@,
                id,
                graph.function_to_node@[id] as int,
            )
        &&& forall|e: int|
            0 <= e < graph.edges().len() ==> {
                let edge = #[trigger] graph.edges()[e];
                &&& graph.function_to_node@.contains_key(edge.weight.caller_id)
                &&& graph.function_to_node@.contains_key(edge.weight.callee_id)
                &&& edge.source == graph.function_to_node@[edge.weight.caller_id]
                &&& edge.target == graph.function_to_node@[edge.weight.callee_id]
            }
        &&& graph.function_names.ids() == self.function_names.ids()
        &&& graph.function_names.key_seq() == self.function_names.key_seq()
        &&& graph.file_functions.ids() == self.file_functions.ids()
        &&& graph.file_functions.key_seq() == self.file_functions.key_seq()
        &&& graph.stats@ == self.stats@
        &&& graph.wf()
    }

    /// The stored form of `code_graph`.
    pub fn from_petgraph(code_graph: &PetGraphCodeGraph) -> (storage: Self)
        ensures
            storage.holds(code_graph),
    {
        let nodes = code_graph.get_all_functions();
        let mut functions: Vec<FunctionInfo> = Vec::new();
        let mut i: usize = 0;
        while i < nodes.len()
            invariant
                i <= nodes@.len(),
                functions@.len() == i,
                forall|j: int| 0 <= j < i ==> (#[trigger] functions@[j])@ == nodes@[j]@,
            decreases nodes@.len() - i,
        {
            functions.push(nodes[i].clone());
            i += 1;
        }
        let edges = code_graph.get_all_call_relations();
        let mut call_relations: Vec<CallRelation> = Vec::new();
        let mut j: usize = 0;
        while j < edges.len()
            invariant
                j <= edges@.len(),
                call_relations@.len() == j,
                forall|k: int| 0 <= k < j ==> (#[trigger] call_relations@[k])@ == edges@[k]@,
            decreases edges@.len() - j,
        {
            call_relations.push(edges[j].clone());
            j += 1;
        }
        proof {
            assert(function_views(functions@) =~= function_views(nodes@.unref()));
            assert(call_views(call_relations@) =~= call_views(edges@.unref()));
        }
        PetGraphStorage {
            functions,
            call_relations,
            function_names: code_graph.function_names.duplicate(),
            file_functions: code_graph.file_functions.duplicate(),
            stats: code_graph.stats.clone(),
        }
    }

    /// The graph of this stored form. A stored call of which an end is no
    /// stored function is left out.
    pub fn to_petgraph(&self) -> (graph: PetGraphCodeGraph)
        requires
            self.functions@.len() < u32::MAX,
            self.call_relations@.len() < u32::MAX,
        ensures
            self.restores(&graph),
    {
        let mut code_graph = PetGraphCodeGraph::new();
        let mut i: usize = 0;
        while i < self.functions.len()
            invariant
                i <= self.functions@.len(),
                self.functions@.len() < u32::MAX,
                code_graph.wf(),
                code_graph.consistent(),
                code_graph.nodes().len() == i,
                code_graph.edges() == Seq::<GraphEdge>::empty(),
                forall|j: int| 0 <= j < i ==> (#[trigger] code_graph.nodes()[j])@ == self.functions@[j]@,
                forall|id: u128|
                    code_graph.function_to_node@.contains_key(id) <==> #[trigger] has_id(
                        self.functions@.take(i as int),
                        id,
                    ),
                forall|id: u128| #[trigger]
                    code_graph.function_to_node@.contains_key(id) ==> last_position(
                        self.functions@.take(i as int),
                        id,
                        code_graph.function_to_node@[id] as int,
                    ),
            decreases self.functions@.len() - i,
        {
            let function = self.functions[i].clone();
            proof {
                use_type_invariant(&code_graph.stats.languages);
                code_graph.stats.languages.lemma_count_le_total(function.language@);
            }
            let ghost before = code_graph;
            let ghost taken = self.functions@.take(i as int);
            let ghost next = self.functions@.take(i + 1);
            let node = code_graph.add_function(function);
            proof {
                assert(next.drop_last() =~= taken);
                assert(next.last() == self.functions@[i as int]);
                assert forall|id: u128|
                    code_graph.function_to_node@.contains_key(id) <==> #[trigger] has_id(next, id) by {
                    if has_id(next, id) {
                        let k = choose|k: int| 0 <= k < next.len() && (#[trigger] next[k]).id == id;
                        if k < i {
                            assert(taken[k].id == id);
                            assert(has_id(taken, id));
                        }
                    }
                    if code_graph.function_to_node@.contains_key(id) {
                        if id == function.id {
                            assert(next[i as int].id == id);
                        } else {
                            assert(before.function_to_node@.contains_key(id));
                            assert(has_id(taken, id));
                            let k = choose|k: int|
                                0 <= k < taken.len() && (#[trigger] taken[k]).id == id;
                            assert(next[k].id == id);
                        }
                    }
                }
                assert forall|id: u128| #[trigger]
                    code_graph.function_to_node@.contains_key(id) implies last_position(
                    next,
                    id,
                    code_graph.function_to_node@[id] as int,
                ) by {
                    if id != function.id {
                        assert(before.function_to_node@.contains_key(id));
                        let p = before.function_to_node@[id] as int;
                        assert(last_position(taken, id, p));
                        assert(next[p] == taken[p]);
                        assert forall|j: int| p < j < next.len() implies (#[trigger] next[j]).id
                            != id by {
                            if j < i {
                                assert(taken[j].id != id);
                            }
                        }
                    }
                }
            }
            i += 1;
        }
        let ghost all = self.functions@;
        let ghost relations = self.call_relations@;
        let ghost keep = |r: CallRelation| has_id(all, r.caller_id) && has_id(all, r.callee_id);
        let mut j: usize = 0;
        proof {
            lemma_take_all(all);
            lemma_filter_empty(relations.take(0), keep);
            assert(code_graph.relations() =~= Seq::<CallRelation>::empty());
            assert(call_views(code_graph.relations()) =~= call_views(relations.take(0).filter(keep)));
        }
        while j < self.call_relations.len()
            invariant
                j <= self.call_relations@.len(),
                self.call_relations@.len() < u32::MAX,
                all == self.functions@,
                relations == self.call_relations@,
                keep == |r: CallRelation| has_id(all, r.caller_id) && has_id(all, r.callee_id),
                code_graph.wf(),
                code_graph.consistent(),
                code_graph.edges().len() <= j,
                forall|k: int|
                    0 <= k < all.len() ==> (#[trigger] code_graph.nodes()[k])@ == all[k]@,
                code_graph.nodes().len() == all.len(),
                forall|id: u128|
                    code_graph.function_to_node@.contains_key(id) <==> #[trigger] has_id(all, id),
                forall|id: u128| #[trigger]
                    code_graph.function_to_node@.contains_key(id) ==> last_position(
                        all,
                        id,
                        code_graph.function_to_node@[id] as int,
                    ),
                forall|e: int|
                    0 <= e < code_graph.edges().len() ==> {
                        let edge = #[trigger] code_graph.edges()[e];
                        &&& code_graph.function_to_node@.contains_key(edge.weight.caller_id)
                        &&& code_graph.function_to_node@.contains_key(edge.weight.callee_id)
                        &&& edge.source == code_graph.function_to_node@[edge.weight.caller_id]
                        &&& edge.target == code_graph.function_to_node@[edge.weight.callee_id]
                    },
                call_views(code_graph.relations()) == call_views(relations.take(j as int).filter(keep)),
            decreases self.call_relations@.len() - j,
        {
            let relation = self.call_relations[j].clone();
            let ghost before = code_graph;
            proof {
                lemma_resolved_partition(code_graph.relations());
                lemma_filter_step(relations, j as int, keep);
                assert(keep(relation) == keep(relations[j as int]));
            }
            let added = code_graph.add_call_relation(relation);
            proof {
                let held = relations.take(j as int).filter(keep);
                if added is Ok {
                    assert(code_graph.relations() =~= before.relations().push(relation));
                    assert(call_views(code_graph.relations()) =~= call_views(
                        before.relations(),
                    ).push(relation@));
                    assert(call_views(held.push(relations[j as int])) =~= call_views(held).push(
                        relations[j as int]@,
                    ));
                } else {
                    assert(code_graph == before);
                }
            }
            j += 1;
        }
        proof {
            lemma_take_all(relations);
            assert(function_views(code_graph.nodes()) =~= function_views(all));
        }
        code_graph.function_names = self.function_names.duplicate();
        code_graph.file_functions = self.file_functions.duplicate();
        code_graph.stats = self.stats.clone();
        code_graph
    }
}

/// What was stored comes back: a graph whose tables agree with its nodes
/// and whose calls all lie between its functions is restored from its stored
/// form with the same functions, the same call edges in the same order, so
/// also the same collection of edges by caller, callee and line, the same
/// indices and the same numbers. The empty graph is such a graph.
pub proof fn lemma_storage_round_trip(
    graph: PetGraphCodeGraph,
    storage: PetGraphStorage,
    restored: PetGraphCodeGraph,
)
    requires
        graph.wf(),
        graph.edges_known(),
        storage.holds(&graph),
        storage.restores(&restored),
    ensures
        function_views(restored.nodes()) == function_views(graph.nodes()),
        call_views(restored.relations()) == call_views(graph.relations()),
        restored.function_names.ids() == graph.function_names.ids(),
        restored.file_functions.ids() == graph.file_functions.ids(),
        restored.stats@ == graph.stats@,
{
    let relations = storage.call_relations@;
    let functions = storage.functions@;
    let keep = |r: CallRelation| has_id(functions, r.caller_id) && has_id(functions, r.callee_id);
    assert(call_views(relations).len() == relations.len());
    assert(call_views(graph.relations()).len() == graph.relations().len());
    assert(graph.relations().len() == graph.edges().len());
    assert(function_views(functions).len() == functions.len());
    assert(function_views(graph.nodes()).len() == graph.nodes().len());
    assert forall|i: int| 0 <= i < relations.len() implies keep(#[trigger] relations[i]) by {
        assert(call_views(relations)[i] == call_views(graph.relations())[i]);
        let edge = graph.edges()[i];
        assert(graph.relations()[i] == edge.weight);
        assert(relations[i]@ == edge.weight@);
        assert(graph.function_to_node@.contains_key(edge.weight.caller_id));
        assert(graph.function_to_node@.contains_key(edge.weight.callee_id));
        let a = graph.function_to_node@[edge.weight.caller_id] as int;
        let b = graph.function_to_node@[edge.weight.callee_id] as int;
        assert(function_views(functions)[a] == function_views(graph.nodes())[a]);
        assert(function_views(functions)[b] == function_views(graph.nodes())[b]);
        assert(functions[a].id == relations[i].caller_id);
        assert(functions[b].id == relations[i].callee_id);
    }
    lemma_filter_all(relations, keep);
}

/// The numbers from zero up to, but without, `count`.
pub open spec fn indices(count: nat) -> Seq<int> {
    Seq::new(count, |i: int| i)
}

/// The opening lines of the GraphML document: the declaration, the root
/// element, the keys of the node and edge attributes, and the graph element.
pub open spec fn graphml_header() -> Seq<char> {
    "<?xml version=\"1.0\" encoding=\"UTF-8\"?>\n<graphml xmlns=\"http://graphml.graphdrawing.org/xmlns\">\n  <key id=\"name\" for=\"node\" attr.name=\"name\" attr.type=\"string\"/>\n  <key id=\"file\" for=\"node\" attr.name=\"file\" attr.type=\"string\"/>\n  <key id=\"language\" for=\"node\" attr.name=\"language\" attr.type=\"string\"/>\n  <key id=\"line_start\" for=\"node\" attr.name=\"line_start\" attr.type=\"int\"/>\n  <key id=\"line_end\" for=\"node\" attr.name=\"line_end\" attr.type=\"int\"/>\n  <key id=\"line_number\" for=\"edge\" attr.name=\"line_number\" attr.type=\"int\"/>\n  <key id=\"is_resolved\" for=\"edge\" attr.name=\"is_resolved\" attr.type=\"boolean\"/>\n  <graph id=\"codegraph\" edgedefault=\"directed\">\n"@
}

/// The GraphML element of node `index` with function `function`.
pub open spec fn graphml_node(index: int, function: FunctionInfo) -> Seq<char> {
    "    <node id=\"n"@ + decimal(index as nat) + "\">\n      <data key=\"name\">"@ + function.name@
        + "</data>\n      <data key=\"file\">"@ + function.file_path@
        + "</data>\n      <data key=\"language\">"@ + function.language@
        + "</data>\n      <data key=\"line_start\">"@ + decimal(function.line_start as nat)
        + "</data>\n      <data key=\"line_end\">"@ + decimal(function.line_end as nat)
        + "</data>\n    </node>\n"@
}

/// The GraphML element of edge `index`.
pub open spec fn graphml_edge(index: int, edge: GraphEdge) -> Seq<char> {
    "    <edge id=\"e"@ + decimal(index as nat) + "\" source=\"n"@ + decimal(edge.source as nat)
        + "\" target=\"n"@ + decimal(edge.target as nat)
        + "\">\n      <data key=\"line_number\">"@ + decimal(edge.weight.line_number as nat)
        + "</data>\n      <data key=\"is_resolved\">"@ + bool_text(edge.weight.is_resolved)
        + "</data>\n    </edge>\n"@
}

/// The GraphML document of a graph: one node element for each function
/// with its name, file, language and lines, and one edge element for each
/// call with its line and whether it is resolved.
pub open spec fn graphml_text(nodes: Seq<FunctionInfo>, edges: Seq<GraphEdge>) -> Seq<char> {
    graphml_header() + joined(indices(nodes.len()), |i: int| graphml_node(i, nodes[i])) + joined(
        indices(edges.len()),
        |e: int| graphml_edge(e, edges[e]),
    ) + "  </graph>\n</graphml>\n"@
}

/// The opening lines of the GEXF document: the declaration, the root
/// element, the description, the graph element, the declarations of the
/// node and edge attributes, and the opening of the list of nodes.
pub open spec fn gexf_header() -> Seq<char> {
    "<?xml version=\"1.0\" encoding=\"UTF-8\"?>\n<gexf xmlns=\"http://www.gexf.net/1.3\" version=\"1.3\">\n  <meta lastmodifieddate=\"2024-01-01\">\n    <creator>CodeGraph Exporter</creator>\n    <description>Code dependency graph</description>\n  </meta>\n  <graph mode=\"static\" defaultedgetype=\"directed\">\n    <attributes class=\"node\">\n      <attribute id=\"0\" title=\"name\" type=\"string\"/>\n      <attribute id=\"1\" title=\"file\" type=\"string\"/>\n      <attribute id=\"2\" title=\"language\" type=\"string\"/>\n      <attribute id=\"3\" title=\"line_start\" type=\"integer\"/>\n      <attribute id=\"4\" title=\"line_end\" type=\"integer\"/>\n    </attributes>\n    <attributes class=\"edge\">\n      <attribute id=\"0\" title=\"line_number\" type=\"integer\"/>\n      <attribute id=\"1\" title=\"is_resolved\" type=\"boolean\"/>\n    </attributes>\n    <nodes>\n"@
}

/// The GEXF element of node `index` with function `function`.
pub open spec fn gexf_node(index: int, function: FunctionInfo) -> Seq<char> {
    "      <node id=\""@ + decimal(index as nat) + "\" label=\""@ + function.name@
        + "\">\n        <attvalues>\n          <attvalue for=\"0\" value=\""@ + function.name@
        + "\"/>\n          <attvalue for=\"1\" value=\""@ + function.file_path@
        + "\"/>\n          <attvalue for=\"2\" value=\""@ + function.language@
        + "\"/>\n          <attvalue for=\"3\" value=\""@ + decimal(function.line_start as nat)
        + "\"/>\n          <attvalue for=\"4\" value=\""@ + decimal(function.line_end as nat)
        + "\"/>\n        </attvalues>\n      </node>\n"@
}

/// The GEXF element of edge `index`.
pub open spec fn gexf_edge(index: int, edge: GraphEdge) -> Seq<char> {
    "      <edge id=\""@ + decimal(index as nat) + "\" source=\""@ + decimal(edge.source as nat)
        + "\" target=\""@ + decimal(edge.target as nat)
        + "\">\n        <attvalues>\n          <attvalue for=\"0\" value=\""@ + decimal(
        edge.weight.line_number as nat,
    ) + "\"/>\n          <attvalue for=\"1\" value=\""@ + bool_text(edge.weight.is_resolved)
        + "\"/>\n        </attvalues>\n      </edge>\n"@
}

/// The GEXF document of a graph: one node element for each function with
/// its name, file, language and lines, and one edge element for each call
/// with its line and whether it is resolved.
pub open spec fn gexf_text(nodes: Seq<FunctionInfo>, edges: Seq<GraphEdge>) -> Seq<char> {
    gexf_header() + joined(indices(nodes.len()), |i: int| gexf_node(i, nodes[i]))
        + "    </nodes>\n    <edges>\n"@ + joined(
        indices(edges.len()),
        |e: int| gexf_edge(e, edges[e]),
    ) + "    </edges>\n  </graph>\n</gexf>\n"@
}

/// Appends the GraphML element of a node.
fn push_graphml_node(out: &mut String, index: usize, function: &FunctionInfo)
    ensures
        final(out)@ == old(out)@ + graphml_node(index as int, *function),
{
    let mut block = String::from_str("    <node id=\"n");
    block.append(usize_text(index).as_str());
    block.append("\">\n      <data key=\"name\">");
    block.append(function.name.as_str());
    block.append("</data>\n      <data key=\"file\">");
    block.append(function.file_path.as_str());
    block.append("</data>\n      <data key=\"language\">");
    block.append(function.language.as_str());
    block.append("</data>\n      <data key=\"line_start\">");
    block.append(usize_text(function.line_start).as_str());
    block.append("</data>\n      <data key=\"line_end\">");
    block.append(usize_text(function.line_end).as_str());
    block.append("</data>\n    </node>\n");
    out.append(block.as_str());
}

/// Appends the GraphML element of an edge.
fn push_graphml_edge(out: &mut String, index: usize, source: u32, target: u32, relation: &CallRelation)
    ensures
        final(out)@ == old(out)@ + graphml_edge(
            index as int,
            GraphEdge { source, target, weight: *relation },
        ),
{
    let mut block = String::from_str("    <edge id=\"e");
    block.append(usize_text(index).as_str());
    block.append("\" source=\"n");
    block.append(usize_text(source as usize).as_str());
    block.append("\" target=\"n");
    block.append(usize_text(target as usize).as_str());
    block.append("\">\n      <data key=\"line_number\">");
    block.append(usize_text(relation.line_number).as_str());
    block.append("</data>\n      <data key=\"is_resolved\">");
    block.append(bool_text_of(relation.is_resolved).as_str());
    block.append("</data>\n    </edge>\n");
    out.append(block.as_str());
}

/// Appends the GEXF element of a node.
fn push_gexf_node(out: &mut String, index: usize, function: &FunctionInfo)
    ensures
        final(out)@ == old(out)@ + gexf_node(index as int, *function),
{
    let mut block = String::from_str("      <node id=\"");
    block.append(usize_text(index).as_str());
    block.append("\" label=\"");
    block.append(function.name.as_str());
    block.append("\">\n        <attvalues>\n          <attvalue for=\"0\" value=\"");
    block.append(function.name.as_str());
    block.append("\"/>\n          <attvalue for=\"1\" value=\"");
    block.append(function.file_path.as_str());
    block.append("\"/>\n          <attvalue for=\"2\" value=\"");
    block.append(function.language.as_str());
    block.append("\"/>\n          <attvalue for=\"3\" value=\"");
    block.append(usize_text(function.line_start).as_str());
    block.append("\"/>\n          <attvalue for=\"4\" value=\"");
    block.append(usize_text(function.line_end).as_str());
    block.append("\"/>\n        </attvalues>\n      </node>\n");
    out.append(block.as_str());
}

/// Appends the GEXF element of an edge.
fn push_gexf_edge(out: &mut String, index: usize, source: u32, target: u32, relation: &CallRelation)
    ensures
        final(out)@ == old(out)@ + gexf_edge(
            index as int,
            GraphEdge { source, target, weight: *relation },
        ),
{
    let mut block = String::from_str("      <edge id=\"");
    block.append(usize_text(index).as_str());
    block.append("\" source=\"");
    block.append(usize_text(source as usize).as_str());
    block.append("\" target=\"");
    block.append(usize_text(target as usize).as_str());
    block.append("\">\n        <attvalues>\n          <attvalue for=\"0\" value=\"");
    block.append(usize_text(relation.line_number).as_str());
    block.append("\"/>\n          <attvalue for=\"1\" value=\"");
    block.append(bool_text_of(relation.is_resolved).as_str());
    block.append("\"/>\n        </attvalues>\n      </edge>\n");
    out.append(block.as_str());
}

/// The operations that turn a graph into documents.
#[derive(Debug)]
pub struct PetGraphStorageManager;

impl PetGraphStorageManager {
    /// The GraphML document of `code_graph`.
    pub fn export_to_graphml(code_graph: &PetGraphCodeGraph) -> (out: String)
        ensures
            out@ == graphml_text(code_graph.nodes(), code_graph.edges()),
    {
        let ghost nodes = code_graph.nodes();
        let ghost edges = code_graph.edges();
        let ghost node_text = |i: int| graphml_node(i, nodes[i]);
        let ghost edge_text = |e: int| graphml_edge(e, edges[e]);
        let functions = code_graph.get_all_functions();
        let mut out = String::from_str(
            "<?xml version=\"1.0\" encoding=\"UTF-8\"?>\n<graphml xmlns=\"http://graphml.graphdrawing.org/xmlns\">\n  <key id=\"name\" for=\"node\" attr.name=\"name\" attr.type=\"string\"/>\n  <key id=\"file\" for=\"node\" attr.name=\"file\" attr.type=\"string\"/>\n  <key id=\"language\" for=\"node\" attr.name=\"language\" attr.type=\"string\"/>\n  <key id=\"line_start\" for=\"node\" attr.name=\"line_start\" attr.type=\"int\"/>\n  <key id=\"line_end\" for=\"node\" attr.name=\"line_end\" attr.type=\"int\"/>\n  <key id=\"line_number\" for=\"edge\" attr.name=\"line_number\" attr.type=\"int\"/>\n  <key id=\"is_resolved\" for=\"edge\" attr.name=\"is_resolved\" attr.type=\"boolean\"/>\n  <graph id=\"codegraph\" edgedefault=\"directed\">\n",
        );
        let mut i: usize = 0;
        proof {
            assert(functions@.unref().len() == functions@.len());
            lemma_joined_empty(indices(nodes.len()).take(0), node_text);
        }
        while i < functions.len()
            invariant
                i <= functions@.len(),
                functions@.unref() == nodes,
                functions@.len() == nodes.len(),
                node_text == |i: int| graphml_node(i, nodes[i]),
                out@ == graphml_header() + joined(indices(nodes.len()).take(i as int), node_text),
            decreases functions@.len() - i,
        {
            proof {
                lemma_joined_step(indices(nodes.len()), i as int, node_text);
                assert(functions@.unref()[i as int] == *functions@[i as int]);
            }
            push_graphml_node(&mut out, i, functions[i]);
            i += 1;
        }
        let ghost head = out@;
        let count = crate::digraph::graph_edge_count(&code_graph.graph);
        let mut e: usize = 0;
        proof {
            lemma_take_all(indices(nodes.len()));
            lemma_joined_empty(indices(edges.len()).take(0), edge_text);
        }
        while e < count
            invariant
                e <= count,
                count == edges.len(),
                count <= u32::MAX,
                edges == code_graph.edges(),
                edge_text == |e: int| graphml_edge(e, edges[e]),
                out@ == head + joined(indices(edges.len()).take(e as int), edge_text),
            decreases count - e,
        {
            proof {
                lemma_joined_step(indices(edges.len()), e as int, edge_text);
            }
            let ends = crate::digraph::graph_edge_endpoints(&code_graph.graph, e as u32).unwrap();
            let relation = crate::digraph::graph_edge_weight(&code_graph.graph, e as u32).unwrap();
            push_graphml_edge(&mut out, e, ends.0, ends.1, relation);
            e += 1;
        }
        proof {
            lemma_take_all(indices(edges.len()));
        }
        out.append("  </graph>\n</graphml>\n");
        out
    }

    /// The GEXF document of `code_graph`.
    pub fn export_to_gexf(code_graph: &PetGraphCodeGraph) -> (out: String)
        ensures
            out@ == gexf_text(code_graph.nodes(), code_graph.edges()),
    {
        let ghost nodes = code_graph.nodes();
        let ghost edges = code_graph.edges();
        let ghost node_text = |i: int| gexf_node(i, nodes[i]);
        let ghost edge_text = |e: int| gexf_edge(e, edges[e]);
        let functions = code_graph.get_all_functions();
        let mut out = String::from_str(
            "<?xml version=\"1.0\" encoding=\"UTF-8\"?>\n<gexf xmlns=\"http://www.gexf.net/1.3\" version=\"1.3\">\n  <meta lastmodifieddate=\"2024-01-01\">\n    <creator>CodeGraph Exporter</creator>\n    <description>Code dependency graph</description>\n  </meta>\n  <graph mode=\"static\" defaultedgetype=\"directed\">\n    <attributes class=\"node\">\n      <attribute id=\"0\" title=\"name\" type=\"string\"/>\n      <attribute id=\"1\" title=\"file\" type=\"string\"/>\n      <attribute id=\"2\" title=\"language\" type=\"string\"/>\n      <attribute id=\"3\" title=\"line_start\" type=\"integer\"/>\n      <attribute id=\"4\" title=\"line_end\" type=\"integer\"/>\n    </attributes>\n    <attributes class=\"edge\">\n      <attribute id=\"0\" title=\"line_number\" type=\"integer\"/>\n      <attribute id=\"1\" title=\"is_resolved\" type=\"boolean\"/>\n    </attributes>\n    <nodes>\n",
        );
        let mut i: usize = 0;
        proof {
            assert(functions@.unref().len() == functions@.len());
            lemma_joined_empty(indices(nodes.len()).take(0), node_text);
        }
        while i < functions.len()
            invariant
                i <= functions@.len(),
                functions@.unref() == nodes,
                functions@.len() == nodes.len(),
                node_text == |i: int| gexf_node(i, nodes[i]),
                out@ == gexf_header() + joined(indices(nodes.len()).take(i as int), node_text),
            decreases functions@.len() - i,
        {
            proof {
                lemma_joined_step(indices(nodes.len()), i as int, node_text);
                assert(functions@.unref()[i as int] == *functions@[i as int]);
            }
            push_gexf_node(&mut out, i, functions[i]);
            i += 1;
        }
        out.append("    </nodes>\n    <edges>\n");
        let ghost head = out@;
        let count = crate::digraph::graph_edge_count(&code_graph.graph);
        let mut e: usize = 0;
        proof {
            lemma_take_all(indices(nodes.len()));
            lemma_joined_empty(indices(edges.len()).take(0), edge_text);
        }
        while e < count
            invariant
                e <= count,
                count == edges.len(),
                count <= u32::MAX,
                edges == code_graph.edges(),
                edge_text == |e: int| gexf_edge(e, edges[e]),
                out@ == head + joined(indices(edges.len()).take(e as int), edge_text),
            decreases count - e,
        {
            proof {
                lemma_joined_step(indices(edges.len()), e as int, edge_text);
            }
            let ends = crate::digraph::graph_edge_endpoints(&code_graph.graph, e as u32).unwrap();
            let relation = crate::digraph::graph_edge_weight(&code_graph.graph, e as u32).unwrap();
            push_gexf_edge(&mut out, e, ends.0, ends.1, relation);
            e += 1;
        }
        proof {
            lemma_take_all(indices(edges.len()));
        }
        out.append("    </edges>\n  </graph>\n</gexf>\n");
        out
    }
}

} // verus!
