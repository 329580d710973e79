//! The text of the export formats: two diagram markups with one node for
//! each function and one edge for each call, and two attributed XML
//! documents for visualisation tools.
//!
//! Each format is stated as a function from the listed functions and edges
//! to characters; the graph types walk their contents and append line by line.
use vstd::prelude::*;
use crate::seq_util::joined;
use crate::seq_util::lemma_joined_empty;
use crate::seq_util::lemma_joined_step;
use crate::seq_util::lemma_take_all;
use crate::text::node_name;
use crate::text::node_name_of;
use crate::types::CallRelation;
use crate::types::FunctionInfo;

verus! {

/// An edge of a diagram: the identifiers of its two ends, and whether the
/// call is resolved.
#[derive(Debug, Clone, Copy)]
pub struct Link {
    pub caller: u128,
    pub callee: u128,
    pub is_resolved: bool,
}

/// The diagram edge of a call edge, by the identifiers that the edge carries.
pub open spec fn link_of(relation: CallRelation) -> Link {
    Link { caller: relation.caller_id, callee: relation.callee_id, is_resolved: relation.is_resolved }
}

/// The diagram edges of a list of call edges, in order.
pub open spec fn links_of(relations: Seq<CallRelation>) -> Seq<Link> {
    relations.map_values(|r: CallRelation| link_of(r))
}

/// The label of a node: the function's name and file, with the two
/// characters `\n` between them.
pub open spec fn node_label(function: FunctionInfo) -> Seq<char> {
    function.name@ + "\\n"@ + function.file_path@
}

/// The line of one node of the flow chart.
pub open spec fn mermaid_node_line(function: FunctionInfo) -> Seq<char> {
    "    "@ + node_name(function.id) + "[\""@ + node_label(function) + "\"]\n"@
}

/// The mark of an unresolved edge in the flow chart.
pub open spec fn mermaid_style(is_resolved: bool) -> Seq<char> {
    if is_resolved {
        ""@
    } else {
        ":::unresolved"@
    }
}

/// The line of one edge of the flow chart.
pub open spec fn mermaid_edge_line(link: Link) -> Seq<char> {
    "    "@ + node_name(link.caller) + " --> "@ + node_name(link.callee) + mermaid_style(
        link.is_resolved,
    ) + "\n"@
}

/// The flow chart of `nodes` and `links`: a header, the nodes, the edges,
/// and the style of unresolved edges.
pub open spec fn mermaid_text(nodes: Seq<FunctionInfo>, links: Seq<Link>) -> Seq<char> {
    "graph TD\n"@ + joined(nodes, |f: FunctionInfo| mermaid_node_line(f)) + joined(
        links,
        |l: Link| mermaid_edge_line(l),
    ) + "\nclassDef unresolved stroke-dasharray: 5 5\n"@
}

/// The line of one node of the digraph.
pub open spec fn dot_node_line(function: FunctionInfo) -> Seq<char> {
    "    "@ + node_name(function.id) + " [label=\""@ + node_label(function) + "\"];\n"@
}

/// The mark of an unresolved edge in the digraph.
pub open spec fn dot_style(is_resolved: bool) -> Seq<char> {
    if is_resolved {
        ""@
    } else {
        " [style=dashed]"@
    }
}

/// The line of one edge of the digraph.
pub open spec fn dot_edge_line(link: Link) -> Seq<char> {
    "    "@ + node_name(link.caller) + " -> "@ + node_name(link.callee) + dot_style(
        link.is_resolved,
    ) + ";\n"@
}

/// The opening lines of the digraph.
pub open spec fn dot_header() -> Seq<char> {
    "digraph CodeGraph {\n"@ + "    rankdir=TB;\n"@ + "    node [shape=box];\n\n"@
}

/// The digraph of `nodes` and `links`.
pub open spec fn dot_text(nodes: Seq<FunctionInfo>, links: Seq<Link>) -> Seq<char> {
    dot_header() + joined(nodes, |f: FunctionInfo| dot_node_line(f)) + joined(
        links,
        |l: Link| dot_edge_line(l),
    ) + "}\n"@
}

/// Appends the flow-chart line of `function`.
pub fn push_mermaid_node(out: &mut String, function: &FunctionInfo)
    ensures
        final(out)@ == old(out)@ + mermaid_node_line(*function),
{
    let name = node_name_of(function.id);
    let mut label = function.name.clone();
    label.append("\\n");
    label.append(function.file_path.as_str());
    let mut line = String::from_str("    ");
    line.append(name.as_str());
    line.append("[\"");
    line.append(label.as_str());
    line.append("\"]\n");
    out.append(line.as_str());
}

/// Appends the flow-chart line of an edge.
pub fn push_mermaid_edge(out: &mut String, caller: u128, callee: u128, is_resolved: bool)
    ensures
        final(out)@ == old(out)@ + mermaid_edge_line(Link { caller, callee, is_resolved }),
{
    let from = node_name_of(caller);
    let to = node_name_of(callee);
    let style = if is_resolved { "" } else { ":::unresolved" };
    let mut line = String::from_str("    ");
    line.append(from.as_str());
    line.append(" --> ");
    line.append(to.as_str());
    line.append(style);
    line.append("\n");
    out.append(line.as_str());
}

/// Appends the digraph line of `function`.
pub fn push_dot_node(out: &mut String, function: &FunctionInfo)
    ensures
        final(out)@ == old(out)@ + dot_node_line(*function),
{
    let name = node_name_of(function.id);
    let mut label = function.name.clone();
    label.append("\\n");
    label.append(function.file_path.as_str());
    let mut line = String::from_str("    ");
    line.append(name.as_str());
    line.append(" [label=\"");
    line.append(label.as_str());
    line.append("\"];\n");
    out.append(line.as_str());
}

/// Appends the digraph line of an edge.
pub fn push_dot_edge(out: &mut String, caller: u128, callee: u128, is_resolved: bool)
    ensures
        final(out)@ == old(out)@ + dot_edge_line(Link { caller, callee, is_resolved }),
{
    let from = node_name_of(caller);
    let to = node_name_of(callee);
    let style = if is_resolved { "" } else { " [style=dashed]" };
    let mut line = String::from_str("    ");
    line.append(from.as_str());
    line.append(" -> ");
    line.append(to.as_str());
    line.append(style);
    line.append(";\n");
    out.append(line.as_str());
}

/// The opening lines of the digraph, as text.
pub fn dot_header_text() -> (out: String)
    ensures
        out@ == dot_header(),
{
    let mut out = String::from_str("digraph CodeGraph {\n");
    out.append("    rankdir=TB;\n");
    out.append("    node [shape=box];\n\n");
    out
}

/// The diagram edges of `relations`, in order.
pub fn links_from(relations: &Vec<CallRelation>) -> (links: Vec<Link>)
    ensures
        links@ == links_of(relations@),
{
    let mut links: Vec<Link> = Vec::new();
    let mut i: usize = 0;
    while i < relations.len()
        invariant
            i <= relations@.len(),
            links@.len() == i,
            forall|j: int| 0 <= j < i ==> #[trigger] links@[j] == link_of(relations@[j]),
        decreases relations@.len() - i,
    {
        let relation = &relations[i];
        links.push(
            Link {
                caller: relation.caller_id,
                callee: relation.callee_id,
                is_resolved: relation.is_resolved,
            },
        );
        i += 1;
    }
    assert(links@ =~= links_of(relations@));
    links
}

/// The flow chart of `nodes` and `links`.
pub fn mermaid_document(nodes: &Vec<&FunctionInfo>, links: &Vec<Link>) -> (out: String)
    ensures
        out@ == mermaid_text(nodes@.unref(), links@),
{
    let ghost node_line = |f: FunctionInfo| mermaid_node_line(f);
    let ghost edge_line = |l: Link| mermaid_edge_line(l);
    let ghost items = nodes@.unref();
    let mut out = String::from_str("graph TD\n");
    let mut i: usize = 0;
    proof {
        lemma_joined_empty(items.take(0), node_line);
    }
    while i < nodes.len()
        invariant
            i <= nodes@.len(),
            items == nodes@.unref(),
            node_line == |f: FunctionInfo| mermaid_node_line(f),
            out@ == "graph TD\n"@ + joined(items.take(i as int), node_line),
        decreases nodes@.len() - i,
    {
        proof {
            lemma_joined_step(items, i as int, node_line);
        }
        push_mermaid_node(&mut out, nodes[i]);
        i += 1;
    }
    let ghost head = out@;
    let mut j: usize = 0;
    proof {
        lemma_take_all(items);
        lemma_joined_empty(links@.take(0), edge_line);
    }
    while j < links.len()
        invariant
            j <= links@.len(),
            edge_line == |l: Link| mermaid_edge_line(l),
            out@ == head + joined(links@.take(j as int), edge_line),
        decreases links@.len() - j,
    {
        proof {
            lemma_joined_step(links@, j as int, edge_line);
        }
        let link = &links[j];
        push_mermaid_edge(&mut out, link.caller, link.callee, link.is_resolved);
        j += 1;
    }
    proof {
        lemma_take_all(links@);
    }
    out.append("\nclassDef unresolved stroke-dasharray: 5 5\n");
    out
}

/// The digraph of `nodes` and `links`.
pub fn dot_document(nodes: &Vec<&FunctionInfo>, links: &Vec<Link>) -> (out: String)
    ensures
        out@ == dot_text(nodes@.unref(), links@),
{
    let ghost node_line = |f: FunctionInfo| dot_node_line(f);
    let ghost edge_line = |l: Link| dot_edge_line(l);
    let ghost items = nodes@.unref();
    let mut out = dot_header_text();
    let mut i: usize = 0;
    proof {
        lemma_joined_empty(items.take(0), node_line);
    }
    while i < nodes.len()
        invariant
            i <= nodes@.len(),
            items == nodes@.unref(),
            node_line == |f: FunctionInfo| dot_node_line(f),
            out@ == dot_header() + joined(items.take(i as int), node_line),
        decreases nodes@.len() - i,
    {
        proof {
            lemma_joined_step(items, i as int, node_line);
        }
        push_dot_node(&mut out, nodes[i]);
        i += 1;
    }
    let ghost head = out@;
    let mut j: usize = 0;
    proof {
        lemma_take_all(items);
        lemma_joined_empty(links@.take(0), edge_line);
    }
    while j < links.len()
        invariant
            j <= links@.len(),
            edge_line == |l: Link| dot_edge_line(l),
            out@ == head + joined(links@.take(j as int), edge_line),
        decreases links@.len() - j,
    {
        proof {
            lemma_joined_step(links@, j as int, edge_line);
        }
        let link = &links[j];
        push_dot_edge(&mut out, link.caller, link.callee, link.is_resolved);
        j += 1;
    }
    proof {
        lemma_take_all(links@);
    }
    out.append("}\n");
    out
}

} // verus!
