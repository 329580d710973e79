//! Read-only analyses of a built call graph: who calls whom, call chains,
//! cycles, the functions with the most calls, the functions that are never
//! called or call nothing, distributions, and a report.
use vstd::prelude::*;
use crate::chains::chain_views;
use crate::cycles::cycles_from;
use crate::cycles::find_cycles;
use crate::ranking::is_ranking;
use crate::ranking::rank;
use crate::text::decimal;
use crate::text::file_name_of;
use crate::text::joined_with;
use crate::text::usize_text;
use crate::text_map::occurrences;
use crate::text_map::text_views;
use crate::text_map::Histogram;
use crate::chains::chains_from;
use crate::call_graph::is_walk_of;
use crate::call_graph::known_functions;
use crate::call_graph::CallGraph;
use crate::graph::CodeGraph;
use crate::pet_graph::PetGraphCodeGraph;
use crate::parser::built;
use crate::parser::distinct_declarations;
use crate::parser::rows_fit;
use crate::parser::symbol_total;
use crate::parser::with_file;
use crate::parser::CodeParser;
use crate::parser::FileSymbols;
use crate::parser::SymbolRecord;
use crate::seq_util::joined;
use crate::seq_util::lemma_filter_empty;
use crate::seq_util::lemma_filter_step;
use crate::seq_util::lemma_joined_empty;
use crate::seq_util::lemma_joined_step;
use crate::seq_util::lemma_take_all;
use crate::types::CallRelation;
use crate::types::CodeGraphStats;
use crate::types::FunctionInfo;

verus! {

broadcast use vstd::std_specs::hash::group_hash_axioms;

/// The callers of the edges `relations`, in order.
pub open spec fn caller_ids(relations: Seq<CallRelation>) -> Seq<u128> {
    relations.map_values(|r: CallRelation| r.caller_id)
}

/// The callees of the edges `relations`, in order.
pub open spec fn callee_ids(relations: Seq<CallRelation>) -> Seq<u128> {
    relations.map_values(|r: CallRelation| r.callee_id)
}

/// The functions that call the function `id`, one for each edge that ends in
/// it, in the order of the edges. A caller that is no function of the graph
/// is passed over.
pub open spec fn callers_of<G: CallGraph>(graph: &G, id: u128) -> Seq<FunctionInfo> {
    known_functions(caller_ids(graph.edges_into(id)), graph.function_map())
}

/// The functions that the function `id` calls, one for each edge that starts
/// in it, in the order of the edges. A callee that is no function of the
/// graph is passed over.
pub open spec fn callees_of<G: CallGraph>(graph: &G, id: u128) -> Seq<FunctionInfo> {
    known_functions(callee_ids(graph.edges_from(id)), graph.function_map())
}

/// The functions named `name`, in the order of their arrival.
pub open spec fn named_in<G: CallGraph>(graph: &G, name: Seq<char>) -> Seq<FunctionInfo> {
    known_functions(graph.ids_named(name), graph.function_map())
}

/// The callers of all functions named `name`, function by function.
pub open spec fn callers_named<G: CallGraph>(graph: &G, name: Seq<char>) -> Seq<FunctionInfo> {
    joined(named_in(graph, name), |f: FunctionInfo| callers_of(graph, f.id))
}

/// The callees of all functions named `name`, function by function.
pub open spec fn callees_named<G: CallGraph>(graph: &G, name: Seq<char>) -> Seq<FunctionInfo> {
    joined(named_in(graph, name), |f: FunctionInfo| callees_of(graph, f.id))
}

/// The functions of each of `chains`; an identifier without a function is
/// passed over.
pub open spec fn chain_functions<G: CallGraph>(graph: &G, chains: Seq<Seq<u128>>) -> Seq<Seq<FunctionInfo>> {
    Seq::new(chains.len(), |i: int| known_functions(chains[i], graph.function_map()))
}

/// The call chains from the first function named `name`; none where no
/// function has that name.
pub open spec fn chains_named<G: CallGraph>(graph: &G, name: Seq<char>, max_depth: nat) -> Seq<
    Seq<FunctionInfo>,
> {
    if named_in(graph, name).len() == 0 {
        Seq::empty()
    } else {
        chain_functions(
            graph,
            chains_from(graph.callee_fn(), named_in(graph, name)[0].id, Set::empty(), 0, max_depth).0,
        )
    }
}

/// The contents of a list of lists of functions.
pub open spec fn function_lists(lists: Seq<Vec<&FunctionInfo>>) -> Seq<Seq<FunctionInfo>> {
    Seq::new(lists.len(), |i: int| lists[i]@.unref())
}

/// Those of `order` that no edge ends in: the functions that are never called.
pub open spec fn leaf_ids<G: CallGraph>(graph: &G, order: Seq<u128>) -> Seq<u128> {
    order.filter(|id: u128| graph.edges_into(id).len() == 0)
}

/// Those of `order` that no edge starts in: the functions that call nothing.
pub open spec fn root_ids<G: CallGraph>(graph: &G, order: Seq<u128>) -> Seq<u128> {
    order.filter(|id: u128| graph.edges_from(id).len() == 0)
}

/// In a graph without edges every function is never called and calls
/// nothing: both lists hold all functions, so what they share is the full
/// set of functions.
pub proof fn lemma_edgeless_leaves_and_roots<G: CallGraph>(graph: &G, order: Seq<u128>)
    requires
        forall|id: u128| #[trigger] graph.edges_into(id).len() == 0,
        forall|id: u128| #[trigger] graph.edges_from(id).len() == 0,
    ensures
        leaf_ids(graph, order) == order,
        root_ids(graph, order) == order,
        is_walk_of(order, graph.function_map()) ==> leaf_ids(graph, order).to_set()
            == graph.function_map().dom() && root_ids(graph, order).to_set()
            == graph.function_map().dom(),
{
    let leaf = |id: u128| graph.edges_into(id).len() == 0;
    let root = |id: u128| graph.edges_from(id).len() == 0;
    crate::seq_util::lemma_filter_all(order, leaf);
    crate::seq_util::lemma_filter_all(order, root);
}

/// A side-table graph without call edges has no edge into or from any
/// function, so all its functions are never called and call nothing.
pub proof fn lemma_edgeless_code_graph(graph: &CodeGraph, order: Seq<u128>)
    requires
        graph.call_relations@.len() == 0,
    ensures
        leaf_ids(graph, order) == order,
        root_ids(graph, order) == order,
{
    assert forall|id: u128| #[trigger] graph.edges_into(id).len() == 0 by {
        lemma_filter_empty(graph.call_relations@, |r: CallRelation| r.callee_id == id);
    }
    assert forall|id: u128| #[trigger] graph.edges_from(id).len() == 0 by {
        lemma_filter_empty(graph.call_relations@, |r: CallRelation| r.caller_id == id);
    }
    lemma_edgeless_leaves_and_roots(graph, order);
}

/// The number of edges that end or start in the function `id`.
pub open spec fn score_of<G: CallGraph>(graph: &G, id: u128) -> nat {
    graph.edges_into(id).len() + graph.edges_from(id).len()
}

/// The scores of the functions `ids`, in order.
pub open spec fn scores_of<G: CallGraph>(graph: &G, ids: Seq<u128>) -> Seq<usize> {
    ids.map_values(|id: u128| score_of(graph, id) as usize)
}

/// Those of `ids` that are functions of the graph, in order.
pub open spec fn known_ids<G: CallGraph>(graph: &G, ids: Seq<u128>) -> Seq<u128> {
    ids.filter(|id: u128| graph.function_map().contains_key(id))
}

/// `list` holds the `limit` functions among `ids` with the most edges, each
/// with its number of edges, the one with the most first; of two with as
/// many edges the one that stands first in `ids` comes first.
pub open spec fn is_complexity_list<G: CallGraph>(
    graph: &G,
    ids: Seq<u128>,
    limit: nat,
    list: Seq<(FunctionInfo, usize)>,
) -> bool {
    exists|ranking: Seq<usize>| #[trigger]
        is_ranking(ranking, scores_of(graph, ids), limit) && list.len() == ranking.len()
            && forall|i: int|
            0 <= i < list.len() ==> #[trigger] list[i] == (
                graph.function_map()[ids[ranking[i] as int]],
                scores_of(graph, ids)[ranking[i] as int],
            )
}

/// The contents of a list of functions with their numbers of edges.
pub open spec fn scored(list: Seq<(&FunctionInfo, usize)>) -> Seq<(FunctionInfo, usize)> {
    Seq::new(list.len(), |i: int| (*list[i].0, list[i].1))
}

/// The languages of `functions`, in order.
pub open spec fn languages_of(functions: Seq<FunctionInfo>) -> Seq<Seq<char>> {
    functions.map_values(|f: FunctionInfo| f.language@)
}

/// The line of the report for a language and the number of its functions.
pub open spec fn language_line(language: Seq<char>, count: usize) -> Seq<char> {
    "  "@ + language + ": "@ + decimal(count as nat) + "\n"@
}

/// The line of the report for a function and the number of its edges.
pub open spec fn complexity_line(entry: (FunctionInfo, usize)) -> Seq<char> {
    "  "@ + entry.0.name@ + " ("@ + entry.0.file_path@ + "): "@ + decimal(entry.1 as nat)
        + " calls\n"@
}

/// The names of `functions`, in order.
pub open spec fn names_of(functions: Seq<FunctionInfo>) -> Seq<Seq<char>> {
    functions.map_values(|f: FunctionInfo| f.name@)
}

/// The line of the report for the cycle at place `index`.
pub open spec fn cycle_line(index: int, cycle: Seq<FunctionInfo>) -> Seq<char> {
    "  Cycle "@ + decimal((index + 1) as nat) + ": "@ + joined_with(names_of(cycle), " -> "@)
        + "\n"@
}

/// The part of the report that lists the cycles.
pub open spec fn cycle_lines(cycles: Seq<Seq<FunctionInfo>>) -> Seq<char> {
    if cycles.len() == 0 {
        "  No circular dependencies found\n"@
    } else {
        joined(Seq::new(cycles.len(), |i: int| i), |i: int| cycle_line(i, cycles[i]))
    }
}

/// The head of the report: its title and the numbers of the graph.
pub open spec fn report_head(stats: CodeGraphStats) -> Seq<char> {
    "=== Code Graph Call Report ===\n\nTotal Functions: "@ + decimal(stats.total_functions as nat)
        + "\nTotal Files: "@ + decimal(stats.total_files as nat) + "\nResolved Calls: "@ + decimal(
        stats.resolved_calls as nat,
    ) + "\nUnresolved Calls: "@ + decimal(stats.unresolved_calls as nat) + "\nLanguages: "@
        + decimal(stats.total_languages as nat) + "\n\nLanguage Distribution:\n"@
}

/// The report: the numbers of the graph, the functions of each language,
/// the functions with the most edges, and the cycles.
pub open spec fn report_text(
    stats: CodeGraphStats,
    complex: Seq<(FunctionInfo, usize)>,
    cycles: Seq<Seq<FunctionInfo>>,
) -> Seq<char> {
    report_head(stats) + joined(
        Seq::new(stats.languages.key_seq().len(), |i: int| i),
        |i: int| language_line(stats.languages.key_seq()[i], stats.languages.value_seq()[i]),
    ) + "\nMost Complex Functions:\n"@ + joined(
        complex,
        |entry: (FunctionInfo, usize)| complexity_line(entry),
    ) + "\nCircular Dependencies:\n"@ + cycle_lines(cycles)
}

/// Appends the names of `functions`, with an arrow between each two.
fn push_names(out: &mut String, functions: &Vec<&FunctionInfo>)
    ensures
        final(out)@ == old(out)@ + joined_with(names_of(functions@.unref()), " -> "@),
{
    let ghost base = out@;
    let ghost names = names_of(functions@.unref());
    let mut i: usize = 0;
    proof {
        assert(names.take(0) =~= Seq::<Seq<char>>::empty());
        assert(out@ =~= base + joined_with(names.take(0), " -> "@));
    }
    while i < functions.len()
        invariant
            i <= functions@.len(),
            names == names_of(functions@.unref()),
            names.len() == functions@.len(),
            out@ == base + joined_with(names.take(i as int), " -> "@),
        decreases functions@.len() - i,
    {
        let ghost held = joined_with(names.take(i as int), " -> "@);
        proof {
            assert(names.take(i + 1).drop_last() =~= names.take(i as int));
            assert(names.take(i + 1).last() == functions@[i as int].name@);
        }
        if i > 0 {
            out.append(" -> ");
        }
        out.append(functions[i].name.as_str());
        proof {
            if i == 0 {
                assert(held =~= Seq::<char>::empty());
                assert(names.take(1)[0] == functions@[0].name@);
                assert(out@ =~= base + joined_with(names.take(1), " -> "@));
            } else {
                assert(out@ =~= base + (held + " -> "@ + functions@[i as int].name@));
            }
        }
        i += 1;
    }
    proof {
        lemma_take_all(names);
    }
}

/// The report for the numbers `stats`, the functions with the most
/// edges `complex`, and the cycles `cycles`.
pub fn report_text_of(
    stats: &CodeGraphStats,
    complex: &Vec<(&FunctionInfo, usize)>,
    cycles: &Vec<Vec<&FunctionInfo>>,
) -> (out: String)
    ensures
        out@ == report_text(*stats, scored(complex@), function_lists(cycles@)),
{
    let mut out = String::from_str("=== Code Graph Call Report ===\n\nTotal Functions: ");
    out.append(usize_text(stats.total_functions).as_str());
    out.append("\nTotal Files: ");
    out.append(usize_text(stats.total_files).as_str());
    out.append("\nResolved Calls: ");
    out.append(usize_text(stats.resolved_calls).as_str());
    out.append("\nUnresolved Calls: ");
    out.append(usize_text(stats.unresolved_calls).as_str());
    out.append("\nLanguages: ");
    out.append(usize_text(stats.total_languages).as_str());
    out.append("\n\nLanguage Distribution:\n");
    assert(out@ == report_head(*stats));
    let ghost keys = stats.languages.key_seq();
    let ghost values = stats.languages.value_seq();
    let ghost places = Seq::new(keys.len(), |i: int| i);
    let ghost language_text = |i: int| language_line(keys[i], values[i]);
    let count = stats.languages.len();
    let mut i: usize = 0;
    proof {
        lemma_joined_empty(places.take(0), language_text);
    }
    while i < count
        invariant
            i <= count,
            count == keys.len(),
            keys == stats.languages.key_seq(),
            values == stats.languages.value_seq(),
            places == Seq::new(keys.len(), |i: int| i),
            language_text == |i: int| language_line(keys[i], values[i]),
            out@ == report_head(*stats) + joined(places.take(i as int), language_text),
        decreases count - i,
    {
        proof {
            lemma_joined_step(places, i as int, language_text);
        }
        let mut line = String::from_str("  ");
        line.append(stats.languages.key_at(i).as_str());
        line.append(": ");
        line.append(usize_text(*stats.languages.value_at(i)).as_str());
        line.append("\n");
        out.append(line.as_str());
        i += 1;
    }
    proof {
        lemma_take_all(places);
    }
    out.append("\nMost Complex Functions:\n");
    let ghost head = out@;
    let ghost entries = scored(complex@);
    let ghost entry_text = |entry: (FunctionInfo, usize)| complexity_line(entry);
    let mut k: usize = 0;
    proof {
        lemma_joined_empty(entries.take(0), entry_text);
    }
    while k < complex.len()
        invariant
            k <= complex@.len(),
            entries == scored(complex@),
            entries.len() == complex@.len(),
            entry_text == |entry: (FunctionInfo, usize)| complexity_line(entry),
            out@ == head + joined(entries.take(k as int), entry_text),
        decreases complex@.len() - k,
    {
        proof {
            lemma_joined_step(entries, k as int, entry_text);
        }
        let function = complex[k].0;
        let score = complex[k].1;
        let mut line = String::from_str("  ");
        line.append(function.name.as_str());
        line.append(" (");
        line.append(function.file_path.as_str());
        line.append("): ");
        line.append(usize_text(score).as_str());
        line.append(" calls\n");
        out.append(line.as_str());
        k += 1;
    }
    proof {
        lemma_take_all(entries);
    }
    out.append("\nCircular Dependencies:\n");
    let ghost body = out@;
    let ghost lists = function_lists(cycles@);
    if cycles.len() == 0 {
        out.append("  No circular dependencies found\n");
    } else {
        let ghost cycle_places = Seq::new(lists.len(), |i: int| i);
        let ghost cycle_text = |i: int| cycle_line(i, lists[i]);
        let mut c: usize = 0;
        proof {
            lemma_joined_empty(cycle_places.take(0), cycle_text);
        }
        while c < cycles.len()
            invariant
                c <= cycles@.len(),
                lists == function_lists(cycles@),
                lists.len() == cycles@.len(),
                cycle_places == Seq::new(lists.len(), |i: int| i),
                cycle_text == |i: int| cycle_line(i, lists[i]),
                out@ == body + joined(cycle_places.take(c as int), cycle_text),
            decreases cycles@.len() - c,
        {
            proof {
                lemma_joined_step(cycle_places, c as int, cycle_text);
            }
            let mut line = String::from_str("  Cycle ");
            line.append(usize_text(c + 1).as_str());
            line.append(": ");
            push_names(&mut line, &cycles[c]);
            line.append("\n");
            out.append(line.as_str());
            c += 1;
        }
        proof {
            lemma_take_all(cycle_places);
        }
    }
    out
}

/// The analyses, over the graph that the last build gave.
#[derive(Debug)]
pub struct CodeGraphAnalyzer<G: CallGraph> {
    parser: CodeParser,
    code_graph: Option<G>,
}

impl<G: CallGraph> CodeGraphAnalyzer<G> {
    /// The graph of the last build, if there was one.
    pub closed spec fn graph(&self) -> Option<G> {
        self.code_graph
    }

    /// The files that were handed over.
    pub closed spec fn files(&self) -> Seq<FileSymbols> {
        self.parser.files()
    }

    /// An analyzer of the graph `graph`.
    pub fn with_graph(graph: G) -> (analyzer: Self)
        ensures
            analyzer.graph() == Some(graph),
            analyzer.files() == Seq::<FileSymbols>::empty(),
    {
        CodeGraphAnalyzer { parser: CodeParser::new(), code_graph: Some(graph) }
    }

    /// Takes the symbols of the file `file_path` for the next build. They
    /// replace what was handed over for that file before.
    pub fn parse_file(&mut self, file_path: String, symbols: Vec<SymbolRecord>)
        ensures
            final(self).files() == with_file(
                old(self).files(),
                FileSymbols { path: file_path@, symbols: symbols@ },
            ),
            final(self).graph() == old(self).graph(),
    {
        self.parser.parse_file(file_path, symbols);
    }

    /// The graph of the last build.
    pub fn get_code_graph(&self) -> (graph: Option<&G>)
        ensures
            graph == match self.graph() {
                Some(g) => Some(&g),
                None => None,
            },
    {
        self.code_graph.as_ref()
    }

    /// Appends to `out` the functions at the caller's end, or at the
    /// callee's end, of each of `relations`.
    fn push_ends<'a>(
        graph: &'a G,
        relations: &Vec<&'a CallRelation>,
        callers: bool,
        out: &mut Vec<&'a FunctionInfo>,
    )
        ensures
            final(out)@.unref() == old(out)@.unref() + known_functions(
                if callers {
                    caller_ids(relations@.unref())
                } else {
                    callee_ids(relations@.unref())
                },
                graph.function_map(),
            ),
    {
        let ghost ids = if callers {
            caller_ids(relations@.unref())
        } else {
            callee_ids(relations@.unref())
        };
        let ghost base = out@.unref();
        let ghost pred = |id: u128| graph.function_map().contains_key(id);
        let ghost pick = |id: u128| graph.function_map()[id];
        let mut k: usize = 0;
        proof {
            lemma_filter_empty(ids.take(0), pred);
            assert(out@.unref() =~= base + ids.take(0).filter(pred).map_values(pick));
        }
        while k < relations.len()
            invariant
                k <= relations@.len(),
                ids.len() == relations@.len(),
                ids == if callers {
                    caller_ids(relations@.unref())
                } else {
                    callee_ids(relations@.unref())
                },
                pred == |id: u128| graph.function_map().contains_key(id),
                pick == |id: u128| graph.function_map()[id],
                out@.unref() == base + ids.take(k as int).filter(pred).map_values(pick),
            decreases relations@.len() - k,
        {
            let relation = relations[k];
            let id = if callers { relation.caller_id } else { relation.callee_id };
            proof {
                lemma_filter_step(ids, k as int, pred);
                assert(relations@.unref()[k as int] == *relation);
                assert(ids[k as int] == id);
            }
            let ghost prev = out@.unref();
            match graph.function_by_id(&id) {
                Some(function) => {
                    out.push(function);
                    proof {
                        assert(out@.unref() =~= prev.push(*function));
                        assert(ids.take(k + 1).filter(pred).map_values(pick) =~= ids.take(
                            k as int,
                        ).filter(pred).map_values(pick).push(pick(id)));
                        assert(out@.unref() =~= base + ids.take(k + 1).filter(pred).map_values(pick));
                    }
                },
                None => {},
            }
            k += 1;
        }
        proof {
            lemma_take_all(ids);
        }
    }

    /// The functions that call a function named `function_name`: for each
    /// function of that name, in the order of their arrival, the caller of
    /// each edge that ends in it. Without a graph there are none.
    pub fn find_callers(&self, function_name: &str) -> (callers: Vec<&FunctionInfo>)
        ensures
            callers@.unref() == match self.graph() {
                Some(graph) => callers_named(&graph, function_name@),
                None => Seq::empty(),
            },
    {
        let mut all: Vec<&FunctionInfo> = Vec::new();
        match &self.code_graph {
            Some(graph) => {
                let functions = graph.functions_named(function_name);
                let ghost named = functions@.unref();
                let ghost part = |f: FunctionInfo| callers_of(graph, f.id);
                let mut i: usize = 0;
                proof {
                    lemma_joined_empty(named.take(0), part);
                    assert(all@.unref() =~= joined(named.take(0), part));
                }
                while i < functions.len()
                    invariant
                        i <= functions@.len(),
                        named == functions@.unref(),
                        named.len() == functions@.len(),
                        part == |f: FunctionInfo| callers_of(graph, f.id),
                        all@.unref() == joined(named.take(i as int), part),
                    decreases functions@.len() - i,
                {
                    let function = functions[i];
                    proof {
                        lemma_joined_step(named, i as int, part);
                        assert(named[i as int] == *function);
                    }
                    let relations = graph.callers(&function.id);
                    Self::push_ends(graph, &relations, true, &mut all);
                    i += 1;
                }
                proof {
                    lemma_take_all(named);
                }
            },
            None => {
                assert(all@.unref() =~= Seq::<FunctionInfo>::empty());
            },
        }
        all
    }

    /// The functions that a function named `function_name` calls: for each
    /// function of that name, in the order of their arrival, the callee of
    /// each edge that starts in it. Without a graph there are none.
    pub fn find_callees(&self, function_name: &str) -> (callees: Vec<&FunctionInfo>)
        ensures
            callees@.unref() == match self.graph() {
                Some(graph) => callees_named(&graph, function_name@),
                None => Seq::empty(),
            },
    {
        let mut all: Vec<&FunctionInfo> = Vec::new();
        match &self.code_graph {
            Some(graph) => {
                let functions = graph.functions_named(function_name);
                let ghost named = functions@.unref();
                let ghost part = |f: FunctionInfo| callees_of(graph, f.id);
                let mut i: usize = 0;
                proof {
                    lemma_joined_empty(named.take(0), part);
                    assert(all@.unref() =~= joined(named.take(0), part));
                }
                while i < functions.len()
                    invariant
                        i <= functions@.len(),
                        named == functions@.unref(),
                        named.len() == functions@.len(),
                        part == |f: FunctionInfo| callees_of(graph, f.id),
                        all@.unref() == joined(named.take(i as int), part),
                    decreases functions@.len() - i,
                {
                    let function = functions[i];
                    proof {
                        lemma_joined_step(named, i as int, part);
                        assert(named[i as int] == *function);
                    }
                    let relations = graph.callees(&function.id);
                    Self::push_ends(graph, &relations, false, &mut all);
                    i += 1;
                }
                proof {
                    lemma_take_all(named);
                }
            },
            None => {
                assert(all@.unref() =~= Seq::<FunctionInfo>::empty());
            },
        }
        all
    }

    /// The call chains of at most `max_depth` functions from the first
    /// function named `function_name`, as functions. Without a graph, and
    /// without a function of that name, there are none.
    pub fn find_call_chains(&self, function_name: &str, max_depth: usize) -> (chains: Vec<
        Vec<&FunctionInfo>,
    >)
        ensures
            function_lists(chains@) == match self.graph() {
                Some(graph) => chains_named(&graph, function_name@, max_depth as nat),
                None => Seq::empty(),
            },
    {
        let mut out: Vec<Vec<&FunctionInfo>> = Vec::new();
        match &self.code_graph {
            Some(graph) => {
                let functions = graph.functions_named(function_name);
                if functions.len() > 0 {
                    proof {
                        assert(functions@.unref()[0] == *functions@[0]);
                    }
                    let found = graph.call_chain(&functions[0].id, max_depth);
                    let ghost chains = chain_views(found@);
                    let mut i: usize = 0;
                    while i < found.len()
                        invariant
                            i <= found@.len(),
                            chains == chain_views(found@),
                            out@.len() == i,
                            forall|k: int|
                                0 <= k < i ==> (#[trigger] out@[k])@.unref() == known_functions(
                                    chains[k],
                                    graph.function_map(),
                                ),
                        decreases found@.len() - i,
                    {
                        let resolved = graph.functions_of(&found[i]);
                        out.push(resolved);
                        i += 1;
                    }
                    proof {
                        assert(function_lists(out@) =~= chain_functions(graph, chains));
                    }
                } else {
                    proof {
                        assert(functions@.unref().len() == 0);
                        assert(function_lists(out@) =~= Seq::<Seq<FunctionInfo>>::empty());
                    }
                }
            },
            None => {
                assert(function_lists(out@) =~= Seq::<Seq<FunctionInfo>>::empty());
            },
        }
        out
    }

    /// Those of the functions `ids` that are never called, in the order of
    /// `ids`.
    pub fn leaf_functions_among(&self, ids: &Vec<u128>) -> (leaves: Vec<&FunctionInfo>)
        ensures
            leaves@.unref() == match self.graph() {
                Some(graph) => known_functions(leaf_ids(&graph, ids@), graph.function_map()),
                None => Seq::empty(),
            },
    {
        match &self.code_graph {
            Some(graph) => {
                let mut kept: Vec<u128> = Vec::new();
                let ghost pred = |id: u128| graph.edges_into(id).len() == 0;
                let mut i: usize = 0;
                proof {
                    lemma_filter_empty(ids@.take(0), pred);
                }
                while i < ids.len()
                    invariant
                        i <= ids@.len(),
                        pred == |id: u128| graph.edges_into(id).len() == 0,
                        kept@ == ids@.take(i as int).filter(pred),
                    decreases ids@.len() - i,
                {
                    proof {
                        lemma_filter_step(ids@, i as int, pred);
                    }
                    let edges = graph.callers(&ids[i]);
                    proof {
                        assert(edges@.unref().len() == edges@.len());
                    }
                    if edges.len() == 0 {
                        kept.push(ids[i]);
                    }
                    i += 1;
                }
                proof {
                    lemma_take_all(ids@);
                }
                graph.functions_of(&kept)
            },
            None => {
                let leaves: Vec<&FunctionInfo> = Vec::new();
                assert(leaves@.unref() =~= Seq::<FunctionInfo>::empty());
                leaves
            },
        }
    }

    /// The functions that are never called, in the order in which the graph
    /// hands its functions out. Without a graph there are none.
    pub fn find_leaf_functions(&self) -> (leaves: Vec<&FunctionInfo>)
        ensures
            match self.graph() {
                Some(graph) => exists|order: Seq<u128>| #[trigger]
                    is_walk_of(order, graph.function_map()) && leaves@.unref() == known_functions(
                        leaf_ids(&graph, order),
                        graph.function_map(),
                    ),
                None => leaves@.len() == 0,
            },
    {
        match &self.code_graph {
            Some(graph) => {
                let ids = graph.walk();
                let leaves = self.leaf_functions_among(&ids);
                assert(is_walk_of(ids@, graph.function_map()));
                leaves
            },
            None => Vec::new(),
        }
    }

    /// Those of the functions `ids` that call nothing, in the order of `ids`.
    pub fn root_functions_among(&self, ids: &Vec<u128>) -> (roots: Vec<&FunctionInfo>)
        ensures
            roots@.unref() == match self.graph() {
                Some(graph) => known_functions(root_ids(&graph, ids@), graph.function_map()),
                None => Seq::empty(),
            },
    {
        match &self.code_graph {
            Some(graph) => {
                let mut kept: Vec<u128> = Vec::new();
                let ghost pred = |id: u128| graph.edges_from(id).len() == 0;
                let mut i: usize = 0;
                proof {
                    lemma_filter_empty(ids@.take(0), pred);
                }
                while i < ids.len()
                    invariant
                        i <= ids@.len(),
                        pred == |id: u128| graph.edges_from(id).len() == 0,
                        kept@ == ids@.take(i as int).filter(pred),
                    decreases ids@.len() - i,
                {
                    proof {
                        lemma_filter_step(ids@, i as int, pred);
                    }
                    let edges = graph.callees(&ids[i]);
                    proof {
                        assert(edges@.unref().len() == edges@.len());
                    }
                    if edges.len() == 0 {
                        kept.push(ids[i]);
                    }
                    i += 1;
                }
                proof {
                    lemma_take_all(ids@);
                }
                graph.functions_of(&kept)
            },
            None => {
                let roots: Vec<&FunctionInfo> = Vec::new();
                assert(roots@.unref() =~= Seq::<FunctionInfo>::empty());
                roots
            },
        }
    }

    /// The functions that call nothing, in the order in which the graph
    /// hands its functions out. Without a graph there are none.
    pub fn find_root_functions(&self) -> (roots: Vec<&FunctionInfo>)
        ensures
            match self.graph() {
                Some(graph) => exists|order: Seq<u128>| #[trigger]
                    is_walk_of(order, graph.function_map()) && roots@.unref() == known_functions(
                        root_ids(&graph, order),
                        graph.function_map(),
                    ),
                None => roots@.len() == 0,
            },
    {
        match &self.code_graph {
            Some(graph) => {
                let ids = graph.walk();
                let roots = self.root_functions_among(&ids);
                assert(is_walk_of(ids@, graph.function_map()));
                roots
            },
            None => Vec::new(),
        }
    }

    /// Those of `ids` that are functions of the graph, in order.
    fn keep_known(graph: &G, ids: &Vec<u128>) -> (kept: Vec<u128>)
        ensures
            kept@ == known_ids(graph, ids@),
            forall|i: int| 0 <= i < kept@.len() ==> graph.function_map().contains_key(#[trigger] kept@[i]),
    {
        let mut kept: Vec<u128> = Vec::new();
        let ghost pred = |id: u128| graph.function_map().contains_key(id);
        let mut i: usize = 0;
        proof {
            lemma_filter_empty(ids@.take(0), pred);
        }
        while i < ids.len()
            invariant
                i <= ids@.len(),
                pred == |id: u128| graph.function_map().contains_key(id),
                kept@ == ids@.take(i as int).filter(pred),
                forall|k: int|
                    0 <= k < kept@.len() ==> graph.function_map().contains_key(#[trigger] kept@[k]),
            decreases ids@.len() - i,
        {
            proof {
                lemma_filter_step(ids@, i as int, pred);
            }
            if graph.function_by_id(&ids[i]).is_some() {
                kept.push(ids[i]);
            }
            i += 1;
        }
        proof {
            lemma_take_all(ids@);
        }
        kept
    }

    /// The `limit` functions among `ids` with the most edges, each with its
    /// number of edges, the one with the most first.
    pub fn most_complex_among(&self, ids: &Vec<u128>, limit: usize) -> (list: Vec<
        (&FunctionInfo, usize),
    >)
        requires
            self.graph() matches Some(graph) ==> 2 * graph.edge_count() <= usize::MAX,
        ensures
            match self.graph() {
                Some(graph) => is_complexity_list(
                    &graph,
                    known_ids(&graph, ids@),
                    limit as nat,
                    scored(list@),
                ),
                None => list@.len() == 0,
            },
    {
        let mut list: Vec<(&FunctionInfo, usize)> = Vec::new();
        match &self.code_graph {
            Some(graph) => {
                let kept = Self::keep_known(graph, ids);
                let relation_count = graph.edge_total();
                let mut scores: Vec<usize> = Vec::new();
                let mut i: usize = 0;
                while i < kept.len()
                    invariant
                        i <= kept@.len(),
                        relation_count == graph.edge_count(),
                        2 * relation_count <= usize::MAX,
                        scores@.len() == i,
                        forall|k: int|
                            0 <= k < i ==> #[trigger] scores@[k] == score_of(graph, kept@[k]),
                    decreases kept@.len() - i,
                {
                    let callers = graph.callers(&kept[i]);
                    let callees = graph.callees(&kept[i]);
                    proof {
                        assert(callers@.unref().len() == callers@.len());
                        assert(callees@.unref().len() == callees@.len());
                    }
                    scores.push(callers.len() + callees.len());
                    i += 1;
                }
                proof {
                    assert(scores@ =~= scores_of(graph, kept@));
                }
                let ranking = rank(&scores, limit);
                let mut k: usize = 0;
                while k < ranking.len()
                    invariant
                        k <= ranking@.len(),
                        scores@ == scores_of(graph, kept@),
                        scores@.len() == kept@.len(),
                        is_ranking(ranking@, scores@, limit as nat),
                        forall|m: int|
                            0 <= m < kept@.len() ==> graph.function_map().contains_key(
                                #[trigger] kept@[m],
                            ),
                        list@.len() == k,
                        forall|m: int|
                            0 <= m < k ==> #[trigger] scored(list@)[m] == (
                                graph.function_map()[kept@[ranking@[m] as int]],
                                scores@[ranking@[m] as int],
                            ),
                    decreases ranking@.len() - k,
                {
                    let place = ranking[k];
                    let ghost held = scored(list@);
                    match graph.function_by_id(&kept[place]) {
                        Some(function) => {
                            list.push((function, scores[place]));
                            proof {
                                assert(scored(list@) =~= held.push((*function, scores@[place as int])));
                            }
                        },
                        None => {
                            assert(false);
                        },
                    }
                    k += 1;
                }
                proof {
                    assert(scored(list@).len() == ranking@.len());
                }
            },
            None => {},
        }
        list
    }

    /// The `limit` functions with the most edges, each with its number of
    /// edges, the one with the most first; of two with as many edges the one
    /// that the graph hands out first comes first. Without a graph there
    /// are none.
    pub fn find_most_complex_functions(&self, limit: usize) -> (list: Vec<(&FunctionInfo, usize)>)
        requires
            self.graph() matches Some(graph) ==> 2 * graph.edge_count() <= usize::MAX,
        ensures
            match self.graph() {
                Some(graph) => exists|order: Seq<u128>| #[trigger]
                    is_walk_of(order, graph.function_map()) && is_complexity_list(
                        &graph,
                        order,
                        limit as nat,
                        scored(list@),
                    ),
                None => list@.len() == 0,
            },
    {
        match &self.code_graph {
            Some(graph) => {
                let ids = graph.walk();
                let list = self.most_complex_among(&ids, limit);
                proof {
                    Self::lemma_walk_is_known(graph, ids@);
                    assert(is_walk_of(ids@, graph.function_map()));
                }
                list
            },
            None => Vec::new(),
        }
    }

    /// Every identifier of a walk over the functions is a function.
    proof fn lemma_walk_is_known(graph: &G, order: Seq<u128>)
        requires
            is_walk_of(order, graph.function_map()),
        ensures
            known_ids(graph, order) == order,
    {
        assert forall|i: int| 0 <= i < order.len() implies graph.function_map().contains_key(
            #[trigger] order[i],
        ) by {
            assert(order.to_set().contains(order[i]));
        }
        crate::seq_util::lemma_filter_all(
            order,
            |id: u128| graph.function_map().contains_key(id),
        );
    }

    /// The functions of each of `cycles`.
    fn resolve_all<'a>(graph: &'a G, cycles: &Vec<Vec<u128>>) -> (lists: Vec<
        Vec<&'a FunctionInfo>,
    >)
        ensures
            function_lists(lists@) == chain_functions(graph, chain_views(cycles@)),
    {
        let mut lists: Vec<Vec<&FunctionInfo>> = Vec::new();
        let mut i: usize = 0;
        while i < cycles.len()
            invariant
                i <= cycles@.len(),
                lists@.len() == i,
                forall|k: int|
                    0 <= k < i ==> (#[trigger] lists@[k])@.unref() == known_functions(
                        cycles@[k]@,
                        graph.function_map(),
                    ),
            decreases cycles@.len() - i,
        {
            let resolved = graph.functions_of(&cycles[i]);
            lists.push(resolved);
            i += 1;
        }
        proof {
            assert(function_lists(lists@) =~= chain_functions(graph, chain_views(cycles@)));
        }
        lists
    }

    /// The cycles that a depth-first walk from the functions `ids`, in
    /// order, finds.
    pub fn circular_dependencies_among(&self, ids: &Vec<u128>) -> (cycles: Vec<Vec<&FunctionInfo>>)
        ensures
            function_lists(cycles@) == match self.graph() {
                Some(graph) => chain_functions(&graph, cycles_from(&graph, ids@)),
                None => Seq::empty(),
            },
    {
        match &self.code_graph {
            Some(graph) => {
                let found = find_cycles(graph, ids);
                Self::resolve_all(graph, &found)
            },
            None => {
                let cycles: Vec<Vec<&FunctionInfo>> = Vec::new();
                assert(function_lists(cycles@) =~= Seq::<Seq<FunctionInfo>>::empty());
                cycles
            },
        }
    }

    /// The cycles of calls that a depth-first walk over all functions finds,
    /// each as the path from the function that the cycle comes back to up to
    /// the function whose call closes it. Without a graph there are none.
    pub fn find_circular_dependencies(&self) -> (cycles: Vec<Vec<&FunctionInfo>>)
        ensures
            match self.graph() {
                Some(graph) => exists|order: Seq<u128>| #[trigger]
                    is_walk_of(order, graph.function_map()) && function_lists(cycles@)
                        == chain_functions(&graph, cycles_from(&graph, order)),
                None => cycles@.len() == 0,
            },
    {
        match &self.code_graph {
            Some(graph) => {
                let ids = graph.walk();
                let cycles = self.circular_dependencies_among(&ids);
                assert(is_walk_of(ids@, graph.function_map()));
                cycles
            },
            None => Vec::new(),
        }
    }

    /// The number of functions of each language among the functions `ids`.
    pub fn language_distribution_among(&self, ids: &Vec<u128>) -> (counts: Histogram)
        ensures
            match self.graph() {
                Some(graph) => counts.total() == known_functions(ids@, graph.function_map()).len()
                    && forall|language: Seq<char>|
                    #[trigger] counts.count_of(language) == occurrences(
                        languages_of(known_functions(ids@, graph.function_map())),
                        language,
                    ),
                None => counts@ == Map::<Seq<char>, usize>::empty(),
            },
    {
        match &self.code_graph {
            Some(graph) => {
                let functions = graph.functions_of(ids);
                let mut languages: Vec<String> = Vec::new();
                let mut i: usize = 0;
                while i < functions.len()
                    invariant
                        i <= functions@.len(),
                        languages@.len() == i,
                        forall|k: int|
                            0 <= k < i ==> (#[trigger] languages@[k])@ == functions@[k].language@,
                    decreases functions@.len() - i,
                {
                    languages.push(functions[i].language.clone());
                    i += 1;
                }
                proof {
                    assert(functions@.unref().len() == functions@.len());
                    assert(text_views(languages@) =~= languages_of(functions@.unref()));
                }
                Histogram::tally(&languages)
            },
            None => Histogram::new(),
        }
    }

    /// The number of functions of each language. Without a graph the
    /// distribution is empty.
    pub fn get_language_distribution(&self) -> (counts: Histogram)
        ensures
            match self.graph() {
                Some(graph) => exists|order: Seq<u128>| #[trigger]
                    is_walk_of(order, graph.function_map()) && counts.total() == known_functions(
                        order,
                        graph.function_map(),
                    ).len() && forall|language: Seq<char>|
                        #[trigger] counts.count_of(language) == occurrences(
                            languages_of(known_functions(order, graph.function_map())),
                            language,
                        ),
                None => counts@ == Map::<Seq<char>, usize>::empty(),
            },
    {
        match &self.code_graph {
            Some(graph) => {
                let ids = graph.walk();
                let counts = self.language_distribution_among(&ids);
                assert(is_walk_of(ids@, graph.function_map()));
                counts
            },
            None => Histogram::new(),
        }
    }

    /// The number of functions under each file name. The name of a file is
    /// the last part of its path as this machine reads paths, and `unknown`
    /// where the path has none; files of the same name in different
    /// directories are counted together. Every function is counted once.
    pub fn get_file_distribution(&self) -> (counts: Histogram)
        ensures
            match self.graph() {
                Some(graph) => counts.total() == graph.function_map().dom().len(),
                None => counts@ == Map::<Seq<char>, usize>::empty(),
            },
    {
        match &self.code_graph {
            Some(graph) => {
                let ids = graph.walk();
                let functions = graph.functions_of(&ids);
                let mut names: Vec<String> = Vec::new();
                let mut i: usize = 0;
                while i < functions.len()
                    invariant
                        i <= functions@.len(),
                        names@.len() == i,
                    decreases functions@.len() - i,
                {
                    let name = match file_name_of(functions[i].file_path.as_str()) {
                        Some(name) => name,
                        None => String::from_str("unknown"),
                    };
                    names.push(name);
                    i += 1;
                }
                proof {
                    Self::lemma_walk_is_known(graph, ids@);
                    assert(functions@.unref().len() == functions@.len());
                    assert(known_functions(ids@, graph.function_map()).len() == ids@.len());
                    ids@.unique_seq_to_set();
                }
                Histogram::tally(&names)
            },
            None => Histogram::new(),
        }
    }

    /// The report on the graph of the last build: its numbers, the functions
    /// of each language, the ten functions with the most edges, and the
    /// cycles. Without a graph the report says so.
    pub fn generate_call_report(&self) -> (out: String)
        requires
            self.graph() matches Some(graph) ==> 2 * graph.edge_count() <= usize::MAX,
        ensures
            match self.graph() {
                Some(graph) => exists|order: Seq<u128>, complex: Seq<(FunctionInfo, usize)>|
                    #![trigger is_complexity_list(&graph, order, 10, complex)]
                    is_walk_of(order, graph.function_map()) && is_complexity_list(
                        &graph,
                        order,
                        10,
                        complex,
                    ) && out@ == report_text(
                        graph.numbers(),
                        complex,
                        chain_functions(&graph, cycles_from(&graph, order)),
                    ),
                None => out@ == "No code graph available"@,
            },
    {
        match &self.code_graph {
            Some(graph) => {
                let ids = graph.walk();
                let complex = self.most_complex_among(&ids, 10);
                let cycles = self.circular_dependencies_among(&ids);
                let out = report_text_of(graph.numbers_of(), &complex, &cycles);
                proof {
                    Self::lemma_walk_is_known(graph, ids@);
                    assert(is_walk_of(ids@, graph.function_map()));
                    assert(is_complexity_list(graph, ids@, 10, scored(complex@)));
                }
                out
            },
            None => String::from_str("No code graph available"),
        }
    }

    /// The flow chart of the graph of the last build.
    pub fn export_mermaid(&self) -> (out: Option<String>)
        ensures
            match self.graph() {
                Some(graph) => out is Some && graph.is_mermaid(out->0@),
                None => out is None,
            },
    {
        match &self.code_graph {
            Some(graph) => Some(graph.mermaid()),
            None => None,
        }
    }

    /// The digraph of the graph of the last build.
    pub fn export_dot(&self) -> (out: Option<String>)
        ensures
            match self.graph() {
                Some(graph) => out is Some && graph.is_dot(out->0@),
                None => out is None,
            },
    {
        match &self.code_graph {
            Some(graph) => Some(graph.dot()),
            None => None,
        }
    }

    /// The numbers of the graph of the last build.
    pub fn get_stats(&self) -> (stats: Option<&CodeGraphStats>)
        ensures
            stats == match self.graph() {
                Some(g) => Some(&g.numbers()),
                None => None,
            },
    {
        match &self.code_graph {
            Some(graph) => Some(graph.numbers_of()),
            None => None,
        }
    }
}

impl CodeGraphAnalyzer<CodeGraph> {
    /// An analyzer without files and without a graph.
    pub fn new() -> (analyzer: Self)
        ensures
            analyzer.graph() is None,
            analyzer.files() == Seq::<FileSymbols>::empty(),
    {
        CodeGraphAnalyzer { parser: CodeParser::new(), code_graph: None }
    }

    /// Builds the call graph of the files that were handed over, and keeps
    /// it for the analyses.
    pub fn analyze_directory(&mut self) -> (outcome: Result<&CodeGraph, String>)
        requires
            rows_fit(old(self).files()),
            symbol_total(old(self).files()) < usize::MAX,
        ensures
            final(self).files() == old(self).files(),
            outcome matches Ok(graph) && final(self).graph() == Some(*graph) && graph@ == built(
                old(self).files(),
            ) && graph.calls_counted() && graph.languages_counted() && (distinct_declarations(
                old(self).files(),
            ) ==> graph.consistent() && graph.indexed()),
    {
        match self.parser.build_code_graph() {
            Ok(graph) => {
                self.code_graph = Some(graph);
                Ok(self.code_graph.as_ref().unwrap())
            },
            Err(message) => Err(message),
        }
    }
}

impl CodeGraphAnalyzer<PetGraphCodeGraph> {
    /// An analyzer of indexed graphs, without files and without a graph.
    pub fn new_indexed() -> (analyzer: Self)
        ensures
            analyzer.graph() is None,
            analyzer.files() == Seq::<FileSymbols>::empty(),
    {
        CodeGraphAnalyzer { parser: CodeParser::new(), code_graph: None }
    }

    /// Builds the call graph of the files that were handed over as an
    /// indexed graph, and keeps it for the analyses.
    pub fn analyze_directory_indexed(&mut self) -> (outcome: Result<&PetGraphCodeGraph, String>)
        requires
            rows_fit(old(self).files()),
            symbol_total(old(self).files()) < u32::MAX,
            built(old(self).files()).call_relations.len() < u32::MAX,
        ensures
            final(self).files() == old(self).files(),
            outcome matches Ok(graph) && final(self).graph() == Some(*graph) && graph@ == built(
                old(self).files(),
            ) && graph.wf() && graph.edges_known() && graph.consistent() && (distinct_declarations(
                old(self).files(),
            ) ==> graph.functions_counted()),
    {
        match self.parser.build_petgraph_code_graph() {
            Ok(graph) => {
                self.code_graph = Some(graph);
                Ok(self.code_graph.as_ref().unwrap())
            },
            Err(message) => Err(message),
        }
    }
}

impl Default for CodeGraphAnalyzer<CodeGraph> {
    fn default() -> (analyzer: Self)
        ensures
            analyzer.graph() is None,
            analyzer.files() == Seq::<FileSymbols>::empty(),
    {
        CodeGraphAnalyzer::new()
    }
}

} // verus!
