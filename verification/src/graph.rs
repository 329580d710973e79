//! The call graph with side tables: functions by identifier, an index by
//! name and one by file, and the call edges in the order of their discovery.
use std::collections::HashMap;
use std::collections::HashSet;
use vstd::prelude::*;
use vstd::std_specs::iter::IteratorSpec;
use crate::call_graph::is_walk_of;
use crate::call_graph::known_functions;
use crate::call_graph::CallGraph;
use crate::chains::append_prefixed;
use crate::chains::chain_views;
use crate::chains::chains_from;
use crate::chains::chains_over;
use crate::export::dot_document;
use crate::export::dot_text;
use crate::export::links_from;
use crate::export::links_of;
use crate::export::mermaid_document;
use crate::export::mermaid_text;
use crate::seq_util::lemma_filter_empty;
use crate::seq_util::lemma_filter_step;
use crate::seq_util::lemma_take_all;
use crate::text_map::IdIndex;
use crate::types::call_views;
use crate::types::function_views;
use crate::types::resolved_count;
use crate::types::unresolved_count;
use crate::types::CallRelation;
use crate::types::CodeGraphStats;
use crate::types::CallView;
use crate::types::FunctionInfo;
use crate::types::FunctionView;
use crate::types::GraphRelation;
use crate::types::StatsView;

verus! {

broadcast use vstd::std_specs::hash::group_hash_axioms;

/// The edges of `relations` that end in `id`, in their order.
pub open spec fn callers_in(relations: Seq<CallRelation>, id: u128) -> Seq<CallRelation> {
    relations.filter(|r: CallRelation| r.callee_id == id)
}

/// The edges of `relations` that start in `id`, in their order.
pub open spec fn callees_in(relations: Seq<CallRelation>, id: u128) -> Seq<CallRelation> {
    relations.filter(|r: CallRelation| r.caller_id == id)
}

/// What a call graph says, whichever way it is kept: the functions by
/// identifier, the two indices with the order in which their keys arrived,
/// the call edges in the order of their discovery, and the numbers.
pub struct GraphView {
    pub functions: Map<u128, FunctionView>,
    pub function_names: Map<Seq<char>, Seq<u128>>,
    pub name_order: Seq<Seq<char>>,
    pub file_functions: Map<Seq<char>, Seq<u128>>,
    pub file_order: Seq<Seq<char>>,
    pub call_relations: Seq<CallView>,
    pub stats: StatsView,
}

/// The list under `key`; empty where the key is unknown.
pub open spec fn listed(index: Map<Seq<char>, Seq<u128>>, key: Seq<char>) -> Seq<u128> {
    if index.contains_key(key) {
        index[key]
    } else {
        Seq::empty()
    }
}

/// The keys in their order after `key` arrived.
pub open spec fn key_order_with<V>(index: Map<Seq<char>, V>, order: Seq<Seq<char>>, key: Seq<char>) -> Seq<
    Seq<char>,
> {
    if index.contains_key(key) {
        order
    } else {
        order.push(key)
    }
}

/// The count under `key`; zero where the key is unknown.
pub open spec fn counted(counts: Map<Seq<char>, usize>, key: Seq<char>) -> nat {
    if counts.contains_key(key) {
        counts[key] as nat
    } else {
        0
    }
}

impl GraphView {
    /// The graph without functions and edges.
    pub open spec fn empty() -> GraphView {
        GraphView {
            functions: Map::empty(),
            function_names: Map::empty(),
            name_order: Seq::empty(),
            file_functions: Map::empty(),
            file_order: Seq::empty(),
            call_relations: Seq::empty(),
            stats: StatsView {
                total_functions: 0,
                total_files: 0,
                total_languages: 0,
                resolved_calls: 0,
                unresolved_calls: 0,
                languages: Map::empty(),
                language_order: Seq::empty(),
            },
        }
    }

    /// The graph after `function` was added: it stands under its identifier,
    /// at the end of the lists of its name and of its file, and is counted
    /// in total and under its language.
    pub open spec fn with_function(self, function: FunctionView) -> GraphView {
        GraphView {
            functions: self.functions.insert(function.id, function),
            function_names: self.function_names.insert(
                function.name,
                listed(self.function_names, function.name).push(function.id),
            ),
            name_order: key_order_with(self.function_names, self.name_order, function.name),
            file_functions: self.file_functions.insert(
                function.file_path,
                listed(self.file_functions, function.file_path).push(function.id),
            ),
            file_order: key_order_with(self.file_functions, self.file_order, function.file_path),
            call_relations: self.call_relations,
            stats: StatsView {
                total_functions: (self.stats.total_functions + 1) as usize,
                languages: self.stats.languages.insert(
                    function.language,
                    (counted(self.stats.languages, function.language) + 1) as usize,
                ),
                language_order: key_order_with(
                    self.stats.languages,
                    self.stats.language_order,
                    function.language,
                ),
                ..self.stats
            },
        }
    }

    /// The graph after the call edge `call` was added: it stands at the end
    /// of the edges and is counted as resolved or as unresolved.
    pub open spec fn with_call(self, call: CallView) -> GraphView {
        GraphView {
            call_relations: self.call_relations.push(call),
            stats: StatsView {
                resolved_calls: if call.is_resolved {
                    (self.stats.resolved_calls + 1) as usize
                } else {
                    self.stats.resolved_calls
                },
                unresolved_calls: if call.is_resolved {
                    self.stats.unresolved_calls
                } else {
                    (self.stats.unresolved_calls + 1) as usize
                },
                ..self.stats
            },
            ..self
        }
    }

    /// The graph after its numbers of files and of languages were brought up
    /// to date.
    pub open spec fn refreshed(self) -> GraphView {
        GraphView {
            stats: StatsView {
                total_files: self.file_functions.dom().len() as usize,
                total_languages: self.stats.languages.dom().len() as usize,
                ..self.stats
            },
            ..self
        }
    }

    /// The functions that `ids` name, in the order of `ids`; an identifier
    /// without a function is passed over.
    pub open spec fn known(self, ids: Seq<u128>) -> Seq<FunctionView> {
        ids.filter(|id: u128| self.functions.contains_key(id)).map_values(
            |id: u128| self.functions[id],
        )
    }

    /// The functions named `name`, in the order of their arrival.
    pub open spec fn named(self, name: Seq<char>) -> Seq<FunctionView> {
        self.known(listed(self.function_names, name))
    }
}

/// The views of the functions that `ids` name are the functions that `ids`
/// name among the views.
pub proof fn lemma_known_views(
    ids: Seq<u128>,
    functions: Map<u128, FunctionInfo>,
    views: Map<u128, FunctionView>,
)
    requires
        forall|id: u128| functions.contains_key(id) <==> #[trigger] views.contains_key(id),
        forall|id: u128| #[trigger] functions.contains_key(id) ==> views[id] == functions[id]@,
    ensures
        function_views(known_functions(ids, functions)) == ids.filter(
            |id: u128| views.contains_key(id),
        ).map_values(|id: u128| views[id]),
    decreases ids.len(),
{
    reveal(Seq::filter);
    let p = |id: u128| functions.contains_key(id);
    let q = |id: u128| views.contains_key(id);
    if ids.len() == 0 {
        assert(function_views(known_functions(ids, functions)) =~= ids.filter(q).map_values(
            |id: u128| views[id],
        ));
    } else {
        lemma_known_views(ids.drop_last(), functions, views);
        let front = ids.drop_last();
        let last = ids.last();
        let pick = |id: u128| functions[id];
        let view_of = |id: u128| views[id];
        assert(p(last) == q(last));
        assert(function_views(front.filter(p).map_values(pick)) == front.filter(q).map_values(
            view_of,
        ));
        if p(last) {
            assert(ids.filter(p) == front.filter(p).push(last));
            assert(ids.filter(q) == front.filter(q).push(last));
            assert(ids.filter(p).map_values(pick) =~= front.filter(p).map_values(pick).push(
                functions[last],
            ));
            assert(ids.filter(q).map_values(view_of) =~= front.filter(q).map_values(view_of).push(
                views[last],
            ));
            assert(function_views(front.filter(p).map_values(pick).push(functions[last]))
                =~= function_views(front.filter(p).map_values(pick)).push(functions[last]@));
        } else {
            assert(ids.filter(p) == front.filter(p));
            assert(ids.filter(q) == front.filter(q));
        }
    }
}

/// `function` stands in `functions` under one of `ids`.
pub open spec fn stands_under(ids: Seq<u128>, functions: Map<u128, FunctionInfo>, function: FunctionInfo) -> bool {
    exists|id: u128| ids.contains(id) && functions.contains_key(id) && #[trigger] functions[id] == function
}

/// Each of the functions that `ids` name stands in `functions` under one of
/// `ids`.
pub proof fn lemma_known_members(ids: Seq<u128>, functions: Map<u128, FunctionInfo>)
    ensures
        forall|k: int|
            0 <= k < known_functions(ids, functions).len() ==> stands_under(
                ids,
                functions,
                #[trigger] known_functions(ids, functions)[k],
            ),
    decreases ids.len(),
{
    reveal(Seq::filter);
    let p = |id: u128| functions.contains_key(id);
    let pick = |id: u128| functions[id];
    if ids.len() > 0 {
        let front = ids.drop_last();
        let last = ids.last();
        lemma_known_members(front, functions);
        if p(last) {
            assert(ids.filter(p) == front.filter(p).push(last));
        } else {
            assert(ids.filter(p) == front.filter(p));
        }
        assert forall|k: int| 0 <= k < known_functions(ids, functions).len() implies stands_under(
            ids,
            functions,
            #[trigger] known_functions(ids, functions)[k],
        ) by {
            if k < known_functions(front, functions).len() {
                let f = known_functions(front, functions)[k];
                assert(known_functions(ids, functions)[k] == f);
                assert(stands_under(front, functions, f));
                let id = choose|id: u128|
                    front.contains(id) && functions.contains_key(id) && #[trigger] functions[id]
                        == f;
                let at = choose|at: int| 0 <= at < front.len() && front[at] == id;
                assert(ids[at] == id);
                assert(ids.contains(id) && functions.contains_key(id) && functions[id] == f);
            } else {
                assert(known_functions(ids, functions)[k] == functions[last]);
                assert(ids[ids.len() - 1] == last);
                assert(ids.contains(last) && functions.contains_key(last));
            }
        }
    } else {
        assert(ids.filter(p).len() == 0);
    }
}

/// A call graph kept in side tables.
#[derive(Debug)]
pub struct CodeGraph {
    /// Each function under its identifier.
    pub functions: HashMap<u128, FunctionInfo>,
    /// The identifiers of the functions of each name, in the order of their arrival.
    pub function_names: IdIndex,
    /// The identifiers of the functions of each file, in the order of their arrival.
    pub file_functions: IdIndex,
    /// The call edges, in the order of their discovery.
    pub call_relations: Vec<CallRelation>,
    /// Relations of other kinds.
    pub graph_relations: Vec<GraphRelation>,
    /// The aggregate numbers.
    pub stats: CodeGraphStats,
}

impl View for CodeGraph {
    type V = GraphView;

    open spec fn view(&self) -> GraphView {
        GraphView {
            functions: Map::new(
                |id: u128| self.functions@.contains_key(id),
                |id: u128| self.functions@[id]@,
            ),
            function_names: self.function_names.ids(),
            name_order: self.function_names.key_seq(),
            file_functions: self.file_functions.ids(),
            file_order: self.file_functions.key_seq(),
            call_relations: call_views(self.call_relations@),
            stats: self.stats@,
        }
    }
}

impl CodeGraph {
    /// The counters agree with what the graph holds: the number of functions
    /// with the function map and with the sum of the language histogram, and
    /// the two edge counters with the resolved and the unresolved edges.
    pub open spec fn consistent(&self) -> bool {
        &&& self.stats.total_functions == self.functions@.dom().len()
        &&& self.languages_counted()
        &&& self.calls_counted()
    }

    /// The two edge counters are the numbers of the resolved and of the
    /// unresolved edges.
    pub open spec fn calls_counted(&self) -> bool {
        &&& self.stats.resolved_calls == resolved_count(self.call_relations@)
        &&& self.stats.unresolved_calls == unresolved_count(self.call_relations@)
    }

    /// The counts of the language histogram sum up to the number of
    /// functions.
    pub open spec fn languages_counted(&self) -> bool {
        self.stats.languages.total() == self.stats.total_functions
    }

    /// Both indices list exactly the functions of the map: an identifier
    /// stands under a name, or a file, only if the map holds a function of
    /// that identifier with that name, or file, and every function of the map
    /// stands under its own name and file.
    pub open spec fn indexed(&self) -> bool {
        &&& forall|name: Seq<char>, i: int|
            #![trigger self.function_names.ids_under(name)[i]]
            0 <= i < self.function_names.ids_under(name).len() ==> {
                let id = self.function_names.ids_under(name)[i];
                self.functions@.contains_key(id) && self.functions@[id].name@ == name
            }
        &&& forall|file: Seq<char>, i: int|
            #![trigger self.file_functions.ids_under(file)[i]]
            0 <= i < self.file_functions.ids_under(file).len() ==> {
                let id = self.file_functions.ids_under(file)[i];
                self.functions@.contains_key(id) && self.functions@[id].file_path@ == file
            }
        &&& forall|id: u128| #[trigger]
            self.functions@.contains_key(id) ==> self.functions@[id].id == id
                && self.function_names.ids_under(self.functions@[id].name@).contains(id)
                && self.file_functions.ids_under(self.functions@[id].file_path@).contains(id)
    }

    /// An empty graph.
    pub fn new() -> (graph: Self)
        ensures
            graph.functions@ == Map::<u128, FunctionInfo>::empty(),
            graph.function_names@ == Map::<Seq<char>, Vec<u128>>::empty(),
            graph.file_functions@ == Map::<Seq<char>, Vec<u128>>::empty(),
            graph.call_relations@ == Seq::<CallRelation>::empty(),
            graph.graph_relations@ == Seq::<GraphRelation>::empty(),
            graph.stats.total_functions == 0,
            graph.stats.total_files == 0,
            graph.stats.total_languages == 0,
            graph.stats.resolved_calls == 0,
            graph.stats.unresolved_calls == 0,
            graph.stats.languages@ == Map::<Seq<char>, usize>::empty(),
            graph@ == GraphView::empty(),
            graph.consistent(),
            graph.calls_counted(),
            graph.languages_counted(),
            graph.indexed(),
    {
        let graph = CodeGraph {
            functions: HashMap::new(),
            function_names: IdIndex::new(),
            file_functions: IdIndex::new(),
            call_relations: Vec::new(),
            graph_relations: Vec::new(),
            stats: CodeGraphStats::default(),
        };
        proof {
            assert(graph.functions@.dom() =~= Set::<u128>::empty());
            assert(graph@.functions =~= Map::<u128, FunctionView>::empty());
            assert(graph@.function_names =~= Map::<Seq<char>, Seq<u128>>::empty());
            assert(graph@.file_functions =~= Map::<Seq<char>, Seq<u128>>::empty());
            assert(graph@.call_relations =~= Seq::<CallView>::empty());
        }
        graph
    }

    /// Adds a function: under its identifier in the map, where it replaces a
    /// function of the same identifier, at the end of the lists of its name
    /// and of its file, and in the counters.
    pub fn add_function(&mut self, function: FunctionInfo)
        requires
            old(self).stats.total_functions < usize::MAX,
            old(self).stats.languages.count_of(function.language@) < usize::MAX,
        ensures
            final(self)@ == old(self)@.with_function(function@),
            final(self).functions@ == old(self).functions@.insert(function.id, function),
            final(self).function_names.ids() == old(self).function_names.ids().insert(
                function.name@,
                old(self).function_names.ids_under(function.name@).push(function.id),
            ),
            final(self).file_functions.ids() == old(self).file_functions.ids().insert(
                function.file_path@,
                old(self).file_functions.ids_under(function.file_path@).push(function.id),
            ),
            final(self).stats.total_functions == old(self).stats.total_functions + 1,
            final(self).stats.languages@ == old(self).stats.languages@.insert(
                function.language@,
                (old(self).stats.languages.count_of(function.language@) + 1) as usize,
            ),
            final(self).stats.languages.total() == old(self).stats.languages.total() + 1,
            final(self).stats.total_files == old(self).stats.total_files,
            final(self).stats.total_languages == old(self).stats.total_languages,
            final(self).stats.resolved_calls == old(self).stats.resolved_calls,
            final(self).stats.unresolved_calls == old(self).stats.unresolved_calls,
            final(self).call_relations == old(self).call_relations,
            final(self).graph_relations == old(self).graph_relations,
            old(self).calls_counted() ==> final(self).calls_counted(),
            old(self).languages_counted() ==> final(self).languages_counted(),
            old(self).consistent() && !old(self).functions@.contains_key(function.id)
                ==> final(self).consistent(),
            old(self).indexed() && !old(self).functions@.contains_key(function.id)
                ==> final(self).indexed(),
    {
        let id = function.id;
        let ghost before = *self;
        let ghost added = function;
        self.function_names.append_id(function.name.as_str(), id);
        self.file_functions.append_id(function.file_path.as_str(), id);
        self.stats.total_functions = self.stats.total_functions + 1;
        self.stats.languages.increment(function.language.as_str());
        self.functions.insert(id, function);
        proof {
            if before.indexed() && !before.functions@.contains_key(id) {
                Self::lemma_indexed_after_add(before, *self, added);
            }
            let expected = before@.with_function(added@);
            assert(self@.functions =~= expected.functions);
            assert(self@.function_names =~= expected.function_names);
            assert(self@.file_functions =~= expected.file_functions);
            assert(self@.stats.languages =~= expected.stats.languages);
            assert(self@.stats == expected.stats);
        }
    }

    /// The step of `indexed` over `add_function`.
    proof fn lemma_indexed_after_add(before: Self, after: Self, function: FunctionInfo)
        requires
            before.indexed(),
            !before.functions@.contains_key(function.id),
            after.functions@ == before.functions@.insert(function.id, function),
            after.function_names.ids() == before.function_names.ids().insert(
                function.name@,
                before.function_names.ids_under(function.name@).push(function.id),
            ),
            after.file_functions.ids() == before.file_functions.ids().insert(
                function.file_path@,
                before.file_functions.ids_under(function.file_path@).push(function.id),
            ),
        ensures
            after.indexed(),
    {
        let id = function.id;
        assert forall|name: Seq<char>| #[trigger]
            after.function_names.ids_under(name) == if name == function.name@ {
                before.function_names.ids_under(name).push(id)
            } else {
                before.function_names.ids_under(name)
            } by {
            assert(after.function_names.ids().contains_key(name)
                <==> after.function_names@.contains_key(name));
            assert(before.function_names.ids().contains_key(name)
                <==> before.function_names@.contains_key(name));
            if after.function_names@.contains_key(name) {
                assert(after.function_names.ids()[name] == after.function_names@[name]@);
            }
            if before.function_names@.contains_key(name) {
                assert(before.function_names.ids()[name] == before.function_names@[name]@);
            }
        }
        assert forall|file: Seq<char>| #[trigger]
            after.file_functions.ids_under(file) == if file == function.file_path@ {
                before.file_functions.ids_under(file).push(id)
            } else {
                before.file_functions.ids_under(file)
            } by {
            assert(after.file_functions.ids().contains_key(file)
                <==> after.file_functions@.contains_key(file));
            assert(before.file_functions.ids().contains_key(file)
                <==> before.file_functions@.contains_key(file));
            if after.file_functions@.contains_key(file) {
                assert(after.file_functions.ids()[file] == after.file_functions@[file]@);
            }
            if before.file_functions@.contains_key(file) {
                assert(before.file_functions.ids()[file] == before.file_functions@[file]@);
            }
        }
        assert forall|name: Seq<char>, i: int|
            #![trigger after.function_names.ids_under(name)[i]]
            0 <= i < after.function_names.ids_under(name).len() implies {
            let x = after.function_names.ids_under(name)[i];
            after.functions@.contains_key(x) && after.functions@[x].name@ == name
        } by {
            let old_list = before.function_names.ids_under(name);
            if i < old_list.len() {
                assert(old_list[i] == after.function_names.ids_under(name)[i]);
                assert(before.functions@.contains_key(old_list[i]));
            }
        }
        assert forall|file: Seq<char>, i: int|
            #![trigger after.file_functions.ids_under(file)[i]]
            0 <= i < after.file_functions.ids_under(file).len() implies {
            let x = after.file_functions.ids_under(file)[i];
            after.functions@.contains_key(x) && after.functions@[x].file_path@ == file
        } by {
            let old_list = before.file_functions.ids_under(file);
            if i < old_list.len() {
                assert(old_list[i] == after.file_functions.ids_under(file)[i]);
                assert(before.functions@.contains_key(old_list[i]));
            }
        }
        assert forall|x: u128| #[trigger] after.functions@.contains_key(x) implies after.functions@[x].id
            == x && after.function_names.ids_under(after.functions@[x].name@).contains(x)
            && after.file_functions.ids_under(after.functions@[x].file_path@).contains(x) by {
            if x == id {
                let names = after.function_names.ids_under(function.name@);
                assert(names[names.len() - 1] == id);
                let files = after.file_functions.ids_under(function.file_path@);
                assert(files[files.len() - 1] == id);
            } else {
                assert(before.functions@.contains_key(x));
                let f = before.functions@[x];
                let names = before.function_names.ids_under(f.name@);
                let k = choose|k: int| 0 <= k < names.len() && names[k] == x;
                assert(after.function_names.ids_under(f.name@)[k] == x);
                let files = before.file_functions.ids_under(f.file_path@);
                let m = choose|m: int| 0 <= m < files.len() && files[m] == x;
                assert(after.file_functions.ids_under(f.file_path@)[m] == x);
            }
        }
    }

    /// Appends a call edge and counts it as resolved or unresolved. The ends
    /// of the edge need not be functions of the graph.
    pub fn add_call_relation(&mut self, relation: CallRelation)
        requires
            old(self).stats.resolved_calls <= old(self).call_relations@.len(),
            old(self).stats.unresolved_calls <= old(self).call_relations@.len(),
        ensures
            final(self)@ == old(self)@.with_call(relation@),
            final(self).call_relations@ == old(self).call_relations@.push(relation),
            final(self).stats.resolved_calls == old(self).stats.resolved_calls + if relation.is_resolved {
                1int
            } else {
                0int
            },
            final(self).stats.unresolved_calls == old(self).stats.unresolved_calls
                + if relation.is_resolved {
                0int
            } else {
                1int
            },
            final(self).stats.total_functions == old(self).stats.total_functions,
            final(self).stats.total_files == old(self).stats.total_files,
            final(self).stats.total_languages == old(self).stats.total_languages,
            final(self).stats.languages == old(self).stats.languages,
            final(self).functions == old(self).functions,
            final(self).function_names == old(self).function_names,
            final(self).file_functions == old(self).file_functions,
            final(self).graph_relations == old(self).graph_relations,
            old(self).calls_counted() ==> final(self).calls_counted(),
            old(self).languages_counted() ==> final(self).languages_counted(),
            old(self).consistent() ==> final(self).consistent(),
            old(self).indexed() ==> final(self).indexed(),
    {
        let is_resolved = relation.is_resolved;
        let ghost before = self.call_relations@;
        self.call_relations.push(relation);
        let count = self.call_relations.len();
        proof {
            assert(self.call_relations@.drop_last() =~= before);
            assert(before.len() < count);
        }
        if is_resolved {
            self.stats.resolved_calls = self.stats.resolved_calls + 1;
        } else {
            self.stats.unresolved_calls = self.stats.unresolved_calls + 1;
        }
        proof {
            let expected = old(self)@.with_call(relation@);
            assert(self@.call_relations =~= expected.call_relations);
            assert(self@.functions =~= expected.functions);
            assert(self@.stats == expected.stats);
        }
    }

    /// Appends a relation of another kind.
    pub fn add_graph_relation(&mut self, relation: GraphRelation)
        ensures
            final(self).graph_relations@ == old(self).graph_relations@.push(relation),
            final(self).functions == old(self).functions,
            final(self).function_names == old(self).function_names,
            final(self).file_functions == old(self).file_functions,
            final(self).call_relations == old(self).call_relations,
            final(self).stats == old(self).stats,
    {
        self.graph_relations.push(relation);
    }

    /// The functions that `ids` name, in the order of `ids`; an identifier
    /// without a function is passed over.
    pub fn resolve(&self, ids: &Vec<u128>) -> (found: Vec<&FunctionInfo>)
        ensures
            found@.unref() == known_functions(ids@, self.functions@),
    {
        let mut found: Vec<&FunctionInfo> = Vec::new();
        let ghost pred = |id: u128| self.functions@.contains_key(id);
        let ghost pick = |id: u128| self.functions@[id];
        let mut i: usize = 0;
        proof {
            lemma_filter_empty(ids@.take(0), pred);
            assert(found@.unref() =~= ids@.take(0).filter(pred).map_values(pick));
        }
        while i < ids.len()
            invariant
                i <= ids@.len(),
                pred == |id: u128| self.functions@.contains_key(id),
                pick == |id: u128| self.functions@[id],
                found@.unref() == ids@.take(i as int).filter(pred).map_values(pick),
            decreases ids@.len() - i,
        {
            proof {
                lemma_filter_step(ids@, i as int, pred);
            }
            let ghost prev = found@.unref();
            match self.functions.get(&ids[i]) {
                Some(function) => {
                    found.push(function);
                    proof {
                        assert(found@.unref() =~= prev.push(*function));
                        assert(ids@.take(i + 1).filter(pred).map_values(pick) =~= ids@.take(
                            i as int,
                        ).filter(pred).map_values(pick).push(pick(ids@[i as int])));
                    }
                },
                None => {},
            }
            i += 1;
        }
        proof {
            lemma_take_all(ids@);
        }
        found
    }

    /// The functions named `name`, in the order of their arrival.
    pub fn find_functions_by_name(&self, name: &str) -> (found: Vec<&FunctionInfo>)
        ensures
            found@.unref() == known_functions(
                self.function_names.ids_under(name@),
                self.functions@,
            ),
            function_views(found@.unref()) == self@.named(name@),
    {
        proof {
            lemma_known_views(self.function_names.ids_under(name@), self.functions@, self@.functions);
            assert(self.function_names.ids_under(name@) =~= listed(self@.function_names, name@));
        }
        match self.function_names.get(name) {
            Some(ids) => self.resolve(ids),
            None => {
                let found: Vec<&FunctionInfo> = Vec::new();
                proof {
                    lemma_filter_empty(
                        Seq::<u128>::empty(),
                        |id: u128| self.functions@.contains_key(id),
                    );
                    assert(found@.unref() =~= known_functions(
                        Seq::<u128>::empty(),
                        self.functions@,
                    ));
                }
                found
            },
        }
    }

    /// The functions declared in the file `file_path`, in the order of their
    /// arrival.
    pub fn find_functions_by_file(&self, file_path: &str) -> (found: Vec<&FunctionInfo>)
        ensures
            found@.unref() == known_functions(
                self.file_functions.ids_under(file_path@),
                self.functions@,
            ),
    {
        match self.file_functions.get(file_path) {
            Some(ids) => self.resolve(ids),
            None => {
                let found: Vec<&FunctionInfo> = Vec::new();
                proof {
                    lemma_filter_empty(
                        Seq::<u128>::empty(),
                        |id: u128| self.functions@.contains_key(id),
                    );
                    assert(found@.unref() =~= known_functions(
                        Seq::<u128>::empty(),
                        self.functions@,
                    ));
                }
                found
            },
        }
    }

    /// The edges that end in `function_id`, in the order of their discovery.
    pub fn get_callers(&self, function_id: &u128) -> (edges: Vec<&CallRelation>)
        ensures
            edges@.unref() == callers_in(self.call_relations@, *function_id),
    {
        let mut edges: Vec<&CallRelation> = Vec::new();
        let ghost pred = |r: CallRelation| r.callee_id == *function_id;
        let mut i: usize = 0;
        proof {
            lemma_filter_empty(self.call_relations@.take(0), pred);
            assert(edges@.unref() =~= self.call_relations@.take(0).filter(pred));
        }
        while i < self.call_relations.len()
            invariant
                i <= self.call_relations@.len(),
                pred == |r: CallRelation| r.callee_id == *function_id,
                edges@.unref() == self.call_relations@.take(i as int).filter(pred),
            decreases self.call_relations@.len() - i,
        {
            proof {
                lemma_filter_step(self.call_relations@, i as int, pred);
            }
            let ghost prev = edges@.unref();
            let relation = &self.call_relations[i];
            if relation.callee_id == *function_id {
                edges.push(relation);
                proof {
                    assert(edges@.unref() =~= prev.push(*relation));
                }
            }
            i += 1;
        }
        proof {
            lemma_take_all(self.call_relations@);
        }
        edges
    }

    /// The edges that start in `function_id`, in the order of their discovery.
    pub fn get_callees(&self, function_id: &u128) -> (edges: Vec<&CallRelation>)
        ensures
            edges@.unref() == callees_in(self.call_relations@, *function_id),
    {
        let mut edges: Vec<&CallRelation> = Vec::new();
        let ghost pred = |r: CallRelation| r.caller_id == *function_id;
        let mut i: usize = 0;
        proof {
            lemma_filter_empty(self.call_relations@.take(0), pred);
            assert(edges@.unref() =~= self.call_relations@.take(0).filter(pred));
        }
        while i < self.call_relations.len()
            invariant
                i <= self.call_relations@.len(),
                pred == |r: CallRelation| r.caller_id == *function_id,
                edges@.unref() == self.call_relations@.take(i as int).filter(pred),
            decreases self.call_relations@.len() - i,
        {
            proof {
                lemma_filter_step(self.call_relations@, i as int, pred);
            }
            let ghost prev = edges@.unref();
            let relation = &self.call_relations[i];
            if relation.caller_id == *function_id {
                edges.push(relation);
                proof {
                    assert(edges@.unref() =~= prev.push(*relation));
                }
            }
            i += 1;
        }
        proof {
            lemma_take_all(self.call_relations@);
        }
        edges
    }

    /// The callees of `id`, one for each edge that starts in it, in the
    /// order of the edges.
    pub open spec fn callee_ids(&self, id: u128) -> Seq<u128> {
        callees_in(self.call_relations@, id).map_values(|r: CallRelation| r.callee_id)
    }

    /// `callee_ids` as a function of the identifier.
    pub open spec fn callee_map(&self) -> spec_fn(u128) -> Seq<u128> {
        |id: u128| self.callee_ids(id)
    }

    /// The call chains from `function_id`: the paths of at most `max_depth`
    /// functions that a depth-first expansion of callees with one shared
    /// visited set emits.
    pub fn get_call_chain(&self, function_id: &u128, max_depth: usize) -> (chains: Vec<Vec<u128>>)
        ensures
            chain_views(chains@) == chains_from(
                self.callee_map(),
                *function_id,
                Set::empty(),
                0,
                max_depth as nat,
            ).0,
    {
        let mut visited: HashSet<u128> = HashSet::new();
        self.call_chain_recursive(*function_id, &mut visited, 0, max_depth)
    }

    /// The expansion of one function at `depth`.
    fn call_chain_recursive(
        &self,
        function_id: u128,
        visited: &mut HashSet<u128>,
        depth: usize,
        max_depth: usize,
    ) -> (chains: Vec<Vec<u128>>)
        requires
            depth <= max_depth,
        ensures
            chain_views(chains@) == chains_from(
                self.callee_map(),
                function_id,
                old(visited)@,
                depth as nat,
                max_depth as nat,
            ).0,
            final(visited)@ == chains_from(
                self.callee_map(),
                function_id,
                old(visited)@,
                depth as nat,
                max_depth as nat,
            ).1,
        decreases max_depth - depth,
    {
        let mut chains: Vec<Vec<u128>> = Vec::new();
        if depth >= max_depth || visited.contains(&function_id) {
            assert(chain_views(chains@) =~= Seq::<Seq<u128>>::empty());
            return chains;
        }
        visited.insert(function_id);
        let callees = self.get_callees(&function_id);
        let ghost list = self.callee_ids(function_id);
        let ghost start = visited@;
        assert(list.len() == callees@.len());
        if callees.len() == 0 || depth + 1 >= max_depth {
            let mut chain: Vec<u128> = Vec::new();
            chain.push(function_id);
            chains.push(chain);
            assert(chain_views(chains@) =~= seq![seq![function_id]]);
            return chains;
        }
        let mut i: usize = 0;
        assert(chain_views(chains@) =~= Seq::<Seq<u128>>::empty());
        while i < callees.len()
            invariant
                i <= callees@.len(),
                depth + 1 < max_depth,
                list == self.callee_ids(function_id),
                list.len() == callees@.len(),
                forall|k: int| 0 <= k < callees@.len() ==> callees@[k].callee_id == #[trigger] list[k],
                chain_views(chains@) == chains_over(
                    self.callee_map(),
                    function_id,
                    list.take(i as int),
                    start,
                    depth as nat,
                    max_depth as nat,
                ).0,
                visited@ == chains_over(
                    self.callee_map(),
                    function_id,
                    list.take(i as int),
                    start,
                    depth as nat,
                    max_depth as nat,
                ).1,
            decreases callees@.len() - i,
        {
            let callee = callees[i].callee_id;
            let sub = self.call_chain_recursive(callee, visited, depth + 1, max_depth);
            append_prefixed(&mut chains, function_id, &sub);
            proof {
                assert(list.take(i + 1).drop_last() =~= list.take(i as int));
                assert(list.take(i + 1).last() == callee);
            }
            i += 1;
        }
        proof {
            assert(list.take(list.len() as int) =~= list);
        }
        chains
    }

    /// The identifiers of the functions, each once, in the order in which
    /// the map hands them out.
    pub fn function_ids(&self) -> (ids: Vec<u128>)
        ensures
            is_walk_of(ids@, self.functions@),
    {
        let mut ids: Vec<u128> = Vec::new();
        let ghost keys = self.functions.keys().remaining();
        for key in walk: self.functions.keys()
            invariant
                walk.seq() == keys,
                ids@ == keys.take(walk.index() as int).unref(),
        {
            ids.push(*key);
        }
        proof {
            lemma_take_all(keys);
            assert forall|i: int, j: int|
                0 <= i < ids@.len() && 0 <= j < ids@.len() && i != j implies ids@[i] != ids@[j] by {
                assert(keys[i] != keys[j]);
            }
        }
        ids
    }

    /// The flow chart of the graph with its nodes in the order of `ids`.
    pub fn to_mermaid_ordered(&self, ids: &Vec<u128>) -> (out: String)
        ensures
            out@ == mermaid_text(
                known_functions(ids@, self.functions@),
                links_of(self.call_relations@),
            ),
    {
        let nodes = self.resolve(ids);
        let links = links_from(&self.call_relations);
        mermaid_document(&nodes, &links)
    }

    /// The flow chart of the graph: one node for each function, in the order
    /// in which the map hands them out, and one edge for each call edge.
    pub fn to_mermaid(&self) -> (out: String)
        ensures
            exists|order: Seq<u128>| #[trigger]
                is_walk_of(order, self.functions@) && out@ == mermaid_text(
                    known_functions(order, self.functions@),
                    links_of(self.call_relations@),
                ),
    {
        let ids = self.function_ids();
        let out = self.to_mermaid_ordered(&ids);
        assert(is_walk_of(ids@, self.functions@));
        out
    }

    /// The digraph of the graph with its nodes in the order of `ids`.
    pub fn to_dot_ordered(&self, ids: &Vec<u128>) -> (out: String)
        ensures
            out@ == dot_text(
                known_functions(ids@, self.functions@),
                links_of(self.call_relations@),
            ),
    {
        let nodes = self.resolve(ids);
        let links = links_from(&self.call_relations);
        dot_document(&nodes, &links)
    }

    /// The digraph of the graph: one node for each function, in the order in
    /// which the map hands them out, and one edge for each call edge.
    pub fn to_dot(&self) -> (out: String)
        ensures
            exists|order: Seq<u128>| #[trigger]
                is_walk_of(order, self.functions@) && out@ == dot_text(
                    known_functions(order, self.functions@),
                    links_of(self.call_relations@),
                ),
    {
        let ids = self.function_ids();
        let out = self.to_dot_ordered(&ids);
        assert(is_walk_of(ids@, self.functions@));
        out
    }

    /// The aggregate numbers.
    pub fn get_stats(&self) -> (stats: &CodeGraphStats)
        ensures
            *stats == self.stats,
    {
        &self.stats
    }

    /// Brings the number of files and the number of languages up to date:
    /// the keys of the file index and of the language histogram.
    pub fn update_stats(&mut self)
        ensures
            final(self)@ == old(self)@.refreshed(),
            final(self).stats.total_files == old(self).file_functions@.dom().len(),
            final(self).stats.total_languages == old(self).stats.languages@.dom().len(),
            final(self).stats.total_functions == old(self).stats.total_functions,
            final(self).stats.resolved_calls == old(self).stats.resolved_calls,
            final(self).stats.unresolved_calls == old(self).stats.unresolved_calls,
            final(self).stats.languages == old(self).stats.languages,
            final(self).functions == old(self).functions,
            final(self).function_names == old(self).function_names,
            final(self).file_functions == old(self).file_functions,
            final(self).call_relations == old(self).call_relations,
            final(self).graph_relations == old(self).graph_relations,
            old(self).calls_counted() ==> final(self).calls_counted(),
            old(self).languages_counted() ==> final(self).languages_counted(),
            old(self).consistent() ==> final(self).consistent(),
            old(self).indexed() ==> final(self).indexed(),
    {
        self.stats.total_files = self.file_functions.len();
        self.stats.total_languages = self.stats.languages.len();
        proof {
            assert(self.file_functions.ids().dom() =~= self.file_functions@.dom());
            assert(self@.functions =~= old(self)@.functions);
            assert(self@.stats == old(self)@.refreshed().stats);
        }
    }
}

/// With edge counters that agree with the edges, every call edge is
/// counted once, as resolved or as unresolved.
pub proof fn lemma_call_partition(graph: CodeGraph)
    requires
        graph.calls_counted(),
    ensures
        graph.stats.resolved_calls + graph.stats.unresolved_calls == graph.call_relations@.len(),
{
    crate::types::lemma_resolved_partition(graph.call_relations@);
}

/// With counters that agree with the contents, the number of functions is
/// the size of the function map and the sum of the language histogram.
pub proof fn lemma_function_count(graph: CodeGraph)
    requires
        graph.consistent(),
    ensures
        graph.stats.total_functions == graph.functions@.dom().len(),
        graph.stats.total_functions == graph.stats.languages.total(),
{
}

impl CallGraph for CodeGraph {
    open spec fn function_map(&self) -> Map<u128, FunctionInfo> {
        self.functions@
    }

    open spec fn ids_named(&self, name: Seq<char>) -> Seq<u128> {
        self.function_names.ids_under(name)
    }

    open spec fn edges_into(&self, id: u128) -> Seq<CallRelation> {
        callers_in(self.call_relations@, id)
    }

    open spec fn edges_from(&self, id: u128) -> Seq<CallRelation> {
        callees_in(self.call_relations@, id)
    }

    open spec fn callee_fn(&self) -> spec_fn(u128) -> Seq<u128> {
        self.callee_map()
    }

    open spec fn edge_count(&self) -> nat {
        self.call_relations@.len()
    }

    open spec fn numbers(&self) -> CodeGraphStats {
        self.stats
    }

    open spec fn is_mermaid(&self, text: Seq<char>) -> bool {
        exists|order: Seq<u128>| #[trigger]
            is_walk_of(order, self.functions@) && text == mermaid_text(
                known_functions(order, self.functions@),
                links_of(self.call_relations@),
            )
    }

    open spec fn is_dot(&self, text: Seq<char>) -> bool {
        exists|order: Seq<u128>| #[trigger]
            is_walk_of(order, self.functions@) && text == dot_text(
                known_functions(order, self.functions@),
                links_of(self.call_relations@),
            )
    }

    fn function_by_id(&self, id: &u128) -> (found: Option<&FunctionInfo>) {
        self.functions.get(id)
    }

    fn functions_of(&self, ids: &Vec<u128>) -> (found: Vec<&FunctionInfo>) {
        self.resolve(ids)
    }

    fn functions_named(&self, name: &str) -> (found: Vec<&FunctionInfo>) {
        self.find_functions_by_name(name)
    }

    fn callers(&self, id: &u128) -> (edges: Vec<&CallRelation>) {
        let edges = self.get_callers(id);
        proof {
            assert(edges@.unref().len() == edges@.len());
            self.call_relations@.lemma_filter_len(|r: CallRelation| r.callee_id == *id);
        }
        edges
    }

    fn callees(&self, id: &u128) -> (edges: Vec<&CallRelation>) {
        let edges = self.get_callees(id);
        proof {
            assert(edges@.unref().len() == edges@.len());
            self.call_relations@.lemma_filter_len(|r: CallRelation| r.caller_id == *id);
        }
        edges
    }

    fn callee_list(&self, id: &u128) -> (list: Vec<u128>) {
        let edges = self.get_callees(id);
        let mut list: Vec<u128> = Vec::new();
        let mut k: usize = 0;
        while k < edges.len()
            invariant
                k <= edges@.len(),
                list@.len() == k,
                forall|m: int| 0 <= m < k ==> #[trigger] list@[m] == edges@[m].callee_id,
            decreases edges@.len() - k,
        {
            list.push(edges[k].callee_id);
            k += 1;
        }
        proof {
            assert(edges@.unref().len() == edges@.len());
            assert(list@ =~= self.callee_ids(*id));
        }
        list
    }

    fn walk(&self) -> (ids: Vec<u128>) {
        self.function_ids()
    }

    fn call_chain(&self, id: &u128, max_depth: usize) -> (chains: Vec<Vec<u128>>) {
        self.get_call_chain(id, max_depth)
    }

    fn numbers_of(&self) -> (stats: &CodeGraphStats) {
        self.get_stats()
    }

    fn edge_total(&self) -> (count: usize) {
        self.call_relations.len()
    }

    fn mermaid(&self) -> (out: String) {
        self.to_mermaid()
    }

    fn dot(&self) -> (out: String) {
        self.to_dot()
    }
}

impl Default for CodeGraph {
    fn default() -> (graph: Self)
        ensures
            graph.functions@ == Map::<u128, FunctionInfo>::empty(),
            graph.call_relations@ == Seq::<CallRelation>::empty(),
            graph.consistent(),
            graph.indexed(),
    {
        CodeGraph::new()
    }
}

} // verus!
