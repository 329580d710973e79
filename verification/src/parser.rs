//! The graph builder: from the symbol records of a set of source files to a
//! call graph, in two passes.
//!
//! The first pass adds a function for every declaration of every file. The
//! second pass walks the same records again and resolves each call site by
//! its name against the finished name index: every function of that name
//! becomes the callee of one resolved edge, and a name that no function has
//! gives no edge. The caller of a call site is the function that the last
//! declaration before it in its file stands for, which is the first function
//! of that declaration's name; a declaration is never left again, so every
//! later call site of the file belongs to it until the next declaration.
use vstd::prelude::*;
use crate::call_graph::CallGraph;
use crate::graph::lemma_known_members;
use crate::graph::CodeGraph;
use crate::graph::GraphView;
use crate::signature::basic_signature;
use crate::signature::build_basic_signature;
use crate::signature::build_complete_signature;
use crate::signature::complete_signature;
use crate::signature::escape_identifier;
use crate::signature::escaped;
use crate::signature::safe_type_name;
use crate::signature::type_text;
use crate::signature::FunctionArg;
use crate::signature::FunctionDetails;
use crate::signature::LanguageId;
use crate::signature::TypeDef;
use crate::pet_graph::PetGraphCodeGraph;
use crate::types::lemma_resolved_partition;
use crate::seq_util::lemma_take_all;
use crate::text::lowercase;
use crate::text::lowercase_of;
use crate::text::str_eq;
use crate::text_map::TextMap;
use crate::types::call_views;
use crate::types::function_views;
use crate::types::opt_text;
use crate::types::parameter_views;
use crate::types::CallRelation;
use crate::types::CallView;
use crate::types::FunctionInfo;
use crate::types::FunctionView;
use crate::types::ParameterInfo;
use crate::types::ParameterView;

verus! {

/// The kind of a symbol record.
#[derive(Debug, Clone, Copy, PartialEq, Eq, Structural)]
pub enum SymbolType {
    FunctionDeclaration,
    FunctionCall,
    Other,
}

/// A symbol of a source file as the symbol source hands it over. Rows are
/// counted from zero. A declaration comes with its details where the symbol
/// source could read them.
#[derive(Debug)]
pub struct SymbolRecord {
    pub guid: u128,
    pub name: String,
    pub namespace: String,
    pub language: String,
    pub language_id: LanguageId,
    pub symbol_type: SymbolType,
    pub start_row: usize,
    pub end_row: usize,
    pub details: Option<FunctionDetails>,
}

/// The symbols of one file, in the order of the file.
pub struct FileSymbols {
    pub path: Seq<char>,
    pub symbols: Seq<SymbolRecord>,
}

/// The text of an optional type.
pub open spec fn opt_type_text(type_: Option<TypeDef>) -> Option<Seq<char>> {
    match type_ {
        Some(type_def) => Some(type_text(type_def)),
        None => None,
    }
}

/// The parameters of a declaration with the arguments `args`. The symbol
/// source knows no default values.
pub open spec fn parameters_of(args: Seq<FunctionArg>) -> Seq<ParameterView> {
    Seq::new(
        args.len(),
        |i: int|
            ParameterView {
                name: args[i].name@,
                declared_type: opt_type_text(args[i].type_),
                default_value: None,
            },
    )
}

/// The signature of a symbol: none for a symbol that is no declaration, the
/// complete one for a declaration with details, and the basic one for a
/// declaration without.
pub open spec fn signature_of(symbol: SymbolRecord) -> Option<Seq<char>> {
    if symbol.symbol_type != SymbolType::FunctionDeclaration {
        None
    } else {
        match symbol.details {
            Some(details) => Some(complete_signature(symbol.name@, symbol.language_id, details)),
            None => Some(basic_signature(symbol.name@, symbol.language_id)),
        }
    }
}

/// The return type of a symbol, where its details give one.
pub open spec fn return_type_of(symbol: SymbolRecord) -> Option<Seq<char>> {
    match symbol.details {
        Some(details) => opt_type_text(details.return_type),
        None => None,
    }
}

/// The parameters of a symbol: those of its details, and none without.
pub open spec fn symbol_parameters(symbol: SymbolRecord) -> Seq<ParameterView> {
    match symbol.details {
        Some(details) => parameters_of(details.args@),
        None => Seq::empty(),
    }
}

/// The function that the declaration `symbol` of the file `path` declares:
/// the symbol's own identifier, and its lines counted from one.
pub open spec fn function_of_symbol(symbol: SymbolRecord, path: Seq<char>) -> FunctionView {
    FunctionView {
        id: symbol.guid,
        name: symbol.name@,
        file_path: path,
        line_start: (symbol.start_row + 1) as usize,
        line_end: (symbol.end_row + 1) as usize,
        namespace: symbol.namespace@,
        language: symbol.language@,
        signature: signature_of(symbol),
        return_type: return_type_of(symbol),
        parameters: symbol_parameters(symbol),
    }
}

/// The graph after the declarations among `symbols` were added, in order.
pub open spec fn declared(graph: GraphView, path: Seq<char>, symbols: Seq<SymbolRecord>) -> GraphView
    decreases symbols.len(),
{
    if symbols.len() == 0 {
        graph
    } else {
        let before = declared(graph, path, symbols.drop_last());
        if symbols.last().symbol_type == SymbolType::FunctionDeclaration {
            before.with_function(function_of_symbol(symbols.last(), path))
        } else {
            before
        }
    }
}

/// The graph after the declarations of all `files` were added, file by file.
pub open spec fn declared_all(graph: GraphView, files: Seq<FileSymbols>) -> GraphView
    decreases files.len(),
{
    if files.len() == 0 {
        graph
    } else {
        declared(declared_all(graph, files.drop_last()), files.last().path, files.last().symbols)
    }
}

/// The function that a declaration named `name` stands for as a caller: the
/// first function of that name.
pub open spec fn first_named(graph: GraphView, name: Seq<char>) -> Option<u128> {
    if graph.named(name).len() > 0 {
        Some(graph.named(name)[0].id)
    } else {
        None
    }
}

/// The resolved edge of a call site in row `row` from `caller` to `callee`.
pub open spec fn call_of(caller_id: u128, caller: FunctionView, callee: FunctionView, row: usize) -> CallView {
    CallView {
        caller_id,
        callee_id: callee.id,
        caller_name: caller.name,
        callee_name: callee.name,
        caller_file: caller.file_path,
        callee_file: callee.file_path,
        line_number: (row + 1) as usize,
        is_resolved: true,
    }
}

/// The graph after the edges `calls` were added, in order.
pub open spec fn with_call_list(graph: GraphView, calls: Seq<CallView>) -> GraphView
    decreases calls.len(),
{
    if calls.len() == 0 {
        graph
    } else {
        with_call_list(graph, calls.drop_last()).with_call(calls.last())
    }
}

/// The edges of one call site in row `row`: from `caller` to each of
/// `callees`, in order.
pub open spec fn calls_to(caller_id: u128, caller: FunctionView, callees: Seq<FunctionView>, row: usize) -> Seq<
    CallView,
> {
    Seq::new(callees.len(), |k: int| call_of(caller_id, caller, callees[k], row))
}

/// The graph after one edge from `caller` to each of `callees` was added,
/// in order.
pub open spec fn with_calls(
    graph: GraphView,
    caller_id: u128,
    caller: FunctionView,
    callees: Seq<FunctionView>,
    row: usize,
) -> GraphView {
    with_call_list(graph, calls_to(caller_id, caller, callees, row))
}

/// The state of the second pass within a file: the graph, and the callers
/// that the declarations seen so far stand for, the current one last.
pub struct Resolution {
    pub graph: GraphView,
    pub callers: Seq<u128>,
}

/// The second pass over one symbol.
pub open spec fn resolve_symbol(state: Resolution, symbol: SymbolRecord) -> Resolution {
    match symbol.symbol_type {
        SymbolType::FunctionDeclaration => match first_named(state.graph, symbol.name@) {
            Some(id) => Resolution { graph: state.graph, callers: state.callers.push(id) },
            None => state,
        },
        SymbolType::FunctionCall => if state.callers.len() > 0
            && state.graph.functions.contains_key(state.callers.last()) {
            Resolution {
                graph: with_calls(
                    state.graph,
                    state.callers.last(),
                    state.graph.functions[state.callers.last()],
                    state.graph.named(symbol.name@),
                    symbol.start_row,
                ),
                callers: state.callers,
            }
        } else {
            state
        },
        SymbolType::Other => state,
    }
}

/// The second pass over `symbols`, in order.
pub open spec fn resolved(state: Resolution, symbols: Seq<SymbolRecord>) -> Resolution
    decreases symbols.len(),
{
    if symbols.len() == 0 {
        state
    } else {
        resolve_symbol(resolved(state, symbols.drop_last()), symbols.last())
    }
}

/// The second pass over all `files`, file by file; each file starts without
/// a caller.
pub open spec fn resolved_all(graph: GraphView, files: Seq<FileSymbols>) -> GraphView
    decreases files.len(),
{
    if files.len() == 0 {
        graph
    } else {
        resolved(
            Resolution { graph: resolved_all(graph, files.drop_last()), callers: Seq::empty() },
            files.last().symbols,
        ).graph
    }
}

/// The graph that the two passes build from `files`, with its numbers of
/// files and languages brought up to date.
pub open spec fn built(files: Seq<FileSymbols>) -> GraphView {
    resolved_all(declared_all(GraphView::empty(), files), files).refreshed()
}

/// The number of symbols of all `files`.
pub open spec fn symbol_total(files: Seq<FileSymbols>) -> nat
    decreases files.len(),
{
    if files.len() == 0 {
        0
    } else {
        symbol_total(files.drop_last()) + files.last().symbols.len()
    }
}

/// The rows of every symbol can be counted from one.
pub open spec fn rows_fit(files: Seq<FileSymbols>) -> bool {
    forall|i: int, j: int|
        0 <= i < files.len() && 0 <= j < files[i].symbols.len() ==> (#[trigger] files[i].symbols[j]).start_row
            < usize::MAX && files[i].symbols[j].end_row < usize::MAX
}

/// Whether the symbol at position `j` of file `i` is a declaration.
pub open spec fn declares(files: Seq<FileSymbols>, i: int, j: int) -> bool {
    0 <= i < files.len() && 0 <= j < files[i].symbols.len() && files[i].symbols[j].symbol_type
        == SymbolType::FunctionDeclaration
}

/// No two declarations share an identifier.
pub open spec fn distinct_declarations(files: Seq<FileSymbols>) -> bool {
    forall|i: int, j: int, k: int, l: int|
        #![trigger declares(files, i, j), declares(files, k, l)]
        declares(files, i, j) && declares(files, k, l) && (i != k || j != l)
            ==> files[i].symbols[j].guid != files[k].symbols[l].guid
}

/// Whether some declaration before position `j` of file `i` has the
/// identifier `id`.
pub open spec fn declared_before(files: Seq<FileSymbols>, i: int, j: int, id: u128) -> bool {
    exists|k: int, l: int|
        #[trigger] declares(files, k, l) && (k < i || (k == i && l < j)) && files[k].symbols[l].guid
            == id
}

/// The symbols of the first files are among the symbols of all files.
pub proof fn lemma_symbol_total_prefix(files: Seq<FileSymbols>, i: int)
    requires
        0 <= i < files.len(),
    ensures
        symbol_total(files.take(i)) + files[i].symbols.len() <= symbol_total(files),
        symbol_total(files.take(i + 1)) == symbol_total(files.take(i)) + files[i].symbols.len(),
    decreases files.len(),
{
    assert(files.take(i + 1).drop_last() =~= files.take(i));
    if i == files.len() - 1 {
        assert(files.take(i + 1) =~= files);
    } else {
        lemma_symbol_total_prefix(files.drop_last(), i);
        assert(files.drop_last().take(i) =~= files.take(i));
    }
}

/// The list of files after the symbols of a file arrived: a file that is
/// listed already gets the new symbols in its place, another file goes to
/// the end.
pub open spec fn with_file(files: Seq<FileSymbols>, file: FileSymbols) -> Seq<FileSymbols> {
    let paths = files.map_values(|f: FileSymbols| f.path);
    if paths.contains(file.path) {
        files.update(paths.index_of(file.path), file)
    } else {
        files.push(file)
    }
}

/// Adding edges adds as many edges, and leaves the functions alone.
pub proof fn lemma_call_list(graph: GraphView, calls: Seq<CallView>)
    ensures
        with_call_list(graph, calls).call_relations == graph.call_relations + calls,
        with_call_list(graph, calls).functions == graph.functions,
        with_call_list(graph, calls).function_names == graph.function_names,
    decreases calls.len(),
{
    if calls.len() > 0 {
        lemma_call_list(graph, calls.drop_last());
        assert(graph.call_relations + calls =~= (graph.call_relations + calls.drop_last()).push(
            calls.last(),
        ));
    } else {
        assert(graph.call_relations + calls =~= graph.call_relations);
    }
}

/// The second pass over a symbol removes no edge.
pub proof fn lemma_resolve_grows(state: Resolution, symbol: SymbolRecord)
    ensures
        state.graph.call_relations.len() <= resolve_symbol(state, symbol).graph.call_relations.len(),
{
    if symbol.symbol_type == SymbolType::FunctionCall && state.callers.len() > 0
        && state.graph.functions.contains_key(state.callers.last()) {
        lemma_call_list(
            state.graph,
            calls_to(
                state.callers.last(),
                state.graph.functions[state.callers.last()],
                state.graph.named(symbol.name@),
                symbol.start_row,
            ),
        );
    }
}

/// The second pass over the first symbols of a file gives no more edges
/// than the pass over all of them.
pub proof fn lemma_resolved_grows(state: Resolution, symbols: Seq<SymbolRecord>, j: int)
    requires
        0 <= j <= symbols.len(),
    ensures
        resolved(state, symbols.take(j)).graph.call_relations.len() <= resolved(
            state,
            symbols,
        ).graph.call_relations.len(),
    decreases symbols.len(),
{
    if j == symbols.len() {
        assert(symbols.take(j) =~= symbols);
    } else {
        lemma_resolved_grows(state, symbols.drop_last(), j);
        assert(symbols.drop_last().take(j) =~= symbols.take(j));
        lemma_resolve_grows(resolved(state, symbols.drop_last()), symbols.last());
    }
}

/// The second pass over the first files gives no more edges than the pass
/// over all of them.
pub proof fn lemma_resolved_all_grows(graph: GraphView, files: Seq<FileSymbols>, i: int)
    requires
        0 <= i <= files.len(),
    ensures
        resolved_all(graph, files.take(i)).call_relations.len() <= resolved_all(
            graph,
            files,
        ).call_relations.len(),
    decreases files.len(),
{
    if i == files.len() {
        assert(files.take(i) =~= files);
    } else {
        lemma_resolved_all_grows(graph, files.drop_last(), i);
        assert(files.drop_last().take(i) =~= files.take(i));
        let start = Resolution {
            graph: resolved_all(graph, files.drop_last()),
            callers: Seq::empty(),
        };
        lemma_resolved_grows(start, files.last().symbols, 0);
        assert(files.last().symbols.take(0) =~= Seq::<SymbolRecord>::empty());
    }
}

/// Holds the symbols of the files that were handed over, and builds call
/// graphs from them.
#[derive(Debug)]
pub struct CodeParser {
    file_asts: TextMap<Vec<SymbolRecord>>,
    function_registry: TextMap<FunctionInfo>,
}

/// Whether `extension`, in lower case, is one of the source extensions
/// that the builder takes: those of C and C++, Python, Java, JavaScript,
/// Rust and TypeScript.
pub open spec fn supported_extension(extension: Seq<char>) -> bool {
    ||| extension == "cpp"@
    ||| extension == "cc"@
    ||| extension == "cxx"@
    ||| extension == "c++"@
    ||| extension == "c"@
    ||| extension == "h"@
    ||| extension == "hpp"@
    ||| extension == "hxx"@
    ||| extension == "hh"@
    ||| extension == "inl"@
    ||| extension == "inc"@
    ||| extension == "tpp"@
    ||| extension == "tpl"@
    ||| extension == "py"@
    ||| extension == "py3"@
    ||| extension == "pyx"@
    ||| extension == "java"@
    ||| extension == "js"@
    ||| extension == "jsx"@
    ||| extension == "rs"@
    ||| extension == "ts"@
    ||| extension == "tsx"@
}

/// Whether a directory of the name `name` is passed over: a hidden one, and
/// the usual places of build output and fetched dependencies.
pub open spec fn ignored_directory(name: Seq<char>) -> bool {
    ||| (name.len() > 0 && name[0] == '.')
    ||| name == "target"@
    ||| name == "node_modules"@
    ||| name == "__pycache__"@
}

/// The functions that the declarations among `symbols` declare, in order.
pub open spec fn declarations_in(path: Seq<char>, symbols: Seq<SymbolRecord>) -> Seq<FunctionView>
    decreases symbols.len(),
{
    if symbols.len() == 0 {
        Seq::empty()
    } else if symbols.last().symbol_type == SymbolType::FunctionDeclaration {
        declarations_in(path, symbols.drop_last()).push(function_of_symbol(symbols.last(), path))
    } else {
        declarations_in(path, symbols.drop_last())
    }
}

/// The functions that the declarations of all `files` declare, file by file.
pub open spec fn all_declarations(files: Seq<FileSymbols>) -> Seq<FunctionView>
    decreases files.len(),
{
    if files.len() == 0 {
        Seq::empty()
    } else {
        all_declarations(files.drop_last()) + declarations_in(
            files.last().path,
            files.last().symbols,
        )
    }
}

/// The registry after `functions` were registered in order, each under its
/// name, where it replaces what stood there.
pub open spec fn registered(registry: Map<Seq<char>, FunctionView>, functions: Seq<FunctionView>) -> Map<
    Seq<char>,
    FunctionView,
>
    decreases functions.len(),
{
    if functions.len() == 0 {
        registry
    } else {
        registered(registry, functions.drop_last()).insert(functions.last().name, functions.last())
    }
}

impl CodeParser {
    /// The files that were handed over, with their symbols, in the order in
    /// which the files first arrived.
    pub closed spec fn files(&self) -> Seq<FileSymbols> {
        Seq::new(
            self.file_asts.key_seq().len(),
            |i: int|
                FileSymbols {
                    path: self.file_asts.key_seq()[i],
                    symbols: self.file_asts.value_seq()[i]@,
                },
        )
    }

    /// The functions that `extract_functions` has registered, each under
    /// its name.
    pub closed spec fn registry(&self) -> Map<Seq<char>, FunctionView> {
        Map::new(
            |name: Seq<char>| self.function_registry@.contains_key(name),
            |name: Seq<char>| self.function_registry@[name]@,
        )
    }

    /// A parser without files.
    pub fn new() -> (parser: Self)
        ensures
            parser.files() == Seq::<FileSymbols>::empty(),
            parser.registry() == Map::<Seq<char>, FunctionView>::empty(),
    {
        let parser = CodeParser { file_asts: TextMap::new(), function_registry: TextMap::new() };
        proof {
            assert(parser.files() =~= Seq::<FileSymbols>::empty());
            assert(parser.registry() =~= Map::<Seq<char>, FunctionView>::empty());
        }
        parser
    }

    /// Takes the symbols of the file `file_path`. They replace what was
    /// handed over for that file before.
    pub fn parse_file(&mut self, file_path: String, symbols: Vec<SymbolRecord>)
        ensures
            final(self).files() == with_file(
                old(self).files(),
                FileSymbols { path: file_path@, symbols: symbols@ },
            ),
            final(self).registry() == old(self).registry(),
    {
        proof {
            use_type_invariant(&self.file_asts);
            self.file_asts.lemma_wf();
        }
        let ghost before = self.files();
        let ghost keys = self.file_asts.key_seq();
        let ghost path = file_path@;
        let ghost held = symbols@;
        self.file_asts.insert(file_path, symbols);
        proof {
            use_type_invariant(&self.file_asts);
            self.file_asts.lemma_wf();
            let paths = before.map_values(|f: FileSymbols| f.path);
            assert(paths =~= keys);
            assert(keys.contains(path) <==> old(self).file_asts@.contains_key(path));
            assert(self.files() =~= with_file(before, FileSymbols { path, symbols: held }));
        }
    }

    /// Whether a file with the extension `extension` is a source file that
    /// the builder takes. Upper and lower case are the same.
    pub fn is_supported_extension(extension: &str) -> (supported: bool)
        ensures
            supported == supported_extension(lowercase_of(extension@)),
    {
        let lower = lowercase(extension);
        Self::is_supported_lowercase(lower.as_str())
    }

    /// Whether `extension`, which is in lower case, is a source extension
    /// that the builder takes.
    pub fn is_supported_lowercase(extension: &str) -> (supported: bool)
        ensures
            supported == supported_extension(extension@),
    {
        str_eq(extension, "cpp") || str_eq(extension, "cc") || str_eq(extension, "cxx") || str_eq(
            extension,
            "c++",
        ) || str_eq(extension, "c") || str_eq(extension, "h") || str_eq(extension, "hpp") || str_eq(
            extension,
            "hxx",
        ) || str_eq(extension, "hh") || str_eq(extension, "inl") || str_eq(extension, "inc")
            || str_eq(extension, "tpp") || str_eq(extension, "tpl") || str_eq(extension, "py")
            || str_eq(extension, "py3") || str_eq(extension, "pyx") || str_eq(extension, "java")
            || str_eq(extension, "js") || str_eq(extension, "jsx") || str_eq(extension, "rs")
            || str_eq(extension, "ts") || str_eq(extension, "tsx")
    }

    /// Whether the scan passes over a directory of the name `name`.
    pub fn is_ignored_directory(name: &str) -> (ignored: bool)
        ensures
            ignored == ignored_directory(name@),
    {
        let hidden = name.unicode_len() > 0 && name.get_char(0) == '.';
        hidden || str_eq(name, "target") || str_eq(name, "node_modules") || str_eq(
            name,
            "__pycache__",
        )
    }

    /// Lists the functions that the declarations of all files declare, file
    /// by file, and registers each under its name.
    pub fn extract_functions(&mut self) -> (functions: Vec<FunctionInfo>)
        requires
            rows_fit(old(self).files()),
        ensures
            function_views(functions@) == all_declarations(old(self).files()),
            final(self).files() == old(self).files(),
            final(self).registry() == registered(
                old(self).registry(),
                all_declarations(old(self).files()),
            ),
    {
        let mut functions: Vec<FunctionInfo> = Vec::new();
        let ghost files = self.files();
        let ghost start = self.registry();
        let count = self.file_asts.len();
        proof {
            use_type_invariant(&self.file_asts);
            self.file_asts.lemma_wf();
            assert(function_views(functions@) =~= all_declarations(files.take(0)));
        }
        let mut i: usize = 0;
        while i < count
            invariant
                i <= count,
                count == files.len(),
                files == self.files(),
                self.file_asts.wf(),
                rows_fit(files),
                function_views(functions@) == all_declarations(files.take(i as int)),
                self.registry() == registered(start, all_declarations(files.take(i as int))),
            decreases count - i,
        {
            let ghost done = all_declarations(files.take(i as int));
            let ghost list = files[i as int].symbols;
            let ghost path = files[i as int].path;
            proof {
                self.file_asts.lemma_wf();
            }
            let symbol_count = self.file_asts.value_at(i).len();
            let mut j: usize = 0;
            proof {
                assert(function_views(functions@) =~= done + declarations_in(path, list.take(0)));
                assert(done + declarations_in(path, list.take(0)) =~= done);
            }
            while j < symbol_count
                invariant
                    j <= symbol_count,
                    i < count,
                    count == files.len(),
                    files == self.files(),
                    self.file_asts.wf(),
                    symbol_count == list.len(),
                    list == files[i as int].symbols,
                    path == files[i as int].path,
                    rows_fit(files),
                    done == all_declarations(files.take(i as int)),
                    function_views(functions@) == done + declarations_in(path, list.take(j as int)),
                    self.registry() == registered(
                        start,
                        done + declarations_in(path, list.take(j as int)),
                    ),
                decreases symbol_count - j,
            {
                proof {
                    self.file_asts.lemma_wf();
                }
                let file_path = self.file_asts.key_at(i);
                let symbol = &self.file_asts.value_at(i)[j];
                let ghost before = declarations_in(path, list.take(j as int));
                proof {
                    assert(list.take(j + 1).drop_last() =~= list.take(j as int));
                    assert(list.take(j + 1).last() == *symbol);
                    assert(files[i as int].symbols[j as int] == *symbol);
                }
                match symbol.symbol_type {
                    SymbolType::FunctionDeclaration => {
                        let function = self._create_function_info(symbol, file_path.as_str());
                        let copy = function.clone();
                        let name = function.name.clone();
                        let ghost held = functions@;
                        let ghost registry = self.registry();
                        self.function_registry.insert(name, copy);
                        functions.push(function);
                        proof {
                            let f = function_of_symbol(*symbol, path);
                            assert(function_views(functions@) =~= function_views(held).push(f));
                            assert(done + before.push(f) =~= (done + before).push(f));
                            assert((done + before.push(f)).drop_last() =~= done + before);
                            assert(self.registry() =~= registry.insert(f.name, f));
                        }
                    },
                    _ => {},
                }
                j += 1;
            }
            proof {
                lemma_take_all(list);
                assert(files.take(i + 1).drop_last() =~= files.take(i as int));
                assert(files.take(i + 1).last() == files[i as int]);
            }
            i += 1;
        }
        proof {
            lemma_take_all(files);
        }
        functions
    }

    /// The number of files that were handed over.
    pub fn file_count(&self) -> (count: usize)
        ensures
            count == self.files().len(),
    {
        self.file_asts.len()
    }

    /// The text of a type: its name, else what was inferred of it, else
    /// `unknown`.
    pub fn _safe_type_name(&self, type_def: &TypeDef) -> (out: String)
        ensures
            out@ == type_text(*type_def),
    {
        safe_type_name(type_def)
    }

    /// An identifier with a backslash in front of every quotation mark.
    pub fn _escape_identifier(&self, identifier: &str) -> (out: String)
        ensures
            out@ == escaped(identifier@),
    {
        escape_identifier(identifier)
    }

    /// The signature of a symbol: none for a symbol that is no declaration,
    /// the complete one for a declaration with details, and the basic one
    /// for a declaration without.
    pub fn _extract_function_signature(&self, symbol: &SymbolRecord) -> (out: Option<String>)
        ensures
            opt_text(out) == signature_of(*symbol),
    {
        match symbol.symbol_type {
            SymbolType::FunctionDeclaration => match &symbol.details {
                Some(details) => Some(
                    build_complete_signature(symbol.name.as_str(), symbol.language_id, details),
                ),
                None => build_basic_signature(symbol.name.as_str(), symbol.language_id),
            },
            _ => None,
        }
    }

    /// The return type of a symbol, where its details give one.
    pub fn _extract_return_type(&self, symbol: &SymbolRecord) -> (out: Option<String>)
        ensures
            opt_text(out) == return_type_of(*symbol),
    {
        match &symbol.details {
            Some(details) => match &details.return_type {
                Some(type_def) => Some(safe_type_name(type_def)),
                None => None,
            },
            None => None,
        }
    }

    /// The parameters of a symbol: those of its details, and none without.
    pub fn _extract_parameters(&self, symbol: &SymbolRecord) -> (parameters: Vec<ParameterInfo>)
        ensures
            parameter_views(parameters@) == symbol_parameters(*symbol),
    {
        let mut parameters: Vec<ParameterInfo> = Vec::new();
        match &symbol.details {
            Some(details) => {
                let mut i: usize = 0;
                while i < details.args.len()
                    invariant
                        i <= details.args@.len(),
                        parameters@.len() == i,
                        forall|k: int|
                            0 <= k < i ==> (#[trigger] parameters@[k])@ == parameters_of(
                                details.args@,
                            )[k],
                    decreases details.args@.len() - i,
                {
                    let arg = &details.args[i];
                    let declared_type = match &arg.type_ {
                        Some(type_def) => Some(safe_type_name(type_def)),
                        None => None,
                    };
                    parameters.push(
                        ParameterInfo { name: arg.name.clone(), declared_type, default_value: None },
                    );
                    i += 1;
                }
                proof {
                    assert(parameter_views(parameters@) =~= parameters_of(details.args@));
                }
            },
            None => {
                proof {
                    assert(parameter_views(parameters@) =~= Seq::<ParameterView>::empty());
                }
            },
        }
        parameters
    }

    /// The function that the declaration `symbol` of the file `file_path`
    /// declares.
    pub fn _create_function_info(&self, symbol: &SymbolRecord, file_path: &str) -> (function:
        FunctionInfo)
        requires
            symbol.start_row < usize::MAX,
            symbol.end_row < usize::MAX,
        ensures
            function@ == function_of_symbol(*symbol, file_path@),
    {
        FunctionInfo {
            id: symbol.guid,
            name: symbol.name.clone(),
            file_path: String::from_str(file_path),
            line_start: symbol.start_row + 1,
            line_end: symbol.end_row + 1,
            namespace: symbol.namespace.clone(),
            language: symbol.language.clone(),
            signature: self._extract_function_signature(symbol),
            return_type: self._extract_return_type(symbol),
            parameters: self._extract_parameters(symbol),
        }
    }

    /// The first pass: a graph with a function for every declaration.
    fn declare_functions(&self) -> (graph: CodeGraph)
        requires
            rows_fit(self.files()),
            symbol_total(self.files()) < usize::MAX,
        ensures
            graph@ == declared_all(GraphView::empty(), self.files()),
            graph.call_relations@.len() == 0,
            graph.graph_relations@.len() == 0,
            graph.stats.resolved_calls == 0,
            graph.stats.unresolved_calls == 0,
            graph.calls_counted(),
            graph.languages_counted(),
            distinct_declarations(self.files()) ==> graph.consistent() && graph.indexed(),
    {
        let mut graph = CodeGraph::new();
        let ghost files = self.files();
        let count = self.file_asts.len();
        proof {
            use_type_invariant(&self.file_asts);
            self.file_asts.lemma_wf();
        }
        let mut i: usize = 0;
        while i < count
            invariant
                i <= count,
                count == files.len(),
                files == self.files(),
                self.file_asts.wf(),
                rows_fit(files),
                symbol_total(files) < usize::MAX,
                graph@ == declared_all(GraphView::empty(), files.take(i as int)),
                graph.stats.total_functions <= symbol_total(files.take(i as int)),
                graph.stats.languages.total() == graph.stats.total_functions,
                graph.call_relations@.len() == 0,
                graph.graph_relations@.len() == 0,
                graph.stats.resolved_calls == 0,
                graph.stats.unresolved_calls == 0,
                distinct_declarations(files) ==> graph.consistent() && graph.indexed() && forall|
                    id: u128,
                | #[trigger]
                    graph.functions@.contains_key(id) ==> declared_before(files, i as int, 0, id),
            decreases count - i,
        {
            let path = self.file_asts.key_at(i);
            let symbols = self.file_asts.value_at(i);
            let ghost base = graph@;
            let ghost list = files[i as int].symbols;
            proof {
                self.file_asts.lemma_wf();
                lemma_symbol_total_prefix(files, i as int);
                assert(list == symbols@);
                assert(files[i as int].path == path@);
            }
            let mut j: usize = 0;
            while j < symbols.len()
                invariant
                    j <= symbols@.len(),
                    i < count,
                    count == files.len(),
                    list == symbols@,
                    list == files[i as int].symbols,
                    path@ == files[i as int].path,
                    rows_fit(files),
                    symbol_total(files.take(i as int)) + list.len() <= symbol_total(files),
                    symbol_total(files) < usize::MAX,
                    graph@ == declared(base, path@, list.take(j as int)),
                    graph.stats.total_functions <= symbol_total(files.take(i as int)) + j,
                    graph.stats.languages.total() == graph.stats.total_functions,
                    graph.call_relations@.len() == 0,
                    graph.graph_relations@.len() == 0,
                    graph.stats.resolved_calls == 0,
                    graph.stats.unresolved_calls == 0,
                    distinct_declarations(files) ==> graph.consistent() && graph.indexed() && forall|
                        id: u128,
                    | #[trigger]
                        graph.functions@.contains_key(id) ==> declared_before(
                            files,
                            i as int,
                            j as int,
                            id,
                        ),
                decreases symbols@.len() - j,
            {
                let symbol = &symbols[j];
                let ghost held = graph;
                proof {
                    assert(list.take(j + 1).drop_last() =~= list.take(j as int));
                    assert(list.take(j + 1).last() == *symbol);
                    assert(files[i as int].symbols[j as int] == *symbol);
                }
                match symbol.symbol_type {
                    SymbolType::FunctionDeclaration => {
                        let function = self._create_function_info(symbol, path.as_str());
                        proof {
                            use_type_invariant(&graph.stats.languages);
                            graph.stats.languages.lemma_count_le_total(function.language@);
                            assert(declares(files, i as int, j as int));
                            if distinct_declarations(files) {
                                if graph.functions@.contains_key(function.id) {
                                    assert(declared_before(files, i as int, j as int, function.id));
                                    let (k, l) = choose|k: int, l: int|
                                        #[trigger] declares(files, k, l) && (k < i || (k == i && l
                                            < j)) && files[k].symbols[l].guid == function.id;
                                    assert(declares(files, k, l) && declares(files, i as int, j as int));
                                    assert(false);
                                }
                            }
                        }
                        graph.add_function(function);
                        proof {
                            if distinct_declarations(files) {
                                assert forall|id: u128| #[trigger]
                                    graph.functions@.contains_key(id) implies declared_before(
                                    files,
                                    i as int,
                                    j + 1,
                                    id,
                                ) by {
                                    if id == symbol.guid {
                                        assert(declares(files, i as int, j as int));
                                    } else {
                                        assert(held.functions@.contains_key(id));
                                        let (k, l) = choose|k: int, l: int|
                                            #[trigger] declares(files, k, l) && (k < i || (k == i
                                                && l < j)) && files[k].symbols[l].guid == id;
                                        assert(declares(files, k, l));
                                    }
                                }
                            }
                        }
                    },
                    _ => {
                        proof {
                            if distinct_declarations(files) {
                                assert forall|id: u128| #[trigger]
                                    graph.functions@.contains_key(id) implies declared_before(
                                    files,
                                    i as int,
                                    j + 1,
                                    id,
                                ) by {
                                    let (k, l) = choose|k: int, l: int|
                                        #[trigger] declares(files, k, l) && (k < i || (k == i && l
                                            < j)) && files[k].symbols[l].guid == id;
                                    assert(declares(files, k, l));
                                }
                            }
                        }
                    },
                }
                j += 1;
            }
            proof {
                lemma_take_all(list);
                assert(files.take(i + 1).drop_last() =~= files.take(i as int));
                assert(files.take(i + 1).last() == files[i as int]);
                if distinct_declarations(files) {
                    assert forall|id: u128| #[trigger]
                        graph.functions@.contains_key(id) implies declared_before(
                        files,
                        i + 1,
                        0,
                        id,
                    ) by {
                        let (k, l) = choose|k: int, l: int|
                            #[trigger] declares(files, k, l) && (k < i || (k == i && l
                                < symbols@.len())) && files[k].symbols[l].guid == id;
                        assert(declares(files, k, l));
                    }
                }
            }
            i += 1;
        }
        proof {
            lemma_take_all(files);
        }
        graph
    }

    /// The edges of one call site: from the caller to each of `callees`.
    fn relations_to(
        caller_id: u128,
        caller: &FunctionInfo,
        callees: &Vec<&FunctionInfo>,
        row: usize,
    ) -> (relations: Vec<CallRelation>)
        requires
            row < usize::MAX,
        ensures
            call_views(relations@) == calls_to(caller_id, caller@, function_views(callees@.unref()), row),
    {
        let mut relations: Vec<CallRelation> = Vec::new();
        let ghost targets = function_views(callees@.unref());
        let mut k: usize = 0;
        while k < callees.len()
            invariant
                k <= callees@.len(),
                row < usize::MAX,
                targets == function_views(callees@.unref()),
                targets.len() == callees@.len(),
                relations@.len() == k,
                forall|m: int|
                    0 <= m < k ==> (#[trigger] relations@[m])@ == call_of(
                        caller_id,
                        caller@,
                        targets[m],
                        row,
                    ),
            decreases callees@.len() - k,
        {
            let callee = callees[k];
            proof {
                assert(callees@.unref()[k as int] == *callee);
                assert(targets[k as int] == callee@);
            }
            relations.push(
                CallRelation {
                    caller_id,
                    callee_id: callee.id,
                    caller_name: caller.name.clone(),
                    callee_name: callee.name.clone(),
                    caller_file: caller.file_path.clone(),
                    callee_file: callee.file_path.clone(),
                    line_number: row + 1,
                    is_resolved: true,
                },
            );
            k += 1;
        }
        proof {
            assert(call_views(relations@) =~= calls_to(caller_id, caller@, targets, row));
        }
        relations
    }

    /// Adds `relations` to the graph, in order.
    fn add_relations(code_graph: &mut CodeGraph, relations: &Vec<CallRelation>)
        requires
            old(code_graph).stats.resolved_calls + old(code_graph).stats.unresolved_calls == old(
                code_graph,
            ).call_relations@.len(),
        ensures
            final(code_graph)@ == with_call_list(old(code_graph)@, call_views(relations@)),
            final(code_graph).stats.resolved_calls + final(code_graph).stats.unresolved_calls
                == final(code_graph).call_relations@.len(),
            final(code_graph).functions == old(code_graph).functions,
            final(code_graph).function_names == old(code_graph).function_names,
            final(code_graph).file_functions == old(code_graph).file_functions,
            final(code_graph).graph_relations == old(code_graph).graph_relations,
            old(code_graph).calls_counted() ==> final(code_graph).calls_counted(),
            old(code_graph).languages_counted() ==> final(code_graph).languages_counted(),
            old(code_graph).consistent() ==> final(code_graph).consistent(),
            old(code_graph).indexed() ==> final(code_graph).indexed(),
    {
        let ghost calls = call_views(relations@);
        let ghost start = code_graph@;
        let mut k: usize = 0;
        while k < relations.len()
            invariant
                k <= relations@.len(),
                calls == call_views(relations@),
                calls.len() == relations@.len(),
                code_graph@ == with_call_list(start, calls.take(k as int)),
                code_graph.stats.resolved_calls + code_graph.stats.unresolved_calls
                    == code_graph.call_relations@.len(),
                code_graph.functions == old(code_graph).functions,
                code_graph.function_names == old(code_graph).function_names,
                code_graph.file_functions == old(code_graph).file_functions,
                code_graph.graph_relations == old(code_graph).graph_relations,
                old(code_graph).calls_counted() ==> code_graph.calls_counted(),
                old(code_graph).languages_counted() ==> code_graph.languages_counted(),
                old(code_graph).consistent() ==> code_graph.consistent(),
                old(code_graph).indexed() ==> code_graph.indexed(),
            decreases relations@.len() - k,
        {
            let relation = relations[k].clone();
            proof {
                assert(calls.take(k + 1).drop_last() =~= calls.take(k as int));
                assert(calls.take(k + 1).last() == relation@);
            }
            code_graph.add_call_relation(relation);
            k += 1;
        }
        proof {
            lemma_take_all(calls);
        }
    }

    /// The second pass: resolves the call sites of all files against the
    /// name index of `code_graph`, and adds an edge for every match.
    fn analyze_call_relations(&self, code_graph: &mut CodeGraph)
        requires
            rows_fit(self.files()),
            old(code_graph).stats.resolved_calls + old(code_graph).stats.unresolved_calls == old(
                code_graph,
            ).call_relations@.len(),
        ensures
            final(code_graph)@ == resolved_all(old(code_graph)@, self.files()),
            final(code_graph).functions == old(code_graph).functions,
            final(code_graph).function_names == old(code_graph).function_names,
            final(code_graph).file_functions == old(code_graph).file_functions,
            final(code_graph).graph_relations == old(code_graph).graph_relations,
            old(code_graph).calls_counted() ==> final(code_graph).calls_counted(),
            old(code_graph).languages_counted() ==> final(code_graph).languages_counted(),
            old(code_graph).consistent() ==> final(code_graph).consistent(),
            old(code_graph).indexed() ==> final(code_graph).indexed(),
    {
        let ghost files = self.files();
        let ghost start = code_graph@;
        let count = self.file_asts.len();
        proof {
            use_type_invariant(&self.file_asts);
            self.file_asts.lemma_wf();
        }
        let mut i: usize = 0;
        while i < count
            invariant
                i <= count,
                count == files.len(),
                files == self.files(),
                self.file_asts.wf(),
                rows_fit(files),
                code_graph@ == resolved_all(start, files.take(i as int)),
                code_graph.stats.resolved_calls + code_graph.stats.unresolved_calls
                    == code_graph.call_relations@.len(),
                code_graph.functions == old(code_graph).functions,
                code_graph.function_names == old(code_graph).function_names,
                code_graph.file_functions == old(code_graph).file_functions,
                code_graph.graph_relations == old(code_graph).graph_relations,
                old(code_graph).calls_counted() ==> code_graph.calls_counted(),
                old(code_graph).languages_counted() ==> code_graph.languages_counted(),
                old(code_graph).consistent() ==> code_graph.consistent(),
                old(code_graph).indexed() ==> code_graph.indexed(),
            decreases count - i,
        {
            let symbols = self.file_asts.value_at(i);
            let ghost list = files[i as int].symbols;
            let ghost base = Resolution { graph: code_graph@, callers: Seq::empty() };
            proof {
                self.file_asts.lemma_wf();
                assert(list == symbols@);
            }
            let mut callers: Vec<u128> = Vec::new();
            let mut j: usize = 0;
            while j < symbols.len()
                invariant
                    j <= symbols@.len(),
                    i < count,
                    count == files.len(),
                    list == symbols@,
                    list == files[i as int].symbols,
                    rows_fit(files),
                    resolved(base, list.take(j as int)) == (Resolution {
                        graph: code_graph@,
                        callers: callers@,
                    }),
                    code_graph.stats.resolved_calls + code_graph.stats.unresolved_calls
                        == code_graph.call_relations@.len(),
                    code_graph.functions == old(code_graph).functions,
                    code_graph.function_names == old(code_graph).function_names,
                    code_graph.file_functions == old(code_graph).file_functions,
                    code_graph.graph_relations == old(code_graph).graph_relations,
                    old(code_graph).calls_counted() ==> code_graph.calls_counted(),
                    old(code_graph).languages_counted() ==> code_graph.languages_counted(),
                    old(code_graph).consistent() ==> code_graph.consistent(),
                    old(code_graph).indexed() ==> code_graph.indexed(),
                decreases symbols@.len() - j,
            {
                let symbol = &symbols[j];
                let ghost state = Resolution { graph: code_graph@, callers: callers@ };
                proof {
                    assert(list.take(j + 1).drop_last() =~= list.take(j as int));
                    assert(list.take(j + 1).last() == *symbol);
                    assert(files[i as int].symbols[j as int] == *symbol);
                    assert(resolved(base, list.take(j + 1)) == resolve_symbol(state, *symbol));
                }
                match symbol.symbol_type {
                    SymbolType::FunctionDeclaration => {
                        let found = code_graph.find_functions_by_name(symbol.name.as_str());
                        if found.len() > 0 {
                            proof {
                                assert(function_views(found@.unref())[0] == found@.unref()[0]@);
                            }
                            callers.push(found[0].id);
                        } else {
                            proof {
                                assert(function_views(found@.unref()).len() == 0);
                            }
                        }
                    },
                    SymbolType::FunctionCall => {
                        if callers.len() > 0 {
                            let caller_id = callers[callers.len() - 1];
                            let callees = code_graph.find_functions_by_name(symbol.name.as_str());
                            let relations = match code_graph.functions.get(&caller_id) {
                                Some(caller) => Self::relations_to(
                                    caller_id,
                                    caller,
                                    &callees,
                                    symbol.start_row,
                                ),
                                None => Vec::new(),
                            };
                            proof {
                                if !code_graph.functions@.contains_key(caller_id) {
                                    assert(call_views(relations@) =~= Seq::<CallView>::empty());
                                }
                            }
                            if code_graph.functions.get(&caller_id).is_some() {
                                Self::add_relations(code_graph, &relations);
                            }
                        }
                    },
                    SymbolType::Other => {},
                }
                j += 1;
            }
            proof {
                lemma_take_all(list);
                assert(files.take(i + 1).drop_last() =~= files.take(i as int));
                assert(files.take(i + 1).last() == files[i as int]);
            }
            i += 1;
        }
        proof {
            lemma_take_all(files);
        }
    }

    /// Builds the call graph of the files that were handed over: a function
    /// for every declaration, then a resolved edge for every function that a
    /// call site names, then the numbers of files and languages. The edge
    /// counters count the edges, and the language histogram sums up to the
    /// number of functions. Where no two declarations share an identifier,
    /// the number of functions is the size of the function map, and the
    /// indices list exactly the functions of the map.
    pub fn build_code_graph(&self) -> (outcome: Result<CodeGraph, String>)
        requires
            rows_fit(self.files()),
            symbol_total(self.files()) < usize::MAX,
        ensures
            outcome matches Ok(graph) && graph@ == built(self.files())
                && graph.graph_relations@.len() == 0 && graph.calls_counted()
                && graph.languages_counted() && (distinct_declarations(self.files())
                ==> graph.consistent() && graph.indexed()),
    {
        let mut code_graph = self.declare_functions();
        self.analyze_call_relations(&mut code_graph);
        code_graph.update_stats();
        Ok(code_graph)
    }

    /// The first pass over the indexed graph: a node for every declaration.
    fn declare_nodes(&self) -> (graph: PetGraphCodeGraph)
        requires
            rows_fit(self.files()),
            symbol_total(self.files()) < u32::MAX,
        ensures
            graph@ == declared_all(GraphView::empty(), self.files()),
            graph.edges().len() == 0,
            graph.wf(),
            graph.edges_known(),
            graph.consistent(),
            distinct_declarations(self.files()) ==> graph.functions_counted(),
    {
        let mut graph = PetGraphCodeGraph::new();
        let ghost files = self.files();
        let count = self.file_asts.len();
        proof {
            use_type_invariant(&self.file_asts);
            self.file_asts.lemma_wf();
        }
        let mut i: usize = 0;
        while i < count
            invariant
                i <= count,
                count == files.len(),
                files == self.files(),
                self.file_asts.wf(),
                rows_fit(files),
                symbol_total(files) < u32::MAX,
                graph@ == declared_all(GraphView::empty(), files.take(i as int)),
                graph.nodes().len() <= symbol_total(files.take(i as int)),
                graph.edges().len() == 0,
                graph.wf(),
                graph.edges_known(),
                graph.consistent(),
                distinct_declarations(files) ==> graph.functions_counted() && forall|id: u128|
                    #[trigger] graph.function_to_node@.contains_key(id) ==> declared_before(
                        files,
                        i as int,
                        0,
                        id,
                    ),
            decreases count - i,
        {
            let path = self.file_asts.key_at(i);
            let symbols = self.file_asts.value_at(i);
            let ghost base = graph@;
            let ghost list = files[i as int].symbols;
            proof {
                self.file_asts.lemma_wf();
                lemma_symbol_total_prefix(files, i as int);
                assert(list == symbols@);
                assert(files[i as int].path == path@);
            }
            let mut j: usize = 0;
            while j < symbols.len()
                invariant
                    j <= symbols@.len(),
                    i < count,
                    count == files.len(),
                    list == symbols@,
                    list == files[i as int].symbols,
                    path@ == files[i as int].path,
                    rows_fit(files),
                    symbol_total(files.take(i as int)) + list.len() <= symbol_total(files),
                    symbol_total(files) < u32::MAX,
                    graph@ == declared(base, path@, list.take(j as int)),
                    graph.nodes().len() <= symbol_total(files.take(i as int)) + j,
                    graph.edges().len() == 0,
                    graph.wf(),
                    graph.edges_known(),
                    graph.consistent(),
                    distinct_declarations(files) ==> graph.functions_counted() && forall|id: u128|
                        #[trigger] graph.function_to_node@.contains_key(id) ==> declared_before(
                            files,
                            i as int,
                            j as int,
                            id,
                        ),
                decreases symbols@.len() - j,
            {
                let symbol = &symbols[j];
                let ghost held = graph;
                proof {
                    assert(list.take(j + 1).drop_last() =~= list.take(j as int));
                    assert(list.take(j + 1).last() == *symbol);
                    assert(files[i as int].symbols[j as int] == *symbol);
                }
                match symbol.symbol_type {
                    SymbolType::FunctionDeclaration => {
                        let function = self._create_function_info(symbol, path.as_str());
                        proof {
                            use_type_invariant(&graph.stats.languages);
                            graph.stats.languages.lemma_count_le_total(function.language@);
                            assert(declares(files, i as int, j as int));
                            if distinct_declarations(files) {
                                if graph.function_to_node@.contains_key(function.id) {
                                    assert(declared_before(files, i as int, j as int, function.id));
                                    let (k, l) = choose|k: int, l: int|
                                        #[trigger] declares(files, k, l) && (k < i || (k == i && l
                                            < j)) && files[k].symbols[l].guid == function.id;
                                    assert(declares(files, k, l) && declares(files, i as int, j as int));
                                    assert(false);
                                }
                            }
                        }
                        graph.add_function(function);
                        proof {
                            if distinct_declarations(files) {
                                assert forall|id: u128| #[trigger]
                                    graph.function_to_node@.contains_key(id) implies declared_before(
                                    files,
                                    i as int,
                                    j + 1,
                                    id,
                                ) by {
                                    if id == symbol.guid {
                                        assert(declares(files, i as int, j as int));
                                    } else {
                                        assert(held.function_to_node@.contains_key(id));
                                        let (k, l) = choose|k: int, l: int|
                                            #[trigger] declares(files, k, l) && (k < i || (k == i
                                                && l < j)) && files[k].symbols[l].guid == id;
                                        assert(declares(files, k, l));
                                    }
                                }
                            }
                        }
                    },
                    _ => {
                        proof {
                            if distinct_declarations(files) {
                                assert forall|id: u128| #[trigger]
                                    graph.function_to_node@.contains_key(id) implies declared_before(
                                    files,
                                    i as int,
                                    j + 1,
                                    id,
                                ) by {
                                    let (k, l) = choose|k: int, l: int|
                                        #[trigger] declares(files, k, l) && (k < i || (k == i && l
                                            < j)) && files[k].symbols[l].guid == id;
                                    assert(declares(files, k, l));
                                }
                            }
                        }
                    },
                }
                j += 1;
            }
            proof {
                lemma_take_all(list);
                assert(files.take(i + 1).drop_last() =~= files.take(i as int));
                assert(files.take(i + 1).last() == files[i as int]);
                if distinct_declarations(files) {
                    assert forall|id: u128| #[trigger]
                        graph.function_to_node@.contains_key(id) implies declared_before(
                        files,
                        i + 1,
                        0,
                        id,
                    ) by {
                        let (k, l) = choose|k: int, l: int|
                            #[trigger] declares(files, k, l) && (k < i || (k == i && l
                                < symbols@.len())) && files[k].symbols[l].guid == id;
                        assert(declares(files, k, l));
                    }
                }
            }
            i += 1;
        }
        proof {
            lemma_take_all(files);
        }
        graph
    }

    /// Adds `relations`, whose ends are all functions of the graph, in order.
    fn add_edges(code_graph: &mut PetGraphCodeGraph, relations: &Vec<CallRelation>)
        requires
            old(code_graph).wf(),
            old(code_graph).edges_known(),
            old(code_graph).consistent(),
            old(code_graph).edges().len() + relations@.len() < u32::MAX,
            forall|k: int|
                0 <= k < relations@.len() ==> old(code_graph).function_to_node@.contains_key(
                    (#[trigger] relations@[k]).caller_id,
                ) && old(code_graph).function_to_node@.contains_key(relations@[k].callee_id),
        ensures
            final(code_graph)@ == with_call_list(old(code_graph)@, call_views(relations@)),
            final(code_graph).nodes() == old(code_graph).nodes(),
            final(code_graph).function_to_node == old(code_graph).function_to_node,
            final(code_graph).function_names == old(code_graph).function_names,
            final(code_graph).wf(),
            final(code_graph).edges_known(),
            final(code_graph).consistent(),
            old(code_graph).functions_counted() ==> final(code_graph).functions_counted(),
    {
        let ghost calls = call_views(relations@);
        let ghost start = code_graph@;
        let mut k: usize = 0;
        while k < relations.len()
            invariant
                k <= relations@.len(),
                calls == call_views(relations@),
                calls.len() == relations@.len(),
                code_graph@ == with_call_list(start, calls.take(k as int)),
                code_graph.edges().len() == old(code_graph).edges().len() + k,
                old(code_graph).edges().len() + relations@.len() < u32::MAX,
                code_graph.nodes() == old(code_graph).nodes(),
                code_graph.function_to_node == old(code_graph).function_to_node,
                code_graph.function_names == old(code_graph).function_names,
                forall|m: int|
                    0 <= m < relations@.len() ==> old(code_graph).function_to_node@.contains_key(
                        (#[trigger] relations@[m]).caller_id,
                    ) && old(code_graph).function_to_node@.contains_key(relations@[m].callee_id),
                code_graph.wf(),
                code_graph.edges_known(),
                code_graph.consistent(),
            decreases relations@.len() - k,
        {
            let relation = relations[k].clone();
            proof {
                assert(calls.take(k + 1).drop_last() =~= calls.take(k as int));
                assert(calls.take(k + 1).last() == relation@);
                lemma_resolved_partition(code_graph.relations());
                assert(relations@[k as int]@ == relation@);
            }
            let added = code_graph.add_call_relation(relation);
            proof {
                assert(added is Ok);
            }
            k += 1;
        }
        proof {
            lemma_take_all(calls);
        }
    }

    /// The second pass over the indexed graph.
    fn analyze_petgraph_call_relations(&self, code_graph: &mut PetGraphCodeGraph)
        requires
            rows_fit(self.files()),
            old(code_graph).wf(),
            old(code_graph).edges_known(),
            old(code_graph).consistent(),
            resolved_all(old(code_graph)@, self.files()).call_relations.len() < u32::MAX,
        ensures
            final(code_graph)@ == resolved_all(old(code_graph)@, self.files()),
            final(code_graph).wf(),
            final(code_graph).edges_known(),
            final(code_graph).consistent(),
            old(code_graph).functions_counted() ==> final(code_graph).functions_counted(),
    {
        let ghost files = self.files();
        let ghost start = code_graph@;
        let count = self.file_asts.len();
        proof {
            use_type_invariant(&self.file_asts);
            self.file_asts.lemma_wf();
        }
        let mut i: usize = 0;
        while i < count
            invariant
                i <= count,
                count == files.len(),
                files == self.files(),
                self.file_asts.wf(),
                rows_fit(files),
                resolved_all(start, files).call_relations.len() < u32::MAX,
                code_graph@ == resolved_all(start, files.take(i as int)),
                code_graph.wf(),
                code_graph.edges_known(),
                code_graph.consistent(),
                old(code_graph).functions_counted() ==> code_graph.functions_counted(),
            decreases count - i,
        {
            let symbols = self.file_asts.value_at(i);
            let ghost list = files[i as int].symbols;
            let ghost base = Resolution { graph: code_graph@, callers: Seq::empty() };
            proof {
                self.file_asts.lemma_wf();
                assert(list == symbols@);
                assert(files.take(i + 1).drop_last() =~= files.take(i as int));
                assert(files.take(i + 1).last() == files[i as int]);
                lemma_resolved_all_grows(start, files, i + 1);
            }
            let mut callers: Vec<u128> = Vec::new();
            let mut j: usize = 0;
            while j < symbols.len()
                invariant
                    j <= symbols@.len(),
                    i < count,
                    count == files.len(),
                    list == symbols@,
                    list == files[i as int].symbols,
                    rows_fit(files),
                    resolved(base, list).graph.call_relations.len() < u32::MAX,
                    resolved(base, list.take(j as int)) == (Resolution {
                        graph: code_graph@,
                        callers: callers@,
                    }),
                    code_graph.wf(),
                    code_graph.edges_known(),
                    code_graph.consistent(),
                    old(code_graph).functions_counted() ==> code_graph.functions_counted(),
                decreases symbols@.len() - j,
            {
                let symbol = &symbols[j];
                let ghost state = Resolution { graph: code_graph@, callers: callers@ };
                proof {
                    assert(list.take(j + 1).drop_last() =~= list.take(j as int));
                    assert(list.take(j + 1).last() == *symbol);
                    assert(files[i as int].symbols[j as int] == *symbol);
                    assert(resolved(base, list.take(j + 1)) == resolve_symbol(state, *symbol));
                    lemma_resolved_grows(base, list, j + 1);
                }
                match symbol.symbol_type {
                    SymbolType::FunctionDeclaration => {
                        let found = code_graph.find_functions_by_name(symbol.name.as_str());
                        if found.len() > 0 {
                            proof {
                                assert(function_views(found@.unref())[0] == found@.unref()[0]@);
                            }
                            callers.push(found[0].id);
                        } else {
                            proof {
                                assert(function_views(found@.unref()).len() == 0);
                            }
                        }
                    },
                    SymbolType::FunctionCall => {
                        if callers.len() > 0 {
                            let caller_id = callers[callers.len() - 1];
                            let callees = code_graph.find_functions_by_name(symbol.name.as_str());
                            let relations = match code_graph.get_function_by_id(&caller_id) {
                                Some(caller) => Self::relations_to(
                                    caller_id,
                                    caller,
                                    &callees,
                                    symbol.start_row,
                                ),
                                None => Vec::new(),
                            };
                            proof {
                                let ids = code_graph.function_names.ids_under(symbol.name@);
                                lemma_known_members(ids, code_graph.function_map());
                                let targets = function_views(callees@.unref());
                                if code_graph.function_to_node@.contains_key(caller_id) {
                                    let calls = calls_to(
                                        caller_id,
                                        code_graph@.functions[caller_id],
                                        targets,
                                        symbol.start_row,
                                    );
                                    assert(call_views(relations@) == calls);
                                    lemma_call_list(code_graph@, calls);
                                    assert(call_views(code_graph.relations()).len()
                                        == code_graph.edges().len());
                                    assert forall|k: int| 0 <= k < relations@.len() implies code_graph.function_to_node@.contains_key(
                                        (#[trigger] relations@[k]).caller_id,
                                    ) && code_graph.function_to_node@.contains_key(
                                        relations@[k].callee_id,
                                    ) by {
                                        assert(relations@[k]@ == calls[k]);
                                        assert(targets[k] == callees@.unref()[k]@);
                                        let f = crate::call_graph::known_functions(
                                            ids,
                                            code_graph.function_map(),
                                        )[k];
                                        assert(crate::graph::stands_under(
                                            ids,
                                            code_graph.function_map(),
                                            f,
                                        ));
                                        let id = choose|id: u128|
                                            ids.contains(id) && code_graph.function_map().contains_key(
                                                id,
                                            ) && #[trigger] code_graph.function_map()[id] == f;
                                        assert(code_graph.function_to_node@.contains_key(id));
                                        assert(f.id == id);
                                    }
                                } else {
                                    assert(call_views(relations@) =~= Seq::<CallView>::empty());
                                }
                            }
                            if code_graph.get_function_by_id(&caller_id).is_some() {
                                Self::add_edges(code_graph, &relations);
                            }
                        }
                    },
                    SymbolType::Other => {},
                }
                j += 1;
            }
            proof {
                lemma_take_all(list);
            }
            i += 1;
        }
        proof {
            lemma_take_all(files);
        }
    }

    /// Builds the call graph of the files that were handed over as an
    /// indexed graph: a node for every declaration, then a resolved edge for
    /// every function that a call site names, then the numbers of files and
    /// languages. It says the same as the graph that `build_code_graph`
    /// gives. Its counters agree with its nodes and edges, and where no two
    /// declarations share an identifier, every node has an identifier of its
    /// own.
    pub fn build_petgraph_code_graph(&self) -> (outcome: Result<PetGraphCodeGraph, String>)
        requires
            rows_fit(self.files()),
            symbol_total(self.files()) < u32::MAX,
            built(self.files()).call_relations.len() < u32::MAX,
        ensures
            outcome matches Ok(graph) && graph@ == built(self.files()) && graph.wf()
                && graph.edges_known() && graph.consistent() && (distinct_declarations(
                self.files(),
            ) ==> graph.functions_counted()),
    {
        let mut code_graph = self.declare_nodes();
        self.analyze_petgraph_call_relations(&mut code_graph);
        code_graph.update_stats();
        Ok(code_graph)
    }
}

} // verus!
