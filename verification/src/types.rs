//! The records of the call graph: functions, parameters, call edges and the
//! aggregate statistics, each with its mathematical view.
use vstd::prelude::*;
use crate::text_map::Histogram;

pub use crate::pet_graph::PetCodeGraph;
pub use crate::pet_graph::PetGraphCodeGraph;

verus! {

/// The view of an optional text.
pub open spec fn opt_text(o: Option<String>) -> Option<Seq<char>> {
    match o {
        Some(s) => Some(s@),
        None => None,
    }
}

/// Copies an optional text.
pub fn clone_opt_text(o: &Option<String>) -> (copy: Option<String>)
    ensures
        opt_text(copy) == opt_text(*o),
{
    match o {
        Some(s) => Some(s.clone()),
        None => None,
    }
}

/// One parameter of a function: its name, and its type and default value
/// where they are known.
#[derive(Debug)]
pub struct ParameterInfo {
    pub name: String,
    pub declared_type: Option<String>,
    pub default_value: Option<String>,
}

/// What a `ParameterInfo` says.
pub struct ParameterView {
    pub name: Seq<char>,
    pub declared_type: Option<Seq<char>>,
    pub default_value: Option<Seq<char>>,
}

impl View for ParameterInfo {
    type V = ParameterView;

    open spec fn view(&self) -> ParameterView {
        ParameterView {
            name: self.name@,
            declared_type: opt_text(self.declared_type),
            default_value: opt_text(self.default_value),
        }
    }
}

impl Clone for ParameterInfo {
    fn clone(&self) -> (copy: Self)
        ensures
            copy@ == self@,
    {
        ParameterInfo {
            name: self.name.clone(),
            declared_type: clone_opt_text(&self.declared_type),
            default_value: clone_opt_text(&self.default_value),
        }
    }
}

/// The views of a list of parameters, in order.
pub open spec fn parameter_views(parameters: Seq<ParameterInfo>) -> Seq<ParameterView> {
    Seq::new(parameters.len(), |i: int| parameters[i]@)
}

/// Copies a list of parameters.
pub fn clone_parameters(parameters: &Vec<ParameterInfo>) -> (copy: Vec<ParameterInfo>)
    ensures
        parameter_views(copy@) == parameter_views(parameters@),
{
    let mut copy: Vec<ParameterInfo> = Vec::new();
    let mut i: usize = 0;
    while i < parameters.len()
        invariant
            i <= parameters@.len(),
            copy@.len() == i,
            forall|j: int| 0 <= j < i ==> (#[trigger] copy@[j])@ == parameters@[j]@,
        decreases parameters@.len() - i,
    {
        copy.push(parameters[i].clone());
        i += 1;
    }
    assert(parameter_views(copy@) =~= parameter_views(parameters@));
    copy
}

/// A function of the analysed sources: where it is declared and what its
/// declaration says. Lines are counted from one, and both ends are included.
#[derive(Debug)]
pub struct FunctionInfo {
    pub id: u128,
    pub name: String,
    pub file_path: String,
    pub line_start: usize,
    pub line_end: usize,
    pub namespace: String,
    pub language: String,
    pub signature: Option<String>,
    pub return_type: Option<String>,
    pub parameters: Vec<ParameterInfo>,
}

/// What a `FunctionInfo` says.
pub struct FunctionView {
    pub id: u128,
    pub name: Seq<char>,
    pub file_path: Seq<char>,
    pub line_start: usize,
    pub line_end: usize,
    pub namespace: Seq<char>,
    pub language: Seq<char>,
    pub signature: Option<Seq<char>>,
    pub return_type: Option<Seq<char>>,
    pub parameters: Seq<ParameterView>,
}

impl View for FunctionInfo {
    type V = FunctionView;

    open spec fn view(&self) -> FunctionView {
        FunctionView {
            id: self.id,
            name: self.name@,
            file_path: self.file_path@,
            line_start: self.line_start,
            line_end: self.line_end,
            namespace: self.namespace@,
            language: self.language@,
            signature: opt_text(self.signature),
            return_type: opt_text(self.return_type),
            parameters: parameter_views(self.parameters@),
        }
    }
}

impl Clone for FunctionInfo {
    fn clone(&self) -> (copy: Self)
        ensures
            copy@ == self@,
    {
        FunctionInfo {
            id: self.id,
            name: self.name.clone(),
            file_path: self.file_path.clone(),
            line_start: self.line_start,
            line_end: self.line_end,
            namespace: self.namespace.clone(),
            language: self.language.clone(),
            signature: clone_opt_text(&self.signature),
            return_type: clone_opt_text(&self.return_type),
            parameters: clone_parameters(&self.parameters),
        }
    }
}

/// The views of a list of functions, in order.
pub open spec fn function_views(functions: Seq<FunctionInfo>) -> Seq<FunctionView> {
    Seq::new(functions.len(), |i: int| functions[i]@)
}

/// A call edge: the body of the caller holds a call site that names the
/// callee. Names and files of both ends are repeated on the edge, so that a
/// report needs no lookup.
#[derive(Debug)]
pub struct CallRelation {
    pub caller_id: u128,
    pub callee_id: u128,
    pub caller_name: String,
    pub callee_name: String,
    pub caller_file: String,
    pub callee_file: String,
    pub line_number: usize,
    pub is_resolved: bool,
}

/// What a `CallRelation` says.
pub struct CallView {
    pub caller_id: u128,
    pub callee_id: u128,
    pub caller_name: Seq<char>,
    pub callee_name: Seq<char>,
    pub caller_file: Seq<char>,
    pub callee_file: Seq<char>,
    pub line_number: usize,
    pub is_resolved: bool,
}

impl View for CallRelation {
    type V = CallView;

    open spec fn view(&self) -> CallView {
        CallView {
            caller_id: self.caller_id,
            callee_id: self.callee_id,
            caller_name: self.caller_name@,
            callee_name: self.callee_name@,
            caller_file: self.caller_file@,
            callee_file: self.callee_file@,
            line_number: self.line_number,
            is_resolved: self.is_resolved,
        }
    }
}

impl Clone for CallRelation {
    fn clone(&self) -> (copy: Self)
        ensures
            copy@ == self@,
    {
        CallRelation {
            caller_id: self.caller_id,
            callee_id: self.callee_id,
            caller_name: self.caller_name.clone(),
            callee_name: self.callee_name.clone(),
            caller_file: self.caller_file.clone(),
            callee_file: self.callee_file.clone(),
            line_number: self.line_number,
            is_resolved: self.is_resolved,
        }
    }
}

/// The views of a list of call edges, in order.
pub open spec fn call_views(relations: Seq<CallRelation>) -> Seq<CallView> {
    Seq::new(relations.len(), |i: int| relations[i]@)
}

/// How many of `relations` are resolved.
pub open spec fn resolved_count(relations: Seq<CallRelation>) -> nat
    decreases relations.len(),
{
    if relations.len() == 0 {
        0
    } else {
        resolved_count(relations.drop_last()) + if relations.last().is_resolved {
            1nat
        } else {
            0nat
        }
    }
}

/// How many of `relations` are unresolved.
pub open spec fn unresolved_count(relations: Seq<CallRelation>) -> nat
    decreases relations.len(),
{
    if relations.len() == 0 {
        0
    } else {
        unresolved_count(relations.drop_last()) + if relations.last().is_resolved {
            0nat
        } else {
            1nat
        }
    }
}

/// Every edge is either resolved or unresolved.
pub proof fn lemma_resolved_partition(relations: Seq<CallRelation>)
    ensures
        resolved_count(relations) + unresolved_count(relations) == relations.len(),
    decreases relations.len(),
{
    if relations.len() > 0 {
        lemma_resolved_partition(relations.drop_last());
    }
}

/// A function as a node of a graph, with the number of edges that end and
/// that start in it.
#[derive(Debug)]
pub struct GraphNode {
    pub id: u128,
    pub function_info: FunctionInfo,
    pub in_degree: usize,
    pub out_degree: usize,
}

/// The kind of a relation between two functions.
#[derive(Debug, Clone, Copy, PartialEq, Eq, Structural)]
pub enum RelationType {
    Call,
    Import,
    Inherit,
    Implement,
}

/// A relation of some kind from one function to another.
#[derive(Debug, Clone, Copy)]
pub struct GraphRelation {
    pub source: u128,
    pub target: u128,
    pub relation_type: RelationType,
}

/// The aggregate numbers of a graph: functions, distinct files, distinct
/// languages, resolved and unresolved edges, and functions per language.
#[derive(Debug)]
pub struct CodeGraphStats {
    pub total_functions: usize,
    pub total_files: usize,
    pub total_languages: usize,
    pub resolved_calls: usize,
    pub unresolved_calls: usize,
    pub languages: Histogram,
}

/// What a `CodeGraphStats` says.
pub struct StatsView {
    pub total_functions: usize,
    pub total_files: usize,
    pub total_languages: usize,
    pub resolved_calls: usize,
    pub unresolved_calls: usize,
    pub languages: Map<Seq<char>, usize>,
    pub language_order: Seq<Seq<char>>,
}

impl View for CodeGraphStats {
    type V = StatsView;

    open spec fn view(&self) -> StatsView {
        StatsView {
            total_functions: self.total_functions,
            total_files: self.total_files,
            total_languages: self.total_languages,
            resolved_calls: self.resolved_calls,
            unresolved_calls: self.unresolved_calls,
            languages: self.languages@,
            language_order: self.languages.key_seq(),
        }
    }
}

impl Default for CodeGraphStats {
    fn default() -> (stats: Self)
        ensures
            stats.total_functions == 0,
            stats.total_files == 0,
            stats.total_languages == 0,
            stats.resolved_calls == 0,
            stats.unresolved_calls == 0,
            stats.languages@ == Map::<Seq<char>, usize>::empty(),
            stats.languages.key_seq() == Seq::<Seq<char>>::empty(),
            stats.languages.total() == 0,
    {
        let languages = Histogram::new();
        proof {
            languages.lemma_empty_total();
        }
        CodeGraphStats {
            total_functions: 0,
            total_files: 0,
            total_languages: 0,
            resolved_calls: 0,
            unresolved_calls: 0,
            languages,
        }
    }
}

impl Clone for CodeGraphStats {
    fn clone(&self) -> (copy: Self)
        ensures
            copy@ == self@,
            copy.languages.total() == self.languages.total(),
    {
        CodeGraphStats {
            total_functions: self.total_functions,
            total_files: self.total_files,
            total_languages: self.total_languages,
            resolved_calls: self.resolved_calls,
            unresolved_calls: self.unresolved_calls,
            languages: self.languages.duplicate(),
        }
    }
}

} // verus!
