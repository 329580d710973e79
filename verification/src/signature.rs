//! The display signature of a declaration: its text as a reader of the
//! declaring language would write it, built from the name, the arguments and
//! the return type that the symbol source gives.
use vstd::prelude::*;
use crate::seq_util::joined;
use crate::seq_util::lemma_filter_empty;
use crate::seq_util::lemma_filter_step;
use crate::seq_util::lemma_joined_empty;
use crate::seq_util::lemma_joined_step;
use crate::seq_util::lemma_take_all;
use crate::text::join_with;
use crate::text::joined_with;
use crate::text::push_char;
use crate::text::str_eq;
use crate::text::views_of;

verus! {

/// The languages that the symbol source tells apart.
#[derive(Debug, Clone, Copy, PartialEq, Eq, Structural)]
pub enum LanguageId {
    Rust,
    Python,
    JavaScript,
    TypeScript,
    TypeScriptReact,
    Go,
    Cpp,
    C,
    Java,
    Other,
}

/// A type as the symbol source gives it: its name where it has one, what
/// was inferred of it otherwise, and the types nested in it.
#[derive(Debug)]
pub struct TypeDef {
    pub name: Option<String>,
    pub inference_info: Option<String>,
    pub nested_types: Vec<TypeDef>,
}

impl Default for TypeDef {
    fn default() -> (type_def: Self)
        ensures
            type_def.name is None,
            type_def.inference_info is None,
            type_def.nested_types@.len() == 0,
    {
        TypeDef { name: None, inference_info: None, nested_types: Vec::new() }
    }
}

/// An argument of a declaration: its name, and its type where one is given.
#[derive(Debug)]
pub struct FunctionArg {
    pub name: String,
    pub type_: Option<TypeDef>,
}

/// What a declaration says beyond its name: the types it is generic over,
/// its arguments and its return type.
#[derive(Debug)]
pub struct FunctionDetails {
    pub template_types: Vec<TypeDef>,
    pub args: Vec<FunctionArg>,
    pub return_type: Option<TypeDef>,
}

/// The word that opens a declaration in `language`.
pub open spec fn keyword(language: LanguageId) -> Seq<char> {
    match language {
        LanguageId::Rust => "fn "@,
        LanguageId::Python => "def "@,
        LanguageId::JavaScript | LanguageId::TypeScript | LanguageId::TypeScriptReact => "function "@,
        LanguageId::Go => "func "@,
        _ => ""@,
    }
}

/// The text of a type: its name, else what was inferred of it, else
/// `unknown`.
pub open spec fn type_text(type_def: TypeDef) -> Seq<char> {
    match type_def.name {
        Some(name) => name@,
        None => match type_def.inference_info {
            Some(info) => info@,
            None => "unknown"@,
        },
    }
}

/// The text of a type with the types nested in it, in angle brackets with
/// commas between them.
pub open spec fn nested_text(type_def: TypeDef) -> Seq<char>
    decreases type_def, 1nat,
{
    type_text(type_def) + if type_def.nested_types@.len() > 0 {
        "<"@ + joined_with(nested_texts(type_def, type_def.nested_types@.len()), ", "@) + ">"@
    } else {
        Seq::empty()
    }
}

/// The texts of the first `count` types nested in `type_def`.
pub open spec fn nested_texts(type_def: TypeDef, count: nat) -> Seq<Seq<char>>
    decreases type_def, 0nat, count,
{
    if count == 0 || count > type_def.nested_types@.len() {
        Seq::empty()
    } else {
        nested_texts(type_def, (count - 1) as nat).push(
            nested_text(type_def.nested_types@[count - 1]),
        )
    }
}

/// The text of an optional type after `lead`; nothing without a type.
pub open spec fn led_type(lead: Seq<char>, type_: Option<TypeDef>) -> Seq<char> {
    match type_ {
        Some(type_def) => lead + type_text(type_def),
        None => Seq::empty(),
    }
}

/// The text of a name after `lead`; nothing for an empty name.
pub open spec fn led_name(lead: Seq<char>, name: Seq<char>) -> Seq<char> {
    if name.len() > 0 {
        lead + name
    } else {
        Seq::empty()
    }
}

/// The text of an argument as `language` writes it.
pub open spec fn param_text(arg: FunctionArg, language: LanguageId) -> Seq<char> {
    match language {
        LanguageId::Rust => (if arg.name@.len() > 0 {
            arg.name@ + ": "@
        } else {
            Seq::empty()
        }) + (match arg.type_ {
            Some(type_def) => type_text(type_def),
            None => "_"@,
        }),
        LanguageId::Cpp | LanguageId::C => match arg.type_ {
            Some(type_def) => type_text(type_def) + led_name(" "@, arg.name@),
            None => "void"@,
        },
        LanguageId::Java => match arg.type_ {
            Some(type_def) => type_text(type_def) + led_name(" "@, arg.name@),
            None => "Object"@,
        },
        LanguageId::Go => arg.name@ + led_type(" "@, arg.type_),
        _ => arg.name@ + led_type(": "@, arg.type_),
    }
}

/// The text of an argument with its default value, as `language` writes it.
pub open spec fn param_with_default_text(
    arg: FunctionArg,
    language: LanguageId,
    default_value: Option<Seq<char>>,
) -> Seq<char> {
    param_text(arg, language) + (match default_value {
        Some(value) => match language {
            LanguageId::Python
            | LanguageId::JavaScript
            | LanguageId::TypeScript
            | LanguageId::TypeScriptReact => " = "@ + value,
            _ => " /* default: "@ + value + " */"@,
        },
        None => Seq::empty(),
    })
}

/// The texts of the arguments `args`, in order.
pub open spec fn param_texts(args: Seq<FunctionArg>, language: LanguageId) -> Seq<Seq<char>> {
    Seq::new(args.len(), |i: int| param_text(args[i], language))
}

/// What `language` writes after the arguments for arguments beyond them.
pub open spec fn variadic_texts(language: LanguageId) -> Seq<Seq<char>> {
    match language {
        LanguageId::Python => seq!["*args"@, "**kwargs"@],
        LanguageId::JavaScript | LanguageId::TypeScript | LanguageId::TypeScriptReact => seq![
            "...args"@,
        ],
        LanguageId::Rust => seq!["..."@],
        _ => Seq::empty(),
    }
}

/// The texts of the arguments `args`, followed by what stands for further
/// arguments where there is an argument at all, with commas between them.
pub open spec fn varargs_text(args: Seq<FunctionArg>, language: LanguageId) -> Seq<char> {
    if args.len() == 0 {
        Seq::empty()
    } else {
        joined_with(param_texts(args, language) + variadic_texts(language), ", "@)
    }
}

/// The names of those of `types` that have one, in order.
pub open spec fn type_names(types: Seq<TypeDef>) -> Seq<Seq<char>> {
    types.filter(|t: TypeDef| t.name is Some).map_values(|t: TypeDef| t.name->0@)
}

/// The types that a declaration is generic over, in angle brackets; nothing
/// where none of them has a name.
pub open spec fn template_text(types: Seq<TypeDef>) -> Seq<char> {
    if type_names(types).len() == 0 {
        Seq::empty()
    } else {
        "<"@ + joined_with(type_names(types), ", "@) + ">"@
    }
}

/// The return type as `language` writes it after the arguments.
pub open spec fn return_text(return_type: Option<TypeDef>, language: LanguageId) -> Seq<char> {
    match language {
        LanguageId::JavaScript | LanguageId::TypeScript | LanguageId::TypeScriptReact => led_type(
            ": "@,
            return_type,
        ),
        LanguageId::Go => led_type(" "@, return_type),
        _ => led_type(" -> "@, return_type),
    }
}

/// A declaration is sound when it has a name and no two of its arguments
/// share a name that is not empty.
pub open spec fn sound_declaration(name: Seq<char>, args: Seq<FunctionArg>) -> bool {
    &&& name.len() > 0
    &&& forall|i: int, j: int|
        0 <= i < j < args.len() && (#[trigger] args[i]).name@.len() > 0 ==> args[i].name@
            != (#[trigger] args[j]).name@
}

/// The text of one character of an identifier: a quotation mark of either
/// kind gets a backslash in front.
pub open spec fn escaped_char(c: char) -> Seq<char> {
    if c == '"' {
        "\\\""@
    } else if c == '\'' {
        "\\'"@
    } else {
        seq![c]
    }
}

/// An identifier with a backslash in front of every quotation mark.
pub open spec fn escaped(identifier: Seq<char>) -> Seq<char> {
    joined(identifier, |c: char| escaped_char(c))
}

/// What `language` writes in front of the keyword of every declaration.
pub open spec fn modifier_text(language: LanguageId) -> Seq<char> {
    match language {
        LanguageId::Java => "public "@,
        LanguageId::Cpp => "virtual "@,
        _ => ""@,
    }
}

/// The namespace with two colons after it; nothing for no namespace and for
/// the global one.
pub open spec fn namespace_text(namespace: Seq<char>) -> Seq<char> {
    if namespace.len() > 0 && namespace != "global"@ {
        namespace + "::"@
    } else {
        Seq::empty()
    }
}

/// The signature of a declaration of which only the name is known.
pub open spec fn basic_signature(name: Seq<char>, language: LanguageId) -> Seq<char> {
    keyword(language) + name + "(...)"@
}

/// The signature of a declaration that is not sound.
pub open spec fn fallback_signature(name: Seq<char>, language: LanguageId) -> Seq<char> {
    keyword(language) + escaped(name) + "(...)"@
}

/// The colon that closes the head of a Python declaration.
pub open spec fn closing_text(language: LanguageId) -> Seq<char> {
    if language == LanguageId::Python {
        ":"@
    } else {
        Seq::empty()
    }
}

/// The signature of a declaration: modifiers, keyword, name, the types it
/// is generic over, the arguments in parentheses with commas between them,
/// and the return type. A declaration that is not sound gets the fallback.
pub open spec fn complete_signature(name: Seq<char>, language: LanguageId, details: FunctionDetails) -> Seq<
    char,
> {
    if !sound_declaration(name, details.args@) {
        fallback_signature(name, language)
    } else {
        modifier_text(language) + keyword(language) + escaped(name) + template_text(
            details.template_types@,
        ) + "("@ + joined_with(param_texts(details.args@, language), ", "@) + ")"@ + return_text(
            details.return_type,
            language,
        ) + closing_text(language)
    }
}

/// The word that opens a declaration in `language`.
pub fn keyword_of(language: LanguageId) -> (out: &'static str)
    ensures
        out@ == keyword(language),
{
    match language {
        LanguageId::Rust => "fn ",
        LanguageId::Python => "def ",
        LanguageId::JavaScript | LanguageId::TypeScript | LanguageId::TypeScriptReact => "function ",
        LanguageId::Go => "func ",
        _ => "",
    }
}

/// The text of a type.
pub fn safe_type_name(type_def: &TypeDef) -> (out: String)
    ensures
        out@ == type_text(*type_def),
{
    match &type_def.name {
        Some(name) => name.clone(),
        None => match &type_def.inference_info {
            Some(info) => info.clone(),
            None => String::from_str("unknown"),
        },
    }
}

/// The text of a type with the types nested in it.
pub fn build_nested_type_signature(type_def: &TypeDef) -> (out: String)
    ensures
        out@ == nested_text(*type_def),
    decreases type_def,
{
    let mut signature = safe_type_name(type_def);
    if type_def.nested_types.len() > 0 {
        let mut nested: Vec<String> = Vec::new();
        let mut i: usize = 0;
        assert(views_of(nested@) =~= nested_texts(*type_def, 0));
        while i < type_def.nested_types.len()
            invariant
                i <= type_def.nested_types@.len(),
                views_of(nested@) == nested_texts(*type_def, i as nat),
            decreases type_def.nested_types@.len() - i,
        {
            let ghost held = views_of(nested@);
            let text = build_nested_type_signature(&type_def.nested_types[i]);
            nested.push(text);
            i += 1;
            assert(views_of(nested@) =~= held.push(text@));
        }
        let mut tail = String::from_str("<");
        tail.append(join_with(&nested, ", ").as_str());
        tail.append(">");
        signature.append(tail.as_str());
    } else {
        assert(signature@ =~= signature@ + Seq::<char>::empty());
    }
    signature
}

/// Appends the text of an optional type after `lead`.
fn push_led_type(out: &mut String, lead: &str, type_: &Option<TypeDef>)
    ensures
        final(out)@ == old(out)@ + led_type(lead@, *type_),
{
    match type_ {
        Some(type_def) => {
            let mut piece = String::from_str(lead);
            piece.append(safe_type_name(type_def).as_str());
            out.append(piece.as_str());
        },
        None => {
            assert(out@ =~= out@ + Seq::<char>::empty());
        },
    }
}

/// Appends the text of a name after `lead`.
fn push_led_name(out: &mut String, lead: &str, name: &str)
    ensures
        final(out)@ == old(out)@ + led_name(lead@, name@),
{
    if name.unicode_len() > 0 {
        let mut piece = String::from_str(lead);
        piece.append(name);
        out.append(piece.as_str());
    } else {
        assert(out@ =~= out@ + Seq::<char>::empty());
    }
}

/// The text of an argument as `language` writes it.
pub fn build_param_signature(arg: &FunctionArg, language: LanguageId) -> (param: String)
    ensures
        param@ == param_text(*arg, language),
{
    let mut param = String::new();
    match language {
        LanguageId::Rust => {
            if arg.name.as_str().unicode_len() > 0 {
                param.append(arg.name.as_str());
                param.append(": ");
            }
            match &arg.type_ {
                Some(type_def) => {
                    param.append(safe_type_name(type_def).as_str());
                },
                None => {
                    param.append("_");
                },
            }
            assert(param@ =~= param_text(*arg, language));
        },
        LanguageId::Cpp | LanguageId::C => {
            match &arg.type_ {
                Some(type_def) => {
                    param.append(safe_type_name(type_def).as_str());
                    push_led_name(&mut param, " ", arg.name.as_str());
                },
                None => {
                    param.append("void");
                },
            }
            assert(param@ =~= param_text(*arg, language));
        },
        LanguageId::Java => {
            match &arg.type_ {
                Some(type_def) => {
                    param.append(safe_type_name(type_def).as_str());
                    push_led_name(&mut param, " ", arg.name.as_str());
                },
                None => {
                    param.append("Object");
                },
            }
            assert(param@ =~= param_text(*arg, language));
        },
        LanguageId::Go => {
            param.append(arg.name.as_str());
            push_led_type(&mut param, " ", &arg.type_);
            assert(param@ =~= param_text(*arg, language));
        },
        _ => {
            param.append(arg.name.as_str());
            push_led_type(&mut param, ": ", &arg.type_);
            assert(param@ =~= param_text(*arg, language));
        },
    }
    param
}

/// The text of an argument with its default value, as `language` writes it.
pub fn build_param_with_default(
    arg: &FunctionArg,
    language: LanguageId,
    default_value: Option<&str>,
) -> (param: String)
    ensures
        param@ == param_with_default_text(
            *arg,
            language,
            match default_value {
                Some(value) => Some(value@),
                None => None,
            },
        ),
{
    let mut param = build_param_signature(arg, language);
    match default_value {
        Some(value) => {
            let mut tail = String::new();
            match language {
                LanguageId::Python
                | LanguageId::JavaScript
                | LanguageId::TypeScript
                | LanguageId::TypeScriptReact => {
                    tail.append(" = ");
                    tail.append(value);
                    assert(tail@ =~= " = "@ + value@);
                },
                _ => {
                    tail.append(" /* default: ");
                    tail.append(value);
                    tail.append(" */");
                    assert(tail@ =~= " /* default: "@ + value@ + " */"@);
                },
            }
            param.append(tail.as_str());
        },
        None => {
            assert(param@ =~= param@ + Seq::<char>::empty());
        },
    }
    param
}

/// The texts of the arguments `args`, in order.
fn param_list(args: &Vec<FunctionArg>, language: LanguageId) -> (params: Vec<String>)
    ensures
        views_of(params@) == param_texts(args@, language),
{
    let mut params: Vec<String> = Vec::new();
    let mut i: usize = 0;
    while i < args.len()
        invariant
            i <= args@.len(),
            params@.len() == i,
            forall|k: int| 0 <= k < i ==> (#[trigger] params@[k])@ == param_text(args@[k], language),
        decreases args@.len() - i,
    {
        params.push(build_param_signature(&args[i], language));
        i += 1;
    }
    assert(views_of(params@) =~= param_texts(args@, language));
    params
}

/// The texts of the arguments `args`, followed by what stands for further
/// arguments where there is an argument at all, with commas between them.
pub fn build_varargs_signature(args: &Vec<FunctionArg>, language: LanguageId) -> (out: String)
    ensures
        out@ == varargs_text(args@, language),
{
    let mut params = param_list(args, language);
    let ghost plain = views_of(params@);
    if params.len() > 0 {
        match language {
            LanguageId::Python => {
                params.push(String::from_str("*args"));
                params.push(String::from_str("**kwargs"));
            },
            LanguageId::JavaScript | LanguageId::TypeScript | LanguageId::TypeScriptReact => {
                params.push(String::from_str("...args"));
            },
            LanguageId::Rust => {
                params.push(String::from_str("..."));
            },
            _ => {},
        }
        assert(views_of(params@) =~= plain + variadic_texts(language));
        join_with(&params, ", ")
    } else {
        String::new()
    }
}

/// The types that a declaration is generic over, in angle brackets.
pub fn build_template_params(template_types: &Vec<TypeDef>) -> (out: String)
    ensures
        out@ == template_text(template_types@),
{
    let mut names: Vec<String> = Vec::new();
    let ghost named = |t: TypeDef| t.name is Some;
    let ghost name_of = |t: TypeDef| t.name->0@;
    let mut i: usize = 0;
    proof {
        lemma_filter_empty(template_types@.take(0), named);
        assert(views_of(names@) =~= template_types@.take(0).filter(named).map_values(name_of));
    }
    while i < template_types.len()
        invariant
            i <= template_types@.len(),
            named == |t: TypeDef| t.name is Some,
            name_of == |t: TypeDef| t.name->0@,
            views_of(names@) == template_types@.take(i as int).filter(named).map_values(name_of),
        decreases template_types@.len() - i,
    {
        proof {
            lemma_filter_step(template_types@, i as int, named);
        }
        let ghost held = views_of(names@);
        match &template_types[i].name {
            Some(name) => {
                names.push(name.clone());
                proof {
                    assert(views_of(names@) =~= held.push(name@));
                    assert(template_types@.take(i + 1).filter(named).map_values(name_of)
                        =~= template_types@.take(i as int).filter(named).map_values(name_of).push(
                        name@,
                    ));
                }
            },
            None => {},
        }
        i += 1;
    }
    proof {
        lemma_take_all(template_types@);
    }
    if names.len() == 0 {
        String::new()
    } else {
        let mut out = String::from_str("<");
        out.append(join_with(&names, ", ").as_str());
        out.append(">");
        out
    }
}

/// The return type as `language` writes it after the arguments.
pub fn build_return_type(return_type: &Option<TypeDef>, language: LanguageId) -> (out: String)
    ensures
        out@ == return_text(*return_type, language),
{
    let mut out = String::new();
    match language {
        LanguageId::JavaScript | LanguageId::TypeScript | LanguageId::TypeScriptReact => {
            push_led_type(&mut out, ": ", return_type);
        },
        LanguageId::Go => {
            push_led_type(&mut out, " ", return_type);
        },
        _ => {
            push_led_type(&mut out, " -> ", return_type);
        },
    }
    assert(out@ =~= return_text(*return_type, language));
    out
}

/// Whether a declaration has a name and no two of its arguments share a
/// name that is not empty.
pub fn validate_function_declaration(name: &str, args: &Vec<FunctionArg>) -> (sound: bool)
    ensures
        sound == sound_declaration(name@, args@),
{
    if name.unicode_len() == 0 {
        return false;
    }
    let mut j: usize = 0;
    while j < args.len()
        invariant
            j <= args@.len(),
            name@.len() > 0,
            forall|a: int, b: int|
                0 <= a < b < j && (#[trigger] args@[a]).name@.len() > 0 ==> args@[a].name@
                    != (#[trigger] args@[b]).name@,
        decreases args@.len() - j,
    {
        let mut i: usize = 0;
        while i < j
            invariant
                i <= j < args@.len(),
                forall|a: int|
                    0 <= a < i && (#[trigger] args@[a]).name@.len() > 0 ==> args@[a].name@
                        != args@[j as int].name@,
            decreases j - i,
        {
            if args[i].name.as_str().unicode_len() > 0 && str_eq(
                args[i].name.as_str(),
                args[j].name.as_str(),
            ) {
                return false;
            }
            i += 1;
        }
        j += 1;
    }
    true
}

/// An identifier with a backslash in front of every quotation mark.
pub fn escape_identifier(identifier: &str) -> (out: String)
    ensures
        out@ == escaped(identifier@),
{
    let count = identifier.unicode_len();
    let ghost part = |c: char| escaped_char(c);
    let mut out = String::new();
    let mut i: usize = 0;
    proof {
        lemma_joined_empty(identifier@.take(0), part);
    }
    while i < count
        invariant
            i <= count,
            count == identifier@.len(),
            part == |c: char| escaped_char(c),
            out@ == joined(identifier@.take(i as int), part),
        decreases count - i,
    {
        proof {
            lemma_joined_step(identifier@, i as int, part);
        }
        let c = identifier.get_char(i);
        if c == '"' {
            out.append("\\\"");
        } else if c == '\'' {
            out.append("\\'");
        } else {
            push_char(&mut out, c);
            assert(out@ =~= joined(identifier@.take(i as int), part) + seq![c]);
        }
        i += 1;
    }
    proof {
        lemma_take_all(identifier@);
    }
    out
}

/// What `language` writes in front of the keyword of every declaration.
pub fn build_function_modifiers(language: LanguageId) -> (out: String)
    ensures
        out@ == modifier_text(language),
{
    match language {
        LanguageId::Java => String::from_str("public "),
        LanguageId::Cpp => String::from_str("virtual "),
        _ => String::from_str(""),
    }
}

/// The namespace with two colons after it; nothing for no namespace and for
/// the global one.
pub fn build_namespace_prefix(namespace: &str) -> (out: String)
    ensures
        out@ == namespace_text(namespace@),
{
    if namespace.unicode_len() > 0 && !str_eq(namespace, "global") {
        let mut out = String::from_str(namespace);
        out.append("::");
        out
    } else {
        String::new()
    }
}

/// The signature of a declaration of which only the name is known.
pub fn build_basic_signature(name: &str, language: LanguageId) -> (out: Option<String>)
    ensures
        out matches Some(text) && text@ == basic_signature(name@, language),
{
    let mut signature = String::from_str(keyword_of(language));
    signature.append(name);
    signature.append("(...)");
    Some(signature)
}

/// The signature of a declaration that is not sound.
pub fn build_fallback_signature(name: &str, language: LanguageId) -> (out: String)
    ensures
        out@ == fallback_signature(name@, language),
{
    let mut signature = String::from_str(keyword_of(language));
    signature.append(escape_identifier(name).as_str());
    signature.append("(...)");
    signature
}

/// The signature of a declaration.
pub fn build_complete_signature(name: &str, language: LanguageId, details: &FunctionDetails) -> (out:
    String)
    ensures
        out@ == complete_signature(name@, language, *details),
{
    if !validate_function_declaration(name, &details.args) {
        return build_fallback_signature(name, language);
    }
    let params = param_list(&details.args, language);
    let mut signature = build_function_modifiers(language);
    signature.append(keyword_of(language));
    signature.append(escape_identifier(name).as_str());
    signature.append(build_template_params(&details.template_types).as_str());
    signature.append("(");
    signature.append(join_with(&params, ", ").as_str());
    signature.append(")");
    signature.append(build_return_type(&details.return_type, language).as_str());
    match language {
        LanguageId::Python => {
            signature.append(":");
        },
        _ => {
            assert(signature@ =~= signature@ + Seq::<char>::empty());
        },
    }
    signature
}

} // verus!
