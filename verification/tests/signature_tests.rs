use codegraph::parser::SymbolRecord;
use codegraph::parser::SymbolType;
use codegraph::signature::FunctionArg;
use codegraph::signature::FunctionDetails;
use codegraph::signature::LanguageId;
use codegraph::signature::TypeDef;
use codegraph::signature::build_basic_signature;
use codegraph::signature::build_fallback_signature;
use codegraph::signature::build_function_modifiers;
use codegraph::signature::build_namespace_prefix;
use codegraph::signature::build_nested_type_signature;
use codegraph::signature::build_param_signature;
use codegraph::signature::build_param_with_default;
use codegraph::signature::build_return_type;
use codegraph::signature::build_template_params;
use codegraph::signature::build_varargs_signature;
use codegraph::signature::validate_function_declaration;
use codegraph::CodeParser;
use uuid::Uuid;

fn create_test_function(
    name: &str,
    language: LanguageId,
    args: Vec<FunctionArg>,
    return_type: Option<TypeDef>,
) -> SymbolRecord {
    SymbolRecord {
        guid: Uuid::new_v4().as_u128(),
        name: name.to_string(),
        namespace: "test".to_string(),
        language: "".to_string(),
        language_id: language,
        symbol_type: SymbolType::FunctionDeclaration,
        start_row: 0,
        end_row: 0,
        details: Some(FunctionDetails { template_types: vec![], args, return_type }),
    }
}

fn create_mock_function(
    name: &str,
    language: LanguageId,
    args: Vec<FunctionArg>,
    return_type: Option<TypeDef>,
) -> SymbolRecord {
    create_test_function(name, language, args, return_type)
}

fn named(name: &str) -> TypeDef {
    TypeDef { name: Some(name.to_string()), ..Default::default() }
}

fn arg(name: &str, kind: Option<&str>) -> FunctionArg {
    FunctionArg { name: name.to_string(), type_: kind.map(named) }
}

#[test]
fn test_rust_function_signature() {
    let parser = CodeParser::new();

    let args = vec![
        FunctionArg {
            name: "x".to_string(),
            type_: Some(TypeDef { name: Some("i32".to_string()), ..Default::default() }),
        },
        FunctionArg {
            name: "y".to_string(),
            type_: Some(TypeDef { name: Some("String".to_string()), ..Default::default() }),
        },
    ];

    let return_type = Some(TypeDef { name: Some("bool".to_string()), ..Default::default() });

    let mock_symbol = create_mock_function("test_function", LanguageId::Rust, args, return_type);

    let signature = parser._extract_function_signature(&mock_symbol);
    assert!(signature.is_some());
    assert_eq!(signature.unwrap(), "fn test_function(x: i32, y: String) -> bool");
}

#[test]
fn test_python_function_signature() {
    let parser = CodeParser::new();

    let args = vec![
        FunctionArg {
            name: "name".to_string(),
            type_: Some(TypeDef { name: Some("str".to_string()), ..Default::default() }),
        },
        FunctionArg {
            name: "age".to_string(),
            type_: Some(TypeDef { name: Some("int".to_string()), ..Default::default() }),
        },
    ];

    let return_type = Some(TypeDef { name: Some("str".to_string()), ..Default::default() });

    let mock_symbol = create_mock_function("greet", LanguageId::Python, args, return_type);

    let signature = parser._extract_function_signature(&mock_symbol);
    assert!(signature.is_some());
    assert_eq!(signature.unwrap(), "def greet(name: str, age: int) -> str:");
}

#[test]
fn test_function_with_template_params() {
    let parser = CodeParser::new();

    let args = vec![FunctionArg {
        name: "value".to_string(),
        type_: Some(TypeDef { name: Some("T".to_string()), ..Default::default() }),
    }];

    let template_types = vec![TypeDef { name: Some("T".to_string()), ..Default::default() }];

    let mut mock_symbol = create_mock_function("process", LanguageId::Rust, args, None);
    mock_symbol.details.as_mut().unwrap().template_types = template_types;

    let signature = parser._extract_function_signature(&mock_symbol);
    assert!(signature.is_some());
    assert_eq!(signature.unwrap(), "fn process<T>(value: T)");
}

#[test]
fn test_function_with_empty_args() {
    let parser = CodeParser::new();

    let mock_symbol = create_mock_function("main", LanguageId::Rust, vec![], None);

    let signature = parser._extract_function_signature(&mock_symbol);
    assert!(signature.is_some());
    assert_eq!(signature.unwrap(), "fn main()");
}

#[test]
fn test_function_with_unknown_types() {
    let parser = CodeParser::new();

    let args = vec![FunctionArg { name: "param".to_string(), type_: None }];

    let mock_symbol = create_mock_function("unknown", LanguageId::Rust, args, None);

    let signature = parser._extract_function_signature(&mock_symbol);
    assert!(signature.is_some());
    assert_eq!(signature.unwrap(), "fn unknown(param: _)");
}

#[test]
fn test_safe_type_name() {
    let parser = CodeParser::new();

    let type_def = TypeDef { name: Some("String".to_string()), ..Default::default() };
    assert_eq!(parser._safe_type_name(&type_def), "String");

    let type_def = TypeDef {
        name: None,
        inference_info: Some("inferred_type".to_string()),
        ..Default::default()
    };
    assert_eq!(parser._safe_type_name(&type_def), "inferred_type");

    let type_def = TypeDef { name: None, inference_info: None, ..Default::default() };
    assert_eq!(parser._safe_type_name(&type_def), "unknown");
}

#[test]
fn test_escape_identifier() {
    let parser = CodeParser::new();

    assert_eq!(parser._escape_identifier("normal_name"), "normal_name");

    assert_eq!(parser._escape_identifier("name with spaces"), "name with spaces");
    assert_eq!(parser._escape_identifier("name\"with\"quotes"), "name\\\"with\\\"quotes");
}

#[test]
fn arguments_are_written_as_the_language_does() {
    let typed = arg("count", Some("int"));
    let untyped = arg("count", None);
    let nameless = arg("", Some("int"));
    assert_eq!(build_param_signature(&typed, LanguageId::Rust), "count: int");
    assert_eq!(build_param_signature(&untyped, LanguageId::Rust), "count: _");
    assert_eq!(build_param_signature(&nameless, LanguageId::Rust), "int");
    assert_eq!(build_param_signature(&typed, LanguageId::Cpp), "int count");
    assert_eq!(build_param_signature(&nameless, LanguageId::C), "int");
    assert_eq!(build_param_signature(&untyped, LanguageId::C), "void");
    assert_eq!(build_param_signature(&typed, LanguageId::Java), "int count");
    assert_eq!(build_param_signature(&untyped, LanguageId::Java), "Object");
    assert_eq!(build_param_signature(&typed, LanguageId::Python), "count: int");
    assert_eq!(build_param_signature(&untyped, LanguageId::Python), "count");
    assert_eq!(build_param_signature(&typed, LanguageId::TypeScript), "count: int");
    assert_eq!(build_param_signature(&typed, LanguageId::Go), "count int");
    assert_eq!(build_param_signature(&untyped, LanguageId::Go), "count");
    assert_eq!(build_param_signature(&typed, LanguageId::Other), "count: int");
    let inferred = FunctionArg {
        name: "x".to_string(),
        type_: Some(TypeDef { inference_info: Some("guess".to_string()), ..Default::default() }),
    };
    assert_eq!(build_param_signature(&inferred, LanguageId::JavaScript), "x: guess");
    let blank = FunctionArg { name: "x".to_string(), type_: Some(TypeDef::default()) };
    assert_eq!(build_param_signature(&blank, LanguageId::TypeScriptReact), "x: unknown");
}

#[test]
fn default_values_follow_the_argument() {
    let typed = arg("count", Some("int"));
    assert_eq!(build_param_with_default(&typed, LanguageId::Python, Some("3")), "count: int = 3");
    assert_eq!(build_param_with_default(&typed, LanguageId::TypeScriptReact, Some("3")), "count: int = 3");
    assert_eq!(
        build_param_with_default(&typed, LanguageId::Rust, Some("3")),
        "count: int /* default: 3 */"
    );
    assert_eq!(build_param_with_default(&typed, LanguageId::Go, None), "count int");
}

#[test]
fn signature_parts_are_exact() {

    assert_eq!(build_template_params(&vec![]), "");
    assert_eq!(build_template_params(&vec![TypeDef::default()]), "");
    assert_eq!(
        build_template_params(&vec![named("K"), TypeDef::default(), named("V")]),
        "<K, V>"
    );

    assert_eq!(build_return_type(&None, LanguageId::Rust), "");
    assert_eq!(build_return_type(&Some(named("u8")), LanguageId::Rust), " -> u8");
    assert_eq!(build_return_type(&Some(named("int")), LanguageId::Python), " -> int");
    assert_eq!(build_return_type(&Some(named("number")), LanguageId::TypeScript), ": number");
    assert_eq!(build_return_type(&Some(named("error")), LanguageId::Go), " error");
    assert_eq!(build_return_type(&Some(named("int")), LanguageId::Java), " -> int");

    assert_eq!(build_function_modifiers(LanguageId::Java), "public ");
    assert_eq!(build_function_modifiers(LanguageId::Cpp), "virtual ");
    assert_eq!(build_function_modifiers(LanguageId::C), "");

    assert_eq!(build_namespace_prefix(""), "");
    assert_eq!(build_namespace_prefix("global"), "");
    assert_eq!(build_namespace_prefix("core"), "core::");

    assert_eq!(build_basic_signature("run", LanguageId::Go), Some("func run(...)".to_string()));
    assert_eq!(build_basic_signature("say\"it", LanguageId::Java), Some("say\"it(...)".to_string()));
    assert_eq!(build_fallback_signature("say\"it", LanguageId::JavaScript), "function say\\\"it(...)");
    assert_eq!(build_fallback_signature("it's", LanguageId::Python), "def it\\'s(...)");

    let args = vec![arg("a", Some("int")), arg("b", None)];
    assert_eq!(build_varargs_signature(&args, LanguageId::Python), "a: int, b, *args, **kwargs");
    assert_eq!(build_varargs_signature(&args, LanguageId::JavaScript), "a: int, b, ...args");
    assert_eq!(build_varargs_signature(&args, LanguageId::Rust), "a: int, b: _, ...");
    assert_eq!(build_varargs_signature(&args, LanguageId::Java), "int a, Object");
    assert_eq!(build_varargs_signature(&vec![], LanguageId::Python), "");

    assert!(validate_function_declaration("f", &args));
    assert!(!validate_function_declaration("", &args));
    let twice = vec![arg("a", None), arg("", None), arg("", None), arg("a", Some("int"))];
    assert!(!validate_function_declaration("f", &twice));
    let blanks = vec![arg("", None), arg("", None)];
    assert!(validate_function_declaration("f", &blanks));

    let nested = TypeDef {
        name: Some("Map".to_string()),
        inference_info: None,
        nested_types: vec![
            named("String"),
            TypeDef {
                name: Some("Vec".to_string()),
                inference_info: None,
                nested_types: vec![named("u8")],
            },
        ],
    };
    assert_eq!(build_nested_type_signature(&nested), "Map<String, Vec<u8>>");
    assert_eq!(build_nested_type_signature(&named("u8")), "u8");
}

#[test]
fn unsound_declaration_gets_the_fallback() {
    let parser = CodeParser::new();
    let symbol = create_test_function(
        "clash",
        LanguageId::Java,
        vec![arg("a", Some("int")), arg("a", Some("long"))],
        Some(named("int")),
    );
    assert_eq!(parser._extract_function_signature(&symbol), Some("clash(...)".to_string()));
    let sound = create_test_function("add", LanguageId::Java, vec![arg("a", Some("int"))], Some(named("int")));
    assert_eq!(
        parser._extract_function_signature(&sound),
        Some("public add(int a) -> int".to_string())
    );
    let generic = create_test_function("go", LanguageId::Go, vec![arg("n", Some("int"))], Some(named("error")));
    assert_eq!(parser._extract_function_signature(&generic), Some("func go(n int) error".to_string()));
    assert_eq!(parser._extract_return_type(&generic), Some("error".to_string()));
    assert_eq!(parser._extract_parameters(&generic).len(), 1);
}
