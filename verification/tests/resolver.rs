use datalang::frontend::parser::{Block, DataVariant, Parser};
use datalang::frontend::table::{FunctionTable, Table};
use datalang::frontend::tokenizer::Tokenizer;
use datalang::frontend::{
    construct_data_representation, construct_main_representation, Code, EnumVariantFormat,
    GenericFormat, Namespace, ResolveError, Scope, ScopeRef, Type,
};

fn parse(text: &str) -> Block {
    let tokens = Tokenizer::new(text.chars().collect()).tokenize().unwrap();
    Parser::new(tokens).parse_block().unwrap()
}

fn resolve(text: &str) -> Result<Code, ResolveError> {
    let scope = Scope::new();
    construct_main_representation(&parse(text), ScopeRef::new(&scope))
}

fn s(text: &str) -> String {
    text.to_string()
}

fn unresolved(name: &str) -> ResolveError {
    ResolveError::UnresolvedType { name: s(name) }
}

fn duplicate(namespace: Namespace, name: &str) -> ResolveError {
    ResolveError::DuplicateName { namespace, name: s(name) }
}

fn with_integer() -> Scope {
    let mut scope = Scope::new();
    assert_eq!(scope.types.insert(s("Int"), Type::Integer), Some(0));
    scope
}

#[test]
fn a_type_may_be_used_before_it_is_declared() {
    let code = resolve("data A(B); data B;").unwrap();
    let types = &code.scope.types;
    assert_eq!(types.len(), 2);
    assert_eq!(types.entry(0).name, "A");
    assert_eq!(
        types.entry(0).value,
        Type::User { format: GenericFormat::Unnamed { fields: vec![s("B")] } }
    );
    assert_eq!(types.entry(1).name, "B");
    assert_eq!(types.entry(1).value, Type::User { format: GenericFormat::Marker });
}

#[test]
fn a_type_may_refer_to_itself() {
    assert!(resolve("data List{ Nil, Cons(List) }").is_ok());
}

#[test]
fn a_type_declared_twice_is_refused() {
    assert_eq!(resolve("data X; data X;"), Err(duplicate(Namespace::Type, "X")));
}

#[test]
fn an_unknown_type_is_refused() {
    assert_eq!(resolve("data A(Ghost);"), Err(unresolved("Ghost")));
    assert_eq!(resolve("data A{x: Ghost}"), Err(unresolved("Ghost")));
    assert_eq!(resolve("data A{V(Ghost)}"), Err(unresolved("Ghost")));
}

#[test]
fn a_field_declared_twice_is_refused() {
    assert_eq!(resolve("data A; data P{x: A, x: A}"), Err(duplicate(Namespace::Field, "x")));
    assert_eq!(
        resolve("data A; data E{V{x: A, y: A, x: A}}"),
        Err(duplicate(Namespace::Field, "x"))
    );
}

#[test]
fn a_variant_declared_twice_is_refused() {
    assert_eq!(resolve("data E{A, B, A}"), Err(duplicate(Namespace::Variant, "A")));
}

#[test]
fn a_function_declared_twice_is_refused() {
    assert_eq!(resolve("fn f() { } fn f() { }"), Err(duplicate(Namespace::Function, "f")));
}

#[test]
fn the_first_broken_rule_is_the_error() {
    assert_eq!(resolve("data P{x: Ghost, x: Ghost}"), Err(unresolved("Ghost")));
    assert_eq!(resolve("data X(Ghost); data X;"), Err(unresolved("Ghost")));
    assert_eq!(resolve("data X; data X(Ghost);"), Err(unresolved("Ghost")));
    assert_eq!(
        resolve("fn f() { } fn f() { } data X; data X;"),
        Err(duplicate(Namespace::Type, "X"))
    );
    assert_eq!(
        resolve("fn f() { data A(Ghost); } fn f() { }"),
        Err(unresolved("Ghost"))
    );
}

#[test]
fn a_function_sees_the_types_around_it() {
    let code = resolve("fn f() { data Local(Outer); fn g() { data Deep(Outer, Local); } } data Outer;")
        .unwrap();
    let functions = &code.scope.functions;
    assert_eq!(functions.len(), 1);
    assert_eq!(functions.entry(0).id, 0);
    assert_eq!(functions.entry(0).name, "f");
    let inner = &functions.entry(0).value.code.scope;
    assert_eq!(inner.types.len(), 1);
    assert_eq!(inner.types.entry(0).name, "Local");
    assert_eq!(inner.functions.len(), 1);
    assert_eq!(inner.functions.entry(0).name, "g");
}

#[test]
fn a_block_does_not_see_into_its_functions() {
    assert_eq!(resolve("fn f() { data Local; } data A(Local);"), Err(unresolved("Local")));
    assert_eq!(
        resolve("fn f() { data Local; } fn g() { data B(Local); }"),
        Err(unresolved("Local"))
    );
}

#[test]
fn a_type_of_an_outer_scope_is_known() {
    let outer = with_integer();
    let code = construct_main_representation(&parse("data Pair(Int, Int);"), ScopeRef::new(&outer))
        .unwrap();
    assert_eq!(
        code.scope.types.entry(0).value,
        Type::User { format: GenericFormat::Unnamed { fields: vec![s("Int"), s("Int")] } }
    );
    assert_eq!(resolve("data Pair(Int, Int);"), Err(unresolved("Int")));
}

#[test]
fn a_type_may_be_declared_again_inside_a_function() {
    assert!(resolve("data A; fn f() { data A; }").is_ok());
}

#[test]
fn a_sum_type_has_no_fields_of_its_own() {
    let code = resolve("data A; data E{ M, T(A), S{x: A} }").unwrap();
    let mut variants: Table<EnumVariantFormat> = Table::new();
    assert_eq!(variants.insert(s("M"), GenericFormat::Marker), Some(0));
    assert_eq!(variants.insert(s("T"), GenericFormat::Unnamed { fields: vec![s("A")] }), Some(1));
    let mut fields: Table<String> = Table::new();
    assert_eq!(fields.insert(s("x"), s("A")), Some(0));
    assert_eq!(variants.insert(s("S"), GenericFormat::Named { fields, variants: () }), Some(2));
    assert_eq!(
        code.scope.types.entry(1).value,
        Type::User { format: GenericFormat::Named { fields: Table::new(), variants } }
    );
}

#[test]
fn an_empty_block_declares_nothing() {
    assert_eq!(
        resolve(""),
        Ok(Code { scope: Scope { types: Table::new(), functions: FunctionTable::new() } })
    );
}

#[test]
fn statements_that_declare_nothing_are_passed_over() {
    let code = resolve("let x: Anything = 1; data A;").unwrap();
    assert_eq!(code.scope.types.len(), 1);
    assert_eq!(code.scope.functions.len(), 0);
}

#[test]
fn resolves_one_variant() {
    let outer = with_integer();
    let names = vec![s("Local")];
    let variant = DataVariant::Struct {
        name: s("P"),
        fields: vec![(s("x"), s("Int")), (s("y"), s("Local"))],
    };
    let (name, format) =
        construct_data_representation(&variant, ScopeRef::new(&outer), &names, 7u8).unwrap();
    assert_eq!(name, "P");
    let mut fields: Table<String> = Table::new();
    fields.insert(s("x"), s("Int"));
    fields.insert(s("y"), s("Local"));
    assert_eq!(format, GenericFormat::Named { fields, variants: 7u8 });

    let marker = DataVariant::Marker { name: s("M") };
    assert_eq!(
        construct_data_representation(&marker, ScopeRef::new(&outer), &names, ()),
        Ok((s("M"), GenericFormat::Marker))
    );
    let tuple = DataVariant::Tuple { name: s("T"), fields: vec![s("Local"), s("Missing")] };
    assert_eq!(
        construct_data_representation(&tuple, ScopeRef::new(&outer), &names, ()),
        Err(unresolved("Missing"))
    );
}

#[test]
fn a_chain_sees_all_of_its_scopes() {
    let outer = with_integer();
    let mut middle = Scope::new();
    middle.types.insert(s("M"), Type::Integer);
    let mut local = Scope::new();
    local.types.insert(s("L"), Type::Integer);
    let first = ScopeRef::new(&outer);
    let second = first.enter(&middle);
    let third = second.enter(&local);
    assert!(third.has_type(&s("Int")));
    assert!(third.has_type(&s("M")));
    assert!(third.has_type(&s("L")));
    assert!(!third.has_type(&s("X")));
    assert!(second.has_type(&s("M")));
    assert!(!second.has_type(&s("L")));
    assert!(!first.has_type(&s("M")));
}

#[test]
fn a_table_issues_dense_identifiers_and_keeps_the_first_entry() {
    let mut table: Table<u8> = Table::new();
    assert!(table.is_empty());
    assert_eq!(table.insert(s("a"), 1), Some(0));
    assert_eq!(table.insert(s("b"), 2), Some(1));
    assert_eq!(table.insert(s("a"), 3), None);
    assert_eq!(table.insert(s("c"), 4), Some(2));
    assert_eq!(table.len(), 3);
    assert!(!table.is_empty());
    assert_eq!(table.position(&s("a")), Some(0));
    assert_eq!(table.position(&s("c")), Some(2));
    assert_eq!(table.position(&s("d")), None);
    assert!(table.contains_key(&s("b")));
    assert!(!table.contains_key(&s("d")));
    assert_eq!(table.entry(0).value, 1);
    assert_eq!(table.entry(0).id, 0);
    assert_eq!(table.entry(2).id, 2);
    assert_eq!(table.entry(2).name, "c");
}

#[test]
fn format_ref_is_the_format_of_a_user_type() {
    assert_eq!(Type::Integer.format_ref(), None);
    let user = Type::User { format: GenericFormat::Marker };
    assert_eq!(user.format_ref(), Some(&GenericFormat::Marker));
}
