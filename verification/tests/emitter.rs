use datalang::backend::javascript::{from_main_representation, render_class, Statement};
use datalang::frontend::table::{FunctionTable, Table};
use datalang::frontend::{Code, DataFormat, EnumVariantFormat, GenericFormat, Scope, Type};

fn s(text: &str) -> String {
    text.to_string()
}

fn code_of(types: Vec<(&str, Type)>) -> Code {
    let mut table: Table<Type> = Table::new();
    for (name, declared) in types {
        assert!(table.insert(s(name), declared).is_some());
    }
    Code { scope: Scope { types: table, functions: FunctionTable::new() } }
}

fn user(format: DataFormat) -> Type {
    Type::User { format }
}

fn fields_of(fields: Vec<(&str, &str)>) -> Table<String> {
    let mut table: Table<String> = Table::new();
    for (name, declared) in fields {
        assert!(table.insert(s(name), s(declared)).is_some());
    }
    table
}

fn variants_of(variants: Vec<(&str, EnumVariantFormat)>) -> Table<EnumVariantFormat> {
    let mut table: Table<EnumVariantFormat> = Table::new();
    for (name, format) in variants {
        assert!(table.insert(s(name), format).is_some());
    }
    table
}

fn unnamed(count: usize) -> Vec<String> {
    vec![s("Int"); count]
}

fn class_fields(code: &Code, index: usize) -> Vec<String> {
    let block = from_main_representation(code);
    match &block.statements()[index] {
        Statement::ClassItem(class) => class.fields().clone(),
        _ => unreachable!(),
    }
}

#[test]
fn a_marker_is_a_class_without_parameters() {
    let code = code_of(vec![("Unit", user(GenericFormat::Marker))]);
    let block = from_main_representation(&code);
    assert_eq!(block.statements().len(), 1);
    match &block.statements()[0] {
        Statement::ClassItem(class) => {
            assert_eq!(class.name(), "Unit");
            assert!(class.fields().is_empty());
            assert_eq!(class.to_text(), "class Unit{constructor(){}}");
        }
        _ => unreachable!(),
    }
    assert_eq!(block.to_text(), "class Unit{constructor(){}}");
}

#[test]
fn a_tuple_is_a_class_with_positional_parameters() {
    let code = code_of(vec![("Pair", user(GenericFormat::Unnamed { fields: unnamed(2) }))]);
    assert_eq!(class_fields(&code, 0), vec![s("_0"), s("_1")]);
    assert_eq!(
        from_main_representation(&code).to_text(),
        "class Pair{constructor(_0,_1){this[\"_0\"]=_0;this[\"_1\"]=_1}}"
    );
}

#[test]
fn a_struct_is_a_class_with_its_fields() {
    let format = GenericFormat::Named {
        fields: fields_of(vec![("x", "Int"), ("y", "Int")]),
        variants: Table::new(),
    };
    let code = code_of(vec![("P", user(format))]);
    assert_eq!(class_fields(&code, 0), vec![s("x"), s("y")]);
    assert_eq!(
        from_main_representation(&code).to_text(),
        "class P{constructor(_0,_1){this[\"x\"]=_0;this[\"y\"]=_1}}"
    );
}

#[test]
fn a_sum_type_is_one_class_with_the_fields_of_all_variants() {
    let format = GenericFormat::Named {
        fields: Table::new(),
        variants: variants_of(vec![
            ("A", GenericFormat::Marker),
            ("B", GenericFormat::Unnamed { fields: unnamed(1) }),
        ]),
    };
    let code = code_of(vec![("E", user(format))]);
    assert_eq!(class_fields(&code, 0), vec![s("_variant"), s("_0")]);
    assert_eq!(
        from_main_representation(&code).to_text(),
        "class E{constructor(_0,_1){this[\"_variant\"]=_0;this[\"_0\"]=_1}}"
    );
}

#[test]
fn a_property_of_several_variants_is_there_once() {
    let format = GenericFormat::Named {
        fields: Table::new(),
        variants: variants_of(vec![
            ("A", GenericFormat::Unnamed { fields: unnamed(2) }),
            ("B", GenericFormat::Named { fields: fields_of(vec![("x", "Int")]), variants: () }),
            ("C", GenericFormat::Unnamed { fields: unnamed(3) }),
            ("D", GenericFormat::Named {
                fields: fields_of(vec![("y", "Int"), ("x", "Int"), ("_0", "Int")]),
                variants: (),
            }),
        ]),
    };
    let code = code_of(vec![("E", user(format))]);
    assert_eq!(
        class_fields(&code, 0),
        vec![s("_variant"), s("_0"), s("_1"), s("x"), s("_2"), s("y")]
    );
}

#[test]
fn own_fields_come_before_those_of_the_variants_and_are_kept() {
    let format = GenericFormat::Named {
        fields: fields_of(vec![("x", "Int")]),
        variants: variants_of(vec![(
            "A",
            GenericFormat::Named { fields: fields_of(vec![("x", "Int")]), variants: () },
        )]),
    };
    let code = code_of(vec![("E", user(format))]);
    assert_eq!(class_fields(&code, 0), vec![s("_variant"), s("x"), s("x")]);
}

#[test]
fn a_sum_type_without_variants_has_no_tag() {
    let format = GenericFormat::Named { fields: Table::new(), variants: Table::new() };
    let code = code_of(vec![("Never", user(format))]);
    assert!(class_fields(&code, 0).is_empty());
    assert_eq!(from_main_representation(&code).to_text(), "class Never{constructor(){}}");
}

#[test]
fn a_built_in_type_has_no_class() {
    let code = code_of(vec![
        ("Int", Type::Integer),
        ("A", user(GenericFormat::Marker)),
        ("Other", Type::Integer),
        ("B", user(GenericFormat::Marker)),
    ]);
    let block = from_main_representation(&code);
    assert_eq!(block.statements().len(), 2);
    assert_eq!(block.to_text(), "class A{constructor(){}}class B{constructor(){}}");
}

#[test]
fn no_type_gives_an_empty_text() {
    let code = code_of(vec![]);
    assert_eq!(from_main_representation(&code).to_text(), "");
}

#[test]
fn classes_come_in_the_order_of_the_declarations() {
    let code = code_of(vec![
        ("Zed", user(GenericFormat::Marker)),
        ("Alpha", user(GenericFormat::Marker)),
    ]);
    assert_eq!(
        from_main_representation(&code).to_text(),
        "class Zed{constructor(){}}class Alpha{constructor(){}}"
    );
}

#[test]
fn positions_are_written_in_decimal() {
    let code = code_of(vec![("Wide", user(GenericFormat::Unnamed { fields: unnamed(12) }))]);
    let fields = class_fields(&code, 0);
    assert_eq!(fields.len(), 12);
    assert_eq!(fields[9], "_9");
    assert_eq!(fields[10], "_10");
    assert_eq!(fields[11], "_11");
    let text = from_main_representation(&code).to_text();
    assert!(text.starts_with("class Wide{constructor(_0,_1,_2,_3,_4,_5,_6,_7,_8,_9,_10,_11){"));
    assert!(text.ends_with(";this[\"_10\"]=_10;this[\"_11\"]=_11}}"));
}

#[test]
fn property_names_are_written_as_quoted_strings() {
    let format = GenericFormat::Named {
        fields: fields_of(vec![("a\"b", "Int"), ("c\\d", "Int"), ("e\nf", "Int")]),
        variants: Table::new(),
    };
    let code = code_of(vec![("Q", user(format))]);
    assert_eq!(
        from_main_representation(&code).to_text(),
        "class Q{constructor(_0,_1,_2){this[\"a\\\"b\"]=_0;this[\"c\\\\d\"]=_1;this[\"e\\nf\"]=_2}}"
    );
}

#[test]
fn render_class_writes_the_keys_as_they_are() {
    assert_eq!(render_class(&s("N"), &vec![]), "class N{constructor(){}}");
    assert_eq!(
        render_class(&s("N"), &vec![s("k"), s("'l'")]),
        "class N{constructor(_0,_1){this[k]=_0;this['l']=_1}}"
    );
}

#[test]
fn no_statement_requires_a_semicolon() {
    let code = code_of(vec![("A", user(GenericFormat::Marker))]);
    let block = from_main_representation(&code);
    assert!(!block.statements()[0].requires_semicolon());
    assert!(!Statement::FunctionItem.requires_semicolon());
    assert!(!Statement::VarDeclaration.requires_semicolon());
    assert!(!Statement::LetDeclaration.requires_semicolon());
    assert!(!Statement::ConstDeclaration.requires_semicolon());
    assert_eq!(block.statements()[0].to_text(), "class A{constructor(){}}");
}
