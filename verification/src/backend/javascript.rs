//! The JavaScript back end: every declared type becomes a class whose
//! constructor takes one positional parameter for each property and assigns
//! it.

use vstd::prelude::*;
use itertools::Itertools;
use crate::frontend::table::{names_of, Table};
use crate::frontend::{
    Code, DataFormat, EnumVariantFormat, GenericFormat, SpecDataFormat, SpecFormat, SpecType,
    SpecVariantFormat, Type,
};
use crate::text::{decimal, lemma_text_values_push, push_decimal, text_values, Text};

verus! {

/// A class declaration: its name, and the names of its properties in the
/// order of the constructor's parameters.
#[derive(Debug, PartialEq, Eq)]
pub struct ClassItem {
    name: String,
    fields: Vec<String>,
}

/// The mathematical value of a [`ClassItem`].
pub struct SpecClassItem {
    pub name: Text,
    pub fields: Seq<Text>,
}

/// A statement of the target language. Only class declarations are emitted
/// so far; the other kinds have no content yet and cannot be written out.
#[derive(Debug, PartialEq, Eq)]
pub enum Statement {
    ClassItem(ClassItem),
    FunctionItem,
    VarDeclaration,
    LetDeclaration,
    ConstDeclaration,
}

/// The mathematical value of a [`Statement`].
pub enum SpecStatement {
    ClassItem(SpecClassItem),
    FunctionItem,
    VarDeclaration,
    LetDeclaration,
    ConstDeclaration,
}

/// The statements of an emitted document, in order. Every statement that a
/// block holds is one that can be written out: a class declaration.
#[derive(Debug, PartialEq, Eq)]
pub struct Block(Vec<Statement>);

impl View for ClassItem {
    type V = SpecClassItem;

    closed spec fn view(&self) -> SpecClassItem {
        SpecClassItem { name: self.name@, fields: text_values(self.fields@) }
    }
}

impl View for Statement {
    type V = SpecStatement;

    open spec fn view(&self) -> SpecStatement {
        match self {
            Statement::ClassItem(class) => SpecStatement::ClassItem(class@),
            Statement::FunctionItem => SpecStatement::FunctionItem,
            Statement::VarDeclaration => SpecStatement::VarDeclaration,
            Statement::LetDeclaration => SpecStatement::LetDeclaration,
            Statement::ConstDeclaration => SpecStatement::ConstDeclaration,
        }
    }
}

impl View for Block {
    type V = Seq<SpecStatement>;

    closed spec fn view(&self) -> Seq<SpecStatement> {
        self.0@.map_values(|statement: Statement| statement@)
    }
}

/// What `<str as Debug>::fmt` writes for a text: the text as a quoted string
/// literal. Nothing more is assumed of it than that it is a function of the
/// text.
pub uninterp spec fn debug_text(text: Seq<char>) -> Seq<char>;

/// The name of the parameter at position `index`: `_0`, `_1`, and so on.
pub open spec fn positional(index: nat) -> Text {
    "_"@ + decimal(index)
}

/// The names of the first `count` positions.
pub open spec fn positionals(count: nat) -> Seq<Text> {
    Seq::new(count, |i: int| positional(i as nat))
}

/// The names of `names` in the order of their first occurrence, each once.
pub open spec fn distinct(names: Seq<Text>) -> Seq<Text>
    decreases names.len(),
{
    if names.len() == 0 {
        names
    } else {
        let before = distinct(names.drop_last());
        if before.contains(names.last()) {
            before
        } else {
            before.push(names.last())
        }
    }
}

/// The properties that the fields of a format stand for: none for a marker,
/// a position for each unnamed field, the name of each named field.
pub open spec fn format_properties<W>(format: SpecFormat<W>) -> Seq<Text> {
    match format {
        SpecFormat::Marker => Seq::empty(),
        SpecFormat::Unnamed { fields } => positionals(fields.len()),
        SpecFormat::Named { fields, .. } => names_of(fields),
    }
}

/// The properties of all the variants of a sum type, one variant after the
/// other, with repetitions.
pub open spec fn variant_properties(variants: Seq<(Text, SpecVariantFormat)>) -> Seq<Text>
    decreases variants.len(),
{
    if variants.len() == 0 {
        Seq::empty()
    } else {
        variant_properties(variants.drop_last()) + format_properties(variants.last().1)
    }
}

/// The properties of the class of a type. A type with variants has the
/// property `_variant` first; then come its own fields; then the properties
/// of its variants, each once, in the order in which the variants first
/// bring them.
pub open spec fn class_properties(format: SpecDataFormat) -> Seq<Text> {
    match format {
        SpecFormat::Named { fields, variants } => (if variants.len() > 0 {
            seq!["_variant"@]
        } else {
            Seq::empty()
        }) + names_of(fields) + distinct(variant_properties(variants)),
        _ => format_properties(format),
    }
}

/// The class of the type `name` with format `format`.
pub open spec fn class_of(name: Text, format: SpecDataFormat) -> SpecClassItem {
    SpecClassItem { name, fields: class_properties(format) }
}

/// The statements that a sequence of types is lowered to: a class for each
/// user type, in order, and nothing for a built-in type.
pub open spec fn emit(types: Seq<(Text, SpecType)>) -> Seq<SpecStatement>
    decreases types.len(),
{
    if types.len() == 0 {
        Seq::empty()
    } else {
        let before = emit(types.drop_last());
        match types.last().1 {
            SpecType::User { format } => before.push(
                SpecStatement::ClassItem(class_of(types.last().0, format)),
            ),
            SpecType::Integer => before,
        }
    }
}

/// The parameter list of a constructor with `count` parameters: `_0,_1,...`.
pub open spec fn parameters(count: nat) -> Text
    decreases count,
{
    if count == 0 {
        Seq::empty()
    } else if count == 1 {
        positional(0)
    } else {
        parameters((count - 1) as nat) + ","@ + positional((count - 1) as nat)
    }
}

/// The body of a constructor: each property, given as it is written between
/// the brackets, is assigned the parameter at its position.
pub open spec fn assignments(keys: Seq<Text>) -> Text
    decreases keys.len(),
{
    if keys.len() == 0 {
        Seq::empty()
    } else {
        let last = "this["@ + keys.last() + "]="@ + positional((keys.len() - 1) as nat);
        if keys.len() == 1 {
            last
        } else {
            assignments(keys.drop_last()) + ";"@ + last
        }
    }
}

/// The text of a class called `name` whose properties are written `keys`
/// between the brackets.
pub open spec fn class_text(name: Text, keys: Seq<Text>) -> Text {
    "class "@ + name + "{constructor("@ + parameters(keys.len()) + "){"@ + assignments(keys)
        + "}}"@
}

/// The keys of the properties `fields`: each as a quoted string.
pub open spec fn quoted(fields: Seq<Text>) -> Seq<Text> {
    fields.map_values(|field: Text| debug_text(field))
}

impl SpecStatement {
    /// Whether a `;` has to follow the statement before the next one.
    pub open spec fn requires_semicolon(self) -> bool {
        false
    }

    /// The text of the statement. Only a class declaration has one.
    pub open spec fn text(self) -> Text {
        match self {
            SpecStatement::ClassItem(class) => class_text(class.name, quoted(class.fields)),
            _ => Seq::empty(),
        }
    }
}

/// The text of a sequence of statements: each statement in order, with a
/// `;` between two of them where the first requires one.
pub open spec fn block_text(statements: Seq<SpecStatement>) -> Text
    decreases statements.len(),
{
    if statements.len() == 0 {
        Seq::empty()
    } else if statements.len() == 1 {
        statements[0].text()
    } else if statements[statements.len() - 2].requires_semicolon() {
        block_text(statements.drop_last()) + ";"@ + statements.last().text()
    } else {
        block_text(statements.drop_last()) + statements.last().text()
    }
}

/// What `distinct` keeps: every name of the sequence, and none of them
/// twice.
pub proof fn lemma_distinct(names: Seq<Text>)
    ensures
        distinct(names).no_duplicates(),
        distinct(names).to_set() == names.to_set(),
    decreases names.len(),
{
    if names.len() == 0 {
    } else {
        let shorter = names.drop_last();
        let before = distinct(shorter);
        let last = names.last();
        lemma_distinct(shorter);
        assert forall|name: Text| #[trigger]
            distinct(names).to_set().contains(name) == names.to_set().contains(name) by {
            if names.to_set().contains(name) {
                let at = choose|at: int| 0 <= at < names.len() && names[at] == name;
                if at < shorter.len() {
                    assert(shorter[at] == name);
                    assert(shorter.to_set().contains(name));
                    assert(before.to_set().contains(name));
                    let kept = choose|kept: int| 0 <= kept < before.len() && before[kept] == name;
                    if !before.contains(last) {
                        assert(before.push(last)[kept] == name);
                    }
                } else {
                    if !before.contains(last) {
                        assert(before.push(last)[before.len() as int] == name);
                    }
                }
            }
            if distinct(names).to_set().contains(name) {
                let kept = choose|kept: int|
                    0 <= kept < distinct(names).len() && distinct(names)[kept] == name;
                if kept < before.len() {
                    assert(before[kept] == name);
                    assert(before.to_set().contains(name));
                    assert(shorter.to_set().contains(name));
                    let at = choose|at: int| 0 <= at < shorter.len() && shorter[at] == name;
                    assert(names[at] == name);
                } else {
                    assert(names[names.len() - 1] == name);
                }
            }
        }
        assert(distinct(names).to_set() =~= names.to_set());
    }
}

/// No statement requires a separator, so the text of a block with one more
/// statement is the text of the block with the text of that statement
/// directly behind it.
pub proof fn lemma_statements_follow_directly(statements: Seq<SpecStatement>, next: SpecStatement)
    ensures
        block_text(statements.push(next)) == block_text(statements) + next.text(),
{
    let longer = statements.push(next);
    assert(longer.drop_last() =~= statements);
    if statements.len() == 0 {
        assert(block_text(statements) + next.text() =~= next.text());
    }
}

/// Calls `format!` with `{:?}` on a text, that is `<str as Debug>::fmt`. The
/// result is the text as that function writes it: [`debug_text`].
#[verifier::external_body]
fn quote(text: &String) -> (key: String)
    ensures
        key@ == debug_text(text@),
{
    format!("{:?}", text)
}

/// Calls `Itertools::unique` on the names and collects what it yields: each
/// name once, at the place of its first occurrence.
#[verifier::external_body]
fn unique(names: Vec<String>) -> (kept: Vec<String>)
    ensures
        text_values(kept@) == distinct(text_values(names@)),
{
    names.into_iter().unique().collect()
}

/// The name of the parameter at position `index`.
fn positional_name(index: usize) -> (name: String)
    ensures
        name@ == positional(index as nat),
{
    let mut name = String::from_str("_");
    push_decimal(&mut name, index);
    name
}

/// The names of the first `count` positions.
fn positional_names(count: usize) -> (names: Vec<String>)
    ensures
        text_values(names@) == positionals(count as nat),
{
    let mut names: Vec<String> = Vec::new();
    let mut i: usize = 0;
    while i < count
        invariant
            i <= count,
            text_values(names@) =~= positionals(i as nat),
        decreases count - i,
    {
        let name = positional_name(i);
        proof {
            lemma_text_values_push(names@, name);
        }
        names.push(name);
        i = i + 1;
    }
    names
}

/// The names of the entries of a table, in order.
fn table_names<T>(table: &Table<T>) -> (names: Vec<String>)
    ensures
        text_values(names@) == table.names(),
{
    let mut names: Vec<String> = Vec::new();
    let mut i: usize = 0;
    while i < table.len()
        invariant
            i <= table.names().len(),
            text_values(names@) =~= table.names().take(i as int),
        decreases table.names().len() - i,
    {
        let name = table.entry(i).name.clone();
        proof {
            lemma_text_values_push(names@, name);
        }
        names.push(name);
        i = i + 1;
    }
    assert(table.names().take(i as int) =~= table.names());
    names
}

/// Appends a copy of each name of `more` to `names`.
fn extend(names: &mut Vec<String>, more: &Vec<String>)
    ensures
        text_values(final(names)@) == text_values(old(names)@) + text_values(more@),
{
    let mut i: usize = 0;
    while i < more.len()
        invariant
            i <= more.len(),
            text_values(names@) =~= text_values(old(names)@) + text_values(more@).take(i as int),
        decreases more.len() - i,
    {
        let name = more[i].clone();
        proof {
            lemma_text_values_push(names@, name);
        }
        names.push(name);
        i = i + 1;
    }
    assert(text_values(more@).take(i as int) =~= text_values(more@));
}

/// The properties that the fields of a format stand for.
fn format_fields<V: View>(format: &GenericFormat<V>) -> (names: Vec<String>)
    ensures
        text_values(names@) == format_properties(format@),
{
    match format {
        GenericFormat::Marker => {
            let names: Vec<String> = Vec::new();
            assert(text_values(names@) =~= Seq::<Text>::empty());
            names
        },
        GenericFormat::Unnamed { fields } => {
            assert(text_values(fields@).len() == fields.len());
            positional_names(fields.len())
        },
        GenericFormat::Named { fields, variants: _ } => {
            proof {
                fields.lemma_view_names();
            }
            table_names(fields)
        },
    }
}

/// The properties of all the variants of a sum type, with repetitions.
fn variant_fields(variants: &Table<EnumVariantFormat>) -> (names: Vec<String>)
    ensures
        text_values(names@) == variant_properties(variants@),
{
    let mut names: Vec<String> = Vec::new();
    let mut i: usize = 0;
    assert(variants@.take(0) =~= Seq::<(Text, SpecVariantFormat)>::empty());
    assert(text_values(names@) =~= Seq::<Text>::empty());
    while i < variants.len()
        invariant
            i <= variants.names().len(),
            variants.names().len() == variants@.len(),
            text_values(names@) == variant_properties(variants@.take(i as int)),
        decreases variants.names().len() - i,
    {
        assert(variants@.take(i + 1).drop_last() =~= variants@.take(i as int));
        let more = format_fields(&variants.entry(i).value);
        extend(&mut names, &more);
        i = i + 1;
    }
    assert(variants@.take(i as int) =~= variants@);
    names
}

/// The properties of the class of a type with format `format`.
fn class_fields(format: &DataFormat) -> (names: Vec<String>)
    ensures
        text_values(names@) == class_properties(format@),
{
    match format {
        GenericFormat::Named { fields, variants } => {
            let mut names: Vec<String> = Vec::new();
            assert(text_values(names@) =~= Seq::<Text>::empty());
            if !variants.is_empty() {
                proof {
                    variants.lemma_view_names();
                }
                names.push(String::from_str("_variant"));
                assert(text_values(names@) =~= seq!["_variant"@]);
            }
            proof {
                variants.lemma_view_names();
                fields.lemma_view_names();
            }
            let own = table_names(fields);
            extend(&mut names, &own);
            let of_variants = unique(variant_fields(variants));
            extend(&mut names, &of_variants);
            names
        },
        _ => format_fields(format),
    }
}

impl ClassItem {
    /// The name of the class.
    pub fn name(&self) -> (name: &String)
        ensures
            name@ == self@.name,
    {
        &self.name
    }

    /// The names of the properties, in the order of the parameters.
    pub fn fields(&self) -> (fields: &Vec<String>)
        ensures
            text_values(fields@) == self@.fields,
    {
        &self.fields
    }

    /// The text of the class, with each property written as a quoted string.
    pub fn to_text(&self) -> (text: String)
        ensures
            text@ == class_text(self@.name, quoted(self@.fields)),
    {
        let mut keys: Vec<String> = Vec::new();
        let mut i: usize = 0;
        while i < self.fields.len()
            invariant
                i <= self.fields.len(),
                text_values(keys@) =~= quoted(text_values(self.fields@).take(i as int)),
            decreases self.fields.len() - i,
        {
            let key = quote(&self.fields[i]);
            proof {
                lemma_text_values_push(keys@, key);
            }
            keys.push(key);
            i = i + 1;
        }
        assert(text_values(self.fields@).take(i as int) =~= text_values(self.fields@));
        render_class(&self.name, &keys)
    }
}

/// The parameter list of a constructor with `count` parameters.
fn parameter_text(count: usize) -> (text: String)
    ensures
        text@ == parameters(count as nat),
{
    let mut text = String::new();
    let mut i: usize = 0;
    while i < count
        invariant
            i <= count,
            text@ == parameters(i as nat),
        decreases count - i,
    {
        if i > 0 {
            text.append(",");
        }
        let name = positional_name(i);
        text.append(name.as_str());
        assert(parameters(0) + positional(0) =~= positional(0));
        i = i + 1;
    }
    text
}

/// The body of a constructor that assigns to the properties written `keys`.
fn assignment_text(keys: &Vec<String>) -> (text: String)
    ensures
        text@ == assignments(text_values(keys@)),
{
    let mut text = String::new();
    let mut i: usize = 0;
    let ghost all = text_values(keys@);
    assert(all.take(0) =~= Seq::<Text>::empty());
    while i < keys.len()
        invariant
            i <= keys.len(),
            all == text_values(keys@),
            text@ == assignments(all.take(i as int)),
        decreases keys.len() - i,
    {
        let ghost before = text@;
        let ghost prefix = all.take(i + 1);
        assert(prefix.drop_last() =~= all.take(i as int));
        assert(prefix.last() == keys[i as int]@);
        if i > 0 {
            text.append(";");
        }
        let ghost separated = text@;
        text.append("this[");
        text.append(keys[i].as_str());
        text.append("]=");
        let name = positional_name(i);
        text.append(name.as_str());
        proof {
            let last = "this["@ + prefix.last() + "]="@ + positional(i as nat);
            assert(text@ =~= separated + last);
            if i == 0 {
                assert(before + last =~= last);
            } else {
                assert(separated + last =~= before + ";"@ + last);
            }
        }
        i = i + 1;
    }
    assert(all.take(i as int) =~= all);
    text
}

/// Writes out a class called `name` whose properties are written `keys`
/// between the brackets of the assignments.
pub fn render_class(name: &String, keys: &Vec<String>) -> (text: String)
    ensures
        text@ == class_text(name@, text_values(keys@)),
{
    let mut text = String::from_str("class ");
    text.append(name.as_str());
    text.append("{constructor(");
    let list = parameter_text(keys.len());
    text.append(list.as_str());
    text.append("){");
    let body = assignment_text(keys);
    text.append(body.as_str());
    text.append("}}");
    text
}

impl Statement {
    /// Whether or not this statement requires a `;` afterwards.
    pub fn requires_semicolon(&self) -> (required: bool)
        ensures
            required == self@.requires_semicolon(),
    {
        match self {
            _ => false,
        }
    }

    /// The text of the statement. Only a class declaration can be written.
    pub fn to_text(&self) -> (text: String)
        requires
            self is ClassItem,
        ensures
            text@ == self@.text(),
    {
        match self {
            Statement::ClassItem(class) => class.to_text(),
            _ => String::new(),
        }
    }
}

impl Block {
    #[verifier::type_invariant]
    spec fn writable(self) -> bool {
        forall|i: int| 0 <= i < self.0.len() ==> (#[trigger] self.0[i]) is ClassItem
    }

    /// The statements of the block.
    pub fn statements(&self) -> (statements: &Vec<Statement>)
        ensures
            statements@.map_values(|statement: Statement| statement@) == self@,
            forall|i: int| 0 <= i < statements.len() ==> (#[trigger] statements[i]) is ClassItem,
    {
        proof {
            use_type_invariant(self);
        }
        &self.0
    }

    /// The text of the block: its statements one after the other, with a `;`
    /// behind each statement that requires one and is not the last.
    pub fn to_text(&self) -> (text: String)
        ensures
            text@ == block_text(self@),
    {
        proof {
            use_type_invariant(self);
        }
        let mut text = String::new();
        let mut index: usize = 0;
        assert(self@.take(0) =~= Seq::<SpecStatement>::empty());
        while index < self.0.len()
            invariant
                index <= self.0.len(),
                self@.len() == self.0.len(),
                forall|i: int| 0 <= i < self.0.len() ==> (#[trigger] self.0[i]) is ClassItem,
                text@ == block_text(self@.take(index as int)),
            decreases self.0.len() - index,
        {
            let ghost before = text@;
            let ghost prefix = self@.take(index + 1);
            assert(prefix.drop_last() =~= self@.take(index as int));
            assert(prefix.last() == self.0[index as int]@);
            if index > 0 && self.0[index - 1].requires_semicolon() {
                text.append(";");
            }
            let item = self.0[index].to_text();
            text.append(item.as_str());
            proof {
                if index == 0 {
                    assert(before + prefix.last().text() =~= prefix[0].text());
                } else {
                    assert(prefix[prefix.len() - 2] == self.0[index - 1]@);
                }
            }
            index = index + 1;
        }
        assert(self@.take(index as int) =~= self@);
        text
    }
}

/// Lowers the types of `code` to class declarations, one for each user type
/// in the order of their declarations. A built-in type has no class.
pub fn from_main_representation(code: &Code) -> (block: Block)
    ensures
        block@ == emit(code@.scope.types),
{
    let types = &code.scope.types;
    let ghost all = types@;
    let mut classes: Vec<Statement> = Vec::new();
    let mut i: usize = 0;
    assert(all.take(0) =~= Seq::<(Text, SpecType)>::empty());
    while i < types.len()
        invariant
            i <= types.names().len(),
            all == types@,
            types.names().len() == all.len(),
            forall|k: int| 0 <= k < classes.len() ==> (#[trigger] classes[k]) is ClassItem,
            classes@.map_values(|statement: Statement| statement@) =~= emit(all.take(i as int)),
        decreases types.names().len() - i,
    {
        assert(all.take(i + 1).drop_last() =~= all.take(i as int));
        let entry = types.entry(i);
        match entry.value.format_ref() {
            Some(format) => {
                let class = ClassItem { name: entry.name.clone(), fields: class_fields(format) };
                classes.push(Statement::ClassItem(class));
            },
            None => {},
        }
        i = i + 1;
    }
    assert(all.take(i as int) =~= all);
    Block(classes)
}

} // verus!
