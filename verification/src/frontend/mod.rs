//! The front end: tokens, syntax, and the resolved representation of a
//! block, in which every type that is referred to is known to exist.

pub mod parser;
pub mod printer;
pub mod table;
pub mod tokenizer;

use vstd::prelude::*;
use crate::text::{contains_text, pair_values, text_values, Text};
use parser::{
    statement_values, variant_values, Block, DataItem, DataVariant, SpecBlock, SpecDataItem,
    SpecDataVariant, SpecStatement, Statement,
};
use table::{names_of, FunctionTable, Table};

verus! {

/// A type that a scope knows by name.
#[derive(Debug, PartialEq, Eq)]
pub enum Type {
    User { format: DataFormat },
    Integer,
}

/// The shape of a piece of data: no fields, positional fields, or named
/// fields together with whatever stands for its variants.
#[derive(Debug, PartialEq, Eq)]
pub enum GenericFormat<V> {
    Marker,
    Unnamed { fields: Vec<String> },
    Named { fields: Table<String>, variants: V },
}

/// The format of a declared type: its variants are a table of formats.
pub type DataFormat = GenericFormat<Table<EnumVariantFormat>>;

/// The format of one variant of a sum type: it has no variants of its own.
pub type EnumVariantFormat = GenericFormat<()>;

/// A declared function: the resolved representation of its body.
#[derive(Debug, PartialEq, Eq)]
pub struct Function {
    pub code: Code,
}

/// The resolved representation of a block: the scope of what it declares.
#[derive(Debug, PartialEq, Eq)]
pub struct Code {
    pub scope: Scope,
}

/// The types and the functions that one block declares.
#[derive(Debug, PartialEq, Eq)]
pub struct Scope {
    pub types: Table<Type>,
    pub functions: FunctionTable,
}

/// The mathematical value of a [`GenericFormat`].
pub enum SpecFormat<V> {
    Marker,
    Unnamed { fields: Seq<Text> },
    Named { fields: Seq<(Text, Text)>, variants: V },
}

/// The mathematical value of an [`EnumVariantFormat`].
pub type SpecVariantFormat = SpecFormat<()>;

/// The mathematical value of a [`DataFormat`]: its variants are their names
/// and formats, in declaration order.
pub type SpecDataFormat = SpecFormat<Seq<(Text, SpecVariantFormat)>>;

/// The mathematical value of a [`Type`].
pub enum SpecType {
    User { format: SpecDataFormat },
    Integer,
}

/// The mathematical value of a [`Scope`]: its types and its functions, each
/// in declaration order.
pub struct SpecScope {
    pub types: Seq<(Text, SpecType)>,
    pub functions: Seq<(Text, SpecFunction)>,
}

/// The mathematical value of a [`Function`].
pub struct SpecFunction {
    pub code: SpecCode,
}

/// The mathematical value of a [`Code`].
pub struct SpecCode {
    pub scope: SpecScope,
}

impl<V: View> View for GenericFormat<V> {
    type V = SpecFormat<V::V>;

    open spec fn view(&self) -> SpecFormat<V::V> {
        match self {
            GenericFormat::Marker => SpecFormat::Marker,
            GenericFormat::Unnamed { fields } => SpecFormat::Unnamed {
                fields: text_values(fields@),
            },
            GenericFormat::Named { fields, variants } => SpecFormat::Named {
                fields: fields@,
                variants: variants@,
            },
        }
    }
}

impl View for Type {
    type V = SpecType;

    open spec fn view(&self) -> SpecType {
        match self {
            Type::User { format } => SpecType::User { format: format@ },
            Type::Integer => SpecType::Integer,
        }
    }
}

impl View for Scope {
    type V = SpecScope;

    open spec fn view(&self) -> SpecScope
        decreases self,
    {
        SpecScope {
            types: self.types@,
            functions: self.functions@,
        }
    }
}

impl View for Function {
    type V = SpecFunction;

    open spec fn view(&self) -> SpecFunction
        decreases self,
    {
        SpecFunction { code: self.code@ }
    }
}

impl View for Code {
    type V = SpecCode;

    open spec fn view(&self) -> SpecCode
        decreases self,
    {
        SpecCode { scope: self.scope@ }
    }
}

impl Type {
    /// The format of a user type; `None` for a built-in type.
    pub fn format_ref(&self) -> (format: Option<&DataFormat>)
        ensures
            match self {
                Type::User { format: own } => format == Some(own),
                Type::Integer => format is None,
            },
    {
        match self {
            Type::User { format } => Some(format),
            _ => None,
        }
    }
}

impl Scope {
    /// A scope that declares nothing.
    pub fn new() -> (scope: Self)
        ensures
            scope@ == (SpecScope { types: Seq::empty(), functions: Seq::empty() }),
    {
        let scope = Scope { types: Table::new(), functions: FunctionTable::new() };
        assert(scope@.types =~= Seq::empty());
        scope
    }
}

/// A scope together with the scopes that enclose it: a chain that is only
/// read, to find out which type names are visible.
#[derive(Debug, Clone, Copy)]
pub struct ScopeRef<'l, 'o> {
    local: &'l Scope,
    outer: Option<&'o ScopeRef<'o, 'o>>,
}

impl<'l, 'o> ScopeRef<'l, 'o> {
    /// The names of the types that can be seen from here: those of the local
    /// scope and those of every scope that encloses it.
    pub closed spec fn visible(&self) -> Set<Text>
        decreases self,
    {
        match self.outer {
            Some(outer) => outer.visible().union(self.local.types.names().to_set()),
            None => self.local.types.names().to_set(),
        }
    }

    /// A chain of one scope.
    pub fn new(local: &'l Scope) -> (chain: Self)
        ensures
            chain.visible() == local.types.names().to_set(),
    {
        ScopeRef { local, outer: None }
    }

    /// The chain that has `local` as its innermost scope and this chain
    /// around it.
    pub fn enter(&'o self, local: &'l Scope) -> (chain: Self)
        ensures
            chain.visible() == self.visible().union(local.types.names().to_set()),
    {
        ScopeRef { local, outer: Some(self) }
    }

    /// Whether a type called `name` can be seen from here.
    pub fn has_type(&self, name: &String) -> (found: bool)
        ensures
            found == self.visible().contains(name@),
        decreases self,
    {
        if self.local.types.contains_key(name) {
            true
        } else {
            match self.outer {
                Some(outer) => outer.has_type(name),
                None => false,
            }
        }
    }
}

/// The four namespaces in which a name may not be declared twice.
#[derive(Debug, Clone, Copy, PartialEq, Eq, Structural)]
pub enum Namespace {
    Type,
    Field,
    Variant,
    Function,
}

/// Why a block could not be resolved.
#[derive(Debug, PartialEq, Eq)]
pub enum ResolveError {
    /// A field or a variant refers to a type that is declared neither in the
    /// same block nor in a scope around it.
    UnresolvedType { name: String },
    /// A name is declared a second time in its namespace.
    DuplicateName { namespace: Namespace, name: String },
}

/// The mathematical value of a [`ResolveError`].
pub enum SpecResolveError {
    UnresolvedType { name: Text },
    DuplicateName { namespace: Namespace, name: Text },
}

impl View for ResolveError {
    type V = SpecResolveError;

    open spec fn view(&self) -> SpecResolveError {
        match self {
            ResolveError::UnresolvedType { name } => SpecResolveError::UnresolvedType {
                name: name@,
            },
            ResolveError::DuplicateName { namespace, name } => SpecResolveError::DuplicateName {
                namespace: *namespace,
                name: name@,
            },
        }
    }
}

/// The positional fields of a tuple, resolved: the types themselves where
/// each of them is known, else the first that is not.
pub open spec fn resolve_unnamed(types: Seq<Text>, known: Set<Text>) -> Result<
    Seq<Text>,
    SpecResolveError,
>
    decreases types.len(),
{
    if types.len() == 0 {
        Ok(Seq::empty())
    } else {
        match resolve_unnamed(types.drop_last(), known) {
            Err(error) => Err(error),
            Ok(resolved) => if known.contains(types.last()) {
                Ok(resolved.push(types.last()))
            } else {
                Err(SpecResolveError::UnresolvedType { name: types.last() })
            },
        }
    }
}

/// The named fields of a struct, resolved in order. A field fails where its
/// type is not known, or else where its name was declared by a field before
/// it; the first field that fails decides.
pub open spec fn resolve_named(fields: Seq<(Text, Text)>, known: Set<Text>) -> Result<
    Seq<(Text, Text)>,
    SpecResolveError,
>
    decreases fields.len(),
{
    if fields.len() == 0 {
        Ok(Seq::empty())
    } else {
        match resolve_named(fields.drop_last(), known) {
            Err(error) => Err(error),
            Ok(resolved) => {
                let (name, declared) = fields.last();
                if !known.contains(declared) {
                    Err(SpecResolveError::UnresolvedType { name: declared })
                } else if names_of(resolved).contains(name) {
                    Err(SpecResolveError::DuplicateName { namespace: Namespace::Field, name })
                } else {
                    Ok(resolved.push((name, declared)))
                }
            },
        }
    }
}

/// The format of one variant, given the type names that are known and what
/// is to stand for the variants of a format with named fields.
pub open spec fn resolve_format<W>(
    variant: SpecDataVariant,
    known: Set<Text>,
    variants: W,
) -> Result<SpecFormat<W>, SpecResolveError> {
    match variant {
        SpecDataVariant::Marker { .. } => Ok(SpecFormat::Marker),
        SpecDataVariant::Tuple { fields, .. } => match resolve_unnamed(fields, known) {
            Ok(fields) => Ok(SpecFormat::Unnamed { fields }),
            Err(error) => Err(error),
        },
        SpecDataVariant::Struct { fields, .. } => match resolve_named(fields, known) {
            Ok(fields) => Ok(SpecFormat::Named { fields, variants }),
            Err(error) => Err(error),
        },
    }
}

/// The fields of a tuple resolve exactly when each of their types is known,
/// and then to themselves.
pub proof fn lemma_unnamed_resolves(types: Seq<Text>, known: Set<Text>)
    ensures
        resolve_unnamed(types, known) is Ok <==> forall|i: int|
            0 <= i < types.len() ==> known.contains(#[trigger] types[i]),
        resolve_unnamed(types, known) is Ok ==> resolve_unnamed(types, known)->Ok_0 == types,
    decreases types.len(),
{
    if types.len() > 0 {
        let shorter = types.drop_last();
        lemma_unnamed_resolves(shorter, known);
        if resolve_unnamed(types, known) is Ok {
            assert(resolve_unnamed(types, known)->Ok_0 =~= types);
            assert forall|i: int| 0 <= i < types.len() implies known.contains(
                #[trigger] types[i],
            ) by {
                if i < shorter.len() {
                    assert(shorter[i] == types[i]);
                }
            }
        }
        if forall|i: int| 0 <= i < types.len() ==> known.contains(#[trigger] types[i]) {
            assert forall|i: int| 0 <= i < shorter.len() implies known.contains(
                #[trigger] shorter[i],
            ) by {
                assert(shorter[i] == types[i]);
            }
            assert(known.contains(types[types.len() - 1]));
        }
    } else {
        assert(resolve_unnamed(types, known)->Ok_0 =~= types);
    }
}

/// The fields of a struct resolve exactly when the type of each is known
/// and no two of them share a name, and then to themselves.
pub proof fn lemma_named_resolves(fields: Seq<(Text, Text)>, known: Set<Text>)
    ensures
        resolve_named(fields, known) is Ok <==> names_of(fields).no_duplicates() && forall|
            i: int,
        |
            0 <= i < fields.len() ==> known.contains((#[trigger] fields[i]).1),
        resolve_named(fields, known) is Ok ==> resolve_named(fields, known)->Ok_0 == fields,
    decreases fields.len(),
{
    if fields.len() > 0 {
        let shorter = fields.drop_last();
        let last = fields.len() - 1;
        lemma_named_resolves(shorter, known);
        assert(names_of(shorter) =~= names_of(fields).drop_last());
        if resolve_named(fields, known) is Ok {
            assert(resolve_named(fields, known)->Ok_0 =~= fields);
            assert forall|i: int| 0 <= i < fields.len() implies known.contains(
                (#[trigger] fields[i]).1,
            ) by {
                if i < shorter.len() {
                    assert(shorter[i] == fields[i]);
                }
            }
            assert forall|i: int, j: int|
                0 <= i < fields.len() && 0 <= j < fields.len() && i != j implies names_of(
                fields,
            )[i] != names_of(fields)[j] by {
                if i < last && j < last {
                    assert(names_of(shorter)[i] != names_of(shorter)[j]);
                } else if i < last {
                    assert(names_of(shorter)[i] == fields[i].0);
                } else {
                    assert(names_of(shorter)[j] == fields[j].0);
                }
            }
        }
        if names_of(fields).no_duplicates() && forall|i: int|
            0 <= i < fields.len() ==> known.contains((#[trigger] fields[i]).1) {
            assert forall|i: int| 0 <= i < shorter.len() implies known.contains(
                (#[trigger] shorter[i]).1,
            ) by {
                assert(shorter[i] == fields[i]);
            }
            assert forall|i: int, j: int|
                0 <= i < shorter.len() && 0 <= j < shorter.len() && i != j implies names_of(
                shorter,
            )[i] != names_of(shorter)[j] by {
                assert(names_of(fields)[i] != names_of(fields)[j]);
            }
            assert(known.contains(fields[last].1));
            if names_of(shorter).contains(fields[last].0) {
                let at = choose|at: int|
                    0 <= at < shorter.len() && names_of(shorter)[at] == fields[last].0;
                assert(names_of(fields)[at] == names_of(fields)[last]);
            }
        }
    } else {
        assert(resolve_named(fields, known)->Ok_0 =~= fields);
    }
}

/// What fails on a prefix of the types of a tuple fails on all of them.
pub proof fn lemma_unnamed_prefix(types: Seq<Text>, known: Set<Text>, length: int)
    requires
        0 <= length <= types.len(),
        resolve_unnamed(types.take(length), known) is Err,
    ensures
        resolve_unnamed(types, known) == resolve_unnamed(types.take(length), known),
    decreases types.len(),
{
    if length < types.len() {
        assert(types.drop_last().take(length) =~= types.take(length));
        lemma_unnamed_prefix(types.drop_last(), known, length);
    } else {
        assert(types.take(length) =~= types);
    }
}

/// What fails on a prefix of the fields of a struct fails on all of them.
pub proof fn lemma_named_prefix(fields: Seq<(Text, Text)>, known: Set<Text>, length: int)
    requires
        0 <= length <= fields.len(),
        resolve_named(fields.take(length), known) is Err,
    ensures
        resolve_named(fields, known) == resolve_named(fields.take(length), known),
    decreases fields.len(),
{
    if length < fields.len() {
        assert(fields.drop_last().take(length) =~= fields.take(length));
        lemma_named_prefix(fields.drop_last(), known, length);
    } else {
        assert(fields.take(length) =~= fields);
    }
}

/// Resolves one variant into its name and its format. Every type that a
/// field refers to must be visible from `scope` or be one of `type_names`,
/// the names that the block around the variant declares; no two fields of a
/// struct may share a name. `variants` is what the format holds as its
/// variants where it has named fields.
pub fn construct_data_representation<V: View>(
    variant: &DataVariant,
    scope: ScopeRef,
    type_names: &Vec<String>,
    variants: V,
) -> (outcome: Result<(String, GenericFormat<V>), ResolveError>)
    ensures
        match resolve_format(
            variant@,
            scope.visible().union(text_values(type_names@).to_set()),
            variants@,
        ) {
            Ok(format) => outcome matches Ok(resolved) && resolved.0@ == variant@.name()
                && resolved.1@ == format,
            Err(error) => outcome matches Err(raised) && raised@ == error,
        },
{
    let ghost known = scope.visible().union(text_values(type_names@).to_set());
    match variant {
        DataVariant::Marker { name } => Ok((name.clone(), GenericFormat::Marker)),
        DataVariant::Tuple { name, fields } => {
            let mut resolved: Vec<String> = Vec::new();
            let mut i: usize = 0;
            assert(text_values(fields@).take(0) =~= Seq::<Text>::empty());
            assert(text_values(resolved@) =~= Seq::<Text>::empty());
            while i < fields.len()
                invariant
                    i <= fields.len(),
                    known == scope.visible().union(text_values(type_names@).to_set()),
                    variant@ == (SpecDataVariant::Tuple {
                        name: name@,
                        fields: text_values(fields@),
                    }),
                    resolve_unnamed(text_values(fields@).take(i as int), known) == Ok::<
                        Seq<Text>,
                        SpecResolveError,
                    >(text_values(resolved@)),
                decreases fields.len() - i,
            {
                let declared = &fields[i];
                let ghost all = text_values(fields@);
                assert(all.take(i + 1).drop_last() =~= all.take(i as int));
                assert(all.take(i + 1).last() == declared@);
                if !scope.has_type(declared) && !contains_text(type_names, declared) {
                    proof {
                        assert(!known.contains(declared@));
                        assert(resolve_unnamed(all.take(i + 1), known) is Err);
                        lemma_unnamed_prefix(all, known, i + 1);
                    }
                    return Err(ResolveError::UnresolvedType { name: declared.clone() });
                }
                let ghost before = resolved@;
                resolved.push(declared.clone());
                assert(text_values(resolved@) =~= text_values(before).push(declared@));
                i = i + 1;
            }
            assert(text_values(fields@).take(i as int) =~= text_values(fields@));
            Ok((name.clone(), GenericFormat::Unnamed { fields: resolved }))
        },
        DataVariant::Struct { name, fields } => {
            let mut resolved: Table<String> = Table::new();
            let mut i: usize = 0;
            assert(pair_values(fields@).take(0) =~= Seq::<(Text, Text)>::empty());
            assert(resolved@ =~= Seq::<(Text, Text)>::empty());
            while i < fields.len()
                invariant
                    i <= fields.len(),
                    known == scope.visible().union(text_values(type_names@).to_set()),
                    variant@ == (SpecDataVariant::Struct {
                        name: name@,
                        fields: pair_values(fields@),
                    }),
                    resolve_named(pair_values(fields@).take(i as int), known) == Ok::<
                        Seq<(Text, Text)>,
                        SpecResolveError,
                    >(resolved@),
                decreases fields.len() - i,
            {
                let field = &fields[i];
                let ghost all = pair_values(fields@);
                assert(all.take(i + 1).drop_last() =~= all.take(i as int));
                assert(all.take(i + 1).last() == (field.0@, field.1@));
                if !scope.has_type(&field.1) && !contains_text(type_names, &field.1) {
                    proof {
                        assert(!known.contains(field.1@));
                        assert(resolve_named(all.take(i + 1), known) is Err);
                        lemma_named_prefix(all, known, i + 1);
                    }
                    return Err(ResolveError::UnresolvedType { name: field.1.clone() });
                }
                let ghost before = resolved@;
                proof {
                    resolved.lemma_view_names();
                    resolved.lemma_lengths();
                }
                match resolved.insert(field.0.clone(), field.1.clone()) {
                    Some(_) => {
                        proof {
                            resolved.lemma_lengths();
                        }
                        assert(resolved@ =~= before.push((field.0@, field.1@)));
                    },
                    None => {
                        proof {
                            assert(known.contains(field.1@));
                            assert(names_of(before).contains(field.0@));
                            assert(resolve_named(all.take(i + 1), known) is Err);
                            lemma_named_prefix(all, known, i + 1);
                        }
                        return Err(
                            ResolveError::DuplicateName {
                                namespace: Namespace::Field,
                                name: field.0.clone(),
                            },
                        );
                    },
                }
                i = i + 1;
            }
            assert(pair_values(fields@).take(i as int) =~= pair_values(fields@));
            Ok((name.clone(), GenericFormat::Named { fields: resolved, variants }))
        },
    }
}

/// The variants of a sum type, resolved in order. A variant fails where
/// its format does, or else where its name was declared by a variant before
/// it; the first variant that fails decides.
pub open spec fn resolve_variants(variants: Seq<SpecDataVariant>, known: Set<Text>) -> Result<
    Seq<(Text, SpecVariantFormat)>,
    SpecResolveError,
>
    decreases variants.len(),
{
    if variants.len() == 0 {
        Ok(Seq::empty())
    } else {
        match resolve_variants(variants.drop_last(), known) {
            Err(error) => Err(error),
            Ok(resolved) => match resolve_format(variants.last(), known, ()) {
                Err(error) => Err(error),
                Ok(format) => if names_of(resolved).contains(variants.last().name()) {
                    Err(
                        SpecResolveError::DuplicateName {
                            namespace: Namespace::Variant,
                            name: variants.last().name(),
                        },
                    )
                } else {
                    Ok(resolved.push((variants.last().name(), format)))
                },
            },
        }
    }
}

/// The type that a data item declares. A single variant is a type of that
/// format, without variants; a sum type has named fields, none of them, and
/// its variants.
pub open spec fn resolve_item(item: SpecDataItem, known: Set<Text>) -> Result<
    SpecType,
    SpecResolveError,
> {
    match item {
        SpecDataItem::Single(variant) => match resolve_format(
            variant,
            known,
            Seq::<(Text, SpecVariantFormat)>::empty(),
        ) {
            Ok(format) => Ok(SpecType::User { format }),
            Err(error) => Err(error),
        },
        SpecDataItem::Multiple { variants, .. } => match resolve_variants(variants, known) {
            Ok(variants) => Ok(
                SpecType::User {
                    format: SpecFormat::Named { fields: Seq::empty(), variants },
                },
            ),
            Err(error) => Err(error),
        },
    }
}

/// The names of the types that the statements declare.
pub open spec fn declared_types(statements: Seq<SpecStatement>) -> Set<Text> {
    Set::new(
        |name: Text|
            exists|i: int|
                0 <= i < statements.len() && (#[trigger] statements[i]) is DataItem
                    && statements[i]->DataItem_0.name() == name,
    )
}

/// The types of a block, resolved in the order of their declarations. A data
/// item fails where its type does, or else where its name was declared by an
/// item before it; the first item that fails decides. Statements that are no
/// data items declare no type.
pub open spec fn resolve_types(statements: Seq<SpecStatement>, known: Set<Text>) -> Result<
    Seq<(Text, SpecType)>,
    SpecResolveError,
>
    decreases statements.len(),
{
    if statements.len() == 0 {
        Ok(Seq::empty())
    } else {
        match resolve_types(statements.drop_last(), known) {
            Err(error) => Err(error),
            Ok(resolved) => match statements.last() {
                SpecStatement::DataItem(item) => match resolve_item(item, known) {
                    Err(error) => Err(error),
                    Ok(declared) => if names_of(resolved).contains(item.name()) {
                        Err(
                            SpecResolveError::DuplicateName {
                                namespace: Namespace::Type,
                                name: item.name(),
                            },
                        )
                    } else {
                        Ok(resolved.push((item.name(), declared)))
                    },
                },
                _ => Ok(resolved),
            },
        }
    }
}

/// The functions of a block, resolved in the order of their declarations,
/// where `visible` are the type names that their bodies can see. A function
/// fails where its body does, or else where its name was declared by a
/// function before it; the first function that fails decides.
pub open spec fn resolve_functions(statements: Seq<SpecStatement>, visible: Set<Text>) -> Result<
    Seq<(Text, SpecFunction)>,
    SpecResolveError,
>
    decreases statements, 0int,
{
    if statements.len() == 0 {
        Ok(Seq::empty())
    } else {
        match resolve_functions(statements.drop_last(), visible) {
            Err(error) => Err(error),
            Ok(resolved) => match statements.last() {
                SpecStatement::FunctionItem(function) => match resolve_block(
                    function.body,
                    visible,
                ) {
                    Err(error) => Err(error),
                    Ok(code) => if names_of(resolved).contains(function.name) {
                        Err(
                            SpecResolveError::DuplicateName {
                                namespace: Namespace::Function,
                                name: function.name,
                            },
                        )
                    } else {
                        Ok(resolved.push((function.name, SpecFunction { code })))
                    },
                },
                _ => Ok(resolved),
            },
        }
    }
}

/// The resolved representation of a block, where `visible` are the type
/// names of the scopes around it.
///
/// The types come first. A field or a variant may refer to any type in
/// `visible` and to any type that the block itself declares, before or after
/// the reference. The functions follow; the body of each is resolved as a
/// block of its own that sees `visible` and the types of this block.
pub open spec fn resolve_block(block: SpecBlock, visible: Set<Text>) -> Result<
    SpecCode,
    SpecResolveError,
>
    decreases block, 1int,
{
    match resolve_types(block.0, visible.union(declared_types(block.0))) {
        Err(error) => Err(error),
        Ok(types) => match resolve_functions(
            block.0,
            visible.union(names_of(types).to_set()),
        ) {
            Err(error) => Err(error),
            Ok(functions) => Ok(SpecCode { scope: SpecScope { types, functions } }),
        },
    }
}

/// The variants of a sum type resolve exactly when the format of each
/// resolves and no two of them share a name.
pub proof fn lemma_variants_resolve(variants: Seq<SpecDataVariant>, known: Set<Text>)
    ensures
        resolve_variants(variants, known) is Ok <==> (forall|i: int|
            0 <= i < variants.len() ==> resolve_format(#[trigger] variants[i], known, ()) is Ok)
            && (forall|i: int, j: int|
            0 <= i < j < variants.len() ==> (#[trigger] variants[i]).name() != (
            #[trigger] variants[j]).name()),
        resolve_variants(variants, known) matches Ok(resolved) ==> resolved.len()
            == variants.len() && forall|i: int|
            0 <= i < variants.len() ==> (#[trigger] resolved[i]).0 == variants[i].name(),
    decreases variants.len(),
{
    if variants.len() > 0 {
        let shorter = variants.drop_last();
        let last = variants.len() - 1;
        lemma_variants_resolve(shorter, known);
        assert forall|i: int| 0 <= i < shorter.len() implies shorter[i] == variants[i] by {}
        if resolve_variants(variants, known) is Ok {
            let before = resolve_variants(shorter, known)->Ok_0;
            assert forall|i: int| 0 <= i < variants.len() implies resolve_format(
                #[trigger] variants[i],
                known,
                (),
            ) is Ok by {
                if i < last {
                    assert(shorter[i] == variants[i]);
                }
            }
            assert forall|i: int, j: int| 0 <= i < j < variants.len() implies (
            #[trigger] variants[i]).name() != (#[trigger] variants[j]).name() by {
                if j < last {
                    assert(shorter[i] == variants[i]);
                    assert(shorter[j] == variants[j]);
                } else {
                    assert(names_of(before)[i] == before[i].0);
                    assert(shorter[i] == variants[i]);
                }
            }
        }
        if (forall|i: int|
            0 <= i < variants.len() ==> resolve_format(#[trigger] variants[i], known, ()) is Ok)
            && (forall|i: int, j: int|
            0 <= i < j < variants.len() ==> (#[trigger] variants[i]).name() != (
            #[trigger] variants[j]).name()) {
            assert forall|i: int| 0 <= i < shorter.len() implies resolve_format(
                #[trigger] shorter[i],
                known,
                (),
            ) is Ok by {
                assert(shorter[i] == variants[i]);
            }
            assert forall|i: int, j: int| 0 <= i < j < shorter.len() implies (
            #[trigger] shorter[i]).name() != (#[trigger] shorter[j]).name() by {
                assert(shorter[i] == variants[i]);
                assert(shorter[j] == variants[j]);
            }
            let before = resolve_variants(shorter, known)->Ok_0;
            assert(resolve_format(variants[last], known, ()) is Ok);
            if names_of(before).contains(variants[last].name()) {
                let at = choose|at: int|
                    0 <= at < before.len() && names_of(before)[at] == variants[last].name();
                assert(before[at].0 == shorter[at].name());
                assert(shorter[at] == variants[at]);
                assert(variants[at].name() != variants[last].name());
            }
        }
    }
}

/// The types of a block resolve exactly when the type of each data item
/// resolves and no two data items declare the same name.
pub proof fn lemma_types_resolve(statements: Seq<SpecStatement>, known: Set<Text>)
    ensures
        resolve_types(statements, known) is Ok <==> (forall|i: int|
            0 <= i < statements.len() && (#[trigger] statements[i]) is DataItem ==> resolve_item(
                statements[i]->DataItem_0,
                known,
            ) is Ok) && (forall|i: int, j: int|
            0 <= i < j < statements.len() && (#[trigger] statements[i]) is DataItem && (
            #[trigger] statements[j]) is DataItem ==> statements[i]->DataItem_0.name()
                != statements[j]->DataItem_0.name()),
    decreases statements.len(),
{
    if statements.len() > 0 {
        let shorter = statements.drop_last();
        let last = statements.len() - 1;
        lemma_types_resolve(shorter, known);
        assert forall|i: int| 0 <= i < shorter.len() implies shorter[i] == statements[i] by {}
        if resolve_types(shorter, known) is Ok {
            lemma_resolved_type_names(shorter, known);
        }
        let before = resolve_types(shorter, known)->Ok_0;
        if resolve_types(statements, known) is Ok {
            assert forall|i: int|
                0 <= i < statements.len()
                    && (#[trigger] statements[i]) is DataItem implies resolve_item(
                statements[i]->DataItem_0,
                known,
            ) is Ok by {
                if i < last {
                    assert(shorter[i] == statements[i]);
                }
            }
            assert forall|i: int, j: int|
                0 <= i < j < statements.len() && (#[trigger] statements[i]) is DataItem && (
                #[trigger] statements[j]) is DataItem implies statements[i]->DataItem_0.name()
                != statements[j]->DataItem_0.name() by {
                if j < last {
                    assert(shorter[i] == statements[i]);
                    assert(shorter[j] == statements[j]);
                } else {
                    assert(shorter[i] == statements[i]);
                    assert(declared_types(shorter).contains(statements[i]->DataItem_0.name()));
                    assert(names_of(before).to_set().contains(
                        statements[i]->DataItem_0.name(),
                    ));
                }
            }
        }
        if (forall|i: int|
            0 <= i < statements.len() && (#[trigger] statements[i]) is DataItem ==> resolve_item(
                statements[i]->DataItem_0,
                known,
            ) is Ok) && (forall|i: int, j: int|
            0 <= i < j < statements.len() && (#[trigger] statements[i]) is DataItem && (
            #[trigger] statements[j]) is DataItem ==> statements[i]->DataItem_0.name()
                != statements[j]->DataItem_0.name()) {
            assert forall|i: int|
                0 <= i < shorter.len() && (#[trigger] shorter[i]) is DataItem implies resolve_item(
                shorter[i]->DataItem_0,
                known,
            ) is Ok by {
                assert(shorter[i] == statements[i]);
            }
            assert forall|i: int, j: int|
                0 <= i < j < shorter.len() && (#[trigger] shorter[i]) is DataItem && (
                #[trigger] shorter[j]) is DataItem implies shorter[i]->DataItem_0.name()
                != shorter[j]->DataItem_0.name() by {
                assert(shorter[i] == statements[i]);
                assert(shorter[j] == statements[j]);
            }
            if statements[last] is DataItem {
                let name = statements[last]->DataItem_0.name();
                if names_of(before).contains(name) {
                    assert(names_of(before).to_set().contains(name));
                    assert(declared_types(shorter).contains(name));
                    let k = choose|k: int|
                        0 <= k < shorter.len() && (#[trigger] shorter[k]) is DataItem
                            && shorter[k]->DataItem_0.name() == name;
                    assert(shorter[k] == statements[k]);
                    assert(statements[k]->DataItem_0.name() != statements[last]->DataItem_0.name());
                }
            }
        }
    }
}

/// What fails on a prefix of the variants of a sum type fails on all of them.
pub proof fn lemma_variants_prefix(variants: Seq<SpecDataVariant>, known: Set<Text>, length: int)
    requires
        0 <= length <= variants.len(),
        resolve_variants(variants.take(length), known) is Err,
    ensures
        resolve_variants(variants, known) == resolve_variants(variants.take(length), known),
    decreases variants.len(),
{
    if length < variants.len() {
        assert(variants.drop_last().take(length) =~= variants.take(length));
        lemma_variants_prefix(variants.drop_last(), known, length);
    } else {
        assert(variants.take(length) =~= variants);
    }
}

/// What fails on a prefix of the statements of a block fails on all of them.
pub proof fn lemma_types_prefix(statements: Seq<SpecStatement>, known: Set<Text>, length: int)
    requires
        0 <= length <= statements.len(),
        resolve_types(statements.take(length), known) is Err,
    ensures
        resolve_types(statements, known) == resolve_types(statements.take(length), known),
    decreases statements.len(),
{
    if length < statements.len() {
        assert(statements.drop_last().take(length) =~= statements.take(length));
        lemma_types_prefix(statements.drop_last(), known, length);
    } else {
        assert(statements.take(length) =~= statements);
    }
}

/// What fails on a prefix of the statements of a block fails on all of them.
pub proof fn lemma_functions_prefix(
    statements: Seq<SpecStatement>,
    visible: Set<Text>,
    length: int,
)
    requires
        0 <= length <= statements.len(),
        resolve_functions(statements.take(length), visible) is Err,
    ensures
        resolve_functions(statements, visible) == resolve_functions(
            statements.take(length),
            visible,
        ),
    decreases statements.len(),
{
    if length < statements.len() {
        assert(statements.drop_last().take(length) =~= statements.take(length));
        lemma_functions_prefix(statements.drop_last(), visible, length);
    } else {
        assert(statements.take(length) =~= statements);
    }
}

/// The types of a block that was resolved are the types that its
/// statements declare, each under the name of its declaration and none of
/// them twice: a name that was taken as known because the block declares it
/// does exist in the end.
pub proof fn lemma_resolved_type_names(statements: Seq<SpecStatement>, known: Set<Text>)
    requires
        resolve_types(statements, known) is Ok,
    ensures
        names_of(resolve_types(statements, known)->Ok_0).no_duplicates(),
        names_of(resolve_types(statements, known)->Ok_0).to_set() == declared_types(statements),
    decreases statements.len(),
{
    let types = resolve_types(statements, known)->Ok_0;
    if statements.len() == 0 {
        assert(names_of(types).to_set() =~= declared_types(statements));
    } else {
        let shorter = statements.drop_last();
        lemma_resolved_type_names(shorter, known);
        let before = resolve_types(shorter, known)->Ok_0;
        let last = statements.last();
        assert forall|name: Text| #[trigger]
            names_of(types).to_set().contains(name) == declared_types(statements).contains(
                name,
            ) by {
            if declared_types(statements).contains(name) {
                let k = choose|k: int|
                    0 <= k < statements.len() && (#[trigger] statements[k]) is DataItem
                        && statements[k]->DataItem_0.name() == name;
                if k < shorter.len() {
                    assert(shorter[k] == statements[k]);
                    assert(declared_types(shorter).contains(name));
                    let at = choose|at: int| 0 <= at < before.len() && names_of(before)[at] == name;
                    assert(names_of(types)[at] == name);
                } else {
                    assert(names_of(types)[before.len() as int] == name);
                }
            }
            if names_of(types).to_set().contains(name) {
                let at = choose|at: int| 0 <= at < types.len() && names_of(types)[at] == name;
                if at < before.len() {
                    assert(names_of(before)[at] == name);
                    assert(names_of(before).to_set().contains(name));
                    let k = choose|k: int|
                        0 <= k < shorter.len() && (#[trigger] shorter[k]) is DataItem
                            && shorter[k]->DataItem_0.name() == name;
                    assert(statements[k] == shorter[k]);
                } else {
                    assert(statements[statements.len() - 1] is DataItem);
                }
            }
        }
        assert(names_of(types).to_set() =~= declared_types(statements));
        if last is DataItem {
            assert(names_of(types) =~= names_of(before).push(last->DataItem_0.name()));
        }
    }
}

/// The names of the types that `block` declares, in the order of their
/// declarations. A name that is declared twice is there twice.
fn harvest_type_names(block: &Block) -> (names: Vec<String>)
    ensures
        text_values(names@).to_set() == declared_types(block@.0),
{
    let mut names: Vec<String> = Vec::new();
    let mut i: usize = 0;
    assert(block@.0 =~= statement_values(block.0@));
    assert(text_values(names@).to_set() =~= declared_types(block@.0.take(0)));
    while i < block.0.len()
        invariant
            i <= block.0.len(),
            block@.0 == statement_values(block.0@),
            text_values(names@).to_set() == declared_types(block@.0.take(i as int)),
        decreases block.0.len() - i,
    {
        let ghost before = names@;
        let ghost prefix = block@.0.take(i as int);
        let ghost longer = block@.0.take(i + 1);
        assert(longer.drop_last() =~= prefix);
        match block.0[i].data_item_ref() {
            Some(item) => {
                let name = item.name().to_owned();
                names.push(name);
                proof {
                    assert(text_values(names@) =~= text_values(before).push(item@.name()));
                    assert forall|name: Text| #[trigger]
                        text_values(names@).to_set().contains(name) == declared_types(
                            longer,
                        ).contains(name) by {
                        if declared_types(longer).contains(name) {
                            let k = choose|k: int|
                                0 <= k < longer.len() && (#[trigger] longer[k]) is DataItem
                                    && longer[k]->DataItem_0.name() == name;
                            if k < i {
                                assert(prefix[k] == longer[k]);
                                assert(declared_types(prefix).contains(name));
                                let at = choose|at: int|
                                    0 <= at < before.len() && text_values(before)[at] == name;
                                assert(text_values(names@)[at] == name);
                            } else {
                                assert(text_values(names@)[before.len() as int] == name);
                            }
                        }
                        if text_values(names@).to_set().contains(name) {
                            let at = choose|at: int|
                                0 <= at < names@.len() && text_values(names@)[at] == name;
                            if at < before.len() {
                                assert(text_values(before)[at] == name);
                                assert(text_values(before).to_set().contains(name));
                                let k = choose|k: int|
                                    0 <= k < prefix.len() && (#[trigger] prefix[k]) is DataItem
                                        && prefix[k]->DataItem_0.name() == name;
                                assert(longer[k] == prefix[k]);
                            } else {
                                assert(longer[i as int] is DataItem);
                            }
                        }
                    }
                    assert(text_values(names@).to_set() =~= declared_types(longer));
                }
            },
            None => {
                proof {
                    assert forall|name: Text| #[trigger]
                        declared_types(prefix).contains(name) == declared_types(longer).contains(
                            name,
                        ) by {
                        if declared_types(longer).contains(name) {
                            let k = choose|k: int|
                                0 <= k < longer.len() && (#[trigger] longer[k]) is DataItem
                                    && longer[k]->DataItem_0.name() == name;
                            assert(prefix[k] == longer[k]);
                        }
                        if declared_types(prefix).contains(name) {
                            let k = choose|k: int|
                                0 <= k < prefix.len() && (#[trigger] prefix[k]) is DataItem
                                    && prefix[k]->DataItem_0.name() == name;
                            assert(longer[k] == prefix[k]);
                        }
                    }
                    assert(declared_types(prefix) =~= declared_types(longer));
                }
            },
        }
        i = i + 1;
    }
    assert(block@.0.take(i as int) =~= block@.0);
    names
}

/// Resolves the type that the data item `data` declares.
fn construct_type(data: &DataItem, scope: ScopeRef, type_names: &Vec<String>) -> (outcome: Result<
    Type,
    ResolveError,
>)
    ensures
        match resolve_item(data@, scope.visible().union(text_values(type_names@).to_set())) {
            Ok(declared) => outcome matches Ok(resolved) && resolved@ == declared,
            Err(error) => outcome matches Err(raised) && raised@ == error,
        },
{
    let ghost known = scope.visible().union(text_values(type_names@).to_set());
    match data {
        DataItem::Single(variant) => {
            let none: Table<EnumVariantFormat> = Table::new();
            assert(none@ =~= Seq::<(Text, SpecVariantFormat)>::empty());
            match construct_data_representation(variant, scope, type_names, none) {
                Ok(resolved) => Ok(Type::User { format: resolved.1 }),
                Err(error) => Err(error),
            }
        },
        DataItem::Multiple { name: _, variants } => {
            let mut resolved: Table<EnumVariantFormat> = Table::new();
            let mut i: usize = 0;
            assert(variant_values(variants@).take(0) =~= Seq::<SpecDataVariant>::empty());
            assert(resolved@ =~= Seq::<(Text, SpecVariantFormat)>::empty());
            while i < variants.len()
                invariant
                    i <= variants.len(),
                    known == scope.visible().union(text_values(type_names@).to_set()),
                    data@ is Multiple,
                    data@->Multiple_variants == variant_values(variants@),
                    resolve_variants(variant_values(variants@).take(i as int), known) == Ok::<
                        Seq<(Text, SpecVariantFormat)>,
                        SpecResolveError,
                    >(resolved@),
                decreases variants.len() - i,
            {
                let ghost all = variant_values(variants@);
                assert(all.take(i + 1).drop_last() =~= all.take(i as int));
                assert(all.take(i + 1).last() == variants[i as int]@);
                let (name, format) = match construct_data_representation(
                    &variants[i],
                    scope,
                    type_names,
                    (),
                ) {
                    Ok(resolved) => resolved,
                    Err(error) => {
                        proof {
                            assert(resolve_variants(all.take(i + 1), known) is Err);
                            lemma_variants_prefix(all, known, i + 1);
                        }
                        return Err(error);
                    },
                };
                let ghost before = resolved@;
                proof {
                    resolved.lemma_view_names();
                    resolved.lemma_lengths();
                }
                match resolved.insert(name.clone(), format) {
                    Some(_) => {
                        proof {
                            resolved.lemma_lengths();
                        }
                        assert(resolved@ =~= before.push((name@, format@)));
                    },
                    None => {
                        proof {
                            assert(names_of(before).contains(name@));
                            assert(resolve_variants(all.take(i + 1), known) is Err);
                            lemma_variants_prefix(all, known, i + 1);
                        }
                        return Err(
                            ResolveError::DuplicateName { namespace: Namespace::Variant, name },
                        );
                    },
                }
                i = i + 1;
            }
            assert(variant_values(variants@).take(i as int) =~= variant_values(variants@));
            let fields: Table<String> = Table::new();
            assert(fields@ =~= Seq::<(Text, Text)>::empty());
            Ok(Type::User { format: GenericFormat::Named { fields, variants: resolved } })
        },
    }
}

/// Resolves a block into its representation: the types and the functions
/// that it declares, with every reference to a type checked. `scope` is the
/// chain of scopes around the block.
///
/// A field or a variant may refer to a type that `scope` sees or that the
/// block declares anywhere. The body of a function is resolved as a block of
/// its own, inside this one. The first declaration that breaks a rule, types
/// before functions and each in the order of the statements, is the error.
pub fn construct_main_representation(block: &Block, scope: ScopeRef) -> (outcome: Result<
    Code,
    ResolveError,
>)
    ensures
        match resolve_block(block@, scope.visible()) {
            Ok(code) => outcome matches Ok(resolved) && resolved@ == code,
            Err(error) => outcome matches Err(raised) && raised@ == error,
        },
    decreases block,
{
    let type_names = harvest_type_names(block);
    let ghost statements = block@.0;
    let ghost known = scope.visible().union(declared_types(statements));
    assert(statements =~= statement_values(block.0@));

    let mut types: Table<Type> = Table::new();
    let mut i: usize = 0;
    assert(statements.take(0) =~= Seq::<SpecStatement>::empty());
    assert(types@ =~= Seq::<(Text, SpecType)>::empty());
    while i < block.0.len()
        invariant
            i <= block.0.len(),
            statements == block@.0,
            statements == statement_values(block.0@),
            known == scope.visible().union(declared_types(statements)),
            known == scope.visible().union(text_values(type_names@).to_set()),
            resolve_types(statements.take(i as int), known) == Ok::<
                Seq<(Text, SpecType)>,
                SpecResolveError,
            >(types@),
        decreases block.0.len() - i,
    {
        assert(statements.take(i + 1).drop_last() =~= statements.take(i as int));
        assert(statements.take(i + 1).last() == block.0[i as int]@);
        match block.0[i].data_item_ref() {
            Some(data) => {
                let declared = match construct_type(data, scope, &type_names) {
                    Ok(declared) => declared,
                    Err(error) => {
                        proof {
                            assert(resolve_types(statements.take(i + 1), known) is Err);
                            lemma_types_prefix(statements, known, i + 1);
                        }
                        return Err(error);
                    },
                };
                let name = data.name().to_owned();
                let ghost before = types@;
                proof {
                    types.lemma_view_names();
                    types.lemma_lengths();
                }
                match types.insert(name.clone(), declared) {
                    Some(_) => {
                        proof {
                            types.lemma_lengths();
                        }
                        assert(types@ =~= before.push((name@, declared@)));
                    },
                    None => {
                        proof {
                            assert(names_of(before).contains(name@));
                            assert(resolve_types(statements.take(i + 1), known) is Err);
                            lemma_types_prefix(statements, known, i + 1);
                        }
                        return Err(
                            ResolveError::DuplicateName { namespace: Namespace::Type, name },
                        );
                    },
                }
            },
            None => {},
        }
        i = i + 1;
    }
    assert(statements.take(i as int) =~= statements);

    let current = Scope { types, functions: FunctionTable::new() };
    let ghost inner = scope.visible().union(names_of(current.types@).to_set());
    proof {
        current.types.lemma_view_names();
    }
    let mut functions = FunctionTable::new();
    let mut j: usize = 0;
    while j < block.0.len()
        invariant
            j <= block.0.len(),
            statements == block@.0,
            statements == statement_values(block.0@),
            known == scope.visible().union(declared_types(statements)),
            inner == scope.visible().union(current.types.names().to_set()),
            resolve_types(statements, known) == Ok::<Seq<(Text, SpecType)>, SpecResolveError>(
                current.types@,
            ),
            inner == scope.visible().union(names_of(current.types@).to_set()),
            resolve_functions(statements.take(j as int), inner) == Ok::<
                Seq<(Text, SpecFunction)>,
                SpecResolveError,
            >(functions@),
        decreases block.0.len() - j,
    {
        assert(statements.take(j + 1).drop_last() =~= statements.take(j as int));
        assert(statements.take(j + 1).last() == block.0[j as int]@);
        match block.0[j].function_item_ref() {
            Some(function) => {
                let code = match construct_main_representation(
                    &function.body,
                    scope.enter(&current),
                ) {
                    Ok(code) => code,
                    Err(error) => {
                        proof {
                            assert(resolve_functions(statements.take(j + 1), inner) is Err);
                            lemma_functions_prefix(statements, inner, j + 1);
                        }
                        return Err(error);
                    },
                };
                let name = function.name.clone();
                let ghost before = functions@;
                let declared = Function { code };
                match functions.insert(name.clone(), declared) {
                    Some(_) => {
                        assert(!names_of(before).contains(name@));
                    },
                    None => {
                        proof {
                            let at = choose|at: int|
                                0 <= at < before.len() && (#[trigger] before[at]).0 == name@;
                            assert(names_of(before)[at] == name@);
                            assert(resolve_functions(statements.take(j + 1), inner) is Err);
                            lemma_functions_prefix(statements, inner, j + 1);
                        }
                        return Err(
                            ResolveError::DuplicateName { namespace: Namespace::Function, name },
                        );
                    },
                }
            },
            None => {},
        }
        j = j + 1;
    }
    assert(statements.take(j as int) =~= statements);
    let Scope { types, functions: _ } = current;
    Ok(Code { scope: Scope { types, functions } })
}

} // verus!
