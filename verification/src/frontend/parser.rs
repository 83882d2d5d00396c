//! Syntax analysis: tokens in, a tree of declarations out.

use vstd::prelude::*;
use super::tokenizer::{token_values, SpecToken, Token, TokenKind};
use crate::text::{pair_values, text_values, Text};

verus! {

/// An ordered sequence of statements.
#[derive(Debug, PartialEq, Eq)]
pub struct Block(pub Vec<Statement>);

/// One statement of a block. The parser gives items only; an expression
/// as a statement is there for trees that are built by hand.
#[derive(Debug, PartialEq, Eq)]
pub enum Statement {
    DataItem(DataItem),
    FunctionItem(FunctionItem),
    LetItem(LetItem),
    Expression(Expression),
}

/// An expression: a block, a literal, or a call.
#[derive(Debug, PartialEq, Eq)]
pub enum Expression {
    Block(Block),
    LiteralInteger(String),
    LiteralBoolean(bool),
    FunctionCall { name: String, arguments: Vec<Expression> },
}

/// A declaration of a record type or of a sum type.
#[derive(Debug, Clone, PartialEq, Eq)]
pub enum DataItem {
    Single(DataVariant),
    Multiple { name: String, variants: Vec<DataVariant> },
}

/// One shape of data: no fields, positional fields, or named fields.
#[derive(Debug, Clone, PartialEq, Eq)]
pub enum DataVariant {
    Marker { name: String },
    Tuple { name: String, fields: Vec<String> },
    Struct { name: String, fields: Vec<(String, String)> },
}

/// A function: its name, its arguments as pairs of name and type, and its
/// body. The grammar has no arguments yet, so the parser leaves them empty.
#[derive(Debug, PartialEq, Eq)]
pub struct FunctionItem {
    pub name: String,
    pub arguments: Vec<(String, String)>,
    pub body: Block,
}

/// A binding: its name, the name of its type, and its value.
#[derive(Debug, PartialEq, Eq)]
pub struct LetItem {
    pub name: String,
    pub declared_type: String,
    pub expression: Expression,
}

/// The mathematical value of a [`Block`].
pub struct SpecBlock(pub Seq<SpecStatement>);

/// The mathematical value of a [`Statement`].
pub enum SpecStatement {
    DataItem(SpecDataItem),
    FunctionItem(SpecFunctionItem),
    LetItem(SpecLetItem),
    Expression(SpecExpression),
}

/// The mathematical value of an [`Expression`].
pub enum SpecExpression {
    Block(SpecBlock),
    LiteralInteger(Text),
    LiteralBoolean(bool),
    FunctionCall { name: Text, arguments: Seq<SpecExpression> },
}

/// The mathematical value of a [`DataItem`].
pub enum SpecDataItem {
    Single(SpecDataVariant),
    Multiple { name: Text, variants: Seq<SpecDataVariant> },
}

/// The mathematical value of a [`DataVariant`].
pub enum SpecDataVariant {
    Marker { name: Text },
    Tuple { name: Text, fields: Seq<Text> },
    Struct { name: Text, fields: Seq<(Text, Text)> },
}

/// The mathematical value of a [`FunctionItem`].
pub struct SpecFunctionItem {
    pub name: Text,
    pub arguments: Seq<(Text, Text)>,
    pub body: SpecBlock,
}

/// The mathematical value of a [`LetItem`].
pub struct SpecLetItem {
    pub name: Text,
    pub declared_type: Text,
    pub expression: SpecExpression,
}

impl View for DataVariant {
    type V = SpecDataVariant;

    open spec fn view(&self) -> SpecDataVariant {
        match self {
            DataVariant::Marker { name } => SpecDataVariant::Marker { name: name@ },
            DataVariant::Tuple { name, fields } => SpecDataVariant::Tuple {
                name: name@,
                fields: text_values(fields@),
            },
            DataVariant::Struct { name, fields } => SpecDataVariant::Struct {
                name: name@,
                fields: pair_values(fields@),
            },
        }
    }
}

impl SpecDataVariant {
    /// The name that the variant declares.
    pub open spec fn name(self) -> Text {
        match self {
            SpecDataVariant::Marker { name } => name,
            SpecDataVariant::Tuple { name, .. } => name,
            SpecDataVariant::Struct { name, .. } => name,
        }
    }
}

impl SpecDataItem {
    /// The name of the type that the item declares.
    pub open spec fn name(self) -> Text {
        match self {
            SpecDataItem::Single(variant) => variant.name(),
            SpecDataItem::Multiple { name, .. } => name,
        }
    }
}

impl DataVariant {
    /// The name that the variant declares.
    pub fn name(&self) -> (name: &str)
        ensures
            name@ == self@.name(),
    {
        match self {
            DataVariant::Marker { name } => name.as_str(),
            DataVariant::Tuple { name, .. } => name.as_str(),
            DataVariant::Struct { name, .. } => name.as_str(),
        }
    }
}

impl DataItem {
    /// The name of the type that the item declares.
    pub fn name(&self) -> (name: &str)
        ensures
            name@ == self@.name(),
    {
        match self {
            DataItem::Single(variant) => variant.name(),
            DataItem::Multiple { name, .. } => name.as_str(),
        }
    }
}

impl Statement {
    /// The data item that this statement is, if it is one.
    pub fn data_item_ref(&self) -> (item: Option<&DataItem>)
        ensures
            match self {
                Statement::DataItem(own) => item == Some(own),
                _ => item is None,
            },
    {
        match self {
            Statement::DataItem(item) => Some(item),
            _ => None,
        }
    }

    /// The function item that this statement is, if it is one.
    pub fn function_item_ref(&self) -> (item: Option<&FunctionItem>)
        ensures
            match self {
                Statement::FunctionItem(own) => item == Some(own),
                _ => item is None,
            },
    {
        match self {
            Statement::FunctionItem(item) => Some(item),
            _ => None,
        }
    }
}

impl View for DataItem {
    type V = SpecDataItem;

    open spec fn view(&self) -> SpecDataItem {
        match self {
            DataItem::Single(variant) => SpecDataItem::Single(variant@),
            DataItem::Multiple { name, variants } => SpecDataItem::Multiple {
                name: name@,
                variants: variants@.map_values(|variant: DataVariant| variant@),
            },
        }
    }
}

impl View for Block {
    type V = SpecBlock;

    open spec fn view(&self) -> SpecBlock
        decreases self,
    {
        SpecBlock(
            Seq::new(
                self.0.len() as nat,
                |i: int|
                    if 0 <= i < self.0.len() {
                        self.0[i]@
                    } else {
                        arbitrary()
                    },
            ),
        )
    }
}

impl View for Statement {
    type V = SpecStatement;

    open spec fn view(&self) -> SpecStatement
        decreases self,
    {
        match self {
            Statement::DataItem(item) => SpecStatement::DataItem(item@),
            Statement::FunctionItem(item) => SpecStatement::FunctionItem(item@),
            Statement::LetItem(item) => SpecStatement::LetItem(item@),
            Statement::Expression(expression) => SpecStatement::Expression(expression@),
        }
    }
}

impl View for FunctionItem {
    type V = SpecFunctionItem;

    open spec fn view(&self) -> SpecFunctionItem
        decreases self,
    {
        SpecFunctionItem {
            name: self.name@,
            arguments: pair_values(self.arguments@),
            body: self.body@,
        }
    }
}

impl View for LetItem {
    type V = SpecLetItem;

    open spec fn view(&self) -> SpecLetItem
        decreases self,
    {
        SpecLetItem {
            name: self.name@,
            declared_type: self.declared_type@,
            expression: self.expression@,
        }
    }
}

impl View for Expression {
    type V = SpecExpression;

    open spec fn view(&self) -> SpecExpression
        decreases self,
    {
        match self {
            Expression::Block(block) => SpecExpression::Block(block@),
            Expression::LiteralInteger(digits) => SpecExpression::LiteralInteger(digits@),
            Expression::LiteralBoolean(value) => SpecExpression::LiteralBoolean(*value),
            Expression::FunctionCall { name, arguments } => SpecExpression::FunctionCall {
                name: name@,
                arguments: Seq::new(
                    arguments.len() as nat,
                    |i: int|
                        if 0 <= i < arguments.len() {
                            arguments[i]@
                        } else {
                            arbitrary()
                        },
                ),
            },
        }
    }
}

/// What the grammar accepts at the point where parsing failed.
#[derive(Debug, Clone, Copy, PartialEq, Eq, Structural)]
pub enum Expected {
    /// A token of exactly this kind.
    Kind(TokenKind),
    /// A token of one of these two kinds.
    Either(TokenKind, TokenKind),
    /// What may follow the name of a data item: `;`, `(` or `{`.
    DataShape,
    /// What may follow the name of a variant: `(`, `{`, `:`, `,` or `}`.
    VariantShape,
    /// The start of an expression.
    Expression,
}

/// A token that the grammar does not accept where it stands. `found` is
/// `None` where the tokens ended instead; `position` counts tokens.
#[derive(Debug, Clone, PartialEq, Eq)]
pub struct SyntaxError {
    pub expected: Expected,
    pub found: Option<Token>,
    pub position: usize,
}

/// The mathematical value of a [`SyntaxError`].
pub struct SpecSyntaxError {
    pub expected: Expected,
    pub found: Option<SpecToken>,
    pub position: int,
}

impl View for SyntaxError {
    type V = SpecSyntaxError;

    open spec fn view(&self) -> SpecSyntaxError {
        SpecSyntaxError {
            expected: self.expected,
            found: match self.found {
                Some(token) => Some(token@),
                None => None,
            },
            position: self.position as int,
        }
    }
}

/// The outcome of parsing one construct: its value and the position just
/// behind it, or the token that was not accepted.
pub type Parsed<T> = Result<(T, int), SpecSyntaxError>;

/// The token at `position`, if the tokens reach that far.
pub open spec fn token_at(tokens: Seq<SpecToken>, position: int) -> Option<SpecToken> {
    if 0 <= position < tokens.len() {
        Some(tokens[position])
    } else {
        None
    }
}

/// The kind of the token at `position`, if the tokens reach that far.
pub open spec fn kind_at(tokens: Seq<SpecToken>, position: int) -> Option<TokenKind> {
    match token_at(tokens, position) {
        Some(token) => Some(token.kind()),
        None => None,
    }
}

/// The error for the token at `position`, where the grammar asks for `expected`.
pub open spec fn unexpected(
    tokens: Seq<SpecToken>,
    position: int,
    expected: Expected,
) -> SpecSyntaxError {
    SpecSyntaxError { expected, found: token_at(tokens, position), position }
}

/// A token of kind `kind` at `position`: its text, and the position behind it.
pub open spec fn expect(tokens: Seq<SpecToken>, position: int, kind: TokenKind) -> Parsed<Text> {
    if kind_at(tokens, position) == Some(kind) {
        Ok((tokens[position].payload(), position + 1))
    } else {
        Err(unexpected(tokens, position, Expected::Kind(kind)))
    }
}

/// The types of a tuple, from behind its `(`: identifiers separated by
/// commas, with or without a comma behind the last, up to and with the `)`.
pub open spec fn grammar_types(tokens: Seq<SpecToken>, position: int) -> Parsed<Seq<Text>>
    decreases tokens.len() - position,
{
    match kind_at(tokens, position) {
        Some(TokenKind::ParenRight) => Ok((Seq::empty(), position + 1)),
        Some(TokenKind::Identifier) => {
            let name = tokens[position].payload();
            match kind_at(tokens, position + 1) {
                Some(TokenKind::ParenRight) => Ok((seq![name], position + 2)),
                Some(TokenKind::Comma) => match grammar_types(tokens, position + 2) {
                    Ok((rest, next)) => Ok((seq![name] + rest, next)),
                    Err(error) => Err(error),
                },
                _ => Err(
                    unexpected(
                        tokens,
                        position + 1,
                        Expected::Either(TokenKind::Comma, TokenKind::ParenRight),
                    ),
                ),
            }
        },
        _ => Err(
            unexpected(
                tokens,
                position,
                Expected::Either(TokenKind::Identifier, TokenKind::ParenRight),
            ),
        ),
    }
}

/// One field, `name : type`, at `position`.
pub open spec fn grammar_field(tokens: Seq<SpecToken>, position: int) -> Parsed<(Text, Text)> {
    match expect(tokens, position, TokenKind::Identifier) {
        Err(error) => Err(error),
        Ok((name, _)) => match expect(tokens, position + 1, TokenKind::Colon) {
            Err(error) => Err(error),
            Ok(_) => match expect(tokens, position + 2, TokenKind::Identifier) {
                Err(error) => Err(error),
                Ok((declared, _)) => Ok(((name, declared), position + 3)),
            },
        },
    }
}

/// The fields of a struct variant, from behind its `{`: fields separated by
/// commas, with or without a comma behind the last, up to and with the `}`.
pub open spec fn grammar_variant_fields(tokens: Seq<SpecToken>, position: int) -> Parsed<
    Seq<(Text, Text)>,
>
    decreases tokens.len() - position,
{
    match kind_at(tokens, position) {
        Some(TokenKind::BraceRight) => Ok((Seq::empty(), position + 1)),
        Some(TokenKind::Identifier) => match grammar_field(tokens, position) {
            Err(error) => Err(error),
            Ok((field, _)) => match kind_at(tokens, position + 3) {
                Some(TokenKind::BraceRight) => Ok((seq![field], position + 4)),
                Some(TokenKind::Comma) => match grammar_variant_fields(tokens, position + 4) {
                    Ok((rest, next)) => Ok((seq![field] + rest, next)),
                    Err(error) => Err(error),
                },
                _ => Err(
                    unexpected(
                        tokens,
                        position + 3,
                        Expected::Either(TokenKind::Comma, TokenKind::BraceRight),
                    ),
                ),
            },
        },
        _ => Err(
            unexpected(
                tokens,
                position,
                Expected::Either(TokenKind::Identifier, TokenKind::BraceRight),
            ),
        ),
    }
}

/// The fields of a struct item, from its first field: one field or more,
/// separated by commas, up to and with the `}`.
pub open spec fn grammar_struct_fields(tokens: Seq<SpecToken>, position: int) -> Parsed<
    Seq<(Text, Text)>,
>
    decreases tokens.len() - position,
{
    match grammar_field(tokens, position) {
        Err(error) => Err(error),
        Ok((field, _)) => match kind_at(tokens, position + 3) {
            Some(TokenKind::BraceRight) => Ok((seq![field], position + 4)),
            Some(TokenKind::Comma) => match grammar_struct_fields(tokens, position + 4) {
                Ok((rest, next)) => Ok((seq![field] + rest, next)),
                Err(error) => Err(error),
            },
            _ => Err(
                unexpected(
                    tokens,
                    position + 3,
                    Expected::Either(TokenKind::Comma, TokenKind::BraceRight),
                ),
            ),
        },
    }
}

/// One variant of a sum type, from its name. What follows the name decides:
/// `(` starts a tuple, `{` a struct, `:` ends a marker, and before `,` or
/// `}` the name alone is a marker.
pub open spec fn grammar_variant(tokens: Seq<SpecToken>, position: int) -> Parsed<
    SpecDataVariant,
> {
    match expect(tokens, position, TokenKind::Identifier) {
        Err(error) => Err(error),
        Ok((name, _)) => match kind_at(tokens, position + 1) {
            Some(TokenKind::ParenLeft) => match grammar_types(tokens, position + 2) {
                Ok((fields, next)) => Ok((SpecDataVariant::Tuple { name, fields }, next)),
                Err(error) => Err(error),
            },
            Some(TokenKind::BraceLeft) => match grammar_variant_fields(tokens, position + 2) {
                Ok((fields, next)) => Ok((SpecDataVariant::Struct { name, fields }, next)),
                Err(error) => Err(error),
            },
            Some(TokenKind::Colon) => Ok((SpecDataVariant::Marker { name }, position + 2)),
            Some(TokenKind::Comma) | Some(TokenKind::BraceRight) => Ok(
                (SpecDataVariant::Marker { name }, position + 1),
            ),
            _ => Err(unexpected(tokens, position + 1, Expected::VariantShape)),
        },
    }
}

/// A list that was parsed ends behind its start and inside the tokens.
pub proof fn lemma_lists_advance(tokens: Seq<SpecToken>, position: int)
    requires
        0 <= position,
    ensures
        grammar_types(tokens, position) matches Ok((_, next)) ==> position < next <= tokens.len(),
        grammar_variant_fields(tokens, position) matches Ok((_, next)) ==> position < next
            <= tokens.len(),
        grammar_struct_fields(tokens, position) matches Ok((_, next)) ==> position < next
            <= tokens.len(),
    decreases tokens.len() - position,
{
    if position + 1 < tokens.len() {
        lemma_lists_advance(tokens, position + 2);
    }
    if position + 3 < tokens.len() {
        lemma_lists_advance(tokens, position + 4);
    }
}

/// A variant that was parsed ends behind its start and inside the tokens.
pub proof fn lemma_variant_advances(tokens: Seq<SpecToken>, position: int)
    requires
        0 <= position,
    ensures
        grammar_variant(tokens, position) matches Ok((_, next)) ==> position < next
            <= tokens.len(),
{
    lemma_lists_advance(tokens, position + 2);
}

/// The variants of a sum type, from the name of the first: one variant or
/// more, separated by commas, up to and with the `}`.
pub open spec fn grammar_variants(tokens: Seq<SpecToken>, position: int) -> Parsed<
    Seq<SpecDataVariant>,
>
    decreases tokens.len() - position,
{
    if position < 0 {
        Err(unexpected(tokens, position, Expected::Kind(TokenKind::Identifier)))
    } else {
        match grammar_variant(tokens, position) {
            Err(error) => Err(error),
            Ok((variant, behind)) => match kind_at(tokens, behind) {
                Some(TokenKind::BraceRight) => Ok((seq![variant], behind + 1)),
                Some(TokenKind::Comma) => {
                    proof {
                        lemma_variant_advances(tokens, position);
                    }
                    match grammar_variants(tokens, behind + 1) {
                        Ok((rest, next)) => Ok((seq![variant] + rest, next)),
                        Err(error) => Err(error),
                    }
                },
                _ => Err(
                    unexpected(
                        tokens,
                        behind,
                        Expected::Either(TokenKind::Comma, TokenKind::BraceRight),
                    ),
                ),
            },
        }
    }
}

/// What stands between the braces of `data NAME { ... }`, from behind the
/// `{`. An identifier with a `:` behind it starts the fields of a struct; any
/// other identifier is the first variant of a sum type; `}` at once is a sum
/// type without variants.
pub open spec fn grammar_braced(tokens: Seq<SpecToken>, position: int, name: Text) -> Parsed<
    SpecDataItem,
> {
    match kind_at(tokens, position) {
        Some(TokenKind::BraceRight) => Ok(
            (SpecDataItem::Multiple { name, variants: Seq::empty() }, position + 1),
        ),
        Some(TokenKind::Identifier) => if kind_at(tokens, position + 1) == Some(
            TokenKind::Colon,
        ) {
            match grammar_struct_fields(tokens, position) {
                Ok((fields, next)) => Ok(
                    (SpecDataItem::Single(SpecDataVariant::Struct { name, fields }), next),
                ),
                Err(error) => Err(error),
            }
        } else {
            match grammar_variants(tokens, position) {
                Ok((variants, next)) => Ok((SpecDataItem::Multiple { name, variants }, next)),
                Err(error) => Err(error),
            }
        },
        _ => Err(
            unexpected(
                tokens,
                position,
                Expected::Either(TokenKind::Identifier, TokenKind::BraceRight),
            ),
        ),
    }
}

/// A data item, from its keyword:
/// `data NAME ;`, `data NAME ( types ) ;` or `data NAME { ... }`.
pub open spec fn grammar_data(tokens: Seq<SpecToken>, position: int) -> Parsed<SpecDataItem> {
    match expect(tokens, position, TokenKind::KeywordData) {
        Err(error) => Err(error),
        Ok(_) => match expect(tokens, position + 1, TokenKind::Identifier) {
            Err(error) => Err(error),
            Ok((name, _)) => match kind_at(tokens, position + 2) {
                Some(TokenKind::SemiColon) => Ok(
                    (SpecDataItem::Single(SpecDataVariant::Marker { name }), position + 3),
                ),
                Some(TokenKind::ParenLeft) => match grammar_types(tokens, position + 3) {
                    Err(error) => Err(error),
                    Ok((fields, behind)) => match expect(tokens, behind, TokenKind::SemiColon) {
                        Err(error) => Err(error),
                        Ok(_) => Ok(
                            (
                                SpecDataItem::Single(SpecDataVariant::Tuple { name, fields }),
                                behind + 1,
                            ),
                        ),
                    },
                },
                Some(TokenKind::BraceLeft) => grammar_braced(tokens, position + 3, name),
                _ => Err(unexpected(tokens, position + 2, Expected::DataShape)),
            },
        },
    }
}

/// A data item that was parsed ends behind its start and inside the tokens.
pub proof fn lemma_data_advances(tokens: Seq<SpecToken>, position: int)
    requires
        0 <= position,
    ensures
        grammar_data(tokens, position) matches Ok((_, next)) ==> position < next <= tokens.len(),
{
    lemma_lists_advance(tokens, position + 3);
    lemma_variants_advance(tokens, position + 3);
}

/// A list of variants that was parsed ends behind its start and inside the
/// tokens.
pub proof fn lemma_variants_advance(tokens: Seq<SpecToken>, position: int)
    requires
        0 <= position,
    ensures
        grammar_variants(tokens, position) matches Ok((_, next)) ==> position < next
            <= tokens.len(),
    decreases tokens.len() - position,
{
    lemma_variant_advances(tokens, position);
    if let Ok((_, behind)) = grammar_variant(tokens, position) {
        if kind_at(tokens, behind) == Some(TokenKind::Comma) {
            lemma_variants_advance(tokens, behind + 1);
        }
    }
}

/// A function item, from its keyword: `fn NAME ( ) { block }`.
pub open spec fn grammar_function(tokens: Seq<SpecToken>, position: int) -> Parsed<
    SpecFunctionItem,
>
    decreases tokens.len() - position, 0int,
{
    match expect(tokens, position, TokenKind::KeywordFn) {
        Err(error) => Err(error),
        Ok(_) => match expect(tokens, position + 1, TokenKind::Identifier) {
            Err(error) => Err(error),
            Ok((name, _)) => match expect(tokens, position + 2, TokenKind::ParenLeft) {
                Err(error) => Err(error),
                Ok(_) => match expect(tokens, position + 3, TokenKind::ParenRight) {
                    Err(error) => Err(error),
                    Ok(_) => match expect(tokens, position + 4, TokenKind::BraceLeft) {
                        Err(error) => Err(error),
                        Ok(_) => match grammar_block(tokens, position + 5) {
                            Err(error) => Err(error),
                            Ok((body, behind)) => match expect(
                                tokens,
                                behind,
                                TokenKind::BraceRight,
                            ) {
                                Err(error) => Err(error),
                                Ok(_) => Ok(
                                    (
                                        SpecFunctionItem { name, arguments: Seq::empty(), body },
                                        behind + 1,
                                    ),
                                ),
                            },
                        },
                    },
                },
            },
        },
    }
}

/// A let item, from its keyword: `let NAME : TYPE = expression ;`.
pub open spec fn grammar_let(tokens: Seq<SpecToken>, position: int) -> Parsed<SpecLetItem>
    decreases tokens.len() - position, 0int,
{
    match expect(tokens, position, TokenKind::KeywordLet) {
        Err(error) => Err(error),
        Ok(_) => match expect(tokens, position + 1, TokenKind::Identifier) {
            Err(error) => Err(error),
            Ok((name, _)) => match expect(tokens, position + 2, TokenKind::Colon) {
                Err(error) => Err(error),
                Ok(_) => match expect(tokens, position + 3, TokenKind::Identifier) {
                    Err(error) => Err(error),
                    Ok((declared_type, _)) => match expect(
                        tokens,
                        position + 4,
                        TokenKind::Equals,
                    ) {
                        Err(error) => Err(error),
                        Ok(_) => match grammar_expression(tokens, position + 5) {
                            Err(error) => Err(error),
                            Ok((expression, behind)) => match expect(
                                tokens,
                                behind,
                                TokenKind::SemiColon,
                            ) {
                                Err(error) => Err(error),
                                Ok(_) => Ok(
                                    (
                                        SpecLetItem { name, declared_type, expression },
                                        behind + 1,
                                    ),
                                ),
                            },
                        },
                    },
                },
            },
        },
    }
}

/// An expression: `{ block }`, a number, `true`, `false`, or `NAME ( )`.
pub open spec fn grammar_expression(tokens: Seq<SpecToken>, position: int) -> Parsed<
    SpecExpression,
>
    decreases tokens.len() - position, 0int,
{
    match kind_at(tokens, position) {
        Some(TokenKind::BraceLeft) => match grammar_block(tokens, position + 1) {
            Err(error) => Err(error),
            Ok((block, behind)) => match expect(tokens, behind, TokenKind::BraceRight) {
                Err(error) => Err(error),
                Ok(_) => Ok((SpecExpression::Block(block), behind + 1)),
            },
        },
        Some(TokenKind::LiteralNumber) => Ok(
            (SpecExpression::LiteralInteger(tokens[position].payload()), position + 1),
        ),
        Some(TokenKind::LiteralTrue) => Ok((SpecExpression::LiteralBoolean(true), position + 1)),
        Some(TokenKind::LiteralFalse) => Ok(
            (SpecExpression::LiteralBoolean(false), position + 1),
        ),
        Some(TokenKind::Identifier) => match expect(tokens, position + 1, TokenKind::ParenLeft) {
            Err(error) => Err(error),
            Ok(_) => match expect(tokens, position + 2, TokenKind::ParenRight) {
                Err(error) => Err(error),
                Ok(_) => Ok(
                    (
                        SpecExpression::FunctionCall {
                            name: tokens[position].payload(),
                            arguments: Seq::empty(),
                        },
                        position + 3,
                    ),
                ),
            },
        },
        _ => Err(unexpected(tokens, position, Expected::Expression)),
    }
}

/// The item that starts at `position`, where a keyword of an item stands
/// there; `None` where none does.
pub open spec fn grammar_item(tokens: Seq<SpecToken>, position: int) -> Option<
    Parsed<SpecStatement>,
>
    decreases tokens.len() - position, 1int,
{
    match kind_at(tokens, position) {
        Some(TokenKind::KeywordFn) => Some(
            match grammar_function(tokens, position) {
                Ok((item, next)) => Ok((SpecStatement::FunctionItem(item), next)),
                Err(error) => Err(error),
            },
        ),
        Some(TokenKind::KeywordData) => Some(
            match grammar_data(tokens, position) {
                Ok((item, next)) => Ok((SpecStatement::DataItem(item), next)),
                Err(error) => Err(error),
            },
        ),
        Some(TokenKind::KeywordLet) => Some(
            match grammar_let(tokens, position) {
                Ok((item, next)) => Ok((SpecStatement::LetItem(item), next)),
                Err(error) => Err(error),
            },
        ),
        _ => None,
    }
}

/// A block: the items that follow one another from `position`, up to the
/// first token that starts none. That token is not part of the block, so a
/// block never fails for want of an item. Every item ends behind its start
/// ([`lemma_items_advance`]), which is what lets the block go on behind it.
pub open spec fn grammar_block(tokens: Seq<SpecToken>, position: int) -> Parsed<SpecBlock>
    decreases tokens.len() - position, 2int,
{
    match grammar_item(tokens, position) {
        None => Ok((SpecBlock(Seq::empty()), position)),
        Some(Err(error)) => Err(error),
        Some(Ok((item, behind))) => if position < behind <= tokens.len() {
            match grammar_block(tokens, behind) {
                Ok((rest, next)) => Ok((SpecBlock(seq![item] + rest.0), next)),
                Err(error) => Err(error),
            }
        } else {
            Ok((SpecBlock(seq![item]), behind))
        },
    }
}

/// A function item that was parsed ends behind its start and inside the
/// tokens.
pub proof fn lemma_function_advances(tokens: Seq<SpecToken>, position: int)
    requires
        0 <= position <= tokens.len(),
    ensures
        grammar_function(tokens, position) matches Ok((_, next)) ==> position < next
            <= tokens.len(),
    decreases tokens.len() - position, 0int,
{
    if position + 5 <= tokens.len() {
        lemma_block_advances(tokens, position + 5);
    }
}

/// An expression that was parsed ends behind its start and inside the tokens.
pub proof fn lemma_expression_advances(tokens: Seq<SpecToken>, position: int)
    requires
        0 <= position <= tokens.len(),
    ensures
        grammar_expression(tokens, position) matches Ok((_, next)) ==> position < next
            <= tokens.len(),
    decreases tokens.len() - position, 0int,
{
    if position + 1 <= tokens.len() {
        lemma_block_advances(tokens, position + 1);
    }
}

/// A let item that was parsed ends behind its start and inside the tokens.
pub proof fn lemma_let_advances(tokens: Seq<SpecToken>, position: int)
    requires
        0 <= position <= tokens.len(),
    ensures
        grammar_let(tokens, position) matches Ok((_, next)) ==> position < next <= tokens.len(),
    decreases tokens.len() - position, 0int,
{
    if position + 5 <= tokens.len() {
        lemma_expression_advances(tokens, position + 5);
    }
}

/// An item that was parsed ends behind its start and inside the tokens.
pub proof fn lemma_items_advance(tokens: Seq<SpecToken>, position: int)
    requires
        0 <= position <= tokens.len(),
    ensures
        grammar_item(tokens, position) matches Some(Ok((_, next))) ==> position < next
            <= tokens.len(),
    decreases tokens.len() - position, 1int,
{
    lemma_function_advances(tokens, position);
    lemma_let_advances(tokens, position);
    lemma_data_advances(tokens, position);
}

/// A block that was parsed ends at or behind its start and inside the tokens.
pub proof fn lemma_block_advances(tokens: Seq<SpecToken>, position: int)
    requires
        0 <= position <= tokens.len(),
    ensures
        grammar_block(tokens, position) matches Ok((_, next)) ==> position <= next
            <= tokens.len(),
    decreases tokens.len() - position, 2int,
{
    lemma_items_advance(tokens, position);
    if let Some(Ok((_, behind))) = grammar_item(tokens, position) {
        lemma_block_advances(tokens, behind);
    }
}

/// The values of a sequence of statements, in order.
pub open spec fn statement_values(statements: Seq<Statement>) -> Seq<SpecStatement> {
    statements.map_values(|statement: Statement| statement@)
}

/// The values of a sequence of variants, in order.
pub open spec fn variant_values(variants: Seq<DataVariant>) -> Seq<SpecDataVariant> {
    variants.map_values(|variant: DataVariant| variant@)
}

/// A recursive-descent parser over a sequence of tokens, with the position
/// it has reached.
pub struct Parser {
    tokens: Vec<Token>,
    position: usize,
}

impl Parser {
    #[verifier::type_invariant]
    spec fn in_bounds(self) -> bool {
        self.position <= self.tokens.len()
    }

    /// The tokens that are being parsed.
    pub closed spec fn input(&self) -> Seq<SpecToken> {
        token_values(self.tokens@)
    }

    /// The number of tokens consumed so far.
    pub closed spec fn cursor(&self) -> int {
        self.position as int
    }

    /// A parser at the start of `tokens`.
    pub fn new(tokens: Vec<Token>) -> (parser: Self)
        ensures
            parser.input() == token_values(tokens@),
            parser.cursor() == 0,
    {
        Parser { tokens, position: 0 }
    }

    /// Eats a token, disposing of it.
    fn eat(&mut self)
        requires
            old(self).cursor() < old(self).input().len(),
        ensures
            final(self).input() == old(self).input(),
            final(self).cursor() == old(self).cursor() + 1,
    {
        proof {
            use_type_invariant(&*self);
        }
        self.position = self.position + 1;
    }

    /// Eats a token, and returns the provided value.
    fn eat_return<T>(&mut self, value: T) -> (returned: T)
        requires
            old(self).cursor() < old(self).input().len(),
        ensures
            final(self).input() == old(self).input(),
            final(self).cursor() == old(self).cursor() + 1,
            returned == value,
    {
        self.eat();
        value
    }

    /// Eats an identifier that is known to be next, and returns its name.
    fn eat_identifier(&mut self) -> (name: String)
        requires
            kind_at(old(self).input(), old(self).cursor()) == Some(TokenKind::Identifier),
        ensures
            final(self).input() == old(self).input(),
            final(self).cursor() == old(self).cursor() + 1,
            name@ == old(self).input()[old(self).cursor()].payload(),
    {
        proof {
            use_type_invariant(&*self);
        }
        let name = match &self.tokens[self.position] {
            Token::Identifier(name) => name.clone(),
            _ => String::new(),
        };
        self.position = self.position + 1;
        name
    }

    /// Eats a number that is known to be next, and returns its digits.
    fn eat_literal_number(&mut self) -> (digits: String)
        requires
            kind_at(old(self).input(), old(self).cursor()) == Some(TokenKind::LiteralNumber),
        ensures
            final(self).input() == old(self).input(),
            final(self).cursor() == old(self).cursor() + 1,
            digits@ == old(self).input()[old(self).cursor()].payload(),
    {
        proof {
            use_type_invariant(&*self);
        }
        let digits = match &self.tokens[self.position] {
            Token::LiteralNumber(digits) => digits.clone(),
            _ => String::new(),
        };
        self.position = self.position + 1;
        digits
    }

    /// The next token, if any, without consuming it.
    fn peek(&self) -> (token: Option<&Token>)
        ensures
            0 <= self.cursor() <= self.input().len(),
            match token {
                Some(token) => token_at(self.input(), self.cursor()) == Some(token@),
                None => token_at(self.input(), self.cursor()) is None,
            },
    {
        proof {
            use_type_invariant(self);
        }
        if self.position < self.tokens.len() {
            Some(&self.tokens[self.position])
        } else {
            None
        }
    }

    /// The kind of the token that stands `distance` tokens ahead, if any.
    fn kind_ahead(&self, distance: usize) -> (kind: Option<TokenKind>)
        ensures
            0 <= self.cursor() <= self.input().len(),
            kind == kind_at(self.input(), self.cursor() + distance),
    {
        proof {
            use_type_invariant(self);
        }
        if distance < self.tokens.len() - self.position {
            Some(self.tokens[self.position + distance].kind())
        } else {
            None
        }
    }

    /// The error for the next token, where the grammar asks for `expected`.
    fn unexpected(&self, expected: Expected) -> (error: SyntaxError)
        ensures
            error@ == unexpected(self.input(), self.cursor(), expected),
    {
        let found = match self.peek() {
            Some(token) => Some(token.duplicate()),
            None => None,
        };
        SyntaxError { expected, found, position: self.position }
    }

    /// Eats a token of kind `kind`, or fails on the token that stands there.
    fn expect(&mut self, kind: TokenKind) -> (outcome: Result<(), SyntaxError>)
        ensures
            final(self).input() == old(self).input(),
            match expect(old(self).input(), old(self).cursor(), kind) {
                Ok((_, next)) => outcome is Ok && final(self).cursor() == next,
                Err(error) => outcome matches Err(raised) && raised@ == error
                    && final(self).cursor() == error.position,
            },
    {
        let wanted = match self.kind_ahead(0) {
            Some(found) => found == kind,
            None => false,
        };
        if wanted {
            self.eat();
            Ok(())
        } else {
            Err(self.unexpected(Expected::Kind(kind)))
        }
    }

    /// Eats an identifier and returns its name, or fails on the token that
    /// stands there.
    fn expect_identifier(&mut self) -> (outcome: Result<String, SyntaxError>)
        ensures
            final(self).input() == old(self).input(),
            match expect(old(self).input(), old(self).cursor(), TokenKind::Identifier) {
                Ok((name, next)) => outcome matches Ok(read) && read@ == name
                    && final(self).cursor() == next,
                Err(error) => outcome matches Err(raised) && raised@ == error
                    && final(self).cursor() == error.position,
            },
    {
        match self.kind_ahead(0) {
            Some(TokenKind::Identifier) => Ok(self.eat_identifier()),
            _ => Err(self.unexpected(Expected::Kind(TokenKind::Identifier))),
        }
    }

    /// Parses the types of a tuple, from behind its `(`.
    fn parse_types(&mut self) -> (outcome: Result<Vec<String>, SyntaxError>)
        ensures
            final(self).input() == old(self).input(),
            match grammar_types(old(self).input(), old(self).cursor()) {
                Ok((fields, next)) => outcome matches Ok(read) && text_values(read@) == fields
                    && final(self).cursor() == next,
                Err(error) => outcome matches Err(raised) && raised@ == error
                    && final(self).cursor() == error.position,
            },
    {
        let mut fields: Vec<String> = Vec::new();
        let ghost start = self.cursor();
        proof {
            use_type_invariant(&*self);
        }
        loop
            invariant
                self.input() == old(self).input(),
                start == old(self).cursor(),
                0 <= start <= self.cursor() <= self.input().len(),
                grammar_types(self.input(), start) == match grammar_types(
                    self.input(),
                    self.cursor(),
                ) {
                    Ok((rest, next)) => Ok::<(Seq<Text>, int), SpecSyntaxError>(
                        (text_values(fields@) + rest, next),
                    ),
                    Err(error) => Err(error),
                },
            decreases self.input().len() - self.cursor(),
        {
            match self.kind_ahead(0) {
                Some(TokenKind::ParenRight) => {
                    self.eat();
                    assert(text_values(fields@) + Seq::<Text>::empty() =~= text_values(fields@));
                    return Ok(fields);
                },
                Some(TokenKind::Identifier) => {
                    let name = self.eat_identifier();
                    let ghost before = fields@;
                    match self.kind_ahead(0) {
                        Some(TokenKind::ParenRight) => {
                            self.eat();
                            fields.push(name);
                            assert(text_values(fields@) =~= text_values(before) + seq![name@]);
                            return Ok(fields);
                        },
                        Some(TokenKind::Comma) => {
                            self.eat();
                            fields.push(name);
                            proof {
                                if let Ok((rest, _)) = grammar_types(self.input(), self.cursor()) {
                                    assert(text_values(fields@) + rest =~= text_values(before) + (
                                    seq![name@] + rest));
                                }
                            }
                        },
                        _ => {
                            return Err(
                                self.unexpected(
                                    Expected::Either(TokenKind::Comma, TokenKind::ParenRight),
                                ),
                            );
                        },
                    }
                },
                _ => {
                    return Err(
                        self.unexpected(
                            Expected::Either(TokenKind::Identifier, TokenKind::ParenRight),
                        ),
                    );
                },
            }
        }
    }

    /// Parses one field, `name : type`.
    fn parse_field(&mut self) -> (outcome: Result<(String, String), SyntaxError>)
        ensures
            final(self).input() == old(self).input(),
            match grammar_field(old(self).input(), old(self).cursor()) {
                Ok((field, next)) => outcome matches Ok(read) && (read.0@, read.1@) == field
                    && final(self).cursor() == next,
                Err(error) => outcome matches Err(raised) && raised@ == error
                    && final(self).cursor() == error.position,
            },
    {
        let name = match self.expect_identifier() {
            Ok(name) => name,
            Err(error) => {
                return Err(error);
            },
        };
        match self.expect(TokenKind::Colon) {
            Ok(_) => {},
            Err(error) => {
                return Err(error);
            },
        }
        let declared = match self.expect_identifier() {
            Ok(declared) => declared,
            Err(error) => {
                return Err(error);
            },
        };
        Ok((name, declared))
    }

    /// Parses the fields of a struct variant, from behind its `{`.
    fn parse_variant_fields(&mut self) -> (outcome: Result<Vec<(String, String)>, SyntaxError>)
        ensures
            final(self).input() == old(self).input(),
            match grammar_variant_fields(old(self).input(), old(self).cursor()) {
                Ok((fields, next)) => outcome matches Ok(read) && pair_values(read@) == fields
                    && final(self).cursor() == next,
                Err(error) => outcome matches Err(raised) && raised@ == error
                    && final(self).cursor() == error.position,
            },
    {
        let mut fields: Vec<(String, String)> = Vec::new();
        let ghost start = self.cursor();
        proof {
            use_type_invariant(&*self);
        }
        loop
            invariant
                self.input() == old(self).input(),
                start == old(self).cursor(),
                0 <= start <= self.cursor() <= self.input().len(),
                grammar_variant_fields(self.input(), start) == match grammar_variant_fields(
                    self.input(),
                    self.cursor(),
                ) {
                    Ok((rest, next)) => Ok::<(Seq<(Text, Text)>, int), SpecSyntaxError>(
                        (pair_values(fields@) + rest, next),
                    ),
                    Err(error) => Err(error),
                },
            decreases self.input().len() - self.cursor(),
        {
            match self.kind_ahead(0) {
                Some(TokenKind::BraceRight) => {
                    self.eat();
                    assert(pair_values(fields@) + Seq::<(Text, Text)>::empty() =~= pair_values(
                        fields@,
                    ));
                    return Ok(fields);
                },
                Some(TokenKind::Identifier) => {
                    let field = match self.parse_field() {
                        Ok(field) => field,
                        Err(error) => {
                            return Err(error);
                        },
                    };
                    let ghost before = fields@;
                    let ghost value = (field.0@, field.1@);
                    match self.kind_ahead(0) {
                        Some(TokenKind::BraceRight) => {
                            self.eat();
                            fields.push(field);
                            assert(pair_values(fields@) =~= pair_values(before) + seq![value]);
                            return Ok(fields);
                        },
                        Some(TokenKind::Comma) => {
                            self.eat();
                            fields.push(field);
                            proof {
                                if let Ok((rest, _)) = grammar_variant_fields(
                                    self.input(),
                                    self.cursor(),
                                ) {
                                    assert(pair_values(fields@) + rest =~= pair_values(before) + (
                                    seq![value] + rest));
                                }
                            }
                        },
                        _ => {
                            return Err(
                                self.unexpected(
                                    Expected::Either(TokenKind::Comma, TokenKind::BraceRight),
                                ),
                            );
                        },
                    }
                },
                _ => {
                    return Err(
                        self.unexpected(
                            Expected::Either(TokenKind::Identifier, TokenKind::BraceRight),
                        ),
                    );
                },
            }
        }
    }

    /// Parses the fields of a struct item, from its first field.
    fn parse_struct_fields(&mut self) -> (outcome: Result<Vec<(String, String)>, SyntaxError>)
        ensures
            final(self).input() == old(self).input(),
            match grammar_struct_fields(old(self).input(), old(self).cursor()) {
                Ok((fields, next)) => outcome matches Ok(read) && pair_values(read@) == fields
                    && final(self).cursor() == next,
                Err(error) => outcome matches Err(raised) && raised@ == error
                    && final(self).cursor() == error.position,
            },
    {
        let mut fields: Vec<(String, String)> = Vec::new();
        let ghost start = self.cursor();
        proof {
            use_type_invariant(&*self);
        }
        loop
            invariant
                self.input() == old(self).input(),
                start == old(self).cursor(),
                0 <= start <= self.cursor() <= self.input().len(),
                grammar_struct_fields(self.input(), start) == match grammar_struct_fields(
                    self.input(),
                    self.cursor(),
                ) {
                    Ok((rest, next)) => Ok::<(Seq<(Text, Text)>, int), SpecSyntaxError>(
                        (pair_values(fields@) + rest, next),
                    ),
                    Err(error) => Err(error),
                },
            decreases self.input().len() - self.cursor(),
        {
            let field = match self.parse_field() {
                Ok(field) => field,
                Err(error) => {
                    return Err(error);
                },
            };
            let ghost before = fields@;
            let ghost value = (field.0@, field.1@);
            match self.kind_ahead(0) {
                Some(TokenKind::BraceRight) => {
                    self.eat();
                    fields.push(field);
                    assert(pair_values(fields@) =~= pair_values(before) + seq![value]);
                    return Ok(fields);
                },
                Some(TokenKind::Comma) => {
                    self.eat();
                    fields.push(field);
                    proof {
                        if let Ok((rest, _)) = grammar_struct_fields(self.input(), self.cursor()) {
                            assert(pair_values(fields@) + rest =~= pair_values(before) + (
                            seq![value] + rest));
                        }
                    }
                },
                _ => {
                    return Err(
                        self.unexpected(Expected::Either(TokenKind::Comma, TokenKind::BraceRight)),
                    );
                },
            }
        }
    }

    /// Parses one variant of a sum type, from its name.
    fn parse_variant(&mut self) -> (outcome: Result<DataVariant, SyntaxError>)
        ensures
            final(self).input() == old(self).input(),
            match grammar_variant(old(self).input(), old(self).cursor()) {
                Ok((variant, next)) => outcome matches Ok(read) && read@ == variant
                    && final(self).cursor() == next,
                Err(error) => outcome matches Err(raised) && raised@ == error
                    && final(self).cursor() == error.position,
            },
    {
        let name = match self.expect_identifier() {
            Ok(name) => name,
            Err(error) => {
                return Err(error);
            },
        };
        match self.kind_ahead(0) {
            Some(TokenKind::ParenLeft) => {
                self.eat();
                match self.parse_types() {
                    Ok(fields) => Ok(DataVariant::Tuple { name, fields }),
                    Err(error) => Err(error),
                }
            },
            Some(TokenKind::BraceLeft) => {
                self.eat();
                match self.parse_variant_fields() {
                    Ok(fields) => Ok(DataVariant::Struct { name, fields }),
                    Err(error) => Err(error),
                }
            },
            Some(TokenKind::Colon) => Ok(self.eat_return(DataVariant::Marker { name })),
            Some(TokenKind::Comma) | Some(TokenKind::BraceRight) => Ok(
                DataVariant::Marker { name },
            ),
            _ => Err(self.unexpected(Expected::VariantShape)),
        }
    }

    /// Parses the variants of a sum type, from the name of the first.
    fn parse_variants(&mut self) -> (outcome: Result<Vec<DataVariant>, SyntaxError>)
        ensures
            final(self).input() == old(self).input(),
            match grammar_variants(old(self).input(), old(self).cursor()) {
                Ok((variants, next)) => outcome matches Ok(read) && variant_values(read@)
                    == variants && final(self).cursor() == next,
                Err(error) => outcome matches Err(raised) && raised@ == error
                    && final(self).cursor() == error.position,
            },
    {
        let mut variants: Vec<DataVariant> = Vec::new();
        let ghost start = self.cursor();
        proof {
            use_type_invariant(&*self);
        }
        loop
            invariant
                self.input() == old(self).input(),
                start == old(self).cursor(),
                0 <= start <= self.cursor() <= self.input().len(),
                grammar_variants(self.input(), start) == match grammar_variants(
                    self.input(),
                    self.cursor(),
                ) {
                    Ok((rest, next)) => Ok::<(Seq<SpecDataVariant>, int), SpecSyntaxError>(
                        (variant_values(variants@) + rest, next),
                    ),
                    Err(error) => Err(error),
                },
            decreases self.input().len() - self.cursor(),
        {
            proof {
                lemma_variant_advances(self.input(), self.cursor());
            }
            let variant = match self.parse_variant() {
                Ok(variant) => variant,
                Err(error) => {
                    return Err(error);
                },
            };
            let ghost before = variants@;
            let ghost value = variant@;
            match self.kind_ahead(0) {
                Some(TokenKind::BraceRight) => {
                    self.eat();
                    variants.push(variant);
                    assert(variant_values(variants@) =~= variant_values(before) + seq![value]);
                    return Ok(variants);
                },
                Some(TokenKind::Comma) => {
                    self.eat();
                    variants.push(variant);
                    proof {
                        if let Ok((rest, _)) = grammar_variants(self.input(), self.cursor()) {
                            assert(variant_values(variants@) + rest =~= variant_values(before) + (
                            seq![value] + rest));
                        }
                    }
                },
                _ => {
                    return Err(
                        self.unexpected(Expected::Either(TokenKind::Comma, TokenKind::BraceRight)),
                    );
                },
            }
        }
    }

    /// Parses what stands between the braces of the data item `name`, from
    /// behind the `{`.
    fn parse_braced(&mut self, name: String) -> (outcome: Result<DataItem, SyntaxError>)
        ensures
            final(self).input() == old(self).input(),
            match grammar_braced(old(self).input(), old(self).cursor(), name@) {
                Ok((item, next)) => outcome matches Ok(read) && read@ == item
                    && final(self).cursor() == next,
                Err(error) => outcome matches Err(raised) && raised@ == error
                    && final(self).cursor() == error.position,
            },
    {
        match self.kind_ahead(0) {
            Some(TokenKind::BraceRight) => {
                let variants: Vec<DataVariant> = Vec::new();
                assert(variant_values(variants@) =~= Seq::<SpecDataVariant>::empty());
                Ok(self.eat_return(DataItem::Multiple { name, variants }))
            },
            Some(TokenKind::Identifier) => match self.kind_ahead(1) {
                Some(TokenKind::Colon) => match self.parse_struct_fields() {
                    Ok(fields) => Ok(DataItem::Single(DataVariant::Struct { name, fields })),
                    Err(error) => Err(error),
                },
                _ => match self.parse_variants() {
                    Ok(variants) => Ok(DataItem::Multiple { name, variants }),
                    Err(error) => Err(error),
                },
            },
            _ => Err(
                self.unexpected(Expected::Either(TokenKind::Identifier, TokenKind::BraceRight)),
            ),
        }
    }

    /// Parses a data item, from its keyword. On success the parser stands
    /// behind the item; on failure it stands at the token that was refused.
    pub fn parse_data(&mut self) -> (outcome: Result<DataItem, SyntaxError>)
        ensures
            final(self).input() == old(self).input(),
            match grammar_data(old(self).input(), old(self).cursor()) {
                Ok((item, next)) => outcome matches Ok(read) && read@ == item
                    && final(self).cursor() == next,
                Err(error) => outcome matches Err(raised) && raised@ == error
                    && final(self).cursor() == error.position,
            },
    {
        match self.expect(TokenKind::KeywordData) {
            Ok(_) => {},
            Err(error) => {
                return Err(error);
            },
        }
        let name = match self.expect_identifier() {
            Ok(name) => name,
            Err(error) => {
                return Err(error);
            },
        };
        match self.kind_ahead(0) {
            Some(TokenKind::SemiColon) => Ok(
                self.eat_return(DataItem::Single(DataVariant::Marker { name })),
            ),
            Some(TokenKind::ParenLeft) => {
                self.eat();
                let fields = match self.parse_types() {
                    Ok(fields) => fields,
                    Err(error) => {
                        return Err(error);
                    },
                };
                match self.expect(TokenKind::SemiColon) {
                    Ok(_) => Ok(DataItem::Single(DataVariant::Tuple { name, fields })),
                    Err(error) => Err(error),
                }
            },
            Some(TokenKind::BraceLeft) => {
                self.eat();
                self.parse_braced(name)
            },
            _ => Err(self.unexpected(Expected::DataShape)),
        }
    }

    /// Parses the items of a block, up to the first token that starts none.
    /// That token, be it the `}` of an enclosing block or anything else, is
    /// left for the caller. On failure the parser stands at the token that
    /// was refused.
    pub fn parse_block(&mut self) -> (outcome: Result<Block, SyntaxError>)
        ensures
            final(self).input() == old(self).input(),
            match grammar_block(old(self).input(), old(self).cursor()) {
                Ok((block, next)) => outcome matches Ok(read) && read@ == block
                    && final(self).cursor()
                    == next,
                Err(error) => outcome matches Err(raised) && raised@ == error
                    && final(self).cursor() == error.position,
            },
        decreases old(self).input().len() - old(self).cursor(), 2int,
    {
        let mut statements: Vec<Statement> = Vec::new();
        let ghost start = self.cursor();
        proof {
            use_type_invariant(&*self);
        }
        loop
            invariant
                self.input() == old(self).input(),
                start == old(self).cursor(),
                0 <= start <= self.cursor() <= self.input().len(),
                grammar_block(self.input(), start) == match grammar_block(
                    self.input(),
                    self.cursor(),
                ) {
                    Ok((rest, next)) => Ok::<(SpecBlock, int), SpecSyntaxError>(
                        (SpecBlock(statement_values(statements@) + rest.0), next),
                    ),
                    Err(error) => Err(error),
                },
            decreases self.input().len() - self.cursor(),
        {
            proof {
                lemma_items_advance(self.input(), self.cursor());
            }
            let statement = match self.kind_ahead(0) {
                Some(TokenKind::KeywordFn) => match self.parse_function() {
                    Ok(item) => Statement::FunctionItem(item),
                    Err(error) => {
                        return Err(error);
                    },
                },
                Some(TokenKind::KeywordData) => match self.parse_data() {
                    Ok(item) => Statement::DataItem(item),
                    Err(error) => {
                        return Err(error);
                    },
                },
                Some(TokenKind::KeywordLet) => match self.parse_let() {
                    Ok(item) => Statement::LetItem(item),
                    Err(error) => {
                        return Err(error);
                    },
                },
                _ => {
                    let block = Block(statements);
                    assert(block@.0 =~= statement_values(statements@) + Seq::<
                        SpecStatement,
                    >::empty());
                    return Ok(block);
                },
            };
            proof {
                if let Ok((rest, _)) = grammar_block(self.input(), self.cursor()) {
                    assert(statement_values(statements@.push(statement)) + rest.0
                        =~= statement_values(statements@) + (seq![statement@] + rest.0));
                }
            }
            statements.push(statement);
        }
    }

    /// Parses a function item, from its keyword: `fn NAME ( ) { block }`.
    /// Anything between the parentheses is refused.
    pub fn parse_function(&mut self) -> (outcome: Result<FunctionItem, SyntaxError>)
        ensures
            final(self).input() == old(self).input(),
            match grammar_function(old(self).input(), old(self).cursor()) {
                Ok((item, next)) => outcome matches Ok(read) && read@ == item
                    && final(self).cursor()
                    == next,
                Err(error) => outcome matches Err(raised) && raised@ == error
                    && final(self).cursor() == error.position,
            },
        decreases old(self).input().len() - old(self).cursor(), 0int,
    {
        proof {
            use_type_invariant(&*self);
        }
        match self.expect(TokenKind::KeywordFn) {
            Ok(_) => {},
            Err(error) => {
                return Err(error);
            },
        }
        let name = match self.expect_identifier() {
            Ok(name) => name,
            Err(error) => {
                return Err(error);
            },
        };
        match self.expect(TokenKind::ParenLeft) {
            Ok(_) => {},
            Err(error) => {
                return Err(error);
            },
        }
        match self.expect(TokenKind::ParenRight) {
            Ok(_) => {},
            Err(error) => {
                return Err(error);
            },
        }
        match self.expect(TokenKind::BraceLeft) {
            Ok(_) => {},
            Err(error) => {
                return Err(error);
            },
        }
        let body = match self.parse_block() {
            Ok(body) => body,
            Err(error) => {
                return Err(error);
            },
        };
        match self.expect(TokenKind::BraceRight) {
            Ok(_) => {},
            Err(error) => {
                return Err(error);
            },
        }
        let arguments: Vec<(String, String)> = Vec::new();
        assert(pair_values(arguments@) =~= Seq::<(Text, Text)>::empty());
        Ok(FunctionItem { name, arguments, body })
    }

    /// Parses a let item, from its keyword: `let NAME : TYPE = expression ;`.
    pub fn parse_let(&mut self) -> (outcome: Result<LetItem, SyntaxError>)
        ensures
            final(self).input() == old(self).input(),
            match grammar_let(old(self).input(), old(self).cursor()) {
                Ok((item, next)) => outcome matches Ok(read) && read@ == item
                    && final(self).cursor()
                    == next,
                Err(error) => outcome matches Err(raised) && raised@ == error
                    && final(self).cursor() == error.position,
            },
        decreases old(self).input().len() - old(self).cursor(), 0int,
    {
        proof {
            use_type_invariant(&*self);
        }
        match self.expect(TokenKind::KeywordLet) {
            Ok(_) => {},
            Err(error) => {
                return Err(error);
            },
        }
        let name = match self.expect_identifier() {
            Ok(name) => name,
            Err(error) => {
                return Err(error);
            },
        };
        match self.expect(TokenKind::Colon) {
            Ok(_) => {},
            Err(error) => {
                return Err(error);
            },
        }
        let declared_type = match self.expect_identifier() {
            Ok(declared_type) => declared_type,
            Err(error) => {
                return Err(error);
            },
        };
        match self.expect(TokenKind::Equals) {
            Ok(_) => {},
            Err(error) => {
                return Err(error);
            },
        }
        let expression = match self.parse_expression() {
            Ok(expression) => expression,
            Err(error) => {
                return Err(error);
            },
        };
        match self.expect(TokenKind::SemiColon) {
            Ok(_) => {},
            Err(error) => {
                return Err(error);
            },
        }
        Ok(LetItem { name, declared_type, expression })
    }

    /// Parses an expression: `{ block }`, a number, `true`, `false`, or a
    /// call without arguments, `NAME ( )`. A name that is not called, and a
    /// call with arguments, are refused.
    pub fn parse_expression(&mut self) -> (outcome: Result<Expression, SyntaxError>)
        ensures
            final(self).input() == old(self).input(),
            match grammar_expression(old(self).input(), old(self).cursor()) {
                Ok((expression, next)) => outcome matches Ok(read) && read@ == expression
                    && final(self).cursor() == next,
                Err(error) => outcome matches Err(raised) && raised@ == error
                    && final(self).cursor() == error.position,
            },
        decreases old(self).input().len() - old(self).cursor(), 0int,
    {
        proof {
            use_type_invariant(&*self);
        }
        match self.kind_ahead(0) {
            Some(TokenKind::BraceLeft) => {
                self.eat();
                let block = match self.parse_block() {
                    Ok(block) => block,
                    Err(error) => {
                        return Err(error);
                    },
                };
                match self.expect(TokenKind::BraceRight) {
                    Ok(_) => Ok(Expression::Block(block)),
                    Err(error) => Err(error),
                }
            },
            Some(TokenKind::LiteralNumber) => Ok(
                Expression::LiteralInteger(self.eat_literal_number()),
            ),
            Some(TokenKind::LiteralTrue) => Ok(self.eat_return(Expression::LiteralBoolean(true))),
            Some(TokenKind::LiteralFalse) => Ok(
                self.eat_return(Expression::LiteralBoolean(false)),
            ),
            Some(TokenKind::Identifier) => {
                let name = self.eat_identifier();
                match self.expect(TokenKind::ParenLeft) {
                    Ok(_) => {},
                    Err(error) => {
                        return Err(error);
                    },
                }
                match self.expect(TokenKind::ParenRight) {
                    Ok(_) => {},
                    Err(error) => {
                        return Err(error);
                    },
                }
                let arguments: Vec<Expression> = Vec::new();
                let call = Expression::FunctionCall { name, arguments };
                assert(call@->FunctionCall_arguments =~= Seq::<SpecExpression>::empty());
                Ok(call)
            },
            _ => Err(self.unexpected(Expected::Expression)),
        }
    }
}

} // verus!
