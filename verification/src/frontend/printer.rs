//! The canonical way to write a tree as tokens, and the proof that parsing
//! what was written gives the tree back.
//!
//! The grammar accepts more than one token sequence for some trees: a list
//! inside a variant may end with a comma, and a marker variant may be
//! followed by a colon. The functions here choose one sequence for each
//! tree, without either.

use vstd::prelude::*;
use super::parser::{
    grammar_block, grammar_data, grammar_expression, grammar_field, grammar_function,
    grammar_item, grammar_let, grammar_struct_fields, grammar_types, grammar_variant,
    grammar_variant_fields, grammar_variants, kind_at, token_at, Parsed, SpecBlock,
    SpecDataItem, SpecDataVariant, SpecExpression, SpecFunctionItem, SpecLetItem,
    SpecStatement,
};
use super::tokenizer::{SpecToken, TokenKind};
use crate::text::Text;

verus! {

/// The outcome of parsing that gives `value` and ends at `next`.
pub open spec fn parsed<T>(value: T, next: int) -> Parsed<T> {
    Ok((value, next))
}

/// Whether the tokens of `piece` stand in `tokens` from `position` on.
pub open spec fn stands_at(tokens: Seq<SpecToken>, position: int, piece: Seq<SpecToken>) -> bool {
    &&& 0 <= position
    &&& position + piece.len() <= tokens.len()
    &&& forall|i: int| 0 <= i < piece.len() ==> tokens[position + i] == #[trigger] piece[i]
}

/// A sequence that stands at a position has each of its tokens there.
pub proof fn lemma_stands_token(
    tokens: Seq<SpecToken>,
    position: int,
    piece: Seq<SpecToken>,
    index: int,
)
    requires
        stands_at(tokens, position, piece),
        0 <= index < piece.len(),
    ensures
        token_at(tokens, position + index) == Some(piece[index]),
        kind_at(tokens, position + index) == Some(piece[index].kind()),
{
    assert(tokens[position + index] == piece[index]);
}

/// Where two sequences stand one behind the other as one, each of them
/// stands at its place.
pub proof fn lemma_stands_split(
    tokens: Seq<SpecToken>,
    position: int,
    first: Seq<SpecToken>,
    second: Seq<SpecToken>,
)
    requires
        stands_at(tokens, position, first + second),
    ensures
        stands_at(tokens, position, first),
        stands_at(tokens, position + first.len(), second),
{
    let whole = first + second;
    assert forall|i: int| 0 <= i < first.len() implies tokens[position + i]
        == #[trigger] first[i] by {
        assert(whole[i] == first[i]);
    }
    assert forall|i: int| 0 <= i < second.len() implies tokens[position + first.len() + i]
        == #[trigger] second[i] by {
        assert(whole[first.len() + i] == second[i]);
    }
}

/// The types of a tuple from behind its `(`, up to and with the `)`.
pub open spec fn types_tokens(types: Seq<Text>) -> Seq<SpecToken>
    decreases types.len(),
{
    if types.len() == 0 {
        seq![SpecToken::ParenRight]
    } else if types.len() == 1 {
        seq![SpecToken::Identifier(types[0]), SpecToken::ParenRight]
    } else {
        seq![SpecToken::Identifier(types[0]), SpecToken::Comma] + types_tokens(types.drop_first())
    }
}

/// One field or more, from the name of the first up to and with the `}`.
pub open spec fn fields_tokens(fields: Seq<(Text, Text)>) -> Seq<SpecToken>
    decreases fields.len(),
{
    if fields.len() == 0 {
        Seq::empty()
    } else {
        let field = seq![
            SpecToken::Identifier(fields[0].0),
            SpecToken::Colon,
            SpecToken::Identifier(fields[0].1),
        ];
        if fields.len() == 1 {
            field + seq![SpecToken::BraceRight]
        } else {
            field + seq![SpecToken::Comma] + fields_tokens(fields.drop_first())
        }
    }
}

/// The fields of a struct variant from behind its `{`, up to and with the
/// `}`.
pub open spec fn variant_fields_tokens(fields: Seq<(Text, Text)>) -> Seq<SpecToken> {
    if fields.len() == 0 {
        seq![SpecToken::BraceRight]
    } else {
        fields_tokens(fields)
    }
}

/// One variant of a sum type, from its name.
pub open spec fn variant_tokens(variant: SpecDataVariant) -> Seq<SpecToken> {
    match variant {
        SpecDataVariant::Marker { name } => seq![SpecToken::Identifier(name)],
        SpecDataVariant::Tuple { name, fields } => seq![
            SpecToken::Identifier(name),
            SpecToken::ParenLeft,
        ] + types_tokens(fields),
        SpecDataVariant::Struct { name, fields } => seq![
            SpecToken::Identifier(name),
            SpecToken::BraceLeft,
        ] + variant_fields_tokens(fields),
    }
}

/// One variant or more, from the name of the first up to and with the `}`.
pub open spec fn variants_tokens(variants: Seq<SpecDataVariant>) -> Seq<SpecToken>
    decreases variants.len(),
{
    if variants.len() == 0 {
        Seq::empty()
    } else if variants.len() == 1 {
        variant_tokens(variants[0]) + seq![SpecToken::BraceRight]
    } else {
        variant_tokens(variants[0]) + seq![SpecToken::Comma] + variants_tokens(
            variants.drop_first(),
        )
    }
}

/// A data item, from its keyword.
pub open spec fn item_tokens(item: SpecDataItem) -> Seq<SpecToken> {
    match item {
        SpecDataItem::Single(SpecDataVariant::Marker { name }) => seq![
            SpecToken::KeywordData,
            SpecToken::Identifier(name),
            SpecToken::SemiColon,
        ],
        SpecDataItem::Single(SpecDataVariant::Tuple { name, fields }) => seq![
            SpecToken::KeywordData,
            SpecToken::Identifier(name),
            SpecToken::ParenLeft,
        ] + types_tokens(fields) + seq![SpecToken::SemiColon],
        SpecDataItem::Single(SpecDataVariant::Struct { name, fields }) => seq![
            SpecToken::KeywordData,
            SpecToken::Identifier(name),
            SpecToken::BraceLeft,
        ] + fields_tokens(fields),
        SpecDataItem::Multiple { name, variants } => seq![
            SpecToken::KeywordData,
            SpecToken::Identifier(name),
            SpecToken::BraceLeft,
        ] + (if variants.len() == 0 {
            seq![SpecToken::BraceRight]
        } else {
            variants_tokens(variants)
        }),
    }
}

/// Whether a data item can be written so that it is read back as itself.
/// A struct item without fields cannot: empty braces are a sum type.
pub open spec fn item_is_writable(item: SpecDataItem) -> bool {
    item matches SpecDataItem::Single(SpecDataVariant::Struct { fields, .. }) ==> fields.len() > 0
}

/// The types of a tuple are read back as they were written.
pub proof fn lemma_types_read_back(tokens: Seq<SpecToken>, position: int, types: Seq<Text>)
    requires
        stands_at(tokens, position, types_tokens(types)),
    ensures
        grammar_types(tokens, position) == parsed(types, position + types_tokens(types).len()),
    decreases types.len(),
{
    let piece = types_tokens(types);
    lemma_stands_token(tokens, position, piece, 0);
    if types.len() == 0 {
        assert(types =~= Seq::<Text>::empty());
    } else if types.len() == 1 {
        lemma_stands_token(tokens, position, piece, 1);
        assert(types =~= seq![types[0]]);
    } else {
        let head = seq![SpecToken::Identifier(types[0]), SpecToken::Comma];
        let rest = types.drop_first();
        lemma_stands_token(tokens, position, piece, 1);
        lemma_stands_split(tokens, position, head, types_tokens(rest));
        lemma_types_read_back(tokens, position + 2, rest);
        assert(types =~= seq![types[0]] + rest);
    }
}

/// One field or more are read back as they were written, by the rule for
/// the fields of a struct item and by the rule for those of a variant.
pub proof fn lemma_fields_read_back(
    tokens: Seq<SpecToken>,
    position: int,
    fields: Seq<(Text, Text)>,
)
    requires
        fields.len() > 0,
        stands_at(tokens, position, fields_tokens(fields)),
    ensures
        grammar_struct_fields(tokens, position)
            == parsed(fields, position + fields_tokens(fields).len()),
        grammar_variant_fields(tokens, position)
            == parsed(fields, position + fields_tokens(fields).len()),
    decreases fields.len(),
{
    let piece = fields_tokens(fields);
    let field = seq![
        SpecToken::Identifier(fields[0].0),
        SpecToken::Colon,
        SpecToken::Identifier(fields[0].1),
    ];
    lemma_stands_token(tokens, position, piece, 0);
    lemma_stands_token(tokens, position, piece, 1);
    lemma_stands_token(tokens, position, piece, 2);
    lemma_stands_token(tokens, position, piece, 3);
    assert(grammar_field(tokens, position) == parsed(fields[0], position + 3));
    if fields.len() == 1 {
        assert(fields =~= seq![fields[0]]);
    } else {
        let rest = fields.drop_first();
        lemma_stands_split(tokens, position, field + seq![SpecToken::Comma], fields_tokens(rest));
        lemma_fields_read_back(tokens, position + 4, rest);
        assert(fields =~= seq![fields[0]] + rest);
    }
}

/// A variant is read back as it was written, where a marker is followed by
/// a comma or by the closing brace.
pub proof fn lemma_variant_reads_back(
    tokens: Seq<SpecToken>,
    position: int,
    variant: SpecDataVariant,
)
    requires
        stands_at(tokens, position, variant_tokens(variant)),
        variant is Marker ==> kind_at(tokens, position + 1) == Some(TokenKind::Comma) || kind_at(
            tokens,
            position + 1,
        ) == Some(TokenKind::BraceRight),
    ensures
        grammar_variant(tokens, position)
            == parsed(variant, position + variant_tokens(variant).len()),
{
    let piece = variant_tokens(variant);
    lemma_stands_token(tokens, position, piece, 0);
    match variant {
        SpecDataVariant::Marker { name } => {},
        SpecDataVariant::Tuple { name, fields } => {
            let head = seq![SpecToken::Identifier(name), SpecToken::ParenLeft];
            lemma_stands_token(tokens, position, piece, 1);
            lemma_stands_split(tokens, position, head, types_tokens(fields));
            lemma_types_read_back(tokens, position + 2, fields);
        },
        SpecDataVariant::Struct { name, fields } => {
            let head = seq![SpecToken::Identifier(name), SpecToken::BraceLeft];
            lemma_stands_token(tokens, position, piece, 1);
            lemma_stands_split(tokens, position, head, variant_fields_tokens(fields));
            if fields.len() == 0 {
                lemma_stands_token(tokens, position + 2, variant_fields_tokens(fields), 0);
                assert(fields =~= Seq::<(Text, Text)>::empty());
            } else {
                lemma_fields_read_back(tokens, position + 2, fields);
            }
        },
    }
}

/// One variant or more are read back as they were written.
pub proof fn lemma_variants_read_back(
    tokens: Seq<SpecToken>,
    position: int,
    variants: Seq<SpecDataVariant>,
)
    requires
        variants.len() > 0,
        stands_at(tokens, position, variants_tokens(variants)),
    ensures
        grammar_variants(tokens, position)
            == parsed(variants, position + variants_tokens(variants).len()),
    decreases variants.len(),
{
    let piece = variants_tokens(variants);
    let first = variant_tokens(variants[0]);
    let behind = position + first.len();
    if variants.len() == 1 {
        lemma_stands_split(tokens, position, first, seq![SpecToken::BraceRight]);
        lemma_stands_token(tokens, behind, seq![SpecToken::BraceRight], 0);
        lemma_variant_reads_back(tokens, position, variants[0]);
        assert(variants =~= seq![variants[0]]);
    } else {
        let rest = variants.drop_first();
        lemma_stands_split(tokens, position, first + seq![SpecToken::Comma], variants_tokens(rest));
        lemma_stands_split(tokens, position, first, seq![SpecToken::Comma]);
        lemma_stands_token(tokens, behind, seq![SpecToken::Comma], 0);
        lemma_variant_reads_back(tokens, position, variants[0]);
        lemma_variants_read_back(tokens, behind + 1, rest);
        assert(variants =~= seq![variants[0]] + rest);
    }
}

/// A data item is read back as it was written.
pub proof fn lemma_item_reads_back(tokens: Seq<SpecToken>, position: int, item: SpecDataItem)
    requires
        item_is_writable(item),
        stands_at(tokens, position, item_tokens(item)),
    ensures
        grammar_data(tokens, position) == parsed(item, position + item_tokens(item).len()),
{
    let piece = item_tokens(item);
    lemma_stands_token(tokens, position, piece, 0);
    lemma_stands_token(tokens, position, piece, 1);
    lemma_stands_token(tokens, position, piece, 2);
    match item {
        SpecDataItem::Single(SpecDataVariant::Marker { name }) => {},
        SpecDataItem::Single(SpecDataVariant::Tuple { name, fields }) => {
            let head = seq![
                SpecToken::KeywordData,
                SpecToken::Identifier(name),
                SpecToken::ParenLeft,
            ];
            let list = types_tokens(fields);
            lemma_stands_split(tokens, position, head + list, seq![SpecToken::SemiColon]);
            lemma_stands_split(tokens, position, head, list);
            lemma_types_read_back(tokens, position + 3, fields);
            lemma_stands_token(tokens, position + 3 + list.len(), seq![SpecToken::SemiColon], 0);
        },
        SpecDataItem::Single(SpecDataVariant::Struct { name, fields }) => {
            let head = seq![
                SpecToken::KeywordData,
                SpecToken::Identifier(name),
                SpecToken::BraceLeft,
            ];
            lemma_stands_split(tokens, position, head, fields_tokens(fields));
            lemma_stands_token(tokens, position + 3, fields_tokens(fields), 0);
            lemma_stands_token(tokens, position + 3, fields_tokens(fields), 1);
            lemma_fields_read_back(tokens, position + 3, fields);
        },
        SpecDataItem::Multiple { name, variants } => {
            let head = seq![
                SpecToken::KeywordData,
                SpecToken::Identifier(name),
                SpecToken::BraceLeft,
            ];
            if variants.len() == 0 {
                lemma_stands_split(tokens, position, head, seq![SpecToken::BraceRight]);
                lemma_stands_token(tokens, position + 3, seq![SpecToken::BraceRight], 0);
                assert(variants =~= Seq::<SpecDataVariant>::empty());
            } else {
                let list = variants_tokens(variants);
                lemma_stands_split(tokens, position, head, list);
                lemma_stands_token(tokens, position + 3, list, 0);
                lemma_stands_token(tokens, position + 3, list, 1);
                lemma_variants_read_back(tokens, position + 3, variants);
            }
        },
    }
}

/// An expression.
pub open spec fn expression_tokens(expression: SpecExpression) -> Seq<SpecToken>
    decreases expression,
{
    match expression {
        SpecExpression::Block(block) => seq![SpecToken::BraceLeft] + statements_tokens(block.0)
            + seq![SpecToken::BraceRight],
        SpecExpression::LiteralInteger(digits) => seq![SpecToken::LiteralNumber(digits)],
        SpecExpression::LiteralBoolean(value) => if value {
            seq![SpecToken::LiteralTrue]
        } else {
            seq![SpecToken::LiteralFalse]
        },
        SpecExpression::FunctionCall { name, .. } => seq![
            SpecToken::Identifier(name),
            SpecToken::ParenLeft,
            SpecToken::ParenRight,
        ],
    }
}

/// A statement of a block: an item, from its keyword. A statement that is
/// a bare expression has no way of being written.
pub open spec fn statement_tokens(statement: SpecStatement) -> Seq<SpecToken>
    decreases statement,
{
    match statement {
        SpecStatement::DataItem(item) => item_tokens(item),
        SpecStatement::FunctionItem(function) => seq![
            SpecToken::KeywordFn,
            SpecToken::Identifier(function.name),
            SpecToken::ParenLeft,
            SpecToken::ParenRight,
            SpecToken::BraceLeft,
        ] + statements_tokens(function.body.0) + seq![SpecToken::BraceRight],
        SpecStatement::LetItem(item) => seq![
            SpecToken::KeywordLet,
            SpecToken::Identifier(item.name),
            SpecToken::Colon,
            SpecToken::Identifier(item.declared_type),
            SpecToken::Equals,
        ] + expression_tokens(item.expression) + seq![SpecToken::SemiColon],
        SpecStatement::Expression(_) => Seq::empty(),
    }
}

/// The statements of a block, one after the other.
pub open spec fn statements_tokens(statements: Seq<SpecStatement>) -> Seq<SpecToken>
    decreases statements,
{
    if statements.len() == 0 {
        Seq::empty()
    } else {
        statement_tokens(statements[0]) + statements_tokens(statements.drop_first())
    }
}

/// Whether an expression can be written so that it is read back as itself:
/// a call has no arguments, and a block is made of statements that can be
/// written.
pub open spec fn expression_is_writable(expression: SpecExpression) -> bool
    decreases expression,
{
    match expression {
        SpecExpression::Block(block) => statements_are_writable(block.0),
        SpecExpression::FunctionCall { arguments, .. } => arguments.len() == 0,
        _ => true,
    }
}

/// Whether a statement can be written so that it is read back as itself:
/// it is an item, a function has no arguments, and what it is made of can
/// be written.
pub open spec fn statement_is_writable(statement: SpecStatement) -> bool
    decreases statement,
{
    match statement {
        SpecStatement::DataItem(item) => item_is_writable(item),
        SpecStatement::FunctionItem(function) => function.arguments.len() == 0
            && statements_are_writable(function.body.0),
        SpecStatement::LetItem(item) => expression_is_writable(item.expression),
        SpecStatement::Expression(_) => false,
    }
}

/// Whether each of the statements can be written.
pub open spec fn statements_are_writable(statements: Seq<SpecStatement>) -> bool
    decreases statements,
{
    statements.len() == 0 || (statement_is_writable(statements[0]) && statements_are_writable(
        statements.drop_first(),
    ))
}

/// Whether a token of this kind starts an item of a block.
pub open spec fn starts_item(kind: Option<TokenKind>) -> bool {
    kind == Some(TokenKind::KeywordFn) || kind == Some(TokenKind::KeywordData) || kind == Some(
        TokenKind::KeywordLet,
    )
}

/// An expression is read back as it was written.
pub proof fn lemma_expression_reads_back(
    tokens: Seq<SpecToken>,
    position: int,
    expression: SpecExpression,
)
    requires
        expression_is_writable(expression),
        stands_at(tokens, position, expression_tokens(expression)),
    ensures
        grammar_expression(tokens, position) == parsed(
            expression,
            position + expression_tokens(expression).len(),
        ),
    decreases expression,
{
    let piece = expression_tokens(expression);
    lemma_stands_token(tokens, position, piece, 0);
    match expression {
        SpecExpression::Block(block) => {
            let open = seq![SpecToken::BraceLeft];
            let body = statements_tokens(block.0);
            let close = seq![SpecToken::BraceRight];
            lemma_stands_split(tokens, position, open + body, close);
            lemma_stands_split(tokens, position, open, body);
            lemma_stands_token(tokens, position + 1 + body.len(), close, 0);
            lemma_statements_read_back(tokens, position + 1, block.0);
        },
        SpecExpression::LiteralInteger(digits) => {},
        SpecExpression::LiteralBoolean(value) => {},
        SpecExpression::FunctionCall { name, arguments } => {
            lemma_stands_token(tokens, position, piece, 1);
            lemma_stands_token(tokens, position, piece, 2);
            assert(arguments =~= Seq::<SpecExpression>::empty());
        },
    }
}

/// A statement is read back as it was written: it is the item that starts
/// where it stands.
pub proof fn lemma_statement_reads_back(
    tokens: Seq<SpecToken>,
    position: int,
    statement: SpecStatement,
)
    requires
        statement_is_writable(statement),
        stands_at(tokens, position, statement_tokens(statement)),
    ensures
        statement_tokens(statement).len() > 0,
        grammar_item(tokens, position) == Some(
            parsed(statement, position + statement_tokens(statement).len()),
        ),
    decreases statement,
{
    let piece = statement_tokens(statement);
    match statement {
        SpecStatement::DataItem(item) => {
            lemma_stands_token(tokens, position, piece, 0);
            lemma_item_reads_back(tokens, position, item);
        },
        SpecStatement::FunctionItem(function) => {
            let head = seq![
                SpecToken::KeywordFn,
                SpecToken::Identifier(function.name),
                SpecToken::ParenLeft,
                SpecToken::ParenRight,
                SpecToken::BraceLeft,
            ];
            let body = statements_tokens(function.body.0);
            let close = seq![SpecToken::BraceRight];
            lemma_stands_token(tokens, position, piece, 0);
            lemma_stands_token(tokens, position, piece, 1);
            lemma_stands_token(tokens, position, piece, 2);
            lemma_stands_token(tokens, position, piece, 3);
            lemma_stands_token(tokens, position, piece, 4);
            lemma_stands_split(tokens, position, head + body, close);
            lemma_stands_split(tokens, position, head, body);
            lemma_stands_token(tokens, position + 5 + body.len(), close, 0);
            lemma_statements_read_back(tokens, position + 5, function.body.0);
            assert(function.arguments =~= Seq::<(Text, Text)>::empty());
        },
        SpecStatement::LetItem(item) => {
            let head = seq![
                SpecToken::KeywordLet,
                SpecToken::Identifier(item.name),
                SpecToken::Colon,
                SpecToken::Identifier(item.declared_type),
                SpecToken::Equals,
            ];
            let value = expression_tokens(item.expression);
            let close = seq![SpecToken::SemiColon];
            lemma_stands_token(tokens, position, piece, 0);
            lemma_stands_token(tokens, position, piece, 1);
            lemma_stands_token(tokens, position, piece, 2);
            lemma_stands_token(tokens, position, piece, 3);
            lemma_stands_token(tokens, position, piece, 4);
            lemma_stands_split(tokens, position, head + value, close);
            lemma_stands_split(tokens, position, head, value);
            lemma_stands_token(tokens, position + 5 + value.len(), close, 0);
            lemma_expression_reads_back(tokens, position + 5, item.expression);
        },
        SpecStatement::Expression(_) => {},
    }
}

/// The statements of a block are read back as they were written, where
/// the token behind them starts no item.
pub proof fn lemma_statements_read_back(
    tokens: Seq<SpecToken>,
    position: int,
    statements: Seq<SpecStatement>,
)
    requires
        statements_are_writable(statements),
        stands_at(tokens, position, statements_tokens(statements)),
        !starts_item(kind_at(tokens, position + statements_tokens(statements).len())),
    ensures
        grammar_block(tokens, position) == parsed(
            SpecBlock(statements),
            position + statements_tokens(statements).len(),
        ),
    decreases statements,
{
    if statements.len() == 0 {
        assert(statements =~= Seq::<SpecStatement>::empty());
    } else {
        let first = statement_tokens(statements[0]);
        let rest = statements.drop_first();
        lemma_stands_split(tokens, position, first, statements_tokens(rest));
        lemma_statement_reads_back(tokens, position, statements[0]);
        lemma_statements_read_back(tokens, position + first.len(), rest);
        assert(seq![statements[0]] + rest =~= statements);
    }
}

/// A whole block is read back from the tokens it was written as.
pub proof fn lemma_block_reads_back(block: SpecBlock)
    requires
        statements_are_writable(block.0),
    ensures
        grammar_block(statements_tokens(block.0), 0) == parsed(
            block,
            statements_tokens(block.0).len() as int,
        ),
{
    let tokens = statements_tokens(block.0);
    lemma_statements_read_back(tokens, 0, block.0);
}

} // verus!
