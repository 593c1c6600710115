//! What holds of the parse of every token sequence.

use crate::ast::function::Parameter;
use crate::lexer::{TokenKind, TokenView};
use crate::parser::{
    binding_at, block_at, eat_at, elements_at, expect_at, function_at, identifier_at, kind_at, list_at,
    past, past_in_tokens, return_kind_at, statements_at, Element, Parsed, ParserError,
};
use vstd::prelude::*;

verus! {

/// A list whose right delimiter stands directly behind the left one is
/// empty.
pub proof fn empty_list<E: Element>(
    tokens: Seq<TokenView>,
    pos: int,
    left: TokenKind,
    right: TokenKind,
    sep: TokenKind,
)
    requires
        0 <= pos <= tokens.len(),
        kind_at(tokens, pos) == Some(left),
        kind_at(tokens, past(tokens, pos)) == Some(right),
    ensures
        list_at::<E>(tokens, pos, left, right, sep) == (Parsed {
            result: Ok(Seq::<E::V>::empty()),
            next: past(tokens, past(tokens, pos)),
        }),
{
    past_in_tokens(tokens, pos);
}

/// A separator may stand before the right delimiter: an element, `sep` and
/// `right` end a list as an element and `right` do, with that element and
/// nothing behind it.
pub proof fn separator_may_end_list<E: Element>(
    tokens: Seq<TokenView>,
    pos: int,
    right: TokenKind,
    sep: TokenKind,
)
    requires
        0 <= pos <= tokens.len(),
        kind_at(tokens, pos) != Some(right),
        E::rule_at(tokens, pos).result is Ok,
        kind_at(tokens, E::rule_at(tokens, pos).next) == Some(sep),
        kind_at(tokens, past(tokens, E::rule_at(tokens, pos).next)) == Some(right),
    ensures
        elements_at::<E>(tokens, pos, right, sep) == (Parsed {
            result: Ok(seq![E::rule_at(tokens, pos).result->Ok_0]),
            next: past(tokens, past(tokens, E::rule_at(tokens, pos).next)),
        }),
{
    let element = E::rule_at(tokens, pos);
    E::rule_in_tokens(tokens, pos);
    past_in_tokens(tokens, element.next);
    let rest = elements_at::<E>(tokens, past(tokens, element.next), right, sep);
    assert(rest.result == Ok::<Seq<E::V>, ParserError>(Seq::<E::V>::empty()));
    assert(seq![element.result->Ok_0] + Seq::<E::V>::empty() =~= seq![element.result->Ok_0]);
}

/// What is left of a list never leads back, nor past the end; read to its
/// right delimiter, it has taken a token at least.
pub proof fn elements_in_tokens<E: Element>(
    tokens: Seq<TokenView>,
    pos: int,
    right: TokenKind,
    sep: TokenKind,
)
    requires
        0 <= pos <= tokens.len(),
    ensures
        pos <= elements_at::<E>(tokens, pos, right, sep).next <= tokens.len(),
        elements_at::<E>(tokens, pos, right, sep).result is Ok ==> pos < elements_at::<E>(
            tokens,
            pos,
            right,
            sep,
        ).next,
    decreases tokens.len() - pos,
{
    past_in_tokens(tokens, pos);
    if kind_at(tokens, pos) != Some(right) {
        let element = E::rule_at(tokens, pos);
        E::rule_in_tokens(tokens, pos);
        past_in_tokens(tokens, element.next);
        if element.result is Ok && kind_at(tokens, element.next) == Some(sep) {
            elements_in_tokens::<E>(tokens, past(tokens, element.next), right, sep);
        }
    }
}

/// A declaration never leads back, nor past the end.
pub proof fn binding_in_tokens(tokens: Seq<TokenView>, pos: int)
    requires
        0 <= pos <= tokens.len(),
    ensures
        pos <= binding_at(tokens, pos).next <= tokens.len(),
{
    let keyword = expect_at(tokens, pos, TokenKind::KwLet);
    past_in_tokens(tokens, pos);
    past_in_tokens(tokens, keyword.next);
    let name = identifier_at(tokens, eat_at(tokens, keyword.next, TokenKind::KwMut));
    past_in_tokens(tokens, past(tokens, keyword.next));
    past_in_tokens(tokens, name.next);
    let equals = expect_at(tokens, name.next, TokenKind::TokEquals);
    past_in_tokens(tokens, equals.next);
    let expression = identifier_at(tokens, equals.next);
    past_in_tokens(tokens, expression.next);
}

/// A block never leads back, nor past the end.
pub proof fn block_in_tokens(tokens: Seq<TokenView>, pos: int)
    requires
        0 <= pos <= tokens.len(),
    ensures
        pos <= block_at(tokens, pos).next <= tokens.len(),
{
    let open = expect_at(tokens, pos, TokenKind::TokLeftBrace);
    past_in_tokens(tokens, pos);
    binding_in_tokens(tokens, open.next);
    past_in_tokens(tokens, open.next);
    let statements = statements_at(tokens, open.next);
    past_in_tokens(tokens, statements.next);
}

/// A parse comes to an end: the parser never moves back, nor past the last
/// token, and a function that was read took a token at least.
pub proof fn function_in_tokens(tokens: Seq<TokenView>, pos: int)
    requires
        0 <= pos <= tokens.len(),
    ensures
        pos <= function_at(tokens, pos).next <= tokens.len(),
        function_at(tokens, pos).result is Ok ==> pos < function_at(tokens, pos).next,
{
    let keyword = expect_at(tokens, pos, TokenKind::KwFn);
    past_in_tokens(tokens, pos);
    let name = identifier_at(tokens, keyword.next);
    past_in_tokens(tokens, keyword.next);
    past_in_tokens(tokens, name.next);
    let open = expect_at(tokens, name.next, TokenKind::TokLeftParen);
    elements_in_tokens::<Parameter>(
        tokens,
        open.next,
        TokenKind::TokRightParen,
        TokenKind::TokComma,
    );
    let parameters = list_at::<Parameter>(
        tokens,
        name.next,
        TokenKind::TokLeftParen,
        TokenKind::TokRightParen,
        TokenKind::TokComma,
    );
    past_in_tokens(tokens, parameters.next);
    past_in_tokens(tokens, past(tokens, parameters.next));
    let kind = return_kind_at(tokens, parameters.next);
    block_in_tokens(tokens, kind.next);
}

} // verus!
