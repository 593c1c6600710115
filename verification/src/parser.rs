//! The parser: recursive descent over the tokens, one procedure for each
//! rule of the grammar. It stands on a token that means something, or at
//! the end, and knows at which character of the text that token begins.
//! The first error ends the parse.

use crate::ast::binding::{binding_inside, Binding, BindingView};
use crate::ast::block::{block_inside, Block};
use crate::ast::function::{
    function_inside, parameter_inside, Function, FunctionView, Parameter, ParameterView,
};
use crate::ast::identifier::Identifier;
use crate::ast::span::{Span, START_LIMIT};
use crate::ast::views_of;
use crate::lexer::{is_trivia, offset_at, total_size, views, Token, TokenKind, TokenView};
use crate::lexer_laws::offset_at_grows;
use vstd::prelude::*;

verus! {

/// Why a parse ended early.
#[derive(Debug, Clone, Copy, PartialEq, Eq, Structural)]
pub enum ParserError {
    /// Another token stands where `expected` had to: its kind and its span.
    UnexpectedToken { expected: TokenKind, actual: TokenKind, span: Span },
    /// The tokens ended where one more had to stand, at this offset.
    UnexpectedEof { offset: usize },
}

/// What a rule gives at a position: its result, and the position of the
/// token on which the parser then stands.
pub struct Parsed<T> {
    pub result: Result<T, ParserError>,
    pub next: int,
}

/// How many trivia tokens stand in a row from `from` on.
pub open spec fn trivia_run(tokens: Seq<TokenView>, from: int) -> nat
    decreases tokens.len() - from,
{
    if 0 <= from < tokens.len() && is_trivia(tokens[from].kind) {
        1 + trivia_run(tokens, from + 1)
    } else {
        0
    }
}

/// The first position from `from` on that holds no trivia: a token that
/// means something, or the end.
pub open spec fn settle(tokens: Seq<TokenView>, from: int) -> int {
    from + trivia_run(tokens, from)
}

/// Where the parser stands once it has taken the token at `pos`; at the end
/// there is nothing to take.
pub open spec fn past(tokens: Seq<TokenView>, pos: int) -> int {
    if 0 <= pos < tokens.len() {
        settle(tokens, pos + 1)
    } else {
        pos
    }
}

/// The kind of the token at `pos`, or nothing at the end.
pub open spec fn kind_at(tokens: Seq<TokenView>, pos: int) -> Option<TokenKind> {
    if 0 <= pos < tokens.len() {
        Some(tokens[pos].kind)
    } else {
        None
    }
}

/// The characters that the token at `pos` covers, and nothing around them.
pub open spec fn span_at(tokens: Seq<TokenView>, pos: int) -> Span {
    Span::of(offset_at(tokens, pos), offset_at(tokens, pos) + tokens[pos].size)
}

/// The error for a position that does not hold `expected`.
pub open spec fn refusal(tokens: Seq<TokenView>, pos: int, expected: TokenKind) -> ParserError {
    if 0 <= pos < tokens.len() {
        ParserError::UnexpectedToken {
            expected,
            actual: tokens[pos].kind,
            span: span_at(tokens, pos),
        }
    } else {
        ParserError::UnexpectedEof { offset: total_size(tokens) as usize }
    }
}

/// A rule that ends the parse with `error`.
pub open spec fn failed<T>(error: ParserError, next: int) -> Parsed<T> {
    Parsed { result: Err(error), next }
}

/// A token of kind `expected` has to stand at `pos`. Whatever stands there
/// is taken.
pub open spec fn expect_at(tokens: Seq<TokenView>, pos: int, expected: TokenKind) -> Parsed<()> {
    Parsed {
        result: if kind_at(tokens, pos) == Some(expected) {
            Ok(())
        } else {
            Err(refusal(tokens, pos, expected))
        },
        next: past(tokens, pos),
    }
}

/// Where the parser stands after a token of `kind` that may be missing.
pub open spec fn eat_at(tokens: Seq<TokenView>, pos: int, kind: TokenKind) -> int {
    if kind_at(tokens, pos) == Some(kind) {
        past(tokens, pos)
    } else {
        pos
    }
}

/// A name: one identifier token, whose span it is.
pub open spec fn identifier_at(tokens: Seq<TokenView>, pos: int) -> Parsed<Span> {
    let token = expect_at(tokens, pos, TokenKind::TokIdentifier);
    match token.result {
        Ok(_) => Parsed { result: Ok(span_at(tokens, pos)), next: token.next },
        Err(error) => failed(error, token.next),
    }
}

/// A parameter: a name, a colon, the name of a type.
pub open spec fn parameter_at(tokens: Seq<TokenView>, pos: int) -> Parsed<ParameterView> {
    let name = identifier_at(tokens, pos);
    match name.result {
        Err(error) => failed(error, name.next),
        Ok(name_span) => {
            let colon = expect_at(tokens, name.next, TokenKind::TokColon);
            match colon.result {
                Err(error) => failed(error, colon.next),
                Ok(_) => {
                    let kind = identifier_at(tokens, colon.next);
                    match kind.result {
                        Err(error) => failed(error, kind.next),
                        Ok(kind_span) => Parsed {
                            result: Ok(ParameterView { name: name_span, kind: kind_span }),
                            next: kind.next,
                        },
                    }
                },
            }
        },
    }
}

/// A run of trivia that begins among the tokens ends among them.
pub proof fn settle_in_tokens(tokens: Seq<TokenView>, from: int)
    requires
        0 <= from <= tokens.len(),
    ensures
        from <= settle(tokens, from) <= tokens.len(),
        kind_at(tokens, settle(tokens, from)) matches Some(kind) ==> !is_trivia(kind),
    decreases tokens.len() - from,
{
    if from < tokens.len() && is_trivia(tokens[from].kind) {
        settle_in_tokens(tokens, from + 1);
    }
}

/// Taking a token never leads back, nor past the end.
pub proof fn past_in_tokens(tokens: Seq<TokenView>, pos: int)
    requires
        0 <= pos <= tokens.len(),
    ensures
        pos <= past(tokens, pos) <= tokens.len(),
        pos < tokens.len() ==> pos < past(tokens, pos),
        kind_at(tokens, past(tokens, pos)) matches Some(kind) ==> !is_trivia(kind) || pos
            == tokens.len(),
{
    if pos < tokens.len() {
        settle_in_tokens(tokens, pos + 1);
    }
}

/// A parameter never leads back, nor past the end.
pub proof fn parameter_in_tokens(tokens: Seq<TokenView>, pos: int)
    requires
        0 <= pos <= tokens.len(),
    ensures
        pos <= parameter_at(tokens, pos).next <= tokens.len(),
{
    let name = identifier_at(tokens, pos);
    past_in_tokens(tokens, pos);
    past_in_tokens(tokens, name.next);
    past_in_tokens(tokens, past(tokens, name.next));
}

/// A node that a list can hold: one with a rule of the grammar to itself.
pub trait Element: View + Sized {
    /// What the node's rule gives at `pos`.
    spec fn rule_at(tokens: Seq<TokenView>, pos: int) -> Parsed<Self::V>;

    /// Whether every name of a node lies in a text of `len` characters.
    spec fn lies_inside(node: Self::V, len: nat) -> bool;

    /// The rule never leads back, nor past the end.
    proof fn rule_in_tokens(tokens: Seq<TokenView>, pos: int)
        requires
            0 <= pos <= tokens.len(),
        ensures
            pos <= Self::rule_at(tokens, pos).next <= tokens.len(),
    ;

    /// Reads one node where the parser stands.
    fn read(parser: &mut Parser) -> (result: Result<Self, ParserError>)
        requires
            old(parser).wf(),
        ensures
            final(parser).wf(),
            final(parser).tokens() == old(parser).tokens(),
            gives(result, Self::rule_at(old(parser).tokens(), old(parser).position()).result),
            final(parser).position() == Self::rule_at(
                old(parser).tokens(),
                old(parser).position(),
            ).next,
            result matches Ok(node) ==> Self::lies_inside(node@, total_size(old(parser).tokens())),
    ;
}

/// What is left of a list once its left delimiter is taken: nothing but
/// `right`; or an element and `right`; or an element, `sep`, and what is
/// left of a list again. So `sep` may stand before `right`.
pub open spec fn elements_at<E: Element>(
    tokens: Seq<TokenView>,
    pos: int,
    right: TokenKind,
    sep: TokenKind,
) -> Parsed<Seq<E::V>>
    decreases tokens.len() - pos,
    when 0 <= pos <= tokens.len()
{
    if kind_at(tokens, pos) == Some(right) {
        Parsed { result: Ok(Seq::empty()), next: past(tokens, pos) }
    } else {
        let element = E::rule_at(tokens, pos);
        match element.result {
            Err(error) => failed(error, element.next),
            Ok(node) => {
                if kind_at(tokens, element.next) == Some(sep) {
                    proof {
                        E::rule_in_tokens(tokens, pos);
                        past_in_tokens(tokens, element.next);
                    }
                    let rest = elements_at::<E>(tokens, past(tokens, element.next), right, sep);
                    match rest.result {
                        Err(error) => failed(error, rest.next),
                        Ok(others) => Parsed { result: Ok(seq![node] + others), next: rest.next },
                    }
                } else {
                    let close = expect_at(tokens, element.next, right);
                    match close.result {
                        Err(error) => failed(error, close.next),
                        Ok(_) => Parsed { result: Ok(seq![node]), next: close.next },
                    }
                }
            },
        }
    }
}

/// A list: `left`, then elements with `sep` between them and, if one
/// likes, behind the last, then `right`.
pub open spec fn list_at<E: Element>(
    tokens: Seq<TokenView>,
    pos: int,
    left: TokenKind,
    right: TokenKind,
    sep: TokenKind,
) -> Parsed<Seq<E::V>> {
    let open = expect_at(tokens, pos, left);
    match open.result {
        Err(error) => failed(error, open.next),
        Ok(_) => elements_at::<E>(tokens, open.next, right, sep),
    }
}

/// A declaration: `let`, `mut` if one likes, a name, `=`, a name, `;`.
pub open spec fn binding_at(tokens: Seq<TokenView>, pos: int) -> Parsed<BindingView> {
    let keyword = expect_at(tokens, pos, TokenKind::KwLet);
    match keyword.result {
        Err(error) => failed(error, keyword.next),
        Ok(_) => {
            let mutable = kind_at(tokens, keyword.next) == Some(TokenKind::KwMut);
            let name = identifier_at(tokens, eat_at(tokens, keyword.next, TokenKind::KwMut));
            match name.result {
                Err(error) => failed(error, name.next),
                Ok(name_span) => {
                    let equals = expect_at(tokens, name.next, TokenKind::TokEquals);
                    match equals.result {
                        Err(error) => failed(error, equals.next),
                        Ok(_) => {
                            let expression = identifier_at(tokens, equals.next);
                            match expression.result {
                                Err(error) => failed(error, expression.next),
                                Ok(expression_span) => {
                                    let end = expect_at(
                                        tokens,
                                        expression.next,
                                        TokenKind::TokSemiColon,
                                    );
                                    match end.result {
                                        Err(error) => failed(error, end.next),
                                        Ok(_) => Parsed {
                                            result: Ok(
                                                BindingView {
                                                    name: name_span,
                                                    mutable,
                                                    expression: expression_span,
                                                },
                                            ),
                                            next: end.next,
                                        },
                                    }
                                },
                            }
                        },
                    }
                },
            }
        },
    }
}

/// What stands between the braces of a block: one declaration, or a lone
/// `;` for no statement. Anything else is refused, as a `let` that is
/// missing.
pub open spec fn statements_at(tokens: Seq<TokenView>, pos: int) -> Parsed<Seq<BindingView>> {
    if kind_at(tokens, pos) == Some(TokenKind::KwLet) {
        let binding = binding_at(tokens, pos);
        match binding.result {
            Err(error) => failed(error, binding.next),
            Ok(statement) => Parsed { result: Ok(seq![statement]), next: binding.next },
        }
    } else if kind_at(tokens, pos) == Some(TokenKind::TokSemiColon) {
        Parsed { result: Ok(Seq::empty()), next: past(tokens, pos) }
    } else {
        failed(refusal(tokens, pos, TokenKind::KwLet), past(tokens, pos))
    }
}

/// A block: `{`, its statements, `}`.
pub open spec fn block_at(tokens: Seq<TokenView>, pos: int) -> Parsed<Seq<BindingView>> {
    let open = expect_at(tokens, pos, TokenKind::TokLeftBrace);
    match open.result {
        Err(error) => failed(error, open.next),
        Ok(_) => {
            let statements = statements_at(tokens, open.next);
            match statements.result {
                Err(error) => failed(error, statements.next),
                Ok(found) => {
                    let close = expect_at(tokens, statements.next, TokenKind::TokRightBrace);
                    match close.result {
                        Err(error) => failed(error, close.next),
                        Ok(_) => Parsed { result: Ok(found), next: close.next },
                    }
                },
            }
        },
    }
}

/// The type of a function's result: `->` and a name, or nothing.
pub open spec fn return_kind_at(tokens: Seq<TokenView>, pos: int) -> Parsed<Option<Span>> {
    if kind_at(tokens, pos) == Some(TokenKind::TokArrow) {
        let kind = identifier_at(tokens, past(tokens, pos));
        match kind.result {
            Err(error) => failed(error, kind.next),
            Ok(span) => Parsed { result: Ok(Some(span)), next: kind.next },
        }
    } else {
        Parsed { result: Ok(None), next: pos }
    }
}

/// A function: `fn`, a name, the parameters between parentheses with
/// commas, the type of the result if there is one, and a block.
pub open spec fn function_at(tokens: Seq<TokenView>, pos: int) -> Parsed<FunctionView> {
    let keyword = expect_at(tokens, pos, TokenKind::KwFn);
    match keyword.result {
        Err(error) => failed(error, keyword.next),
        Ok(_) => {
            let name = identifier_at(tokens, keyword.next);
            match name.result {
                Err(error) => failed(error, name.next),
                Ok(name_span) => {
                    let parameters = list_at::<Parameter>(
                        tokens,
                        name.next,
                        TokenKind::TokLeftParen,
                        TokenKind::TokRightParen,
                        TokenKind::TokComma,
                    );
                    match parameters.result {
                        Err(error) => failed(error, parameters.next),
                        Ok(listed) => {
                            let kind = return_kind_at(tokens, parameters.next);
                            match kind.result {
                                Err(error) => failed(error, kind.next),
                                Ok(kind_span) => {
                                    let body = block_at(tokens, kind.next);
                                    match body.result {
                                        Err(error) => failed(error, body.next),
                                        Ok(statements) => Parsed {
                                            result: Ok(
                                                FunctionView {
                                                    name: name_span,
                                                    parameters: listed,
                                                    kind: kind_span,
                                                    body: statements,
                                                },
                                            ),
                                            next: body.next,
                                        },
                                    }
                                },
                            }
                        },
                    }
                },
            }
        },
    }
}

/// The tree of a whole token sequence, or the first error: trivia in front
/// is passed over, and one function is read.
pub open spec fn parse(tokens: Seq<TokenView>) -> Result<FunctionView, ParserError> {
    function_at(tokens, settle(tokens, 0)).result
}

/// Whether a rule gave what `parsed` says: the node with that view, or
/// that error.
pub open spec fn gives<T: View>(result: Result<T, ParserError>, parsed: Result<T::V, ParserError>) -> bool {
    match result {
        Ok(node) => parsed == Ok::<T::V, ParserError>(node@),
        Err(error) => parsed == Err::<T::V, ParserError>(error),
    }
}

/// Whether a list gave what `parsed` says: the elements with those views,
/// or that error.
pub open spec fn gives_list<E: View>(
    result: Result<Vec<E>, ParserError>,
    parsed: Result<Seq<E::V>, ParserError>,
) -> bool {
    match result {
        Ok(elements) => parsed == Ok::<Seq<E::V>, ParserError>(views_of(elements@)),
        Err(error) => parsed == Err::<Seq<E::V>, ParserError>(error),
    }
}

/// Elements read before, in front of what is left of a list.
pub open spec fn prefixed<V>(front: Seq<V>, rest: Parsed<Seq<V>>) -> Parsed<Seq<V>> {
    Parsed {
        result: match rest.result {
            Ok(others) => Ok(front + others),
            Err(error) => Err(error),
        },
        next: rest.next,
    }
}

/// Whether every name in the elements lies in a text of `len` characters.
pub open spec fn all_inside<E: Element>(elements: Seq<E::V>, len: nat) -> bool {
    forall|i: int| 0 <= i < elements.len() ==> E::lies_inside(#[trigger] elements[i], len)
}

/// The parser at work: the tokens, the position of the token on which it
/// stands, and the offset in the text at which that token begins.
pub struct Parser<'s> {
    tokens: &'s [Token],
    pos: usize,
    offset: usize,
}

impl<'s> Parser<'s> {
    /// The tokens being read.
    pub closed spec fn tokens(&self) -> Seq<TokenView> {
        views(self.tokens@)
    }

    /// The position of the token on which the parser stands.
    pub closed spec fn position(&self) -> int {
        self.pos as int
    }

    /// The offset is the sum of the sizes of the tokens passed, and every
    /// offset of the text is one that a span can begin at.
    spec fn tracks(&self) -> bool {
        &&& self.pos <= self.tokens@.len()
        &&& self.offset == offset_at(views(self.tokens@), self.pos as int)
        &&& total_size(views(self.tokens@)) < START_LIMIT
        &&& total_size(views(self.tokens@)) <= usize::MAX
    }

    /// The parser keeps count of the offset and stands on a token that
    /// means something, or at the end.
    pub closed spec fn wf(&self) -> bool {
        &&& self.tracks()
        &&& trivia_run(views(self.tokens@), self.pos as int) == 0
    }

    /// A parser stands among its tokens, on none that is trivia, and the
    /// text of its tokens is short enough for a span to begin anywhere.
    pub proof fn stands_in_tokens(&self)
        requires
            self.wf(),
        ensures
            0 <= self.position() <= self.tokens().len(),
            settle(self.tokens(), self.position()) == self.position(),
            total_size(self.tokens()) < START_LIMIT,
    {
    }

    /// A parser on the first token of `tokens` that means something. The
    /// text must be short enough for a span to begin at any offset in it.
    pub fn new(tokens: &'s [Token]) -> (parser: Parser<'s>)
        requires
            total_size(views(tokens@)) < START_LIMIT,
            total_size(views(tokens@)) <= usize::MAX,
        ensures
            parser.wf(),
            parser.tokens() == views(tokens@),
            parser.position() == settle(views(tokens@), 0),
    {
        let mut result = Parser { tokens, pos: 0, offset: 0 };
        result.skip_trivia();
        result
    }

    /// The offset in the text at which the current token begins.
    fn offset(&self) -> (offset: usize)
        ensures
            offset == self.offset,
    {
        self.offset
    }

    fn incr_offset(&mut self, delta: usize)
        requires
            old(self).offset + delta <= usize::MAX,
        ensures
            final(self).offset == old(self).offset + delta,
            final(self).tokens == old(self).tokens,
            final(self).pos == old(self).pos,
    {
        self.offset += delta;
    }

    /// Passes over the trivia in front of the parser.
    fn skip_trivia(&mut self)
        requires
            old(self).tracks(),
        ensures
            final(self).wf(),
            final(self).tokens == old(self).tokens,
            final(self).pos == settle(views(old(self).tokens@), old(self).pos as int),
    {
        let ghost tokens = views(self.tokens@);
        while self.pos < self.tokens.len() && self.tokens[self.pos].is_ws()
            invariant
                self.tracks(),
                self.tokens == old(self).tokens,
                tokens == views(self.tokens@),
                old(self).pos <= self.pos,
                settle(tokens, self.pos as int) == settle(tokens, old(self).pos as int),
            decreases self.tokens.len() - self.pos,
        {
            proof {
                offset_at_grows(tokens, self.pos + 1, tokens.len() as int);
            }
            let size = self.tokens[self.pos].size();
            self.incr_offset(size);
            self.pos = self.pos + 1;
        }
    }

    /// The token on which the parser stands, or nothing at the end.
    fn peek(&self) -> (token: Option<Token>)
        requires
            self.wf(),
        ensures
            token is Some <==> self.pos < self.tokens@.len(),
            token is Some ==> self.pos < usize::MAX,
            token matches Some(token) ==> token == self.tokens@[self.pos as int],
            token matches Some(token) ==> kind_at(self.tokens(), self.position()) == Some(
                token@.kind,
            ),
            token is None ==> kind_at(self.tokens(), self.position()) is None,
    {
        if self.pos < self.tokens.len() {
            Some(self.tokens[self.pos])
        } else {
            None
        }
    }

    /// Takes the token on which the parser stands, and the trivia behind it.
    fn next(&mut self) -> (token: Option<Token>)
        requires
            old(self).wf(),
        ensures
            final(self).wf(),
            final(self).tokens == old(self).tokens,
            final(self).position() == past(old(self).tokens(), old(self).position()),
            token is Some <==> old(self).pos < old(self).tokens@.len(),
            token matches Some(token) ==> token == old(self).tokens@[old(self).pos as int],
    {
        let result = self.peek();
        if let Some(token) = result {
            proof {
                offset_at_grows(views(self.tokens@), self.pos + 1, self.tokens@.len() as int);
            }
            self.incr_offset(token.size());
            self.pos = self.pos + 1;
        }
        self.skip_trivia();
        result
    }

    /// Takes the current token if it is of `kind`, and says whether it was.
    fn eat(&mut self, kind: TokenKind) -> (eaten: bool)
        requires
            old(self).wf(),
        ensures
            final(self).wf(),
            final(self).tokens() == old(self).tokens(),
            eaten == (kind_at(old(self).tokens(), old(self).position()) == Some(kind)),
            final(self).position() == eat_at(old(self).tokens(), old(self).position(), kind),
    {
        match self.peek() {
            Some(actual) => {
                if actual.kind() == kind {
                    self.next();
                    true
                } else {
                    false
                }
            },
            None => false,
        }
    }

    /// Takes the current token, which has to be of kind `expected`.
    fn expect(&mut self, expected: TokenKind) -> (result: Result<(), ParserError>)
        requires
            old(self).wf(),
        ensures
            final(self).wf(),
            final(self).tokens() == old(self).tokens(),
            result == expect_at(old(self).tokens(), old(self).position(), expected).result,
            final(self).position() == expect_at(
                old(self).tokens(),
                old(self).position(),
                expected,
            ).next,
    {
        match self.peek() {
            Some(actual) => {
                if actual.kind() == expected {
                    self.next();
                    Ok(())
                } else {
                    proof {
                        offset_at_grows(
                            views(self.tokens@),
                            self.pos + 1,
                            self.tokens@.len() as int,
                        );
                    }
                    let start = self.offset();
                    let stop = start + actual.size();
                    self.next();
                    Err(
                        ParserError::UnexpectedToken {
                            expected,
                            actual: actual.kind(),
                            span: Span::new(start, stop),
                        },
                    )
                }
            },
            None => Err(ParserError::UnexpectedEof { offset: self.offset() }),
        }
    }

    /// Reads a name.
    fn identifier(&mut self) -> (result: Result<Identifier, ParserError>)
        requires
            old(self).wf(),
        ensures
            final(self).wf(),
            final(self).tokens() == old(self).tokens(),
            gives(result, identifier_at(old(self).tokens(), old(self).position()).result),
            final(self).position() == identifier_at(old(self).tokens(), old(self).position()).next,
            result matches Ok(name) ==> name@.spec_end() <= total_size(old(self).tokens()),
    {
        let start = self.offset();
        let stop = match self.peek() {
            Some(token) => {
                proof {
                    offset_at_grows(views(self.tokens@), self.pos + 1, self.tokens@.len() as int);
                }
                start + token.size()
            },
            None => start,
        };
        match self.expect(TokenKind::TokIdentifier) {
            Ok(_) => Ok(Identifier::new(Span::new(start, stop))),
            Err(error) => Err(error),
        }
    }

    /// Reads a parameter.
    fn parameter(&mut self) -> (result: Result<Parameter, ParserError>)
        requires
            old(self).wf(),
        ensures
            final(self).wf(),
            final(self).tokens() == old(self).tokens(),
            gives(result, parameter_at(old(self).tokens(), old(self).position()).result),
            final(self).position() == parameter_at(old(self).tokens(), old(self).position()).next,
            result matches Ok(parameter) ==> parameter_inside(
                parameter@,
                total_size(old(self).tokens()),
            ),
    {
        let name = self.identifier()?;
        self.expect(TokenKind::TokColon)?;
        let kind = self.identifier()?;
        Ok(Parameter::new(name, kind))
    }

    /// Reads a list between `left_delim` and `right_delim`, with `sep`
    /// between its elements and, if one likes, behind the last.
    fn list<E: Element>(&mut self, left_delim: TokenKind, right_delim: TokenKind, sep: TokenKind) -> (result:
        Result<Vec<E>, ParserError>)
        requires
            old(self).wf(),
        ensures
            final(self).wf(),
            final(self).tokens() == old(self).tokens(),
            gives_list(
                result,
                list_at::<E>(
                    old(self).tokens(),
                    old(self).position(),
                    left_delim,
                    right_delim,
                    sep,
                ).result,
            ),
            final(self).position() == list_at::<E>(
                old(self).tokens(),
                old(self).position(),
                left_delim,
                right_delim,
                sep,
            ).next,
            result matches Ok(elements) ==> all_inside::<E>(
                views_of(elements@),
                total_size(old(self).tokens()),
            ),
    {
        let mut result: Vec<E> = Vec::new();
        self.expect(left_delim)?;
        let ghost tokens = self.tokens();
        let ghost whole = elements_at::<E>(tokens, self.position(), right_delim, sep);
        proof {
            assert(prefixed(views_of(result@), whole).result =~= whole.result);
        }
        loop
            invariant_except_break
                prefixed(
                    views_of(result@),
                    elements_at::<E>(tokens, self.position(), right_delim, sep),
                ) == whole,
            invariant
                self.wf(),
                self.tokens() == old(self).tokens(),
                tokens == self.tokens(),
                tokens == old(self).tokens(),
                0 <= self.position() <= tokens.len(),
                whole == list_at::<E>(tokens, old(self).position(), left_delim, right_delim, sep),
                all_inside::<E>(views_of(result@), total_size(tokens)),
            ensures
                whole.result == Ok::<Seq<E::V>, ParserError>(views_of(result@)),
                whole.next == self.position(),
            decreases tokens.len() - self.position(),
        {
            let ghost here = self.position();
            let ghost front = views_of(result@);
            if self.eat(right_delim) {
                proof {
                    past_in_tokens(tokens, here);
                    assert(front + Seq::<E::V>::empty() =~= front);
                }
                break ;
            }
            let element = match E::read(self) {
                Ok(element) => element,
                Err(error) => {
                    proof {
                        E::rule_in_tokens(tokens, here);
                    }
                    return Err(error);
                },
            };
            let ghost found = element@;
            let ghost behind = self.position();
            result.push(element);
            proof {
                E::rule_in_tokens(tokens, here);
                past_in_tokens(tokens, behind);
                assert(views_of(result@) =~= front.push(found));
                assert(front.push(found) =~= front + seq![found]);
            }
            if !self.eat(sep) {
                match self.expect(right_delim) {
                    Ok(_) => {},
                    Err(error) => {
                        return Err(error);
                    },
                }
                break ;
            }
            proof {
                let rest = elements_at::<E>(tokens, self.position(), right_delim, sep);
                if rest.result is Ok {
                    assert(front.push(found) + rest.result->Ok_0 =~= front + (seq![found]
                        + rest.result->Ok_0));
                }
            }
        }
        Ok(result)
    }

    /// Reads a local declaration.
    fn binding(&mut self) -> (result: Result<Binding, ParserError>)
        requires
            old(self).wf(),
        ensures
            final(self).wf(),
            final(self).tokens() == old(self).tokens(),
            gives(result, binding_at(old(self).tokens(), old(self).position()).result),
            final(self).position() == binding_at(old(self).tokens(), old(self).position()).next,
            result matches Ok(binding) ==> binding_inside(binding@, total_size(old(self).tokens())),
    {
        self.expect(TokenKind::KwLet)?;
        let mutable = self.eat(TokenKind::KwMut);
        let name = self.identifier()?;
        self.expect(TokenKind::TokEquals)?;
        let expression = self.identifier()?;
        self.expect(TokenKind::TokSemiColon)?;
        Ok(Binding::new(name, mutable, expression))
    }

    /// Reads a block: one declaration between braces, or a lone `;`
    /// between them for an empty block. Any other block is refused.
    fn block(&mut self) -> (result: Result<Block, ParserError>)
        requires
            old(self).wf(),
        ensures
            final(self).wf(),
            final(self).tokens() == old(self).tokens(),
            gives(result, block_at(old(self).tokens(), old(self).position()).result),
            final(self).position() == block_at(old(self).tokens(), old(self).position()).next,
            result matches Ok(block) ==> block_inside(block@, total_size(old(self).tokens())),
    {
        self.expect(TokenKind::TokLeftBrace)?;
        let mut statements: Vec<Binding> = Vec::new();
        let first = match self.peek() {
            Some(token) => Some(token.kind()),
            None => None,
        };
        match first {
            Some(TokenKind::KwLet) => {
                let statement = self.binding()?;
                let ghost found = statement@;
                statements.push(statement);
                proof {
                    assert(views_of(statements@) =~= seq![found]);
                }
            },
            Some(TokenKind::TokSemiColon) => {
                self.next();
                proof {
                    assert(views_of(statements@) =~= Seq::<BindingView>::empty());
                }
            },
            _ => {
                self.expect(TokenKind::KwLet)?;
            },
        }
        self.expect(TokenKind::TokRightBrace)?;
        Ok(Block::new(statements))
    }

    /// Reads a function.
    fn function(&mut self) -> (result: Result<Function, ParserError>)
        requires
            old(self).wf(),
        ensures
            final(self).wf(),
            final(self).tokens() == old(self).tokens(),
            gives(result, function_at(old(self).tokens(), old(self).position()).result),
            final(self).position() == function_at(old(self).tokens(), old(self).position()).next,
            result matches Ok(function) ==> function_inside(
                function@,
                total_size(old(self).tokens()),
            ),
    {
        self.expect(TokenKind::KwFn)?;

        let name = self.identifier()?;

        let parameters = self.list::<Parameter>(
            TokenKind::TokLeftParen,
            TokenKind::TokRightParen,
            TokenKind::TokComma,
        )?;

        let mut kind = None;
        if self.eat(TokenKind::TokArrow) {
            kind = Some(self.identifier()?);
        }
        let body = self.block()?;
        Ok(Function::new(name, parameters, kind, body))
    }

    /// Reads one function from where the parser stands: the tree, or the
    /// first error. Every name of the tree lies in the text that the tokens
    /// were made from.
    pub fn go(&mut self) -> (result: Result<Function, ParserError>)
        requires
            old(self).wf(),
        ensures
            final(self).wf(),
            final(self).tokens() == old(self).tokens(),
            gives(result, function_at(old(self).tokens(), old(self).position()).result),
            final(self).position() == function_at(old(self).tokens(), old(self).position()).next,
            result matches Ok(function) ==> function_inside(
                function@,
                total_size(old(self).tokens()),
            ),
    {
        self.function()
    }
}

impl Element for Parameter {
    open spec fn rule_at(tokens: Seq<TokenView>, pos: int) -> Parsed<ParameterView> {
        parameter_at(tokens, pos)
    }

    open spec fn lies_inside(node: ParameterView, len: nat) -> bool {
        parameter_inside(node, len)
    }

    proof fn rule_in_tokens(tokens: Seq<TokenView>, pos: int) {
        parameter_in_tokens(tokens, pos);
    }

    fn read(parser: &mut Parser) -> (result: Result<Parameter, ParserError>) {
        parser.parameter()
    }
}

} // verus!
