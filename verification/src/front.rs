//! From a text to its tree: the tokenizer and the parser, one after the
//! other, and the tree written out.

use crate::ast::function::{function_inside, function_lines, Function};
use crate::ast::span::START_LIMIT;
use crate::ast::Show;
use crate::lexer::{lex, tokens_fit, Lexer};
use crate::lexer_laws::lex_covers;
use crate::parser::{gives, parse, Parser, ParserError};
use vstd::prelude::*;
use vstd::string::StrSliceExecFns;

verus! {

/// Whether a text can be read at all: no word in it is too long for a
/// token, and a span can begin at any of its characters.
pub open spec fn readable(text: Seq<char>) -> bool {
    tokens_fit(text) && text.len() < START_LIMIT
}

/// The tree of `source`, or the first error of its parse; nothing for a
/// text that cannot be read. Every name of the tree lies in `source`.
pub fn parse_source(source: &str) -> (result: Option<Result<Function, ParserError>>)
    ensures
        result is Some <==> readable(source@),
        result matches Some(parsed) ==> gives(parsed, parse(lex(source@))),
        result matches Some(Ok(function)) ==> function_inside(function@, source@.len()),
{
    let tokens = match Lexer::new(source).try_go() {
        Some(tokens) => tokens,
        None => {
            return None;
        },
    };
    let length = source.unicode_len();
    if length as u64 >= START_LIMIT {
        return None;
    }
    proof {
        lex_covers(source@);
    }
    let mut parser = Parser::new(tokens.as_slice());
    Some(parser.go())
}

/// The tree of `source` written out from the margin, or the first error of
/// its parse; nothing for a text that cannot be read.
pub fn show_source(source: &str) -> (result: Option<Result<String, ParserError>>)
    ensures
        result is Some <==> readable(source@),
        result matches Some(shown) ==> match parse(lex(source@)) {
            Ok(function) => shown matches Ok(text) && text@ == function_lines(function, source@, 0),
            Err(error) => shown == Err::<String, ParserError>(error),
        },
{
    match parse_source(source) {
        None => None,
        Some(Err(error)) => Some(Err(error)),
        Some(Ok(function)) => {
            let mut buffer = String::new();
            function.show(source, 0, &mut buffer);
            proof {
                assert(buffer@ =~= function_lines(function@, source@, 0));
            }
            Some(Ok(buffer))
        },
    }
}

} // verus!
