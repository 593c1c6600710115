//! What holds of the tokens of every text.

use crate::lexer::{
    is_ident_char, is_letter, lex, lex_from, offset_at, run_ends_in_text, run_len, token_at,
    tokens_fit, total_size, word_at, word_kind, TokenKind, TokenView, MAX_TOKEN_SIZE,
};
use vstd::prelude::*;

verus! {

/// Tokens put in front of a sequence leave the offsets inside them as they were.
pub proof fn offset_at_prefix(front: Seq<TokenView>, back: Seq<TokenView>, count: int)
    requires
        0 <= count <= front.len(),
    ensures
        offset_at(front + back, count) == offset_at(front, count),
    decreases count,
{
    if count > 0 {
        offset_at_prefix(front, back, count - 1);
        assert((front + back)[count - 1] == front[count - 1]);
    }
}

/// Tokens put in front of a sequence move every offset in it by their total size.
pub proof fn offset_at_concat(front: Seq<TokenView>, back: Seq<TokenView>, count: int)
    requires
        0 <= count <= back.len(),
    ensures
        offset_at(front + back, front.len() + count) == total_size(front) + offset_at(back, count),
    decreases count,
{
    if count == 0 {
        offset_at_prefix(front, back, front.len() as int);
    } else {
        offset_at_concat(front, back, count - 1);
        assert((front + back)[front.len() + count - 1] == back[count - 1]);
    }
}

/// Offsets never go down from one token to a later one.
pub proof fn offset_at_grows(tokens: Seq<TokenView>, earlier: int, later: int)
    requires
        0 <= earlier <= later <= tokens.len(),
    ensures
        offset_at(tokens, earlier) <= offset_at(tokens, later),
    decreases later - earlier,
{
    if earlier < later {
        offset_at_grows(tokens, earlier, later - 1);
    }
}

/// Every character counted by `run_len` is a name character.
pub proof fn run_holds_name_chars(text: Seq<char>, from: int, at: int)
    requires
        0 <= from <= at < from + run_len(text, from),
    ensures
        at < text.len(),
        is_ident_char(text[at]),
    decreases at - from,
{
    if from < at {
        run_holds_name_chars(text, from + 1, at);
    }
}

/// A run stops at the text's end or before a character that no name holds.
pub proof fn run_is_maximal(text: Seq<char>, from: int)
    requires
        0 <= from <= text.len(),
    ensures
        from + run_len(text, from) <= text.len(),
        from + run_len(text, from) == text.len() || !is_ident_char(
            text[from + run_len(text, from)],
        ),
    decreases text.len() - from,
{
    if from < text.len() && is_ident_char(text[from]) {
        run_is_maximal(text, from + 1);
    }
}

/// A token that begins in the text ends in it, and has a character at least.
pub proof fn token_ends_in_text(text: Seq<char>, start: int)
    requires
        0 <= start < text.len(),
    ensures
        1 <= token_at(text, start).size,
        start + token_at(text, start).size <= text.len(),
{
    run_ends_in_text(text, start + 1);
}

/// The sizes of the tokens from `start` on add up to what is left of the text.
pub proof fn lex_from_covers(text: Seq<char>, start: int)
    requires
        0 <= start <= text.len(),
    ensures
        total_size(lex_from(text, start)) == text.len() - start,
    decreases text.len() - start,
{
    if start < text.len() {
        let token = token_at(text, start);
        let rest = lex_from(text, start + token.size);
        token_ends_in_text(text, start);
        lex_from_covers(text, start + token.size);
        offset_at_concat(seq![token], rest, rest.len() as int);
        assert(total_size(seq![token]) == token.size) by {
            assert(offset_at(seq![token], 0) == 0);
        }
    }
}

/// No character is dropped and none is counted twice: the sizes of the
/// tokens of a text add up to its length.
pub proof fn lex_covers(text: Seq<char>)
    ensures
        total_size(lex(text)) == text.len(),
{
    lex_from_covers(text, 0);
}

/// A text no longer than the largest token has no token that is too long.
pub proof fn short_text_fits(text: Seq<char>)
    requires
        text.len() <= MAX_TOKEN_SIZE,
    ensures
        tokens_fit(text),
{
    let tokens = lex(text);
    lex_covers(text);
    assert forall|i: int| 0 <= i < tokens.len() implies (#[trigger] tokens[i]).size
        <= MAX_TOKEN_SIZE by {
        offset_at_grows(tokens, i + 1, tokens.len() as int);
    }
}

/// A carriage return is never inside a token: one begins where it stands.
/// The result is that token's place among the tokens from `from` on.
pub proof fn carriage_return_begins_token(text: Seq<char>, from: int, at: int) -> (place: int)
    requires
        0 <= from <= at < text.len(),
        text[at] == '\r',
    ensures
        0 <= place < lex_from(text, from).len(),
        from + offset_at(lex_from(text, from), place) == at,
        lex_from(text, from)[place] == token_at(text, at),
    decreases at - from,
{
    let token = token_at(text, from);
    let rest = lex_from(text, from + token.size);
    if from == at {
        0
    } else {
        token_ends_in_text(text, from);
        if at < from + token.size {
            if token.size > 2 || is_letter(text[from]) || text[from] == '_' {
                run_holds_name_chars(text, from + 1, at);
            }
            assert(false);
        }
        let place = carriage_return_begins_token(text, from + token.size, at);
        offset_at_concat(seq![token], rest, place);
        assert(total_size(seq![token]) == token.size) by {
            assert(offset_at(seq![token], 0) == 0);
        }
        assert((seq![token] + rest)[place + 1] == rest[place]);
        place + 1
    }
}

/// A carriage return with a line feed behind it is one line end of size 2,
/// wherever in the text the two stand: never two tokens. The result is
/// the place of that token among the tokens of the text.
pub proof fn crlf_is_one_newline(text: Seq<char>, at: int) -> (place: int)
    requires
        0 <= at,
        at + 1 < text.len(),
        text[at] == '\r',
        text[at + 1] == '\n',
    ensures
        0 <= place < lex(text).len(),
        offset_at(lex(text), place) == at,
        lex(text)[place] == (TokenView { kind: TokenKind::TokNewline, size: 2 }),
{
    carriage_return_begins_token(text, 0, at)
}

/// A word is as long as it can be: after its first character it holds name
/// characters only, and it stops at the text's end or before a character
/// that no name holds.
pub proof fn word_is_maximal(text: Seq<char>, start: int)
    requires
        0 <= start < text.len(),
        is_letter(text[start]) || (text[start] == '_' && run_len(text, start + 1) > 0),
    ensures
        token_at(text, start) == word_at(text, start),
        start + token_at(text, start).size <= text.len(),
        forall|at: int| start < at < start + token_at(text, start).size ==> is_ident_char(text[at]),
        start + token_at(text, start).size == text.len() || !is_ident_char(
            text[start + token_at(text, start).size],
        ),
{
    run_is_maximal(text, start + 1);
    assert forall|at: int| start < at < start + token_at(text, start).size implies is_ident_char(
        text[at],
    ) by {
        run_holds_name_chars(text, start + 1, at);
    }
}

/// No keyword begins with `_`.
pub proof fn underscore_word_is_name(word: Seq<char>)
    requires
        word.len() > 0,
        word[0] == '_',
    ensures
        word_kind(word) == TokenKind::TokIdentifier,
{
    reveal_strlit("export");
    reveal_strlit("fn");
    reveal_strlit("import");
    reveal_strlit("let");
    reveal_strlit("mut");
}

/// An underscore with no name character behind it is the placeholder, a
/// token of its own; with one behind it, it begins a name.
pub proof fn underscore_is_placeholder_or_name(text: Seq<char>, start: int)
    requires
        0 <= start < text.len(),
        text[start] == '_',
    ensures
        start + 1 == text.len() || !is_ident_char(text[start + 1]) ==> token_at(text, start) == (
        TokenView { kind: TokenKind::TokUnderscore, size: 1 }),
        start + 1 < text.len() && is_ident_char(text[start + 1]) ==> token_at(text, start).kind
            == TokenKind::TokIdentifier && token_at(text, start).size == 2 + run_len(
            text,
            start + 2,
        ),
{
    if start + 1 < text.len() && is_ident_char(text[start + 1]) {
        let size = 1 + run_len(text, start + 1);
        run_ends_in_text(text, start + 1);
        underscore_word_is_name(text.subrange(start, start + size));
    }
}

} // verus!
