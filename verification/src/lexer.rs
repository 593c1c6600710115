//! The tokenizer: one pass over the text, left to right, with one character
//! of lookahead. It never fails: a character that begins no token becomes an
//! `Error` token of size 1.

use vstd::prelude::*;
use vstd::string::StrSliceExecFns;

verus! {

/// What a token is.
#[derive(Debug, Clone, Copy, PartialEq, Eq, Structural)]
pub enum TokenKind {
    Error,
    KwExport,
    KwFn,
    KwImport,
    KwLet,
    KwMut,
    TokArrow,
    TokColon,
    TokComma,
    TokDot,
    TokEquals,
    TokIdentifier,
    TokLeftAngle,
    TokLeftBrace,
    TokLeftParen,
    TokMinus,
    TokMinusEquals,
    TokNewline,
    TokPlus,
    TokPlusEquals,
    TokRightAngle,
    TokRightBrace,
    TokRightParen,
    TokSemiColon,
    TokSpace,
    TokUnderscore,
}

/// The largest size a token can record: sizes take 16 bits, as span lengths do.
pub const MAX_TOKEN_SIZE: usize = 0xFFFF;

/// A token as the contracts see it: its kind and how many characters it covers.
pub struct TokenView {
    pub kind: TokenKind,
    pub size: nat,
}

/// One lexical unit: a kind and a size in characters. A token does not know
/// where it starts: that is the sum of the sizes before it.
#[derive(Debug, Clone, Copy, PartialEq, Eq, Structural)]
pub struct Token {
    kind: TokenKind,
    size: u16,
}

impl View for Token {
    type V = TokenView;

    closed spec fn view(&self) -> TokenView {
        TokenView { kind: self.kind, size: self.size as nat }
    }
}

/// Whitespace and line ends: tokens that carry no meaning but take up room.
pub open spec fn is_trivia(kind: TokenKind) -> bool {
    kind == TokenKind::TokSpace || kind == TokenKind::TokNewline
}

impl Token {
    pub fn new(kind: TokenKind, size: u16) -> (token: Token)
        ensures
            token@ == (TokenView { kind, size: size as nat }),
    {
        Token { kind, size }
    }

    /// Whether the token is trivia.
    pub fn is_ws(&self) -> (trivia: bool)
        ensures
            trivia == is_trivia(self@.kind),
    {
        matches!(self.kind, TokenKind::TokSpace | TokenKind::TokNewline)
    }

    pub fn size(&self) -> (size: usize)
        ensures
            size == self@.size,
            size <= MAX_TOKEN_SIZE,
    {
        self.size as usize
    }

    pub fn kind(&self) -> (kind: TokenKind)
        ensures
            kind == self@.kind,
    {
        self.kind
    }
}

/// The tokens of a sequence, each as the contracts see it.
pub open spec fn views(tokens: Seq<Token>) -> Seq<TokenView> {
    tokens.map_values(|token: Token| token@)
}

/// The sizes of the first `count` tokens, added up: where token `count` starts.
pub open spec fn offset_at(tokens: Seq<TokenView>, count: int) -> nat
    decreases count,
{
    if count <= 0 || count > tokens.len() {
        0
    } else {
        offset_at(tokens, count - 1) + tokens[count - 1].size
    }
}

/// The sizes of all the tokens, added up.
pub open spec fn total_size(tokens: Seq<TokenView>) -> nat {
    offset_at(tokens, tokens.len() as int)
}

/// An ASCII letter: what a name may begin with, besides `_`.
pub open spec fn is_letter(ch: char) -> bool {
    ('a' <= ch && ch <= 'z') || ('A' <= ch && ch <= 'Z')
}

/// An ASCII letter, an ASCII digit or `_`: what a name goes on with.
pub open spec fn is_ident_char(ch: char) -> bool {
    is_letter(ch) || ('0' <= ch && ch <= '9') || ch == '_'
}

/// The token that a character makes by itself, whatever follows it.
pub open spec fn single(ch: char) -> Option<TokenKind> {
    if ch == ' ' || ch == '\t' {
        Some(TokenKind::TokSpace)
    } else if ch == '.' {
        Some(TokenKind::TokDot)
    } else if ch == ',' {
        Some(TokenKind::TokComma)
    } else if ch == ';' {
        Some(TokenKind::TokSemiColon)
    } else if ch == ':' {
        Some(TokenKind::TokColon)
    } else if ch == '=' {
        Some(TokenKind::TokEquals)
    } else if ch == '(' {
        Some(TokenKind::TokLeftParen)
    } else if ch == '{' {
        Some(TokenKind::TokLeftBrace)
    } else if ch == '<' {
        Some(TokenKind::TokLeftAngle)
    } else if ch == '}' {
        Some(TokenKind::TokRightBrace)
    } else if ch == ')' {
        Some(TokenKind::TokRightParen)
    } else if ch == '>' {
        Some(TokenKind::TokRightAngle)
    } else if ch == '\n' {
        Some(TokenKind::TokNewline)
    } else {
        None
    }
}

/// How many name characters stand in a row from `from` on.
pub open spec fn run_len(text: Seq<char>, from: int) -> nat
    decreases text.len() - from,
{
    if 0 <= from < text.len() && is_ident_char(text[from]) {
        1 + run_len(text, from + 1)
    } else {
        0
    }
}

/// A run of name characters that begins in the text ends in it.
pub proof fn run_ends_in_text(text: Seq<char>, from: int)
    requires
        0 <= from <= text.len(),
    ensures
        from + run_len(text, from) <= text.len(),
    decreases text.len() - from,
{
    if from < text.len() && is_ident_char(text[from]) {
        run_ends_in_text(text, from + 1);
    }
}

/// The kind of a whole word: a keyword where it spells one, else a name.
pub open spec fn word_kind(word: Seq<char>) -> TokenKind {
    if word == "export"@ {
        TokenKind::KwExport
    } else if word == "fn"@ {
        TokenKind::KwFn
    } else if word == "import"@ {
        TokenKind::KwImport
    } else if word == "let"@ {
        TokenKind::KwLet
    } else if word == "mut"@ {
        TokenKind::KwMut
    } else {
        TokenKind::TokIdentifier
    }
}

/// The word that begins at `start`: its first character and every name
/// character that follows it without a gap.
pub open spec fn word_at(text: Seq<char>, start: int) -> TokenView {
    let size = 1 + run_len(text, start + 1);
    TokenView { kind: word_kind(text.subrange(start, start + size)), size }
}

/// Whether `ch` is the character at `at`.
pub open spec fn has_char(text: Seq<char>, at: int, ch: char) -> bool {
    0 <= at < text.len() && text[at] == ch
}

/// The token that begins at `start`, for `0 <= start < text.len()`.
pub open spec fn token_at(text: Seq<char>, start: int) -> TokenView {
    let ch = text[start];
    if single(ch) is Some {
        TokenView { kind: single(ch)->0, size: 1 }
    } else if ch == '\r' {
        TokenView { kind: TokenKind::TokNewline, size: if has_char(text, start + 1, '\n') { 2 } else { 1 } }
    } else if ch == '-' {
        if has_char(text, start + 1, '>') {
            TokenView { kind: TokenKind::TokArrow, size: 2 }
        } else if has_char(text, start + 1, '=') {
            TokenView { kind: TokenKind::TokMinusEquals, size: 2 }
        } else {
            TokenView { kind: TokenKind::TokMinus, size: 1 }
        }
    } else if ch == '+' {
        if has_char(text, start + 1, '=') {
            TokenView { kind: TokenKind::TokPlusEquals, size: 2 }
        } else {
            TokenView { kind: TokenKind::TokPlus, size: 1 }
        }
    } else if ch == '_' {
        if run_len(text, start + 1) > 0 {
            word_at(text, start)
        } else {
            TokenView { kind: TokenKind::TokUnderscore, size: 1 }
        }
    } else if is_letter(ch) {
        word_at(text, start)
    } else {
        TokenView { kind: TokenKind::Error, size: 1 }
    }
}

/// The tokens of `text` from `start` to its end.
pub open spec fn lex_from(text: Seq<char>, start: int) -> Seq<TokenView>
    decreases text.len() - start,
{
    if 0 <= start < text.len() {
        proof {
            run_ends_in_text(text, start + 1);
        }
        seq![token_at(text, start)] + lex_from(text, start + token_at(text, start).size)
    } else {
        Seq::empty()
    }
}

/// The tokens of `text`.
pub open spec fn lex(text: Seq<char>) -> Seq<TokenView> {
    lex_from(text, 0)
}

/// Whether the size of every token of `text` can be recorded. Only a word
/// can be too long: every other token has one or two characters.
pub open spec fn tokens_fit(text: Seq<char>) -> bool {
    forall|i: int| 0 <= i < lex(text).len() ==> (#[trigger] lex(text)[i]).size <= MAX_TOKEN_SIZE
}

/// Names and keywords go on with these characters.
pub fn is_ident_ch(ch: char) -> (yes: bool)
    ensures
        yes == is_ident_char(ch),
{
    is_alphabetic(ch) || ('0' <= ch && ch <= '9') || ch == '_'
}

/// Names and keywords begin with these characters, or with `_`.
fn is_alphabetic(ch: char) -> (yes: bool)
    ensures
        yes == is_letter(ch),
{
    ('a' <= ch && ch <= 'z') || ('A' <= ch && ch <= 'Z')
}

/// Adding a token to a sequence adds its view to the views.
proof fn views_push(tokens: Seq<Token>, token: Token)
    ensures
        views(tokens.push(token)) == views(tokens).push(token@),
{
    assert(views(tokens.push(token)) =~= views(tokens).push(token@));
}

/// The tokenizer at work: the text, how far it has been read, and the
/// tokens made so far.
pub struct Lexer {
    chars: Vec<char>,
    pos: usize,
    tokens: Vec<Token>,
}

impl Lexer {
    /// The text being read.
    pub closed spec fn text(&self) -> Seq<char> {
        self.chars@
    }

    /// The tokens made so far, followed by those of the text still unread,
    /// are the tokens of the whole text.
    pub closed spec fn wf(&self) -> bool {
        &&& self.pos <= self.chars.len()
        &&& views(self.tokens@) + lex_from(self.chars@, self.pos as int) == lex(self.chars@)
    }

    /// Since `before`, exactly the token that begins at `start` was read
    /// and added.
    spec fn emits(&self, before: Lexer, start: int) -> bool {
        let token = token_at(before.chars@, start);
        &&& self.chars@ == before.chars@
        &&& self.pos == start + token.size
        &&& self.pos <= self.chars.len()
        &&& self.tokens@.len() == before.tokens@.len() + 1
        &&& self.tokens@.drop_last() == before.tokens@
        &&& self.tokens@.last()@ == token
    }

    /// A tokenizer at the start of `source`.
    pub fn new(source: &str) -> (lexer: Lexer)
        ensures
            lexer.wf(),
            lexer.text() == source@,
    {
        let mut chars: Vec<char> = Vec::new();
        proof {
            vstd::string::axiom_spec_iter(source);
        }
        for ch in it: source.chars()
            invariant
                it.seq() == source@,
                chars@ == it.seq().take(it.index()),
        {
            proof {
                assert(it.seq().take(it.index() + 1) =~= it.seq().take(it.index()).push(ch));
            }
            chars.push(ch);
        }
        proof {
            assert(chars@ =~= source@);
            assert(views(Seq::<Token>::empty()) + lex(chars@) =~= lex(chars@));
        }
        Lexer { chars, pos: 0, tokens: Vec::new() }
    }

    /// The next character and its position, which stays unread.
    fn peek(&self) -> (ahead: Option<(usize, char)>)
        requires
            self.pos <= self.chars.len(),
        ensures
            ahead is None <==> self.pos == self.chars.len(),
            ahead matches Some((at, ch)) ==> at == self.pos && ch == self.chars@[at as int],
    {
        if self.pos < self.chars.len() {
            Some((self.pos, self.chars[self.pos]))
        } else {
            None
        }
    }

    /// Reads the next character and gives it with its position.
    fn next(&mut self) -> (read: Option<(usize, char)>)
        requires
            old(self).pos <= old(self).chars.len(),
        ensures
            final(self).chars@ == old(self).chars@,
            final(self).tokens == old(self).tokens,
            read is None <==> old(self).pos == old(self).chars.len(),
            read is None ==> final(self).pos == old(self).pos,
            read matches Some((at, ch)) ==> at == old(self).pos && ch == old(self).chars@[at as int]
                && final(self).pos == at + 1,
    {
        let read = self.peek();
        if read.is_some() {
            self.pos = self.pos + 1;
        }
        read
    }

    /// Whether the characters of `[start, end)` spell `word`.
    fn spells(&self, start: usize, end: usize, word: &str) -> (same: bool)
        requires
            start <= end <= self.chars.len(),
        ensures
            same == (self.chars@.subrange(start as int, end as int) == word@),
    {
        let ghost found = self.chars@.subrange(start as int, end as int);
        let len = word.unicode_len();
        if end - start != len {
            return false;
        }
        let mut i: usize = 0;
        while i < len
            invariant
                i <= len,
                len == word@.len(),
                end - start == len,
                end <= self.chars.len(),
                found == self.chars@.subrange(start as int, end as int),
                forall|j: int| 0 <= j < i ==> found[j] == word@[j],
            decreases len - i,
        {
            if self.chars[start + i] != word.get_char(i) {
                assert(found[i as int] != word@[i as int]);
                return false;
            }
            i = i + 1;
        }
        assert(found =~= word@);
        true
    }

    /// Adds a token of `size` characters that ends where the reading stands.
    fn push(&mut self, kind: TokenKind, size: usize)
        requires
            size <= MAX_TOKEN_SIZE,
            size <= old(self).pos <= old(self).chars.len(),
            token_at(old(self).chars@, old(self).pos - size) == (TokenView { kind, size: size as nat }),
        ensures
            final(self).emits(*old(self), old(self).pos - size),
    {
        self.tokens.push(Token::new(kind, size as u16));
        proof {
            assert(self.tokens@.drop_last() =~= old(self).tokens@);
        }
    }

    /// Adds a token for the one character just read.
    fn push_single(&mut self, kind: TokenKind)
        requires
            1 <= old(self).pos <= old(self).chars.len(),
            token_at(old(self).chars@, old(self).pos - 1) == (TokenView { kind, size: 1 }),
        ensures
            final(self).emits(*old(self), old(self).pos - 1),
    {
        self.push(kind, 1);
    }

    /// Reads the rest of the word whose first character, at `start`, was
    /// just read, and adds it as a keyword or a name. A word too long for a
    /// token is read and not added.
    fn identifier(&mut self, start: usize) -> (fits: bool)
        requires
            old(self).pos == start + 1,
            old(self).pos <= old(self).chars.len(),
            token_at(old(self).chars@, start as int) == word_at(old(self).chars@, start as int),
        ensures
            fits <==> token_at(old(self).chars@, start as int).size <= MAX_TOKEN_SIZE,
            fits ==> final(self).emits(*old(self), start as int),
            final(self).chars@ == old(self).chars@,
            final(self).pos <= final(self).chars.len(),
            !fits ==> final(self).tokens == old(self).tokens,
    {
        let mut end = start + 1;
        loop
            invariant
                end == self.pos,
                start + 1 <= end <= self.chars.len(),
                self.chars@ == old(self).chars@,
                self.tokens == old(self).tokens,
                run_len(self.chars@, start + 1) == (end - (start + 1)) + run_len(self.chars@, end as int),
            ensures
                run_len(self.chars@, start + 1) == end - (start + 1),
            decreases self.chars.len() - end,
        {
            match self.peek() {
                Some((new_end, ch)) => {
                    if is_ident_ch(ch) {
                        end = new_end + 1;
                        self.next();
                    } else {
                        break ;
                    }
                },
                None => {
                    break ;
                },
            }
        }
        let length = end - start;
        if length > MAX_TOKEN_SIZE {
            return false;
        }
        if self.spells(start, end, "export") {
            self.push(TokenKind::KwExport, length);
        } else if self.spells(start, end, "fn") {
            self.push(TokenKind::KwFn, length);
        } else if self.spells(start, end, "import") {
            self.push(TokenKind::KwImport, length);
        } else if self.spells(start, end, "let") {
            self.push(TokenKind::KwLet, length);
        } else if self.spells(start, end, "mut") {
            self.push(TokenKind::KwMut, length);
        } else {
            self.push(TokenKind::TokIdentifier, length);
        }
        true
    }

    /// After a carriage return: a line feed that follows belongs to the
    /// same line end.
    fn eol(&mut self)
        requires
            1 <= old(self).pos <= old(self).chars.len(),
            old(self).chars@[old(self).pos - 1] == '\r',
        ensures
            final(self).emits(*old(self), old(self).pos - 1),
    {
        if let Some((_, '\n')) = self.peek() {
            self.next();
            self.push(TokenKind::TokNewline, 2);
        } else {
            self.push_single(TokenKind::TokNewline);
        }
    }

    /// After `-`: an arrow, a minus-equals or a minus.
    fn minus(&mut self)
        requires
            1 <= old(self).pos <= old(self).chars.len(),
            old(self).chars@[old(self).pos - 1] == '-',
        ensures
            final(self).emits(*old(self), old(self).pos - 1),
    {
        match self.peek() {
            Some((_, '>')) => {
                self.next();
                self.push(TokenKind::TokArrow, 2);
            },
            Some((_, '=')) => {
                self.next();
                self.push(TokenKind::TokMinusEquals, 2);
            },
            _ => {
                self.push_single(TokenKind::TokMinus);
            },
        }
    }

    /// After `+`: a plus-equals or a plus.
    fn plus(&mut self)
        requires
            1 <= old(self).pos <= old(self).chars.len(),
            old(self).chars@[old(self).pos - 1] == '+',
        ensures
            final(self).emits(*old(self), old(self).pos - 1),
    {
        match self.peek() {
            Some((_, '=')) => {
                self.next();
                self.push(TokenKind::TokPlusEquals, 2);
            },
            _ => {
                self.push_single(TokenKind::TokPlus);
            },
        }
    }

    /// After `_` at `offset`: a word where a name character follows, the
    /// placeholder where none does.
    fn underscore(&mut self, offset: usize) -> (fits: bool)
        requires
            old(self).pos == offset + 1,
            old(self).pos <= old(self).chars.len(),
            old(self).chars@[offset as int] == '_',
        ensures
            fits <==> token_at(old(self).chars@, offset as int).size <= MAX_TOKEN_SIZE,
            fits ==> final(self).emits(*old(self), offset as int),
            final(self).chars@ == old(self).chars@,
            final(self).pos <= final(self).chars.len(),
            !fits ==> final(self).tokens == old(self).tokens,
    {
        match self.peek() {
            Some((_, ch)) => {
                if is_ident_ch(ch) {
                    // "_1", "__" and other strange names are allowed
                    self.identifier(offset)
                } else {
                    self.push_single(TokenKind::TokUnderscore);
                    true
                }
            },
            None => {
                self.push_single(TokenKind::TokUnderscore);
                true
            },
        }
    }

    /// Reads the text to its end and gives its tokens, or nothing where a
    /// word is too long for a token to record its size.
    pub fn try_go(self) -> (tokens: Option<Vec<Token>>)
        requires
            self.wf(),
        ensures
            tokens is Some <==> tokens_fit(self.text()),
            tokens matches Some(tokens) ==> views(tokens@) == lex(self.text()),
    {
        let mut lexer = self;
        let ghost text = lexer.chars@;
        loop
            invariant
                text == self.text(),
                lexer.chars@ == text,
                lexer.pos <= lexer.chars.len(),
                views(lexer.tokens@) + lex_from(text, lexer.pos as int) == lex(text),
            decreases lexer.chars.len() - lexer.pos,
        {
            let ghost before = lexer;
            match lexer.next() {
                None => {
                    proof {
                        assert(views(lexer.tokens@) =~= lex(text));
                        assert forall|i: int| 0 <= i < lex(text).len() implies (#[trigger] lex(
                            text,
                        )[i]).size <= MAX_TOKEN_SIZE by {
                            assert(lex(text)[i] == lexer.tokens@[i]@);
                        }
                    }
                    return Some(lexer.tokens);
                },
                Some((offset, ch)) => {
                    let fits = match ch {
                        ' ' | '\t' => {
                            lexer.push_single(TokenKind::TokSpace);
                            true
                        },
                        '.' => {
                            lexer.push_single(TokenKind::TokDot);
                            true
                        },
                        ',' => {
                            lexer.push_single(TokenKind::TokComma);
                            true
                        },
                        ';' => {
                            lexer.push_single(TokenKind::TokSemiColon);
                            true
                        },
                        ':' => {
                            lexer.push_single(TokenKind::TokColon);
                            true
                        },
                        '=' => {
                            lexer.push_single(TokenKind::TokEquals);
                            true
                        },
                        '(' => {
                            lexer.push_single(TokenKind::TokLeftParen);
                            true
                        },
                        '{' => {
                            lexer.push_single(TokenKind::TokLeftBrace);
                            true
                        },
                        '<' => {
                            lexer.push_single(TokenKind::TokLeftAngle);
                            true
                        },
                        '}' => {
                            lexer.push_single(TokenKind::TokRightBrace);
                            true
                        },
                        ')' => {
                            lexer.push_single(TokenKind::TokRightParen);
                            true
                        },
                        '>' => {
                            lexer.push_single(TokenKind::TokRightAngle);
                            true
                        },
                        '\n' => {
                            lexer.push_single(TokenKind::TokNewline);
                            true
                        },
                        '\r' => {
                            lexer.eol();
                            true
                        },
                        '-' => {
                            lexer.minus();
                            true
                        },
                        '+' => {
                            lexer.plus();
                            true
                        },
                        '_' => lexer.underscore(offset),
                        _ => {
                            if is_alphabetic(ch) {
                                lexer.identifier(offset)
                            } else {
                                lexer.push_single(TokenKind::Error);
                                true
                            }
                        },
                    };
                    proof {
                        let token = token_at(text, offset as int);
                        let rest = lex_from(text, offset + token.size);
                        assert(lex_from(text, offset as int) == seq![token] + rest);
                        assert(lex(text)[before.tokens@.len() as int] == token);
                        if fits {
                            assert(lexer.tokens@ =~= before.tokens@.push(lexer.tokens@.last()));
                            views_push(before.tokens@, lexer.tokens@.last());
                            assert(views(lexer.tokens@) + rest =~= views(before.tokens@) + (seq![token]
                                + rest));
                        }
                    }
                    if !fits {
                        return None;
                    }
                },
            }
        }
    }

    /// Reads the text to its end and gives its tokens.
    pub fn go(self) -> (tokens: Vec<Token>)
        requires
            self.wf(),
            tokens_fit(self.text()),
        ensures
            views(tokens@) == lex(self.text()),
    {
        match self.try_go() {
            Some(tokens) => tokens,
            None => vstd::pervasive::unreached(),
        }
    }
}

} // verus!
