use std::ops::Range;
use vstd::prelude::*;
use vstd::std_specs::cmp::PartialEqSpecImpl;

verus! {

/// The class of a token as the parser sees it.
#[derive(Debug, Clone, Copy, PartialEq, Eq, Structural)]
pub enum TokenKind {
    TkIdent,
    TkPunct,
    TkNum,
    TkEof,
}

/// A token: its class, its text and its byte span in the source.
#[derive(Debug, Eq)]
pub struct Token {
    pub kind: TokenKind,
    pub tok: String,
    pub span: Range<usize>,
}

/// What a token is, as a plain value.
pub struct TokenView {
    pub kind: TokenKind,
    pub tok: Seq<char>,
    pub span: Range<usize>,
}

impl View for Token {
    type V = TokenView;

    open spec fn view(&self) -> TokenView {
        TokenView { kind: self.kind, tok: self.tok@, span: self.span }
    }
}

/// The views of a sequence of tokens.
pub open spec fn token_views(ts: Seq<Token>) -> Seq<TokenView> {
    ts.map_values(|t: Token| t@)
}

/// Two tokens are equal when their class and text are; the span is ignored.
impl PartialEq for Token {
    fn eq(&self, other: &Self) -> (r: bool) {
        self.kind == other.kind && self.tok == other.tok
    }
}

impl PartialEqSpecImpl for Token {
    open spec fn obeys_eq_spec() -> bool {
        true
    }

    open spec fn eq_spec(&self, other: &Self) -> bool {
        self.kind == other.kind && self.tok@ == other.tok@
    }
}

/// A token equals a string when its text is that string.
impl PartialEq<&str> for Token {
    fn eq(&self, other: &&str) -> (r: bool) {
        let text: String = (*other).to_owned();
        self.tok == text
    }
}

impl PartialEqSpecImpl<&str> for Token {
    open spec fn obeys_eq_spec() -> bool {
        true
    }

    open spec fn eq_spec(&self, other: &&str) -> bool {
        self.tok@ == other@
    }
}

/// A borrowed token equals a string when its text is that string.
impl PartialEq<&str> for &Token {
    fn eq(&self, other: &&str) -> (r: bool) {
        let text: String = (*other).to_owned();
        self.tok == text
    }
}

impl PartialEqSpecImpl<&str> for &Token {
    open spec fn obeys_eq_spec() -> bool {
        true
    }

    open spec fn eq_spec(&self, other: &&str) -> bool {
        self.tok@ == other@
    }
}


/// The class of a lexeme as the C lexer reports it.
#[derive(Debug, Clone, Copy, PartialEq, Eq, Structural)]
pub enum LexKind {
    Comment,
    Symbol,
    Char,
    Str,
    Int,
    Float,
    Identifier,
    Unknown,
}

/// A lexeme of C source: its class, its byte span and its text.
#[derive(Debug)]
pub struct Lexeme {
    pub token: LexKind,
    pub span: Range<usize>,
    pub slice: String,
}

/// What a lexeme is, as a plain value.
pub struct LexemeView {
    pub token: LexKind,
    pub span: Range<usize>,
    pub slice: Seq<char>,
}

impl View for Lexeme {
    type V = LexemeView;

    open spec fn view(&self) -> LexemeView {
        LexemeView { token: self.token, span: self.span, slice: self.slice@ }
    }
}

/// The lexemes that the `clex` lexer yields for a source text, in order.
pub uninterp spec fn c_lexemes(source: Seq<char>) -> Seq<LexemeView>;

/// Runs the `clex` lexer (`clex::Lexer::from` and its `Iterator::next`) over `source`.
/// Claimed: the result is the sequence of lexemes that the lexer yields, each with the
/// same class, span and text; that sequence is named `c_lexemes(source@)`, a function of
/// the text alone (the lexer is a deterministic automaton over its input).
#[verifier::external_body]
fn lex(source: &str) -> (lexemes: Vec<Lexeme>)
    ensures
        lexemes@.map_values(|l: Lexeme| l@) == c_lexemes(source@),
{
    let mut out = Vec::new();
    for l in clex::Lexer::from(source) {
        let token = match l.token {
            clex::Token::Comment => LexKind::Comment, clex::Token::Symbol => LexKind::Symbol,
            clex::Token::Char => LexKind::Char, clex::Token::String => LexKind::Str,
            clex::Token::Int => LexKind::Int, clex::Token::Float => LexKind::Float,
            clex::Token::Identifier => LexKind::Identifier, clex::Token::Unknown => LexKind::Unknown,
        };
        out.push(Lexeme { token, span: l.span, slice: l.slice.to_string() });
    }
    out
}

/// The token class of a lexeme class: integers are numbers, symbols are punctuators,
/// identifiers (keywords included) are identifiers, and anything else is `TkEof`.
pub open spec fn kind_of(k: LexKind) -> TokenKind {
    match k {
        LexKind::Int => TokenKind::TkNum,
        LexKind::Symbol => TokenKind::TkPunct,
        LexKind::Identifier => TokenKind::TkIdent,
        _ => TokenKind::TkEof,
    }
}

/// The token made of a lexeme.
pub open spec fn token_of(l: LexemeView) -> TokenView {
    TokenView { kind: kind_of(l.token), tok: l.slice, span: l.span }
}

/// The end-of-input token: class `TkEof`, empty text, empty span at 0.
pub open spec fn eof_token() -> TokenView {
    TokenView { kind: TokenKind::TkEof, tok: Seq::empty(), span: Range { start: 0, end: 0 } }
}

/// The tokens of a source text: one per lexeme, then the end-of-input token.
pub open spec fn tokens_of(source: Seq<char>) -> Seq<TokenView> {
    c_lexemes(source).map_values(|l: LexemeView| token_of(l)).push(eof_token())
}

/// The tokens of one source file.
#[derive(Debug)]
pub struct Tokenizer {
    pub path: String,
    pub context: String,
    pub tokens: Vec<Token>,
}

impl Tokenizer {
    /// The token sequence as plain values.
    pub open spec fn toks(&self) -> Seq<TokenView> {
        token_views(self.tokens@)
    }

    /// The token at `index`, which must exist.
    pub fn index(&self, index: usize) -> (t: &Token)
        requires
            index < self.tokens@.len(),
        ensures
            *t == self.tokens@[index as int],
    {
        &self.tokens[index]
    }

    /// Turns a lexeme into a token.
    fn transform(lexeme: Lexeme) -> (token: Token)
        ensures
            token@ == token_of(lexeme@),
    {
        let kind = match lexeme.token {
            LexKind::Int => TokenKind::TkNum,
            LexKind::Symbol => TokenKind::TkPunct,
            LexKind::Identifier => TokenKind::TkIdent,
            _ => TokenKind::TkEof,
        };
        Token { kind: kind, tok: lexeme.slice, span: lexeme.span }
    }

    /// Tokenizes `context`, the text of the file at `path`.
    pub fn new(path: &str, context: String) -> (t: Self)
        ensures
            t.path@ == path@,
            t.context@ == context@,
            t.toks() == tokens_of(context@),
    {
        let lexemes = lex(context.as_str());
        let t = Self::from_lexemes(path, context, lexemes);
        assert(t.toks() =~= tokens_of(t.context@));
        t
    }

    /// The tokenizer of `context`, the text of the file at `path`, from the lexemes of that text:
    /// one token per lexeme, in order, then the end-of-input token.
    pub fn from_lexemes(path: &str, context: String, lexemes: Vec<Lexeme>) -> (t: Self)
        ensures
            t.path@ == path@,
            t.context@ == context@,
            t.toks() == lexemes@.map_values(|l: Lexeme| token_of(l@)).push(eof_token()),
    {
        let ghost all = lexemes@;
        let mut tokens: Vec<Token> = Vec::new();
        for lexeme in it: lexemes.into_iter()
            invariant
                all == it.seq(),
                token_views(tokens@) == it.seq().take(it.index() as int).map_values(
                    |l: Lexeme| token_of(l@),
                ),
        {
            let ghost before = tokens@;
            let ghost i = it.index() as int;
            assert(it.seq()[i] == lexeme);
            tokens.push(Self::transform(lexeme));
            assert(token_views(tokens@) =~= token_views(before).push(token_of(lexeme@)));
            assert(it.seq().take(i + 1).map_values(|l: Lexeme| token_of(l@)) =~= it.seq().take(
                i,
            ).map_values(|l: Lexeme| token_of(l@)).push(token_of(lexeme@)));
        }
        let ghost done = tokens@;
        tokens.push(Token { kind: TokenKind::TkEof, tok: String::default(), span: Range { start: 0, end: 0 } });
        assert(token_views(tokens@) =~= token_views(done).push(eof_token()));
        assert(all.take(all.len() as int) =~= all);
        Self { path: path.to_owned(), context, tokens }
    }
}

} // verus!
