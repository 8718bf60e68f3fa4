use vstd::prelude::*;

verus! {

/// A place in a source text: 1-based line and column, 0-based byte offset.
#[derive(Clone, Copy, PartialEq, Eq, Structural, Debug)]
pub struct Position {
    pub line: usize,
    pub column: usize,
    pub offset: usize,
}

impl Position {
    pub fn new(line: usize, column: usize, offset: usize) -> (r: Position)
        ensures
            r == (Position { line, column, offset }),
    {
        Position { line, column, offset }
    }
}

/// The lexical class of a token.
#[derive(Clone, Copy, PartialEq, Eq, Structural, Debug)]
pub enum TokenKind {
    Atom,
    Variable,
    Keyword,
    Symbol,
    String,
    SigilString,
    Integer,
    Float,
    Char,
    Comment,
    Whitespace,
}

/// A token: its class, its exact source text, and the span it covers.
#[derive(Debug)]
pub struct Token {
    pub kind: TokenKind,
    pub text: String,
    pub start: Position,
    pub end: Position,
}

/// What a token is, as a mathematical value.
pub struct TokenView {
    pub kind: TokenKind,
    pub text: Seq<char>,
    pub start: Position,
    pub end: Position,
}

impl View for Token {
    type V = TokenView;

    open spec fn view(&self) -> TokenView {
        TokenView { kind: self.kind, text: self.text@, start: self.start, end: self.end }
    }
}

/// The views of a run of tokens.
pub open spec fn views(ts: Seq<Token>) -> Seq<TokenView> {
    ts.map_values(|t: Token| t@)
}

impl Clone for Token {
    fn clone(&self) -> (r: Self)
        ensures
            r == *self,
    {
        Token { kind: self.kind, text: self.text.clone(), start: self.start, end: self.end }
    }
}

/// Whitespace and comments: tokens that carry no grammatical meaning.
pub open spec fn is_trivia_kind(k: TokenKind) -> bool {
    k == TokenKind::Whitespace || k == TokenKind::Comment
}

/// A token that can name a macro or a directive: an atom, a keyword or a variable.
pub open spec fn is_name_kind(k: TokenKind) -> bool {
    k == TokenKind::Atom || k == TokenKind::Keyword || k == TokenKind::Variable
}

/// The token is the symbol whose text is `s`.
pub open spec fn is_symbol(t: TokenView, s: Seq<char>) -> bool {
    t.kind == TokenKind::Symbol && t.text == s
}

/// The source text of a run of tokens, laid end to end.
pub open spec fn text_of(ts: Seq<TokenView>) -> Seq<char>
    decreases ts.len(),
{
    if ts.len() == 0 {
        Seq::empty()
    } else {
        text_of(ts.drop_last()) + ts.last().text
    }
}

impl Token {
    pub fn new(kind: TokenKind, text: String, start: Position, end: Position) -> (r: Token)
        ensures
            r == (Token { kind, text, start, end }),
    {
        Token { kind, text, start, end }
    }

    pub fn is_trivia(&self) -> (r: bool)
        ensures
            r == is_trivia_kind(self.kind),
    {
        self.kind == TokenKind::Whitespace || self.kind == TokenKind::Comment
    }

    pub fn is_name(&self) -> (r: bool)
        ensures
            r == is_name_kind(self.kind),
    {
        self.kind == TokenKind::Atom || self.kind == TokenKind::Keyword || self.kind
            == TokenKind::Variable
    }

    /// Whether the token's text is exactly `s`.
    pub fn text_is(&self, s: &str) -> (r: bool)
        ensures
            r == (self.text@ == s@),
    {
        str_eq(self.text.as_str(), s)
    }

    pub fn is_symbol(&self, s: &str) -> (r: bool)
        ensures
            r == is_symbol(self@, s@),
    {
        self.kind == TokenKind::Symbol && self.text_is(s)
    }
}

/// Character-wise equality of two strings.
pub fn str_eq(a: &str, b: &str) -> (r: bool)
    ensures
        r == (a@ == b@),
{
    let n = a.unicode_len();
    if n != b.unicode_len() {
        return false;
    }
    let mut i: usize = 0;
    while i < n
        invariant
            n == a@.len(),
            n == b@.len(),
            i <= n,
            a@.subrange(0, i as int) == b@.subrange(0, i as int),
        decreases n - i,
    {
        if a.get_char(i) != b.get_char(i) {
            assert(a@[i as int] != b@[i as int]);
            return false;
        }
        assert(a@.subrange(0, i + 1) == a@.subrange(0, i as int).push(a@[i as int]));
        assert(b@.subrange(0, i + 1) == b@.subrange(0, i as int).push(b@[i as int]));
        i = i + 1;
    }
    assert(a@ == a@.subrange(0, n as int));
    assert(b@ == b@.subrange(0, n as int));
    true
}

/// Appends the text of every token of `ts`, in order, to `out`.
pub fn push_text_of(out: &mut String, ts: &[Token])
    ensures
        final(out)@ == old(out)@ + text_of(views(ts@)),
{
    let mut i: usize = 0;
    while i < ts.len()
        invariant
            i <= ts@.len(),
            out@ == old(out)@ + text_of(views(ts@.subrange(0, i as int))),
        decreases ts@.len() - i,
    {
        out.append(ts[i].text.as_str());
        assert(views(ts@.subrange(0, i + 1)).drop_last() =~= views(ts@.subrange(0, i as int)));
        i = i + 1;
    }
    assert(ts@.subrange(0, ts@.len() as int) == ts@);
}

/// The source text of a run of tokens.
pub fn text_of_tokens(ts: &[Token]) -> (r: String)
    ensures
        r@ == text_of(views(ts@)),
{
    let mut s = String::new();
    push_text_of(&mut s, ts);
    s
}

/// A copy of a run of tokens.
pub fn clone_tokens(ts: &[Token]) -> (r: Vec<Token>)
    ensures
        r@ == ts@,
{
    let mut out: Vec<Token> = Vec::new();
    let mut i: usize = 0;
    while i < ts.len()
        invariant
            i <= ts@.len(),
            out@ == ts@.subrange(0, i as int),
        decreases ts@.len() - i,
    {
        out.push(ts[i].clone());
        assert(out@ =~= ts@.subrange(0, i + 1));
        i = i + 1;
    }
    assert(ts@.subrange(0, ts@.len() as int) =~= ts@);
    out
}

/// Appends a copy of `ts` to `out`.
pub fn push_tokens(out: &mut Vec<Token>, ts: &[Token])
    ensures
        final(out)@ == old(out)@ + ts@,
{
    let mut i: usize = 0;
    while i < ts.len()
        invariant
            i <= ts@.len(),
            out@ == old(out)@ + ts@.subrange(0, i as int),
        decreases ts@.len() - i,
    {
        out.push(ts[i].clone());
        assert(out@ =~= old(out)@ + ts@.subrange(0, i + 1));
        i = i + 1;
    }
    assert(ts@.subrange(0, ts@.len() as int) =~= ts@);
}

} // verus!
