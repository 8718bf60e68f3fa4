use vstd::prelude::*;
use crate::error::{ErrorKind, PpError};
use crate::quote::{quote, quoted};
use crate::reader::{lemma_next_lexical, next_lexical, TokenReader};
use crate::token::{clone_tokens, push_tokens, is_name_kind, is_symbol, is_trivia_kind, text_of, text_of_tokens, views, Position, Token, TokenKind, TokenView};

verus! {

/// `-define(Name, Replacement).` or `-define(Name(Var, ...), Replacement).`
#[derive(Debug)]
pub struct Define {
    /// The macro's name: an atom, keyword or variable token.
    pub name: Token,
    /// The parameter names, for a parameterized macro.
    pub variables: Option<Vec<Token>>,
    /// The non-trivia tokens between the comma and the closing parenthesis.
    pub replacement: Vec<Token>,
    /// Every token of the directive, from the hyphen to the dot.
    pub tokens: Vec<Token>,
}

/// The index of the first parameter whose text is `s`, if any.
pub open spec fn param_index(params: Seq<TokenView>, s: Seq<char>) -> Option<int>
    decreases params.len(),
{
    if params.len() == 0 {
        None
    } else if params[0].text == s {
        Some(0)
    } else {
        match param_index(params.drop_first(), s) {
            Some(i) => Some(i + 1),
            None => None,
        }
    }
}

/// The string token that `??` makes of an argument: its text is the argument's
/// source text as a string literal, and it spans the argument (or stands at the
/// operator, for an empty argument).
pub open spec fn stringified(arg: Seq<TokenView>, at: Position) -> TokenView {
    TokenView {
        kind: TokenKind::String,
        text: quoted(text_of(arg)),
        start: if arg.len() > 0 { arg[0].start } else { at },
        end: if arg.len() > 0 { arg.last().end } else { at },
    }
}

/// Prefixes `out` to the tokens of a successful expansion.
pub open spec fn prepend(out: Seq<TokenView>, r: Result<Seq<TokenView>, PpError>) -> Result<
    Seq<TokenView>,
    PpError,
> {
    match r {
        Ok(rest) => Ok(out + rest),
        Err(e) => Err(e),
    }
}

/// How many tokens the stringification operator `??` takes at the front of
/// `tmpl`: one for a `??` token, two where the two characters were scanned as
/// two `?` tokens that touch, none if it is absent.
pub open spec fn stringify_op_len(tmpl: Seq<TokenView>) -> int {
    if tmpl.len() > 0 && is_symbol(tmpl[0], "??"@) {
        1
    } else if tmpl.len() > 1 && is_symbol(tmpl[0], "?"@) && is_symbol(tmpl[1], "?"@)
        && tmpl[0].end == tmpl[1].start {
        2
    } else {
        0
    }
}

/// The expansion of a template: a parameter's name becomes its argument, `??`
/// and a parameter's name become the argument's text as a string, and any
/// other token stays as it is.
pub open spec fn expand_template(
    params: Seq<TokenView>,
    tmpl: Seq<TokenView>,
    args: Seq<Seq<TokenView>>,
) -> Result<Seq<TokenView>, PpError>
    decreases tmpl.len(),
{
    if tmpl.len() == 0 {
        Ok(Seq::empty())
    } else {
        let t = tmpl[0];
        let n = stringify_op_len(tmpl);
        match param_index(params, t.text) {
            Some(k) => prepend(args[k], expand_template(params, tmpl.drop_first(), args)),
            None => if n > 0 {
                if tmpl.len() <= n {
                    Err(PpError { kind: ErrorKind::InvalidInput, position: t.start })
                } else {
                    match param_index(params, tmpl[n].text) {
                        Some(k) => prepend(
                            seq![stringified(args[k], t.start)],
                            expand_template(params, tmpl.subrange(n + 1, tmpl.len() as int), args),
                        ),
                        None => Err(
                            PpError { kind: ErrorKind::UnboundName, position: tmpl[n].start },
                        ),
                    }
                }
            } else {
                prepend(seq![t], expand_template(params, tmpl.drop_first(), args))
            },
        }
    }
}

/// The views of the argument slices of an invocation.
pub open spec fn arg_views(args: Seq<&[Token]>) -> Seq<Seq<TokenView>> {
    args.map_values(|a: &[Token]| views(a@))
}

/// The views of the tokens of a result.
pub open spec fn result_views(r: Result<Vec<Token>, PpError>) -> Result<Seq<TokenView>, PpError> {
    match r {
        Ok(v) => Ok(views(v@)),
        Err(e) => Err(e),
    }
}

impl Define {
    /// The macro's parameter names, if it has a parameter list.
    pub open spec fn params(&self) -> Option<Seq<TokenView>> {
        match self.variables {
            Some(vs) => Some(views(vs@)),
            None => None,
        }
    }

    /// What invoking this macro with `args` yields. A macro without a parameter
    /// list yields its replacement whatever the arguments; one with a list must be
    /// given one argument per parameter.
    pub open spec fn expansion(&self, args: Seq<Seq<TokenView>>) -> Result<Seq<TokenView>, PpError> {
        match self.params() {
            None => Ok(views(self.replacement@)),
            Some(ps) => if args.len() != ps.len() {
                Err(PpError { kind: ErrorKind::ArityMismatch, position: self.name.start })
            } else {
                expand_template(ps, views(self.replacement@), args)
            },
        }
    }

    /// Substitutes `args` into the replacement.
    pub fn expand(&self, args: Vec<&[Token]>) -> (r: Result<Vec<Token>, PpError>)
        ensures
            result_views(r) == self.expansion(arg_views(args@)),
    {
        match &self.variables {
            None => Ok(clone_tokens(self.replacement.as_slice())),
            Some(vars) => {
                if args.len() != vars.len() {
                    Err(PpError::new(ErrorKind::ArityMismatch, self.name.start))
                } else {
                    expand_with(vars, &self.replacement, &args)
                }
            },
        }
    }
}

/// The index of the first parameter named `s`.
pub fn find_param(params: &Vec<Token>, s: &str) -> (r: Option<usize>)
    ensures
        match r {
            Some(k) => param_index(views(params@), s@) == Some(k as int),
            None => param_index(views(params@), s@) is None,
        },
{
    let mut i: usize = 0;
    while i < params.len()
        invariant
            i <= params@.len(),
            forall|j: int| 0 <= j < i ==> params@[j].text@ != s@,
        decreases params@.len() - i,
    {
        if params[i].text_is(s) {
            proof { lemma_param_index_at(views(params@), s@, i as int); }
            return Some(i);
        }
        i = i + 1;
    }
    proof { lemma_param_index_none(views(params@), s@); }
    None
}

proof fn lemma_param_index_at(ps: Seq<TokenView>, s: Seq<char>, i: int)
    requires
        0 <= i < ps.len(),
        ps[i].text == s,
        forall|j: int| 0 <= j < i ==> ps[j].text != s,
    ensures
        param_index(ps, s) == Some(i),
    decreases i,
{
    if i > 0 {
        lemma_param_index_at(ps.drop_first(), s, i - 1);
    }
}

proof fn lemma_param_index_none(ps: Seq<TokenView>, s: Seq<char>)
    requires
        forall|j: int| 0 <= j < ps.len() ==> ps[j].text != s,
    ensures
        param_index(ps, s) is None,
    decreases ps.len(),
{
    if ps.len() > 0 {
        lemma_param_index_none(ps.drop_first(), s);
    }
}

proof fn lemma_param_index_bound(ps: Seq<TokenView>, s: Seq<char>)
    ensures
        match param_index(ps, s) {
            Some(k) => 0 <= k < ps.len(),
            None => true,
        },
    decreases ps.len(),
{
    if ps.len() > 0 {
        lemma_param_index_bound(ps.drop_first(), s);
    }
}

proof fn lemma_prepend_prepend(a: Seq<TokenView>, b: Seq<TokenView>, r: Result<Seq<TokenView>, PpError>)
    ensures
        prepend(a, prepend(b, r)) == prepend(a + b, r),
{
    match r {
        Ok(x) => { assert(a + (b + x) =~= (a + b) + x); },
        Err(_) => {},
    }
}

/// The string token that `??` makes of `arg`, at the operator `op`.
fn stringify(arg: &[Token], op: &Token) -> (r: Token)
    ensures
        r@ == stringified(views(arg@), op.start),
{
    let text = text_of_tokens(arg);
    let lit = quote(text.as_str());
    let (start, end) = if arg.len() > 0 {
        (arg[0].start, arg[arg.len() - 1].end)
    } else {
        (op.start, op.start)
    };
    Token::new(TokenKind::String, lit, start, end)
}

fn expand_with(vars: &Vec<Token>, tmpl: &Vec<Token>, args: &Vec<&[Token]>) -> (r: Result<Vec<Token>, PpError>)
    requires
        args@.len() == vars@.len(),
    ensures
        result_views(r) == expand_template(views(vars@), views(tmpl@), arg_views(args@)),
{
    let ghost ps = views(vars@);
    let ghost tv = views(tmpl@);
    let ghost av = arg_views(args@);
    let mut out: Vec<Token> = Vec::new();
    let mut i: usize = 0;
    proof {
        assert(tv.subrange(0, tv.len() as int) =~= tv);
        assert(views(out@) =~= Seq::<TokenView>::empty());
        match expand_template(ps, tv, av) {
            Ok(x) => { assert(Seq::<TokenView>::empty() + x =~= x); },
            Err(_) => {},
        }
    }
    while i < tmpl.len()
        invariant
            ps == views(vars@),
            tv == views(tmpl@),
            av == arg_views(args@),
            args@.len() == vars@.len(),
            i <= tmpl@.len(),
            expand_template(ps, tv, av) == prepend(
                views(out@),
                expand_template(ps, tv.subrange(i as int, tv.len() as int), av),
            ),
        decreases tmpl@.len() - i,
    {
        let ghost rest = tv.subrange(i as int, tv.len() as int);
        let ghost before = views(out@);
        assert(rest[0] == tmpl@[i as int]@);
        assert(rest.drop_first() =~= tv.subrange(i + 1, tv.len() as int));
        let t = &tmpl[i];
        match find_param(vars, t.text.as_str()) {
            Some(k) => {
                proof { lemma_param_index_bound(ps, t.text@); }
                push_tokens(&mut out, args[k]);
                proof {
                    assert(views(out@) =~= before + av[k as int]);
                    lemma_prepend_prepend(before, av[k as int], expand_template(ps, rest.drop_first(), av));
                }
                i = i + 1;
            },
            None => {
                let n: usize = if t.is_symbol("??") {
                    1
                } else if i + 1 < tmpl.len() && t.is_symbol("?") && tmpl[i + 1].is_symbol("?")
                    && t.end == tmpl[i + 1].start {
                    2
                } else {
                    0
                };
                assert(n == stringify_op_len(rest));
                if n > 0 {
                    if i + n >= tmpl.len() {
                        return Err(PpError::new(ErrorKind::InvalidInput, t.start));
                    }
                    let v = &tmpl[i + n];
                    assert(rest[n as int] == v@);
                    match find_param(vars, v.text.as_str()) {
                        Some(k) => {
                            proof { lemma_param_index_bound(ps, v.text@); }
                            let s = stringify(args[k], t);
                            out.push(s);
                            proof {
                                assert(rest.subrange(n + 1, rest.len() as int) =~= tv.subrange(i + n + 1, tv.len() as int));
                                assert(views(out@) =~= before + seq![stringified(av[k as int], t.start)]);
                                lemma_prepend_prepend(before, seq![stringified(av[k as int], t.start)],
                                    expand_template(ps, rest.subrange(n + 1, rest.len() as int), av));
                            }
                            i = i + n + 1;
                        },
                        None => {
                            return Err(PpError::new(ErrorKind::UnboundName, v.start));
                        },
                    }
                } else {
                    out.push(t.clone());
                    proof {
                        assert(views(out@) =~= before + seq![t@]);
                        lemma_prepend_prepend(before, seq![t@], expand_template(ps, rest.drop_first(), av));
                    }
                    i = i + 1;
                }
            },
        }
    }
    assert(tv.subrange(i as int, tv.len() as int) =~= Seq::<TokenView>::empty());
    assert(views(out@) + Seq::<TokenView>::empty() =~= views(out@));
    Ok(out)
}


/// `-include("path").`
#[derive(Debug)]
pub struct Include {
    /// The string literal naming the file.
    pub path: Token,
    pub tokens: Vec<Token>,
}

/// `-include_lib("app/path").`
#[derive(Debug)]
pub struct IncludeLib {
    pub path: Token,
    pub tokens: Vec<Token>,
}

/// `-error(Message).`
#[derive(Debug)]
pub struct Error {
    /// Every token between the parentheses, trivia included.
    pub message: Vec<Token>,
    pub tokens: Vec<Token>,
}

/// `-warning(Message).`
#[derive(Debug)]
pub struct Warning {
    pub message: Vec<Token>,
    pub tokens: Vec<Token>,
}

/// `-endif.`
#[derive(Debug)]
pub struct Endif {
    pub tokens: Vec<Token>,
}

/// `-else.`
#[derive(Debug)]
pub struct Else {
    pub tokens: Vec<Token>,
}

/// `-undef(Name).`
#[derive(Debug)]
pub struct Undef {
    pub name: Token,
    pub tokens: Vec<Token>,
}

/// `-ifdef(Name).`
#[derive(Debug)]
pub struct Ifdef {
    pub name: Token,
    pub tokens: Vec<Token>,
}

/// `-ifndef(Name).`
#[derive(Debug)]
pub struct Ifndef {
    pub name: Token,
    pub tokens: Vec<Token>,
}

/// A recognised directive. Each keeps every token it was read from, from the
/// hyphen to the dot, so that its source text can be given back as it was.
#[derive(Debug)]
pub enum Directive {
    Include(Include),
    IncludeLib(IncludeLib),
    Define(Define),
    Undef(Undef),
    Ifdef(Ifdef),
    Ifndef(Ifndef),
    Else(Else),
    Endif(Endif),
    Error(Error),
    Warning(Warning),
}

/// The keywords that begin a directive.
pub open spec fn is_directive_keyword(s: Seq<char>) -> bool {
    ||| s == "include_lib"@.subrange(0, 7)
    ||| s == "include_lib"@
    ||| s == "define"@
    ||| s == "undef"@
    ||| s == "ifdef"@
    ||| s == "ifndef"@
    ||| s == "else"@
    ||| s == "endif"@
    ||| s == "error"@
    ||| s == "warning"@
}

/// At `p` stand a hyphen and then, after trivia, a directive keyword.
pub open spec fn starts_directive(ts: Seq<Token>, p: int) -> bool {
    let q = next_lexical(ts, p + 1);
    &&& 0 <= p < ts.len()
    &&& is_symbol(ts[p]@, "-"@)
    &&& q < ts.len()
    &&& is_name_kind(ts[q].kind)
    &&& is_directive_keyword(ts[q].text@)
}

/// At `c` stands a closing parenthesis followed, after trivia, by a dot.
pub open spec fn closes_at(ts: Seq<Token>, c: int) -> bool {
    let d = next_lexical(ts, c + 1);
    &&& 0 <= c < ts.len()
    &&& is_symbol(ts[c]@, ")"@)
    &&& d < ts.len()
    &&& is_symbol(ts[d]@, "."@)
}

/// The tokens of `ts` that are not trivia.
pub open spec fn lexical_only(ts: Seq<Token>) -> Seq<Token>
    decreases ts.len(),
{
    if ts.len() == 0 {
        Seq::empty()
    } else if is_trivia_kind(ts.last().kind) {
        lexical_only(ts.drop_last())
    } else {
        lexical_only(ts.drop_last()).push(ts.last())
    }
}

pub proof fn lemma_lexical_only_no_trivia(ts: Seq<Token>)
    ensures
        forall|i: int| 0 <= i < lexical_only(ts).len() ==> !is_trivia_kind(#[trigger] lexical_only(ts)[i].kind),
    decreases ts.len(),
{
    if ts.len() > 0 {
        lemma_lexical_only_no_trivia(ts.drop_last());
    }
}

/// The body of a directive whose text runs from `from` to the first closing
/// parenthesis that a dot follows; with `keep_trivia` false, its lexical
/// tokens only.
pub open spec fn body_read(ts: Seq<Token>, from: int, c: int, keep_trivia: bool) -> Seq<Token> {
    if keep_trivia {
        ts.subrange(from, c)
    } else {
        lexical_only(ts.subrange(from, c))
    }
}

/// The first index at or after `from` where a closing parenthesis that a dot
/// follows stands.
pub open spec fn first_close(ts: Seq<Token>, from: int) -> Option<int>
    decreases ts.len() - from,
{
    if from < 0 || from >= ts.len() {
        None
    } else if closes_at(ts, from) {
        Some(from)
    } else {
        first_close(ts, from + 1)
    }
}

proof fn lemma_first_close_at(ts: Seq<Token>, from: int, c: int)
    requires
        0 <= from <= c,
        closes_at(ts, c),
        forall|c2: int| from <= c2 < c ==> !closes_at(ts, c2),
    ensures
        first_close(ts, from) == Some(c),
    decreases c - from,
{
    if from < c {
        lemma_first_close_at(ts, from + 1, c);
    }
}

proof fn lemma_first_close_none(ts: Seq<Token>, from: int)
    requires
        0 <= from,
        forall|c: int| from <= c ==> !closes_at(ts, c),
    ensures
        first_close(ts, from) is None,
    decreases ts.len() - from,
{
    if from < ts.len() {
        lemma_first_close_none(ts, from + 1);
    }
}

/// Reads the body of a directive up to and including the closing parenthesis
/// and the dot that ends it.
fn read_body(reader: &mut TokenReader, keep_trivia: bool) -> (r: Result<Vec<Token>, PpError>)
    requires
        old(reader).wf(),
    ensures
        final(reader).wf(),
        final(reader).moved(old(reader)),
        old(reader).pos <= final(reader).pos,
        ({
            let ts = old(reader).tokens@;
            let from = old(reader).pos as int;
            match r {
                Ok(b) => first_close(ts, from) matches Some(c) && final(reader).pos == next_lexical(
                    ts,
                    c + 1,
                ) + 1 && b@ == body_read(ts, from, c, keep_trivia),
                Err(e) => e.kind == ErrorKind::SyntaxError && first_close(ts, from) is None,
            }
        }),
{
    let ghost ts = reader.tokens@;
    let ghost from = reader.pos as int;
    let mut body: Vec<Token> = Vec::new();
    loop
        invariant
            reader.wf(),
            reader.moved(old(reader)),
            ts == reader.tokens@,
            from == old(reader).pos,
            from <= reader.pos,
            body@ == body_read(ts, from, reader.pos as int, keep_trivia),
            forall|c2: int| from <= c2 < reader.pos ==> !closes_at(ts, c2),
        decreases ts.len() - reader.pos,
    {
        let ghost c = reader.pos as int;
        let ghost before = body@;
        match reader.read_token() {
            None => {
                proof {
                    assert forall|c2: int| from <= c2 implies !closes_at(ts, c2) by {
                        if c2 < c {
                        }
                    }
                    lemma_first_close_none(ts, from);
                }
                return Err(PpError::new(ErrorKind::SyntaxError, reader.position()));
            },
            Some(t) => {
                if t.is_symbol(")") {
                    if let Some(_) = reader.try_read_symbol(".") {
                        assert(closes_at(ts, c));
                        proof { lemma_first_close_at(ts, from, c); }
                        return Ok(body);
                    }
                }
                assert(!closes_at(ts, c));
                assert(ts.subrange(from, c + 1).drop_last() =~= ts.subrange(from, c));
                if keep_trivia || !t.is_trivia() {
                    body.push(t);
                }
                assert(body@ =~= body_read(ts, from, c + 1, keep_trivia));
            },
        }
    }
}


/// No two of `vs` have the same text.
pub open spec fn distinct_texts(vs: Seq<Token>) -> bool {
    forall|i: int, j: int|
        #![trigger vs[i], vs[j]]
        0 <= i < j < vs.len() ==> vs[i].text@ != vs[j].text@
}

proof fn lemma_param_index_none_all(ps: Seq<TokenView>, s: Seq<char>)
    requires
        param_index(ps, s) is None,
    ensures
        forall|j: int| 0 <= j < ps.len() ==> #[trigger] ps[j].text != s,
    decreases ps.len(),
{
    if ps.len() > 0 {
        lemma_param_index_none_all(ps.drop_first(), s);
        assert forall|j: int| 0 <= j < ps.len() implies #[trigger] ps[j].text != s by {
            if j > 0 {
                assert(ps[j] == ps.drop_first()[j - 1]);
            }
        }
    }
}

/// The parameter list read from `ts` at `p`, after its opening parenthesis,
/// with `acc` read before: the names and the index after the closing `)`. A
/// name given twice ends the list with nothing.
pub open spec fn vars_from(ts: Seq<Token>, p: int, acc: Seq<Token>) -> Option<(Seq<Token>, int)>
    decreases ts.len() - p,
{
    let v = next_lexical(ts, p);
    let c = next_lexical(ts, v + 1);
    if !(0 <= p <= v && v < c && c < ts.len()) {
        None
    } else if ts[v].kind != TokenKind::Variable || param_index(views(acc), ts[v].text@) is Some {
        None
    } else if is_symbol(ts[c]@, ")"@) {
        Some((acc.push(ts[v]), c + 1))
    } else if is_symbol(ts[c]@, ","@) {
        vars_from(ts, c + 1, acc.push(ts[v]))
    } else {
        None
    }
}

/// Reads `Var, ...)`: the parameter list of a macro, after its opening
/// parenthesis. A name given twice is a syntax error.
fn read_vars(reader: &mut TokenReader) -> (r: Result<Vec<Token>, PpError>)
    requires
        old(reader).wf(),
    ensures
        final(reader).wf(),
        final(reader).moved(old(reader)),
        old(reader).pos <= final(reader).pos,
        match vars_from(old(reader).tokens@, old(reader).pos as int, Seq::empty()) {
            Some((vs, e)) => r matches Ok(v) && v@ == vs && final(reader).pos == e,
            None => r matches Err(x) && x.kind == ErrorKind::SyntaxError,
        },
        match r {
            Ok(vs) => distinct_texts(vs@) && vs@.len() > 0 && forall|i: int|
                0 <= i < vs@.len() ==> (#[trigger] vs@[i]).kind == TokenKind::Variable,
            Err(e) => e.kind == ErrorKind::SyntaxError,
        },
{
    let ghost ts = reader.tokens@;
    let mut vars: Vec<Token> = Vec::new();
    loop
        invariant
            reader.wf(),
            reader.moved(old(reader)),
            ts == reader.tokens@,
            old(reader).pos <= reader.pos,
            distinct_texts(vars@),
            forall|i: int| 0 <= i < vars@.len() ==> (#[trigger] vars@[i]).kind == TokenKind::Variable,
            vars_from(ts, old(reader).pos as int, Seq::empty()) == vars_from(
                ts,
                reader.pos as int,
                vars@,
            ),
        decreases reader.tokens@.len() - reader.pos,
    {
        let ghost p = reader.pos as int;
        proof { lemma_next_lexical(ts, p); }
        let v = reader.read_kind(TokenKind::Variable)?;
        proof { lemma_next_lexical(ts, reader.pos as int); }
        if find_param(&vars, v.text.as_str()).is_some() {
            return Err(PpError::new(ErrorKind::SyntaxError, v.start));
        }
        proof {
            lemma_param_index_none_all(views(vars@), v.text@);
            assert forall|j: int| 0 <= j < vars@.len() implies vars@[j].text@ != v.text@ by {
                assert(views(vars@)[j].text == vars@[j].text@);
            }
        }
        vars.push(v);
        if reader.try_read_symbol(")").is_some() {
            return Ok(vars);
        }
        reader.read_symbol(",")?;
    }
}

/// At `p`, after trivia: `(`, an item (a string literal, or a name), `)` and
/// `.`, each after trivia. Gives the item's index and the index after the dot.
pub open spec fn paren_item(ts: Seq<Token>, p: int, string: bool) -> Option<(int, int)> {
    let a = next_lexical(ts, p);
    let n = next_lexical(ts, a + 1);
    let c = next_lexical(ts, n + 1);
    let d = next_lexical(ts, c + 1);
    if a < ts.len() && is_symbol(ts[a]@, "("@) && n < ts.len() && (if string {
        ts[n].kind == TokenKind::String
    } else {
        is_name_kind(ts[n].kind)
    }) && c < ts.len() && is_symbol(ts[c]@, ")"@) && d < ts.len() && is_symbol(ts[d]@, "."@) {
        Some((n, d + 1))
    } else {
        None
    }
}

/// At `p`, after trivia, stands a dot.
pub open spec fn dot_at(ts: Seq<Token>, p: int) -> bool {
    next_lexical(ts, p) < ts.len() && is_symbol(ts[next_lexical(ts, p)]@, "."@)
}

/// Reads `(Name).` or `("path").`
fn read_paren_item(reader: &mut TokenReader, string: bool) -> (r: Result<Token, PpError>)
    requires
        old(reader).wf(),
    ensures
        final(reader).wf(),
        final(reader).moved(old(reader)),
        old(reader).pos <= final(reader).pos,
        match paren_item(old(reader).tokens@, old(reader).pos as int, string) {
            Some((n, e)) => r matches Ok(t) && t == old(reader).tokens@[n] && final(reader).pos == e,
            None => r matches Err(x) && x.kind == ErrorKind::SyntaxError,
        },
{
    proof { lemma_next_lexical(reader.tokens@, reader.pos as int); }
    reader.read_symbol("(")?;
    proof { lemma_next_lexical(reader.tokens@, reader.pos as int); }
    let item = if string {
        reader.read_kind(TokenKind::String)?
    } else {
        reader.read_name()?
    };
    proof { lemma_next_lexical(reader.tokens@, reader.pos as int); }
    reader.read_symbol(")")?;
    proof { lemma_next_lexical(reader.tokens@, reader.pos as int); }
    reader.read_symbol(".")?;
    Ok(item)
}

/// Reads `(Message).`
fn read_message(reader: &mut TokenReader) -> (r: Result<Vec<Token>, PpError>)
    requires
        old(reader).wf(),
    ensures
        final(reader).wf(),
        final(reader).moved(old(reader)),
        old(reader).pos <= final(reader).pos,
        match r {
            Ok(m) => message_read(old(reader).tokens@, old(reader).pos as int, m@, final(reader).pos as int),
            Err(e) => e.kind == ErrorKind::SyntaxError && message_fails(
                old(reader).tokens@,
                old(reader).pos as int,
            ),
        },
{
    reader.read_symbol("(")?;
    read_body(reader, true)
}

/// At `p`, after trivia, there is no `(`, or no `)` that a dot follows after it.
pub open spec fn message_fails(ts: Seq<Token>, p: int) -> bool {
    let a = next_lexical(ts, p);
    !(a < ts.len() && is_symbol(ts[a]@, "("@) && first_close(ts, a + 1) is Some)
}

/// At `p`, after trivia, stands `(`; `m` is every token from there to the first
/// `)` that a dot follows, and `end` is the index after that dot.
pub open spec fn message_read(ts: Seq<Token>, p: int, m: Seq<Token>, end: int) -> bool {
    let a = next_lexical(ts, p);
    &&& a < ts.len()
    &&& is_symbol(ts[a]@, "("@)
    &&& first_close(ts, a + 1) matches Some(c)
    &&& end == next_lexical(ts, c + 1) + 1
    &&& m == ts.subrange(a + 1, c)
}

/// The parameter list of a definition, as a sequence.
pub open spec fn opt_seq(o: Option<Vec<Token>>) -> Option<Seq<Token>> {
    match o {
        Some(v) => Some(v@),
        None => None,
    }
}

/// The definition read from `ts` at `p`, after its keyword: `(`, a name, an
/// optional parameter list, `,`, and the replacement up to the first `)` that a
/// dot follows. Gives the name's index, the parameters, the replacement's
/// lexical tokens and the index after the dot.
pub open spec fn define_read(ts: Seq<Token>, p: int) -> Option<
    (int, Option<Seq<Token>>, Seq<Token>, int),
> {
    let a = next_lexical(ts, p);
    let n = next_lexical(ts, a + 1);
    let o = next_lexical(ts, n + 1);
    if !(a < ts.len() && is_symbol(ts[a]@, "("@) && n < ts.len() && is_name_kind(ts[n].kind)) {
        None
    } else {
        let after: Option<(Option<Seq<Token>>, int)> = if o < ts.len() && is_symbol(
            ts[o]@,
            "("@,
        ) {
            match vars_from(ts, o + 1, Seq::empty()) {
                Some((vs, e)) => Some((Some(vs), e)),
                None => None,
            }
        } else {
            Some((None, n + 1))
        };
        match after {
            None => None,
            Some((vars, q)) => {
                let m = next_lexical(ts, q);
                if m < ts.len() && is_symbol(ts[m]@, ","@) {
                    match first_close(ts, m + 1) {
                        Some(c) => Some(
                            (n, vars, lexical_only(ts.subrange(m + 1, c)), next_lexical(ts, c + 1) + 1),
                        ),
                        None => None,
                    }
                } else {
                    None
                }
            },
        }
    }
}

/// Reads `(Name, Replacement).` or `(Name(Var, ...), Replacement).`
fn read_define(reader: &mut TokenReader) -> (r: Result<(Token, Option<Vec<Token>>, Vec<Token>), PpError>)
    requires
        old(reader).wf(),
    ensures
        final(reader).wf(),
        final(reader).moved(old(reader)),
        old(reader).pos <= final(reader).pos,
        match define_read(old(reader).tokens@, old(reader).pos as int) {
            Some((n, vars, repl, e)) => r matches Ok((name, vs, rp)) && name == old(
                reader,
            ).tokens@[n] && opt_seq(vs) == vars && rp@ == repl && final(reader).pos == e,
            None => r matches Err(x) && x.kind == ErrorKind::SyntaxError,
        },
        match r {
            Ok((name, vars, repl)) => is_name_kind(name.kind) && match vars {
                Some(vs) => distinct_texts(vs@) && vs@.len() > 0 && forall|i: int|
                    0 <= i < vs@.len() ==> (#[trigger] vs@[i]).kind == TokenKind::Variable,
                None => true,
            } && forall|i: int| 0 <= i < repl@.len() ==> !is_trivia_kind(#[trigger] repl@[i].kind),
            Err(e) => e.kind == ErrorKind::SyntaxError,
        },
{
    let ghost ts = reader.tokens@;
    proof { lemma_next_lexical(ts, reader.pos as int); }
    reader.read_symbol("(")?;
    proof { lemma_next_lexical(ts, reader.pos as int); }
    let name = reader.read_name()?;
    proof { lemma_next_lexical(ts, reader.pos as int); }
    let vars = if reader.try_read_symbol("(").is_some() {
        Some(read_vars(reader)?)
    } else {
        None
    };
    proof { lemma_next_lexical(ts, reader.pos as int); }
    reader.read_symbol(",")?;
    let ghost from = reader.pos as int;
    let repl = read_body(reader, false)?;
    proof {
        let c = first_close(ts, from).unwrap();
        lemma_lexical_only_no_trivia(ts.subrange(from, c));
    }
    Ok((name, vars, repl))
}

impl Directive {
    /// Every token the directive was read from.
    pub open spec fn spec_tokens(&self) -> Seq<Token> {
        match self {
            Directive::Include(d) => d.tokens@,
            Directive::IncludeLib(d) => d.tokens@,
            Directive::Define(d) => d.tokens@,
            Directive::Undef(d) => d.tokens@,
            Directive::Ifdef(d) => d.tokens@,
            Directive::Ifndef(d) => d.tokens@,
            Directive::Else(d) => d.tokens@,
            Directive::Endif(d) => d.tokens@,
            Directive::Error(d) => d.tokens@,
            Directive::Warning(d) => d.tokens@,
        }
    }

    /// The keyword that names the directive's kind.
    pub open spec fn keyword(&self) -> Seq<char> {
        match self {
            Directive::Include(_) => "include_lib"@.subrange(0, 7),
            Directive::IncludeLib(_) => "include_lib"@,
            Directive::Define(_) => "define"@,
            Directive::Undef(_) => "undef"@,
            Directive::Ifdef(_) => "ifdef"@,
            Directive::Ifndef(_) => "ifndef"@,
            Directive::Else(_) => "else"@,
            Directive::Endif(_) => "endif"@,
            Directive::Error(_) => "error"@,
            Directive::Warning(_) => "warning"@,
        }
    }

    /// What the parser guarantees of each kind's own fields.
    pub open spec fn fields_wf(&self) -> bool {
        match self {
            Directive::Include(d) => d.path.kind == TokenKind::String,
            Directive::IncludeLib(d) => d.path.kind == TokenKind::String,
            Directive::Define(d) => is_name_kind(d.name.kind) && match d.variables {
                Some(vs) => distinct_texts(vs@) && vs@.len() > 0 && forall|i: int|
                    0 <= i < vs@.len() ==> (#[trigger] vs@[i]).kind == TokenKind::Variable,
                None => true,
            } && forall|i: int|
                0 <= i < d.replacement@.len() ==> !is_trivia_kind(#[trigger] d.replacement@[i].kind),
            Directive::Undef(d) => is_name_kind(d.name.kind),
            Directive::Ifdef(d) => is_name_kind(d.name.kind),
            Directive::Ifndef(d) => is_name_kind(d.name.kind),
            _ => true,
        }
    }

    /// The directive's source text, exactly as it was read.
    pub fn text(&self) -> (r: String)
        ensures
            r@ == text_of(views(self.spec_tokens())),
    {
        text_of_tokens(self.tokens().as_slice())
    }

    pub fn tokens(&self) -> (r: &Vec<Token>)
        ensures
            r@ == self.spec_tokens(),
    {
        match self {
            Directive::Include(d) => &d.tokens,
            Directive::IncludeLib(d) => &d.tokens,
            Directive::Define(d) => &d.tokens,
            Directive::Undef(d) => &d.tokens,
            Directive::Ifdef(d) => &d.tokens,
            Directive::Ifndef(d) => &d.tokens,
            Directive::Else(d) => &d.tokens,
            Directive::Endif(d) => &d.tokens,
            Directive::Error(d) => &d.tokens,
            Directive::Warning(d) => &d.tokens,
        }
    }

    /// Where the directive's hyphen starts.
    pub fn start_position(&self) -> (r: Position)
        requires
            self.spec_tokens().len() > 0,
        ensures
            r == self.spec_tokens()[0].start,
    {
        self.tokens()[0].start
    }

    /// Where the directive's dot ends.
    pub fn end_position(&self) -> (r: Position)
        requires
            self.spec_tokens().len() > 0,
        ensures
            r == self.spec_tokens().last().end,
    {
        let ts = self.tokens();
        ts[ts.len() - 1].end
    }
}

/// The directive keywords are pairwise different.
pub proof fn lemma_keywords_distinct()
    ensures
        "include_lib"@.subrange(0, 7) != "include_lib"@,
        "include_lib"@.subrange(0, 7) != "define"@,
        "include_lib"@.subrange(0, 7) != "undef"@,
        "include_lib"@.subrange(0, 7) != "ifdef"@,
        "include_lib"@.subrange(0, 7) != "ifndef"@,
        "include_lib"@.subrange(0, 7) != "else"@,
        "include_lib"@.subrange(0, 7) != "endif"@,
        "include_lib"@.subrange(0, 7) != "error"@,
        "include_lib"@.subrange(0, 7) != "warning"@,
        "include_lib"@ != "define"@,
        "include_lib"@ != "undef"@,
        "include_lib"@ != "ifdef"@,
        "include_lib"@ != "ifndef"@,
        "include_lib"@ != "else"@,
        "include_lib"@ != "endif"@,
        "include_lib"@ != "error"@,
        "include_lib"@ != "warning"@,
        "define"@ != "undef"@,
        "define"@ != "ifdef"@,
        "define"@ != "ifndef"@,
        "define"@ != "else"@,
        "define"@ != "endif"@,
        "define"@ != "error"@,
        "define"@ != "warning"@,
        "undef"@ != "ifdef"@,
        "undef"@ != "ifndef"@,
        "undef"@ != "else"@,
        "undef"@ != "endif"@,
        "undef"@ != "error"@,
        "undef"@ != "warning"@,
        "ifdef"@ != "ifndef"@,
        "ifdef"@ != "else"@,
        "ifdef"@ != "endif"@,
        "ifdef"@ != "error"@,
        "ifdef"@ != "warning"@,
        "ifndef"@ != "else"@,
        "ifndef"@ != "endif"@,
        "ifndef"@ != "error"@,
        "ifndef"@ != "warning"@,
        "else"@ != "endif"@,
        "else"@ != "error"@,
        "else"@ != "warning"@,
        "endif"@ != "error"@,
        "endif"@ != "warning"@,
        "error"@ != "warning"@,
{
    reveal_strlit("include_lib");
    reveal_strlit("define");
    reveal_strlit("undef");
    reveal_strlit("ifdef");
    reveal_strlit("ifndef");
    reveal_strlit("else");
    reveal_strlit("endif");
    reveal_strlit("error");
    reveal_strlit("warning");
    assert("include_lib"@.subrange(0, 7) != "include_lib"@) by { assert("include_lib"@.subrange(0, 7).len() != "include_lib"@.len()); }
    assert("include_lib"@.subrange(0, 7) != "define"@) by { assert("include_lib"@.subrange(0, 7)[0] != "define"@[0]); }
    assert("include_lib"@.subrange(0, 7) != "undef"@) by { assert("include_lib"@.subrange(0, 7)[0] != "undef"@[0]); }
    assert("include_lib"@.subrange(0, 7) != "ifdef"@) by { assert("include_lib"@.subrange(0, 7)[1] != "ifdef"@[1]); }
    assert("include_lib"@.subrange(0, 7) != "ifndef"@) by { assert("include_lib"@.subrange(0, 7)[1] != "ifndef"@[1]); }
    assert("include_lib"@.subrange(0, 7) != "else"@) by { assert("include_lib"@.subrange(0, 7)[0] != "else"@[0]); }
    assert("include_lib"@.subrange(0, 7) != "endif"@) by { assert("include_lib"@.subrange(0, 7)[0] != "endif"@[0]); }
    assert("include_lib"@.subrange(0, 7) != "error"@) by { assert("include_lib"@.subrange(0, 7)[0] != "error"@[0]); }
    assert("include_lib"@.subrange(0, 7) != "warning"@) by { assert("include_lib"@.subrange(0, 7)[0] != "warning"@[0]); }
    assert("include_lib"@ != "define"@) by { assert("include_lib"@[0] != "define"@[0]); }
    assert("include_lib"@ != "undef"@) by { assert("include_lib"@[0] != "undef"@[0]); }
    assert("include_lib"@ != "ifdef"@) by { assert("include_lib"@[1] != "ifdef"@[1]); }
    assert("include_lib"@ != "ifndef"@) by { assert("include_lib"@[1] != "ifndef"@[1]); }
    assert("include_lib"@ != "else"@) by { assert("include_lib"@[0] != "else"@[0]); }
    assert("include_lib"@ != "endif"@) by { assert("include_lib"@[0] != "endif"@[0]); }
    assert("include_lib"@ != "error"@) by { assert("include_lib"@[0] != "error"@[0]); }
    assert("include_lib"@ != "warning"@) by { assert("include_lib"@[0] != "warning"@[0]); }
    assert("define"@ != "undef"@) by { assert("define"@[0] != "undef"@[0]); }
    assert("define"@ != "ifdef"@) by { assert("define"@[0] != "ifdef"@[0]); }
    assert("define"@ != "ifndef"@) by { assert("define"@[0] != "ifndef"@[0]); }
    assert("define"@ != "else"@) by { assert("define"@[0] != "else"@[0]); }
    assert("define"@ != "endif"@) by { assert("define"@[0] != "endif"@[0]); }
    assert("define"@ != "error"@) by { assert("define"@[0] != "error"@[0]); }
    assert("define"@ != "warning"@) by { assert("define"@[0] != "warning"@[0]); }
    assert("undef"@ != "ifdef"@) by { assert("undef"@[0] != "ifdef"@[0]); }
    assert("undef"@ != "ifndef"@) by { assert("undef"@[0] != "ifndef"@[0]); }
    assert("undef"@ != "else"@) by { assert("undef"@[0] != "else"@[0]); }
    assert("undef"@ != "endif"@) by { assert("undef"@[0] != "endif"@[0]); }
    assert("undef"@ != "error"@) by { assert("undef"@[0] != "error"@[0]); }
    assert("undef"@ != "warning"@) by { assert("undef"@[0] != "warning"@[0]); }
    assert("ifdef"@ != "ifndef"@) by { assert("ifdef"@[2] != "ifndef"@[2]); }
    assert("ifdef"@ != "else"@) by { assert("ifdef"@[0] != "else"@[0]); }
    assert("ifdef"@ != "endif"@) by { assert("ifdef"@[0] != "endif"@[0]); }
    assert("ifdef"@ != "error"@) by { assert("ifdef"@[0] != "error"@[0]); }
    assert("ifdef"@ != "warning"@) by { assert("ifdef"@[0] != "warning"@[0]); }
    assert("ifndef"@ != "else"@) by { assert("ifndef"@[0] != "else"@[0]); }
    assert("ifndef"@ != "endif"@) by { assert("ifndef"@[0] != "endif"@[0]); }
    assert("ifndef"@ != "error"@) by { assert("ifndef"@[0] != "error"@[0]); }
    assert("ifndef"@ != "warning"@) by { assert("ifndef"@[0] != "warning"@[0]); }
    assert("else"@ != "endif"@) by { assert("else"@[1] != "endif"@[1]); }
    assert("else"@ != "error"@) by { assert("else"@[1] != "error"@[1]); }
    assert("else"@ != "warning"@) by { assert("else"@[0] != "warning"@[0]); }
    assert("endif"@ != "error"@) by { assert("endif"@[1] != "error"@[1]); }
    assert("endif"@ != "warning"@) by { assert("endif"@[0] != "warning"@[0]); }
    assert("error"@ != "warning"@) by { assert("error"@[0] != "warning"@[0]); }
}

/// What the fields of `d` hold, for a directive whose keyword stands at `k`
/// in `ts` and whose text ends before `end`.
pub open spec fn read_as(d: Directive, ts: Seq<Token>, k: int, end: int) -> bool {
    match d {
        Directive::Include(x) => paren_item(ts, k + 1, true) matches Some((n, e)) && x.path
            == ts[n] && e == end,
        Directive::IncludeLib(x) => paren_item(ts, k + 1, true) matches Some((n, e)) && x.path
            == ts[n] && e == end,
        Directive::Undef(x) => paren_item(ts, k + 1, false) matches Some((n, e)) && x.name
            == ts[n] && e == end,
        Directive::Ifdef(x) => paren_item(ts, k + 1, false) matches Some((n, e)) && x.name
            == ts[n] && e == end,
        Directive::Ifndef(x) => paren_item(ts, k + 1, false) matches Some((n, e)) && x.name
            == ts[n] && e == end,
        Directive::Else(_) => dot_at(ts, k + 1) && end == next_lexical(ts, k + 1) + 1,
        Directive::Endif(_) => dot_at(ts, k + 1) && end == next_lexical(ts, k + 1) + 1,
        Directive::Error(x) => message_read(ts, k + 1, x.message@, end),
        Directive::Warning(x) => message_read(ts, k + 1, x.message@, end),
        Directive::Define(x) => define_read(ts, k + 1) matches Some((n, vars, repl, e)) && x.name
            == ts[n] && opt_seq(x.variables) == vars && x.replacement@ == repl && e == end,
    }
}

/// For a keyword at `k` in `ts`, the text after it does not have the shape its
/// directive needs.
pub open spec fn shape_fails(ts: Seq<Token>, k: int) -> bool {
    let kw = ts[k].text@;
    if kw == "include_lib"@.subrange(0, 7) || kw == "include_lib"@ {
        paren_item(ts, k + 1, true) is None
    } else if kw == "undef"@ || kw == "ifdef"@ || kw == "ifndef"@ {
        paren_item(ts, k + 1, false) is None
    } else if kw == "else"@ || kw == "endif"@ {
        !dot_at(ts, k + 1)
    } else if kw == "define"@ {
        define_read(ts, k + 1) is None
    } else {
        message_fails(ts, k + 1)
    }
}

/// Reads a directive at the reader's cursor, inside the transaction that the
/// caller opened there. When the text there is not a directive, the reader
/// is left for the caller to roll back; once a hyphen and a directive keyword
/// are seen, any other deviation from the directive's grammar is an error.
pub fn read_directive(reader: &mut TokenReader) -> (r: Result<Option<Directive>, PpError>)
    requires
        old(reader).wf(),
        old(reader).marks@.len() > 0,
        old(reader).marks@.last() == old(reader).pos,
    ensures
        final(reader).wf(),
        final(reader).tokens@ == old(reader).tokens@,
        ({
            let ts = old(reader).tokens@;
            let from = old(reader).pos as int;
            match r {
                Ok(Some(d)) => {
                    &&& starts_directive(ts, from)
                    &&& d.keyword() == ts[next_lexical(ts, from + 1)].text@
                    &&& d.fields_wf()
                    &&& read_as(d, ts, next_lexical(ts, from + 1), final(reader).pos as int)
                    &&& from < final(reader).pos
                    &&& d.spec_tokens() == ts.subrange(from, final(reader).pos as int)
                    &&& final(reader).marks@ == old(reader).marks@.drop_last()
                },
                Ok(None) => !starts_directive(ts, from) && final(reader).marks@ == old(reader).marks@,
                Err(e) => starts_directive(ts, from) && e.kind == ErrorKind::SyntaxError
                    && shape_fails(ts, next_lexical(ts, from + 1))
                    && final(reader).marks@ == old(reader).marks@,
            }
        }),
{
    let ghost ts = reader.tokens@;
    let ghost from = reader.pos as int;
    match reader.peek() {
        Some(t) => {
            if !t.is_symbol("-") {
                return Ok(None);
            }
        },
        None => {
            return Ok(None);
        },
    }
    reader.read_token();
    let kw = match reader.read_name() {
        Ok(kw) => kw,
        Err(_) => {
            return Ok(None);
        },
    };
    let ghost q = next_lexical(ts, from + 1);
    proof {
        reveal_strlit("include_lib");
        reveal_strlit("define");
        reveal_strlit("undef");
        reveal_strlit("ifdef");
        reveal_strlit("ifndef");
        reveal_strlit("else");
        reveal_strlit("endif");
        reveal_strlit("error");
        reveal_strlit("warning");
    }
    let plain = "include_lib".substring_char(0, 7);
    let d = if kw.text_is(plain) {
        let path = read_paren_item(reader, true)?;
        Directive::Include(Include { path, tokens: reader.commit_transaction() })
    } else if kw.text_is("include_lib") {
        let path = read_paren_item(reader, true)?;
        Directive::IncludeLib(IncludeLib { path, tokens: reader.commit_transaction() })
    } else if kw.text_is("define") {
        proof {
            lemma_keywords_distinct();
        }
        let (name, variables, replacement) = read_define(reader)?;
        Directive::Define(Define { name, variables, replacement, tokens: reader.commit_transaction() })
    } else if kw.text_is("undef") {
        let name = read_paren_item(reader, false)?;
        Directive::Undef(Undef { name, tokens: reader.commit_transaction() })
    } else if kw.text_is("ifdef") {
        let name = read_paren_item(reader, false)?;
        Directive::Ifdef(Ifdef { name, tokens: reader.commit_transaction() })
    } else if kw.text_is("ifndef") {
        let name = read_paren_item(reader, false)?;
        Directive::Ifndef(Ifndef { name, tokens: reader.commit_transaction() })
    } else if kw.text_is("else") {
        reader.read_symbol(".")?;
        Directive::Else(Else { tokens: reader.commit_transaction() })
    } else if kw.text_is("endif") {
        reader.read_symbol(".")?;
        Directive::Endif(Endif { tokens: reader.commit_transaction() })
    } else if kw.text_is("error") {
        let message = read_message(reader)?;
        Directive::Error(Error { message, tokens: reader.commit_transaction() })
    } else if kw.text_is("warning") {
        let message = read_message(reader)?;
        Directive::Warning(Warning { message, tokens: reader.commit_transaction() })
    } else {
        return Ok(None);
    };
    Ok(Some(d))
}

} // verus!
