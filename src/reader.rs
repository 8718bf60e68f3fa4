use vstd::prelude::*;
use crate::error::{ErrorKind, PpError};
use crate::token::{clone_tokens, is_name_kind, is_symbol, is_trivia_kind, push_tokens, Position, Token, TokenKind};

verus! {

/// The index of the first token at or after `p` that is not trivia, or the
/// length of `ts` if there is none.
pub open spec fn next_lexical(ts: Seq<Token>, p: int) -> int
    decreases ts.len() - p,
{
    if p >= ts.len() {
        ts.len() as int
    } else if is_trivia_kind(ts[p].kind) {
        next_lexical(ts, p + 1)
    } else {
        p
    }
}

pub proof fn lemma_next_lexical(ts: Seq<Token>, p: int)
    requires
        0 <= p <= ts.len(),
    ensures
        p <= next_lexical(ts, p) <= ts.len(),
        next_lexical(ts, p) < ts.len() ==> !is_trivia_kind(ts[next_lexical(ts, p)].kind),
        forall|j: int| p <= j < next_lexical(ts, p) ==> is_trivia_kind(#[trigger] ts[j].kind),
    decreases ts.len() - p,
{
    if p < ts.len() && is_trivia_kind(ts[p].kind) {
        lemma_next_lexical(ts, p + 1);
    }
}

/// The source position of the token at `p`, or where the text ends.
pub open spec fn position_at(ts: Seq<Token>, p: int) -> Position {
    if 0 <= p < ts.len() {
        ts[p].start
    } else if ts.len() > 0 {
        ts.last().end
    } else {
        Position { line: 1, column: 1, offset: 0 }
    }
}

/// A cursor over a token sequence with nested speculative transactions: each open
/// transaction remembers where it began, so that it can be rolled back.
pub struct TokenReader {
    pub tokens: Vec<Token>,
    pub pos: usize,
    pub marks: Vec<usize>,
}

impl TokenReader {
    /// The cursor lies within the tokens, and each open transaction began at
    /// or before the one opened after it, and at or before the cursor.
    pub open spec fn wf(&self) -> bool {
        &&& self.pos <= self.tokens@.len()
        &&& forall|i: int| 0 <= i < self.marks@.len() ==> #[trigger] self.marks@[i] <= self.pos
        &&& forall|i: int, j: int|
            #![trigger self.marks@[i], self.marks@[j]]
            0 <= i < j < self.marks@.len() ==> self.marks@[i] <= self.marks@[j]
    }

    /// The reader moved its cursor, and nothing else.
    pub open spec fn moved(&self, old: &TokenReader) -> bool {
        self.tokens@ == old.tokens@ && self.marks@ == old.marks@
    }

    pub fn new(tokens: Vec<Token>) -> (r: TokenReader)
        ensures
            r.wf(),
            r.tokens@ == tokens@,
            r.pos == 0,
            r.marks@.len() == 0,
    {
        TokenReader { tokens, pos: 0, marks: Vec::new() }
    }

    /// Where the next token starts.
    pub fn position(&self) -> (r: Position)
        ensures
            r == position_at(self.tokens@, self.pos as int),
    {
        if self.pos < self.tokens.len() {
            self.tokens[self.pos].start
        } else if self.tokens.len() > 0 {
            self.tokens[self.tokens.len() - 1].end
        } else {
            Position::new(1, 1, 0)
        }
    }

    /// The next token, without consuming it.
    pub fn peek(&self) -> (r: Option<&Token>)
        ensures
            match r {
                Some(t) => self.pos < self.tokens@.len() && *t == self.tokens@[self.pos as int],
                None => self.pos >= self.tokens@.len(),
            },
    {
        if self.pos < self.tokens.len() {
            Some(&self.tokens[self.pos])
        } else {
            None
        }
    }

    /// Consumes the next token, trivia included.
    pub fn read_token(&mut self) -> (r: Option<Token>)
        requires
            old(self).wf(),
        ensures
            final(self).wf(),
            final(self).moved(old(self)),
            match r {
                Some(t) => old(self).pos < old(self).tokens@.len() && t == old(self).tokens@[old(
                    self,
                ).pos as int] && final(self).pos == old(self).pos + 1,
                None => old(self).pos >= old(self).tokens@.len() && final(self).pos == old(self).pos,
            },
    {
        if self.pos < self.tokens.len() {
            let t = self.tokens[self.pos].clone();
            self.pos = self.pos + 1;
            Some(t)
        } else {
            None
        }
    }

    /// Steps back over the last token consumed.
    pub fn unread_token(&mut self)
        requires
            old(self).wf(),
            old(self).pos > 0,
            forall|i: int| 0 <= i < old(self).marks@.len() ==> old(self).marks@[i] < old(self).pos,
        ensures
            final(self).wf(),
            final(self).moved(old(self)),
            final(self).pos == old(self).pos - 1,
    {
        self.pos = self.pos - 1;
    }

    /// Consumes whitespace and comments.
    pub fn skip_trivia(&mut self)
        requires
            old(self).wf(),
        ensures
            final(self).wf(),
            final(self).moved(old(self)),
            final(self).pos == next_lexical(old(self).tokens@, old(self).pos as int),
    {
        proof { lemma_next_lexical(self.tokens@, self.pos as int); }
        while self.pos < self.tokens.len() && self.tokens[self.pos].is_trivia()
            invariant
                self.wf(),
                self.moved(old(self)),
                old(self).pos <= self.pos,
                next_lexical(old(self).tokens@, old(self).pos as int) == next_lexical(
                    self.tokens@,
                    self.pos as int,
                ),
            decreases self.tokens@.len() - self.pos,
        {
            self.pos = self.pos + 1;
        }
    }

    /// The index of the next token that is not trivia.
    fn lexical_index(&self) -> (r: usize)
        requires
            self.wf(),
        ensures
            r == next_lexical(self.tokens@, self.pos as int),
            self.pos <= r <= self.tokens@.len(),
    {
        proof { lemma_next_lexical(self.tokens@, self.pos as int); }
        let mut q = self.pos;
        while q < self.tokens.len() && self.tokens[q].is_trivia()
            invariant
                self.pos <= q <= self.tokens@.len(),
                next_lexical(self.tokens@, self.pos as int) == next_lexical(self.tokens@, q as int),
            decreases self.tokens@.len() - q,
        {
            q = q + 1;
        }
        q
    }

    /// Consumes trivia and then the symbol `s`, if the next lexical token is that
    /// symbol; otherwise consumes nothing.
    pub fn try_read_symbol(&mut self, s: &str) -> (r: Option<Token>)
        requires
            old(self).wf(),
        ensures
            final(self).wf(),
            final(self).moved(old(self)),
            old(self).pos <= final(self).pos,
            r is None ==> final(self).pos == old(self).pos,
            ({
                let q = next_lexical(old(self).tokens@, old(self).pos as int);
                match r {
                    Some(t) => q < old(self).tokens@.len() && t == old(self).tokens@[q]
                        && is_symbol(t@, s@) && final(self).pos == q + 1,
                    None => !(q < old(self).tokens@.len() && is_symbol(
                        old(self).tokens@[q]@,
                        s@,
                    )) && final(self).pos == old(self).pos,
                }
            }),
    {
        let q = self.lexical_index();
        if q < self.tokens.len() && self.tokens[q].is_symbol(s) {
            let t = self.tokens[q].clone();
            self.pos = q + 1;
            Some(t)
        } else {
            None
        }
    }

    /// Consumes trivia and then the symbol `s`; fails with a syntax error at the
    /// next lexical token if that is not `s`.
    pub fn read_symbol(&mut self, s: &str) -> (r: Result<Token, PpError>)
        requires
            old(self).wf(),
        ensures
            final(self).wf(),
            final(self).moved(old(self)),
            old(self).pos <= final(self).pos,
            r is Err ==> final(self).pos == old(self).pos,
            ({
                let q = next_lexical(old(self).tokens@, old(self).pos as int);
                match r {
                    Ok(t) => q < old(self).tokens@.len() && t == old(self).tokens@[q] && is_symbol(
                        t@,
                        s@,
                    ) && final(self).pos == q + 1,
                    Err(e) => !(q < old(self).tokens@.len() && is_symbol(
                        old(self).tokens@[q]@,
                        s@,
                    )) && e == (PpError {
                        kind: ErrorKind::SyntaxError,
                        position: position_at(old(self).tokens@, q),
                    }),
                }
            }),
    {
        match self.try_read_symbol(s) {
            Some(t) => Ok(t),
            None => {
                let q = self.lexical_index();
                let at = if q < self.tokens.len() {
                    self.tokens[q].start
                } else {
                    self.position_end()
                };
                Err(PpError::new(ErrorKind::SyntaxError, at))
            },
        }
    }

    fn position_end(&self) -> (r: Position)
        ensures
            r == position_at(self.tokens@, self.tokens@.len() as int),
    {
        if self.tokens.len() > 0 {
            self.tokens[self.tokens.len() - 1].end
        } else {
            Position::new(1, 1, 0)
        }
    }

    /// Consumes trivia and then a token of class `kind`; fails with a syntax
    /// error at the next lexical token if that is of another class.
    pub fn read_kind(&mut self, kind: TokenKind) -> (r: Result<Token, PpError>)
        requires
            old(self).wf(),
        ensures
            final(self).wf(),
            final(self).moved(old(self)),
            old(self).pos <= final(self).pos,
            r is Err ==> final(self).pos == old(self).pos,
            ({
                let q = next_lexical(old(self).tokens@, old(self).pos as int);
                match r {
                    Ok(t) => q < old(self).tokens@.len() && t == old(self).tokens@[q] && t.kind
                        == kind && final(self).pos == q + 1,
                    Err(e) => !(q < old(self).tokens@.len() && old(self).tokens@[q].kind == kind)
                        && e == (PpError {
                        kind: ErrorKind::SyntaxError,
                        position: position_at(old(self).tokens@, q),
                    }),
                }
            }),
    {
        let q = self.lexical_index();
        if q < self.tokens.len() && self.tokens[q].kind == kind {
            let t = self.tokens[q].clone();
            self.pos = q + 1;
            Ok(t)
        } else {
            let at = if q < self.tokens.len() {
                self.tokens[q].start
            } else {
                self.position_end()
            };
            Err(PpError::new(ErrorKind::SyntaxError, at))
        }
    }

    /// Consumes trivia and then an atom, keyword or variable; fails with a syntax
    /// error at the next lexical token if that is none of these.
    pub fn read_name(&mut self) -> (r: Result<Token, PpError>)
        requires
            old(self).wf(),
        ensures
            final(self).wf(),
            final(self).moved(old(self)),
            old(self).pos <= final(self).pos,
            r is Err ==> final(self).pos == old(self).pos,
            ({
                let q = next_lexical(old(self).tokens@, old(self).pos as int);
                match r {
                    Ok(t) => q < old(self).tokens@.len() && t == old(self).tokens@[q]
                        && is_name_kind(t.kind) && final(self).pos == q + 1,
                    Err(e) => !(q < old(self).tokens@.len() && is_name_kind(
                        old(self).tokens@[q].kind,
                    )) && e == (PpError {
                        kind: ErrorKind::SyntaxError,
                        position: position_at(old(self).tokens@, q),
                    }),
                }
            }),
    {
        let q = self.lexical_index();
        if q < self.tokens.len() && self.tokens[q].is_name() {
            let t = self.tokens[q].clone();
            self.pos = q + 1;
            Ok(t)
        } else {
            let at = if q < self.tokens.len() {
                self.tokens[q].start
            } else {
                self.position_end()
            };
            Err(PpError::new(ErrorKind::SyntaxError, at))
        }
    }

    /// Opens a transaction at the cursor.
    pub fn start_transaction(&mut self)
        requires
            old(self).wf(),
        ensures
            final(self).wf(),
            final(self).tokens@ == old(self).tokens@,
            final(self).pos == old(self).pos,
            final(self).marks@ == old(self).marks@.push(old(self).pos),
    {
        self.marks.push(self.pos);
    }

    /// Closes the innermost transaction and moves the cursor back to where it
    /// began, as if nothing had been read since.
    pub fn abort_transaction(&mut self)
        requires
            old(self).wf(),
            old(self).marks@.len() > 0,
        ensures
            final(self).wf(),
            final(self).tokens@ == old(self).tokens@,
            final(self).pos == old(self).marks@.last(),
            final(self).marks@ == old(self).marks@.drop_last(),
    {
        let m = self.marks.pop().unwrap();
        self.pos = m;
    }

    /// Closes the innermost transaction, keeping what was read, and returns the
    /// tokens read since it began.
    pub fn commit_transaction(&mut self) -> (r: Vec<Token>)
        requires
            old(self).wf(),
            old(self).marks@.len() > 0,
        ensures
            final(self).wf(),
            final(self).tokens@ == old(self).tokens@,
            final(self).pos == old(self).pos,
            final(self).marks@ == old(self).marks@.drop_last(),
            r@ == old(self).tokens@.subrange(old(self).marks@.last() as int, old(self).pos as int),
    {
        let m = self.marks.pop().unwrap();
        assert(m <= self.pos) by {
            assert(old(self).marks@[old(self).marks@.len() - 1] <= old(self).pos);
        }
        clone_tokens(&self.tokens.as_slice()[m..self.pos])
    }

    /// Places `ts` at the cursor, so that they are read next.
    pub fn insert_tokens(&mut self, ts: &[Token])
        requires
            old(self).wf(),
        ensures
            final(self).wf(),
            final(self).marks@ == old(self).marks@,
            final(self).pos == old(self).pos,
            final(self).tokens@ == old(self).tokens@.subrange(0, old(self).pos as int) + ts@
                + old(self).tokens@.subrange(old(self).pos as int, old(self).tokens@.len() as int),
    {
        let mut rest = self.tokens.split_off(self.pos);
        push_tokens(&mut self.tokens, ts);
        self.tokens.append(&mut rest);
    }

    /// Drops the tokens already read and places `ts` before the rest, so that
    /// they are read next. No transaction may be open.
    pub fn push_front(&mut self, ts: Vec<Token>)
        requires
            old(self).wf(),
            old(self).marks@.len() == 0,
        ensures
            final(self).wf(),
            final(self).marks@.len() == 0,
            final(self).pos == 0,
            final(self).tokens@ == ts@ + old(self).tokens@.subrange(
                old(self).pos as int,
                old(self).tokens@.len() as int,
            ),
    {
        let mut front = ts;
        let mut rest = self.tokens.split_off(self.pos);
        front.append(&mut rest);
        self.tokens = front;
        self.pos = 0;
    }
}

} // verus!
