use vstd::prelude::*;
use crate::cond::{all_active, flip_last, CondFrame, CondStack};
use crate::directives::{lemma_keywords_distinct, read_as, arg_views, define_read, message_read, opt_seq, paren_item, shape_fails, read_directive, starts_directive, Define, Directive, Warning};
use crate::error::{ErrorKind, PpError};
use crate::macros::MacroTable;
use crate::path::{lib_resolves, literal_target};
use crate::reader::{next_lexical, TokenReader};
use crate::token::{is_name_kind, is_symbol, is_trivia_kind, views, Token, TokenView};

verus! {

/// What the preprocessor hands out at each step.
#[derive(Debug)]
pub enum Event {
    /// A token of the output.
    Token(Token),
    /// A file to be read in place of an include directive: its tokens are to be
    /// handed back with `insert_tokens` before the next step.
    Include(String),
    /// A `warning` directive in kept text.
    Warning(Warning),
}

/// The driver: pulls tokens from the reader, recognises directives at the
/// start of each statement, keeps or suppresses text by the open conditionals,
/// and expands macro invocations.
pub struct Preprocessor {
    pub reader: TokenReader,
    /// Whether the next lexical token begins a statement: true at the start and
    /// after a dot.
    pub can_directive_start: bool,
    pub macros: MacroTable,
    pub conds: CondStack,
    /// Directories searched by `include_lib`, in order.
    pub code_paths: Vec<String>,
    /// Values of the `$NAME` variables of include paths; the first of a name wins.
    pub path_vars: Vec<(String, String)>,
    /// How many more expansions the current chain may make. A chain is a run
    /// of expansions each made while reading the output of the one before.
    pub expansions_left: usize,
    /// The tokens before this index that are not yet read are the output of
    /// the current chain of expansions.
    pub chain_end: usize,
    /// Set once the end of the input or an error has been reached.
    pub finished: bool,
}

/// `after` is `before` with `x` entered as the definition named by `name`,
/// with parameters `vars` and replacement `repl`.
pub open spec fn defines_as(
    x: Define,
    name: Token,
    vars: Option<Seq<Token>>,
    repl: Seq<Token>,
    before: Map<Seq<char>, Define>,
    after: Map<Seq<char>, Define>,
) -> bool {
    &&& x.name == name
    &&& opt_seq(x.variables) == vars
    &&& x.replacement@ == repl
    &&& after == before.insert(name.text@, x)
}

/// What a step does when the cursor, at the start of a statement, is at a
/// hyphen and a directive keyword: a malformed directive is a syntax error;
/// otherwise the directive is consumed, none of its tokens is handed out, and
/// it takes its effect. Conditionals are tracked in suppressed text too; every
/// other directive acts only in kept text.
pub open spec fn directive_step(o: Preprocessor, n: Preprocessor, r: Result<Step, PpError>) -> bool {
    let ts = o.reader.tokens@;
    let p = o.reader.pos as int;
    let k = next_lexical(ts, p + 1);
    let kw = ts[k].text@;
    let active = all_active(o.conds@);
    if shape_fails(ts, k) {
        r matches Err(e) && e.kind == ErrorKind::SyntaxError
    } else {
        &&& n.reader.tokens@ == ts
        &&& n.expansions_left == o.expansions_left
        &&& n.chain_end == o.chain_end
        &&& n.can_directive_start
        &&& if kw == "include_lib"@.subrange(0, 7) || kw == "include_lib"@ {
            let m = paren_item(ts, k + 1, true).unwrap().0;
            &&& n.reader.pos == paren_item(ts, k + 1, true).unwrap().1
            &&& n.macros@ == o.macros@
            &&& n.conds@ == o.conds@
            &&& if !active {
                r matches Ok(Step::Skip)
            } else if kw == "include_lib"@.subrange(0, 7) {
                match literal_target(ts[m].text@, o.path_vars@) {
                    Ok(x) => r matches Ok(Step::Out(Event::Include(q))) && q@ == x,
                    Err(kd) => r matches Err(er) && er.kind == kd,
                }
            } else {
                match r {
                    Ok(Step::Out(Event::Include(q))) => lib_resolves(
                        ts[m].text@,
                        o.path_vars@,
                        o.code_paths@.len(),
                        ts[m].start,
                        Ok(q@),
                    ),
                    Ok(_) => false,
                    Err(er) => lib_resolves(
                        ts[m].text@,
                        o.path_vars@,
                        o.code_paths@.len(),
                        ts[m].start,
                        Err(er),
                    ),
                }
            }
        } else if kw == "undef"@ || kw == "ifdef"@ || kw == "ifndef"@ {
            let m = paren_item(ts, k + 1, false).unwrap().0;
            let name = ts[m].text@;
            &&& r matches Ok(Step::Skip)
            &&& n.reader.pos == paren_item(ts, k + 1, false).unwrap().1
            &&& if kw == "undef"@ {
                n.conds@ == o.conds@ && n.macros@ == if active {
                    o.macros@.remove(name)
                } else {
                    o.macros@
                }
            } else if kw == "ifdef"@ {
                n.macros@ == o.macros@ && n.conds@ == o.conds@.push(
                    CondFrame { taken: o.macros@.contains_key(name), in_else: false },
                )
            } else {
                n.macros@ == o.macros@ && n.conds@ == o.conds@.push(
                    CondFrame { taken: !o.macros@.contains_key(name), in_else: false },
                )
            }
        } else if kw == "else"@ || kw == "endif"@ {
            &&& n.reader.pos == next_lexical(ts, k + 1) + 1
            &&& n.macros@ == o.macros@
            &&& if o.conds@.len() == 0 {
                r matches Err(e) && e.kind == ErrorKind::StructuralError
            } else {
                r matches Ok(Step::Skip) && n.conds@ == if kw == "else"@ {
                    flip_last(o.conds@)
                } else {
                    o.conds@.drop_last()
                }
            }
        } else if kw == "define"@ {
            let m = define_read(ts, k + 1).unwrap().0;
            &&& r matches Ok(Step::Skip)
            &&& n.reader.pos == define_read(ts, k + 1).unwrap().3
            &&& n.conds@ == o.conds@
            &&& if active {
                exists|x: Define| #[trigger]
                    defines_as(
                        x,
                        ts[m],
                        define_read(ts, k + 1).unwrap().1,
                        define_read(ts, k + 1).unwrap().2,
                        o.macros@,
                        n.macros@,
                    )
            } else {
                n.macros@ == o.macros@
            }
        } else {
            &&& n.macros@ == o.macros@
            &&& n.conds@ == o.conds@
            &&& if !active {
                r matches Ok(Step::Skip)
            } else if kw == "error"@ {
                r matches Err(er) && er == (PpError {
                    kind: ErrorKind::ErrorDirective,
                    position: ts[p].start,
                })
            } else {
                r matches Ok(Step::Out(Event::Warning(w))) && message_read(
                    ts,
                    k + 1,
                    w.message@,
                    n.reader.pos as int,
                )
            }
        }
    }
}

/// The effect of carrying out directive `d` on state `o`, giving state `n`
/// and result `r`.
pub open spec fn applied(o: Preprocessor, n: Preprocessor, d: Directive, r: Result<Option<Event>, PpError>) -> bool {
    &&& (!all_active(o.conds@) ==> n.macros@ == o.macros@)
    &&& (d is Error && all_active(o.conds@) && d->Error_0.tokens@.len() > 0 ==> (r matches Err(e)
            && e == (PpError { kind: ErrorKind::ErrorDirective, position: d->Error_0.tokens@[0].start })))
    &&& (d is Warning && all_active(o.conds@) ==> (r matches Ok(Some(Event::Warning(w)))
            && w.message == d->Warning_0.message))
    &&& (d is Define ==> n.macros@ == if all_active(o.conds@) {
            o.macros@.insert(d->Define_0.name.text@, d->Define_0)
        } else {
            o.macros@
        })
    &&& (d is Undef ==> n.macros@ == if all_active(o.conds@) {
            o.macros@.remove(d->Undef_0.name.text@)
        } else {
            o.macros@
        })
    &&& (d is Ifdef ==> (r matches Ok(None)) && n.conds@ == o.conds@.push(
            CondFrame {
                taken: o.macros@.contains_key(d->Ifdef_0.name.text@),
                in_else: false,
            },
        ))
    &&& (d is Ifndef ==> (r matches Ok(None)) && n.conds@ == o.conds@.push(
            CondFrame {
                taken: !o.macros@.contains_key(d->Ifndef_0.name.text@),
                in_else: false,
            },
        ))
    &&& (d is Else ==> if o.conds@.len() == 0 {
            r matches Err(e) && e.kind == ErrorKind::StructuralError
        } else {
            (r matches Ok(None)) && n.conds@ == flip_last(o.conds@)
        })
    &&& (d is Endif ==> if o.conds@.len() == 0 {
            r matches Err(e) && e.kind == ErrorKind::StructuralError
        } else {
            (r matches Ok(None)) && n.conds@ == o.conds@.drop_last()
        })
    &&& (!(d is Ifdef || d is Ifndef || d is Else || d is Endif) ==> n.conds@ == o.conds@)
    &&& ((d is Define || d is Undef) ==> r matches Ok(None))
    &&& (!(d is Define || d is Undef) ==> n.macros@ == o.macros@)
    &&& (d is Error ==> if all_active(o.conds@) {
            r matches Err(e) && e.kind == ErrorKind::ErrorDirective
        } else {
            r matches Ok(None)
        })
    &&& (d is Warning ==> if all_active(o.conds@) {
            r matches Ok(Some(Event::Warning(_)))
        } else {
            r matches Ok(None)
        })
    &&& ((d is Include || d is IncludeLib) && !all_active(o.conds@) ==> r matches Ok(None))
    &&& (d is Include && all_active(o.conds@) ==> match r {
            Ok(Some(Event::Include(p))) => literal_target(
                d->Include_0.path.text@,
                o.path_vars@,
            ) == Ok::<Seq<char>, ErrorKind>(p@),
            Ok(_) => false,
            Err(e) => literal_target(d->Include_0.path.text@, o.path_vars@) == Err::<
                Seq<char>,
                ErrorKind,
            >(e.kind),
        })
    &&& (d is IncludeLib && all_active(o.conds@) ==> match r {
        Ok(Some(Event::Include(p))) => lib_resolves(
            d->IncludeLib_0.path.text@,
            o.path_vars@,
            o.code_paths@.len(),
            d->IncludeLib_0.path.start,
            Ok(p@),
        ),
        Ok(_) => false,
        Err(e) => lib_resolves(
            d->IncludeLib_0.path.text@,
            o.path_vars@,
            o.code_paths@.len(),
            d->IncludeLib_0.path.start,
            Err(e),
        ),
    })
}

/// The step's result for the result of carrying out a directive.
pub open spec fn step_of(r: Result<Option<Event>, PpError>) -> Result<Step, PpError> {
    match r {
        Err(e) => Err(e),
        Ok(Some(ev)) => Ok(Step::Out(ev)),
        Ok(None) => Ok(Step::Skip),
    }
}

/// A directive read at the cursor and carried out gives the step that
/// `directive_step` describes.
#[verifier::rlimit(50)]
proof fn lemma_directive_step(
    o: Preprocessor,
    mid: Preprocessor,
    n: Preprocessor,
    d: Directive,
    res: Result<Option<Event>, PpError>,
)
    requires
        o.can_directive_start,
        starts_directive(o.reader.tokens@, o.reader.pos as int),
        d.keyword() == o.reader.tokens@[next_lexical(o.reader.tokens@, o.reader.pos as int + 1)].text@,
        read_as(d, o.reader.tokens@, next_lexical(o.reader.tokens@, o.reader.pos as int + 1), mid.reader.pos as int),
        d.spec_tokens() == o.reader.tokens@.subrange(o.reader.pos as int, mid.reader.pos as int),
        o.reader.pos < mid.reader.pos <= mid.reader.tokens@.len(),
        mid.reader.tokens@ == o.reader.tokens@,
        mid.macros@ == o.macros@,
        mid.conds@ == o.conds@,
        mid.path_vars == o.path_vars,
        mid.code_paths == o.code_paths,
        mid.expansions_left == o.expansions_left,
        mid.chain_end == o.chain_end,
        mid.can_directive_start,
        n.reader == mid.reader,
        n.expansions_left == mid.expansions_left,
        n.chain_end == mid.chain_end,
        n.can_directive_start == mid.can_directive_start,
        applied(mid, n, d, res),
    ensures
        directive_step(o, n, step_of(res)),
{
    let ts = o.reader.tokens@;
    let p = o.reader.pos as int;
    let k = next_lexical(ts, p + 1);
    lemma_keywords_distinct();
    assert(d.spec_tokens()[0] == ts[p]);
    match d {
        Directive::Define(x) => {
            assert(!shape_fails(ts, k));
            let dr = define_read(ts, k + 1).unwrap();
            assert(x.name == ts[dr.0]);
            assert(n.reader.pos == dr.3);
            assert(n.conds@ == o.conds@);
            assert(step_of(res) matches Ok(Step::Skip));
            if all_active(o.conds@) {
                assert(n.macros@ == o.macros@.insert(ts[dr.0].text@, x));
                assert(opt_seq(x.variables) == dr.1 && x.replacement@ == dr.2);
                assert(defines_as(x, ts[dr.0], dr.1, dr.2, o.macros@, n.macros@));
            } else {
                assert(n.macros@ == o.macros@);
            }
            assert(directive_step(o, n, step_of(res)));
        },
        _ => {
            assert(!shape_fails(ts, k));
            assert(directive_step(o, n, step_of(res)));
        },
    }
}

/// What one step does: from state `o` it reaches state `n` with result `r`.
pub open spec fn step_rel(o: Preprocessor, n: Preprocessor, r: Result<Step, PpError>) -> bool {
    &&& (n.finished == o.finished)
    &&& (r matches Ok(Step::Out(_)) ==> n.advanced(&o))
    &&& (r matches Ok(Step::Skip) ==> n.progressed(&o))
    &&& (r matches Ok(Step::Done) ==> o.reader.pos >= o.reader.tokens@.len()
            && o.conds@.len() == 0)
    &&& (o.can_directive_start && starts_directive(
            o.reader.tokens@,
            o.reader.pos as int,
        ) ==> directive_step(o, n, r))
    &&& (({
            let ts = o.reader.tokens@;
            let p = o.reader.pos as int;
            (p < ts.len() && !all_active(o.conds@) && !(o.can_directive_start
                && starts_directive(ts, p))) ==> (r
                matches Ok(Step::Skip) && n.advanced(&o) && n.reader.pos
                == p + 1 && n.macros@ == o.macros@ && n.conds@ == o.conds@)
        }))
    &&& (!all_active(o.conds@) ==> n.macros@ == o.macros@)
    &&& (({
            let ts = o.reader.tokens@;
            let p = o.reader.pos as int;
            &&& (p >= ts.len() && o.conds@.len() > 0) ==> (r matches Err(e) && e.kind
                == ErrorKind::StructuralError)
            &&& (p >= ts.len() && o.conds@.len() == 0) ==> r matches Ok(Step::Done)
        }))
    &&& (o.passes_through() ==> (r matches Ok(Step::Out(Event::Token(t))) && t
            == o.reader.tokens@[o.reader.pos as int]) && n.advanced(
            &o,
        ) && n.reader.pos == o.reader.pos + 1 && n.macros@ == o.macros@ && n.conds@ == o.conds@ && n.can_directive_start
            == if is_trivia_kind(o.reader.tokens@[o.reader.pos as int].kind) {
            o.can_directive_start
        } else {
            is_symbol(o.reader.tokens@[o.reader.pos as int]@, "."@)
        })
    &&& (o.expands_object_macro() && o.budget_ok() ==> ({
            let ts = o.reader.tokens@;
            let p = o.reader.pos as int;
            let repl = o.macros@[ts[p].text@].replacement@;
            &&& r matches Ok(Step::Skip)
            &&& views(n.reader.tokens@) == views(repl + ts.subrange(
                p + 1,
                ts.len() as int,
            ))
            &&& n.reader.pos == 0
            &&& n.expanded_from(o, o.reader.pos + 1, repl.len() as int)
            &&& n.macros@ == o.macros@
            &&& n.conds@ == o.conds@
        }))
    &&& (o.arity_mismatch_at() ==> (r matches Err(e) && e == (PpError {
            kind: ErrorKind::ArityMismatch,
            position: o.reader.tokens@[o.reader.pos as int].start,
        })))
    &&& (o.invokes_macro() && !o.budget_ok() ==> (r matches Err(e) && e
            == (PpError {
            kind: ErrorKind::InvalidInput,
            position: o.reader.tokens@[o.reader.pos as int].start,
        })))
    &&& (o.unclosed_call() ==> (r matches Err(e) && e.kind == ErrorKind::SyntaxError))
    &&& (o.expands_call() ==> match o.call_at() {
            Some((Err(x), _)) => r matches Err(e) && e == x,
            Some((Ok(x), e)) => {
                &&& r matches Ok(Step::Skip)
                &&& views(n.reader.tokens@) == x + views(o.reader.tokens@.subrange(
                    e,
                    o.reader.tokens@.len() as int,
                ))
                &&& n.reader.pos == 0
                &&& n.expanded_from(o, e, x.len() as int)
                &&& n.macros@ == o.macros@
                &&& n.conds@ == o.conds@
            },
            _ => false,
        })
}

/// `chain` runs from `a` to `b` by steps that each consumed input or spent an
/// expansion, handing nothing out.
pub open spec fn skip_chain(chain: Seq<Preprocessor>, a: Preprocessor, b: Preprocessor) -> bool {
    &&& chain.len() >= 1
    &&& chain[0] == a
    &&& chain.last() == b
    &&& forall|i: int|
        0 <= i < chain.len() - 1 ==> step_rel(#[trigger] chain[i], chain[i + 1], Ok(Step::Skip))
}

/// What a pull hands out for the step that ended it.
pub open spec fn pull_result(s: Result<Step, PpError>) -> Result<Option<Event>, PpError> {
    match s {
        Err(e) => Err(e),
        Ok(Step::Out(ev)) => Ok(Some(ev)),
        _ => Ok(None),
    }
}

/// `n` is `m` itself after a step that handed something out, and `m` marked
/// finished after the end of the input or an error.
pub open spec fn settles(m: Preprocessor, n: Preprocessor, s: Result<Step, PpError>) -> bool {
    &&& n.reader == m.reader
    &&& n.can_directive_start == m.can_directive_start
    &&& n.macros == m.macros
    &&& n.conds == m.conds
    &&& n.code_paths == m.code_paths
    &&& n.path_vars == m.path_vars
    &&& n.expansions_left == m.expansions_left
    &&& n.chain_end == m.chain_end
    &&& n.finished == (m.finished || !(s matches Ok(Step::Out(_))))
}

/// A pull from `o`: steps that hand nothing out, then one that hands out an
/// event, reaches the end, or fails; `n` is the state after it and `r` what
/// the pull returns.
pub open spec fn pulled(o: Preprocessor, n: Preprocessor, r: Result<Option<Event>, PpError>) -> bool {
    exists|chain: Seq<Preprocessor>, b: Preprocessor, m: Preprocessor, s: Result<Step, PpError>|
        #![trigger skip_chain(chain, o, b), step_rel(b, m, s)]
        skip_chain(chain, o, b) && step_rel(b, m, s) && !(s matches Ok(Step::Skip)) && r
            == pull_result(s) && settles(m, n, s)
}

impl Preprocessor {
    pub open spec fn wf(&self) -> bool {
        &&& self.reader.wf()
        &&& self.reader.marks@.len() == 0
        &&& self.chain_end <= self.reader.tokens@.len()
    }

    /// The cursor is inside the output of the current chain of expansions.
    pub open spec fn in_chain(&self) -> bool {
        self.reader.pos < self.chain_end
    }

    /// An expansion may be made here: outside a chain always, inside one while
    /// its budget lasts.
    pub open spec fn budget_ok(&self) -> bool {
        !self.in_chain() || self.expansions_left > 0
    }

    /// How many tokens are still to be read that no expansion made.
    pub open spec fn fresh(&self) -> int {
        self.reader.tokens@.len() - if self.chain_end > self.reader.pos {
            self.chain_end as int
        } else {
            self.reader.pos as int
        }
    }

    /// After an expansion that ended at index `e` of `o`'s tokens and made
    /// `len_out` tokens: the budget of the chain and where its output ends.
    pub open spec fn expanded_from(&self, o: Preprocessor, e: int, len_out: int) -> bool {
        &&& self.expansions_left == if o.in_chain() {
            o.expansions_left - 1
        } else {
            EXPANSION_LIMIT - 1
        }
        &&& self.chain_end == len_out + if o.chain_end > e {
            o.chain_end - e
        } else {
            0
        }
    }

    /// The next token, in kept text, is neither a directive's start nor a
    /// defined macro's name: it is handed out as it is.
    pub open spec fn passes_through(&self) -> bool {
        let ts = self.reader.tokens@;
        let p = self.reader.pos as int;
        &&& !self.finished
        &&& p < ts.len()
        &&& all_active(self.conds@)
        &&& !(self.can_directive_start && starts_directive(ts, p))
        &&& !(is_name_kind(ts[p].kind) && self.macros@.contains_key(ts[p].text@))
    }

    /// The next token, in kept text and not the start of a directive, is the
    /// name of a defined macro.
    pub open spec fn invokes_macro(&self) -> bool {
        let ts = self.reader.tokens@;
        let p = self.reader.pos as int;
        &&& !self.finished
        &&& p < ts.len()
        &&& all_active(self.conds@)
        &&& !(self.can_directive_start && starts_directive(ts, p))
        &&& is_name_kind(ts[p].kind)
        &&& self.macros@.contains_key(ts[p].text@)
    }

    /// The next token, in kept text, is the name of a defined macro without
    /// parameters.
    pub open spec fn expands_object_macro(&self) -> bool {
        let ts = self.reader.tokens@;
        let p = self.reader.pos as int;
        &&& self.invokes_macro()
        &&& self.macros@[ts[p].text@].variables is None
    }

    /// The next token invokes a defined macro with parameters, and an opening
    /// parenthesis follows it, but its argument list never closes.
    pub open spec fn unclosed_call(&self) -> bool {
        let ts = self.reader.tokens@;
        let p = self.reader.pos as int;
        let q = next_lexical(ts, p + 1);
        &&& self.invokes_macro()
        &&& self.macros@[ts[p].text@].variables is Some
        &&& self.budget_ok()
        &&& q < ts.len()
        &&& is_symbol(ts[q]@, "("@)
        &&& args_from(ts, q + 1, 0, Seq::empty(), Seq::empty()) is None
    }

    /// For an invocation at the cursor, of a macro with parameters, followed by
    /// an argument list with one argument per parameter: what it expands to,
    /// and the index after the list.
    pub open spec fn call_at(&self) -> Option<(Result<Seq<TokenView>, PpError>, int)> {
        let ts = self.reader.tokens@;
        let p = self.reader.pos as int;
        let d = self.macros@[ts[p].text@];
        let q = next_lexical(ts, p + 1);
        if q < ts.len() && is_symbol(ts[q]@, "("@) {
            match args_from(ts, q + 1, 0, Seq::empty(), Seq::empty()) {
                Some((gs, e)) => if d.params() is Some && gs.len() == d.params().unwrap().len() {
                    Some((d.expansion(gs.map_values(|g: Seq<Token>| views(g))), e))
                } else {
                    None
                },
                None => None,
            }
        } else {
            None
        }
    }

    /// The next token, in kept text, invokes a defined macro with parameters,
    /// with an argument list of one argument per parameter.
    pub open spec fn expands_call(&self) -> bool {
        let ts = self.reader.tokens@;
        let p = self.reader.pos as int;
        &&& self.invokes_macro()
        &&& self.macros@[ts[p].text@].variables is Some
        &&& self.budget_ok()
        &&& self.call_at() is Some
    }

    /// The next token, in kept text, invokes a defined macro with parameters
    /// without an argument list, or with one whose number of arguments differs
    /// from the number of parameters.
    pub open spec fn arity_mismatch_at(&self) -> bool {
        let ts = self.reader.tokens@;
        let p = self.reader.pos as int;
        let d = self.macros@[ts[p].text@];
        let q = next_lexical(ts, p + 1);
        &&& !self.finished
        &&& p < ts.len()
        &&& all_active(self.conds@)
        &&& !(self.can_directive_start && starts_directive(ts, p))
        &&& is_name_kind(ts[p].kind)
        &&& self.macros@.contains_key(ts[p].text@)
        &&& d.variables is Some
        &&& self.budget_ok()
        &&& (!(q < ts.len() && is_symbol(ts[q]@, "("@)) || (args_from(
            ts,
            q + 1,
            0,
            Seq::empty(),
            Seq::empty(),
        ) matches Some((gs, _)) && gs.len() != d.params().unwrap().len()))
    }

    /// The reader moved forward over the same tokens, with no expansion.
    pub open spec fn advanced(&self, old: &Preprocessor) -> bool {
        &&& self.reader.tokens@ == old.reader.tokens@
        &&& self.reader.pos > old.reader.pos
        &&& self.expansions_left == old.expansions_left
        &&& self.chain_end == old.chain_end
    }

    /// The step read fresh input, spent the budget of a chain, or moved
    /// forward without an expansion.
    pub open spec fn progressed(&self, old: &Preprocessor) -> bool {
        ||| self.fresh() < old.fresh()
        ||| self.fresh() == old.fresh() && self.expansions_left < old.expansions_left
        ||| self.advanced(old)
    }

    pub fn new(tokens: Vec<Token>) -> (r: Preprocessor)
        ensures
            r.wf(),
            r.reader.tokens@ == tokens@,
            r.reader.pos == 0,
            r.can_directive_start,
            r.macros@ == Map::<Seq<char>, Define>::empty(),
            r.conds@.len() == 0,
            r.expansions_left == EXPANSION_LIMIT,
            r.chain_end == 0,
            !r.finished,
    {
        Preprocessor {
            reader: TokenReader::new(tokens),
            can_directive_start: true,
            macros: MacroTable::new(),
            conds: CondStack::new(),
            code_paths: Vec::new(),
            path_vars: Vec::new(),
            expansions_left: EXPANSION_LIMIT,
            chain_end: 0,
            finished: false,
        }
    }

    /// Adds a directory under which `include_lib` looks for applications.
    pub fn add_code_path(&mut self, dir: String)
        ensures
            final(self).code_paths@ == old(self).code_paths@.push(dir),
    {
        self.code_paths.push(dir);
    }

    /// Gives a value to the path variable `name`, for `$name` in include paths.
    pub fn set_path_variable(&mut self, name: String, value: String)
        ensures
            final(self).path_vars@ == seq![(name, value)] + old(self).path_vars@,
    {
        self.path_vars.insert(0, (name, value));
    }

    /// Places the tokens of an included file where the directive stood.
    pub fn insert_tokens(&mut self, ts: &[Token])
        requires
            old(self).wf(),
        ensures
            final(self).wf(),
            final(self).reader.pos == old(self).reader.pos,
            final(self).chain_end == old(self).reader.pos,
            final(self).reader.tokens@ == old(self).reader.tokens@.subrange(
                0,
                old(self).reader.pos as int,
            ) + ts@ + old(self).reader.tokens@.subrange(
                old(self).reader.pos as int,
                old(self).reader.tokens@.len() as int,
            ),
    {
        self.reader.insert_tokens(ts);
        self.chain_end = self.reader.pos;
    }

    /// Carries out a directive that was just read. Conditionals are tracked in
    /// suppressed text too; every other directive takes effect only in kept text.
    fn apply(&mut self, d: Directive) -> (r: Result<Option<Event>, PpError>)
        requires
            old(self).wf(),
        ensures
            final(self).wf(),
            final(self).reader == old(self).reader,
            final(self).finished == old(self).finished,
            final(self).expansions_left == old(self).expansions_left,
            final(self).chain_end == old(self).chain_end,
            final(self).can_directive_start == old(self).can_directive_start,
            applied(*old(self), *final(self), d, r),
    {
        let active = self.conds.is_active();
        match d {
            Directive::Ifdef(x) => {
                let defined = self.macros.is_defined(x.name.text.as_str());
                self.conds.push_ifdef(defined);
                Ok(None)
            },
            Directive::Ifndef(x) => {
                let defined = self.macros.is_defined(x.name.text.as_str());
                self.conds.push_ifndef(defined);
                Ok(None)
            },
            Directive::Else(x) => {
                let at = if x.tokens.len() > 0 { x.tokens[0].start } else { self.reader.position() };
                self.conds.else_branch(at)?;
                Ok(None)
            },
            Directive::Endif(x) => {
                let at = if x.tokens.len() > 0 { x.tokens[0].start } else { self.reader.position() };
                self.conds.endif(at)?;
                Ok(None)
            },
            Directive::Define(x) => {
                if active {
                    self.macros.define(x);
                }
                Ok(None)
            },
            Directive::Undef(x) => {
                if active {
                    self.macros.undef(x.name.text.as_str());
                }
                Ok(None)
            },
            Directive::Error(x) => {
                if active {
                    let at = if x.tokens.len() > 0 { x.tokens[0].start } else { self.reader.position() };
                    Err(PpError::new(ErrorKind::ErrorDirective, at))
                } else {
                    Ok(None)
                }
            },
            Directive::Warning(x) => {
                if active {
                    Ok(Some(Event::Warning(x)))
                } else {
                    Ok(None)
                }
            },
            Directive::Include(x) => {
                if active {
                    let p = x.resolve(&self.path_vars)?;
                    Ok(Some(Event::Include(p)))
                } else {
                    Ok(None)
                }
            },
            Directive::IncludeLib(x) => {
                if active {
                    let p = x.include_lib(&self.path_vars, &self.code_paths)?;
                    Ok(Some(Event::Include(p)))
                } else {
                    Ok(None)
                }
            },
        }
    }

    /// One step: a directive, a token, an expansion, or the end of the input.
    /// An expansion puts its tokens back at the cursor, so that they are read
    /// next, as ordinary input: a macro name among them is expanded in turn.
    pub fn step(&mut self) -> (r: Result<Step, PpError>)
        requires
            old(self).wf(),
        ensures
            final(self).wf(),
            step_rel(*old(self), *final(self), r),
    {
        if self.can_directive_start {
            self.reader.start_transaction();
            match read_directive(&mut self.reader) {
                Err(e) => {
                    self.reader.abort_transaction();
                    return Err(e);
                },
                Ok(None) => {
                    self.reader.abort_transaction();
                },
                Ok(Some(d)) => {
                    self.can_directive_start = true;
                    let ghost dg = d;
                    let ghost mid = *self;
                    let res = self.apply(d);
                    proof {
                        lemma_directive_step(*old(self), mid, *self, dg, res);
                    }
                    let out = match res {
                        Err(e) => Err(e),
                        Ok(Some(ev)) => Ok(Step::Out(ev)),
                        Ok(None) => Ok(Step::Skip),
                    };
                    return out;
                },
            }
        }
        let p0 = self.reader.pos;
        let t = match self.reader.read_token() {
            None => {
                self.conds.finish(self.reader.position())?;
                return Ok(Step::Done);
            },
            Some(t) => t,
        };
        if !t.is_trivia() {
            self.can_directive_start = t.is_symbol(".");
        }
        if !self.conds.is_active() {
            return Ok(Step::Skip);
        }
        if t.is_name() {
            if let Some(d) = self.macros.lookup(t.text.as_str()) {
                let in_chain = p0 < self.chain_end;
                if in_chain && self.expansions_left == 0 {
                    return Err(PpError::new(ErrorKind::InvalidInput, t.start));
                }
                let out = match &d.variables {
                    None => d.expand(Vec::new())?,
                    Some(vars) => {
                        if self.reader.try_read_symbol("(").is_none() {
                            return Err(PpError::new(ErrorKind::ArityMismatch, t.start));
                        }
                        let groups = read_args(&mut self.reader)?;
                        if groups.len() != vars.len() {
                            return Err(PpError::new(ErrorKind::ArityMismatch, t.start));
                        }
                        let mut slices: Vec<&[Token]> = Vec::new();
                        let mut i: usize = 0;
                        while i < groups.len()
                            invariant
                                i <= groups@.len(),
                                slices@.len() == i,
                                forall|j: int| 0 <= j < i ==> (#[trigger] slices@[j])@ == groups@[j]@,
                            decreases groups@.len() - i,
                        {
                            slices.push(groups[i].as_slice());
                            i = i + 1;
                        }
                        assert(arg_views(slices@) =~= arg_seqs(groups@).map_values(
                            |g: Seq<Token>| views(g),
                        ));
                        d.expand(slices)?
                    },
                };
                let ghost outv = out@;
                let e = self.reader.pos;
                let rest_len = self.reader.tokens.len() - e;
                let chained = if self.chain_end > e {
                    self.chain_end - e
                } else {
                    0
                };
                self.reader.push_front(out);
                self.chain_end = self.reader.tokens.len() - (rest_len - chained);
                self.expansions_left = if in_chain {
                    self.expansions_left - 1
                } else {
                    EXPANSION_LIMIT - 1
                };
                proof {
                    let ts = old(self).reader.tokens@;
                    let p = old(self).reader.pos as int;
                    if old(self).expands_call() {
                        let e = old(self).call_at().unwrap().1;
                        let b = ts.subrange(e, ts.len() as int);
                        assert(views(outv + b) =~= views(outv) + views(b));
                    }
                    if old(self).expands_object_macro() {
                        let b = ts.subrange(p + 1, ts.len() as int);
                        assert(views(outv) == views(d.replacement@));
                        assert(views(outv + b) =~= views(outv) + views(b));
                        assert(views(d.replacement@ + b) =~= views(d.replacement@) + views(b));
                    }
                }
                return Ok(Step::Skip);
            }
        }
        Ok(Step::Out(Event::Token(t)))
    }

    /// The next event of the output: `Ok(None)` at the end of the input, and
    /// from then on; after an error, `Ok(None)` too.
    #[verifier::rlimit(50)]
    pub fn next_event(&mut self) -> (r: Result<Option<Event>, PpError>)
        requires
            old(self).wf(),
        ensures
            final(self).wf(),
            old(self).finished ==> r matches Ok(None),
            !old(self).finished ==> pulled(*old(self), *final(self), r),
            r is Err ==> final(self).finished,
            r matches Ok(Some(_)) ==> final(self).progressed(old(self)),
            ({
                let ts = old(self).reader.tokens@;
                let p = old(self).reader.pos as int;
                (!old(self).finished && p >= ts.len()) ==> ((old(self).conds@.len() == 0
                    ==> r matches Ok(None)) && (old(self).conds@.len() > 0 ==> (r matches Err(e)
                    && e.kind == ErrorKind::StructuralError)))
            }),
            old(self).passes_through() ==> (r matches Ok(Some(Event::Token(t))) && t
                == old(self).reader.tokens@[old(self).reader.pos as int]) && final(self).advanced(
                old(self),
            ) && final(self).reader.pos == old(self).reader.pos + 1 && final(self).macros@ == old(
                self,
            ).macros@ && final(self).conds@ == old(self).conds@ && !final(self).finished,
    {
        if self.finished {
            return Ok(None);
        }
        let ghost o = *self;
        let first = self.step();
        let ghost m0 = *self;
        match first {
            Err(e) => {
                self.finished = true;
                proof {
                    assert(skip_chain(seq![o], o, o));
                }
                return Err(e);
            },
            Ok(Step::Done) => {
                self.finished = true;
                proof {
                    assert(skip_chain(seq![o], o, o));
                }
                return Ok(None);
            },
            Ok(Step::Out(ev)) => {
                proof {
                    assert(skip_chain(seq![o], o, o));
                }
                return Ok(Some(ev));
            },
            Ok(Step::Skip) => {},
        }
        let ghost mut chain: Seq<Preprocessor> = seq![o, m0];
        assert(chain[0] == o && chain[1] == m0);
        loop
            invariant
                self.wf(),
                !self.finished,
                !old(self).finished,
                o == *old(self),
                old(self).reader.pos < old(self).reader.tokens@.len(),
                !old(self).passes_through(),
                self.progressed(old(self)),
                skip_chain(chain, o, *self),
            decreases self.fresh(), self.expansions_left, self.reader.tokens@.len() - self.reader.pos,
        {
            let ghost b = *self;
            let res = self.step();
            let ghost m = *self;
            match res {
                Err(e) => {
                    self.finished = true;
                    return Err(e);
                },
                Ok(Step::Done) => {
                    self.finished = true;
                    return Ok(None);
                },
                Ok(Step::Out(ev)) => {
                    return Ok(Some(ev));
                },
                Ok(Step::Skip) => {
                    proof {
                        let c2 = chain.push(m);
                        assert forall|i: int| 0 <= i < c2.len() - 1 implies step_rel(
                            #[trigger] c2[i],
                            c2[i + 1],
                            Ok(Step::Skip),
                        ) by {
                            if i < chain.len() - 1 {
                                assert(c2[i] == chain[i] && c2[i + 1] == chain[i + 1]);
                            } else {
                                assert(c2[i] == b && c2[i + 1] == m);
                            }
                        }
                        chain = c2;
                    }
                },
            }
        }
    }

    /// Whether a macro of that name is defined now.
    pub fn is_defined(&self, name: &str) -> (r: bool)
        ensures
            r == self.macros@.contains_key(name@),
    {
        self.macros.is_defined(name)
    }
}


/// The outcome of one step of the driver.
pub enum Step {
    /// Something to hand out.
    Out(Event),
    /// Input was consumed, or an expansion was put back, with nothing to hand out.
    Skip,
    /// The input is exhausted and no conditional is open.
    Done,
}

/// A bracket that opens a nested group inside an argument.
pub open spec fn opens_group(t: Token) -> bool {
    is_symbol(t@, "("@) || is_symbol(t@, "["@) || is_symbol(t@, "{"@)
}

/// A bracket that closes a nested group inside an argument.
pub open spec fn closes_group(t: Token) -> bool {
    is_symbol(t@, ")"@) || is_symbol(t@, "]"@) || is_symbol(t@, "}"@)
}

/// An argument without the trivia at its end.
pub open spec fn trim_end(g: Seq<Token>) -> Seq<Token>
    decreases g.len(),
{
    if g.len() > 0 && is_trivia_kind(g.last().kind) {
        trim_end(g.drop_last())
    } else {
        g
    }
}

/// The argument `cur` with `t` added; trivia at its start is dropped.
pub open spec fn add_to_arg(cur: Seq<Token>, t: Token) -> Seq<Token> {
    if cur.len() == 0 && is_trivia_kind(t.kind) {
        cur
    } else {
        cur.push(t)
    }
}

/// The arguments of an invocation read from `ts` at `p`, where `depth`
/// brackets are open, `cur` is the argument being read and `done` those read
/// before it: the arguments and the index after the closing parenthesis, or
/// nothing when the list does not close.
pub open spec fn args_from(
    ts: Seq<Token>,
    p: int,
    depth: nat,
    cur: Seq<Token>,
    done: Seq<Seq<Token>>,
) -> Option<(Seq<Seq<Token>>, int)>
    decreases ts.len() - p,
{
    if p < 0 || p >= ts.len() {
        None
    } else {
        let t = ts[p];
        if depth == 0 && is_symbol(t@, ")"@) {
            Some((done.push(trim_end(cur)), p + 1))
        } else if depth == 0 && is_symbol(t@, ","@) {
            args_from(ts, p + 1, 0, Seq::empty(), done.push(trim_end(cur)))
        } else {
            let d = if opens_group(t) {
                depth + 1
            } else if depth > 0 && closes_group(t) {
                (depth - 1) as nat
            } else {
                depth
            };
            args_from(ts, p + 1, d, add_to_arg(cur, t), done)
        }
    }
}

/// The contents of a list of arguments.
pub open spec fn arg_seqs(gs: Seq<Vec<Token>>) -> Seq<Seq<Token>> {
    gs.map_values(|g: Vec<Token>| g@)
}

/// Drops the trivia at the end of an argument.
fn trim_trailing_trivia(g: &mut Vec<Token>)
    ensures
        final(g)@ == trim_end(old(g)@),
{
    while g.len() > 0 && g[g.len() - 1].is_trivia()
        invariant
            trim_end(g@) == trim_end(old(g)@),
        decreases g@.len(),
    {
        assert(g@.drop_last() == g@.subrange(0, g@.len() - 1));
        g.pop();
    }
}

/// Reads the arguments of an invocation after its opening parenthesis: token
/// groups separated by commas outside brackets, up to the parenthesis that
/// closes the list. Trivia at either end of a group is dropped.
fn read_args(reader: &mut TokenReader) -> (r: Result<Vec<Vec<Token>>, PpError>)
    requires
        old(reader).wf(),
    ensures
        final(reader).wf(),
        final(reader).moved(old(reader)),
        old(reader).pos <= final(reader).pos,
        match r {
            Ok(gs) => args_from(old(reader).tokens@, old(reader).pos as int, 0, Seq::empty(), Seq::empty())
                == Some((arg_seqs(gs@), final(reader).pos as int)),
            Err(e) => e.kind == ErrorKind::SyntaxError && args_from(
                old(reader).tokens@,
                old(reader).pos as int,
                0,
                Seq::empty(),
                Seq::empty(),
            ) is None,
        },
{
    let ghost ts = reader.tokens@;
    let ghost whole = args_from(ts, reader.pos as int, 0, Seq::empty(), Seq::empty());
    let mut groups: Vec<Vec<Token>> = Vec::new();
    let mut cur: Vec<Token> = Vec::new();
    let mut depth: usize = 0;
    assert(arg_seqs(groups@) =~= Seq::<Seq<Token>>::empty());
    loop
        invariant
            reader.wf(),
            reader.moved(old(reader)),
            ts == reader.tokens@,
            old(reader).pos <= reader.pos,
            depth <= reader.pos,
            whole == args_from(ts, old(reader).pos as int, 0, Seq::empty(), Seq::empty()),
            whole == args_from(ts, reader.pos as int, depth as nat, cur@, arg_seqs(groups@)),
        decreases reader.tokens@.len() - reader.pos,
    {
        let t = match reader.read_token() {
            None => {
                return Err(PpError::new(ErrorKind::SyntaxError, reader.position()));
            },
            Some(t) => t,
        };
        let ghost before = arg_seqs(groups@);
        if depth == 0 && t.is_symbol(")") {
            trim_trailing_trivia(&mut cur);
            let ghost trimmed = cur@;
            groups.push(cur);
            assert(arg_seqs(groups@) =~= before.push(trimmed));
            return Ok(groups);
        }
        if depth == 0 && t.is_symbol(",") {
            trim_trailing_trivia(&mut cur);
            let ghost trimmed = cur@;
            groups.push(cur);
            assert(arg_seqs(groups@) =~= before.push(trimmed));
            cur = Vec::new();
            assert(cur@ =~= Seq::<Token>::empty());
        } else {
            if t.is_symbol("(") || t.is_symbol("[") || t.is_symbol("{") {
                depth = depth + 1;
            } else if depth > 0 && (t.is_symbol(")") || t.is_symbol("]") || t.is_symbol("}")) {
                depth = depth - 1;
            }
            if !(cur.len() == 0 && t.is_trivia()) {
                cur.push(t);
            }
        }
    }
}

/// How many expansions one chain may make: an expansion is read again as input,
/// so a macro whose expansion names itself would expand for ever.
pub const EXPANSION_LIMIT: usize = 100000;

} // verus!
