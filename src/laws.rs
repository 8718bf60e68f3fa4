use vstd::prelude::*;
use crate::directives::{expand_template, param_index, stringified, stringify_op_len, Define, Directive};
use crate::error::{ErrorKind, PpError};
use crate::token::{is_symbol, text_of, views, Token, TokenView};

verus! {

/// After `define(NAME, Replacement)` of a macro without parameters, a reference
/// to `NAME` finds that definition and yields its replacement, whatever else the
/// table held before.
pub proof fn law_object_macro_expands_to_replacement(
    table: Map<Seq<char>, Define>,
    d: Define,
    args: Seq<Seq<TokenView>>,
)
    requires
        d.variables is None,
    ensures
        table.insert(d.name.text@, d).contains_key(d.name.text@),
        table.insert(d.name.text@, d)[d.name.text@].expansion(args) == Ok::<
            Seq<TokenView>,
            PpError,
        >(views(d.replacement@)),
{
}

/// Invoking a macro with parameters with another number of arguments fails
/// with an arity error, and yields no tokens.
pub proof fn law_arity_mismatch(d: Define, args: Seq<Seq<TokenView>>)
    requires
        d.variables is Some,
        args.len() != d.variables.unwrap()@.len(),
    ensures
        d.expansion(args) == Err::<Seq<TokenView>, PpError>(
            PpError { kind: ErrorKind::ArityMismatch, position: d.name.start },
        ),
{
}

proof fn lemma_text_of_append(a: Seq<TokenView>, b: Seq<TokenView>)
    ensures
        text_of(a + b) == text_of(a) + text_of(b),
    decreases b.len(),
{
    if b.len() == 0 {
        assert(a + b =~= a);
        assert(text_of(b) =~= Seq::<char>::empty());
        assert(text_of(a) + Seq::<char>::empty() =~= text_of(a));
    } else {
        lemma_text_of_append(a, b.drop_last());
        assert((a + b).drop_last() =~= a + b.drop_last());
        assert(text_of(a) + (text_of(b.drop_last()) + b.last().text) =~= (text_of(a) + text_of(
            b.drop_last(),
        )) + b.last().text);
    }
}

/// The text of a directive read from tokens `from` to `p1` of a token sequence is
/// exactly the source text between where the tokens before it end and where it
/// ends: rebuilding it from its recorded tokens gives back the source as it was.
pub proof fn law_directive_text_is_source(ts: Seq<Token>, from: int, p1: int, d: Directive)
    requires
        0 <= from <= p1 <= ts.len(),
        d.spec_tokens() == ts.subrange(from, p1),
    ensures
        text_of(views(ts.subrange(0, p1))) == text_of(views(ts.subrange(0, from))) + text_of(
            views(d.spec_tokens()),
        ),
{
    assert(views(ts.subrange(0, p1)) =~= views(ts.subrange(0, from)) + views(ts.subrange(from, p1)));
    lemma_text_of_append(views(ts.subrange(0, from)), views(ts.subrange(from, p1)));
}

/// A macro `S(X)` whose replacement is `??X` (the operator scanned as two
/// touching `?` tokens) turns its argument into one
/// string token, whose text is the argument's source text quoted, at the place
/// where the argument starts.
pub proof fn law_stringification(d: Define, arg: Seq<TokenView>)
    requires
        d.variables is Some,
        d.params().unwrap().len() == 1,
        views(d.replacement@).len() == 3,
        is_symbol(views(d.replacement@)[0], "?"@),
        is_symbol(views(d.replacement@)[1], "?"@),
        views(d.replacement@)[0].end == views(d.replacement@)[1].start,
        views(d.replacement@)[2].text == d.params().unwrap()[0].text,
        d.params().unwrap()[0].text != "?"@,
    ensures
        d.expansion(seq![arg]) == Ok::<Seq<TokenView>, PpError>(
            seq![stringified(arg, views(d.replacement@)[0].start)],
        ),
{
    let ps = d.params().unwrap();
    let tv = views(d.replacement@);
    reveal_strlit("?");
    reveal_strlit("??");
    assert("?"@ != "??"@) by {
        assert("?"@.len() != "??"@.len());
    }
    assert(param_index(ps.drop_first(), "?"@) is None);
    assert(param_index(ps, tv[0].text) is None);
    assert(stringify_op_len(tv) == 2);
    assert(param_index(ps, tv[2].text) == Some(0int));
    assert(tv.subrange(3, 3) =~= Seq::<TokenView>::empty());
    assert(expand_template(ps, tv.subrange(3, 3), seq![arg]) == Ok::<Seq<TokenView>, PpError>(
        Seq::empty(),
    ));
    assert(seq![stringified(arg, tv[0].start)] + Seq::<TokenView>::empty() =~= seq![
        stringified(arg, tv[0].start),
    ]);
}

/// A macro `F(X, Y)` whose replacement is `X op Y` puts the first argument's
/// tokens, then `op`, then the second argument's tokens in place of the
/// invocation.
pub proof fn law_parameter_substitution(d: Define, a: Seq<TokenView>, b: Seq<TokenView>)
    requires
        d.variables is Some,
        d.params().unwrap().len() == 2,
        d.params().unwrap()[0].text != d.params().unwrap()[1].text,
        views(d.replacement@).len() == 3,
        views(d.replacement@)[0].text == d.params().unwrap()[0].text,
        views(d.replacement@)[2].text == d.params().unwrap()[1].text,
        views(d.replacement@)[1].text != d.params().unwrap()[0].text,
        views(d.replacement@)[1].text != d.params().unwrap()[1].text,
        !is_symbol(views(d.replacement@)[1], "?"@),
        !is_symbol(views(d.replacement@)[1], "??"@),
    ensures
        d.expansion(seq![a, b]) == Ok::<Seq<TokenView>, PpError>(
            a + seq![views(d.replacement@)[1]] + b,
        ),
{
    let ps = d.params().unwrap();
    let tv = views(d.replacement@);
    let args = seq![a, b];
    assert(param_index(ps, tv[0].text) == Some(0int));
    assert(param_index(ps.drop_first(), tv[1].text) is None);
    assert(param_index(ps.drop_first().drop_first(), tv[1].text) is None);
    assert(param_index(ps, tv[1].text) is None);
    assert(param_index(ps.drop_first(), tv[2].text) == Some(0int));
    assert(param_index(ps, tv[2].text) == Some(1int));
    let t1 = tv.drop_first();
    let t2 = t1.drop_first();
    let t3 = t2.drop_first();
    assert(t3 =~= Seq::<TokenView>::empty());
    assert(t2[0] == tv[2]);
    assert(t1[0] == tv[1]);
    assert(stringify_op_len(t1) == 0);
    assert(expand_template(ps, t3, args) == Ok::<Seq<TokenView>, PpError>(Seq::empty()));
    assert(b + Seq::<TokenView>::empty() =~= b);
    assert(expand_template(ps, t2, args) == Ok::<Seq<TokenView>, PpError>(b));
    assert(expand_template(ps, t1, args) == Ok::<Seq<TokenView>, PpError>(seq![tv[1]] + b));
    assert(a + (seq![tv[1]] + b) =~= a + seq![tv[1]] + b);
}

} // verus!
