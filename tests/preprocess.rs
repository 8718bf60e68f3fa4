use erl_pp::directives::{read_directive, Define, Directive};
use erl_pp::error::{ErrorKind, PpError};
use erl_pp::path::{choose_lib_path, GlobOutcome, lib_app_name, lib_pattern, rewrite_lib_path, substitute_path_variables};
use erl_pp::preprocessor::{Event, Preprocessor};
use erl_pp::quote::quote;
use erl_pp::reader::TokenReader;
use erl_pp::token::{Position, Token, TokenKind};

fn position(p: erl_tokenize::Position) -> Position {
    Position::new(p.line().get(), p.column().get(), p.offset())
}

fn kind(k: erl_tokenize::TokenKind) -> TokenKind {
    match k {
        erl_tokenize::TokenKind::Atom => TokenKind::Atom,
        erl_tokenize::TokenKind::Char => TokenKind::Char,
        erl_tokenize::TokenKind::Comment => TokenKind::Comment,
        erl_tokenize::TokenKind::Float => TokenKind::Float,
        erl_tokenize::TokenKind::Integer => TokenKind::Integer,
        erl_tokenize::TokenKind::Keyword(_) => TokenKind::Keyword,
        erl_tokenize::TokenKind::SigilString => TokenKind::SigilString,
        erl_tokenize::TokenKind::String => TokenKind::String,
        erl_tokenize::TokenKind::Symbol(_) => TokenKind::Symbol,
        erl_tokenize::TokenKind::Variable => TokenKind::Variable,
        erl_tokenize::TokenKind::Whitespace => TokenKind::Whitespace,
    }
}

fn lex(src: &str) -> Vec<Token> {
    erl_tokenize::scan_tokens(src)
        .expect("test source must scan")
        .into_iter()
        .map(|t| {
            Token::new(
                kind(t.kind()),
                t.text(src).to_string(),
                position(t.start()),
                position(t.end()),
            )
        })
        .collect()
}

fn lexical_texts(ts: &[Token]) -> Vec<String> {
    ts.iter().filter(|t| !t.is_trivia()).map(|t| t.text.clone()).collect()
}

/// Pulls every event of a text that reads no other file: the output tokens,
/// in order; an include is reported as an include error.
fn preprocess(tokens: &[Token]) -> Result<Vec<Token>, PpError> {
    let mut pp = Preprocessor::new(tokens.to_vec());
    let mut out = Vec::new();
    while let Some(ev) = pp.next_event()? {
        match ev {
            Event::Token(t) => out.push(t),
            Event::Warning(_) => {}
            Event::Include(_) => {
                return Err(PpError::new(ErrorKind::IncludeError, pp.reader.position()));
            }
        }
    }
    Ok(out)
}

fn run(src: &str) -> Result<Vec<String>, PpError> {
    preprocess(&lex(src)).map(|out| lexical_texts(&out))
}

fn read_one(src: &str) -> Directive {
    let mut reader = TokenReader::new(lex(src));
    reader.start_transaction();
    read_directive(&mut reader).expect("no error").expect("a directive")
}

#[test]
fn define_then_bare_reference_expands() {
    let out = run("-define(NAME, tok1 tok2).\nx(NAME).").unwrap();
    assert_eq!(out, vec!["x", "(", "tok1", "tok2", ")", "."]);
}

#[test]
fn redefinition_replaces_earlier_definition() {
    let out = run("-define(M, a).\n-define(M, b).\nf() -> M.").unwrap();
    assert_eq!(out, vec!["f", "(", ")", "->", "b", "."]);
}

#[test]
fn redefinition_with_other_arity_supersedes() {
    let out = run("-define(M(X), X).\n-define(M, c).\ng() -> M.").unwrap();
    assert_eq!(out, vec!["g", "(", ")", "->", "c", "."]);
}

#[test]
fn undef_leaves_reference_unexpanded() {
    let out = run("-define(m, a).\n-undef(m).\nm.").unwrap();
    assert_eq!(out, vec!["m", "."]);
}

#[test]
fn undef_of_undefined_name_is_no_error() {
    let out = run("-undef(never).\nok.").unwrap();
    assert_eq!(out, vec!["ok", "."]);
}

#[test]
fn parameterized_macro_substitutes_arguments() {
    let out = run("-define(ADD(X,Y), X + Y).\nADD(1,2).").unwrap();
    assert_eq!(out, vec!["1", "+", "2", "."]);
}

#[test]
fn parameterized_macro_keeps_nested_argument_groups() {
    let out = run("-define(F(X,Y), {X, Y}).\nF(g(1, 2), [3, 4]).").unwrap();
    assert_eq!(
        out,
        vec!["{", "g", "(", "1", ",", "2", ")", ",", "[", "3", ",", "4", "]", "}", "."]
    );
}

#[test]
fn stringification_makes_string_token() {
    let toks = preprocess(&lex("-define(STR(X), ??X).\nSTR(foo).")).unwrap();
    let lexical: Vec<&Token> = toks.iter().filter(|t| !t.is_trivia()).collect();
    assert_eq!(lexical.len(), 2);
    assert_eq!(lexical[0].kind, TokenKind::String);
    assert_eq!(lexical[0].text, "\"foo\"");
    assert_eq!(lexical[0].start, Position::new(2, 5, 26));
}

#[test]
fn stringification_keeps_inner_spacing() {
    let out = run("-define(S(X), ??X).\nS(a + b).").unwrap();
    assert_eq!(out, vec!["\"a + b\"", "."]);
}

#[test]
fn ifdef_keeps_then_branch_when_defined() {
    let out = run("-define(M, 1).\n-ifdef(M).\nyes.\n-else.\nno.\n-endif.\n").unwrap();
    assert_eq!(out, vec!["yes", "."]);
}

#[test]
fn ifdef_keeps_else_branch_when_undefined() {
    let out = run("-ifdef(M).\nyes.\n-else.\nno.\n-endif.\n").unwrap();
    assert_eq!(out, vec!["no", "."]);
}

#[test]
fn ifndef_keeps_then_branch_when_undefined() {
    let out = run("-ifndef(M).\nyes.\n-endif.\nafter.").unwrap();
    assert_eq!(out, vec!["yes", ".", "after", "."]);
}

#[test]
fn define_inside_suppressed_branch_has_no_effect() {
    let out = run("-ifdef(X).\n-define(m, a).\n-endif.\nm.").unwrap();
    assert_eq!(out, vec!["m", "."]);
}

#[test]
fn nested_conditionals_in_suppressed_text_are_tracked() {
    let out = run("-ifdef(X).\n-ifndef(Y).\na.\n-endif.\nb.\n-endif.\nc.").unwrap();
    assert_eq!(out, vec!["c", "."]);
}

#[test]
fn unmatched_endif_is_structural_error() {
    let e = run("-endif.\n").unwrap_err();
    assert_eq!(e.kind, ErrorKind::StructuralError);
    assert_eq!(e.position, Position::new(1, 1, 0));
}

#[test]
fn unmatched_else_is_structural_error() {
    let e = run("a.\n-else.\n").unwrap_err();
    assert_eq!(e.kind, ErrorKind::StructuralError);
}

#[test]
fn open_ifdef_at_end_is_structural_error() {
    let e = run("-ifdef(M).\na.\n").unwrap_err();
    assert_eq!(e.kind, ErrorKind::StructuralError);
}

#[test]
fn directives_round_trip_to_source_text() {
    let sources = [
        "-include(\"a.hrl\").",
        "-include_lib(\"kernel/include/file.hrl\").",
        "-define(ADD(X, Y), X + Y).",
        "-undef( M ).",
        "-ifdef(M).",
        "-ifndef(M).",
        "-else.",
        "-endif.",
        "-error(\"bad\" ++ thing).",
        "-warning(\"careful\").",
    ];
    for src in sources.iter() {
        let d = read_one(src);
        assert_eq!(d.text(), *src);
        assert_eq!(d.start_position(), Position::new(1, 1, 0));
        assert_eq!(d.end_position().offset, src.len());
    }
}

#[test]
fn define_body_keeps_inner_close_paren() {
    match read_one("-define(T, {f(x), y}).") {
        Directive::Define(Define { replacement, variables, .. }) => {
            assert!(variables.is_none());
            assert_eq!(lexical_texts(&replacement), vec!["{", "f", "(", "x", ")", ",", "y", "}"]);
        }
        other => panic!("not a define: {:?}", other),
    }
}

#[test]
fn other_attributes_are_not_directives() {
    let mut reader = TokenReader::new(lex("-module(foo)."));
    reader.start_transaction();
    assert!(read_directive(&mut reader).unwrap().is_none());
    let out = run("-module(foo).").unwrap();
    assert_eq!(out, vec!["-", "module", "(", "foo", ")", "."]);
}

#[test]
fn malformed_directive_is_syntax_error() {
    let e = run("-define(M a).").unwrap_err();
    assert_eq!(e.kind, ErrorKind::SyntaxError);
    let e = run("-undef(M)").unwrap_err();
    assert_eq!(e.kind, ErrorKind::SyntaxError);
}

#[test]
fn duplicate_parameter_is_syntax_error() {
    let e = run("-define(F(X, X), X).").unwrap_err();
    assert_eq!(e.kind, ErrorKind::SyntaxError);
}

#[test]
fn plain_text_passes_through_unchanged() {
    let src = "foo(X) -> X - 1.\n%% note\nbar() -> [a, \"s\", $c, 2.5].\n";
    let toks = lex(src);
    let out = preprocess(&toks).unwrap();
    assert_eq!(out.len(), toks.len());
    for (a, b) in out.iter().zip(toks.iter()) {
        assert_eq!(a.text, b.text);
        assert_eq!(a.kind, b.kind);
        assert_eq!(a.start, b.start);
        assert_eq!(a.end, b.end);
    }
}

#[test]
fn arity_mismatch_is_error_without_output() {
    let e = preprocess(&lex("-define(ADD(X,Y), X + Y).\nADD(1,2,3).")).unwrap_err();
    assert_eq!(e.kind, ErrorKind::ArityMismatch);
    assert_eq!(e.position, Position::new(2, 1, 26));
}

#[test]
fn parameterized_macro_without_arguments_is_arity_error() {
    let e = run("-define(ADD(X,Y), X + Y).\nADD.").unwrap_err();
    assert_eq!(e.kind, ErrorKind::ArityMismatch);
}

#[test]
fn error_directive_is_reported_where_it_stands() {
    let e = run("a.\n-error(\"stop\").\nb.").unwrap_err();
    assert_eq!(e.kind, ErrorKind::ErrorDirective);
    assert_eq!(e.position, Position::new(2, 1, 3));
}

#[test]
fn warning_directive_is_an_event_and_does_not_stop() {
    let mut pp = Preprocessor::new(lex("-warning(\"w\").\nok."));
    match pp.next_event().unwrap() {
        Some(Event::Warning(w)) => assert_eq!(lexical_texts(&w.message), vec!["\"w\""]),
        other => panic!("expected a warning: {:?}", other),
    }
    let mut rest = Vec::new();
    while let Some(ev) = pp.next_event().unwrap() {
        if let Event::Token(t) = ev {
            if !t.is_trivia() {
                rest.push(t.text);
            }
        }
    }
    assert_eq!(rest, vec!["ok", "."]);
}

#[test]
fn include_event_carries_substituted_path() {
    let mut pp = Preprocessor::new(lex("-include(\"$ROOT/inc/a.hrl\").\nA."));
    pp.set_path_variable("ROOT".to_string(), "/opt/app".to_string());
    match pp.next_event().unwrap() {
        Some(Event::Include(p)) => assert_eq!(p, "/opt/app/inc/a.hrl"),
        other => panic!("expected an include: {:?}", other),
    }
    pp.insert_tokens(&lex("-define(A, 42)."));
    let mut rest = Vec::new();
    while let Some(ev) = pp.next_event().unwrap() {
        if let Event::Token(t) = ev {
            if !t.is_trivia() {
                rest.push(t.text);
            }
        }
    }
    assert_eq!(rest, vec!["42", "."]);
}

#[test]
fn include_with_undefined_variable_fails() {
    let mut pp = Preprocessor::new(lex("-include(\"$NOPE/a.hrl\")."));
    let e = pp.next_event().unwrap_err();
    assert_eq!(e.kind, ErrorKind::IncludeError);
    assert!(pp.next_event().unwrap().is_none());
}

#[test]
fn include_lib_without_match_keeps_path() {
    let mut pp = Preprocessor::new(lex("-include_lib(\"no_such_app_xyz/include/x.hrl\")."));
    pp.add_code_path("/nonexistent_root_dir".to_string());
    match pp.next_event().unwrap() {
        Some(Event::Include(p)) => assert_eq!(p, "no_such_app_xyz/include/x.hrl"),
        other => panic!("expected an include: {:?}", other),
    }
}

#[test]
fn include_in_whole_pass_is_error() {
    let e = run("-include(\"a.hrl\").").unwrap_err();
    assert_eq!(e.kind, ErrorKind::IncludeError);
}

#[test]
fn quote_escapes_quotes_and_backslashes() {
    assert_eq!(quote("a\"b\\c\nd"), "\"a\\\"b\\\\c\\nd\"");
    assert_eq!(quote(""), "\"\"");
}

#[test]
fn expand_reports_unbound_stringified_name() {
    match read_one("-define(S(X), ??Y).") {
        Directive::Define(d) => {
            let arg = lex("v");
            let e = d.expand(vec![arg.as_slice()]).unwrap_err();
            assert_eq!(e.kind, ErrorKind::UnboundName);
        }
        other => panic!("not a define: {:?}", other),
    }
}

#[test]
fn expand_reports_trailing_stringify_operator() {
    match read_one("-define(S(X), X ??).") {
        Directive::Define(d) => {
            let arg = lex("v");
            let e = d.expand(vec![arg.as_slice()]).unwrap_err();
            assert_eq!(e.kind, ErrorKind::InvalidInput);
        }
        other => panic!("not a define: {:?}", other),
    }
}

#[test]
fn expand_object_macro_ignores_arguments() {
    match read_one("-define(K, 1 2).") {
        Directive::Define(d) => {
            let out = d.expand(Vec::new()).unwrap();
            assert_eq!(lexical_texts(&out), vec!["1", "2"]);
        }
        other => panic!("not a define: {:?}", other),
    }
}

#[test]
fn reader_transactions_nest_and_roll_back() {
    let mut r = TokenReader::new(lex("a b c"));
    r.start_transaction();
    assert_eq!(r.read_token().unwrap().text, "a");
    r.start_transaction();
    r.read_token();
    r.read_token();
    r.abort_transaction();
    assert_eq!(r.pos, 1);
    let taken = r.commit_transaction();
    assert_eq!(lexical_texts(&taken), vec!["a"]);
    r.unread_token();
    assert_eq!(r.pos, 0);
}

#[test]
fn names_in_an_expansion_are_expanded_when_read() {
    let out = run("-define(A, B + 1).\n-define(B, 2).\nA.").unwrap();
    assert_eq!(out, vec!["2", "+", "1", "."]);
}

#[test]
fn self_referential_macro_stops_with_error() {
    let e = run("-define(A, A).\nA.").unwrap_err();
    assert_eq!(e.kind, ErrorKind::InvalidInput);
}

#[test]
fn library_path_rewrites_application_component() {
    assert_eq!(lib_app_name("kernel/include/file.hrl"), Some("kernel".to_string()));
    assert_eq!(lib_app_name("/abs/file.hrl"), None);
    assert_eq!(lib_app_name("./file.hrl"), None);
    assert_eq!(lib_app_name("../file.hrl"), None);
    assert_eq!(lib_pattern("/usr/lib/erlang/lib", "kernel"), "/usr/lib/erlang/lib/kernel-*");
    assert_eq!(lib_pattern("/usr/lib/", "kernel"), "/usr/lib/kernel-*");
    assert_eq!(lib_pattern("", "kernel"), "kernel-*");
    assert_eq!(
        rewrite_lib_path("kernel/include/file.hrl", "/usr/lib/erlang/lib/kernel-8.0"),
        "/usr/lib/erlang/lib/kernel-8.0/include/file.hrl"
    );
    assert_eq!(rewrite_lib_path("kernel", "/lib/kernel-8.0"), "/lib/kernel-8.0");
    let vars = vec![("HOME".to_string(), "/home/u".to_string())];
    assert_eq!(substitute_path_variables("$HOME/x.hrl", &vars), Some("/home/u/x.hrl".to_string()));
    assert_eq!(substitute_path_variables("plain/x.hrl", &vars), Some("plain/x.hrl".to_string()));
    assert_eq!(substitute_path_variables("$NONE/x.hrl", &vars), None);
}

#[test]
fn definitions_are_visible_through_the_driver() {
    let mut pp = Preprocessor::new(lex("-define(M, 1).\n-undef(N).\nok."));
    assert!(!pp.is_defined("M"));
    while let Some(_) = pp.next_event().unwrap() {}
    assert!(pp.is_defined("M"));
    assert!(!pp.is_defined("N"));
}

#[test]
fn separated_question_marks_are_copied() {
    let out = run("-define(Q(X), ? ?X).\nQ(v).").unwrap();
    assert_eq!(out, vec!["?", "?", "v", "."]);
}

#[test]
fn hyphen_inside_a_statement_is_not_a_directive() {
    let out = run("f() -> x -undef(y).").unwrap();
    assert_eq!(out, vec!["f", "(", ")", "->", "x", "-", "undef", "(", "y", ")", "."]);
}

#[test]
fn included_text_shares_the_macro_table() {
    let mut pp = Preprocessor::new(lex("-define(M, 1).\n-include(\"a.hrl\").\ng() -> N."));
    let mut out = Vec::new();
    while let Some(ev) = pp.next_event().unwrap() {
        match ev {
            Event::Token(t) => {
                if !t.is_trivia() {
                    out.push(t.text)
                }
            }
            Event::Include(p) => {
                assert_eq!(p, "a.hrl");
                pp.insert_tokens(&lex("-define(N, 2).\nf() -> M.\n"));
            }
            Event::Warning(_) => {}
        }
    }
    assert_eq!(out, vec!["f", "(", ")", "->", "1", ".", "g", "(", ")", "->", "2", "."]);
}

#[test]
fn kept_branch_expands_macros() {
    let out = run("-define(M, 1).\n-define(K, 7).\n-ifdef(M).\nx(K).\n-else.\ny.\n-endif.\n").unwrap();
    assert_eq!(out, vec!["x", "(", "7", ")", "."]);
}

#[test]
fn empty_replacement_removes_the_reference() {
    let out = run("-define(E, ).\na E b.").unwrap();
    assert_eq!(out, vec!["a", "b", "."]);
}

#[test]
fn first_root_with_a_match_decides() {
    let at = Position::new(1, 1, 0);
    let outcomes: Vec<GlobOutcome> = vec![
        Ok(None),
        Ok(Some(Ok("/b/kernel-2".to_string()))),
        Ok(Some(Ok("/c/kernel-3".to_string()))),
    ];
    assert_eq!(
        choose_lib_path("kernel/include/f.hrl", &outcomes, at).unwrap(),
        "/b/kernel-2/include/f.hrl"
    );
    let none: Vec<GlobOutcome> = vec![Ok(None), Ok(None)];
    assert_eq!(choose_lib_path("kernel/include/f.hrl", &none, at).unwrap(), "kernel/include/f.hrl");
}
