use vstd::prelude::*;
use crate::directives::{Include, IncludeLib};
use crate::error::{ErrorKind, PpError};
use crate::token::{str_eq, Position};

verus! {

#[verifier::external_type_specification]
#[verifier::external_body]
pub struct ExPatternError(glob::PatternError);

#[verifier::external_type_specification]
#[verifier::external_body]
pub struct ExGlobError(glob::GlobError);

/// The value of the string literal whose text is `text`, or nothing where the
/// text does not scan as a string literal.
pub uninterp spec fn string_literal_value(text: Seq<char>) -> Option<Seq<char>>;

/// Relies on erl_tokenize::scan_token and Token::value: the text of a string
/// literal scans as a string token, whose decoded value is returned; text that
/// fails to scan, or scans as another kind of token, gives `None`.
#[verifier::external_body]
fn decode_string(text: &str) -> (r: Option<String>)
    ensures
        match r {
            Some(v) => string_literal_value(text@) == Some(v@),
            None => string_literal_value(text@) is None,
        },
{
    match erl_tokenize::scan_token(text, erl_tokenize::Position::new()) {
        Ok(Some(t)) => match t.value(text) {
            erl_tokenize::TokenValue::String(v) => Some(v.into_owned()),
            _ => None,
        },
        _ => None,
    }
}

/// Relies on glob::glob and the first item of its Paths: the first path on disk
/// that `pattern` matches, if any. What is on disk is not known here.
#[verifier::external_body]
fn first_glob_match(pattern: &str) -> (r: Result<Option<Result<String, glob::GlobError>>, glob::PatternError>)
{
    glob::glob(pattern).map(|mut paths| paths.next().map(|e| e.map(|p| p.to_string_lossy().into_owned())))
}

/// The index of the first `/` in `s`, or its length.
pub open spec fn first_slash(s: Seq<char>) -> int
    decreases s.len(),
{
    if s.len() == 0 {
        0
    } else if s[0] == '/' {
        0
    } else {
        1 + first_slash(s.drop_first())
    }
}

proof fn lemma_first_slash(s: Seq<char>)
    ensures
        0 <= first_slash(s) <= s.len(),
        first_slash(s) < s.len() ==> s[first_slash(s)] == '/',
        forall|j: int| 0 <= j < first_slash(s) ==> s[j] != '/',
    decreases s.len(),
{
    if s.len() > 0 && s[0] != '/' {
        lemma_first_slash(s.drop_first());
        assert forall|j: int| 0 <= j < first_slash(s) implies s[j] != '/' by {
            if j > 0 {
                assert(s[j] == s.drop_first()[j - 1]);
            }
        }
    }
}

/// The first component of a path.
pub open spec fn first_component(s: Seq<char>) -> Seq<char> {
    s.subrange(0, first_slash(s))
}

/// What follows the first component of a path, its separator included.
pub open spec fn after_first(s: Seq<char>) -> Seq<char> {
    s.subrange(first_slash(s), s.len() as int)
}

/// The value of the first variable named `name`.
pub open spec fn var_value(vars: Seq<(String, String)>, name: Seq<char>) -> Option<Seq<char>>
    decreases vars.len(),
{
    if vars.len() == 0 {
        None
    } else if vars[0].0@ == name {
        Some(vars[0].1@)
    } else {
        var_value(vars.drop_first(), name)
    }
}

/// A path whose first component is `$NAME` has it replaced by the value of
/// the variable `NAME`; without such a variable there is no result. Other
/// paths stay as they are.
pub open spec fn substituted(s: Seq<char>, vars: Seq<(String, String)>) -> Option<Seq<char>> {
    if s.len() > 0 && s[0] == '$' {
        match var_value(vars, first_component(s).drop_first()) {
            Some(v) => Some(v + after_first(s)),
            None => None,
        }
    } else {
        Some(s)
    }
}

/// The application that a library path names: its first component, when that
/// is a plain name.
pub open spec fn app_of(s: Seq<char>) -> Option<Seq<char>> {
    let c = first_component(s);
    if c.len() > 0 && c != seq!['.'] && c != seq!['.', '.'] {
        Some(c)
    } else {
        None
    }
}

/// `name` under the directory `root`.
pub open spec fn joined(root: Seq<char>, name: Seq<char>) -> Seq<char> {
    if root.len() == 0 {
        name
    } else if root.last() == '/' {
        root + name
    } else {
        root + seq!['/'] + name
    }
}

/// The pattern that finds the directories of application `app` under `root`.
pub open spec fn app_pattern(root: Seq<char>, app: Seq<char>) -> Seq<char> {
    joined(root, app + seq!['-', '*'])
}

fn find_slash(s: &str) -> (r: usize)
    ensures
        r == first_slash(s@),
{
    proof { lemma_first_slash(s@); }
    let n = s.unicode_len();
    let mut i: usize = 0;
    while i < n
        invariant
            n == s@.len(),
            i <= n,
            forall|j: int| 0 <= j < i ==> s@[j] != '/',
            i <= first_slash(s@),
        decreases n - i,
    {
        proof { lemma_first_slash(s@); }
        if s.get_char(i) == '/' {
            return i;
        }
        i = i + 1;
    }
    i
}

fn lookup_var(vars: &Vec<(String, String)>, name: &str) -> (r: Option<String>)
    ensures
        match r {
            Some(v) => var_value(vars@, name@) == Some(v@),
            None => var_value(vars@, name@) is None,
        },
{
    let mut i: usize = 0;
    assert(vars@.subrange(0, vars@.len() as int) =~= vars@);
    while i < vars.len()
        invariant
            i <= vars@.len(),
            var_value(vars@, name@) == var_value(vars@.subrange(i as int, vars@.len() as int), name@),
        decreases vars@.len() - i,
    {
        let ghost rest = vars@.subrange(i as int, vars@.len() as int);
        assert(rest.drop_first() =~= vars@.subrange(i + 1, vars@.len() as int));
        if str_eq(vars[i].0.as_str(), name) {
            return Some(vars[i].1.clone());
        }
        i = i + 1;
    }
    None
}

/// Replaces a leading `$NAME` component of `path` by the variable's value.
pub fn substitute_path_variables(path: &str, vars: &Vec<(String, String)>) -> (r: Option<String>)
    ensures
        match r {
            Some(p) => substituted(path@, vars@) == Some(p@),
            None => substituted(path@, vars@) is None,
        },
{
    let n = path.unicode_len();
    if n == 0 || path.get_char(0) != '$' {
        return Some(path.to_owned());
    }
    let k = find_slash(path);
    proof { lemma_first_slash(path@); }
    let name = path.substring_char(1, k);
    assert(name@ =~= first_component(path@).drop_first());
    match lookup_var(vars, name) {
        Some(v) => {
            let mut out = v;
            out.append(path.substring_char(k, n));
            Some(out)
        },
        None => None,
    }
}

/// The application named by the first component of a library path.
pub fn lib_app_name(path: &str) -> (r: Option<String>)
    ensures
        match r {
            Some(a) => app_of(path@) == Some(a@),
            None => app_of(path@) is None,
        },
{
    let k = find_slash(path);
    proof { lemma_first_slash(path@); }
    let c = path.substring_char(0, k);
    proof {
        reveal_strlit(".");
        reveal_strlit("..");
        assert(".."@ =~= seq!['.', '.']);
        assert("."@ =~= seq!['.']);
    }
    if k == 0 || str_eq(c, ".") || str_eq(c, "..") {
        None
    } else {
        Some(c.to_owned())
    }
}

/// The glob pattern for the directories of application `app` under `root`.
pub fn lib_pattern(root: &str, app: &str) -> (r: String)
    ensures
        r@ == app_pattern(root@, app@),
{
    let n = root.unicode_len();
    let mut out = root.to_owned();
    proof { reveal_strlit("/"); reveal_strlit("-*"); }
    if n > 0 && root.get_char(n - 1) != '/' {
        out.append("/");
    }
    out.append(app);
    out.append("-*");
    assert("-*"@ =~= seq!['-', '*']);
    proof {
        if n > 0 {
            assert(root@.last() == root@[n - 1]);
        }
        assert(out@ =~= app_pattern(root@, app@));
    }
    out
}

/// A library path with its first component replaced by the directory `found`.
pub fn rewrite_lib_path(path: &str, found: &str) -> (r: String)
    ensures
        r@ == found@ + after_first(path@),
{
    let k = find_slash(path);
    proof { lemma_first_slash(path@); }
    let mut out = found.to_owned();
    out.append(path.substring_char(k, path.unicode_len()));
    out
}

/// The path that a path literal names: its value with its variables
/// substituted, or the kind of error that stops there.
pub open spec fn literal_target(lit: Seq<char>, vars: Seq<(String, String)>) -> Result<Seq<char>, ErrorKind> {
    match string_literal_value(lit) {
        None => Err(ErrorKind::InvalidInput),
        Some(v) => match substituted(v, vars) {
            None => Err(ErrorKind::IncludeError),
            Some(p) => Ok(p),
        },
    }
}

/// `r` is the outcome `t`, with errors at `at`.
pub open spec fn resolves_as(r: Result<String, PpError>, t: Result<Seq<char>, ErrorKind>, at: Position) -> bool {
    match t {
        Ok(x) => r matches Ok(p) && p@ == x,
        Err(k) => r matches Err(e) && e == (PpError { kind: k, position: at }),
    }
}

/// The value of a path literal, with its variables substituted.
fn literal_path(lit: &str, vars: &Vec<(String, String)>, at: Position) -> (r: Result<String, PpError>)
    ensures
        resolves_as(r, literal_target(lit@, vars@), at),
{
    let value = match decode_string(lit) {
        Some(v) => v,
        None => {
            return Err(PpError::new(ErrorKind::InvalidInput, at));
        },
    };
    match substitute_path_variables(value.as_str(), vars) {
        Some(p) => Ok(p),
        None => Err(PpError::new(ErrorKind::IncludeError, at)),
    }
}

/// What a glob over one root gave: a first matching path, a failure reading
/// the disk, or a malformed pattern.
pub type GlobOutcome = Result<Option<Result<String, glob::GlobError>>, glob::PatternError>;

/// The library path chosen from the glob outcomes of the roots, in order: a
/// root with no match passes to the next; the first root with a match has its
/// directory replace the path's first component; a failed glob is an include
/// error at `at`; when no root matches, the path stays as it is.
pub open spec fn lib_choice(path: Seq<char>, outs: Seq<GlobOutcome>, at: Position) -> Result<
    Seq<char>,
    PpError,
>
    decreases outs.len(),
{
    if outs.len() == 0 {
        Ok(path)
    } else {
        match outs[0] {
            Ok(None) => lib_choice(path, outs.drop_first(), at),
            Ok(Some(Ok(found))) => Ok(found@ + after_first(path)),
            _ => Err(PpError { kind: ErrorKind::IncludeError, position: at }),
        }
    }
}

/// The path of a result, as a sequence.
pub open spec fn path_result(r: Result<String, PpError>) -> Result<Seq<char>, PpError> {
    match r {
        Ok(p) => Ok(p@),
        Err(e) => Err(e),
    }
}

/// Chooses a library path from the glob outcomes of the roots, in order.
pub fn choose_lib_path(path: &str, outcomes: &Vec<GlobOutcome>, at: Position) -> (r: Result<String, PpError>)
    ensures
        path_result(r) == lib_choice(path@, outcomes@, at),
{
    let mut i: usize = 0;
    assert(outcomes@.subrange(0, outcomes@.len() as int) =~= outcomes@);
    while i < outcomes.len()
        invariant
            i <= outcomes@.len(),
            lib_choice(path@, outcomes@, at) == lib_choice(
                path@,
                outcomes@.subrange(i as int, outcomes@.len() as int),
                at,
            ),
        decreases outcomes@.len() - i,
    {
        let ghost rest = outcomes@.subrange(i as int, outcomes@.len() as int);
        assert(rest.drop_first() =~= outcomes@.subrange(i + 1, outcomes@.len() as int));
        assert(rest[0] == outcomes@[i as int]);
        match &outcomes[i] {
            Ok(None) => {},
            Ok(Some(Ok(found))) => {
                return Ok(rewrite_lib_path(path, found.as_str()));
            },
            _ => {
                return Err(PpError::new(ErrorKind::IncludeError, at));
            },
        }
        i = i + 1;
    }
    Ok(path.to_owned())
}

/// `r` is what an `include_lib` of the literal `lit` may give with `roots`
/// roots: the errors of the literal; the path itself when it names no
/// application or there are no roots; otherwise the choice that the roots'
/// glob outcomes, in order, make.
pub open spec fn lib_resolves(
    lit: Seq<char>,
    vars: Seq<(String, String)>,
    roots: nat,
    at: Position,
    r: Result<Seq<char>, PpError>,
) -> bool {
    match literal_target(lit, vars) {
        Err(k) => r == Err::<Seq<char>, PpError>(PpError { kind: k, position: at }),
        Ok(s) => if app_of(s) is None || roots == 0 {
            r == Ok::<Seq<char>, PpError>(s)
        } else {
            exists|outs: Seq<GlobOutcome>|
                #![trigger lib_choice(s, outs, at)]
                outs.len() == roots && r == lib_choice(s, outs, at)
        },
    }
}

impl Include {
    /// The path of the file to read in place of the directive: the literal's
    /// value, with a leading `$NAME` replaced by the variable's value.
    pub fn resolve(&self, vars: &Vec<(String, String)>) -> (r: Result<String, PpError>)
        ensures
            resolves_as(r, literal_target(self.path.text@, vars@), self.path.start),
    {
        literal_path(self.path.text.as_str(), vars, self.path.start)
    }
}

impl IncludeLib {
    /// The path of the library file to read in place of the directive. After
    /// variable substitution, a path whose first component names an application
    /// has that component replaced by the first directory `<app>-*` found under
    /// the roots, tried in order (see `root_outcome`); where none is found, the
    /// path stays as it is.
    pub fn include_lib(&self, vars: &Vec<(String, String)>, code_paths: &Vec<String>) -> (r: Result<String, PpError>)
        ensures
            lib_resolves(self.path.text@, vars@, code_paths@.len(), self.path.start, path_result(r)),
    {
        let at = self.path.start;
        let path = literal_path(self.path.text.as_str(), vars, at)?;
        let app = match lib_app_name(path.as_str()) {
            Some(a) => a,
            None => {
                return Ok(path);
            },
        };
        let mut outcomes: Vec<GlobOutcome> = Vec::new();
        let mut i: usize = 0;
        while i < code_paths.len()
            invariant
                i <= code_paths@.len(),
                outcomes@.len() == i,
            decreases code_paths@.len() - i,
        {
            let pattern = lib_pattern(code_paths[i].as_str(), app.as_str());
            outcomes.push(first_glob_match(pattern.as_str()));
            i = i + 1;
        }
        choose_lib_path(path.as_str(), &outcomes, at)
    }
}

} // verus!
