//! Splitting a command line into commands and the operators between them:
//! pipes and redirections of standard output and standard error.
use vstd::prelude::*;
use crate::text::{trim, trimmed_chars, trim_bounds, string_of, lemma_trim_idempotent};
use crate::words::{
    split_words,
    split_run,
    is_escaped_in_double,
    escaped_in_double,
    plain_in_double,
};
use crate::command::{
    Command,
    CommandSpec,
    lookup_total,
    resolves,
    consistent_lookup,
    lemma_resolution_unique,
};

verus! {

/// The characters that a backslash escapes inside double quotes.
pub const ESCAPED_CHARS_BY_BACKSLASH_IN_DOUBLE_QUOTES: [char; 5] = ['"', '\\', '$', '`', 'n'];

/// A piece of a command line, in the abstract: the text of a command, the
/// target of a redirection, or an operator.
pub enum LexemeSpec {
    Command(Seq<char>),
    Path(Seq<char>),
    Pipe,
    RedirectStdout,
    RedirectStderr,
    AppendStdout,
}

/// A piece of a command line: the text of a command, the target of a
/// redirection, or an operator.
#[derive(Debug, PartialEq, Clone)]
pub enum Lexeme {
    Command(String),
    Path(String),
    Pipe,
    RedirectStdout,
    RedirectStderr,
    AppendStdout,
}

impl View for Lexeme {
    type V = LexemeSpec;

    open spec fn view(&self) -> LexemeSpec {
        match self {
            Lexeme::Command(s) => LexemeSpec::Command(s@),
            Lexeme::Path(s) => LexemeSpec::Path(s@),
            Lexeme::Pipe => LexemeSpec::Pipe,
            Lexeme::RedirectStdout => LexemeSpec::RedirectStdout,
            Lexeme::RedirectStderr => LexemeSpec::RedirectStderr,
            Lexeme::AppendStdout => LexemeSpec::AppendStdout,
        }
    }
}

/// A token of a command line, in the abstract.
pub enum TokenSpec {
    Node(CommandSpec),
    Path(Seq<char>),
    Pipe,
    RedirectStdout,
    RedirectStderr,
    AppendStdout,
}

/// A token of a command line: a command, the target of a redirection, or
/// an operator.
#[derive(Debug, PartialEq, Clone)]
pub enum Token {
    Node(Command),
    Path(String),
    Pipe,
    RedirectStdout,
    RedirectStderr,
    AppendStdout,
}

impl View for Token {
    type V = TokenSpec;

    open spec fn view(&self) -> TokenSpec {
        match self {
            Token::Node(c) => TokenSpec::Node(c@),
            Token::Path(s) => TokenSpec::Path(s@),
            Token::Pipe => TokenSpec::Pipe,
            Token::RedirectStdout => TokenSpec::RedirectStdout,
            Token::RedirectStderr => TokenSpec::RedirectStderr,
            Token::AppendStdout => TokenSpec::AppendStdout,
        }
    }
}

/// The views of a sequence of lexemes.
pub open spec fn lexeme_views(v: Seq<Lexeme>) -> Seq<LexemeSpec> {
    v.map_values(|l: Lexeme| l@)
}

/// The views of a sequence of tokens.
pub open spec fn token_views(v: Seq<Token>) -> Seq<TokenSpec> {
    v.map_values(|t: Token| t@)
}

/// Where the lexer stands: the lexemes so far, the text being gathered, and
/// the quoting modes.
pub struct LexState {
    pub lexemes: Seq<LexemeSpec>,
    pub buf: Seq<char>,
    pub single: bool,
    pub double: bool,
    pub literal: bool,
}

pub open spec fn lex_init() -> LexState {
    LexState { lexemes: seq![], buf: seq![], single: false, double: false, literal: false }
}

/// The character at `j`, if there is one.
pub open spec fn peek(s: Seq<char>, j: int) -> Option<char> {
    if 0 <= j < s.len() {
        Some(s[j])
    } else {
        None
    }
}

/// The gathered text ends a command, which `op` follows.
pub open spec fn flush(st: LexState, op: LexemeSpec) -> LexState {
    LexState {
        lexemes: st.lexemes.push(LexemeSpec::Command(trim(st.buf))).push(op),
        buf: seq![],
        ..st
    }
}

/// `ch` joins the gathered text.
pub open spec fn gather(st: LexState, ch: char) -> LexState {
    LexState { buf: st.buf.push(ch), ..st }
}

/// One step of the lexer at position `i` of `s`: the position after the
/// characters it read, and its new state. Outside quotes, `|`, `>`, `>>`,
/// `1>`, `1>>` and `2>` end the command gathered so far; with nothing
/// gathered, `|` is a pipe, `>` and `1` redirect standard output and `2`
/// standard error. A `1` followed by `>` at the very end is dropped.
pub open spec fn lex_step(s: Seq<char>, i: int, st: LexState) -> (int, LexState) {
    let ch = s[i];
    if st.literal {
        let buf = if st.double && !escaped_in_double(ch) {
            st.buf.push('\\')
        } else {
            st.buf
        };
        (i + 1, LexState { buf: buf.push(ch), literal: false, ..st })
    } else if ch == '\\' && !st.single {
        (i + 1, LexState { buf: st.buf.push(ch), literal: true, ..st })
    } else if ch == '\'' && !st.double {
        (i + 1, LexState { buf: st.buf.push(ch), single: !st.single, ..st })
    } else if ch == '"' && !st.single {
        (i + 1, LexState { buf: st.buf.push(ch), double: !st.double, ..st })
    } else if st.single || st.double || !(ch == '|' || ch == '>' || ch == '1' || ch == '2') {
        (i + 1, gather(st, ch))
    } else if st.buf.len() == 0 {
        let op = if ch == '|' {
            LexemeSpec::Pipe
        } else if ch == '2' {
            LexemeSpec::RedirectStderr
        } else {
            LexemeSpec::RedirectStdout
        };
        (i + 1, LexState { lexemes: st.lexemes.push(op), ..st })
    } else if ch == '|' {
        (i + 1, flush(st, LexemeSpec::Pipe))
    } else if ch == '>' {
        if peek(s, i + 1) == Some('>') {
            (i + 2, flush(st, LexemeSpec::AppendStdout))
        } else {
            (i + 1, flush(st, LexemeSpec::RedirectStdout))
        }
    } else if ch == '1' {
        if peek(s, i + 1) != Some('>') {
            (i + 1, gather(st, ch))
        } else if peek(s, i + 2) == None::<char> {
            (i + 2, st)
        } else if peek(s, i + 2) == Some('>') {
            (i + 3, flush(st, LexemeSpec::AppendStdout))
        } else {
            (i + 2, flush(st, LexemeSpec::RedirectStdout))
        }
    } else {
        if peek(s, i + 1) == Some('>') {
            (i + 2, flush(st, LexemeSpec::RedirectStderr))
        } else {
            (i + 1, gather(st, ch))
        }
    }
}

/// Whether `l` redirects an output.
pub open spec fn is_redirect(l: LexemeSpec) -> bool {
    l is RedirectStdout || l is RedirectStderr || l is AppendStdout
}

/// Whether `l` is an operator.
pub open spec fn is_operator(l: LexemeSpec) -> bool {
    l is Pipe || is_redirect(l)
}

/// The lexemes once the line is read: text still gathered is the target
/// of a redirection that ends the line, or else a last command.
pub open spec fn lex_finish(st: LexState) -> Seq<LexemeSpec> {
    if st.buf.len() == 0 {
        st.lexemes
    } else if st.lexemes.len() > 0 && is_redirect(st.lexemes.last()) {
        st.lexemes.push(LexemeSpec::Path(trim(st.buf)))
    } else {
        st.lexemes.push(LexemeSpec::Command(trim(st.buf)))
    }
}

/// The lexemes of `s` read from position `i` in state `st`.
pub open spec fn lex_run(s: Seq<char>, i: int, st: LexState) -> Seq<LexemeSpec>
    decreases s.len() - i,
{
    if i < 0 || i >= s.len() {
        lex_finish(st)
    } else {
        let (j, st2) = lex_step(s, i, st);
        lex_run(s, j, st2)
    }
}

/// The lexemes of the command line `s`, which is trimmed first.
pub open spec fn lex_line(s: Seq<char>) -> Seq<LexemeSpec> {
    lex_run(trim(s), 0, lex_init())
}

/// Whether every command of the line `s` has a word; a command without
/// one (as in `a |  | b` or `''`) cannot be resolved, since it names nothing.
pub open spec fn tokenizable(s: Seq<char>) -> bool {
    forall|k: int|
        0 <= k < lex_line(s).len() ==> (#[trigger] lex_line(s)[k] matches LexemeSpec::Command(
            text,
        ) ==> split_words(text).len() > 0)
}

/// `t` is the token that the lexeme `l` becomes, commands being resolved
/// with `find_exe`.
pub open spec fn token_for<F: Fn(&str) -> Option<String>>(
    t: TokenSpec,
    l: LexemeSpec,
    find_exe: &F,
) -> bool {
    match l {
        LexemeSpec::Command(text) => t matches TokenSpec::Node(c) && resolves(
            c,
            split_words(text),
            find_exe,
        ),
        LexemeSpec::Path(p) => t == TokenSpec::Path(p),
        LexemeSpec::Pipe => t == TokenSpec::Pipe,
        LexemeSpec::RedirectStdout => t == TokenSpec::RedirectStdout,
        LexemeSpec::RedirectStderr => t == TokenSpec::RedirectStderr,
        LexemeSpec::AppendStdout => t == TokenSpec::AppendStdout,
    }
}

/// `tokens` are the tokens of the line `s`, one for each lexeme.
pub open spec fn tokens_of<F: Fn(&str) -> Option<String>>(
    tokens: Seq<TokenSpec>,
    s: Seq<char>,
    find_exe: &F,
) -> bool {
    &&& tokens.len() == lex_line(s).len()
    &&& forall|k: int|
        0 <= k < tokens.len() ==> token_for(#[trigger] tokens[k], lex_line(s)[k], find_exe)
}

spec fn state_of(
    lexemes: Seq<Lexeme>,
    buf: Seq<char>,
    single: bool,
    double: bool,
    literal: bool,
) -> LexState {
    LexState { lexemes: lexeme_views(lexemes), buf, single, double, literal }
}

/// The gathered text, trimmed, ends a command which `op` follows.
fn flush_exec(lexemes: &mut Vec<Lexeme>, buf: &mut Vec<char>, op: Lexeme)
    ensures
        lexeme_views(final(lexemes)@) == lexeme_views(old(lexemes)@).push(
            LexemeSpec::Command(trim(old(buf)@)),
        ).push(op@),
        final(buf)@ == Seq::<char>::empty(),
{
    let (lo, hi) = trim_bounds(buf);
    let text = string_of(buf, lo, hi);
    let ghost before = lexemes@;
    lexemes.push(Lexeme::Command(text));
    lexemes.push(op);
    assert(lexeme_views(lexemes@) =~= lexeme_views(before).push(
        LexemeSpec::Command(trim(old(buf)@)),
    ).push(op@));
    *buf = Vec::new();
}

/// The lexemes of the command line `args`.
pub fn lex(args: &str) -> (r: Vec<Lexeme>)
    ensures
        lexeme_views(r@) == lex_line(args@),
{
    let t = trimmed_chars(args);
    let ghost ts = t@;
    let n = t.len();
    let mut lexemes: Vec<Lexeme> = Vec::new();
    let mut buf: Vec<char> = Vec::new();
    let mut single = false;
    let mut double = false;
    let mut literal = false;
    let mut i: usize = 0;
    assert(lexeme_views(lexemes@) =~= Seq::<LexemeSpec>::empty());
    assert(state_of(lexemes@, buf@, single, double, literal) == lex_init());
    while i < n
        invariant
            i <= n == t.len(),
            t@ == ts,
            ts == trim(args@),
            lex_line(args@) == lex_run(ts, i as int, state_of(lexemes@, buf@, single, double, literal)),
        decreases n - i,
    {
        let ghost st = state_of(lexemes@, buf@, single, double, literal);
        let ghost step = lex_step(ts, i as int, st);
        let ghost old_lex = lexemes@;
        let ch = t[i];
        if literal {
            literal = false;
            if double && !is_escaped_in_double(ch) {
                buf.push('\\');
            }
            buf.push(ch);
            i = i + 1;
        } else if ch == '\\' && !single {
            buf.push(ch);
            literal = true;
            i = i + 1;
        } else if ch == '\'' && !double {
            single = !single;
            buf.push(ch);
            i = i + 1;
        } else if ch == '"' && !single {
            double = !double;
            buf.push(ch);
            i = i + 1;
        } else if single || double || !(ch == '|' || ch == '>' || ch == '1' || ch == '2') {
            buf.push(ch);
            i = i + 1;
        } else if buf.len() == 0 {
            if ch == '|' {
                lexemes.push(Lexeme::Pipe);
            } else if ch == '2' {
                lexemes.push(Lexeme::RedirectStderr);
            } else {
                lexemes.push(Lexeme::RedirectStdout);
            }
            i = i + 1;
            assert(lexeme_views(lexemes@) =~= step.1.lexemes);
        } else if ch == '|' {
            flush_exec(&mut lexemes, &mut buf, Lexeme::Pipe);
            i = i + 1;
        } else if ch == '>' {
            if i + 1 < n && t[i + 1] == '>' {
                flush_exec(&mut lexemes, &mut buf, Lexeme::AppendStdout);
                i = i + 2;
            } else {
                flush_exec(&mut lexemes, &mut buf, Lexeme::RedirectStdout);
                i = i + 1;
            }
        } else if ch == '1' {
            if !(i + 1 < n && t[i + 1] == '>') {
                buf.push(ch);
                i = i + 1;
            } else if i + 2 >= n {
                i = i + 2;
            } else if t[i + 2] == '>' {
                flush_exec(&mut lexemes, &mut buf, Lexeme::AppendStdout);
                i = i + 3;
            } else {
                flush_exec(&mut lexemes, &mut buf, Lexeme::RedirectStdout);
                i = i + 2;
            }
        } else {
            if i + 1 < n && t[i + 1] == '>' {
                flush_exec(&mut lexemes, &mut buf, Lexeme::RedirectStderr);
                i = i + 2;
            } else {
                buf.push(ch);
                i = i + 1;
            }
        }
        proof {
            let now = state_of(lexemes@, buf@, single, double, literal);
            assert(now.lexemes =~= step.1.lexemes);
            assert(now.buf =~= step.1.buf);
            assert(now == step.1);
            assert(i == step.0);
        }
    }
    let ghost st = state_of(lexemes@, buf@, single, double, literal);
    if buf.len() != 0 {
        let (lo, hi) = trim_bounds(&buf);
        let text = string_of(&buf, lo, hi);
        let last_is_redirect = match lexemes.last() {
            Some(Lexeme::RedirectStdout) | Some(Lexeme::RedirectStderr) | Some(
                Lexeme::AppendStdout,
            ) => true,
            _ => false,
        };
        if last_is_redirect {
            lexemes.push(Lexeme::Path(text));
        } else {
            lexemes.push(Lexeme::Command(text));
        }
    }
    assert(lexeme_views(lexemes@) =~= lex_finish(st));
    lexemes
}

/// Whether `text` has at least one word.
pub fn has_words(text: &str) -> (r: bool)
    ensures
        r == (split_words(text@).len() > 0),
{
    let (words, buf) = split_run(text);
    words.len() > 0 || !buf.as_str().is_empty()
}

/// Whether every command among `lexemes` has a word.
fn all_have_words(lexemes: &Vec<Lexeme>) -> (r: bool)
    ensures
        r == forall|k: int|
            0 <= k < lexemes@.len() ==> (#[trigger] lexeme_views(lexemes@)[k] matches LexemeSpec::Command(
                text,
            ) ==> split_words(text).len() > 0),
{
    let mut i: usize = 0;
    while i < lexemes.len()
        invariant
            i <= lexemes.len(),
            forall|k: int|
                0 <= k < i ==> (#[trigger] lexeme_views(lexemes@)[k] matches LexemeSpec::Command(
                    text,
                ) ==> split_words(text).len() > 0),
        decreases lexemes.len() - i,
    {
        match &lexemes[i] {
            Lexeme::Command(text) => {
                if !has_words(text.as_str()) {
                    assert(lexeme_views(lexemes@)[i as int] == LexemeSpec::Command(text@));
                    return false;
                }
            },
            _ => {},
        }
        i = i + 1;
    }
    true
}

/// The tokens that `lexemes` become, commands being resolved with
/// `find_exe`.
fn resolve_all<F: Fn(&str) -> Option<String>>(lexemes: &Vec<Lexeme>, find_exe: &F) -> (r: Vec<
    Token,
>)
    requires
        lookup_total(find_exe),
        forall|k: int|
            0 <= k < lexemes@.len() ==> (#[trigger] lexeme_views(lexemes@)[k] matches LexemeSpec::Command(
                text,
            ) ==> split_words(text).len() > 0),
    ensures
        r@.len() == lexemes@.len(),
        forall|k: int|
            0 <= k < r@.len() ==> token_for(
                #[trigger] token_views(r@)[k],
                lexeme_views(lexemes@)[k],
                find_exe,
            ),
{
    let mut tokens: Vec<Token> = Vec::new();
    let mut i: usize = 0;
    while i < lexemes.len()
        invariant
            i <= lexemes.len(),
            tokens@.len() == i,
            lookup_total(find_exe),
            forall|k: int|
                0 <= k < lexemes@.len() ==> (#[trigger] lexeme_views(lexemes@)[k] matches LexemeSpec::Command(
                    text,
                ) ==> split_words(text).len() > 0),
            forall|k: int|
                0 <= k < i ==> token_for(
                    #[trigger] token_views(tokens@)[k],
                    lexeme_views(lexemes@)[k],
                    find_exe,
                ),
        decreases lexemes.len() - i,
    {
        let ghost l = lexeme_views(lexemes@)[i as int];
        let tok = match &lexemes[i] {
            Lexeme::Command(text) => {
                assert(l == LexemeSpec::Command(text@));
                Token::Node(Command::from_string(text.as_str(), find_exe))
            },
            Lexeme::Path(p) => Token::Path(p.clone()),
            Lexeme::Pipe => Token::Pipe,
            Lexeme::RedirectStdout => Token::RedirectStdout,
            Lexeme::RedirectStderr => Token::RedirectStderr,
            Lexeme::AppendStdout => Token::AppendStdout,
        };
        assert(token_for(tok@, l, find_exe));
        let ghost before = tokens@;
        tokens.push(tok);
        assert forall|k: int| 0 <= k < i + 1 implies token_for(
            #[trigger] token_views(tokens@)[k],
            lexeme_views(lexemes@)[k],
            find_exe,
        ) by {
            if k < i {
                assert(token_views(tokens@)[k] == token_views(before)[k]);
            }
        }
        i = i + 1;
    }
    tokens
}

/// The tokens of the command line `args`: its commands, with the operators
/// and redirection targets between them. Commands that are not builtins are
/// looked up with `find_exe`.
pub fn tokenize<F: Fn(&str) -> Option<String>>(args: &str, find_exe: &F) -> (r: Vec<Token>)
    requires
        lookup_total(find_exe),
        tokenizable(args@),
    ensures
        tokens_of(token_views(r@), args@, find_exe),
{
    let lexemes = lex(args);
    let r = resolve_all(&lexemes, find_exe);
    assert(token_views(r@).len() == lex_line(args@).len());
    r
}

/// The tokens of `args` as `tokenize` gives them, or `None` where a
/// command of the line has no word.
pub fn try_tokenize<F: Fn(&str) -> Option<String>>(args: &str, find_exe: &F) -> (r: Option<
    Vec<Token>,
>)
    requires
        lookup_total(find_exe),
    ensures
        r is None <==> !tokenizable(args@),
        r matches Some(tokens) ==> tokens_of(token_views(tokens@), args@, find_exe),
{
    let lexemes = lex(args);
    if all_have_words(&lexemes) {
        let r = resolve_all(&lexemes, find_exe);
        assert(token_views(r@).len() == lex_line(args@).len());
        Some(r)
    } else {
        None
    }
}

/// Lexemes that a line read so far can end with: no path yet, and every
/// command followed by an operator.
pub open spec fn partial_lexemes(ls: Seq<LexemeSpec>) -> bool {
    &&& forall|k: int| 0 <= k < ls.len() ==> !(#[trigger] ls[k] is Path)
    &&& forall|k: int|
        0 <= k < ls.len() && #[trigger] ls[k] is Command ==> k + 1 < ls.len() && is_operator(
            ls[k + 1],
        )
}

/// Where lexemes stand in a line: a path only last, right after a
/// redirection; a command only last or right before an operator.
pub open spec fn well_placed(ls: Seq<LexemeSpec>) -> bool {
    &&& forall|k: int|
        0 <= k < ls.len() && #[trigger] ls[k] is Path ==> k == ls.len() - 1 && k >= 1
            && is_redirect(ls[k - 1])
    &&& forall|k: int|
        0 <= k < ls.len() && #[trigger] ls[k] is Command ==> k == ls.len() - 1 || is_operator(
            ls[k + 1],
        )
}

proof fn lemma_step_partial(s: Seq<char>, i: int, st: LexState)
    requires
        0 <= i < s.len(),
        partial_lexemes(st.lexemes),
    ensures
        partial_lexemes(lex_step(s, i, st).1.lexemes),
{
    let ls = st.lexemes;
    let nl = lex_step(s, i, st).1.lexemes;
    if nl.len() == ls.len() + 1 {
        assert forall|k: int| 0 <= k < nl.len() && #[trigger] nl[k] is Command implies k + 1
            < nl.len() && is_operator(nl[k + 1]) by {
            assert(k < ls.len());
            assert(nl[k] == ls[k]);
        }
        assert forall|k: int| 0 <= k < nl.len() implies !(#[trigger] nl[k] is Path) by {
            if k < ls.len() {
                assert(nl[k] == ls[k]);
            }
        }
    } else if nl.len() == ls.len() + 2 {
        assert forall|k: int| 0 <= k < nl.len() && #[trigger] nl[k] is Command implies k + 1
            < nl.len() && is_operator(nl[k + 1]) by {
            if k < ls.len() {
                assert(nl[k] == ls[k]);
                if k + 1 < ls.len() {
                    assert(nl[k + 1] == ls[k + 1]);
                }
            }
        }
        assert forall|k: int| 0 <= k < nl.len() implies !(#[trigger] nl[k] is Path) by {
            if k < ls.len() {
                assert(nl[k] == ls[k]);
            }
        }
    } else {
        assert(nl == ls);
    }
}

proof fn lemma_finish_well_placed(st: LexState)
    requires
        partial_lexemes(st.lexemes),
    ensures
        well_placed(lex_finish(st)),
{
    let ls = st.lexemes;
    let f = lex_finish(st);
    if st.buf.len() > 0 {
        assert forall|k: int| 0 <= k < f.len() && #[trigger] f[k] is Path implies k == f.len()
            - 1 && k >= 1 && is_redirect(f[k - 1]) by {
            if k < ls.len() {
                assert(f[k] == ls[k]);
            }
        }
        assert forall|k: int| 0 <= k < f.len() && #[trigger] f[k] is Command implies k == f.len()
            - 1 || is_operator(f[k + 1]) by {
            if k < ls.len() {
                assert(f[k] == ls[k]);
                if k + 1 < ls.len() {
                    assert(f[k + 1] == ls[k + 1]);
                }
            }
        }
    }
}

proof fn lemma_run_well_placed(s: Seq<char>, i: int, st: LexState)
    requires
        partial_lexemes(st.lexemes),
    ensures
        well_placed(lex_run(s, i, st)),
    decreases s.len() - i,
{
    if i < 0 || i >= s.len() {
        lemma_finish_well_placed(st);
    } else {
        let (j, st2) = lex_step(s, i, st);
        lemma_step_partial(s, i, st);
        lemma_run_well_placed(s, j, st2);
    }
}

/// The lexemes of any line are well placed: a redirection target comes only
/// last, right after a redirection operator, and a command is followed by an
/// operator unless it ends the line.
pub proof fn lemma_lexemes_well_placed(s: Seq<char>)
    ensures
        well_placed(lex_line(s)),
{
    lemma_run_well_placed(trim(s), 0, lex_init());
}

/// Whitespace around a command line does not change its lexemes.
pub proof fn lemma_lex_ignores_surrounding_whitespace(s: Seq<char>)
    ensures
        lex_line(trim(s)) == lex_line(s),
{
    lemma_trim_idempotent(s);
}

/// A line whose trimmed text is not empty and has none of `|`, `>`, `1`,
/// `2` and `\\`: nothing in it can make an operator.
pub open spec fn plain_line(s: Seq<char>) -> bool {
    let t = trim(s);
    &&& t.len() > 0
    &&& forall|j: int|
        0 <= j < t.len() ==> !(#[trigger] t[j] == '|' || t[j] == '>' || t[j] == '1' || t[j] == '2'
            || t[j] == '\\')
}

proof fn lemma_run_plain(t: Seq<char>, i: int, st: LexState)
    requires
        0 <= i <= t.len(),
        t.len() > 0,
        st.lexemes.len() == 0,
        st.buf == t.take(i),
        !st.literal,
        forall|j: int|
            0 <= j < t.len() ==> !(#[trigger] t[j] == '|' || t[j] == '>' || t[j] == '1' || t[j]
                == '2' || t[j] == '\\'),
    ensures
        lex_run(t, i, st) == seq![LexemeSpec::Command(trim(t))],
    decreases t.len() - i,
{
    if i >= t.len() {
        assert(st.buf =~= t);
        assert(lex_finish(st) =~= seq![LexemeSpec::Command(trim(t))]);
    } else {
        let (j, st2) = lex_step(t, i, st);
        let c = t[i];
        assert(!(c == '|' || c == '>' || c == '1' || c == '2' || c == '\\'));
        assert(j == i + 1);
        assert(st2.buf =~= t.take(i + 1));
        lemma_run_plain(t, j, st2);
    }
}

/// A line in which nothing can make an operator is a single command: its
/// trimmed text.
pub proof fn lemma_plain_line_is_one_command(s: Seq<char>)
    requires
        plain_line(s),
    ensures
        lex_line(s) == seq![LexemeSpec::Command(trim(s))],
{
    let t = trim(s);
    assert(lex_init().buf =~= t.take(0));
    lemma_run_plain(t, 0, lex_init());
    lemma_trim_idempotent(s);
}

/// The tokens of a line in which nothing can make an operator are a single
/// command, resolved from the words of the line; with a lookup that answers
/// alike for the same name, it is the command that the trimmed line names
/// (`lemma_resolution_unique`).
pub proof fn lemma_plain_line_tokenizes_to_one_command<F: Fn(&str) -> Option<String>>(
    tokens: Seq<TokenSpec>,
    s: Seq<char>,
    find_exe: &F,
)
    requires
        plain_line(s),
        tokens_of(tokens, s, find_exe),
    ensures
        tokens.len() == 1,
        tokens[0] matches TokenSpec::Node(c) && resolves(c, split_words(trim(s)), find_exe),
        split_words(trim(s)) == split_words(s),
{
    lemma_plain_line_is_one_command(s);
    lemma_trim_idempotent(s);
    assert(token_for(tokens[0], lex_line(s)[0], find_exe));
}

/// With a lookup that answers alike for the same name, the tokens of a line
/// in which nothing can make an operator are exactly one command: the one
/// that the trimmed line names (what `Command::from_string` gives for it).
pub proof fn lemma_plain_line_is_named_command<F: Fn(&str) -> Option<String>>(
    tokens: Seq<TokenSpec>,
    s: Seq<char>,
    c: CommandSpec,
    find_exe: &F,
)
    requires
        plain_line(s),
        split_words(trim(s)).len() > 0,
        consistent_lookup(find_exe),
        tokens_of(tokens, s, find_exe),
        resolves(c, split_words(trim(s)), find_exe),
    ensures
        tokens == seq![TokenSpec::Node(c)],
{
    lemma_plain_line_tokenizes_to_one_command(tokens, s, find_exe);
    let c0 = tokens[0]->Node_0;
    lemma_resolution_unique(c0, c, split_words(trim(s)), find_exe);
    assert(tokens =~= seq![TokenSpec::Node(c)]);
}

/// Inside double quotes a single quote is an ordinary character: it joins
/// the gathered text and changes no quoting mode.
pub proof fn lemma_single_quote_in_double_quotes(s: Seq<char>, i: int, st: LexState)
    requires
        0 <= i < s.len(),
        s[i] == '\'',
        st.double,
        !st.literal,
    ensures
        lex_step(s, i, st) == (i + 1, (LexState { buf: st.buf.push('\''), ..st })),
{
}

/// Inside double quotes, characters other than `"` and a backslash are gathered as
/// they are: reading them changes neither the quoting modes nor the lexemes,
/// whatever they are (`'`, `|`, `>`, `1`, `2`, spaces), and the line goes on
/// as if they had been gathered at once.
pub proof fn lemma_double_quoted_text(s: Seq<char>, i: int, k: int, st: LexState)
    requires
        0 <= i <= k <= s.len(),
        st.double,
        !st.literal,
        forall|j: int| i <= j < k ==> plain_in_double(#[trigger] s[j]),
    ensures
        lex_run(s, i, st) == lex_run(s, k, (LexState { buf: st.buf + s.subrange(i, k), ..st })),
    decreases k - i,
{
    if i == k {
        assert(st.buf + s.subrange(i, k) =~= st.buf);
        assert(LexState { buf: st.buf + s.subrange(i, k), ..st } == st);
    } else {
        let ch = s[i];
        assert(ch != '"' && ch != '\\');
        let st2 = LexState { buf: st.buf.push(ch), ..st };
        assert(lex_step(s, i, st) == (i + 1, st2));
        lemma_double_quoted_text(s, i + 1, k, st2);
        assert(st2.buf + s.subrange(i + 1, k) =~= st.buf + s.subrange(i, k));
    }
}

/// Inside single quotes every character but `'` is gathered as it is
/// (`"`, a backslash, `|`, `>` among them): reading them changes neither the
/// quoting modes nor the lexemes.
pub proof fn lemma_single_quoted_text(s: Seq<char>, i: int, k: int, st: LexState)
    requires
        0 <= i <= k <= s.len(),
        st.single,
        !st.double,
        !st.literal,
        forall|j: int| i <= j < k ==> #[trigger] s[j] != '\'',
    ensures
        lex_run(s, i, st) == lex_run(s, k, (LexState { buf: st.buf + s.subrange(i, k), ..st })),
    decreases k - i,
{
    if i == k {
        assert(st.buf + s.subrange(i, k) =~= st.buf);
        assert(LexState { buf: st.buf + s.subrange(i, k), ..st } == st);
    } else {
        let ch = s[i];
        let st2 = LexState { buf: st.buf.push(ch), ..st };
        assert(lex_step(s, i, st) == (i + 1, st2));
        lemma_single_quoted_text(s, i + 1, k, st2);
        assert(st2.buf + s.subrange(i + 1, k) =~= st.buf + s.subrange(i, k));
    }
}

} // verus!
