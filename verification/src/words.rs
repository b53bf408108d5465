//! Splitting a command into words, with shell quoting: single quotes,
//! double quotes and backslash escapes.
use vstd::prelude::*;
use crate::text::{trim, trim_start, trim_end, trimmed_chars, push_char};

verus! {

/// The characters that a backslash escapes inside double quotes; before any
/// other character the backslash stays.
pub open spec fn escaped_in_double(c: char) -> bool {
    c == '"' || c == '\\' || c == '$' || c == '`' || c == 'n'
}

/// Whether a backslash escapes `c` inside double quotes.
pub fn is_escaped_in_double(c: char) -> (r: bool)
    ensures
        r == escaped_in_double(c),
{
    let escaped = crate::lexer::ESCAPED_CHARS_BY_BACKSLASH_IN_DOUBLE_QUOTES;
    let mut i: usize = 0;
    while i < escaped.len()
        invariant
            i <= 5,
            escaped == crate::lexer::ESCAPED_CHARS_BY_BACKSLASH_IN_DOUBLE_QUOTES,
            forall|j: int| 0 <= j < i ==> c != #[trigger] escaped@[j],
        decreases 5 - i,
    {
        if escaped[i] == c {
            return true;
        }
        i = i + 1;
    }
    assert(c != escaped@[0] && c != escaped@[1] && c != escaped@[2] && c != escaped@[3]
        && c != escaped@[4]);
    false
}

/// Whether `c` is read as it is inside double quotes: it neither closes
/// them nor escapes.
pub open spec fn plain_in_double(c: char) -> bool {
    c != '"' && c != '\\'
}

/// Where the splitter stands after some characters: the words finished so
/// far, the word being built, and the quoting modes.
pub struct SplitState {
    pub words: Seq<Seq<char>>,
    pub buf: Seq<char>,
    pub single: bool,
    pub double: bool,
    pub literal: bool,
}

pub open spec fn split_init() -> SplitState {
    SplitState { words: seq![], buf: seq![], single: false, double: false, literal: false }
}

/// One character read by the splitter.
pub open spec fn split_step(st: SplitState, ch: char) -> SplitState {
    if st.literal {
        let buf = if st.double && !escaped_in_double(ch) {
            st.buf.push('\\')
        } else {
            st.buf
        };
        SplitState { buf: buf.push(ch), literal: false, ..st }
    } else if ch == '\\' && !st.single {
        SplitState { literal: true, ..st }
    } else if ch == '\'' && !st.double {
        SplitState { single: !st.single, ..st }
    } else if ch == '"' && !st.single {
        SplitState { double: !st.double, ..st }
    } else if ch == ' ' && !(st.single || st.double) {
        if st.buf.len() == 0 {
            st
        } else {
            SplitState { words: st.words.push(st.buf), buf: seq![], ..st }
        }
    } else {
        SplitState { buf: st.buf.push(ch), ..st }
    }
}

/// The splitter's state after the first `n` characters of `s`.
pub open spec fn split_prefix(s: Seq<char>, n: nat) -> SplitState
    recommends
        n <= s.len(),
    decreases n,
{
    if n == 0 {
        split_init()
    } else {
        split_step(split_prefix(s, (n - 1) as nat), s[n - 1])
    }
}

/// The splitter's state after all of `s`, once trimmed.
pub open spec fn split_all(s: Seq<char>) -> SplitState {
    let t = trim(s);
    split_prefix(t, t.len())
}

/// The words of `s`: those the splitter finished, and the last one if it is
/// not empty.
pub open spec fn split_words(s: Seq<char>) -> Seq<Seq<char>> {
    let st = split_all(s);
    if st.buf.len() > 0 {
        st.words.push(st.buf)
    } else {
        st.words
    }
}

/// The views of a sequence of strings.
pub open spec fn views(v: Seq<String>) -> Seq<Seq<char>> {
    v.map_values(|s: String| s@)
}

/// Runs the splitter over the trimmed `command`: the finished words and the
/// word still being built at the end.
pub fn split_run(command: &str) -> (r: (Vec<String>, String))
    ensures
        views(r.0@) == split_all(command@).words,
        r.1@ == split_all(command@).buf,
        forall|i: int| 0 <= i < r.0@.len() ==> (#[trigger] r.0@[i])@.len() > 0,
{
    let t = trimmed_chars(command);
    let ghost ts = t@;
    let mut single = false;
    let mut double = false;
    let mut literal = false;
    let mut buf = String::new();
    let mut words: Vec<String> = Vec::new();
    let mut i: usize = 0;
    while i < t.len()
        invariant
            i <= t.len(),
            t@ == ts,
            ts == trim(command@),
            ({
                let st = split_prefix(ts, i as nat);
                &&& views(words@) == st.words
                &&& buf@ == st.buf
                &&& single == st.single
                &&& double == st.double
                &&& literal == st.literal
            }),
        decreases t.len() - i,
    {
        let ch = t[i];
        let ghost before = split_prefix(ts, i as nat);
        if literal {
            literal = false;
            if double && !is_escaped_in_double(ch) {
                push_char(&mut buf, '\\');
            }
            push_char(&mut buf, ch);
        } else if ch == '\\' && !single {
            literal = true;
        } else if ch == '\'' && !double {
            single = !single;
        } else if ch == '"' && !single {
            double = !double;
        } else if ch == ' ' && !(single || double) {
            if buf.as_str().is_empty() {
            } else {
                words.push(buf.clone());
                buf = String::new();
            }
        } else {
            push_char(&mut buf, ch);
        }
        proof {
            assert(split_prefix(ts, (i + 1) as nat) == split_step(before, ch));
            assert(views(words@) =~= split_step(before, ch).words);
            assert(buf@ =~= split_step(before, ch).buf);
        }
        i = i + 1;
    }
    proof {
        lemma_prefix_words_nonempty(ts, ts.len());
        assert forall|i: int| 0 <= i < words@.len() implies (#[trigger] words@[i])@.len() > 0 by {
            assert(views(words@)[i] == words@[i]@);
        }
    }
    (words, buf)
}

/// The splitter only ever finishes non-empty words.
proof fn lemma_prefix_words_nonempty(s: Seq<char>, n: nat)
    requires
        n <= s.len(),
    ensures
        forall|i: int|
            0 <= i < split_prefix(s, n).words.len() ==> (#[trigger] split_prefix(s, n).words[i]).len()
                > 0,
    decreases n,
{
    if n > 0 {
        lemma_prefix_words_nonempty(s, (n - 1) as nat);
        let st = split_prefix(s, (n - 1) as nat);
        let st2 = split_prefix(s, n);
        assert forall|i: int| 0 <= i < st2.words.len() implies (#[trigger] st2.words[i]).len() > 0 by {
            if i < st.words.len() {
                assert(st2.words[i] == st.words[i]);
            }
        }
    }
}

/// No word of a command is empty: quotes that hold nothing make no word.
pub proof fn lemma_words_nonempty(s: Seq<char>)
    ensures
        forall|i: int| 0 <= i < split_words(s).len() ==> (#[trigger] split_words(s)[i]).len() > 0,
{
    let t = trim(s);
    let st = split_all(s);
    lemma_prefix_words_nonempty(t, t.len());
    assert forall|i: int| 0 <= i < split_words(s).len() implies (#[trigger] split_words(s)[i]).len()
        > 0 by {
        if i < st.words.len() {
            assert(split_words(s)[i] == st.words[i]);
        }
    }
}

/// Whether `c` is read as a character of a word wherever it stands: it is
/// neither a space, a quote nor a backslash.
pub open spec fn word_char(c: char) -> bool {
    !(c == ' ' || c == '\'' || c == '"' || c == '\\')
}

/// Once the splitter has read a word character, it holds a word: finished,
/// or being built.
proof fn lemma_prefix_has_word(s: Seq<char>, j: int, n: nat)
    requires
        0 <= j < n <= s.len(),
        word_char(s[j]),
    ensures
        split_prefix(s, n).words.len() > 0 || split_prefix(s, n).buf.len() > 0,
    decreases n,
{
    if n > j + 1 {
        lemma_prefix_has_word(s, j, (n - 1) as nat);
    }
}

/// A command with a word character after trimming has at least one word.
pub proof fn lemma_word_char_makes_word(s: Seq<char>, j: int)
    requires
        0 <= j < trim(s).len(),
        word_char(trim(s)[j]),
    ensures
        split_words(s).len() > 0,
{
    let t = trim(s);
    lemma_prefix_has_word(t, j, t.len());
}

/// Inside double quotes a single quote is a character of the word: it is
/// added to the word and changes no quoting mode.
pub proof fn lemma_split_single_quote_in_double_quotes(st: SplitState)
    requires
        st.double,
        !st.literal,
    ensures
        split_step(st, '\'') == (SplitState { buf: st.buf.push('\''), ..st }),
{
}

/// Inside double quotes, characters other than `"` and a backslash join the word
/// as they are (`'` and spaces among them): the words and the quoting modes
/// stay as they were.
pub proof fn lemma_split_double_quoted_text(s: Seq<char>, i: nat, k: nat)
    requires
        i <= k <= s.len(),
        split_prefix(s, i).double,
        !split_prefix(s, i).literal,
        forall|j: int| i <= j < k ==> plain_in_double(#[trigger] s[j]),
    ensures
        split_prefix(s, k) == (SplitState {
            buf: split_prefix(s, i).buf + s.subrange(i as int, k as int),
            ..split_prefix(s, i)
        }),
    decreases k,
{
    let st = split_prefix(s, i);
    if k == i {
        assert(st.buf + s.subrange(i as int, k as int) =~= st.buf);
    } else {
        lemma_split_double_quoted_text(s, i, (k - 1) as nat);
        let prev = split_prefix(s, (k - 1) as nat);
        assert(s[k - 1] != '"' && s[k - 1] != '\\');
        assert(prev.buf.push(s[k - 1]) =~= st.buf + s.subrange(i as int, k as int));
    }
}

/// A double-quoted word without `"` or a backslash inside is that one word, quotes
/// removed: `"x'y"` is the word `x'y`, `"a b"` the word `a b`.
pub proof fn lemma_double_quoted_word(x: Seq<char>)
    requires
        x.len() > 0,
        forall|j: int| 0 <= j < x.len() ==> plain_in_double(#[trigger] x[j]),
    ensures
        split_words(seq!['"'] + x + seq!['"']) == seq![x],
{
    let t = seq!['"'] + x + seq!['"'];
    let n = x.len();
    assert(t[0] == '"');
    assert(t.last() == '"');
    assert(trim_start(t) == t);
    assert(trim_end(t) == t);
    assert(trim(t) == t);
    assert(split_prefix(t, 0) == split_init());
    assert(split_prefix(t, 1) == split_step(split_prefix(t, 0), t[0]));
    assert(split_prefix(t, 1).double && !split_prefix(t, 1).literal);
    assert forall|j: int| 1 <= j < 1 + n implies plain_in_double(#[trigger] t[j]) by {
        assert(t[j] == x[j - 1]);
    }
    lemma_split_double_quoted_text(t, 1, 1 + n);
    assert(t.subrange(1, 1 + n as int) =~= x);
    assert(split_prefix(t, 1).buf + x =~= x);
    assert(t[n as int + 1] == '"');
    assert(split_prefix(t, n + 2) == split_step(split_prefix(t, n + 1), '"'));
    assert(t.len() == n + 2);
}

/// Inside single quotes every character but `'` joins the word as it is
/// (`"`, a backslash and spaces among them): the words and the quoting modes stay
/// as they were.
pub proof fn lemma_split_single_quoted_text(s: Seq<char>, i: nat, k: nat)
    requires
        i <= k <= s.len(),
        split_prefix(s, i).single,
        !split_prefix(s, i).double,
        !split_prefix(s, i).literal,
        forall|j: int| i <= j < k ==> #[trigger] s[j] != '\'',
    ensures
        split_prefix(s, k) == (SplitState {
            buf: split_prefix(s, i).buf + s.subrange(i as int, k as int),
            ..split_prefix(s, i)
        }),
    decreases k,
{
    let st = split_prefix(s, i);
    if k == i {
        assert(st.buf + s.subrange(i as int, k as int) =~= st.buf);
    } else {
        lemma_split_single_quoted_text(s, i, (k - 1) as nat);
        let prev = split_prefix(s, (k - 1) as nat);
        assert(s[k - 1] != '\'');
        assert(prev.buf.push(s[k - 1]) =~= st.buf + s.subrange(i as int, k as int));
    }
}

/// A single-quoted word without `'` inside is that one word, quotes
/// removed: `'a "b" c'` is the word `a "b" c`, and a backslash inside stays.
pub proof fn lemma_single_quoted_word(x: Seq<char>)
    requires
        x.len() > 0,
        forall|j: int| 0 <= j < x.len() ==> #[trigger] x[j] != '\'',
    ensures
        split_words(seq!['\''] + x + seq!['\'']) == seq![x],
{
    let t = seq!['\''] + x + seq!['\''];
    let n = x.len();
    assert(t[0] == '\'');
    assert(t.last() == '\'');
    assert(trim_start(t) == t);
    assert(trim_end(t) == t);
    assert(trim(t) == t);
    assert(split_prefix(t, 0) == split_init());
    assert(split_prefix(t, 1) == split_step(split_prefix(t, 0), t[0]));
    assert(split_prefix(t, 1).single && !split_prefix(t, 1).double && !split_prefix(t, 1).literal);
    assert forall|j: int| 1 <= j < 1 + n implies #[trigger] t[j] != '\'' by {
        assert(t[j] == x[j - 1]);
    }
    lemma_split_single_quoted_text(t, 1, 1 + n);
    assert(t.subrange(1, 1 + n as int) =~= x);
    assert(split_prefix(t, 1).buf + x =~= x);
    assert(t[n as int + 1] == '\'');
    assert(split_prefix(t, n + 2) == split_step(split_prefix(t, n + 1), '\''));
    assert(t.len() == n + 2);
}

} // verus!
