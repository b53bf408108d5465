//! Completing the word under the cursor with the names of known commands.
use vstd::prelude::*;
use vstd::utf8::{encode_utf8, is_char_boundary};
use crate::text::{chars_of, chars_eq};
use crate::words::views;

verus! {

/// How many leading characters `a` and `b` have in common.
pub open spec fn common_len(a: Seq<char>, b: Seq<char>) -> nat
    decreases a.len(),
{
    if a.len() > 0 && b.len() > 0 && a[0] == b[0] {
        1 + common_len(a.drop_first(), b.drop_first())
    } else {
        0
    }
}

/// The number of characters that `first` has in common with each of
/// `rest`, at most the number of bytes of `first`.
pub open spec fn lcp_len(first: Seq<char>, rest: Seq<Seq<char>>) -> nat
    decreases rest.len(),
{
    if rest.len() == 0 {
        encode_utf8(first).len()
    } else {
        let k = lcp_len(first, rest.drop_last());
        let c = common_len(first, rest.last());
        if c < k {
            c
        } else {
            k
        }
    }
}

/// The length that the common prefix of the names `cs` is cut at: a count
/// of characters, which the cut applies to the bytes of `cs[0]`.
pub open spec fn prefix_len(cs: Seq<Seq<char>>) -> nat {
    lcp_len(cs[0], cs.drop_first())
}

/// Whether the common prefix of `cs` can be cut from the bytes of `cs[0]`:
/// always when there is a single name, or where the names are ASCII.
pub open spec fn cuttable(cs: Seq<Seq<char>>) -> bool {
    cs.len() > 0 ==> is_char_boundary(encode_utf8(cs[0]), prefix_len(cs) as int)
}

/// The bytes of the common prefix of `cs`.
pub open spec fn prefix_bytes(cs: Seq<Seq<char>>) -> Seq<u8> {
    encode_utf8(cs[0]).take(prefix_len(cs) as int)
}

/// The number of leading characters `a` and `b` have in common.
fn count_common(a: &Vec<char>, b: &Vec<char>) -> (r: usize)
    ensures
        r == common_len(a@, b@),
{
    let mut i: usize = 0;
    assert(a@.skip(0) =~= a@);
    assert(b@.skip(0) =~= b@);
    while i < a.len() && i < b.len() && a[i] == b[i]
        invariant
            i <= a.len(),
            i <= b.len(),
            common_len(a@, b@) == i + common_len(a@.skip(i as int), b@.skip(i as int)),
        decreases a.len() - i,
    {
        assert(a@.skip(i as int).drop_first() =~= a@.skip(i + 1));
        assert(b@.skip(i as int).drop_first() =~= b@.skip(i + 1));
        i = i + 1;
    }
    assert(common_len(a@.skip(i as int), b@.skip(i as int)) == 0);
    i
}

/// Where the word that ends at byte `n` of `b` starts: just after the last
/// space before `n`, or at the start.
pub open spec fn word_start(b: Seq<u8>, n: int) -> int
    decreases n,
{
    if n <= 0 {
        0
    } else if b[n - 1] == 32u8 {
        n
    } else {
        word_start(b, n - 1)
    }
}

/// Whether the name `c` starts with the bytes `prefix`.
pub open spec fn starts_with(c: Seq<char>, prefix: Seq<u8>) -> bool {
    prefix.len() <= encode_utf8(c).len() && encode_utf8(c).take(prefix.len() as int) == prefix
}

/// The names among `cs` that start with `prefix`, in order.
pub open spec fn matching(cs: Seq<Seq<char>>, prefix: Seq<u8>) -> Seq<Seq<char>>
    decreases cs.len(),
{
    if cs.len() == 0 {
        seq![]
    } else {
        let m = matching(cs.drop_last(), prefix);
        if starts_with(cs.last(), prefix) {
            m.push(cs.last())
        } else {
            m
        }
    }
}

/// The byte of `line` at the cursor `pos` ends the word to complete; the
/// names that start with that word.
pub open spec fn matches_at(cs: Seq<Seq<char>>, line: Seq<char>, pos: int) -> Seq<Seq<char>> {
    let b = encode_utf8(line);
    matching(cs, b.subrange(word_start(b, pos), pos))
}

/// Whether completing `line` at `pos` among `cs` can be done without a
/// panic: `pos` is on a character boundary of `line` (`line[..pos]`), and
/// the cut of the matches' common prefix falls on a character boundary of
/// the first match (the cut is a character count applied to its bytes).
pub open spec fn completable(cs: Seq<Seq<char>>, line: Seq<char>, pos: int) -> bool {
    let b = encode_utf8(line);
    &&& 0 <= pos <= b.len()
    &&& is_char_boundary(b, pos)
    &&& cuttable(matches_at(cs, line, pos))
}

/// The outcome of completing: where the completed word starts, the
/// proposed replacements, and the cursor position remembered after it.
pub open spec fn completion(
    cs: Seq<Seq<char>>,
    line: Seq<char>,
    pos: int,
    last: Option<usize>,
    start: int,
    proposals: Seq<Seq<char>>,
    new_last: Option<usize>,
) -> bool {
    let b = encode_utf8(line);
    let ws = word_start(b, pos);
    let prefix = b.subrange(ws, pos);
    let m = matching(cs, prefix);
    &&& start == ws
    &&& if prefix.len() == 0 {
        proposals.len() == 0 && new_last == last
    } else if m.len() == 0 {
        proposals.len() == 0 && new_last is None
    } else if prefix_len(m) > prefix.len() {
        &&& proposals.len() == 1
        &&& encode_utf8(proposals[0]) == prefix_bytes(m)
        &&& new_last == Some((ws + prefix_len(m)) as usize)
    } else {
        proposals == m && new_last is None
    }
}

/// Whether the bytes of each of the names `cs` and of `line` fit in memory
/// together, so that a cursor position after a completion is a `usize`.
pub open spec fn fits(cs: Seq<Seq<char>>, line: Seq<char>) -> bool {
    forall|i: int|
        0 <= i < cs.len() ==> #[trigger] encode_utf8(cs[i]).len() + encode_utf8(line).len()
            <= usize::MAX
}

/// The cut of a common prefix is within the bytes of the first name.
pub proof fn lemma_lcp_len_bound(first: Seq<char>, rest: Seq<Seq<char>>)
    ensures
        lcp_len(first, rest) <= encode_utf8(first).len(),
    decreases rest.len(),
{
    if rest.len() > 0 {
        lemma_lcp_len_bound(first, rest.drop_last());
    }
}

/// The matching names are names of `cs`.
pub proof fn lemma_matching_from(cs: Seq<Seq<char>>, prefix: Seq<u8>)
    ensures
        forall|k: int|
            0 <= k < matching(cs, prefix).len() ==> cs.contains(#[trigger] matching(cs, prefix)[k]),
    decreases cs.len(),
{
    if cs.len() > 0 {
        lemma_matching_from(cs.drop_last(), prefix);
        let m = matching(cs.drop_last(), prefix);
        assert forall|k: int| 0 <= k < matching(cs, prefix).len() implies cs.contains(
            #[trigger] matching(cs, prefix)[k],
        ) by {
            if k < m.len() {
                assert(cs.drop_last().contains(m[k]));
                let j = choose|j: int| 0 <= j < cs.drop_last().len() && cs.drop_last()[j] == m[k];
                assert(cs[j] == m[k]);
            } else {
                assert(cs[cs.len() - 1] == cs.last());
            }
        }
    }
}

/// Completes the word under the cursor from a list of command names.
pub struct CustomHelper {
    candidates: Vec<String>,
    last_completion_pos: Option<usize>,
}

/// Whether the bytes of `c` start with `prefix`.
fn has_prefix(c: &str, prefix: &[u8]) -> (r: bool)
    ensures
        r == starts_with(c@, prefix@),
{
    let b = c.as_bytes();
    if prefix.len() > b.len() {
        return false;
    }
    let mut i: usize = 0;
    while i < prefix.len()
        invariant
            i <= prefix@.len() <= b@.len(),
            b@ == encode_utf8(c@),
            forall|j: int| 0 <= j < i ==> b@[j] == prefix@[j],
        decreases prefix.len() - i,
    {
        if b[i] != prefix[i] {
            assert(b@.take(prefix@.len() as int)[i as int] != prefix@[i as int]);
            return false;
        }
        i = i + 1;
    }
    assert(b@.take(prefix@.len() as int) =~= prefix@);
    true
}

impl CustomHelper {
    /// The names this helper completes with.
    pub closed spec fn names(&self) -> Seq<Seq<char>> {
        views(self.candidates@)
    }

    /// Where the cursor was left by the last completion that advanced.
    pub closed spec fn last_pos(&self) -> Option<usize> {
        self.last_completion_pos
    }

    /// The names this helper completes with.
    pub fn candidates(&self) -> (r: &Vec<String>)
        ensures
            views(r@) == self.names(),
    {
        &self.candidates
    }

    /// Where the cursor was left by the last completion that advanced.
    pub fn last_completion_pos(&self) -> (r: Option<usize>)
        ensures
            r == self.last_pos(),
    {
        self.last_completion_pos
    }

    /// The number of characters the first of `candidates` shares with each
    /// other one, at most its number of bytes.
    fn common_prefix_len(candidates: &Vec<String>) -> (k: usize)
        requires
            candidates@.len() > 0,
        ensures
            k == prefix_len(views(candidates@)),
    {
        let ghost cs = views(candidates@);
        let first = candidates[0].as_str();
        let first_chars = chars_of(first);
        let mut len = first.as_bytes().len();
        let mut i: usize = 1;
        assert(cs.drop_first().take(0) =~= Seq::<Seq<char>>::empty());
        while i < candidates.len()
            invariant
                1 <= i <= candidates@.len(),
                cs == views(candidates@),
                first_chars@ == cs[0],
                len == lcp_len(cs[0], cs.drop_first().take(i - 1)),
            decreases candidates.len() - i,
        {
            let other = chars_of(candidates[i].as_str());
            let c = count_common(&first_chars, &other);
            if c < len {
                len = c;
            }
            assert(cs.drop_first().take(i as int).drop_last() =~= cs.drop_first().take(i - 1));
            i = i + 1;
        }
        assert(cs.drop_first().take(i - 1) =~= cs.drop_first());
        len
    }

    /// The longest prefix that the names `candidates` have in common: the
    /// first name cut at the number of characters it shares with each other
    /// one (an empty string when there is no name).
    pub fn longest_common_prefix(candidates: &Vec<String>) -> (r: String)
        requires
            cuttable(views(candidates@)),
        ensures
            candidates@.len() == 0 ==> r@.len() == 0,
            candidates@.len() > 0 ==> encode_utf8(r@) == prefix_bytes(views(candidates@)),
    {
        if candidates.len() == 0 {
            return String::new();
        }
        let len = Self::common_prefix_len(candidates);
        let (head, _) = candidates[0].as_str().split_at(len);
        let r = head.to_owned();
        assert(encode_utf8(r@) =~= prefix_bytes(views(candidates@)));
        r
    }

    /// Where the word that ends at byte `pos` of `line` starts, and its
    /// bytes.
    fn word_before(line: &str, pos: usize) -> (r: (usize, Vec<u8>))
        requires
            pos <= encode_utf8(line@).len(),
        ensures
            r.0 <= pos,
            r.0 == word_start(encode_utf8(line@), pos as int),
            r.1@ == encode_utf8(line@).subrange(r.0 as int, pos as int),
    {
        let b = line.as_bytes();
        let mut start = pos;
        while start > 0 && b[start - 1] != 32u8
            invariant
                start <= pos <= b@.len(),
                b@ == encode_utf8(line@),
                word_start(b@, pos as int) == word_start(b@, start as int),
            decreases start,
        {
            start = start - 1;
        }
        let mut prefix: Vec<u8> = Vec::new();
        let mut j = start;
        while j < pos
            invariant
                start <= j <= pos <= b@.len(),
                prefix@ == b@.subrange(start as int, j as int),
            decreases pos - j,
        {
            prefix.push(b[j]);
            j = j + 1;
            assert(prefix@ =~= b@.subrange(start as int, j as int));
        }
        (start, prefix)
    }

    /// The names that start with `prefix`, in order.
    fn matching_names(&self, prefix: &Vec<u8>) -> (r: Vec<String>)
        ensures
            views(r@) == matching(self.names(), prefix@),
    {
        let ghost cs = self.names();
        let candidates = self.candidates();
        let mut r: Vec<String> = Vec::new();
        let mut i: usize = 0;
        while i < candidates.len()
            invariant
                i <= candidates@.len(),
                views(candidates@) == cs,
                views(r@) == matching(cs.take(i as int), prefix@),
            decreases candidates.len() - i,
        {
            assert(cs.take(i + 1).drop_last() =~= cs.take(i as int));
            if has_prefix(candidates[i].as_str(), prefix.as_slice()) {
                r.push(candidates[i].clone());
                assert(views(r@) =~= matching(cs.take(i + 1), prefix@));
            }
            i = i + 1;
        }
        assert(cs.take(i as int) =~= cs);
        r
    }

    /// Completes the word that ends at byte `pos` of `line` (the word after
    /// the last space before the cursor). With no word, nothing is proposed;
    /// with no matching name, nothing is proposed and the remembered position
    /// is cleared; where the matches share a longer prefix than the word, that
    /// prefix alone is proposed and the cursor after it remembered; otherwise
    /// all matches are proposed and the remembered position cleared.
    pub fn complete(&mut self, line: &str, pos: usize) -> (r: (usize, Vec<String>))
        requires
            completable(old(self).names(), line@, pos as int),
            fits(old(self).names(), line@),
        ensures
            final(self).names() == old(self).names(),
            completion(
                old(self).names(),
                line@,
                pos as int,
                old(self).last_pos(),
                r.0 as int,
                views(r.1@),
                final(self).last_pos(),
            ),
    {
        let ghost cs = self.names();
        let (start, prefix) = Self::word_before(line, pos);
        if prefix.len() == 0 {
            return (start, Vec::new());
        }
        let r = self.matching_names(&prefix);
        if r.len() == 0 {
            self.last_completion_pos = None;
            return (start, Vec::new());
        }
        let ghost m = views(r@);
        let lcp = Self::longest_common_prefix(&r);
        let lcp_len = lcp.as_str().as_bytes().len();
        proof {
            lemma_lcp_len_bound(m[0], m.drop_first());
            lemma_matching_from(cs, prefix@);
            assert(cs.contains(m[0]));
            let x = choose|x: int| 0 <= x < cs.len() && cs[x] == m[0];
            assert(encode_utf8(cs[x]).len() + encode_utf8(line@).len() <= usize::MAX);
            assert(lcp_len == prefix_len(m));
        }
        if lcp_len > prefix.len() {
            self.last_completion_pos = Some(start + lcp_len);
            let mut one: Vec<String> = Vec::new();
            one.push(lcp);
            return (start, one);
        }
        self.last_completion_pos = None;
        (start, r)
    }

    /// Completes as `complete` does, or gives `None` (changing nothing)
    /// where `complete` cannot: the cursor is not on a character boundary, the
    /// common prefix of the matches cannot be cut, or a name is too long.
    pub fn try_complete(&mut self, line: &str, pos: usize) -> (r: Option<(usize, Vec<String>)>)
        ensures
            final(self).names() == old(self).names(),
            r is None <==> !(completable(old(self).names(), line@, pos as int) && fits(
                old(self).names(),
                line@,
            )),
            r is None ==> final(self).last_pos() == old(self).last_pos(),
            r matches Some(c) ==> completion(
                old(self).names(),
                line@,
                pos as int,
                old(self).last_pos(),
                c.0 as int,
                views(c.1@),
                final(self).last_pos(),
            ),
    {
        let ghost cs = self.names();
        let b = line.as_bytes();
        let n = b.len();
        if pos > n || !line.is_char_boundary(pos) {
            return None;
        }
        let candidates = self.candidates();
        let mut i: usize = 0;
        while i < candidates.len()
            invariant
                i <= candidates@.len(),
                views(candidates@) == cs,
                cs == old(self).names(),
                n == encode_utf8(line@).len(),
                forall|k: int|
                    0 <= k < i ==> #[trigger] encode_utf8(cs[k]).len() + encode_utf8(line@).len()
                        <= usize::MAX,
            decreases candidates.len() - i,
        {
            let len = candidates[i].as_str().as_bytes().len();
            if len > usize::MAX - n {
                assert(cs[i as int] == candidates@[i as int]@);
                assert(encode_utf8(cs[i as int]).len() + encode_utf8(line@).len() > usize::MAX);
                return None;
            }
            i = i + 1;
        }
        let (_, prefix) = Self::word_before(line, pos);
        let m = self.matching_names(&prefix);
        if m.len() > 0 {
            let k = Self::common_prefix_len(&m);
            if !m[0].as_str().is_char_boundary(k) {
                return None;
            }
        }
        Some(self.complete(line, pos))
    }
}

proof fn lemma_matching_starts_with(cs: Seq<Seq<char>>, prefix: Seq<u8>)
    ensures
        forall|k: int|
            0 <= k < matching(cs, prefix).len() ==> starts_with(
                #[trigger] matching(cs, prefix)[k],
                prefix,
            ),
    decreases cs.len(),
{
    if cs.len() > 0 {
        lemma_matching_from(cs.drop_last(), prefix);
        lemma_matching_starts_with(cs.drop_last(), prefix);
        let m = matching(cs.drop_last(), prefix);
        assert forall|k: int| 0 <= k < matching(cs, prefix).len() implies starts_with(
            #[trigger] matching(cs, prefix)[k],
            prefix,
        ) by {
            if k < m.len() {
                assert(matching(cs, prefix)[k] == m[k]);
            }
        }
    }
}

/// Whatever completion proposes starts with the word typed before the
/// cursor.
pub proof fn lemma_proposals_extend_word(
    cs: Seq<Seq<char>>,
    line: Seq<char>,
    pos: int,
    last: Option<usize>,
    start: int,
    proposals: Seq<Seq<char>>,
    new_last: Option<usize>,
)
    requires
        0 <= pos <= encode_utf8(line).len(),
        completion(cs, line, pos, last, start, proposals, new_last),
    ensures
        forall|k: int|
            0 <= k < proposals.len() ==> starts_with(
                #[trigger] proposals[k],
                encode_utf8(line).subrange(start, pos),
            ),
{
    let b = encode_utf8(line);
    let prefix = b.subrange(start, pos);
    let m = matching(cs, prefix);
    lemma_matching_starts_with(cs, prefix);
    if prefix.len() > 0 && m.len() > 0 && prefix_len(m) > prefix.len() {
        lemma_lcp_len_bound(m[0], m.drop_first());
        assert(starts_with(m[0], prefix));
        let e = encode_utf8(m[0]);
        assert(encode_utf8(proposals[0]).take(prefix.len() as int) =~= e.take(prefix.len() as int));
    }
}

/// The lowercase form of `s`, as `str::to_lowercase` gives it (Unicode's
/// lowercase mapping).
pub uninterp spec fn lowercase(s: Seq<char>) -> Seq<char>;

/// `str::to_lowercase`: the lowercase form of `s`. The contract only says
/// that the result depends on `s` alone (it is `lowercase(s)`); Unicode's
/// lowercase mapping itself is left unsaid.
#[verifier::external_body]
fn to_lowercase(s: &str) -> (r: String)
    ensures
        r@ == lowercase(s@),
{
    s.to_lowercase()
}

/// The order of strings: character by character, by code point, a proper
/// prefix first (the order of their UTF-8 bytes).
pub open spec fn lex_lt(a: Seq<char>, b: Seq<char>) -> bool
    decreases a.len(),
{
    if a.len() == 0 {
        b.len() > 0
    } else if b.len() == 0 {
        false
    } else if a[0] != b[0] {
        a[0] < b[0]
    } else {
        lex_lt(a.drop_first(), b.drop_first())
    }
}

/// The order of strings is strict and total.
pub proof fn lemma_lex_lt_order(a: Seq<char>, b: Seq<char>)
    ensures
        !(lex_lt(a, b) && lex_lt(b, a)),
        lex_lt(a, b) ==> a != b,
        a != b ==> lex_lt(a, b) || lex_lt(b, a),
    decreases a.len(),
{
    if a.len() > 0 && b.len() > 0 && a[0] == b[0] {
        lemma_lex_lt_order(a.drop_first(), b.drop_first());
        if a.drop_first() == b.drop_first() {
            assert(a =~= seq![a[0]] + a.drop_first());
            assert(b =~= seq![b[0]] + b.drop_first());
        }
    } else if a.len() == 0 && b.len() == 0 {
        assert(a =~= b);
    }
}

/// The order of strings is transitive.
pub proof fn lemma_lex_lt_transitive(a: Seq<char>, b: Seq<char>, c: Seq<char>)
    requires
        lex_lt(a, b),
        lex_lt(b, c),
    ensures
        lex_lt(a, c),
    decreases a.len(),
{
    if a.len() > 0 && b.len() > 0 && c.len() > 0 && a[0] == b[0] && b[0] == c[0] {
        lemma_lex_lt_transitive(a.drop_first(), b.drop_first(), c.drop_first());
    }
}

/// The lowercase forms of `s`.
pub open spec fn keys(s: Seq<Seq<char>>) -> Seq<Seq<char>> {
    s.map_values(|x: Seq<char>| lowercase(x))
}

/// Names whose lowercase forms come in strictly increasing order.
#[verifier::opaque]
pub open spec fn sorted_by_key(r: Seq<Seq<char>>) -> bool {
    forall|i: int, j: int|
        0 <= i < j < r.len() ==> lex_lt(#[trigger] keys(r)[i], #[trigger] keys(r)[j])
}

/// `items[j]` is `x`, and no name before it has the lowercase form of `x`.
pub open spec fn first_at(items: Seq<Seq<char>>, x: Seq<char>, j: int) -> bool {
    &&& 0 <= j < items.len()
    &&& items[j] == x
    &&& !keys(items).take(j).contains(lowercase(x))
}

/// `x` is the first of `items` with its lowercase form.
pub open spec fn is_first(items: Seq<Seq<char>>, x: Seq<char>) -> bool {
    exists|j: int| #[trigger] first_at(items, x, j)
}

/// Each of `r` is the first of `items` with its lowercase form.
#[verifier::opaque]
pub open spec fn firsts(items: Seq<Seq<char>>, r: Seq<Seq<char>>) -> bool {
    forall|i: int| 0 <= i < r.len() ==> #[trigger] is_first(items, r[i])
}

/// Each lowercase form of `items` is one of `r`.
#[verifier::opaque]
pub open spec fn covers(items: Seq<Seq<char>>, r: Seq<Seq<char>>) -> bool {
    forall|j: int| 0 <= j < items.len() ==> keys(r).contains(#[trigger] keys(items)[j])
}

/// `r` is `items` sorted by lowercase form, keeping of the names with the
/// same lowercase form the first one (a stable sort by that key, then the
/// removal of each name whose key equals the one before it).
pub open spec fn sorted_unique(items: Seq<Seq<char>>, r: Seq<Seq<char>>) -> bool {
    &&& sorted_by_key(r)
    &&& firsts(items, r)
    &&& covers(items, r)
}

/// The names that the shell always offers besides the programs it finds.
pub open spec fn extra_names() -> Seq<Seq<char>> {
    seq!["echo"@, "ls"@, "cat"@, "cd"@, "exit"@]
}

proof fn lemma_keys_push(s: Seq<Seq<char>>, x: Seq<char>)
    ensures
        keys(s.push(x)) == keys(s).push(lowercase(x)),
{
    assert(keys(s.push(x)) =~= keys(s).push(lowercase(x)));
}

proof fn lemma_firsts_push(items: Seq<Seq<char>>, r: Seq<Seq<char>>, x: Seq<char>)
    requires
        firsts(items, r),
    ensures
        firsts(items.push(x), r),
{
    reveal(firsts);
    let ni = items.push(x);
    lemma_keys_push(items, x);
    assert forall|i: int| 0 <= i < r.len() implies #[trigger] is_first(ni, r[i]) by {
        assert(is_first(items, r[i]));
        let j = choose|j: int| #[trigger] first_at(items, r[i], j);
        assert(keys(ni).take(j) =~= keys(items).take(j));
        assert(first_at(ni, r[i], j));
    }
}

proof fn lemma_skip(items: Seq<Seq<char>>, r: Seq<Seq<char>>, x: Seq<char>, p: int)
    requires
        sorted_unique(items, r),
        0 <= p < r.len(),
        lowercase(r[p]) == lowercase(x),
    ensures
        sorted_unique(items.push(x), r),
{
    lemma_firsts_push(items, r, x);
    reveal(covers);
    let ni = items.push(x);
    lemma_keys_push(items, x);
    assert forall|j: int| 0 <= j < ni.len() implies keys(r).contains(#[trigger] keys(ni)[j]) by {
        if j < items.len() {
            assert(keys(ni)[j] == keys(items)[j]);
        } else {
            assert(keys(r)[p] == lowercase(x));
        }
    }
}

proof fn lemma_insert(items: Seq<Seq<char>>, r: Seq<Seq<char>>, x: Seq<char>, p: int)
    requires
        sorted_unique(items, r),
        0 <= p <= r.len(),
        forall|q: int| 0 <= q < p ==> lex_lt(#[trigger] keys(r)[q], lowercase(x)),
        p < r.len() ==> lex_lt(lowercase(x), keys(r)[p]),
    ensures
        sorted_unique(items.push(x), r.insert(p, x)),
{
    let ni = items.push(x);
    let nr = r.insert(p, x);
    let k = keys(r);
    let nk = keys(nr);
    assert(nk =~= k.insert(p, lowercase(x)));
    lemma_keys_push(items, x);
    reveal(sorted_by_key);
    assert forall|q: int| p < q < r.len() implies lex_lt(lowercase(x), #[trigger] k[q]) by {
        lemma_lex_lt_transitive(lowercase(x), k[p], k[q]);
    }
    assert forall|i: int, j: int| 0 <= i < j < nr.len() implies lex_lt(
        #[trigger] nk[i],
        #[trigger] nk[j],
    ) by {
        if i < p && j < p {
        } else if i < p && j == p {
        } else if i < p {
            if j - 1 > p {
                lemma_lex_lt_transitive(k[i], lowercase(x), k[j - 1]);
            } else {
                lemma_lex_lt_transitive(k[i], lowercase(x), k[p]);
            }
        } else if i == p {
        } else {
            assert(nk[i] == k[i - 1] && nk[j] == k[j - 1]);
        }
    }
    assert forall|q: int| 0 <= q < r.len() implies #[trigger] k[q] != lowercase(x) by {
        if q < p {
            lemma_lex_lt_order(k[q], lowercase(x));
        } else if q == p {
            lemma_lex_lt_order(lowercase(x), k[p]);
        } else {
            lemma_lex_lt_order(lowercase(x), k[q]);
        }
    }
    reveal(covers);
    reveal(firsts);
    assert(!keys(items).contains(lowercase(x))) by {
        if keys(items).contains(lowercase(x)) {
            let j = choose|j: int| 0 <= j < keys(items).len() && keys(items)[j] == lowercase(x);
            assert(k.contains(keys(items)[j]));
        }
    }
    assert forall|i: int| 0 <= i < nr.len() implies #[trigger] is_first(ni, nr[i]) by {
        if i == p {
            let j = items.len() as int;
            assert(ni[j] == x);
            assert(keys(ni).take(j) =~= keys(items));
            assert(first_at(ni, x, j));
        } else {
            let oi = if i < p {
                i
            } else {
                i - 1
            };
            assert(nr[i] == r[oi]);
            assert(is_first(items, r[oi]));
            let j = choose|j: int| #[trigger] first_at(items, r[oi], j);
            assert(keys(ni).take(j) =~= keys(items).take(j));
            assert(first_at(ni, r[oi], j));
        }
    }
    assert forall|j: int| 0 <= j < ni.len() implies nk.contains(#[trigger] keys(ni)[j]) by {
        if j < items.len() {
            assert(keys(ni)[j] == keys(items)[j]);
            assert(k.contains(keys(items)[j]));
            let i = choose|i: int| 0 <= i < k.len() && k[i] == keys(items)[j];
            if i < p {
                assert(nk[i] == k[i]);
            } else {
                assert(nk[i + 1] == k[i]);
            }
        } else {
            assert(nk[p] == lowercase(x));
        }
    }
    assert(sorted_by_key(nr));
    assert(firsts(ni, nr));
    assert(covers(ni, nr));
}

/// Whether `a` comes before `b` in the order of strings.
fn chars_lt(a: &Vec<char>, b: &Vec<char>) -> (r: bool)
    ensures
        r == lex_lt(a@, b@),
{
    let mut i: usize = 0;
    assert(a@.skip(0) =~= a@);
    assert(b@.skip(0) =~= b@);
    while i < a.len() && i < b.len() && a[i] == b[i]
        invariant
            i <= a.len(),
            i <= b.len(),
            lex_lt(a@, b@) == lex_lt(a@.skip(i as int), b@.skip(i as int)),
        decreases a.len() - i,
    {
        assert(a@.skip(i as int).drop_first() =~= a@.skip(i + 1));
        assert(b@.skip(i as int).drop_first() =~= b@.skip(i + 1));
        i = i + 1;
    }
    if i == a.len() {
        i < b.len()
    } else if i == b.len() {
        false
    } else {
        a[i] < b[i]
    }
}

impl CustomHelper {
    /// A helper that completes with `path_execs` and the names `echo`,
    /// `ls`, `cat`, `cd`, `exit`: sorted by lowercase form, keeping only the
    /// first of the names that share one.
    pub fn new(path_execs: Vec<String>) -> (h: CustomHelper)
        ensures
            sorted_unique(views(path_execs@) + extra_names(), h.names()),
            h.last_pos() is None,
    {
        let mut items = path_execs;
        items.push("echo".to_string());
        items.push("ls".to_string());
        items.push("cat".to_string());
        items.push("cd".to_string());
        items.push("exit".to_string());
        let ghost all = views(items@);
        assert(all =~= views(path_execs@) + extra_names());
        let mut names: Vec<String> = Vec::new();
        let mut lower: Vec<Vec<char>> = Vec::new();
        let mut i: usize = 0;
        proof {
            reveal(sorted_by_key);
            reveal(firsts);
            reveal(covers);
            assert(sorted_unique(all.take(0), views(names@)));
        }
        while i < items.len()
            invariant
                i <= items.len(),
                all == views(items@),
                lower@.len() == names@.len(),
                forall|q: int| 0 <= q < lower@.len() ==> #[trigger] lower@[q]@ == lowercase(names@[q]@),
                sorted_unique(all.take(i as int), views(names@)),
            decreases items.len() - i,
        {
            let key = chars_of(to_lowercase(items[i].as_str()).as_str());
            let ghost rv = views(names@);
            let ghost x = items@[i as int]@;
            assert(all.take(i + 1) =~= all.take(i as int).push(x));
            let mut p: usize = 0;
            while p < lower.len() && chars_lt(&lower[p], &key)
                invariant
                    p <= lower@.len() == names@.len(),
                    rv == views(names@),
                    forall|q: int| 0 <= q < lower@.len() ==> #[trigger] lower@[q]@ == lowercase(names@[q]@),
                    key@ == lowercase(x),
                    forall|q: int| 0 <= q < p ==> lex_lt(#[trigger] keys(rv)[q], lowercase(x)),
                decreases lower.len() - p,
            {
                assert(lower@[p as int]@ == keys(rv)[p as int]);
                p = p + 1;
            }
            if p < lower.len() && chars_eq(&lower[p], &key) {
                proof {
                    assert(lower@[p as int]@ == keys(rv)[p as int]);
                    lemma_skip(all.take(i as int), rv, x, p as int);
                }
            } else {
                proof {
                    if p < lower.len() {
                        assert(lower@[p as int]@ == keys(rv)[p as int]);
                        lemma_lex_lt_order(keys(rv)[p as int], lowercase(x));
                    }
                    lemma_insert(all.take(i as int), rv, x, p as int);
                }
                let ghost old_keys = lower@;
                let ghost old_names = names@;
                names.insert(p, items[i].clone());
                lower.insert(p, key);
                assert(views(names@) =~= rv.insert(p as int, x));
                assert forall|q: int| 0 <= q < lower@.len() implies #[trigger] lower@[q]@ == lowercase(
                    names@[q]@,
                ) by {
                    if q < p {
                        assert(lower@[q] == old_keys[q] && names@[q] == old_names[q]);
                    } else if q > p {
                        assert(lower@[q] == old_keys[q - 1] && names@[q] == old_names[q - 1]);
                    }
                }
            }
            i = i + 1;
        }
        assert(all.take(i as int) =~= all);
        CustomHelper { candidates: names, last_completion_pos: None }
    }
}

proof fn lemma_common_len_bound(a: Seq<char>, b: Seq<char>)
    ensures
        common_len(a, b) <= a.len(),
        a.len() <= encode_utf8(a).len(),
    decreases a.len(),
{
    if a.len() > 0 {
        lemma_common_len_bound(a.drop_first(), b.drop_first());
        if b.len() == 0 || a[0] != b[0] {
            lemma_common_len_bound(a.drop_first(), b);
        }
    }
}

proof fn lemma_lcp_len_common(first: Seq<char>, rest: Seq<Seq<char>>)
    ensures
        forall|i: int| 0 <= i < rest.len() ==> lcp_len(first, rest) <= common_len(first, #[trigger] rest[i]),
        rest.len() == 0 || exists|i: int| 0 <= i < rest.len() && lcp_len(first, rest) == common_len(first, #[trigger] rest[i]),
    decreases rest.len(),
{
    if rest.len() > 0 {
        let r2 = rest.drop_last();
        lemma_lcp_len_common(first, r2);
        assert forall|i: int| 0 <= i < rest.len() implies lcp_len(first, rest) <= common_len(
            first,
            #[trigger] rest[i],
        ) by {
            if i < r2.len() {
                assert(rest[i] == r2[i]);
            }
        }
        if r2.len() > 0 && lcp_len(first, rest) == lcp_len(first, r2) {
            let i = choose|i: int| 0 <= i < r2.len() && lcp_len(first, r2) == common_len(first, #[trigger] r2[i]);
            assert(rest[i] == r2[i]);
        } else {
            assert(rest[rest.len() - 1] == rest.last());
            lemma_common_len_bound(first, rest.last());
            if r2.len() == 0 {
                assert(lcp_len(first, r2) == encode_utf8(first).len());
            }
            assert(lcp_len(first, rest) == common_len(first, rest[rest.len() - 1]));
        }
    }
}

/// Where there are several names, the common prefix is cut at the most
/// characters that the first shares with every other one: no more than it
/// shares with any, and exactly as many as it shares with one of them.
pub proof fn lemma_common_prefix_is_longest(cs: Seq<Seq<char>>)
    requires
        cs.len() >= 2,
    ensures
        forall|i: int| 1 <= i < cs.len() ==> prefix_len(cs) <= common_len(cs[0], #[trigger] cs[i]),
        exists|i: int| 1 <= i < cs.len() && prefix_len(cs) == common_len(cs[0], #[trigger] cs[i]),
{
    let rest = cs.drop_first();
    lemma_lcp_len_common(cs[0], rest);
    assert forall|i: int| 1 <= i < cs.len() implies prefix_len(cs) <= common_len(cs[0], #[trigger] cs[i]) by {
        assert(cs[i] == rest[i - 1]);
    }
    let i = choose|i: int| 0 <= i < rest.len() && lcp_len(cs[0], rest) == common_len(cs[0], #[trigger] rest[i]);
    assert(cs[i + 1] == rest[i]);
}

/// The word completed at byte `n` starts just after the last space before
/// `n`, or at the start of the line: it holds no space, and a space (or the
/// start) comes right before it.
pub proof fn lemma_word_start_after_last_space(b: Seq<u8>, n: int)
    requires
        0 <= n <= b.len(),
    ensures
        0 <= word_start(b, n) <= n,
        forall|j: int| word_start(b, n) <= j < n ==> #[trigger] b[j] != 32u8,
        word_start(b, n) == 0 || b[word_start(b, n) - 1] == 32u8,
    decreases n,
{
    if n > 0 && b[n - 1] != 32u8 {
        lemma_word_start_after_last_space(b, n - 1);
    }
}

} // verus!
