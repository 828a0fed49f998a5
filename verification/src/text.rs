//! Texts as sequences of characters: whitespace, trimming and splitting
//! into words.
//!
//! The executable functions work on slices of characters and hand out
//! sub-slices or positions; their contracts are stated over [`prefix_len`]
//! and [`suffix_len`], the lengths of the longest prefix and suffix whose
//! characters all satisfy a predicate.

use vstd::prelude::*;
use vstd::slice::slice_subrange;

verus! {

/// Whether `c` has the Unicode property `White_Space`.
pub open spec fn spec_is_whitespace(c: char) -> bool {
    ||| '\u{9}' <= c <= '\u{d}'
    ||| c == ' '
    ||| c == '\u{85}'
    ||| c == '\u{a0}'
    ||| c == '\u{1680}'
    ||| '\u{2000}' <= c <= '\u{200a}'
    ||| c == '\u{2028}'
    ||| c == '\u{2029}'
    ||| c == '\u{202f}'
    ||| c == '\u{205f}'
    ||| c == '\u{3000}'
}

/// Whether `c` has the Unicode property `White_Space`.
#[verifier::when_used_as_spec(spec_is_whitespace)]
pub fn is_whitespace(c: char) -> (b: bool)
    ensures
        b == spec_is_whitespace(c),
{
    ('\u{9}' <= c && c <= '\u{d}') || c == ' ' || c == '\u{85}' || c == '\u{a0}' || c
        == '\u{1680}' || ('\u{2000}' <= c && c <= '\u{200a}') || c == '\u{2028}' || c
        == '\u{2029}' || c == '\u{202f}' || c == '\u{205f}' || c == '\u{3000}'
}

/// The predicate that holds of whitespace.
pub open spec fn whitespace() -> spec_fn(char) -> bool {
    |c: char| spec_is_whitespace(c)
}

/// The predicate that holds of every character but whitespace.
pub open spec fn printing() -> spec_fn(char) -> bool {
    |c: char| !spec_is_whitespace(c)
}

/// The predicate that holds of every character but `x`.
pub open spec fn other_than(x: char) -> spec_fn(char) -> bool {
    |c: char| c != x
}

/// Length of the longest prefix of `s` whose characters all satisfy `p`.
pub open spec fn prefix_len(s: Seq<char>, p: spec_fn(char) -> bool) -> nat
    decreases s.len(),
{
    if s.len() > 0 && p(s[0]) {
        1 + prefix_len(s.skip(1), p)
    } else {
        0
    }
}

/// Length of the longest suffix of `s` whose characters all satisfy `p`.
pub open spec fn suffix_len(s: Seq<char>, p: spec_fn(char) -> bool) -> nat
    decreases s.len(),
{
    if s.len() > 0 && p(s.last()) {
        1 + suffix_len(s.drop_last(), p)
    } else {
        0
    }
}

/// The prefix that `prefix_len` measures lies within `s`, satisfies `p`
/// throughout, and ends at the end of `s` or before a character that does
/// not satisfy `p`.
pub proof fn lemma_prefix_len(s: Seq<char>, p: spec_fn(char) -> bool)
    ensures
        prefix_len(s, p) <= s.len(),
        forall|i: int| 0 <= i < prefix_len(s, p) ==> p(#[trigger] s[i]),
        prefix_len(s, p) < s.len() ==> !p(s[prefix_len(s, p) as int]),
    decreases s.len(),
{
    if s.len() > 0 && p(s[0]) {
        let t = s.skip(1);
        lemma_prefix_len(t, p);
        assert forall|i: int| 0 <= i < prefix_len(s, p) implies p(#[trigger] s[i]) by {
            if i > 0 {
                assert(s[i] == t[i - 1]);
            }
        }
    }
}

/// A prefix of length `n` that satisfies `p` throughout and cannot be
/// extended is the one that `prefix_len` measures.
pub proof fn lemma_prefix_len_is(s: Seq<char>, p: spec_fn(char) -> bool, n: nat)
    requires
        n <= s.len(),
        forall|i: int| 0 <= i < n ==> p(#[trigger] s[i]),
        n < s.len() ==> !p(s[n as int]),
    ensures
        prefix_len(s, p) == n,
    decreases n,
{
    if n > 0 {
        let t = s.skip(1);
        lemma_prefix_len_is(t, p, (n - 1) as nat);
    }
}

/// A suffix of length `n` that satisfies `p` throughout and cannot be
/// extended is the one that `suffix_len` measures.
pub proof fn lemma_suffix_len_is(s: Seq<char>, p: spec_fn(char) -> bool, n: nat)
    requires
        n <= s.len(),
        forall|i: int| s.len() - n <= i < s.len() ==> p(#[trigger] s[i]),
        n < s.len() ==> !p(s[s.len() - n - 1]),
    ensures
        suffix_len(s, p) == n,
    decreases n,
{
    if n > 0 {
        let t = s.drop_last();
        lemma_suffix_len_is(t, p, (n - 1) as nat);
    }
}

/// `s` without its leading whitespace.
pub open spec fn spec_trim_start(s: Seq<char>) -> Seq<char> {
    s.skip(prefix_len(s, whitespace()) as int)
}

/// `s` without its trailing whitespace.
pub open spec fn spec_trim_end(s: Seq<char>) -> Seq<char> {
    s.take(s.len() - suffix_len(s, whitespace()))
}

/// `s` without its leading and trailing whitespace.
pub open spec fn spec_trim(s: Seq<char>) -> Seq<char> {
    spec_trim_end(spec_trim_start(s))
}

/// The words of `s`: its maximal runs of characters other than whitespace,
/// from left to right.
pub open spec fn spec_split_whitespace(s: Seq<char>) -> Seq<Seq<char>>
    decreases s.len(),
{
    let rest = spec_trim_start(s);
    let n = prefix_len(rest, printing());
    if n == 0 {
        Seq::empty()
    } else {
        proof {
            lemma_prefix_len(s, whitespace());
            lemma_prefix_len(rest, printing());
        }
        seq![rest.take(n as int)] + spec_split_whitespace(rest.skip(n as int))
    }
}

/// The pieces of `s` that the pairs of `bounds` delimit, each pair holding
/// the position of a piece's first character and the position after its last.
pub open spec fn pieces(s: Seq<char>, bounds: Seq<(usize, usize)>) -> Seq<Seq<char>> {
    Seq::new(bounds.len(), |i: int| s.subrange(bounds[i].0 as int, bounds[i].1 as int))
}

/// Whether every pair of `bounds` delimits a non-empty piece of a text of
/// length `len`.
pub open spec fn within(bounds: Seq<(usize, usize)>, len: nat) -> bool {
    forall|i: int| 0 <= i < bounds.len() ==> (#[trigger] bounds[i]).0 < bounds[i].1 <= len
}

/// The position of the first character at or after `from` that is not
/// whitespace, or the length of `s`.
pub(crate) fn skip_whitespace(s: &[char], from: usize) -> (to: usize)
    requires
        from <= s@.len(),
    ensures
        to == from + prefix_len(s@.skip(from as int), whitespace()),
        to <= s@.len(),
{
    let mut to = from;
    while to < s.len() && is_whitespace(s[to])
        invariant
            from <= to <= s@.len(),
            forall|i: int| from <= i < to ==> spec_is_whitespace(#[trigger] s@[i]),
        decreases s@.len() - to,
    {
        to += 1;
    }
    proof {
        let t = s@.skip(from as int);
        lemma_prefix_len_is(t, whitespace(), (to - from) as nat);
    }
    to
}

/// The position of the first whitespace at or after `from`, or the length of
/// `s`.
pub(crate) fn skip_word(s: &[char], from: usize) -> (to: usize)
    requires
        from <= s@.len(),
    ensures
        to == from + prefix_len(s@.skip(from as int), printing()),
        to <= s@.len(),
{
    let mut to = from;
    while to < s.len() && !is_whitespace(s[to])
        invariant
            from <= to <= s@.len(),
            forall|i: int| from <= i < to ==> !spec_is_whitespace(#[trigger] s@[i]),
        decreases s@.len() - to,
    {
        to += 1;
    }
    proof {
        let t = s@.skip(from as int);
        lemma_prefix_len_is(t, printing(), (to - from) as nat);
    }
    to
}

/// The position of the first `x` at or after `from`, or the length of `s`.
pub(crate) fn find_char(s: &[char], from: usize, x: char) -> (to: usize)
    requires
        from <= s@.len(),
    ensures
        to == from + prefix_len(s@.skip(from as int), other_than(x)),
        to <= s@.len(),
{
    let mut to = from;
    while to < s.len() && s[to] != x
        invariant
            from <= to <= s@.len(),
            forall|i: int| from <= i < to ==> #[trigger] s@[i] != x,
        decreases s@.len() - to,
    {
        to += 1;
    }
    proof {
        let t = s@.skip(from as int);
        lemma_prefix_len_is(t, other_than(x), (to - from) as nat);
    }
    to
}

/// `s` without its leading and trailing whitespace.
pub fn trim(s: &[char]) -> (t: &[char])
    ensures
        t@ == spec_trim(s@),
{
    let start = skip_whitespace(s, 0);
    let mut end = s.len();
    while end > start && is_whitespace(s[end - 1])
        invariant
            start <= end <= s@.len(),
            forall|i: int| end <= i < s@.len() ==> spec_is_whitespace(#[trigger] s@[i]),
        decreases end,
    {
        end -= 1;
    }
    proof {
        assert(s@.skip(0) == s@);
        let rest = spec_trim_start(s@);
        lemma_suffix_len_is(rest, whitespace(), (s@.len() - end) as nat);
    }
    slice_subrange(s, start, end)
}

/// The bounds of the words of `s`, from left to right.
pub fn split_whitespace(s: &[char]) -> (bounds: Vec<(usize, usize)>)
    ensures
        within(bounds@, s@.len()),
        pieces(s@, bounds@) == spec_split_whitespace(s@),
{
    let mut bounds: Vec<(usize, usize)> = Vec::new();
    let mut at: usize = 0;
    proof {
        assert(s@.skip(0) == s@);
    }
    loop
        invariant
            at <= s@.len(),
            within(bounds@, s@.len()),
            pieces(s@, bounds@) + spec_split_whitespace(s@.skip(at as int))
                == spec_split_whitespace(s@),
        ensures
            pieces(s@, bounds@) == spec_split_whitespace(s@),
        decreases s@.len() - at,
    {
        let start = skip_whitespace(s, at);
        let end = skip_word(s, start);
        proof {
            let rest = spec_trim_start(s@.skip(at as int));
            assert(rest == s@.skip(start as int));
        }
        if start == end {
            break ;
        }
        proof {
            let rest = s@.skip(start as int);
            let word = s@.subrange(start as int, end as int);
            assert(rest.take(end - start) == word);
            assert(rest.skip(end - start) == s@.skip(end as int));
        }
        bounds.push((start, end));
        at = end;
    }
    bounds
}

/// `x` occurs in `s` exactly if the longest prefix without `x` is not all of
/// `s`.
pub proof fn lemma_prefix_len_other_than(s: Seq<char>, x: char)
    ensures
        s.contains(x) <==> prefix_len(s, other_than(x)) < s.len(),
{
    lemma_prefix_len(s, other_than(x));
    if s.contains(x) {
        let i = choose|i: int| 0 <= i < s.len() && s[i] == x;
        assert(!other_than(x)(s[i]));
    }
}

/// Appends the characters of `more` to `text`.
pub fn push_all(text: &mut Vec<char>, more: &[char])
    ensures
        final(text)@ == old(text)@ + more@,
{
    let mut at: usize = 0;
    while at < more.len()
        invariant
            at <= more@.len(),
            text@ == old(text)@ + more@.take(at as int),
        decreases more@.len() - at,
    {
        text.push(more[at]);
        at += 1;
    }
}

/// The characters of `s`.
pub fn chars_of(s: &str) -> (chars: Vec<char>)
    ensures
        chars@ == s@,
{
    let mut chars: Vec<char> = Vec::new();
    for c in iter: s.chars()
        invariant
            iter.seq() == s@,
            chars@ == s@.take(iter.index() as int),
    {
        chars.push(c);
    }
    chars
}

/// std's `String::push`: the text afterwards is the text before with `ch` at
/// its end.
pub assume_specification[ String::push ](text: &mut String, ch: char)
    ensures
        final(text)@ == old(text)@.push(ch),
;

/// The text whose characters are `chars`.
pub fn string_of(chars: &[char]) -> (text: String)
    ensures
        text@ == chars@,
{
    let mut text = String::new();
    let mut at: usize = 0;
    while at < chars.len()
        invariant
            at <= chars@.len(),
            text@ == chars@.take(at as int),
        decreases chars@.len() - at,
    {
        text.push(chars[at]);
        at += 1;
    }
    text
}

} // verus!
