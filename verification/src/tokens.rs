//! Splitting a job-type name into the tokens that category rules match on.

use smallvec::SmallVec;
use vstd::std_specs::iter::IteratorSpec;
use vstd::prelude::*;

verus! {

/// The two characters that separate the tokens of a job-type name.
pub open spec fn is_separator(c: char) -> bool {
    c == '-' || c == '/'
}

/// The number of characters before the first separator of `s`; `s.len()` when
/// `s` holds no separator.
pub open spec fn first_separator(s: Seq<char>) -> nat
    decreases s.len(),
{
    if s.len() == 0 || is_separator(s[0]) {
        0
    } else {
        1 + first_separator(s.drop_first())
    }
}

/// The tokens of a name: the text before its first separator, followed by the
/// tokens of what comes after that separator. A name without separator is one
/// token, so the result is never empty; neighbouring separators, or one at
/// either end, give empty tokens.
pub open spec fn split_tokens(s: Seq<char>) -> Seq<Seq<char>>
    decreases s.len(),
{
    let cut = first_separator(s);
    if cut >= s.len() {
        seq![s]
    } else {
        seq![s.subrange(0, cut as int)] + split_tokens(s.subrange(cut as int + 1, s.len() as int))
    }
}

/// `first_separator` finds a separator, and none stands before it.
pub proof fn lemma_first_separator(s: Seq<char>)
    ensures
        first_separator(s) <= s.len(),
        first_separator(s) < s.len() ==> is_separator(s[first_separator(s) as int]),
        forall|k: int| 0 <= k < first_separator(s) ==> !is_separator(#[trigger] s[k]),
    decreases s.len(),
{
    if s.len() != 0 && !is_separator(s[0]) {
        let rest = s.drop_first();
        lemma_first_separator(rest);
        assert forall|k: int| 0 <= k < first_separator(s) implies !is_separator(
            #[trigger] s[k],
        ) by {
            if k > 0 {
                assert(s[k] == rest[k - 1]);
            }
        }
    }
}

/// Where the first `n` characters are no separators and the next one is (or
/// the text ends there), `first_separator` is `n`.
pub proof fn lemma_first_separator_is(s: Seq<char>, n: nat)
    requires
        n <= s.len(),
        forall|k: int| 0 <= k < n ==> !is_separator(#[trigger] s[k]),
        n < s.len() ==> is_separator(s[n as int]),
    ensures
        first_separator(s) == n,
{
    lemma_first_separator(s);
}

/// The number of separators in `s`.
pub open spec fn separator_count(s: Seq<char>) -> nat
    decreases s.len(),
{
    if s.len() == 0 {
        0
    } else if is_separator(s.last()) {
        separator_count(s.drop_last()) + 1
    } else {
        separator_count(s.drop_last())
    }
}

/// Text without a separator counts none, and text cut behind a separator
/// counts one more than the rest does.
proof fn lemma_separator_count_cut(s: Seq<char>, cut: int)
    requires
        0 <= cut <= s.len(),
        forall|k: int| 0 <= k < cut ==> !is_separator(#[trigger] s[k]),
    ensures
        cut == s.len() ==> separator_count(s) == 0,
        cut < s.len() && is_separator(s[cut]) ==> separator_count(s) == 1 + separator_count(
            s.subrange(cut + 1, s.len() as int),
        ),
    decreases s.len(),
{
    if s.len() > 0 {
        let shorter = s.drop_last();
        if cut == s.len() {
            lemma_separator_count_cut(shorter, cut - 1);
        } else {
            lemma_separator_count_cut(shorter, cut);
            if cut < shorter.len() {
                assert(s.subrange(cut + 1, s.len() as int).drop_last() == shorter.subrange(
                    cut + 1,
                    shorter.len() as int,
                ));
            } else {
                assert(s.subrange(cut + 1, s.len() as int) == Seq::<char>::empty());
            }
        }
    }
}

/// A name has one more token than it has separators, so at least one.
pub proof fn lemma_token_count(s: Seq<char>)
    ensures
        split_tokens(s).len() == separator_count(s) + 1,
    decreases s.len(),
{
    let cut = first_separator(s) as int;
    lemma_first_separator(s);
    lemma_separator_count_cut(s, cut);
    if cut < s.len() {
        lemma_token_count(s.subrange(cut + 1, s.len() as int));
    }
}

/// No token holds a separator.
pub proof fn lemma_tokens_hold_no_separator(s: Seq<char>, token: int, at: int)
    requires
        0 <= token < split_tokens(s).len(),
        0 <= at < split_tokens(s)[token].len(),
    ensures
        !is_separator(split_tokens(s)[token][at]),
    decreases s.len(),
{
    let cut = first_separator(s) as int;
    lemma_first_separator(s);
    if cut < s.len() && token > 0 {
        let rest = s.subrange(cut + 1, s.len() as int);
        assert(split_tokens(s)[token] == split_tokens(rest)[token - 1]);
        lemma_tokens_hold_no_separator(rest, token - 1, at);
    }
}

/// A buffer of tokens, each borrowed from the name that was split. It keeps a
/// few tokens inline and moves to the heap only for longer names.
#[verifier::external_body]
pub struct TokenBuffer<'a> {
    inner: SmallVec<[&'a str; 10]>,
}

/// The tokens that a buffer holds, in the order in which they were pushed.
pub uninterp spec fn buffered_tokens(buffer: TokenBuffer) -> Seq<Seq<char>>;

/// `SmallVec::new`: an empty buffer.
#[verifier::external_body]
fn buffer_new<'a>() -> (buffer: TokenBuffer<'a>)
    ensures
        buffered_tokens(buffer) == Seq::<Seq<char>>::empty(),
{
    TokenBuffer { inner: SmallVec::new() }
}

/// `SmallVec::push`: appends one token behind those already held.
#[verifier::external_body]
fn buffer_push<'a>(buffer: &mut TokenBuffer<'a>, token: &'a str)
    ensures
        buffered_tokens(*final(buffer)) == buffered_tokens(*old(buffer)).push(token@),
{
    buffer.inner.push(token)
}

/// `SmallVec::as_slice`: the held tokens as a slice, in order.
#[verifier::external_body]
fn buffer_as_slice<'a, 'b>(buffer: &'b TokenBuffer<'a>) -> (tokens: &'b [&'a str])
    ensures
        token_texts(tokens@) == buffered_tokens(*buffer),
{
    buffer.inner.as_slice()
}

/// The text of each token of a sequence of string slices.
pub open spec fn token_texts(tokens: Seq<&str>) -> Seq<Seq<char>> {
    Seq::new(tokens.len(), |i: int| tokens[i]@)
}

impl<'a> TokenBuffer<'a> {
    /// The tokens in the buffer.
    pub fn as_slice(&self) -> (tokens: &[&'a str])
        ensures
            token_texts(tokens@) == buffered_tokens(*self),
    {
        buffer_as_slice(self)
    }
}

/// Splits a job-type name at every `-` and `/`.
pub fn tokenize<'a>(name: &'a str) -> (tokens: TokenBuffer<'a>)
    ensures
        buffered_tokens(tokens) == split_tokens(name@),
{
    broadcast use vstd::string::group_string_axioms;

    let mut tokens = buffer_new();
    let len = name.unicode_len();
    let mut chars = name.chars();
    let mut start: usize = 0;
    let mut i: usize = 0;
    proof {
        assert(name@.subrange(0, len as int) == name@);
    }
    while i < len
        invariant
            start <= i <= len == name@.len(),
            chars.remaining() == name@.subrange(i as int, len as int),
            forall|k: int| start <= k < i ==> !is_separator(#[trigger] name@[k]),
            split_tokens(name@) == buffered_tokens(tokens) + split_tokens(
                name@.subrange(start as int, len as int),
            ),
        decreases len - i,
    {
        let c = chars.next().unwrap();
        if c == '-' || c == '/' {
            let token = name.substring_char(start, i);
            proof {
                let rest = name@.subrange(start as int, len as int);
                lemma_first_separator_is(rest, (i - start) as nat);
                assert(rest.subrange(0, i - start) == token@);
                assert(rest.subrange(i - start + 1, rest.len() as int) == name@.subrange(
                    i + 1,
                    len as int,
                ));
            }
            buffer_push(&mut tokens, token);
            start = i + 1;
        }
        i += 1;
    }
    let token = name.substring_char(start, len);
    proof {
        lemma_first_separator_is(token@, token@.len());
    }
    buffer_push(&mut tokens, token);
    tokens
}

} // verus!
