//! A cursor over source text and the matchers that advance it.

use vstd::prelude::*;
use vstd::string::StrSliceExecFns;
use crate::parser::bytes::byte_len;
use crate::parser::bytes::lemma_boundary;
use crate::parser::bytes::lemma_byte_len_prefix;
use crate::parser::bytes::lemma_byte_len_step;
use crate::parser::bytes::lemma_cut;
use crate::parser::bytes::width;
use vstd::string::StringSliceAdditionalSpecFns;
use crate::parser::matchers::CharClass;
use crate::parser::matchers::Pattern;
use crate::parser::matchers::combine::Or;

pub mod bytes;
pub mod matchers;

verus! {

/// A view of the text that is still to be scanned. Advancing it copies nothing.
#[derive(Debug, Clone, Copy)]
pub struct Bite<'a> {
    inner: &'a str,
}

impl<'a> View for Bite<'a> {
    type V = Seq<char>;

    closed spec fn view(&self) -> Seq<char> {
        self.inner@
    }
}

/// What consuming gives for a match of `m` characters on `input`: nothing where the matcher
/// does not apply, else the matched prefix and the cursor behind it.
pub open spec fn consumed<'a>(m: Option<nat>, input: Seq<char>, r: Option<(&'a str, Bite<'a>)>) -> bool {
    match m {
        None => r is None,
        Some(n) => n <= input.len() && match r {
            Some((matched, rest)) => matched@ == input.take(n as int) && rest@ == input.skip(
                n as int,
            ),
            None => false,
        },
    }
}

/// Something that recognises a prefix of the remaining text.
pub trait ChompMatcher {
    /// The number of leading characters of `input` that the matcher takes, or `None` where
    /// it does not apply. A matcher may apply and take nothing.
    spec fn match_len(&self, input: Seq<char>) -> Option<nat>;

    /// Splits the text after the matched prefix.
    fn consume<'a>(&self, bite: Bite<'a>) -> (r: Option<(&'a str, Bite<'a>)>)
        ensures
            consumed(self.match_len(bite@), bite@, r),
    ;

    /// Where the matcher takes something, the first character of the text and the cursor
    /// behind that character.
    fn consume_char<'a>(&self, bite: Bite<'a>) -> (r: Option<(char, Bite<'a>)>)
        ensures
            advance(self.match_len(bite@)) == 0 ==> r is None,
            advance(self.match_len(bite@)) > 0 ==> r is Some && r.unwrap().0 == bite@[0]
                && r.unwrap().1@ == bite@.skip(1),
    {
        match self.consume(bite) {
            Some((matched, _)) => {
                if matched.is_empty() {
                    return None;
                }
            },
            None => {
                return None;
            },
        }
        let mut bite = bite;
        match bite.swallow_char() {
            Some(c) => Some((c, bite)),
            None => None,
        }
    }
}

impl<'a> From<&'a str> for Bite<'a> {
    fn from(value: &'a str) -> (r: Self) {
        Self { inner: value }
    }
}

impl<'a> vstd::std_specs::convert::FromSpecImpl<&'a str> for Bite<'a> {
    open spec fn obeys_from_spec() -> bool {
        true
    }

    closed spec fn from_spec(value: &'a str) -> Self {
        Bite { inner: value }
    }
}

/// A cursor made from a text is a cursor over that text.
pub proof fn lemma_from_text(value: &str)
    ensures
        <Bite as vstd::std_specs::convert::FromSpec<&str>>::from_spec(value)@ == value@,
{
}

impl<'a> Bite<'a> {
    /// A cursor at the start of a text.
    pub fn new(inner: &'a str) -> (r: Self)
        ensures
            r@ == inner@,
    {
        Self { inner }
    }

    /// Whether nothing is left to scan.
    pub fn is_empty(&self) -> (r: bool)
        ensures
            r == (self@.len() == 0),
    {
        self.inner.is_empty()
    }

    /// The text that is left to scan.
    pub fn as_str(&self) -> (r: &'a str)
        ensures
            r@ == self@,
    {
        self.inner
    }

    /// The text split at the byte offset `mid`, where its first `k` characters end.
    pub(crate) fn split(self, mid: usize, Ghost(k): Ghost<nat>) -> (r: (&'a str, Bite<'a>))
        requires
            k <= self@.len(),
            mid == byte_len(self@.take(k as int)),
        ensures
            r.0@ == self@.take(k as int),
            r.1@ == self@.skip(k as int),
    {
        proof {
            lemma_boundary(self@, k as int);
            lemma_byte_len_prefix(self@, k as int);
        }
        let (matched, rest) = self.inner.split_at(mid);
        proof {
            lemma_cut(self.inner, matched, rest, k as int);
        }
        (matched, Bite { inner: rest })
    }
}

/// How far a matcher advances the cursor: by its match, or not at all where it does not
/// apply.
pub open spec fn advance(m: Option<nat>) -> nat {
    match m {
        Some(n) => n,
        None => 0,
    }
}

/// A matcher, ready to be applied to a cursor.
pub struct Chomp<M> {
    pub matcher: M,
}

impl Chomp<()> {
    /// The run of white space.
    pub fn whitespace() -> (r: Chomp<Pattern<'static>>)
        ensures
            r.matcher == Pattern::Run(CharClass::Whitespace),
    {
        Chomp { matcher: Pattern::Run(CharClass::Whitespace) }
    }

    /// The run of alphabetic characters.
    pub fn alphabetic() -> (r: Chomp<Pattern<'static>>)
        ensures
            r.matcher == Pattern::Run(CharClass::Alphabetic),
    {
        Chomp { matcher: Pattern::Run(CharClass::Alphabetic) }
    }

    /// The run of alphabetic and numeric characters.
    pub fn alphanumeric() -> (r: Chomp<Pattern<'static>>)
        ensures
            r.matcher == Pattern::Run(CharClass::Alphanumeric),
    {
        Chomp { matcher: Pattern::Run(CharClass::Alphanumeric) }
    }

    /// The run of alphabetic and numeric characters and underscores.
    pub fn alphanumeric_extended() -> (r: Chomp<Pattern<'static>>)
        ensures
            r.matcher == Pattern::Run(CharClass::Word),
    {
        Chomp { matcher: Pattern::Run(CharClass::Word) }
    }

    /// The run of numeric characters.
    pub fn numeric() -> (r: Chomp<Pattern<'static>>)
        ensures
            r.matcher == Pattern::Run(CharClass::Numeric),
    {
        Chomp { matcher: Pattern::Run(CharClass::Numeric) }
    }

    /// A numeral: an optional sign, digits, and at most one point.
    pub fn any_number() -> (r: Chomp<Pattern<'static>>)
        ensures
            r.matcher == Pattern::AnyNumber,
    {
        Chomp { matcher: Pattern::AnyNumber }
    }

    /// A keyword: the pattern, not followed by an alphabetic character or an underscore.
    pub fn literal<'p>(pattern: &'p str) -> (r: Chomp<Pattern<'p>>)
        ensures
            r.matcher == Pattern::Literal(pattern),
    {
        Chomp { matcher: Pattern::Literal(pattern) }
    }

    /// A symbol: the pattern, whatever follows.
    pub fn literal_substring<'p>(pattern: &'p str) -> (r: Chomp<Pattern<'p>>)
        ensures
            r.matcher == Pattern::LiteralSubstring(pattern),
    {
        Chomp { matcher: Pattern::LiteralSubstring(pattern) }
    }

    /// One given character.
    pub fn char(c: char) -> (r: Chomp<Pattern<'static>>)
        ensures
            r.matcher == Pattern::Char(c),
    {
        Chomp { matcher: Pattern::Char(c) }
    }

    /// One character out of a set.
    pub fn char_any<'p>(c: &'p [char]) -> (r: Chomp<Pattern<'p>>)
        ensures
            r.matcher == Pattern::CharAny(c),
    {
        Chomp { matcher: Pattern::CharAny(c) }
    }
}

impl<M: ChompMatcher> Chomp<M> {
    /// The matcher, ready to be applied.
    pub fn new(matcher: M) -> (r: Self)
        ensures
            r.matcher == matcher,
    {
        Self { matcher }
    }

    /// Whether the matcher takes at least one character.
    pub fn is_match<'a>(self, bite: Bite<'a>) -> (r: bool)
        ensures
            r == (advance(self.matcher.match_len(bite@)) > 0),
    {
        match self.matcher.consume(bite) {
            Some((matched, _)) => {
                assert(matched@.len() == advance(self.matcher.match_len(bite@)));
                !matched.is_empty()
            },
            None => false,
        }
    }

    /// The matched prefix, where the matcher applies, and the cursor behind it.
    pub fn consume<'a>(self, bite: Bite<'a>) -> (r: (Option<&'a str>, Bite<'a>))
        ensures
            r.1@ == bite@.skip(advance(self.matcher.match_len(bite@)) as int),
            self.matcher.match_len(bite@) is None ==> r.0 is None,
            self.matcher.match_len(bite@) is Some ==> r.0 is Some && r.0.unwrap()@ == bite@.take(
                advance(self.matcher.match_len(bite@)) as int,
            ),
            advance(self.matcher.match_len(bite@)) <= bite@.len(),
    {
        match self.matcher.consume(bite) {
            Some((matched, rest)) => (Some(matched), rest),
            None => {
                assert(bite@.skip(0) =~= bite@);
                (None, bite)
            },
        }
    }

    /// The same as `consume`.
    pub fn consume_until<'a>(self, bite: Bite<'a>) -> (r: (Option<&'a str>, Bite<'a>))
        ensures
            r.1@ == bite@.skip(advance(self.matcher.match_len(bite@)) as int),
            self.matcher.match_len(bite@) is None ==> r.0 is None,
            self.matcher.match_len(bite@) is Some ==> r.0 is Some && r.0.unwrap()@ == bite@.take(
                advance(self.matcher.match_len(bite@)) as int,
            ),
            advance(self.matcher.match_len(bite@)) <= bite@.len(),
    {
        self.consume(bite)
    }

    /// This matcher, or `other` where this one does not apply.
    pub fn or<T: ChompMatcher>(self, other: Chomp<T>) -> (r: Chomp<Or<M, T>>)
        ensures
            r.matcher.0 == self.matcher,
            r.matcher.1 == other.matcher,
    {
        Chomp { matcher: Or::new(self.matcher, other.matcher) }
    }
}

impl<'a> Bite<'a> {
    /// The cursor behind what the matcher takes.
    pub fn chomp<M: ChompMatcher>(self, chomp: Chomp<M>) -> (r: Self)
        ensures
            r@ == self@.skip(advance(chomp.matcher.match_len(self@)) as int),
            advance(chomp.matcher.match_len(self@)) <= self@.len(),
    {
        let (_, bite) = chomp.consume(self);
        bite
    }

    /// Whether the matcher takes at least one character here.
    pub fn can_nibble<M: ChompMatcher>(&self, chomp: Chomp<M>) -> (r: bool)
        ensures
            r == (advance(chomp.matcher.match_len(self@)) > 0),
    {
        chomp.is_match(*self)
    }

    /// Takes what the matcher matches and returns it, unless that is nothing.
    pub fn nibble<M: ChompMatcher>(&mut self, chomp: Chomp<M>) -> (r: Option<&'a str>)
        ensures
            final(self)@ == old(self)@.skip(advance(chomp.matcher.match_len(old(self)@)) as int),
            advance(chomp.matcher.match_len(old(self)@)) <= old(self)@.len(),
            advance(chomp.matcher.match_len(old(self)@)) == 0 ==> r is None && final(self)@ == old(
                self,
            )@,
            advance(chomp.matcher.match_len(old(self)@)) > 0 ==> r is Some && r.unwrap()@ == old(
                self,
            )@.take(advance(chomp.matcher.match_len(old(self)@)) as int),
    {
        assert(self@.skip(0) =~= self@);
        let (matched, bite) = chomp.consume(*self);
        *self = bite;
        match matched {
            Some(text) => {
                if text.is_empty() {
                    None
                } else {
                    Some(text)
                }
            },
            None => None,
        }
    }

    /// Takes one character, if there is one.
    pub fn swallow_char(&mut self) -> (r: Option<char>)
        ensures
            old(self)@.len() == 0 ==> r is None && final(self)@ == old(self)@,
            old(self)@.len() > 0 ==> r == Some(old(self)@[0]) && final(self)@ == old(self)@.skip(1),
    {
        if self.inner.is_empty() {
            return None;
        }
        let c = self.inner.get_char(0);
        proof {
            lemma_byte_len_step(self@, 0);
        }
        let (_, rest) = self.split(width(c), Ghost(1));
        *self = rest;
        Some(c)
    }
}

/// The pieces that a row of matchers takes one after another, each at least one character,
/// and the text behind the last piece; `None` where one of them takes nothing.
pub open spec fn entire<M: ChompMatcher>(chomp: Seq<Chomp<M>>, input: Seq<char>) -> Option<
    (Seq<Seq<char>>, Seq<char>),
>
    decreases chomp.len(),
{
    if chomp.len() == 0 {
        Some((Seq::empty(), input))
    } else {
        let n = advance(chomp[0].matcher.match_len(input));
        if n == 0 || n > input.len() {
            None
        } else {
            match entire(chomp.skip(1), input.skip(n as int)) {
                Some((pieces, rest)) => Some((seq![input.take(n as int)] + pieces, rest)),
                None => None,
            }
        }
    }
}

impl<'a> Bite<'a> {
    /// Takes what a row of matchers matches one after another, or nothing at all where one of
    /// them matches nothing.
    pub fn nibble_entire<M: ChompMatcher, const N: usize>(&mut self, chomp: [Chomp<M>; N]) -> (r:
        Option<[&'a str; N]>)
        ensures
            match entire(chomp@, old(self)@) {
                Some((pieces, rest)) => r is Some && final(self)@ == rest && pieces.len() == N
                    && forall|i: int| 0 <= i < N ==> (#[trigger] r.unwrap()@[i])@ == pieces[i],
                None => r is None && final(self)@ == old(self)@,
            },
    {
        let mut matches: [&'a str; N] = [""; N];
        let mut next = *self;
        let mut i: usize = 0;
        let ghost mut done: Seq<Seq<char>> = Seq::empty();
        assert(chomp@.skip(0) =~= chomp@);
        while i < N
            invariant
                i <= N,
                done.len() == i,
                forall|k: int| 0 <= k < i ==> (#[trigger] matches@[k])@ == done[k],
                entire(chomp@, old(self)@) == match entire(chomp@.skip(i as int), next@) {
                    Some((pieces, rest)) => Some((done + pieces, rest)),
                    None => None,
                },
                *self == *old(self),
            decreases N - i,
        {
            let ghost tail = chomp@.skip(i as int);
            assert(tail[0] == chomp@[i as int]);
            assert(tail.skip(1) =~= chomp@.skip(i + 1));
            match chomp[i].matcher.consume(next) {
                Some((matched, rest)) => {
                    if matched.is_empty() {
                        return None;
                    }
                    matches[i] = matched;
                    proof {
                        assert forall|p: Seq<Seq<char>>| done + (seq![matched@] + p) == done.push(
                            matched@,
                        ) + p by {
                            assert(done + (seq![matched@] + p) =~= done.push(matched@) + p);
                        }
                        done = done.push(matched@);
                    }
                    next = rest;
                },
                None => {
                    return None;
                },
            }
            i += 1;
        }
        assert(done + Seq::<Seq<char>>::empty() =~= done);
        *self = next;
        Some(matches)
    }
}

} // verus!
