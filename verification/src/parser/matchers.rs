//! The matchers themselves: each says how many bytes of the text it takes. What is taken
//! is specified in characters; the count that a matcher returns is the length of those
//! characters in UTF-8, the offset at which the text is split.

use vstd::prelude::*;
use vstd::string::StrSliceExecFns;
use crate::text::unicode_whitespace;
use crate::text::unicode_alphabetic;
use crate::text::unicode_numeric;
use crate::text::is_digit;
use crate::text::ascii_digit;
use crate::parser::Bite;
use crate::parser::ChompMatcher;
use crate::parser::advance;
use crate::parser::bytes::byte_len;
use crate::parser::bytes::char_width;
use crate::parser::bytes::lemma_byte_len_prefix;
use crate::parser::bytes::lemma_byte_len_step;
use crate::parser::bytes::width;
use vstd::string::StringSliceAdditionalSpecFns;

pub mod combine;

verus! {

/// A class of characters that a run is made of.
#[derive(Debug, Clone, Copy, PartialEq, Eq)]
pub enum CharClass {
    Whitespace,
    Alphabetic,
    Alphanumeric,
    /// Alphanumeric or an underscore.
    Word,
    Numeric,
}

/// The minus sign U+2212, which calculators print and which is read like `-`.
pub const MINUS_SIGN: char = '\u{2212}';

/// Whether a character belongs to a class.
pub open spec fn in_class(c: char, class: CharClass) -> bool {
    match class {
        CharClass::Whitespace => unicode_whitespace(c),
        CharClass::Alphabetic => unicode_alphabetic(c),
        CharClass::Alphanumeric => unicode_alphabetic(c) || unicode_numeric(c),
        CharClass::Word => unicode_alphabetic(c) || unicode_numeric(c) || c == '_',
        CharClass::Numeric => unicode_numeric(c),
    }
}

/// The number of leading characters of `s` that belong to the class.
pub open spec fn run_len(s: Seq<char>, class: CharClass) -> nat
    decreases s.len(),
{
    if s.len() > 0 && in_class(s[0], class) {
        1 + run_len(s.skip(1), class)
    } else {
        0
    }
}

/// A run is no longer than the text.
pub proof fn lemma_run_bound(s: Seq<char>, class: CharClass)
    ensures
        run_len(s, class) <= s.len(),
    decreases s.len(),
{
    if s.len() > 0 && in_class(s[0], class) {
        lemma_run_bound(s.skip(1), class);
    }
}

/// The run is the one length up to which every character is in the class and at which
/// the text ends or a character is not.
pub proof fn lemma_run_len(s: Seq<char>, class: CharClass, n: nat)
    requires
        n <= s.len(),
        forall|j: int| 0 <= j < n ==> in_class(#[trigger] s[j], class),
        n < s.len() ==> !in_class(s[n as int], class),
    ensures
        run_len(s, class) == n,
    decreases n,
{
    if n > 0 {
        let t = s.skip(1);
        assert forall|j: int| 0 <= j < n - 1 implies in_class(#[trigger] t[j], class) by {
            assert(t[j] == s[j + 1]);
        }
        lemma_run_len(t, class, (n - 1) as nat);
    }
}

/// An executable matcher's result agrees with the length in characters that a
/// specification gives: it is the number of bytes that those characters take in the text.
pub open spec fn agrees(r: Option<usize>, m: Option<nat>, s: Seq<char>) -> bool {
    match r {
        Some(n) => match m {
            Some(k) => k <= s.len() && n == byte_len(s.take(k as int)),
            None => false,
        },
        None => m is None,
    }
}

/// `f` accepts the first `k` characters of `s`, each given with the byte offset at which
/// it stands, and refuses the next, if there is one; the `k` characters take `n` bytes.
pub open spec fn counted<F: Fn(usize, char) -> bool>(f: F, s: Seq<char>, k: int, n: usize) -> bool {
    &&& 0 <= k <= s.len()
    &&& n == byte_len(s.take(k))
    &&& forall|j: int|
        0 <= j < k ==> f.ensures((byte_len(s.take(j)) as usize, #[trigger] s[j]), true)
    &&& k < s.len() ==> f.ensures((n, s[k]), false)
}

/// Counts the leading characters that `f` accepts, and the bytes they take.
fn count<F: Fn(usize, char) -> bool>(f: &F, x: &str) -> (r: (usize, usize))
    requires
        forall|i: usize, c: char| f.requires((i, c)),
    ensures
        counted(*f, x@, r.0 as int, r.1),
{
    let total = x.unicode_len();
    let bytes = x.as_bytes().len();
    let mut i: usize = 0;
    let mut offset: usize = 0;
    proof {
        lemma_byte_len_prefix(x@, 0);
        assert(x@.take(0) =~= Seq::<char>::empty());
    }
    while i < total
        invariant
            total == x@.len(),
            bytes == byte_len(x@),
            i <= total,
            offset == byte_len(x@.take(i as int)),
            forall|i: usize, c: char| f.requires((i, c)),
            forall|j: int|
                0 <= j < i ==> f.ensures((byte_len(x@.take(j)) as usize, #[trigger] x@[j]), true),
        decreases total - i,
    {
        let c = x.get_char(i);
        if !f(offset, c) {
            return (i, offset);
        }
        proof {
            lemma_byte_len_step(x@, i as int);
        }
        offset += width(c);
        i += 1;
    }
    (i, offset)
}

/// Counts the bytes of the leading characters that `f` accepts. `f` is given each character
/// with the byte offset at which it stands; the count stops at the first refusal or at the
/// end of the text.
pub fn matches<F: Fn(usize, char) -> bool>(f: F, x: &str) -> (r: Option<usize>)
    requires
        forall|i: usize, c: char| f.requires((i, c)),
    ensures
        r is Some,
        exists|k: int| counted(f, x@, k, r.unwrap()),
{
    let (k, n) = count(&f, x);
    let r = Some(n);
    assert(counted(f, x@, k as int, r.unwrap()));
    r
}

/// Decides on the first character alone: where `f` accepts it, the bytes of that character
/// are taken.
pub fn char_matches<F: Fn(usize, char) -> bool>(f: F, x: &str) -> (r: Option<usize>)
    requires
        forall|i: usize, c: char| f.requires((i, c)),
    ensures
        x@.len() == 0 ==> r is None,
        x@.len() > 0 ==> (r == Some(char_width(x@[0]) as usize) && f.ensures((0, x@[0]), true))
            || (r is None && f.ensures((0, x@[0]), false)),
{
    if x.is_empty() {
        return None;
    }
    let c = x.get_char(0);
    if f(0, c) {
        Some(width(c))
    } else {
        None
    }
}

/// The bytes of the run of a class at the start of a text.
fn run<F: Fn(usize, char) -> bool>(f: F, x: &str, Ghost(class): Ghost<CharClass>) -> (r: Option<
    usize,
>)
    requires
        forall|i: usize, c: char| f.requires((i, c)),
        forall|i: usize, c: char, b: bool| f.ensures((i, c), b) ==> b == in_class(c, class),
    ensures
        agrees(r, Some(run_len(x@, class)), x@),
{
    let (k, n) = count(&f, x);
    proof {
        lemma_run_len(x@, class, k as nat);
    }
    Some(n)
}

fn whitespace_at(i: usize, c: char) -> (b: bool)
    ensures
        b == in_class(c, CharClass::Whitespace),
{
    c.is_whitespace()
}

fn alphabetic_at(i: usize, c: char) -> (b: bool)
    ensures
        b == in_class(c, CharClass::Alphabetic),
{
    c.is_alphabetic()
}

fn alphanumeric_at(i: usize, c: char) -> (b: bool)
    ensures
        b == in_class(c, CharClass::Alphanumeric),
{
    c.is_alphanumeric()
}

fn word_at(i: usize, c: char) -> (b: bool)
    ensures
        b == in_class(c, CharClass::Word),
{
    c.is_alphanumeric() || c == '_'
}

fn numeric_at(i: usize, c: char) -> (b: bool)
    ensures
        b == in_class(c, CharClass::Numeric),
{
    c.is_numeric()
}

/// The bytes of the run of white space at the start of the text.
pub fn is_whitespace(x: &str) -> (r: Option<usize>)
    ensures
        agrees(r, Some(run_len(x@, CharClass::Whitespace)), x@),
{
    run(whitespace_at, x, Ghost(CharClass::Whitespace))
}

/// The bytes of the run of alphabetic characters at the start of the text.
pub fn is_alphabetic(x: &str) -> (r: Option<usize>)
    ensures
        agrees(r, Some(run_len(x@, CharClass::Alphabetic)), x@),
{
    run(alphabetic_at, x, Ghost(CharClass::Alphabetic))
}

/// The bytes of the run of alphabetic and numeric characters at the start of the text.
pub fn is_alphanumeric(x: &str) -> (r: Option<usize>)
    ensures
        agrees(r, Some(run_len(x@, CharClass::Alphanumeric)), x@),
{
    run(alphanumeric_at, x, Ghost(CharClass::Alphanumeric))
}

/// The bytes of the run of alphabetic and numeric characters and underscores at the start
/// of the text.
pub fn is_alphanumeric_extended(x: &str) -> (r: Option<usize>)
    ensures
        agrees(r, Some(run_len(x@, CharClass::Word)), x@),
{
    run(word_at, x, Ghost(CharClass::Word))
}

/// The bytes of the run of numeric characters at the start of the text.
pub fn is_numeric(x: &str) -> (r: Option<usize>)
    ensures
        agrees(r, Some(run_len(x@, CharClass::Numeric)), x@),
{
    run(numeric_at, x, Ghost(CharClass::Numeric))
}

/// Whether a character can stand in a numeral: a decimal digit, `.`, `-` or the minus
/// sign U+2212.
pub open spec fn is_numeral_part(c: char) -> bool {
    is_digit(c) || c == '.' || c == '-' || c == MINUS_SIGN
}

/// Whether `s` begins with `p`.
pub open spec fn starts_with(s: Seq<char>, p: Seq<char>) -> bool {
    p.len() <= s.len() && forall|i: int| 0 <= i < p.len() ==> s[i] == p[i]
}

/// A keyword: the text begins with `pattern`, and what follows is neither alphabetic nor
/// an underscore.
pub open spec fn literal_len(pattern: Seq<char>, s: Seq<char>) -> Option<nat> {
    if starts_with(s, pattern) && !(s.len() > pattern.len() && (unicode_alphabetic(
        s[pattern.len() as int],
    ) || s[pattern.len() as int] == '_')) {
        Some(pattern.len())
    } else {
        None
    }
}

/// A symbol: the text begins with `pattern`, whatever follows.
pub open spec fn substring_len(pattern: Seq<char>, s: Seq<char>) -> Option<nat> {
    if starts_with(s, pattern) {
        Some(pattern.len())
    } else {
        None
    }
}

/// One given character.
pub open spec fn char_len(c: char, s: Seq<char>) -> Option<nat> {
    if s.len() > 0 && s[0] == c {
        Some(1)
    } else {
        None
    }
}

/// One character out of a set.
pub open spec fn char_any_len(set: Seq<char>, s: Seq<char>) -> Option<nat> {
    if s.len() > 0 && set.contains(s[0]) {
        Some(1)
    } else {
        None
    }
}

/// The length of the numeral at the start of `s`: a sign is taken only as the first
/// character (`first`), a point only once (`seen_point`), digits always.
pub open spec fn number_run(s: Seq<char>, first: bool, seen_point: bool) -> nat
    decreases s.len(),
{
    if s.len() == 0 {
        0
    } else if first && (s[0] == '-' || s[0] == MINUS_SIGN) {
        1 + number_run(s.skip(1), false, seen_point)
    } else if s[0] == '.' && !seen_point {
        1 + number_run(s.skip(1), false, true)
    } else if is_digit(s[0]) {
        1 + number_run(s.skip(1), false, seen_point)
    } else {
        0
    }
}

/// A numeral is no longer than the text.
pub proof fn lemma_number_run_bound(s: Seq<char>, first: bool, seen_point: bool)
    ensures
        number_run(s, first, seen_point) <= s.len(),
    decreases s.len(),
{
    if s.len() > 0 {
        lemma_number_run_bound(s.skip(1), false, seen_point);
        lemma_number_run_bound(s.skip(1), false, true);
    }
}

/// Whether a text holds a decimal digit.
pub open spec fn has_digit(s: Seq<char>) -> bool {
    exists|i: int| 0 <= i < s.len() && is_digit(#[trigger] s[i])
}

/// A numeral: an optional sign, then digits with at most one point among them, and at
/// least one digit. A sign or a point without a digit is no numeral: the `-` of `-x` and
/// of `- 5` is an operator, while `-5 + 1` begins with the numeral `-5`.
pub open spec fn number_len(s: Seq<char>) -> Option<nat> {
    let n = number_run(s, true, false);
    if has_digit(s.take(n as int)) {
        Some(n)
    } else {
        None
    }
}

fn has_prefix(x: &str, pattern: &str) -> (r: bool)
    ensures
        r == starts_with(x@, pattern@),
{
    let n = pattern.unicode_len();
    let total = x.unicode_len();
    if total < n {
        return false;
    }
    let mut i: usize = 0;
    while i < n
        invariant
            n == pattern@.len(),
            total == x@.len(),
            n <= total,
            i <= n,
            forall|j: int| 0 <= j < i ==> x@[j] == pattern@[j],
        decreases n - i,
    {
        if x.get_char(i) != pattern.get_char(i) {
            return false;
        }
        i += 1;
    }
    true
}

/// The text begins with the pattern, so the pattern takes as many bytes in it as it has.
proof fn lemma_prefix_bytes(x: Seq<char>, pattern: Seq<char>)
    requires
        starts_with(x, pattern),
    ensures
        byte_len(x.take(pattern.len() as int)) == byte_len(pattern),
{
    assert(x.take(pattern.len() as int) =~= pattern);
}

/// The bytes of the keyword, where the text begins with it.
pub fn literal(pattern: &str, x: &str) -> (r: Option<usize>)
    ensures
        agrees(r, literal_len(pattern@, x@), x@),
{
    if !has_prefix(x, pattern) {
        return None;
    }
    let n = pattern.unicode_len();
    let total = x.unicode_len();
    if total > n {
        let c = x.get_char(n);
        if c.is_alphabetic() || c == '_' {
            return None;
        }
    }
    proof {
        lemma_prefix_bytes(x@, pattern@);
    }
    Some(pattern.as_bytes().len())
}

/// The bytes of the symbol, where the text begins with it.
pub fn literal_substring(pattern: &str, x: &str) -> (r: Option<usize>)
    ensures
        agrees(r, substring_len(pattern@, x@), x@),
{
    if has_prefix(x, pattern) {
        proof {
            lemma_prefix_bytes(x@, pattern@);
        }
        Some(pattern.as_bytes().len())
    } else {
        None
    }
}

/// The first character of a text takes as many bytes as it is wide.
proof fn lemma_first_bytes(x: Seq<char>)
    requires
        x.len() > 0,
    ensures
        byte_len(x.take(1)) == char_width(x[0]),
{
    lemma_byte_len_step(x, 0);
}

/// The bytes of the character, where the text begins with it.
pub fn char_is(c: char, x: &str) -> (r: Option<usize>)
    ensures
        agrees(r, char_len(c, x@), x@),
{
    if x.is_empty() {
        None
    } else if x.get_char(0) == c {
        proof {
            lemma_first_bytes(x@);
        }
        Some(width(c))
    } else {
        None
    }
}

/// The bytes of the first character, where it is a character of the set.
pub fn char_any(set: &[char], x: &str) -> (r: Option<usize>)
    ensures
        agrees(r, char_any_len(set@, x@), x@),
{
    if x.is_empty() {
        return None;
    }
    let c = x.get_char(0);
    let mut i: usize = 0;
    while i < set.len()
        invariant
            i <= set.len(),
            x@.len() > 0,
            c == x@[0],
            forall|j: int| 0 <= j < i ==> set@[j] != c,
        decreases set.len() - i,
    {
        if set[i] == c {
            assert(set@[i as int] == x@[0]);
            proof {
                lemma_first_bytes(x@);
            }
            return Some(width(c));
        }
        i += 1;
    }
    None
}

/// The bytes of the numeral, where the text begins with one.
pub fn any_number(x: &str) -> (r: Option<usize>)
    ensures
        agrees(r, number_len(x@), x@),
{
    let total = x.unicode_len();
    let bytes = x.as_bytes().len();
    let mut i: usize = 0;
    let mut offset: usize = 0;
    let mut seen_dp = false;
    let mut seen_digit = false;
    let ghost mut digit_at: int = -1;
    let mut more = true;
    assert(x@.skip(0) =~= x@);
    assert(x@.take(0) =~= Seq::<char>::empty());
    proof {
        lemma_byte_len_prefix(x@, 0);
    }
    while i < total && more
        invariant
            total == x@.len(),
            bytes == byte_len(x@),
            i <= total,
            offset == byte_len(x@.take(i as int)),
            number_run(x@, true, false) == i + number_run(x@.skip(i as int), i == 0, seen_dp),
            !more ==> number_run(x@.skip(i as int), i == 0, seen_dp) == 0,
            seen_digit ==> 0 <= digit_at < i && is_digit(x@[digit_at]),
            !seen_digit ==> forall|j: int| 0 <= j < i ==> !is_digit(#[trigger] x@[j]),
        decreases total - i, more as int,
    {
        let c = x.get_char(i);
        let ghost rest = x@.skip(i as int);
        assert(rest[0] == c);
        assert(rest.skip(1) =~= x@.skip(i + 1));
        let taken = if i == 0 && (c == '-' || c == MINUS_SIGN) {
            true
        } else if c == '.' && !seen_dp {
            seen_dp = true;
            true
        } else if ascii_digit(c) {
            proof {
                digit_at = i as int;
            }
            seen_digit = true;
            true
        } else {
            false
        };
        if taken {
            proof {
                lemma_byte_len_step(x@, i as int);
            }
            offset += width(c);
            i += 1;
        } else {
            more = false;
        }
    }
    assert(number_run(x@, true, false) == i);
    let ghost head = x@.take(i as int);
    if seen_digit {
        assert(is_digit(head[digit_at]));
        Some(offset)
    } else {
        assert forall|j: int| 0 <= j < head.len() implies !is_digit(#[trigger] head[j]) by {
            assert(head[j] == x@[j]);
        }
        None
    }
}

/// The built-in matchers.
#[derive(Debug, Clone, Copy)]
pub enum Pattern<'p> {
    /// The longest run of characters of a class. It always applies and may be empty.
    Run(CharClass),
    /// A numeral.
    AnyNumber,
    /// A keyword that must not run on into a name.
    Literal(&'p str),
    /// A symbol.
    LiteralSubstring(&'p str),
    /// One given character.
    Char(char),
    /// One character out of a set.
    CharAny(&'p [char]),
}

impl<'p> ChompMatcher for Pattern<'p> {
    open spec fn match_len(&self, input: Seq<char>) -> Option<nat> {
        match *self {
            Pattern::Run(class) => Some(run_len(input, class)),
            Pattern::AnyNumber => number_len(input),
            Pattern::Literal(pattern) => literal_len(pattern@, input),
            Pattern::LiteralSubstring(pattern) => substring_len(pattern@, input),
            Pattern::Char(c) => char_len(c, input),
            Pattern::CharAny(set) => char_any_len(set@, input),
        }
    }

    fn consume<'a>(&self, bite: Bite<'a>) -> (r: Option<(&'a str, Bite<'a>)>) {
        let x = bite.as_str();
        let found = match *self {
            Pattern::Run(class) => match class {
                CharClass::Whitespace => is_whitespace(x),
                CharClass::Alphabetic => is_alphabetic(x),
                CharClass::Alphanumeric => is_alphanumeric(x),
                CharClass::Word => is_alphanumeric_extended(x),
                CharClass::Numeric => is_numeric(x),
            },
            Pattern::AnyNumber => any_number(x),
            Pattern::Literal(pattern) => literal(pattern, x),
            Pattern::LiteralSubstring(pattern) => literal_substring(pattern, x),
            Pattern::Char(c) => char_is(c, x),
            Pattern::CharAny(set) => char_any(set, x),
        };
        match found {
            Some(n) => Some(bite.split(n, Ghost(advance(self.match_len(bite@))))),
            None => None,
        }
    }
}

} // verus!
