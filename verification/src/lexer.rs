//! Turns source text into tokens.

use vstd::prelude::*;
use vstd::string::StringExecFns;
use vstd::string::StrSliceExecFns;
use crate::number::Numeral;
use crate::number::is_numeral;
use crate::number::numeral_error;
use crate::parser::Bite;
use crate::parser::Chomp;
use crate::parser::advance;
use crate::parser::matchers::CharClass;
use crate::parser::matchers::MINUS_SIGN;
use crate::parser::matchers::char_any_len;
use crate::parser::matchers::char_len;
use crate::parser::matchers::literal_len;
use crate::parser::matchers::number_len;
use crate::parser::matchers::run_len;
use crate::parser::matchers::substring_len;
use crate::parser::matchers::lemma_run_bound;
use crate::parser::matchers::lemma_number_run_bound;

pub mod spelling;

verus! {

/// A token of the expression language.
#[derive(Debug, PartialEq)]
pub enum Token {
    LiteralNum(Numeral),
    Plus,
    Sub,
    Mul,
    Div,
    Sine,
    Cosine,
    Log,
    Round,
    Floor,
    OpenParen,
    CloseParen,
    OpenCurly,
    CloseCurly,
    Pow,
    Mod,
    Rand,
    Identifier(String),
    Let,
    If,
    Else,
    /// The arrow between the parameters of a closure and its body.
    LeftArrow,
    LessThan,
    LessThanEquals,
    GreaterThan,
    GreaterThanEquals,
    /// The `=` of a binding.
    Equals,
    Pi,
    E,
    Sqrt,
    Comma,
    Semicolon,
    /// The comparison `==`.
    Eq,
    NotEq,
}

/// The mathematical value of a token.
pub ghost enum Tok {
    LiteralNum(Seq<char>),
    Plus,
    Sub,
    Mul,
    Div,
    Sine,
    Cosine,
    Log,
    Round,
    Floor,
    OpenParen,
    CloseParen,
    OpenCurly,
    CloseCurly,
    Pow,
    Mod,
    Rand,
    Identifier(Seq<char>),
    Let,
    If,
    Else,
    LeftArrow,
    LessThan,
    LessThanEquals,
    GreaterThan,
    GreaterThanEquals,
    Equals,
    Pi,
    E,
    Sqrt,
    Comma,
    Semicolon,
    Eq,
    NotEq,
}

impl View for Token {
    type V = Tok;

    open spec fn view(&self) -> Tok {
        match *self {
            Token::LiteralNum(x) => Tok::LiteralNum(x@),
            Token::Plus => Tok::Plus,
            Token::Sub => Tok::Sub,
            Token::Mul => Tok::Mul,
            Token::Div => Tok::Div,
            Token::Sine => Tok::Sine,
            Token::Cosine => Tok::Cosine,
            Token::Log => Tok::Log,
            Token::Round => Tok::Round,
            Token::Floor => Tok::Floor,
            Token::OpenParen => Tok::OpenParen,
            Token::CloseParen => Tok::CloseParen,
            Token::OpenCurly => Tok::OpenCurly,
            Token::CloseCurly => Tok::CloseCurly,
            Token::Pow => Tok::Pow,
            Token::Mod => Tok::Mod,
            Token::Rand => Tok::Rand,
            Token::Identifier(name) => Tok::Identifier(name@),
            Token::Let => Tok::Let,
            Token::If => Tok::If,
            Token::Else => Tok::Else,
            Token::LeftArrow => Tok::LeftArrow,
            Token::LessThan => Tok::LessThan,
            Token::LessThanEquals => Tok::LessThanEquals,
            Token::GreaterThan => Tok::GreaterThan,
            Token::GreaterThanEquals => Tok::GreaterThanEquals,
            Token::Equals => Tok::Equals,
            Token::Pi => Tok::Pi,
            Token::E => Tok::E,
            Token::Sqrt => Tok::Sqrt,
            Token::Comma => Tok::Comma,
            Token::Semicolon => Tok::Semicolon,
            Token::Eq => Tok::Eq,
            Token::NotEq => Tok::NotEq,
        }
    }
}

impl Clone for Token {
    fn clone(&self) -> (r: Token)
        ensures
            r@ == self@,
    {
        match self {
            Token::LiteralNum(x) => Token::LiteralNum(x.clone()),
            Token::Plus => Token::Plus,
            Token::Sub => Token::Sub,
            Token::Mul => Token::Mul,
            Token::Div => Token::Div,
            Token::Sine => Token::Sine,
            Token::Cosine => Token::Cosine,
            Token::Log => Token::Log,
            Token::Round => Token::Round,
            Token::Floor => Token::Floor,
            Token::OpenParen => Token::OpenParen,
            Token::CloseParen => Token::CloseParen,
            Token::OpenCurly => Token::OpenCurly,
            Token::CloseCurly => Token::CloseCurly,
            Token::Pow => Token::Pow,
            Token::Mod => Token::Mod,
            Token::Rand => Token::Rand,
            Token::Identifier(name) => Token::Identifier(name.clone()),
            Token::Let => Token::Let,
            Token::If => Token::If,
            Token::Else => Token::Else,
            Token::LeftArrow => Token::LeftArrow,
            Token::LessThan => Token::LessThan,
            Token::LessThanEquals => Token::LessThanEquals,
            Token::GreaterThan => Token::GreaterThan,
            Token::GreaterThanEquals => Token::GreaterThanEquals,
            Token::Equals => Token::Equals,
            Token::Pi => Token::Pi,
            Token::E => Token::E,
            Token::Sqrt => Token::Sqrt,
            Token::Comma => Token::Comma,
            Token::Semicolon => Token::Semicolon,
            Token::Eq => Token::Eq,
            Token::NotEq => Token::NotEq,
        }
    }
}

impl Token {
    /// Whether two tokens are the same, names and numerals compared by their text.
    pub fn same(&self, other: &Token) -> (r: bool)
        ensures
            r == (self@ == other@),
    {
        match self {
            Token::LiteralNum(x) => match other {
                Token::LiteralNum(y) => x.same(y),
                _ => false,
            },
            Token::Identifier(x) => match other {
                Token::Identifier(y) => *x == *y,
                _ => false,
            },
            _ => match other {
                Token::LiteralNum(_) => false,
                Token::Identifier(_) => false,
                _ => self.kind() == other.kind(),
            },
        }
    }

    /// A number that tells the kinds of token apart.
    fn kind(&self) -> (r: u8)
        ensures
            r == kind_of(self@),
    {
        match self {
            Token::LiteralNum(_) => 0,
            Token::Plus => 1,
            Token::Sub => 2,
            Token::Mul => 3,
            Token::Div => 4,
            Token::Sine => 5,
            Token::Cosine => 6,
            Token::Log => 7,
            Token::Round => 8,
            Token::Floor => 9,
            Token::OpenParen => 10,
            Token::CloseParen => 11,
            Token::OpenCurly => 12,
            Token::CloseCurly => 13,
            Token::Pow => 14,
            Token::Mod => 15,
            Token::Rand => 16,
            Token::Identifier(_) => 17,
            Token::Let => 18,
            Token::If => 19,
            Token::Else => 20,
            Token::LeftArrow => 21,
            Token::LessThan => 22,
            Token::LessThanEquals => 23,
            Token::GreaterThan => 24,
            Token::GreaterThanEquals => 25,
            Token::Equals => 26,
            Token::Pi => 27,
            Token::E => 28,
            Token::Sqrt => 29,
            Token::Comma => 30,
            Token::Semicolon => 31,
            Token::Eq => 32,
            Token::NotEq => 33,
        }
    }
}

/// A number for each kind of token.
pub open spec fn kind_of(tok: Tok) -> int {
    match tok {
        Tok::LiteralNum(_) => 0,
        Tok::Plus => 1,
        Tok::Sub => 2,
        Tok::Mul => 3,
        Tok::Div => 4,
        Tok::Sine => 5,
        Tok::Cosine => 6,
        Tok::Log => 7,
        Tok::Round => 8,
        Tok::Floor => 9,
        Tok::OpenParen => 10,
        Tok::CloseParen => 11,
        Tok::OpenCurly => 12,
        Tok::CloseCurly => 13,
        Tok::Pow => 14,
        Tok::Mod => 15,
        Tok::Rand => 16,
        Tok::Identifier(_) => 17,
        Tok::Let => 18,
        Tok::If => 19,
        Tok::Else => 20,
        Tok::LeftArrow => 21,
        Tok::LessThan => 22,
        Tok::LessThanEquals => 23,
        Tok::GreaterThan => 24,
        Tok::GreaterThanEquals => 25,
        Tok::Equals => 26,
        Tok::Pi => 27,
        Tok::E => 28,
        Tok::Sqrt => 29,
        Tok::Comma => 30,
        Tok::Semicolon => 31,
        Tok::Eq => 32,
        Tok::NotEq => 33,
    }
}

/// How a token is written in a message.
pub open spec fn token_text(tok: Tok) -> Seq<char> {
    match tok {
        Tok::LiteralNum(x) => "LiteralNum("@ + x + ")"@,
        Tok::Plus => "Plus"@,
        Tok::Sub => "Sub"@,
        Tok::Mul => "Mul"@,
        Tok::Div => "Div"@,
        Tok::Sine => "Sine"@,
        Tok::Cosine => "Cosine"@,
        Tok::Log => "Log"@,
        Tok::Round => "Round"@,
        Tok::Floor => "Floor"@,
        Tok::OpenParen => "OpenParen"@,
        Tok::CloseParen => "CloseParen"@,
        Tok::OpenCurly => "OpenCurly"@,
        Tok::CloseCurly => "CloseCurly"@,
        Tok::Pow => "Pow"@,
        Tok::Mod => "Mod"@,
        Tok::Rand => "Rand"@,
        Tok::Identifier(name) => "Identifier(\""@ + name + "\")"@,
        Tok::Let => "Let"@,
        Tok::If => "If"@,
        Tok::Else => "Else"@,
        Tok::LeftArrow => "LeftArrow"@,
        Tok::LessThan => "LessThan"@,
        Tok::LessThanEquals => "LessThanEquals"@,
        Tok::GreaterThan => "GreaterThan"@,
        Tok::GreaterThanEquals => "GreaterThanEquals"@,
        Tok::Equals => "Equals"@,
        Tok::Pi => "Pi"@,
        Tok::E => "E"@,
        Tok::Sqrt => "Sqrt"@,
        Tok::Comma => "Comma"@,
        Tok::Semicolon => "Semicolon"@,
        Tok::Eq => "Eq"@,
        Tok::NotEq => "NotEq"@,
    }
}

/// The tokens as they are written in a message, separated by a comma and a space.
pub open spec fn tokens_joined(tokens: Seq<Tok>) -> Seq<char>
    decreases tokens.len(),
{
    if tokens.len() == 0 {
        Seq::empty()
    } else if tokens.len() == 1 {
        token_text(tokens[0])
    } else {
        tokens_joined(tokens.drop_last()) + ", "@ + token_text(tokens.last())
    }
}

/// A token sequence as it is written in a message: in square brackets.
pub open spec fn tokens_text(tokens: Seq<Tok>) -> Seq<char> {
    "["@ + tokens_joined(tokens) + "]"@
}

impl Token {
    /// Appends the token as it is written in a message.
    pub fn describe(&self, output: &mut String)
        ensures
            final(output)@ == old(output)@ + token_text(self@),
    {
        match self {
            Token::LiteralNum(x) => {
                output.append("LiteralNum(");
                output.append(x.as_str());
                output.append(")");
                assert(output@ =~= old(output)@ + token_text(self@));
            },
            Token::Plus => output.append("Plus"),
            Token::Sub => output.append("Sub"),
            Token::Mul => output.append("Mul"),
            Token::Div => output.append("Div"),
            Token::Sine => output.append("Sine"),
            Token::Cosine => output.append("Cosine"),
            Token::Log => output.append("Log"),
            Token::Round => output.append("Round"),
            Token::Floor => output.append("Floor"),
            Token::OpenParen => output.append("OpenParen"),
            Token::CloseParen => output.append("CloseParen"),
            Token::OpenCurly => output.append("OpenCurly"),
            Token::CloseCurly => output.append("CloseCurly"),
            Token::Pow => output.append("Pow"),
            Token::Mod => output.append("Mod"),
            Token::Rand => output.append("Rand"),
            Token::Identifier(name) => {
                output.append("Identifier(\"");
                output.append(name.as_str());
                output.append("\")");
                assert(output@ =~= old(output)@ + token_text(self@));
            },
            Token::Let => output.append("Let"),
            Token::If => output.append("If"),
            Token::Else => output.append("Else"),
            Token::LeftArrow => output.append("LeftArrow"),
            Token::LessThan => output.append("LessThan"),
            Token::LessThanEquals => output.append("LessThanEquals"),
            Token::GreaterThan => output.append("GreaterThan"),
            Token::GreaterThanEquals => output.append("GreaterThanEquals"),
            Token::Equals => output.append("Equals"),
            Token::Pi => output.append("Pi"),
            Token::E => output.append("E"),
            Token::Sqrt => output.append("Sqrt"),
            Token::Comma => output.append("Comma"),
            Token::Semicolon => output.append("Semicolon"),
            Token::Eq => output.append("Eq"),
            Token::NotEq => output.append("NotEq"),
        }
    }
}

/// Appends the tokens from index `from` on as they are written in a message.
pub fn describe_tokens(tokens: &[Token], from: usize, output: &mut String)
    requires
        from <= tokens@.len(),
    ensures
        final(output)@ == old(output)@ + tokens_text(tokens_view(tokens@).skip(from as int)),
{
    let ghost rest = tokens_view(tokens@).skip(from as int);
    let ghost base = output@;
    output.append("[");
    let mut i: usize = from;
    assert(rest.take(0) =~= Seq::<Tok>::empty());
    assert(output@ =~= base + "["@ + tokens_joined(rest.take(0)));
    while i < tokens.len()
        invariant
            from <= i <= tokens.len(),
            rest == tokens_view(tokens@).skip(from as int),
            output@ == base + "["@ + tokens_joined(rest.take(i - from)),
        decreases tokens.len() - i,
    {
        if i > from {
            output.append(", ");
        }
        tokens[i].describe(output);
        proof {
            let next = rest.take(i - from + 1);
            assert(next.drop_last() =~= rest.take(i - from));
            assert(next.last() == tokens@[i as int]@);
            assert(output@ =~= base + "["@ + tokens_joined(next));
        }
        i += 1;
    }
    assert(rest.take(i - from) =~= rest);
    output.append("]");
    assert(output@ =~= base + tokens_text(rest));
}

/// The first of two alternatives that applies.
pub open spec fn either(a: Option<nat>, b: Option<nat>) -> Option<nat> {
    match a {
        Some(n) => Some(n),
        None => b,
    }
}

/// One scanning rule: where the match takes something the token is `tok`, else the
/// rules that follow decide.
pub open spec fn rule(m: Option<nat>, tok: Tok, otherwise: Option<(Tok, nat)>) -> Option<
    (Tok, nat),
> {
    if advance(m) > 0 {
        Some((tok, advance(m)))
    } else {
        otherwise
    }
}

/// The italic pi U+1D70B.
pub const ITALIC_PI: char = '\u{1D70B}';

/// The arrows U+21D2 and U+27AA, read like `=>`.
pub open spec fn arrows() -> Seq<char> {
    seq!['\u{21D2}', '\u{27AA}']
}

/// `-` and the minus sign U+2212.
pub open spec fn minus_signs() -> Seq<char> {
    seq!['-', MINUS_SIGN]
}

/// `*` and the multiplication sign U+00D7.
pub open spec fn times_signs() -> Seq<char> {
    seq!['*', '\u{00D7}']
}

/// `/` and the division sign U+00F7.
pub open spec fn division_signs() -> Seq<char> {
    seq!['/', '\u{00F7}']
}

/// The bold italic letters a, b, x and y (U+1D482, U+1D483, U+1D499, U+1D49A), which are
/// names whether or not the character tables count them as letters.
pub open spec fn letter_names() -> Seq<char> {
    seq!['\u{1D482}', '\u{1D483}', '\u{1D499}', '\u{1D49A}']
}

/// The keyword at the start of `s`, with its length. Keywords come before names, so `sin`
/// is never a name, while `sinus` is one.
pub open spec fn keyword_token(s: Seq<char>) -> Option<(Tok, nat)> {
    rule(
        literal_len("sin"@, s),
        Tok::Sine,
        rule(
            literal_len("log"@, s),
            Tok::Log,
            rule(
                literal_len("cos"@, s),
                Tok::Cosine,
                rule(
                    literal_len("rand"@, s),
                    Tok::Rand,
                    rule(
                        literal_len("round"@, s),
                        Tok::Round,
                        rule(
                            literal_len("floor"@, s),
                            Tok::Floor,
                            rule(
                                literal_len("let"@, s),
                                Tok::Let,
                                rule(
                                    literal_len("if"@, s),
                                    Tok::If,
                                    rule(
                                        literal_len("else"@, s),
                                        Tok::Else,
                                        rule(
                                            either(literal_len("pi"@, s), char_len(ITALIC_PI, s)),
                                            Tok::Pi,
                                            rule(
                                                literal_len("E"@, s),
                                                Tok::E,
                                                rule(literal_len("sqrt"@, s), Tok::Sqrt, None),
                                            ),
                                        ),
                                    ),
                                ),
                            ),
                        ),
                    ),
                ),
            ),
        ),
    )
}

/// The bracket, separator or operator at the start of `s`, with its length. The longer of
/// two symbols with a common start is tried first.
pub open spec fn symbol_token(s: Seq<char>) -> Option<(Tok, nat)> {
    rule(
        char_len('(', s),
        Tok::OpenParen,
        rule(
            char_len(')', s),
            Tok::CloseParen,
            rule(
                char_len('{', s),
                Tok::OpenCurly,
                rule(
                    char_len('}', s),
                    Tok::CloseCurly,
                    rule(
                        either(substring_len("=>"@, s), char_any_len(arrows(), s)),
                        Tok::LeftArrow,
                        rule(
                            char_len(',', s),
                            Tok::Comma,
                            rule(char_len(';', s), Tok::Semicolon, comparison_token(s)),
                        ),
                    ),
                ),
            ),
        ),
    )
}

/// The comparison or arithmetic operator at the start of `s`, with its length.
pub open spec fn comparison_token(s: Seq<char>) -> Option<(Tok, nat)> {
    rule(
        substring_len("=="@, s),
        Tok::Eq,
        rule(
            substring_len("!="@, s),
            Tok::NotEq,
            rule(
                char_len('=', s),
                Tok::Equals,
                rule(
                    either(substring_len("<="@, s), char_len('\u{2264}', s)),
                    Tok::LessThanEquals,
                    rule(
                        char_len('<', s),
                        Tok::LessThan,
                        rule(
                            either(substring_len(">="@, s), char_len('\u{2265}', s)),
                            Tok::GreaterThanEquals,
                            rule(char_len('>', s), Tok::GreaterThan, arithmetic_token(s)),
                        ),
                    ),
                ),
            ),
        ),
    )
}

/// The arithmetic operator at the start of `s`, with its length.
pub open spec fn arithmetic_token(s: Seq<char>) -> Option<(Tok, nat)> {
    rule(
        char_len('+', s),
        Tok::Plus,
        rule(
            char_any_len(minus_signs(), s),
            Tok::Sub,
            rule(
                char_any_len(times_signs(), s),
                Tok::Mul,
                rule(
                    char_any_len(division_signs(), s),
                    Tok::Div,
                    rule(
                        char_len('^', s),
                        Tok::Pow,
                        rule(either(char_len('%', s), literal_len("mod"@, s)), Tok::Mod, None),
                    ),
                ),
            ),
        ),
    )
}

/// The name at the start of `s`, with its length: a run of letters, digits and underscores,
/// or, where there is no such run, one of the bold italic letters.
pub open spec fn name_token(s: Seq<char>) -> Option<(Tok, nat)> {
    let k = run_len(s, CharClass::Word);
    if k > 0 {
        Some((Tok::Identifier(s.take(k as int)), k))
    } else if advance(char_any_len(letter_names(), s)) > 0 {
        Some((Tok::Identifier(s.take(1)), 1))
    } else {
        None
    }
}

/// The text with each minus sign U+2212 replaced by `-`.
pub open spec fn ascii_minus(s: Seq<char>) -> Seq<char> {
    Seq::new(
        s.len(),
        |i: int|
            if s[i] == MINUS_SIGN {
                '-'
            } else {
                s[i]
            },
    )
}

/// The message for text that starts no token.
pub open spec fn unknown_error(s: Seq<char>) -> Seq<char> {
    "Could not parse: "@ + s
}

/// The token at the start of `s`, or the error, with the number of characters taken.
///
/// `after_literal` says that the token before was a numeral: then what follows is never
/// read as a numeral, so that `0.3 -0.2` is a subtraction.
pub open spec fn next_token(s: Seq<char>, after_literal: bool) -> (Result<Tok, Seq<char>>, nat) {
    match keyword_token(s) {
        Some((tok, n)) => (Ok(tok), n),
        None => {
            if advance(number_len(s)) > 0 && !after_literal {
                let n = advance(number_len(s));
                let text = ascii_minus(s.take(n as int));
                if is_numeral(text) {
                    (Ok(Tok::LiteralNum(text)), n)
                } else {
                    (Err(numeral_error(text)), n)
                }
            } else {
                match symbol_token(s) {
                    Some((tok, n)) => (Ok(tok), n),
                    None => match name_token(s) {
                        Some((tok, n)) => (Ok(tok), n),
                        None => (Err(unknown_error(s)), 0),
                    },
                }
            }
        },
    }
}

/// A token is never empty and never longer than the text.
pub proof fn lemma_token_bounds(s: Seq<char>, after_literal: bool)
    ensures
        next_token(s, after_literal).1 <= s.len(),
        next_token(s, after_literal).0 is Ok ==> next_token(s, after_literal).1 > 0,
{
    lemma_run_bound(s, CharClass::Word);
    lemma_number_run_bound(s, true, false);
}

/// The value of what scanning yields: a token or a message.
pub open spec fn item_view(item: Result<Token, String>) -> Result<Tok, Seq<char>> {
    match item {
        Ok(token) => Ok(token@),
        Err(msg) => Err(msg@),
    }
}

/// The values of a list of scanned items.
pub open spec fn items_view(items: Seq<Result<Token, String>>) -> Seq<Result<Tok, Seq<char>>> {
    Seq::new(items.len(), |i: int| item_view(items[i]))
}

/// The values of a list of tokens.
pub open spec fn tokens_view(tokens: Seq<Token>) -> Seq<Tok> {
    Seq::new(tokens.len(), |i: int| tokens[i]@)
}

/// The closing brackets that are still owed after `tok`: an opening bracket adds its
/// closer, and the closer that is owed next takes itself off.
pub open spec fn track(open: Seq<Tok>, tok: Tok) -> Seq<Tok> {
    if tok == Tok::OpenParen {
        open.push(Tok::CloseParen)
    } else if tok == Tok::OpenCurly {
        open.push(Tok::CloseCurly)
    } else if open.len() > 0 && open.last() == tok {
        open.drop_last()
    } else {
        open
    }
}

/// The owed closers, the one owed next first.
pub open spec fn closers(open: Seq<Tok>) -> Seq<Result<Tok, Seq<char>>> {
    Seq::new(open.len(), |i: int| Ok(open[open.len() - 1 - i]))
}

/// The tokens of `s`.
///
/// White space before a token is skipped. The first error ends the sequence. At the end of
/// the text the closing brackets that are still owed are supplied.
pub open spec fn scan(s: Seq<char>, after_literal: bool, open: Seq<Tok>) -> Seq<
    Result<Tok, Seq<char>>,
>
    decreases s.len(),
{
    let t = s.skip(run_len(s, CharClass::Whitespace) as int);
    if t.len() == 0 {
        closers(open)
    } else {
        let (item, n) = next_token(t, after_literal);
        match item {
            Err(msg) => seq![Err(msg)],
            Ok(tok) => {
                proof {
                    lemma_run_bound(s, CharClass::Whitespace);
                    lemma_token_bounds(t, after_literal);
                }
                seq![Ok(tok)] + scan(t.skip(n as int), tok is LiteralNum, track(open, tok))
            },
        }
    }
}

/// What one group of rules leaves: the token and the cursor behind it, or nothing and the
/// cursor where it was.
pub open spec fn scanned(
    found: Option<(Tok, nat)>,
    before: Seq<char>,
    after: Seq<char>,
    r: Option<Token>,
) -> bool {
    match found {
        Some((tok, n)) => 0 < n <= before.len() && after == before.skip(n as int) && r is Some
            && r.unwrap()@ == tok,
        None => after == before && r is None,
    }
}

fn keyword<'a>(bite: &mut Bite<'a>) -> (r: Option<Token>)
    ensures
        scanned(keyword_token(old(bite)@), old(bite)@, final(bite)@, r),
{
    if bite.nibble(Chomp::literal("sin")).is_some() {
        Some(Token::Sine)
    } else if bite.nibble(Chomp::literal("log")).is_some() {
        Some(Token::Log)
    } else if bite.nibble(Chomp::literal("cos")).is_some() {
        Some(Token::Cosine)
    } else if bite.nibble(Chomp::literal("rand")).is_some() {
        Some(Token::Rand)
    } else if bite.nibble(Chomp::literal("round")).is_some() {
        Some(Token::Round)
    } else if bite.nibble(Chomp::literal("floor")).is_some() {
        Some(Token::Floor)
    } else if bite.nibble(Chomp::literal("let")).is_some() {
        Some(Token::Let)
    } else if bite.nibble(Chomp::literal("if")).is_some() {
        Some(Token::If)
    } else if bite.nibble(Chomp::literal("else")).is_some() {
        Some(Token::Else)
    } else if bite.nibble(Chomp::literal("pi").or(Chomp::char(ITALIC_PI))).is_some() {
        Some(Token::Pi)
    } else if bite.nibble(Chomp::literal("E")).is_some() {
        Some(Token::E)
    } else if bite.nibble(Chomp::literal("sqrt")).is_some() {
        Some(Token::Sqrt)
    } else {
        None
    }
}

fn symbol<'a>(bite: &mut Bite<'a>) -> (r: Option<Token>)
    ensures
        scanned(symbol_token(old(bite)@), old(bite)@, final(bite)@, r),
{
    let arrow_set: [char; 2] = ['\u{21D2}', '\u{27AA}'];
    assert(arrow_set@ =~= arrows());
    if bite.nibble(Chomp::char('(')).is_some() {
        Some(Token::OpenParen)
    } else if bite.nibble(Chomp::char(')')).is_some() {
        Some(Token::CloseParen)
    } else if bite.nibble(Chomp::char('{')).is_some() {
        Some(Token::OpenCurly)
    } else if bite.nibble(Chomp::char('}')).is_some() {
        Some(Token::CloseCurly)
    } else if bite.nibble(
        Chomp::literal_substring("=>").or(Chomp::char_any(arrow_set.as_slice())),
    ).is_some() {
        Some(Token::LeftArrow)
    } else if bite.nibble(Chomp::char(',')).is_some() {
        Some(Token::Comma)
    } else if bite.nibble(Chomp::char(';')).is_some() {
        Some(Token::Semicolon)
    } else {
        comparison(bite)
    }
}

fn comparison<'a>(bite: &mut Bite<'a>) -> (r: Option<Token>)
    ensures
        scanned(comparison_token(old(bite)@), old(bite)@, final(bite)@, r),
{
    if bite.nibble(Chomp::literal_substring("==")).is_some() {
        Some(Token::Eq)
    } else if bite.nibble(Chomp::literal_substring("!=")).is_some() {
        Some(Token::NotEq)
    } else if bite.nibble(Chomp::char('=')).is_some() {
        Some(Token::Equals)
    } else if bite.nibble(Chomp::literal_substring("<=").or(Chomp::char('\u{2264}'))).is_some() {
        Some(Token::LessThanEquals)
    } else if bite.nibble(Chomp::char('<')).is_some() {
        Some(Token::LessThan)
    } else if bite.nibble(Chomp::literal_substring(">=").or(Chomp::char('\u{2265}'))).is_some() {
        Some(Token::GreaterThanEquals)
    } else if bite.nibble(Chomp::char('>')).is_some() {
        Some(Token::GreaterThan)
    } else {
        arithmetic(bite)
    }
}

fn arithmetic<'a>(bite: &mut Bite<'a>) -> (r: Option<Token>)
    ensures
        scanned(arithmetic_token(old(bite)@), old(bite)@, final(bite)@, r),
{
    let minus_set: [char; 2] = ['-', MINUS_SIGN];
    let times_set: [char; 2] = ['*', '\u{00D7}'];
    let division_set: [char; 2] = ['/', '\u{00F7}'];
    assert(minus_set@ =~= minus_signs());
    assert(times_set@ =~= times_signs());
    assert(division_set@ =~= division_signs());
    if bite.nibble(Chomp::char('+')).is_some() {
        Some(Token::Plus)
    } else if bite.nibble(Chomp::char_any(minus_set.as_slice())).is_some() {
        Some(Token::Sub)
    } else if bite.nibble(Chomp::char_any(times_set.as_slice())).is_some() {
        Some(Token::Mul)
    } else if bite.nibble(Chomp::char_any(division_set.as_slice())).is_some() {
        Some(Token::Div)
    } else if bite.nibble(Chomp::char('^')).is_some() {
        Some(Token::Pow)
    } else if bite.nibble(Chomp::char('%').or(Chomp::literal("mod"))).is_some() {
        Some(Token::Mod)
    } else {
        None
    }
}

fn name<'a>(bite: &mut Bite<'a>) -> (r: Option<Token>)
    ensures
        scanned(name_token(old(bite)@), old(bite)@, final(bite)@, r),
{
    let letter_set: [char; 4] = ['\u{1D482}', '\u{1D483}', '\u{1D499}', '\u{1D49A}'];
    assert(letter_set@ =~= letter_names());
    match bite.nibble(Chomp::alphanumeric_extended()) {
        Some(ident) => Some(Token::Identifier(String::from_str(ident))),
        None => match bite.nibble(Chomp::char_any(letter_set.as_slice())) {
            Some(ident) => Some(Token::Identifier(String::from_str(ident))),
            None => None,
        },
    }
}

/// The text with each minus sign U+2212 replaced by `-`.
fn replace_minus(literal: &str) -> (r: String)
    ensures
        r@ == ascii_minus(literal@),
{
    let total = literal.unicode_len();
    let mut out = String::new();
    let mut i: usize = 0;
    while i < total
        invariant
            total == literal@.len(),
            i <= total,
            out@ == ascii_minus(literal@.take(i as int)),
        decreases total - i,
    {
        let c = literal.get_char(i);
        if c == MINUS_SIGN {
            out.push('-');
        } else {
            out.push(c);
        }
        assert(out@ =~= ascii_minus(literal@.take(i + 1)));
        i += 1;
    }
    assert(literal@.take(i as int) =~= literal@);
    out
}

/// Whether scanning gave what the rules say: the same token or the same message.
pub open spec fn item_is(r: Result<Token, String>, expected: Result<Tok, Seq<char>>) -> bool {
    item_view(r) == expected
}

/// Takes one token from the cursor.
fn tokenize_impl<'a>(bite: &mut Bite<'a>, after_literal: bool) -> (r: Result<Token, String>)
    ensures
        item_is(r, next_token(old(bite)@, after_literal).0),
        final(bite)@ == old(bite)@.skip(next_token(old(bite)@, after_literal).1 as int),
{
    proof {
        lemma_token_bounds(bite@, after_literal);
        assert(bite@.skip(0) =~= bite@);
    }
    match keyword(bite) {
        Some(token) => {
            return Ok(token);
        },
        None => {},
    }
    if bite.can_nibble(Chomp::any_number()) && !after_literal {
        match bite.nibble(Chomp::any_number()) {
            Some(literal) => {
                let replaced_literal = replace_minus(literal);
                return match Numeral::parse(replaced_literal.as_str()) {
                    Ok(x) => Ok(Token::LiteralNum(x)),
                    Err(msg) => Err(msg),
                };
            },
            None => {},
        }
    }
    match symbol(bite) {
        Some(token) => {
            return Ok(token);
        },
        None => {},
    }
    match name(bite) {
        Some(token) => {
            return Ok(token);
        },
        None => {},
    }
    let mut msg = String::from_str("Could not parse: ");
    msg.append(bite.as_str());
    Err(msg)
}

/// Skipping the white space that was skipped already changes nothing.
pub proof fn lemma_scan_skips_blanks(s: Seq<char>, after_literal: bool, open: Seq<Tok>)
    ensures
        run_len(s.skip(run_len(s, CharClass::Whitespace) as int), CharClass::Whitespace) == 0,
        scan(s.skip(run_len(s, CharClass::Whitespace) as int), after_literal, open) == scan(
            s,
            after_literal,
            open,
        ),
{
    lemma_blank_run_ends(s);
    let t = s.skip(run_len(s, CharClass::Whitespace) as int);
    assert(t.skip(0) =~= t);
}

/// Behind a run of white space stands the end of the text or a character that is none.
proof fn lemma_blank_run_ends(s: Seq<char>)
    ensures
        run_len(s, CharClass::Whitespace) <= s.len(),
        run_len(s.skip(run_len(s, CharClass::Whitespace) as int), CharClass::Whitespace) == 0,
    decreases s.len(),
{
    lemma_run_bound(s, CharClass::Whitespace);
    if s.len() > 0 && crate::parser::matchers::in_class(s[0], CharClass::Whitespace) {
        let k = run_len(s.skip(1), CharClass::Whitespace);
        lemma_blank_run_ends(s.skip(1));
        assert(s.skip(1).skip(k as int) =~= s.skip(k as int + 1));
    } else {
        assert(s.skip(0) =~= s);
    }
}

/// One step of scanning where no white space stands first: the next token, and the scan
/// of what follows it.
pub proof fn lemma_scan_step(s: Seq<char>, after_literal: bool, open: Seq<Tok>)
    requires
        run_len(s, CharClass::Whitespace) == 0,
        s.len() > 0,
    ensures
        scan(s, after_literal, open) == match next_token(s, after_literal).0 {
            Err(msg) => seq![Err::<Tok, Seq<char>>(msg)],
            Ok(tok) => seq![Ok::<Tok, Seq<char>>(tok)] + scan(
                s.skip(next_token(s, after_literal).1 as int),
                tok is LiteralNum,
                track(open, tok),
            ),
        },
{
    assert(s.skip(0) =~= s);
}

/// At the end of the text the owed closers are supplied.
pub proof fn lemma_scan_end(s: Seq<char>, after_literal: bool, open: Seq<Tok>)
    requires
        s.len() == 0,
    ensures
        scan(s, after_literal, open) == closers(open),
{
    assert(s.skip(0) =~= s);
}

/// Whether a token is a closing bracket.
pub open spec fn is_closer(tok: Tok) -> bool {
    tok == Tok::CloseParen || tok == Tok::CloseCurly
}

fn same_closer(top: &Token, token: &Token) -> (r: bool)
    requires
        is_closer(top@),
    ensures
        r == (top@ == token@),
{
    match top {
        Token::CloseParen => match token {
            Token::CloseParen => true,
            _ => false,
        },
        _ => match token {
            Token::CloseCurly => true,
            _ => false,
        },
    }
}

/// Records in the list of owed closers what `token` opens or closes.
fn track_closers(closure_stack: &mut Vec<Token>, token: &Token)
    requires
        forall|i: int| 0 <= i < old(closure_stack)@.len() ==> is_closer(old(closure_stack)@[i]@),
    ensures
        tokens_view(final(closure_stack)@) == track(tokens_view(old(closure_stack)@), token@),
        forall|i: int| 0 <= i < final(closure_stack)@.len() ==> is_closer(final(closure_stack)@[i]@),
{
    let ghost before = tokens_view(closure_stack@);
    match token {
        Token::OpenParen => {
            closure_stack.push(Token::CloseParen);
            assert(tokens_view(closure_stack@) =~= before.push(Tok::CloseParen));
        },
        Token::OpenCurly => {
            closure_stack.push(Token::CloseCurly);
            assert(tokens_view(closure_stack@) =~= before.push(Tok::CloseCurly));
        },
        _ => {
            let n = closure_stack.len();
            if n > 0 && same_closer(&closure_stack[n - 1], token) {
                closure_stack.pop();
                assert(tokens_view(closure_stack@) =~= before.drop_last());
            }
        },
    }
}

fn is_literal(token: &Token) -> (r: bool)
    ensures
        r == (token@ is LiteralNum),
{
    match token {
        Token::LiteralNum(_) => true,
        _ => false,
    }
}

/// The tokens of the text under the cursor, up to the first error, with the closing
/// brackets that the text still owes at its end.
pub fn tokenize<'a>(source: Bite<'a>) -> (r: Vec<Result<Token, String>>)
    ensures
        items_view(r@) == scan(source@, false, Seq::empty()),
{
    let mut out: Vec<Result<Token, String>> = Vec::new();
    let mut closure_stack: Vec<Token> = Vec::new();
    let mut after_literal = false;
    proof {
        lemma_scan_skips_blanks(source@, false, Seq::empty());
        assert(tokens_view(closure_stack@) =~= Seq::<Tok>::empty());
    }
    let mut bite = source.chomp(Chomp::whitespace());
    assert(items_view(out@) + scan(bite@, after_literal, tokens_view(closure_stack@)) =~= scan(
        source@,
        false,
        Seq::empty(),
    ));
    while !bite.is_empty()
        invariant
            run_len(bite@, CharClass::Whitespace) == 0,
            forall|i: int| 0 <= i < closure_stack@.len() ==> is_closer(closure_stack@[i]@),
            items_view(out@) + scan(bite@, after_literal, tokens_view(closure_stack@)) == scan(
                source@,
                false,
                Seq::empty(),
            ),
        decreases bite@.len(),
    {
        let ghost before = bite@;
        let ghost open = tokens_view(closure_stack@);
        let ghost done = items_view(out@);
        proof {
            lemma_token_bounds(before, after_literal);
            lemma_scan_step(before, after_literal, open);
        }
        match tokenize_impl(&mut bite, after_literal) {
            Ok(token) => {
                track_closers(&mut closure_stack, &token);
                after_literal = is_literal(&token);
                proof {
                    lemma_scan_skips_blanks(bite@, after_literal, tokens_view(closure_stack@));
                }
                out.push(Ok(token));
                bite = bite.chomp(Chomp::whitespace());
                assert(items_view(out@) =~= done + seq![Ok::<Tok, Seq<char>>(token@)]);
                assert(items_view(out@) + scan(
                    bite@,
                    after_literal,
                    tokens_view(closure_stack@),
                ) =~= scan(source@, false, Seq::empty()));
            },
            Err(msg) => {
                out.push(Err(msg));
                assert(items_view(out@) =~= done + seq![Err::<Tok, Seq<char>>(msg@)]);
                return out;
            },
        }
    }
    let ghost open = tokens_view(closure_stack@);
    let ghost done = items_view(out@);
    proof {
        lemma_scan_end(bite@, after_literal, open);
    }
    let mut i: usize = closure_stack.len();
    while i > 0
        invariant
            i <= closure_stack.len(),
            open == tokens_view(closure_stack@),
            items_view(out@) == done + closers(open).take(closure_stack.len() - i),
        decreases i,
    {
        i -= 1;
        let ghost filled = items_view(out@);
        out.push(Ok(closure_stack[i].clone()));
        assert(items_view(out@) =~= filled.push(Ok::<Tok, Seq<char>>(closure_stack@[i as int]@)));
        assert(items_view(out@) =~= done + closers(open).take(closure_stack.len() - i));
    }
    assert(closers(open).take(closure_stack.len() as int) =~= closers(open));
    out
}

} // verus!
