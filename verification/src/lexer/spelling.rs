//! Scanning back what was spelled: the text that spells a token sequence, and the proof
//! that scanning gives the tokens back.
//!
//! The proof needs a few facts about the character tables of the standard library, which
//! this library names and does not spell out. They are gathered in `ascii_classes`.

use vstd::prelude::*;
use crate::lexer::Tok;
use crate::lexer::ITALIC_PI;
use crate::lexer::arithmetic_token;
use crate::lexer::ascii_minus;
use crate::lexer::closers;
use crate::lexer::lemma_scan_skips_blanks;
use crate::lexer::lemma_token_bounds;
use crate::lexer::comparison_token;
use crate::lexer::keyword_token;
use crate::lexer::lemma_scan_end;
use crate::lexer::lemma_scan_step;
use crate::lexer::next_token;
use crate::lexer::scan;
use crate::lexer::symbol_token;
use crate::lexer::track;
use crate::lexer::unknown_error;
use crate::number::is_numeral;
use crate::parser::advance;
use crate::parser::matchers::CharClass;
use crate::parser::matchers::MINUS_SIGN;
use crate::parser::matchers::in_class;
use crate::parser::matchers::lemma_run_len;
use crate::parser::matchers::literal_len;
use crate::parser::matchers::number_len;
use crate::parser::matchers::has_digit;
use crate::parser::matchers::is_numeral_part;
use crate::parser::matchers::number_run;
use crate::parser::matchers::run_len;
use crate::parser::matchers::starts_with;
use crate::parser::matchers::substring_len;
use crate::text::is_digit;
use crate::text::unicode_alphabetic;
use crate::text::unicode_numeric;
use crate::text::unicode_whitespace;

verus! {

/// A punctuation character of the language.
pub open spec fn is_punctuation(c: char) -> bool {
    c == ' ' || c == '(' || c == ')' || c == '{' || c == '}' || c == ',' || c == ';' || c == '='
        || c == '!' || c == '<' || c == '>' || c == '+' || c == '-' || c == '*' || c == '/' || c
        == '^' || c == '%' || c == '.'
}

/// What the proofs of this module take the character tables to say of ASCII: the space is
/// white space, no character from `!` to `~` is, and the punctuation of the language and
/// the line feed are neither alphabetic nor numeric.
pub open spec fn ascii_classes() -> bool {
    &&& unicode_whitespace(' ')
    &&& forall|c: char| '!' <= c <= '~' ==> !#[trigger] unicode_whitespace(c)
    &&& forall|c: char| is_punctuation(c) || c == '\n' ==> !#[trigger] unicode_alphabetic(c)
    &&& forall|c: char| is_punctuation(c) || c == '\n' ==> !#[trigger] unicode_numeric(c)
}

/// Whether a character is neither alphabetic nor numeric for the character tables.
fn is_plain_mark(c: char) -> (r: bool)
    ensures
        r == (!unicode_alphabetic(c) && !unicode_numeric(c)),
{
    !c.is_alphabetic() && !c.is_numeric()
}

/// Asks the character tables whether they are as `ascii_classes` says.
pub fn ascii_tables_agree() -> (r: bool)
    ensures
        r == ascii_classes(),
{
    if !' '.is_whitespace() {
        return false;
    }
    let mut b: u8 = 0x21;
    while b <= 0x7E
        invariant
            0x21 <= b <= 0x7F,
            forall|c: char| 0x21 <= (c as int) < (b as int) ==> !#[trigger] unicode_whitespace(c),
        decreases 0x7F - b,
    {
        let c = b as char;
        assert(c as int == b as int);
        if c.is_whitespace() {
            assert('!' as int == 0x21);
            assert('~' as int == 0x7E);
            assert('!' <= c <= '~');
            return false;
        }
        assert forall|d: char| 0x21 <= (d as int) < b + 1 implies !#[trigger] unicode_whitespace(
            d,
        ) by {
            if d as int == b as int {
                assert(d == c);
            }
        }
        b += 1;
    }
    if !is_plain_mark(' ') {
        assert(is_punctuation(' ') || ' ' == '\n');
        return false;
    }
    if !is_plain_mark('(') {
        assert(is_punctuation('(') || '(' == '\n');
        return false;
    }
    if !is_plain_mark(')') {
        assert(is_punctuation(')') || ')' == '\n');
        return false;
    }
    if !is_plain_mark('{') {
        assert(is_punctuation('{') || '{' == '\n');
        return false;
    }
    if !is_plain_mark('}') {
        assert(is_punctuation('}') || '}' == '\n');
        return false;
    }
    if !is_plain_mark(',') {
        assert(is_punctuation(',') || ',' == '\n');
        return false;
    }
    if !is_plain_mark(';') {
        assert(is_punctuation(';') || ';' == '\n');
        return false;
    }
    if !is_plain_mark('=') {
        assert(is_punctuation('=') || '=' == '\n');
        return false;
    }
    if !is_plain_mark('!') {
        assert(is_punctuation('!') || '!' == '\n');
        return false;
    }
    if !is_plain_mark('<') {
        assert(is_punctuation('<') || '<' == '\n');
        return false;
    }
    if !is_plain_mark('>') {
        assert(is_punctuation('>') || '>' == '\n');
        return false;
    }
    if !is_plain_mark('+') {
        assert(is_punctuation('+') || '+' == '\n');
        return false;
    }
    if !is_plain_mark('-') {
        assert(is_punctuation('-') || '-' == '\n');
        return false;
    }
    if !is_plain_mark('*') {
        assert(is_punctuation('*') || '*' == '\n');
        return false;
    }
    if !is_plain_mark('/') {
        assert(is_punctuation('/') || '/' == '\n');
        return false;
    }
    if !is_plain_mark('^') {
        assert(is_punctuation('^') || '^' == '\n');
        return false;
    }
    if !is_plain_mark('%') {
        assert(is_punctuation('%') || '%' == '\n');
        return false;
    }
    if !is_plain_mark('.') {
        assert(is_punctuation('.') || '.' == '\n');
        return false;
    }
    if !is_plain_mark('\n') {
        assert(is_punctuation('\n') || '\n' == '\n');
        return false;
    }
    assert forall|c: char| '!' <= c <= '~' implies !#[trigger] unicode_whitespace(c) by {
        assert('!' as int == 0x21);
        assert('~' as int == 0x7E);
        assert(0x21 <= (c as int) < 0x7F);
    }
    true
}

/// How a token is spelled in source text.
pub open spec fn spelling(tok: Tok) -> Seq<char> {
    match tok {
        Tok::LiteralNum(x) => x,
        Tok::Plus => "+"@,
        Tok::Sub => "-"@,
        Tok::Mul => "*"@,
        Tok::Div => "/"@,
        Tok::Sine => "sin"@,
        Tok::Cosine => "cos"@,
        Tok::Log => "log"@,
        Tok::Round => "round"@,
        Tok::Floor => "floor"@,
        Tok::OpenParen => "("@,
        Tok::CloseParen => ")"@,
        Tok::OpenCurly => "{"@,
        Tok::CloseCurly => "}"@,
        Tok::Pow => "^"@,
        Tok::Mod => "%"@,
        Tok::Rand => "rand"@,
        Tok::Identifier(name) => name,
        Tok::Let => "let"@,
        Tok::If => "if"@,
        Tok::Else => "else"@,
        Tok::LeftArrow => "=>"@,
        Tok::LessThan => "<"@,
        Tok::LessThanEquals => "<="@,
        Tok::GreaterThan => ">"@,
        Tok::GreaterThanEquals => ">="@,
        Tok::Equals => "="@,
        Tok::Pi => "pi"@,
        Tok::E => "E"@,
        Tok::Sqrt => "sqrt"@,
        Tok::Comma => ","@,
        Tok::Semicolon => ";"@,
        Tok::Eq => "=="@,
        Tok::NotEq => "!="@,
    }
}

/// Makes known what the literals of the scanner and of the spellings hold.
pub proof fn lemma_literals()
    ensures
        "sin"@ == seq!['s', 'i', 'n'],
        "log"@ == seq!['l', 'o', 'g'],
        "cos"@ == seq!['c', 'o', 's'],
        "rand"@ == seq!['r', 'a', 'n', 'd'],
        "round"@ == seq!['r', 'o', 'u', 'n', 'd'],
        "floor"@ == seq!['f', 'l', 'o', 'o', 'r'],
        "let"@ == seq!['l', 'e', 't'],
        "if"@ == seq!['i', 'f'],
        "else"@ == seq!['e', 'l', 's', 'e'],
        "pi"@ == seq!['p', 'i'],
        "E"@ == seq!['E'],
        "sqrt"@ == seq!['s', 'q', 'r', 't'],
        "mod"@ == seq!['m', 'o', 'd'],
        "=>"@ == seq!['=', '>'],
        "=="@ == seq!['=', '='],
        "!="@ == seq!['!', '='],
        "<="@ == seq!['<', '='],
        ">="@ == seq!['>', '='],
        "+"@ == seq!['+'],
        "-"@ == seq!['-'],
        "*"@ == seq!['*'],
        "/"@ == seq!['/'],
        "^"@ == seq!['^'],
        "%"@ == seq!['%'],
        "("@ == seq!['('],
        ")"@ == seq![')'],
        "{"@ == seq!['{'],
        "}"@ == seq!['}'],
        "<"@ == seq!['<'],
        ">"@ == seq!['>'],
        "="@ == seq!['='],
        ","@ == seq![','],
        ";"@ == seq![';'],
{
    reveal_strlit("sin");
    reveal_strlit("log");
    reveal_strlit("cos");
    reveal_strlit("rand");
    reveal_strlit("round");
    reveal_strlit("floor");
    reveal_strlit("let");
    reveal_strlit("if");
    reveal_strlit("else");
    reveal_strlit("pi");
    reveal_strlit("E");
    reveal_strlit("sqrt");
    reveal_strlit("mod");
    reveal_strlit("=>");
    reveal_strlit("==");
    reveal_strlit("!=");
    reveal_strlit("<=");
    reveal_strlit(">=");
    reveal_strlit("+");
    reveal_strlit("-");
    reveal_strlit("*");
    reveal_strlit("/");
    reveal_strlit("^");
    reveal_strlit("%");
    reveal_strlit("(");
    reveal_strlit(")");
    reveal_strlit("{");
    reveal_strlit("}");
    reveal_strlit("<");
    reveal_strlit(">");
    reveal_strlit("=");
    reveal_strlit(",");
    reveal_strlit(";");
    assert("sin"@ =~= seq!['s', 'i', 'n']);
    assert("log"@ =~= seq!['l', 'o', 'g']);
    assert("cos"@ =~= seq!['c', 'o', 's']);
    assert("rand"@ =~= seq!['r', 'a', 'n', 'd']);
    assert("round"@ =~= seq!['r', 'o', 'u', 'n', 'd']);
    assert("floor"@ =~= seq!['f', 'l', 'o', 'o', 'r']);
    assert("let"@ =~= seq!['l', 'e', 't']);
    assert("if"@ =~= seq!['i', 'f']);
    assert("else"@ =~= seq!['e', 'l', 's', 'e']);
    assert("pi"@ =~= seq!['p', 'i']);
    assert("E"@ =~= seq!['E']);
    assert("sqrt"@ =~= seq!['s', 'q', 'r', 't']);
    assert("mod"@ =~= seq!['m', 'o', 'd']);
    assert("=>"@ =~= seq!['=', '>']);
    assert("=="@ =~= seq!['=', '=']);
    assert("!="@ =~= seq!['!', '=']);
    assert("<="@ =~= seq!['<', '=']);
    assert(">="@ =~= seq!['>', '=']);
    assert("+"@ =~= seq!['+']);
    assert("-"@ =~= seq!['-']);
    assert("*"@ =~= seq!['*']);
    assert("/"@ =~= seq!['/']);
    assert("^"@ =~= seq!['^']);
    assert("%"@ =~= seq!['%']);
    assert("("@ =~= seq!['(']);
    assert(")"@ =~= seq![')']);
    assert("{"@ =~= seq!['{']);
    assert("}"@ =~= seq!['}']);
    assert("<"@ =~= seq!['<']);
    assert(">"@ =~= seq!['>']);
    assert("="@ =~= seq!['=']);
    assert(","@ =~= seq![',']);
    assert(";"@ =~= seq![';']);
}

/// A text that does not begin with the first letter of any keyword begins with no keyword.
pub proof fn lemma_no_keyword(s: Seq<char>)
    requires
        s.len() > 0,
        s[0] != 's',
        s[0] != 'l',
        s[0] != 'c',
        s[0] != 'r',
        s[0] != 'f',
        s[0] != 'i',
        s[0] != 'e',
        s[0] != 'p',
        s[0] != 'E',
        s[0] != ITALIC_PI,
    ensures
        keyword_token(s) is None,
{
    lemma_literals();
    let first = |p: Seq<char>| p.len() > 0 && p[0] != s[0];
    assert(first("sin"@));
    assert(first("log"@));
    assert(first("cos"@));
    assert(first("rand"@));
    assert(first("round"@));
    assert(first("floor"@));
    assert(first("let"@));
    assert(first("if"@));
    assert(first("else"@));
    assert(first("pi"@));
    assert(first("E"@));
    assert(first("sqrt"@));
}

/// A character that ends the token before it: a space, a bracket of a call or a group, a
/// separator, or the operator that is written without spaces.
pub open spec fn is_break(c: char) -> bool {
    c == ' ' || c == '(' || c == ')' || c == ',' || c == ';' || c == '^'
}

/// The text ends, or goes on with a character that ends the token before it.
pub open spec fn breaks(f: Seq<char>) -> bool {
    f.len() == 0 || is_break(f[0])
}

/// A keyword or symbol that differs from the text in one of its characters is not taken.
pub proof fn lemma_miss(k: Seq<char>, s: Seq<char>, i: int)
    requires
        0 <= i < k.len(),
        i < s.len() ==> s[i] != k[i],
    ensures
        literal_len(k, s) is None,
        substring_len(k, s) is None,
{
}

/// A keyword is taken where it is followed by the end or by a break.
pub proof fn lemma_keyword_hit(k: Seq<char>, f: Seq<char>)
    requires
        ascii_classes(),
        breaks(f),
    ensures
        literal_len(k, k + f) == Some(k.len()),
        substring_len(k, k + f) == Some(k.len()),
{
    let s = k + f;
    assert forall|i: int| 0 <= i < k.len() implies s[i] == k[i] by {}
    if f.len() > 0 {
        assert(s[k.len() as int] == f[0]);
        assert(is_punctuation(f[0]));
    }
}

/// A symbol is taken whatever follows it.
pub proof fn lemma_symbol_hit(k: Seq<char>, f: Seq<char>)
    ensures
        substring_len(k, k + f) == Some(k.len()),
{
    let s = k + f;
    assert forall|i: int| 0 <= i < k.len() implies s[i] == k[i] by {}
}

/// A text that begins with none of the characters a numeral is made of begins with
/// no numeral.
pub proof fn lemma_no_number(s: Seq<char>)
    requires
        s.len() > 0,
        !is_numeral_part(s[0]),
    ensures
        advance(number_len(s)) == 0,
{
    assert(number_run(s, true, false) == 0);
    assert(s.take(0) =~= Seq::<char>::empty());
}

/// A hyphen before a break is no numeral.
pub proof fn lemma_hyphen_is_no_number(f: Seq<char>)
    requires
        f.len() > 0,
        is_break(f[0]),
    ensures
        advance(number_len(seq!['-'] + f)) == 0,
{
    let s = seq!['-'] + f;
    assert(s.skip(1) =~= f);
    assert(number_run(f, false, false) == 0);
    assert(number_run(s, true, false) == 1);
    let head = s.take(1);
    assert(head[0] == '-');
    assert(!has_digit(head));
}

/// One of two characters.
pub proof fn lemma_one_of_two(x: char, y: char, c: char)
    ensures
        seq![x, y].contains(c) <==> c == x || c == y,
{
    let set = seq![x, y];
    if c == x {
        assert(set[0] == c);
    }
    if c == y {
        assert(set[1] == c);
    }
}

/// One of four characters.
pub proof fn lemma_one_of_four(x: char, y: char, z: char, w: char, c: char)
    ensures
        seq![x, y, z, w].contains(c) <==> c == x || c == y || c == z || c == w,
{
    let set = seq![x, y, z, w];
    if c == x {
        assert(set[0] == c);
    }
    if c == y {
        assert(set[1] == c);
    }
    if c == z {
        assert(set[2] == c);
    }
    if c == w {
        assert(set[3] == c);
    }
}

/// Whether a character can be the first of a bracket, separator or operator.
pub open spec fn begins_symbol(c: char) -> bool {
    c == '(' || c == ')' || c == '{' || c == '}' || c == '=' || c == '\u{21D2}' || c
        == '\u{27AA}' || c == ',' || c == ';' || c == '!' || c == '<' || c == '\u{2264}' || c
        == '>' || c == '\u{2265}' || c == '+' || c == '-' || c == MINUS_SIGN || c == '*' || c
        == '\u{00D7}' || c == '/' || c == '\u{00F7}' || c == '^' || c == '%' || c == 'm'
}

/// A text that begins with none of the characters that begin a symbol begins with no
/// symbol.
pub proof fn lemma_no_symbol(s: Seq<char>)
    requires
        s.len() > 0,
        !begins_symbol(s[0]),
    ensures
        symbol_token(s) is None,
{
    lemma_literals();
    let c = s[0];
    lemma_one_of_two('\u{21D2}', '\u{27AA}', c);
    lemma_one_of_two('-', MINUS_SIGN, c);
    lemma_one_of_two('*', '\u{00D7}', c);
    lemma_one_of_two('/', '\u{00F7}', c);
    lemma_miss("=>"@, s, 0);
    lemma_miss("=="@, s, 0);
    lemma_miss("!="@, s, 0);
    lemma_miss("<="@, s, 0);
    lemma_miss(">="@, s, 0);
    lemma_miss("mod"@, s, 0);
    assert(arithmetic_token(s) is None);
    assert(comparison_token(s) is None);
}

/// Whether a token is a keyword that names a function or begins a construct.
pub open spec fn is_keyword(tok: Tok) -> bool {
    tok == Tok::Sine || tok == Tok::Log || tok == Tok::Cosine || tok == Tok::Rand || tok
        == Tok::Round || tok == Tok::Floor || tok == Tok::Let || tok == Tok::If || tok
        == Tok::Else || tok == Tok::Sqrt
}

/// A keyword before a break is scanned as the keyword.
pub proof fn lemma_scan_keyword(tok: Tok, f: Seq<char>, a: bool)
    requires
        ascii_classes(),
        is_keyword(tok),
        breaks(f),
    ensures
        next_token(spelling(tok) + f, a) == (Ok::<Tok, Seq<char>>(tok), spelling(tok).len()),
{
    lemma_literals();
    match tok {
        Tok::Sine => {
            let s = "sin"@ + f;
            assert(s[0] == 's');
            lemma_keyword_hit("sin"@, f);
        },
        Tok::Log => {
            let s = "log"@ + f;
            assert(s[0] == 'l');
            lemma_miss("sin"@, s, 0);
            lemma_keyword_hit("log"@, f);
        },
        Tok::Cosine => {
            let s = "cos"@ + f;
            assert(s[0] == 'c');
            lemma_miss("sin"@, s, 0);
            lemma_miss("log"@, s, 0);
            lemma_keyword_hit("cos"@, f);
        },
        Tok::Rand => {
            let s = "rand"@ + f;
            assert(s[0] == 'r');
            lemma_miss("sin"@, s, 0);
            lemma_miss("log"@, s, 0);
            lemma_miss("cos"@, s, 0);
            lemma_keyword_hit("rand"@, f);
        },
        Tok::Round => {
            let s = "round"@ + f;
            assert(s[0] == 'r');
            assert(s[1] == 'o');
            lemma_miss("sin"@, s, 0);
            lemma_miss("log"@, s, 0);
            lemma_miss("cos"@, s, 0);
            lemma_miss("rand"@, s, 1);
            lemma_keyword_hit("round"@, f);
        },
        Tok::Floor => {
            let s = "floor"@ + f;
            assert(s[0] == 'f');
            lemma_miss("sin"@, s, 0);
            lemma_miss("log"@, s, 0);
            lemma_miss("cos"@, s, 0);
            lemma_miss("rand"@, s, 0);
            lemma_miss("round"@, s, 0);
            lemma_keyword_hit("floor"@, f);
        },
        Tok::Let => {
            let s = "let"@ + f;
            assert(s[0] == 'l');
            assert(s[1] == 'e');
            lemma_miss("sin"@, s, 0);
            lemma_miss("log"@, s, 1);
            lemma_miss("cos"@, s, 0);
            lemma_miss("rand"@, s, 0);
            lemma_miss("round"@, s, 0);
            lemma_miss("floor"@, s, 0);
            lemma_keyword_hit("let"@, f);
        },
        Tok::If => {
            let s = "if"@ + f;
            assert(s[0] == 'i');
            lemma_miss("sin"@, s, 0);
            lemma_miss("log"@, s, 0);
            lemma_miss("cos"@, s, 0);
            lemma_miss("rand"@, s, 0);
            lemma_miss("round"@, s, 0);
            lemma_miss("floor"@, s, 0);
            lemma_miss("let"@, s, 0);
            lemma_keyword_hit("if"@, f);
        },
        Tok::Else => {
            let s = "else"@ + f;
            assert(s[0] == 'e');
            lemma_miss("sin"@, s, 0);
            lemma_miss("log"@, s, 0);
            lemma_miss("cos"@, s, 0);
            lemma_miss("rand"@, s, 0);
            lemma_miss("round"@, s, 0);
            lemma_miss("floor"@, s, 0);
            lemma_miss("let"@, s, 0);
            lemma_miss("if"@, s, 0);
            lemma_keyword_hit("else"@, f);
        },
        Tok::Sqrt => {
            let s = "sqrt"@ + f;
            assert(s[0] == 's');
            assert(s[1] == 'q');
            lemma_miss("sin"@, s, 1);
            lemma_miss("log"@, s, 0);
            lemma_miss("cos"@, s, 0);
            lemma_miss("rand"@, s, 0);
            lemma_miss("round"@, s, 0);
            lemma_miss("floor"@, s, 0);
            lemma_miss("let"@, s, 0);
            lemma_miss("if"@, s, 0);
            lemma_miss("else"@, s, 0);
            lemma_miss("pi"@, s, 0);
            lemma_miss("E"@, s, 0);
            lemma_keyword_hit("sqrt"@, f);
        },
        _ => {},
    }
}

/// Whether a token is a bracket, a separator or an operator.
pub open spec fn is_symbol(tok: Tok) -> bool {
    tok == Tok::OpenParen || tok == Tok::CloseParen || tok == Tok::OpenCurly || tok == Tok::CloseCurly || tok == Tok::LeftArrow || tok == Tok::Comma || tok == Tok::Semicolon || tok == Tok::Eq || tok == Tok::NotEq || tok == Tok::Equals || tok == Tok::LessThanEquals || tok == Tok::LessThan || tok == Tok::GreaterThanEquals || tok == Tok::GreaterThan || tok == Tok::Plus || tok == Tok::Sub || tok == Tok::Mul || tok == Tok::Div || tok == Tok::Pow || tok == Tok::Mod
}

/// What may follow a symbol: after a hyphen a break, so that it is no sign of a numeral;
/// after `=`, `<` and `>` the end or a break, so that they are no part of a longer symbol;
/// after any other symbol anything.
pub open spec fn symbol_ends(tok: Tok, f: Seq<char>) -> bool {
    match tok {
        Tok::Sub => f.len() > 0 && is_break(f[0]),
        Tok::Equals => breaks(f),
        Tok::LessThan => breaks(f),
        Tok::GreaterThan => breaks(f),
        _ => true,
    }
}

/// A symbol is scanned as the symbol.
pub proof fn lemma_scan_symbol(tok: Tok, f: Seq<char>, a: bool)
    requires
        is_symbol(tok),
        symbol_ends(tok, f),
    ensures
        next_token(spelling(tok) + f, a) == (Ok::<Tok, Seq<char>>(tok), spelling(tok).len()),
{
    match tok {
        Tok::OpenParen => lemma_scan_open_paren(f, a),
        Tok::CloseParen => lemma_scan_close_paren(f, a),
        Tok::OpenCurly => lemma_scan_open_curly(f, a),
        Tok::CloseCurly => lemma_scan_close_curly(f, a),
        Tok::LeftArrow => lemma_scan_left_arrow(f, a),
        Tok::Comma => lemma_scan_comma(f, a),
        Tok::Semicolon => lemma_scan_semicolon(f, a),
        Tok::Eq => lemma_scan_eq(f, a),
        Tok::NotEq => lemma_scan_not_eq(f, a),
        Tok::Equals => lemma_scan_equals(f, a),
        Tok::LessThanEquals => lemma_scan_less_than_equals(f, a),
        Tok::LessThan => lemma_scan_less_than(f, a),
        Tok::GreaterThanEquals => lemma_scan_greater_than_equals(f, a),
        Tok::GreaterThan => lemma_scan_greater_than(f, a),
        Tok::Plus => lemma_scan_plus(f, a),
        Tok::Sub => lemma_scan_sub(f, a),
        Tok::Mul => lemma_scan_mul(f, a),
        Tok::Div => lemma_scan_div(f, a),
        Tok::Pow => lemma_scan_pow(f, a),
        Tok::Mod => lemma_scan_mod(f, a),
        _ => {},
    }
}

proof fn lemma_scan_open_paren(f: Seq<char>, a: bool)
    requires
        symbol_ends(Tok::OpenParen, f),
    ensures
        next_token(spelling(Tok::OpenParen) + f, a) == (
            Ok::<Tok, Seq<char>>(Tok::OpenParen),
            spelling(Tok::OpenParen).len(),
        ),
{
    lemma_literals();
    let s = "("@ + f;
    assert(s[0] == '(');
    assert(f.len() > 0 ==> s[1] == f[0]);
    lemma_no_number(s);
    lemma_no_keyword(s);
    assert(symbol_token(s) == Some((Tok::OpenParen, 1nat)));
}

proof fn lemma_scan_close_paren(f: Seq<char>, a: bool)
    requires
        symbol_ends(Tok::CloseParen, f),
    ensures
        next_token(spelling(Tok::CloseParen) + f, a) == (
            Ok::<Tok, Seq<char>>(Tok::CloseParen),
            spelling(Tok::CloseParen).len(),
        ),
{
    lemma_literals();
    let s = ")"@ + f;
    assert(s[0] == ')');
    assert(f.len() > 0 ==> s[1] == f[0]);
    lemma_no_number(s);
    lemma_no_keyword(s);
    assert(symbol_token(s) == Some((Tok::CloseParen, 1nat)));
}

proof fn lemma_scan_open_curly(f: Seq<char>, a: bool)
    requires
        symbol_ends(Tok::OpenCurly, f),
    ensures
        next_token(spelling(Tok::OpenCurly) + f, a) == (
            Ok::<Tok, Seq<char>>(Tok::OpenCurly),
            spelling(Tok::OpenCurly).len(),
        ),
{
    lemma_literals();
    let s = "{"@ + f;
    assert(s[0] == '{');
    assert(f.len() > 0 ==> s[1] == f[0]);
    lemma_no_number(s);
    lemma_no_keyword(s);
    assert(symbol_token(s) == Some((Tok::OpenCurly, 1nat)));
}

proof fn lemma_scan_close_curly(f: Seq<char>, a: bool)
    requires
        symbol_ends(Tok::CloseCurly, f),
    ensures
        next_token(spelling(Tok::CloseCurly) + f, a) == (
            Ok::<Tok, Seq<char>>(Tok::CloseCurly),
            spelling(Tok::CloseCurly).len(),
        ),
{
    lemma_literals();
    let s = "}"@ + f;
    assert(s[0] == '}');
    assert(f.len() > 0 ==> s[1] == f[0]);
    lemma_no_number(s);
    lemma_no_keyword(s);
    assert(symbol_token(s) == Some((Tok::CloseCurly, 1nat)));
}

proof fn lemma_scan_left_arrow(f: Seq<char>, a: bool)
    requires
        symbol_ends(Tok::LeftArrow, f),
    ensures
        next_token(spelling(Tok::LeftArrow) + f, a) == (
            Ok::<Tok, Seq<char>>(Tok::LeftArrow),
            spelling(Tok::LeftArrow).len(),
        ),
{
    lemma_literals();
    let s = "=>"@ + f;
    assert(s[0] == '=');
    assert(s[1] == '>');
    assert(f.len() > 0 ==> s[2] == f[0]);
    lemma_no_number(s);
    lemma_no_keyword(s);
    lemma_symbol_hit("=>"@, f);
    assert(symbol_token(s) == Some((Tok::LeftArrow, 2nat)));
}

proof fn lemma_scan_comma(f: Seq<char>, a: bool)
    requires
        symbol_ends(Tok::Comma, f),
    ensures
        next_token(spelling(Tok::Comma) + f, a) == (
            Ok::<Tok, Seq<char>>(Tok::Comma),
            spelling(Tok::Comma).len(),
        ),
{
    lemma_literals();
    let s = ","@ + f;
    assert(s[0] == ',');
    assert(f.len() > 0 ==> s[1] == f[0]);
    lemma_no_number(s);
    lemma_no_keyword(s);
    lemma_miss("=>"@, s, 0);
    lemma_one_of_two('\u{21D2}', '\u{27AA}', s[0]);
    assert(symbol_token(s) == Some((Tok::Comma, 1nat)));
}

proof fn lemma_scan_semicolon(f: Seq<char>, a: bool)
    requires
        symbol_ends(Tok::Semicolon, f),
    ensures
        next_token(spelling(Tok::Semicolon) + f, a) == (
            Ok::<Tok, Seq<char>>(Tok::Semicolon),
            spelling(Tok::Semicolon).len(),
        ),
{
    lemma_literals();
    let s = ";"@ + f;
    assert(s[0] == ';');
    assert(f.len() > 0 ==> s[1] == f[0]);
    lemma_no_number(s);
    lemma_no_keyword(s);
    lemma_miss("=>"@, s, 0);
    lemma_one_of_two('\u{21D2}', '\u{27AA}', s[0]);
    assert(symbol_token(s) == Some((Tok::Semicolon, 1nat)));
}

proof fn lemma_scan_eq(f: Seq<char>, a: bool)
    requires
        symbol_ends(Tok::Eq, f),
    ensures
        next_token(spelling(Tok::Eq) + f, a) == (
            Ok::<Tok, Seq<char>>(Tok::Eq),
            spelling(Tok::Eq).len(),
        ),
{
    lemma_literals();
    let s = "=="@ + f;
    assert(s[0] == '=');
    assert(s[1] == '=');
    assert(f.len() > 0 ==> s[2] == f[0]);
    lemma_no_number(s);
    lemma_no_keyword(s);
    lemma_miss("=>"@, s, 1);
    lemma_one_of_two('\u{21D2}', '\u{27AA}', s[0]);
    lemma_symbol_hit("=="@, f);
    assert(comparison_token(s) == Some((Tok::Eq, 2nat)));
    assert(symbol_token(s) == Some((Tok::Eq, 2nat)));
}

proof fn lemma_scan_not_eq(f: Seq<char>, a: bool)
    requires
        symbol_ends(Tok::NotEq, f),
    ensures
        next_token(spelling(Tok::NotEq) + f, a) == (
            Ok::<Tok, Seq<char>>(Tok::NotEq),
            spelling(Tok::NotEq).len(),
        ),
{
    lemma_literals();
    let s = "!="@ + f;
    assert(s[0] == '!');
    assert(s[1] == '=');
    assert(f.len() > 0 ==> s[2] == f[0]);
    lemma_no_number(s);
    lemma_no_keyword(s);
    lemma_miss("=>"@, s, 0);
    lemma_one_of_two('\u{21D2}', '\u{27AA}', s[0]);
    lemma_miss("=="@, s, 0);
    lemma_symbol_hit("!="@, f);
    assert(comparison_token(s) == Some((Tok::NotEq, 2nat)));
    assert(symbol_token(s) == Some((Tok::NotEq, 2nat)));
}

proof fn lemma_scan_equals(f: Seq<char>, a: bool)
    requires
        symbol_ends(Tok::Equals, f),
    ensures
        next_token(spelling(Tok::Equals) + f, a) == (
            Ok::<Tok, Seq<char>>(Tok::Equals),
            spelling(Tok::Equals).len(),
        ),
{
    lemma_literals();
    let s = "="@ + f;
    assert(s[0] == '=');
    assert(f.len() > 0 ==> s[1] == f[0]);
    lemma_no_number(s);
    lemma_no_keyword(s);
    lemma_miss("=>"@, s, 1);
    lemma_one_of_two('\u{21D2}', '\u{27AA}', s[0]);
    lemma_miss("=="@, s, 1);
    lemma_miss("!="@, s, 0);
    assert(comparison_token(s) == Some((Tok::Equals, 1nat)));
    assert(symbol_token(s) == Some((Tok::Equals, 1nat)));
}

proof fn lemma_scan_less_than_equals(f: Seq<char>, a: bool)
    requires
        symbol_ends(Tok::LessThanEquals, f),
    ensures
        next_token(spelling(Tok::LessThanEquals) + f, a) == (
            Ok::<Tok, Seq<char>>(Tok::LessThanEquals),
            spelling(Tok::LessThanEquals).len(),
        ),
{
    lemma_literals();
    let s = "<="@ + f;
    assert(s[0] == '<');
    assert(s[1] == '=');
    assert(f.len() > 0 ==> s[2] == f[0]);
    lemma_no_number(s);
    lemma_no_keyword(s);
    lemma_miss("=>"@, s, 0);
    lemma_one_of_two('\u{21D2}', '\u{27AA}', s[0]);
    lemma_miss("=="@, s, 0);
    lemma_miss("!="@, s, 0);
    lemma_symbol_hit("<="@, f);
    assert(comparison_token(s) == Some((Tok::LessThanEquals, 2nat)));
    assert(symbol_token(s) == Some((Tok::LessThanEquals, 2nat)));
}

proof fn lemma_scan_less_than(f: Seq<char>, a: bool)
    requires
        symbol_ends(Tok::LessThan, f),
    ensures
        next_token(spelling(Tok::LessThan) + f, a) == (
            Ok::<Tok, Seq<char>>(Tok::LessThan),
            spelling(Tok::LessThan).len(),
        ),
{
    lemma_literals();
    let s = "<"@ + f;
    assert(s[0] == '<');
    assert(f.len() > 0 ==> s[1] == f[0]);
    lemma_no_number(s);
    lemma_no_keyword(s);
    lemma_miss("=>"@, s, 0);
    lemma_one_of_two('\u{21D2}', '\u{27AA}', s[0]);
    lemma_miss("=="@, s, 0);
    lemma_miss("!="@, s, 0);
    lemma_miss("<="@, s, 1);
    assert(comparison_token(s) == Some((Tok::LessThan, 1nat)));
    assert(symbol_token(s) == Some((Tok::LessThan, 1nat)));
}

proof fn lemma_scan_greater_than_equals(f: Seq<char>, a: bool)
    requires
        symbol_ends(Tok::GreaterThanEquals, f),
    ensures
        next_token(spelling(Tok::GreaterThanEquals) + f, a) == (
            Ok::<Tok, Seq<char>>(Tok::GreaterThanEquals),
            spelling(Tok::GreaterThanEquals).len(),
        ),
{
    lemma_literals();
    let s = ">="@ + f;
    assert(s[0] == '>');
    assert(s[1] == '=');
    assert(f.len() > 0 ==> s[2] == f[0]);
    lemma_no_number(s);
    lemma_no_keyword(s);
    lemma_miss("=>"@, s, 0);
    lemma_one_of_two('\u{21D2}', '\u{27AA}', s[0]);
    lemma_miss("=="@, s, 0);
    lemma_miss("!="@, s, 0);
    lemma_miss("<="@, s, 0);
    lemma_symbol_hit(">="@, f);
    assert(comparison_token(s) == Some((Tok::GreaterThanEquals, 2nat)));
    assert(symbol_token(s) == Some((Tok::GreaterThanEquals, 2nat)));
}

proof fn lemma_scan_greater_than(f: Seq<char>, a: bool)
    requires
        symbol_ends(Tok::GreaterThan, f),
    ensures
        next_token(spelling(Tok::GreaterThan) + f, a) == (
            Ok::<Tok, Seq<char>>(Tok::GreaterThan),
            spelling(Tok::GreaterThan).len(),
        ),
{
    lemma_literals();
    let s = ">"@ + f;
    assert(s[0] == '>');
    assert(f.len() > 0 ==> s[1] == f[0]);
    lemma_no_number(s);
    lemma_no_keyword(s);
    lemma_miss("=>"@, s, 0);
    lemma_one_of_two('\u{21D2}', '\u{27AA}', s[0]);
    lemma_miss("=="@, s, 0);
    lemma_miss("!="@, s, 0);
    lemma_miss("<="@, s, 0);
    lemma_miss(">="@, s, 1);
    assert(comparison_token(s) == Some((Tok::GreaterThan, 1nat)));
    assert(symbol_token(s) == Some((Tok::GreaterThan, 1nat)));
}

proof fn lemma_scan_plus(f: Seq<char>, a: bool)
    requires
        symbol_ends(Tok::Plus, f),
    ensures
        next_token(spelling(Tok::Plus) + f, a) == (
            Ok::<Tok, Seq<char>>(Tok::Plus),
            spelling(Tok::Plus).len(),
        ),
{
    lemma_literals();
    let s = "+"@ + f;
    assert(s[0] == '+');
    assert(f.len() > 0 ==> s[1] == f[0]);
    lemma_no_number(s);
    lemma_no_keyword(s);
    lemma_miss("=>"@, s, 0);
    lemma_one_of_two('\u{21D2}', '\u{27AA}', s[0]);
    lemma_miss("=="@, s, 0);
    lemma_miss("!="@, s, 0);
    lemma_miss("<="@, s, 0);
    lemma_miss(">="@, s, 0);
    assert(arithmetic_token(s) == Some((Tok::Plus, 1nat)));
    assert(comparison_token(s) == Some((Tok::Plus, 1nat)));
    assert(symbol_token(s) == Some((Tok::Plus, 1nat)));
}

proof fn lemma_scan_sub(f: Seq<char>, a: bool)
    requires
        symbol_ends(Tok::Sub, f),
    ensures
        next_token(spelling(Tok::Sub) + f, a) == (
            Ok::<Tok, Seq<char>>(Tok::Sub),
            spelling(Tok::Sub).len(),
        ),
{
    lemma_literals();
    let s = "-"@ + f;
    assert(s[0] == '-');
    assert(f.len() > 0 ==> s[1] == f[0]);
    assert(s =~= seq!['-'] + f);
    lemma_hyphen_is_no_number(f);
    lemma_no_keyword(s);
    lemma_miss("=>"@, s, 0);
    lemma_one_of_two('\u{21D2}', '\u{27AA}', s[0]);
    lemma_miss("=="@, s, 0);
    lemma_miss("!="@, s, 0);
    lemma_miss("<="@, s, 0);
    lemma_miss(">="@, s, 0);
    lemma_one_of_two('-', '\u{2212}', s[0]);
    assert(arithmetic_token(s) == Some((Tok::Sub, 1nat)));
    assert(comparison_token(s) == Some((Tok::Sub, 1nat)));
    assert(symbol_token(s) == Some((Tok::Sub, 1nat)));
}

proof fn lemma_scan_mul(f: Seq<char>, a: bool)
    requires
        symbol_ends(Tok::Mul, f),
    ensures
        next_token(spelling(Tok::Mul) + f, a) == (
            Ok::<Tok, Seq<char>>(Tok::Mul),
            spelling(Tok::Mul).len(),
        ),
{
    lemma_literals();
    let s = "*"@ + f;
    assert(s[0] == '*');
    assert(f.len() > 0 ==> s[1] == f[0]);
    lemma_no_number(s);
    lemma_no_keyword(s);
    lemma_miss("=>"@, s, 0);
    lemma_one_of_two('\u{21D2}', '\u{27AA}', s[0]);
    lemma_miss("=="@, s, 0);
    lemma_miss("!="@, s, 0);
    lemma_miss("<="@, s, 0);
    lemma_miss(">="@, s, 0);
    lemma_one_of_two('-', '\u{2212}', s[0]);
    lemma_one_of_two('*', '\u{00D7}', s[0]);
    assert(arithmetic_token(s) == Some((Tok::Mul, 1nat)));
    assert(comparison_token(s) == Some((Tok::Mul, 1nat)));
    assert(symbol_token(s) == Some((Tok::Mul, 1nat)));
}

proof fn lemma_scan_div(f: Seq<char>, a: bool)
    requires
        symbol_ends(Tok::Div, f),
    ensures
        next_token(spelling(Tok::Div) + f, a) == (
            Ok::<Tok, Seq<char>>(Tok::Div),
            spelling(Tok::Div).len(),
        ),
{
    lemma_literals();
    let s = "/"@ + f;
    assert(s[0] == '/');
    assert(f.len() > 0 ==> s[1] == f[0]);
    lemma_no_number(s);
    lemma_no_keyword(s);
    lemma_miss("=>"@, s, 0);
    lemma_one_of_two('\u{21D2}', '\u{27AA}', s[0]);
    lemma_miss("=="@, s, 0);
    lemma_miss("!="@, s, 0);
    lemma_miss("<="@, s, 0);
    lemma_miss(">="@, s, 0);
    lemma_one_of_two('-', '\u{2212}', s[0]);
    lemma_one_of_two('*', '\u{00D7}', s[0]);
    lemma_one_of_two('/', '\u{00F7}', s[0]);
    assert(arithmetic_token(s) == Some((Tok::Div, 1nat)));
    assert(comparison_token(s) == Some((Tok::Div, 1nat)));
    assert(symbol_token(s) == Some((Tok::Div, 1nat)));
}

proof fn lemma_scan_pow(f: Seq<char>, a: bool)
    requires
        symbol_ends(Tok::Pow, f),
    ensures
        next_token(spelling(Tok::Pow) + f, a) == (
            Ok::<Tok, Seq<char>>(Tok::Pow),
            spelling(Tok::Pow).len(),
        ),
{
    lemma_literals();
    let s = "^"@ + f;
    assert(s[0] == '^');
    assert(f.len() > 0 ==> s[1] == f[0]);
    lemma_no_number(s);
    lemma_no_keyword(s);
    lemma_miss("=>"@, s, 0);
    lemma_one_of_two('\u{21D2}', '\u{27AA}', s[0]);
    lemma_miss("=="@, s, 0);
    lemma_miss("!="@, s, 0);
    lemma_miss("<="@, s, 0);
    lemma_miss(">="@, s, 0);
    lemma_one_of_two('-', '\u{2212}', s[0]);
    lemma_one_of_two('*', '\u{00D7}', s[0]);
    lemma_one_of_two('/', '\u{00F7}', s[0]);
    assert(arithmetic_token(s) == Some((Tok::Pow, 1nat)));
    assert(comparison_token(s) == Some((Tok::Pow, 1nat)));
    assert(symbol_token(s) == Some((Tok::Pow, 1nat)));
}

proof fn lemma_scan_mod(f: Seq<char>, a: bool)
    requires
        symbol_ends(Tok::Mod, f),
    ensures
        next_token(spelling(Tok::Mod) + f, a) == (
            Ok::<Tok, Seq<char>>(Tok::Mod),
            spelling(Tok::Mod).len(),
        ),
{
    lemma_literals();
    let s = "%"@ + f;
    assert(s[0] == '%');
    assert(f.len() > 0 ==> s[1] == f[0]);
    lemma_no_number(s);
    lemma_no_keyword(s);
    lemma_miss("=>"@, s, 0);
    lemma_one_of_two('\u{21D2}', '\u{27AA}', s[0]);
    lemma_miss("=="@, s, 0);
    lemma_miss("!="@, s, 0);
    lemma_miss("<="@, s, 0);
    lemma_miss(">="@, s, 0);
    lemma_one_of_two('-', '\u{2212}', s[0]);
    lemma_one_of_two('*', '\u{00D7}', s[0]);
    lemma_one_of_two('/', '\u{00F7}', s[0]);
    assert(arithmetic_token(s) == Some((Tok::Mod, 1nat)));
    assert(comparison_token(s) == Some((Tok::Mod, 1nat)));
    assert(symbol_token(s) == Some((Tok::Mod, 1nat)));
}

/// A numeral that is scanned back as it is written: every numeral.
pub open spec fn plain_numeral(x: Seq<char>) -> bool {
    is_numeral(x)
}

/// Digits with at most one point before a break are taken as a numeral, all of them.
proof fn lemma_number_run_exact(x: Seq<char>, f: Seq<char>, first: bool, seen: bool)
    requires
        forall|i: int| 0 <= i < x.len() ==> is_digit(#[trigger] x[i]) || x[i] == '.',
        forall|i: int, j: int| 0 <= i < j < x.len() ==> !(x[i] == '.' && x[j] == '.'),
        seen ==> forall|i: int| 0 <= i < x.len() ==> #[trigger] x[i] != '.',
        breaks(f),
    ensures
        number_run(x + f, first, seen) == x.len(),
    decreases x.len(),
{
    let s = x + f;
    if x.len() == 0 {
        assert(s =~= f);
    } else {
        let rest = x.skip(1);
        assert(s[0] == x[0]);
        assert(s.skip(1) =~= rest + f);
        assert forall|i: int| 0 <= i < rest.len() implies is_digit(#[trigger] rest[i])
            || rest[i] == '.' by {
            assert(rest[i] == x[i + 1]);
        }
        assert forall|i: int, j: int| 0 <= i < j < rest.len() implies !(rest[i] == '.' && rest[j]
            == '.') by {
            assert(rest[i] == x[i + 1]);
            assert(rest[j] == x[j + 1]);
        }
        if x[0] == '.' {
            assert forall|i: int| 0 <= i < rest.len() implies #[trigger] rest[i] != '.' by {
                assert(rest[i] == x[i + 1]);
            }
            lemma_number_run_exact(rest, f, false, true);
        } else {
            assert forall|i: int| 0 <= i < rest.len() && seen implies #[trigger] rest[i] != '.' by {
                assert(rest[i] == x[i + 1]);
            }
            lemma_number_run_exact(rest, f, false, seen);
        }
    }
}

/// A numeral before a break is scanned as the numeral, unless a numeral came just before
/// it.
pub proof fn lemma_scan_numeral(x: Seq<char>, f: Seq<char>)
    requires
        plain_numeral(x),
        breaks(f),
    ensures
        next_token(x + f, false) == (Ok::<Tok, Seq<char>>(Tok::LiteralNum(x)), x.len()),
{
    let s = x + f;
    let body = crate::number::numeral_body(x);
    let d = choose|i: int| 0 <= i < body.len() && is_digit(#[trigger] body[i]);
    assert(s[0] == x[0]);
    if x[0] == '-' {
        assert(body =~= x.skip(1));
        assert(s.skip(1) =~= body + f);
        lemma_number_run_exact(body, f, false, false);
        assert(x[d + 1] == body[d]);
        assert(is_digit(x[d + 1]));
    } else {
        assert(body == x);
        assert(is_digit(body[0]) || body[0] == '.');
        lemma_number_run_exact(x, f, true, false);
        assert(is_digit(x[d]));
    }
    assert(number_run(s, true, false) == x.len());
    lemma_no_keyword(s);
    assert(s.take(x.len() as int) =~= x);
    assert(has_digit(x));
    assert forall|i: int| 0 <= i < x.len() implies #[trigger] x[i] != MINUS_SIGN by {
        if i > 0 || x[0] != '-' {
            if x[0] == '-' {
                assert(x[i] == body[i - 1]);
            }
        }
    }
    assert(ascii_minus(x) =~= x);
}

/// A name that is scanned back as it is written: letters, digits and underscores that
/// begin no keyword, no symbol and no numeral.
pub open spec fn plain_name(n: Seq<char>) -> bool {
    &&& n.len() > 0
    &&& forall|i: int| 0 <= i < n.len() ==> in_class(#[trigger] n[i], CharClass::Word)
    &&& !is_numeral_part(n[0])
    &&& !unicode_whitespace(n[0])
    &&& keyword_token(n) is None
    &&& symbol_token(n) is None
}

/// A keyword that is not taken from a name is not taken from the name before a break.
proof fn lemma_literal_stable(k: Seq<char>, n: Seq<char>, f: Seq<char>)
    requires
        n.len() > 0,
        breaks(f),
        forall|j: int| 0 <= j < k.len() ==> !is_break(#[trigger] k[j]),
        literal_len(k, n) is None,
    ensures
        literal_len(k, n + f) is None,
{
    let s = n + f;
    if starts_with(s, k) {
        if k.len() <= n.len() {
            assert forall|i: int| 0 <= i < k.len() implies n[i] == k[i] by {
                assert(s[i] == n[i]);
            }
            if n.len() > k.len() {
                assert(s[k.len() as int] == n[k.len() as int]);
            }
        } else {
            assert(s[n.len() as int] == f[0]);
            assert(!is_break(k[n.len() as int]));
        }
    }
}

/// The letters of the keywords are no breaks.
proof fn lemma_keyword_letters()
    ensures
        forall|j: int| 0 <= j < "sin"@.len() ==> !is_break(#[trigger] "sin"@[j]),
        forall|j: int| 0 <= j < "log"@.len() ==> !is_break(#[trigger] "log"@[j]),
        forall|j: int| 0 <= j < "cos"@.len() ==> !is_break(#[trigger] "cos"@[j]),
        forall|j: int| 0 <= j < "rand"@.len() ==> !is_break(#[trigger] "rand"@[j]),
        forall|j: int| 0 <= j < "round"@.len() ==> !is_break(#[trigger] "round"@[j]),
        forall|j: int| 0 <= j < "floor"@.len() ==> !is_break(#[trigger] "floor"@[j]),
        forall|j: int| 0 <= j < "let"@.len() ==> !is_break(#[trigger] "let"@[j]),
        forall|j: int| 0 <= j < "if"@.len() ==> !is_break(#[trigger] "if"@[j]),
        forall|j: int| 0 <= j < "else"@.len() ==> !is_break(#[trigger] "else"@[j]),
        forall|j: int| 0 <= j < "pi"@.len() ==> !is_break(#[trigger] "pi"@[j]),
        forall|j: int| 0 <= j < "E"@.len() ==> !is_break(#[trigger] "E"@[j]),
        forall|j: int| 0 <= j < "sqrt"@.len() ==> !is_break(#[trigger] "sqrt"@[j]),
        forall|j: int| 0 <= j < "mod"@.len() ==> !is_break(#[trigger] "mod"@[j]),
{
    lemma_literals();
}

/// A name that begins with no keyword begins with none before a break.
proof fn lemma_keyword_stable(n: Seq<char>, f: Seq<char>)
    requires
        n.len() > 0,
        breaks(f),
        keyword_token(n) is None,
    ensures
        keyword_token(n + f) is None,
{
    let s = n + f;
    assert(s[0] == n[0]);
    lemma_literals();
    lemma_keyword_letters();
    lemma_literal_stable("sin"@, n, f);
    lemma_literal_stable("log"@, n, f);
    lemma_literal_stable("cos"@, n, f);
    lemma_literal_stable("rand"@, n, f);
    lemma_literal_stable("round"@, n, f);
    lemma_literal_stable("floor"@, n, f);
    lemma_literal_stable("let"@, n, f);
    lemma_literal_stable("if"@, n, f);
    lemma_literal_stable("else"@, n, f);
    lemma_literal_stable("pi"@, n, f);
    lemma_literal_stable("E"@, n, f);
    lemma_literal_stable("sqrt"@, n, f);
}

/// A name that begins with no symbol begins with none before a break.
proof fn lemma_symbol_stable(n: Seq<char>, f: Seq<char>)
    requires
        ascii_classes(),
        n.len() > 0,
        in_class(n[0], CharClass::Word),
        breaks(f),
        symbol_token(n) is None,
    ensures
        symbol_token(n + f) is None,
{
    let s = n + f;
    let c = n[0];
    assert(s[0] == c);
    lemma_literals();
    lemma_keyword_letters();
    assert(comparison_token(n) is None);
    assert(arithmetic_token(n) is None);
    lemma_one_of_two('\u{21D2}', '\u{27AA}', c);
    lemma_one_of_two('-', MINUS_SIGN, c);
    lemma_one_of_two('*', '\u{00D7}', c);
    lemma_one_of_two('/', '\u{00F7}', c);
    assert(c != '=');
    assert(c != '<');
    assert(c != '>');
    assert(c != '!') by {
        assert(is_punctuation('!'));
    }
    lemma_miss("=>"@, s, 0);
    lemma_miss("=="@, s, 0);
    lemma_miss("!="@, s, 0);
    lemma_miss("<="@, s, 0);
    lemma_miss(">="@, s, 0);
    lemma_literal_stable("mod"@, n, f);
    assert(arithmetic_token(s) is None);
    assert(comparison_token(s) is None);
}

/// A plain name before a break is scanned as the name.
pub proof fn lemma_scan_name(n: Seq<char>, f: Seq<char>, a: bool)
    requires
        ascii_classes(),
        plain_name(n),
        breaks(f),
    ensures
        next_token(n + f, a) == (Ok::<Tok, Seq<char>>(Tok::Identifier(n)), n.len()),
{
    let s = n + f;
    assert(s[0] == n[0]);
    lemma_keyword_stable(n, f);
    lemma_symbol_stable(n, f);
    lemma_no_number(s);
    assert forall|j: int| 0 <= j < n.len() implies in_class(#[trigger] s[j], CharClass::Word) by {
        assert(s[j] == n[j]);
    }
    if f.len() > 0 {
        assert(s[n.len() as int] == f[0]);
        assert(is_punctuation(f[0]));
    }
    lemma_run_len(s, CharClass::Word, n.len());
    assert(s.take(n.len() as int) =~= n);
}

/// A token that is scanned back as it is spelled. The constants are not among them: they
/// are written as numerals.
pub open spec fn plain_token(tok: Tok) -> bool {
    match tok {
        Tok::LiteralNum(x) => plain_numeral(x),
        Tok::Identifier(n) => plain_name(n),
        Tok::Pi => false,
        Tok::E => false,
        _ => true,
    }
}

/// A token after which an opening parenthesis is written without a space: the name of
/// what is called.
pub open spec fn is_callee(tok: Tok) -> bool {
    tok is Identifier || tok == Tok::Rand || tok == Tok::Sine || tok == Tok::Cosine || tok
        == Tok::Sqrt || tok == Tok::Log || tok == Tok::Round || tok == Tok::Floor
}

/// Whether two tokens are written without a space between them: inside parentheses, before
/// a separator, around `^`, and between a callee and its parenthesis.
pub open spec fn is_tight(prev: Tok, next: Tok) -> bool {
    prev == Tok::Pow || prev == Tok::OpenParen || next == Tok::Pow || next == Tok::CloseParen
        || next == Tok::Comma || next == Tok::Semicolon || (next == Tok::OpenParen && is_callee(
        prev,
    ))
}

/// What is written between two tokens: nothing or one space.
pub open spec fn gap(prev: Tok, next: Tok) -> Seq<char> {
    if is_tight(prev, next) {
        Seq::empty()
    } else {
        seq![' ']
    }
}

/// The text that spells a token sequence.
pub open spec fn spaced(ts: Seq<Tok>) -> Seq<char>
    decreases ts.len(),
{
    if ts.len() == 0 {
        Seq::empty()
    } else if ts.len() == 1 {
        spelling(ts[0])
    } else {
        spelling(ts[0]) + gap(ts[0], ts[1]) + spaced(ts.skip(1))
    }
}

/// The token sequences that are scanned back from their spelling: plain tokens, no two
/// numerals next to each other, and no hyphen at the end.
pub open spec fn scannable(ts: Seq<Tok>) -> bool {
    &&& forall|i: int| 0 <= i < ts.len() ==> plain_token(#[trigger] ts[i])
    &&& forall|i: int|
        0 <= i < ts.len() - 1 ==> !((#[trigger] ts[i]) is LiteralNum && ts[i + 1] is LiteralNum)
    &&& ts.len() > 0 ==> ts.last() != Tok::Sub
}

/// The owed closers after a token sequence.
pub open spec fn owed(open: Seq<Tok>, ts: Seq<Tok>) -> Seq<Tok>
    decreases ts.len(),
{
    if ts.len() == 0 {
        open
    } else {
        owed(track(open, ts[0]), ts.skip(1))
    }
}

/// Tokens as what a scan yields.
pub open spec fn scanned_ok(ts: Seq<Tok>) -> Seq<Result<Tok, Seq<char>>> {
    Seq::new(ts.len(), |i: int| Ok(ts[i]))
}

/// A plain token is spelled with at least one character, and the first is no white space.
pub proof fn lemma_spelling_begins(tok: Tok)
    requires
        ascii_classes(),
        plain_token(tok),
    ensures
        spelling(tok).len() > 0,
        !unicode_whitespace(spelling(tok)[0]),
{
    lemma_literals();
    let c = spelling(tok)[0];
    match tok {
        Tok::LiteralNum(x) => {
            assert('!' <= c <= '~');
        },
        Tok::Identifier(n) => {},
        _ => {
            assert('!' <= c <= '~');
        },
    }
}

/// The spelling of a sequence begins with the spelling of its first token.
pub proof fn lemma_spaced_begins(ts: Seq<Tok>)
    requires
        ascii_classes(),
        ts.len() > 0,
        plain_token(ts[0]),
    ensures
        spaced(ts).len() > 0,
        spaced(ts)[0] == spelling(ts[0])[0],
{
    lemma_spelling_begins(ts[0]);
}

/// What follows a token in the spelling of a sequence lets the token end where it ends.
#[verifier::rlimit(60)]
proof fn lemma_scan_first(ts: Seq<Tok>, a: bool)
    requires
        ascii_classes(),
        scannable(ts),
        ts.len() > 0,
        a ==> !(ts[0] is LiteralNum),
    ensures
        ({
            let f = spaced(ts).skip(spelling(ts[0]).len() as int);
            &&& spaced(ts) == spelling(ts[0]) + f
            &&& next_token(spaced(ts), a) == (Ok::<Tok, Seq<char>>(ts[0]), spelling(ts[0]).len())
            &&& ts.len() == 1 ==> f.len() == 0
            &&& ts.len() > 1 ==> f == gap(ts[0], ts[1]) + spaced(ts.skip(1))
        }),
{
    let t = ts[0];
    let k = spelling(t);
    let f = spaced(ts).skip(k.len() as int);
    lemma_literals();
    if ts.len() == 1 {
        assert(f =~= Seq::<char>::empty());
        assert(spaced(ts) =~= k + f);
    } else {
        let u = ts[1];
        let rest = ts.skip(1);
        assert(rest[0] == u);
        assert(plain_token(u));
        lemma_spaced_begins(rest);
        assert(f =~= gap(t, u) + spaced(rest));
        assert(spaced(ts) =~= k + f);
        if is_tight(t, u) {
            assert(f[0] == spelling(u)[0]);
        } else {
            assert(f[0] == ' ');
        }
    }
    assert(ts.last() != Tok::Sub);
    assert(!(t == Tok::Sub && ts.len() == 1));
    match t {
        Tok::LiteralNum(x) => {
            assert(breaks(f)) by {
                if ts.len() > 1 {
                    assert(!(ts[1] is LiteralNum));
                    assert(t != Tok::Pow && t != Tok::OpenParen && !is_callee(t));
                }
            }
            lemma_scan_numeral(x, f);
        },
        Tok::Identifier(n) => {
            assert(breaks(f));
            lemma_scan_name(n, f, a);
        },
        _ => {
            if is_keyword(t) {
                assert(breaks(f));
                lemma_scan_keyword(t, f, a);
            } else {
                assert(is_symbol(t));
                assert(symbol_ends(t, f));
                lemma_scan_symbol(t, f, a);
            }
        },
    }
}

/// A text that begins with no white space has no white space to skip.
proof fn lemma_no_blank(s: Seq<char>)
    requires
        s.len() > 0,
        !unicode_whitespace(s[0]),
    ensures
        run_len(s, CharClass::Whitespace) == 0,
{
}

/// The space of a gap is skipped.
proof fn lemma_gap_skipped(g: Seq<char>, s: Seq<char>, a: bool, open: Seq<Tok>)
    requires
        ascii_classes(),
        g == seq![' '] || g.len() == 0,
        s.len() > 0,
        !unicode_whitespace(s[0]),
    ensures
        scan(g + s, a, open) == scan(s, a, open),
{
    if g.len() == 0 {
        assert(g + s =~= s);
    } else {
        let f = g + s;
        assert(f.skip(1) =~= s);
        lemma_no_blank(s);
        assert(run_len(f, CharClass::Whitespace) == 1);
        lemma_scan_skips_blanks(f, a, open);
    }
}

/// The rest of a scannable sequence is scannable.
proof fn lemma_scannable_rest(ts: Seq<Tok>)
    requires
        scannable(ts),
        ts.len() > 0,
    ensures
        scannable(ts.skip(1)),
        ts.len() > 1 ==> !(ts[0] is LiteralNum && ts.skip(1)[0] is LiteralNum),
        ts.len() > 1 ==> plain_token(ts.skip(1)[0]),
{
    let rest = ts.skip(1);
    assert forall|i: int| 0 <= i < rest.len() implies plain_token(#[trigger] rest[i]) by {
        assert(rest[i] == ts[i + 1]);
    }
    assert forall|i: int| 0 <= i < rest.len() - 1 implies !((#[trigger] rest[i]) is LiteralNum
        && rest[i + 1] is LiteralNum) by {
        assert(rest[i] == ts[i + 1]);
        assert(rest[i + 1] == ts[i + 2]);
    }
    if rest.len() > 0 {
        assert(rest.last() == ts.last());
        assert(rest[0] == ts[1]);
        assert(!(ts[0] is LiteralNum && ts[1] is LiteralNum));
    }
}

/// A scannable token sequence is scanned back from its spelling, with the closers that its
/// brackets still owe.
pub proof fn lemma_scan_spaced(ts: Seq<Tok>, a: bool, open: Seq<Tok>)
    requires
        ascii_classes(),
        scannable(ts),
        ts.len() > 0 && a ==> !(ts[0] is LiteralNum),
    ensures
        scan(spaced(ts), a, open) == scanned_ok(ts) + closers(owed(open, ts)),
    decreases ts.len(),
{
    let s = spaced(ts);
    if ts.len() == 0 {
        lemma_scan_end(s, a, open);
        assert(scanned_ok(ts) + closers(open) =~= closers(open));
    } else {
        let t = ts[0];
        let rest = ts.skip(1);
        let f = s.skip(spelling(t).len() as int);
        let a2 = t is LiteralNum;
        let open2 = track(open, t);
        lemma_spelling_begins(t);
        lemma_spaced_begins(ts);
        lemma_no_blank(s);
        lemma_scan_first(ts, a);
        lemma_scan_step(s, a, open);
        lemma_scannable_rest(ts);
        assert(scan(s, a, open) == seq![Ok::<Tok, Seq<char>>(t)] + scan(f, a2, open2));
        lemma_scan_spaced(rest, a2, open2);
        if rest.len() > 0 {
            lemma_spelling_begins(rest[0]);
            lemma_spaced_begins(rest);
            lemma_gap_skipped(gap(t, ts[1]), spaced(rest), a2, open2);
        } else {
            assert(f =~= spaced(rest));
        }
        assert(scan(f, a2, open2) == scanned_ok(rest) + closers(owed(open2, rest)));
        lemma_scanned_ok_first(ts, closers(owed(open2, rest)));
    }
}

/// The first token of what a scan yields, and the rest.
proof fn lemma_scanned_ok_first(ts: Seq<Tok>, tail: Seq<Result<Tok, Seq<char>>>)
    requires
        ts.len() > 0,
    ensures
        seq![Ok::<Tok, Seq<char>>(ts[0])] + (scanned_ok(ts.skip(1)) + tail) == scanned_ok(ts)
            + tail,
{
    assert(seq![Ok::<Tok, Seq<char>>(ts[0])] + (scanned_ok(ts.skip(1)) + tail) =~= scanned_ok(ts)
        + tail);
}

/// Every character of a run is of its class, and what follows the run is not.
pub proof fn lemma_run_chars(s: Seq<char>, class: CharClass)
    ensures
        run_len(s, class) <= s.len(),
        forall|j: int| 0 <= j < run_len(s, class) ==> in_class(#[trigger] s[j], class),
        run_len(s, class) < s.len() ==> !in_class(s[run_len(s, class) as int], class),
    decreases s.len(),
{
    if s.len() > 0 && in_class(s[0], class) {
        let t = s.skip(1);
        lemma_run_chars(t, class);
        assert forall|j: int| 0 <= j < run_len(s, class) implies in_class(
            #[trigger] s[j],
            class,
        ) by {
            if j > 0 {
                assert(t[j - 1] == s[j]);
            }
        }
        if run_len(s, class) < s.len() {
            assert(t[run_len(t, class) as int] == s[run_len(s, class) as int]);
        }
    }
}

/// A keyword that is not taken where a name is followed by what is no part of a name is
/// not taken from the name alone.
proof fn lemma_literal_back(k: Seq<char>, n: Seq<char>, rest: Seq<char>)
    requires
        literal_len(k, n + rest) is None,
        rest.len() == 0 || !in_class(rest[0], CharClass::Word),
    ensures
        literal_len(k, n) is None,
{
    let s = n + rest;
    if starts_with(n, k) {
        assert forall|i: int| 0 <= i < k.len() implies s[i] == k[i] by {
            assert(s[i] == n[i]);
        }
        if n.len() > k.len() {
            assert(s[k.len() as int] == n[k.len() as int]);
        } else if rest.len() > 0 {
            assert(s[k.len() as int] == rest[0]);
        }
    }
}

/// A symbol that is not taken from a text is not taken from its beginning.
proof fn lemma_substring_back(k: Seq<char>, n: Seq<char>, rest: Seq<char>)
    requires
        substring_len(k, n + rest) is None,
    ensures
        substring_len(k, n) is None,
{
    let s = n + rest;
    if starts_with(n, k) {
        assert forall|i: int| 0 <= i < k.len() implies s[i] == k[i] by {
            assert(s[i] == n[i]);
        }
    }
}

/// A name begins as names are written: with a character of a name that is no digit.
pub open spec fn begins_plainly(n: Seq<char>) -> bool {
    n.len() > 0 && in_class(n[0], CharClass::Word) && !is_digit(n[0])
}

/// The run of name characters at the start of a text that begins with no keyword, no
/// numeral part but a digit, and no symbol, is a plain name if it begins plainly.
proof fn lemma_name_is_plain(t: Seq<char>)
    requires
        ascii_classes(),
        t.len() > 0,
        !unicode_whitespace(t[0]),
        keyword_token(t) is None,
        symbol_token(t) is None,
        begins_plainly(t.take(run_len(t, CharClass::Word) as int)),
    ensures
        plain_name(t.take(run_len(t, CharClass::Word) as int)),
{
    let k = run_len(t, CharClass::Word);
    lemma_run_chars(t, CharClass::Word);
    let n = t.take(k as int);
    let rest = t.skip(k as int);
    assert(t =~= n + rest);
    assert(n[0] == t[0]);
    if rest.len() > 0 {
        assert(rest[0] == t[k as int]);
    }
    assert forall|i: int| 0 <= i < n.len() implies in_class(#[trigger] n[i], CharClass::Word) by {
        assert(n[i] == t[i]);
    }
    lemma_literals();
    let c = t[0];
    assert(is_punctuation('.') && is_punctuation('-'));
    lemma_one_of_two('\u{21D2}', '\u{27AA}', c);
    lemma_one_of_two('-', MINUS_SIGN, c);
    lemma_one_of_two('*', '\u{00D7}', c);
    lemma_one_of_two('/', '\u{00F7}', c);
    assert(comparison_token(t) is None);
    assert(arithmetic_token(t) is None);
    assert(c != MINUS_SIGN);
    assert(!is_numeral_part(c));
    lemma_literal_back("sin"@, n, rest);
    lemma_literal_back("log"@, n, rest);
    lemma_literal_back("cos"@, n, rest);
    lemma_literal_back("rand"@, n, rest);
    lemma_literal_back("round"@, n, rest);
    lemma_literal_back("floor"@, n, rest);
    lemma_literal_back("let"@, n, rest);
    lemma_literal_back("if"@, n, rest);
    lemma_literal_back("else"@, n, rest);
    lemma_literal_back("pi"@, n, rest);
    lemma_literal_back("E"@, n, rest);
    lemma_literal_back("sqrt"@, n, rest);
    lemma_literal_back("mod"@, n, rest);
    lemma_substring_back("=>"@, n, rest);
    lemma_substring_back("=="@, n, rest);
    lemma_substring_back("!="@, n, rest);
    lemma_substring_back("<="@, n, rest);
    lemma_substring_back(">="@, n, rest);
    assert(keyword_token(n) is None);
    assert(arithmetic_token(n) is None);
    assert(comparison_token(n) is None);
    assert(symbol_token(n) is None);
}

/// A token as the grammar may take it for the round trip: a name is plain if it begins
/// plainly, and a numeral is a numeral.
pub open spec fn sound(tok: Tok) -> bool {
    match tok {
        Tok::Identifier(n) => begins_plainly(n) ==> plain_name(n),
        Tok::LiteralNum(x) => is_numeral(x),
        _ => true,
    }
}

/// What is scanned at the start of a text that begins with no white space is sound.
pub proof fn lemma_next_token_sound(t: Seq<char>, a: bool)
    requires
        ascii_classes(),
        t.len() > 0,
        !unicode_whitespace(t[0]),
    ensures
        next_token(t, a).0 matches Ok(tok) ==> sound(tok),
{
    if keyword_token(t) is None && symbol_token(t) is None && !(advance(number_len(t)) > 0 && !a) {
        let k = run_len(t, CharClass::Word);
        if k > 0 && begins_plainly(t.take(k as int)) {
            lemma_name_is_plain(t);
        }
        if k == 0 {
            assert(t.take(1)[0] == t[0]);
        }
    }
}

/// Every token of a scan is sound.
pub proof fn lemma_scan_sound(s: Seq<char>, a: bool, open: Seq<Tok>)
    requires
        ascii_classes(),
        forall|i: int| 0 <= i < open.len() ==> sound(#[trigger] open[i]),
    ensures
        forall|i: int|
            0 <= i < scan(s, a, open).len() ==> ((#[trigger] scan(s, a, open)[i]) matches Ok(tok)
                ==> sound(tok)),
    decreases s.len(),
{
    let items = scan(s, a, open);
    lemma_run_chars(s, CharClass::Whitespace);
    let t = s.skip(run_len(s, CharClass::Whitespace) as int);
    if t.len() == 0 {
        assert forall|i: int| 0 <= i < items.len() implies ((#[trigger] items[i]) matches Ok(tok)
            ==> sound(tok)) by {
            assert(items[i] == Ok::<Tok, Seq<char>>(open[open.len() - 1 - i]));
        }
    } else {
        assert(t[0] == s[run_len(s, CharClass::Whitespace) as int]);
        lemma_next_token_sound(t, a);
        lemma_token_bounds(t, a);
        let (item, n) = next_token(t, a);
        match item {
            Err(msg) => {},
            Ok(tok) => {
                let next = track(open, tok);
                assert forall|i: int| 0 <= i < next.len() implies sound(#[trigger] next[i]) by {
                    if i < open.len() {
                        assert(next[i] == open[i]);
                    }
                }
                lemma_scan_sound(t.skip(n as int), tok is LiteralNum, next);
                let tail = scan(t.skip(n as int), tok is LiteralNum, next);
                assert forall|i: int| 0 <= i < items.len() implies ((#[trigger] items[i])
                    matches Ok(tok) ==> sound(tok)) by {
                    if i > 0 {
                        assert(items[i] == tail[i - 1]);
                    }
                }
            },
        }
    }
}

/// What the numeral matcher runs over: a sign only first, then digits and at most one
/// point.
proof fn lemma_number_shape(s: Seq<char>, first: bool, seen: bool)
    ensures
        ({
            let n = number_run(s, first, seen);
            &&& n <= s.len()
            &&& forall|i: int|
                0 <= i < n ==> is_digit(#[trigger] s[i]) || s[i] == '.' || (i == 0 && first && (s[0]
                    == '-' || s[0] == MINUS_SIGN))
            &&& forall|i: int, j: int| 0 <= i < j < n ==> !(s[i] == '.' && s[j] == '.')
            &&& seen ==> forall|i: int| 0 <= i < n ==> #[trigger] s[i] != '.'
        }),
    decreases s.len(),
{
    let n = number_run(s, first, seen);
    if n > 0 {
        let t = s.skip(1);
        let sign = first && (s[0] == '-' || s[0] == MINUS_SIGN);
        let seen2 = seen || (!sign && s[0] == '.');
        lemma_number_shape(t, false, seen2);
        assert(n == 1 + number_run(t, false, seen2));
        assert forall|i: int| 0 <= i < n implies is_digit(#[trigger] s[i]) || s[i] == '.' || (i == 0
            && first && (s[0] == '-' || s[0] == MINUS_SIGN)) by {
            if i > 0 {
                assert(t[i - 1] == s[i]);
            }
        }
        assert forall|i: int, j: int| 0 <= i < j < n implies !(s[i] == '.' && s[j] == '.') by {
            assert(t[j - 1] == s[j]);
            if i > 0 {
                assert(t[i - 1] == s[i]);
            }
        }
        assert forall|i: int| 0 <= i < n && seen implies #[trigger] s[i] != '.' by {
            if i > 0 {
                assert(t[i - 1] == s[i]);
            }
        }
    }
}

/// What the numeral matcher takes is a numeral, once its minus sign is written as a
/// hyphen: scanning never meets a numeral that cannot be read.
pub proof fn lemma_taken_is_numeral(s: Seq<char>)
    requires
        number_len(s) is Some,
    ensures
        is_numeral(ascii_minus(s.take(number_run(s, true, false) as int))),
{
    let n = number_run(s, true, false);
    lemma_number_shape(s, true, false);
    let h = s.take(n as int);
    let text = ascii_minus(h);
    let d = choose|i: int| 0 <= i < h.len() && is_digit(#[trigger] h[i]);
    let body = crate::number::numeral_body(text);
    assert forall|i: int| 0 <= i < n implies h[i] == s[i] by {}
    if text[0] == '-' {
        assert(h[0] == '-' || h[0] == MINUS_SIGN);
        assert(body =~= text.skip(1));
        assert(d > 0);
        assert forall|i: int| 0 <= i < body.len() implies is_digit(#[trigger] body[i]) || body[i]
            == '.' by {
            assert(body[i] == text[i + 1]);
            assert(h[i + 1] == s[i + 1]);
        }
        assert forall|i: int, j: int| 0 <= i < j < body.len() implies !(body[i] == '.' && body[j]
            == '.') by {
            assert(body[i] == text[i + 1]);
            assert(body[j] == text[j + 1]);
        }
        assert(body[d - 1] == text[d]);
        assert(is_digit(body[d - 1]));
    } else {
        assert(body == text);
        assert forall|i: int| 0 <= i < body.len() implies is_digit(#[trigger] body[i]) || body[i]
            == '.' by {
            assert(h[i] == s[i]);
        }
        assert forall|i: int, j: int| 0 <= i < j < body.len() implies !(body[i] == '.' && body[j]
            == '.') by {
            assert(h[i] == s[i]);
            assert(h[j] == s[j]);
        }
        assert(is_digit(body[d]));
    }
}

/// The only error of scanning is that a text begins with nothing known: a numeral that was
/// taken is always read.
pub proof fn lemma_no_numeral_error(t: Seq<char>, a: bool)
    ensures
        next_token(t, a).0 matches Err(msg) ==> msg == unknown_error(t),
{
    if keyword_token(t) is None && advance(number_len(t)) > 0 && !a {
        lemma_taken_is_numeral(t);
    }
}

} // verus!
