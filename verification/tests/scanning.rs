use xpress_calc::lexer;
use xpress_calc::lexer::Token;
use xpress_calc::number::Numeral;
use xpress_calc::parser::matchers::combine::Or;
use xpress_calc::parser::matchers::Pattern;
use xpress_calc::parser::Bite;
use xpress_calc::parser::Chomp;

fn tokens(input: &str) -> Vec<Result<Token, String>> {
    lexer::tokenize(Bite::new(input))
}

fn numeral(text: &str) -> Token {
    Token::LiteralNum(Numeral::parse(text).unwrap())
}

fn name(text: &str) -> Token {
    Token::Identifier(String::from(text))
}

#[test]
fn unterminated_call_is_closed_at_the_end() {
    assert_eq!(
        vec![
            Ok(Token::Sine),
            Ok(Token::OpenParen),
            Ok(numeral("90")),
            Ok(Token::CloseParen)
        ],
        tokens("sin(90")
    );
}

#[test]
fn owed_closers_come_innermost_first() {
    assert_eq!(
        vec![
            Ok(Token::OpenCurly),
            Ok(Token::OpenParen),
            Ok(Token::OpenCurly),
            Ok(numeral("1")),
            Ok(Token::CloseCurly),
            Ok(Token::CloseParen),
            Ok(Token::CloseCurly)
        ],
        tokens("{({1")
    );
    assert_eq!(
        vec![
            Ok(Token::OpenParen),
            Ok(Token::OpenParen),
            Ok(numeral("1")),
            Ok(Token::CloseParen),
            Ok(Token::CloseParen)
        ],
        tokens("((1)")
    );
}

#[test]
fn a_closer_that_is_not_owed_next_is_kept_and_pays_nothing() {
    assert_eq!(
        vec![
            Ok(Token::OpenParen),
            Ok(Token::CloseCurly),
            Ok(Token::CloseParen)
        ],
        tokens("(}")
    );
    assert_eq!(vec![Ok(Token::CloseParen)], tokens(")"));
}

#[test]
fn the_first_error_ends_the_tokens() {
    assert_eq!(
        vec![
            Ok(Token::OpenParen),
            Ok(numeral("1")),
            Ok(Token::Plus),
            Err(String::from("Could not parse: $ 2"))
        ],
        tokens("(1 + $ 2")
    );
    assert_eq!(
        Err(String::from(
            "ERROR: could not interpret input tokens: Could not parse: #"
        )),
        xpress_calc::tokenize("1 #")
    );
}

#[test]
fn a_numeral_needs_a_digit() {
    assert_eq!(vec![Err(String::from("Could not parse: ."))], tokens("."));
    assert_eq!(
        vec![Ok(numeral("1")), Ok(Token::Plus), Ok(Token::Sub)],
        tokens("1 + -")
    );
    assert_eq!(
        vec![Ok(Token::Sub), Err(String::from("Could not parse: ."))],
        tokens("-.")
    );
    assert_eq!(vec![Ok(numeral("-.5"))], tokens("-.5"));
    assert_eq!(
        vec![Ok(numeral(".5")), Ok(Token::Plus), Ok(numeral("1"))],
        tokens(".5 + 1")
    );
    assert_eq!(
        Err(String::from("Could not parse '': cannot parse float from empty string")),
        Numeral::parse("")
    );
    assert_eq!(
        Err(String::from("Could not parse '1e5': invalid float literal")),
        Numeral::parse("1e5")
    );
    assert_eq!(
        Err(String::from("Could not parse '1.2.3': invalid float literal")),
        Numeral::parse("1.2.3")
    );
    assert_eq!(
        Err(String::from("Could not parse '1-2': invalid float literal")),
        Numeral::parse("1-2")
    );
    assert_eq!("-.5", Numeral::parse("-.5").unwrap().as_str());
    assert_eq!("5.", Numeral::parse("5.").unwrap().as_str());
}

#[test]
fn a_second_point_ends_a_numeral() {
    assert_eq!(
        vec![
            Ok(numeral("1.5")),
            Err(String::from("Could not parse: .5"))
        ],
        tokens("1.5.5")
    );
    assert_eq!(
        vec![Ok(numeral("1.5")), Ok(Token::Plus), Ok(numeral(".5"))],
        tokens("1.5+.5")
    );
}

#[test]
fn a_sign_belongs_to_the_digits_that_follow_it() {
    let mut bite = Bite::new("-5 + 1");
    assert_eq!(Some("-5"), bite.nibble(Chomp::any_number()));
    assert_eq!(" + 1", bite.as_str());
    assert_eq!(
        vec![Ok(numeral("-5")), Ok(Token::Plus), Ok(numeral("3"))],
        tokens("-5 + 3")
    );
    assert_eq!(
        vec![Ok(numeral("-5")), Ok(Token::Plus), Ok(numeral("1"))],
        tokens("\u{2212}5 + 1")
    );
    assert_eq!(
        xpress_calc::compile("(0 - 5) + 1").map(|code| code.len()),
        xpress_calc::compile("-5 + 1").map(|code| code.len() + 2)
    );
}

#[test]
fn a_sign_without_a_digit_is_an_operator() {
    assert_eq!(vec![Ok(Token::Sub), Ok(name("x"))], tokens("-x"));
    assert_eq!(vec![Ok(Token::Sub), Ok(numeral("5"))], tokens("- 5"));
    assert_eq!(vec![Ok(Token::Sub), Ok(numeral("5"))], tokens("\u{2212} 5"));
    let mut bite = Bite::new("-x");
    assert_eq!(None, bite.nibble(Chomp::any_number()));
    assert_eq!("-x", bite.as_str());
    assert_eq!(
        vec![Ok(numeral("-10")), Ok(Token::Plus), Ok(numeral("3"))],
        tokens("-10 + 3")
    );
    assert_eq!(
        vec![
            Ok(Token::Sub),
            Ok(Token::OpenParen),
            Ok(numeral("2")),
            Ok(Token::CloseParen)
        ],
        tokens("-(2)")
    );
}

#[test]
fn the_minus_sign_is_read_like_a_hyphen() {
    assert_eq!(vec![Ok(numeral("-90"))], tokens("\u{2212}90"));
    assert_eq!(
        vec![Ok(numeral("3")), Ok(Token::Sub), Ok(numeral("2"))],
        tokens("3 \u{2212} 2")
    );
}

#[test]
fn keywords_come_before_names() {
    assert_eq!(vec![Ok(Token::Sine)], tokens("sin"));
    assert_eq!(vec![Ok(name("sinus"))], tokens("sinus"));
    assert_eq!(vec![Ok(name("sin_x"))], tokens("sin_x"));
    assert_eq!(vec![Ok(Token::Sine), Ok(numeral("2"))], tokens("sin2"));
    assert_eq!(vec![Ok(Token::Let), Ok(name("letter"))], tokens("let letter"));
    assert_eq!(vec![Ok(Token::E), Ok(name("e"))], tokens("E e"));
    assert_eq!(vec![Ok(Token::Pi), Ok(Token::Pi)], tokens("pi \u{1D70B}"));
    assert_eq!(
        vec![
            Ok(Token::Log),
            Ok(Token::Cosine),
            Ok(Token::Rand),
            Ok(Token::Round),
            Ok(Token::Floor),
            Ok(Token::If),
            Ok(Token::Else),
            Ok(Token::Sqrt)
        ],
        tokens("log cos rand round floor if else sqrt")
    );
}

#[test]
fn symbols_and_their_other_glyphs() {
    assert_eq!(
        vec![
            Ok(Token::LeftArrow),
            Ok(Token::LeftArrow),
            Ok(Token::LeftArrow),
            Ok(Token::Comma),
            Ok(Token::Semicolon)
        ],
        tokens("=> \u{21D2} \u{27AA} , ;")
    );
    assert_eq!(
        vec![
            Ok(Token::Eq),
            Ok(Token::NotEq),
            Ok(Token::Equals),
            Ok(Token::LessThanEquals),
            Ok(Token::LessThanEquals),
            Ok(Token::LessThan),
            Ok(Token::GreaterThanEquals),
            Ok(Token::GreaterThanEquals),
            Ok(Token::GreaterThan)
        ],
        tokens("== != = <= \u{2264} < >= \u{2265} >")
    );
    assert_eq!(
        vec![
            Ok(Token::Plus),
            Ok(Token::Sub),
            Ok(Token::Mul),
            Ok(Token::Mul),
            Ok(Token::Div),
            Ok(Token::Div),
            Ok(Token::Pow),
            Ok(Token::Mod),
            Ok(Token::Mod)
        ],
        tokens("+ - * \u{00D7} / \u{00F7} ^ % mod")
    );
    assert_eq!(
        vec![
            Ok(name("\u{1D482}")),
            Ok(name("\u{1D483}")),
            Ok(name("\u{1D499}\u{1D49A}"))
        ],
        tokens("\u{1D482} \u{1D483} \u{1D499}\u{1D49A}")
    );
}

#[test]
fn matchers_take_what_they_say() {
    let mut bite = Bite::new("  abc123_x, rest");
    assert_eq!(None, bite.nibble(Chomp::alphabetic()));
    assert_eq!(Some("  "), bite.nibble(Chomp::whitespace()));
    assert_eq!(None, bite.nibble(Chomp::whitespace()));
    assert!(bite.can_nibble(Chomp::alphabetic()));
    assert!(!bite.can_nibble(Chomp::numeric()));
    assert_eq!(Some("abc"), bite.nibble(Chomp::alphabetic()));
    assert_eq!(Some("123"), bite.nibble(Chomp::numeric()));
    assert_eq!(Some("_x"), bite.nibble(Chomp::alphanumeric_extended()));
    assert_eq!(None, bite.nibble(Chomp::alphanumeric()));
    assert_eq!(Some(','), bite.swallow_char());
    assert_eq!(" rest", bite.as_str());
    let bite = bite.chomp(Chomp::whitespace());
    assert_eq!("rest", bite.as_str());
    let (matched, bite) = Chomp::literal_substring("re").consume(bite);
    assert_eq!(Some("re"), matched);
    let (matched, bite) = Chomp::literal("s").consume_until(bite);
    assert_eq!(None, matched);
    assert_eq!("st", bite.as_str());
    let (matched, mut bite) = Chomp::literal("st").consume(bite);
    assert_eq!(Some("st"), matched);
    assert!(bite.is_empty());
    assert_eq!(None, bite.swallow_char());
}

#[test]
fn alternatives_are_tried_in_order() {
    let either = Chomp::new(Or::new(Pattern::Char('%'), Pattern::Literal("mod")));
    assert!(either.is_match(Bite::new("mod 3")));
    let either = Chomp::char('%').or(Chomp::literal("mod"));
    assert!(!either.is_match(Bite::new("modulus")));
    let blank_first = Chomp::whitespace().or(Chomp::char('x'));
    assert!(!blank_first.is_match(Bite::new("x")));
    let mut bite = Bite::from("\u{00E9}t\u{00E9} 7");
    assert_eq!(Some("\u{00E9}t\u{00E9}"), bite.nibble(Chomp::alphanumeric()));
    assert_eq!(Some(" "), bite.nibble(Chomp::whitespace()));
    assert_eq!(Some("7"), bite.nibble(Chomp::any_number()));
}

#[test]
fn a_row_of_matchers_takes_all_or_nothing() {
    let mut bite = Bite::new("abc123 rest");
    let parts = bite.nibble_entire([
        Chomp::alphabetic(),
        Chomp::numeric(),
        Chomp::whitespace(),
    ]);
    assert_eq!(Some(["abc", "123", " "]), parts);
    assert_eq!("rest", bite.as_str());
    assert_eq!(
        None,
        bite.nibble_entire([Chomp::alphabetic(), Chomp::numeric()])
    );
    assert_eq!("rest", bite.as_str());
    let nothing: [Chomp<Pattern>; 0] = [];
    assert_eq!(Some([]), bite.nibble_entire(nothing));
    assert_eq!("rest", bite.as_str());
}

#[test]
fn a_matcher_can_give_the_first_character_alone() {
    use_consume_char();
}

fn use_consume_char() {
    let bite = Bite::new("abc 1");
    let taken = xpress_calc::parser::ChompMatcher::consume_char(
        &Pattern::Run(xpress_calc::parser::matchers::CharClass::Alphabetic),
        bite,
    );
    let (c, rest) = taken.unwrap();
    assert_eq!('a', c);
    assert_eq!("bc 1", rest.as_str());
    let refused = xpress_calc::parser::ChompMatcher::consume_char(&Pattern::AnyNumber, bite);
    assert!(refused.is_none());
    let either = Or::new(Pattern::AnyNumber, Pattern::Literal("abc"));
    let (c, rest) = xpress_calc::parser::ChompMatcher::consume_char(&either, bite).unwrap();
    assert_eq!('a', c);
    assert_eq!("bc 1", rest.as_str());
}

#[test]
fn counting_stops_at_the_first_refusal() {
    let is_a = |_: usize, c: char| c == 'a';
    assert_eq!(Some(3), xpress_calc::parser::matchers::matches(is_a, "aaab"));
    assert_eq!(Some(0), xpress_calc::parser::matchers::matches(is_a, "baaa"));
    assert_eq!(Some(4), xpress_calc::parser::matchers::matches(is_a, "aaaa"));
    assert_eq!(Some(0), xpress_calc::parser::matchers::matches(is_a, ""));
    assert_eq!(
        Some(4),
        xpress_calc::parser::matchers::matches(|i, _| i < 4, "\u{00E9}\u{00E9}\u{00E9}")
    );
    assert_eq!(
        Some(5),
        xpress_calc::parser::matchers::matches(|i, _| i < 4, "\u{2212}\u{00E9}x")
    );
    assert_eq!(
        Some(2),
        xpress_calc::parser::matchers::char_matches(
            |i, c| i == 0 && c == '\u{00E9}',
            "\u{00E9}\u{00E9}"
        )
    );
    assert_eq!(
        Some(3),
        xpress_calc::parser::matchers::char_matches(|_, c| c == '\u{2212}', "\u{2212}5")
    );
    assert_eq!(
        None,
        xpress_calc::parser::matchers::char_matches(|_, c| c == '\u{2212}', "5")
    );
    assert_eq!(Some(4), xpress_calc::parser::matchers::is_alphabetic("\u{00E9}\u{00E9}1"));
    assert_eq!(Some(3), xpress_calc::parser::matchers::is_whitespace("\u{3000}x"));
    assert_eq!(Some(3), xpress_calc::parser::matchers::char_is('\u{2212}', "\u{2212}y"));
    assert_eq!(
        Some(2),
        xpress_calc::parser::matchers::char_any(&['*', '\u{00D7}'], "\u{00D7}2")
    );
    assert_eq!(
        Some(3),
        xpress_calc::parser::matchers::literal_substring("\u{2264}", "\u{2264}1")
    );
    assert_eq!(None, xpress_calc::parser::matchers::char_matches(is_a, "\u{00E9}a"));
    assert_eq!(None, xpress_calc::parser::matchers::char_matches(is_a, ""));
    assert_eq!(Some(2), xpress_calc::parser::matchers::is_whitespace(" \tx"));
    assert_eq!(Some(1), xpress_calc::parser::matchers::is_alphabetic("x1"));
    assert_eq!(Some(2), xpress_calc::parser::matchers::is_alphanumeric("x1_"));
    assert_eq!(Some(3), xpress_calc::parser::matchers::is_alphanumeric_extended("x1_ "));
    assert_eq!(Some(2), xpress_calc::parser::matchers::is_numeric("12a"));
    assert_eq!(Some(3), xpress_calc::parser::matchers::literal("sin", "sin(1)"));
    assert_eq!(None, xpress_calc::parser::matchers::literal("sin", "sine"));
    assert_eq!(Some(2), xpress_calc::parser::matchers::literal_substring("=>", "=>x"));
    assert_eq!(Some(1), xpress_calc::parser::matchers::char_is('x', "xy"));
    assert_eq!(None, xpress_calc::parser::matchers::char_is('x', ""));
    assert_eq!(Some(1), xpress_calc::parser::matchers::char_any(&['+', '-'], "-1"));
    assert_eq!(None, xpress_calc::parser::matchers::char_any(&[], "-1"));
    assert_eq!(Some(4), xpress_calc::parser::matchers::any_number("-1.5.2"));
    assert_eq!(Some(2), xpress_calc::parser::matchers::any_number("-1 "));
    assert_eq!(None, xpress_calc::parser::matchers::any_number("- 1"));
    assert_eq!(None, xpress_calc::parser::matchers::any_number("-."));
    assert_eq!(None, xpress_calc::parser::matchers::any_number(""));
    assert_eq!(Some(5), xpress_calc::parser::matchers::any_number("\u{2212}.5"));
}
