use xpress_calc::compiler::BinaryOp;
use xpress_calc::compiler::Compiler;
use xpress_calc::compiler::Func0Op;
use xpress_calc::compiler::Func1Op;
use xpress_calc::compiler::RecursiveExpression;
use xpress_calc::number::Numeral;
use xpress_calc::pretty::pretty_print;
use xpress_calc::pretty::PrettyFormat;

fn tree(input: &str) -> RecursiveExpression {
    let tokens = xpress_calc::tokenize(input).unwrap();
    let mut compiler = Compiler::new(&tokens);
    compiler.compile_expression_tree().unwrap()
}

fn print(input: &str, which: PrettyFormat) -> String {
    pretty_print(tree(input), which)
}

fn literal(text: &str) -> Box<RecursiveExpression> {
    Box::new(RecursiveExpression::Literal(Numeral::parse(text).unwrap()))
}

fn local(name: &str) -> Box<RecursiveExpression> {
    Box::new(RecursiveExpression::Local(String::from(name)))
}

#[test]
fn blocks_in_the_three_formats() {
    let source = "{let x = 0; if (3 < 2) { let x = 3 }; x}";
    assert_eq!(
        "{ let x = 0; if (3 < 2) { let x = 3 }; x }",
        print(source, PrettyFormat::Spaced)
    );
    assert_eq!(
        "{let x=0;if (3<2) {let x=3};x}",
        print(source, PrettyFormat::Minified)
    );
    assert_eq!(
        "{\n    let x = 0;\n    if (3 < 2) {\n        let x = 3\n    };\n    x\n}",
        print(source, PrettyFormat::Indented)
    );
}

#[test]
fn empty_lists_keep_their_brackets() {
    assert_eq!("{ }", print("{}", PrettyFormat::Spaced));
    assert_eq!("{}", print("{}", PrettyFormat::Minified));
    assert_eq!("{\n}", print("{}", PrettyFormat::Indented));
    assert_eq!("f()", print("f()", PrettyFormat::Spaced));
    assert_eq!("() => x", print("()=>x", PrettyFormat::Spaced));
    assert_eq!("()=>x", print("() => x", PrettyFormat::Minified));
    assert_eq!("rand()", print("rand ( )", PrettyFormat::Spaced));
}

#[test]
fn lists_are_separated_and_not_ended_by_their_separator() {
    assert_eq!("f(1, 2, g(3))", print("f(1,2,g(3,),)", PrettyFormat::Spaced));
    assert_eq!("f(1,2,g(3))", print("f(1, 2, g(3))", PrettyFormat::Minified));
    assert_eq!("(x, y) => x + y", print("(x,y,)=>x+y", PrettyFormat::Indented));
    assert_eq!("{ 1; 2 }", print("{1;2;}", PrettyFormat::Spaced));
}

#[test]
fn operands_of_another_class_get_parentheses() {
    assert_eq!("2 * (20 - 10)", print("2(20 - 10)", PrettyFormat::Spaced));
    assert_eq!("(1 + 2) * 3", print("(1+2)*3", PrettyFormat::Spaced));
    assert_eq!("1 + (2 * 3)", print("1+2*3", PrettyFormat::Spaced));
    assert_eq!("2 * 3^2", print("2*3^2", PrettyFormat::Spaced));
    assert_eq!("1 + 2 + 3", print("1+2+3", PrettyFormat::Spaced));
    assert_eq!("1+(2*3)", print("1+2*3", PrettyFormat::Minified));
    assert_eq!("(1 + 2) < 3", print("1 + 2 < 3", PrettyFormat::Spaced));
    assert_eq!("2^3 % 4", print("2 ^ 3 % 4", PrettyFormat::Spaced));
    assert_eq!(
        "(x * x) + (2 * x) + 1",
        print("(x)(x) + 2x + 1", PrettyFormat::Spaced)
    );
}

#[test]
fn operators_and_functions_by_name() {
    assert_eq!(
        "a == b != c < d <= e > f >= g",
        print("a == b != c < d <= e > f >= g", PrettyFormat::Spaced)
    );
    assert_eq!("a - b / c", print("a - b / c", PrettyFormat::Spaced).replace(['(', ')'], ""));
    assert_eq!(
        "sin(cos(sqrt(log(round(floor(1))))))",
        print("sin(cos(sqrt(log(round(floor(1))))))", PrettyFormat::Spaced)
    );
    assert_eq!(
        "3.141592653589793 + 2.718281828459045",
        print("pi + E", PrettyFormat::Spaced)
    );
    assert_eq!(
        "if (x) { 1 } else { 2 }",
        print("if(x){1}else{2}", PrettyFormat::Spaced)
    );
    assert_eq!("let y = 0.30", print("let y=0.30", PrettyFormat::Spaced));
}

#[test]
fn a_tree_made_by_hand_is_printed_like_a_parsed_one() {
    let made = RecursiveExpression::AssignOp(
        String::from("r"),
        Box::new(RecursiveExpression::BinaryOp(
            Box::new(RecursiveExpression::Func1(Func1Op::Sqrt, local("x"))),
            BinaryOp::Mul,
            Box::new(RecursiveExpression::BinaryOp(
                Box::new(RecursiveExpression::Func0(Func0Op::Rand)),
                BinaryOp::Add,
                literal("1"),
            )),
        )),
    );
    assert_eq!(tree("let r = sqrt(x) * (rand() + 1)"), made);
    assert_eq!(
        "let r = sqrt(x) * (rand() + 1)",
        pretty_print(made, PrettyFormat::Spaced)
    );
}

#[test]
fn trimming_takes_separators_that_end_a_name() {
    let call = RecursiveExpression::FuncLocal(
        String::from("f"),
        vec![RecursiveExpression::Local(String::from("a, "))],
    );
    assert_eq!("f(a)", pretty_print(call, PrettyFormat::Spaced));
    let block = RecursiveExpression::Block(vec![RecursiveExpression::Local(String::from("a;"))]);
    assert_eq!("{ a }", pretty_print(block, PrettyFormat::Spaced));
}

#[test]
fn printing_again_changes_nothing() {
    for source in [
        "let calc= ( x, ) =>sin (90)",
        "{let x = 0; if (3 < 2) { let x = 3 }; x}",
        "let loop = (i, n, f) => { if (i < n) { f(); loop(i + 1, n, f); } else {} }",
        "(x)(x) + 2x + 1",
        "s1(1/sqrt(2), 1/sqrt(2))",
        "2 + 3 * 5 ^ 2 % 7 - 1",
        "if (1) { 5 } else { 8 }",
    ] {
        let once = xpress_calc::format(source).unwrap();
        let twice = xpress_calc::format(&once).unwrap();
        assert_eq!(once, twice, "{source}");
        assert_eq!(
            xpress_calc::compile(source).unwrap(),
            xpress_calc::compile(&once).unwrap(),
            "{source}"
        );
    }
}

#[test]
fn a_right_operand_of_the_same_class_keeps_its_parentheses() {
    for (source, text) in [
        ("2 - (3 - 4)", "2 - (3 - 4)"),
        ("(2 - 3) - 4", "2 - 3 - 4"),
        ("a == (b >= c)", "a == (b >= c)"),
        ("a ^ (b % c)", "a^(b % c)"),
        ("a ^ b % c", "a^b % c"),
        ("a + (b ^ c)", "a + b^c"),
        ("a * (b + c)", "a * (b + c)"),
        ("a / (b * c)", "a / (b * c)"),
    ] {
        let once = xpress_calc::format(source).unwrap();
        assert_eq!(text, once);
        assert_eq!(tree(source), tree(&once), "{source}");
        assert_eq!(
            xpress_calc::compile(source).unwrap(),
            xpress_calc::compile(&once).unwrap()
        );
    }
}

#[test]
fn a_binding_or_a_closure_as_an_operand_is_parenthesised() {
    for (source, text) in [
        ("1 + let x = 2", "1 + (let x = 2)"),
        ("(let x = 2) + 1", "(let x = 2) + 1"),
        ("let x = 2 + 1", "let x = 2 + 1"),
        ("2 * ((x) => x)", "2 * ((x) => x)"),
        ("((x) => x) * 2", "((x) => x) * 2"),
        ("(x) => x * 2", "(x) => x * 2"),
        ("f((x) => x, let y = 1)", "f((x) => x, let y = 1)"),
    ] {
        let once = xpress_calc::format(source).unwrap();
        assert_eq!(text, once);
        assert_eq!(tree(source), tree(&once), "{source}");
        assert_eq!(Ok(once.clone()), xpress_calc::format(&once));
    }
    assert_eq!("1+(let x=2)", print("1 + let x = 2", PrettyFormat::Minified));
}

#[test]
fn what_cannot_be_read_is_said() {
    assert_eq!(
        Err(String::from("ERROR: could not compile program: invalid program expression.")),
        xpress_calc::compile("")
    );
    assert_eq!(
        Err(String::from(
            "ERROR: could not compile program: failed to compile remaining tokens: [LiteralNum(2), Plus, Identifier(\"y\")]"
        )),
        xpress_calc::compile("x 2 + y")
    );
    assert_eq!(tree("1 * two"), tree("1 two"));
    assert_eq!(
        Err(String::from(
            "ERROR: could not compile program: failed to parse expression, unexpected token sequence: [Identifier(\"y\")]"
        )),
        xpress_calc::compile("x y")
    );
    assert_eq!(
        Err(String::from(
            "ERROR: could not compile program: failed to parse expression, unexpected token sequence: [CloseParen]"
        )),
        xpress_calc::compile("(")
    );
    assert_eq!(
        Err(String::from(
            "failed to parse expression, unexpected token sequence: [Plus]"
        )),
        xpress_calc::format("+")
    );
    assert_eq!(
        Err(String::from(
            "ERROR: could not interpret input tokens: Could not parse: ?"
        )),
        xpress_calc::format("1 ?")
    );
    assert_eq!(
        Err(String::from(
            "ERROR: could not interpret input tokens: Could not parse: ?"
        )),
        xpress_calc::compile("1 ?")
    );
}

#[test]
fn a_block_ends_where_a_statement_cannot_be_read() {
    assert_eq!(tree("{ 1 }"), tree("{ 1; 2 + }"));
}

#[test]
fn three_x_is_a_product_and_x_three_is_not() {
    assert_eq!(tree("3 * x"), tree("3x"));
    assert_eq!(tree("(x) * (x)"), tree("(x)(x)"));
    assert!(xpress_calc::compile("x 3").is_err());
    assert!(xpress_calc::compile("x y").is_err());
    assert!(xpress_calc::compile("(x) y").is_err());
}

#[test]
fn precedence_classes() {
    assert_eq!(0, BinaryOp::EQ.precedence());
    assert_eq!(0, BinaryOp::NEQ.precedence());
    assert_eq!(0, BinaryOp::LT.precedence());
    assert_eq!(0, BinaryOp::LTE.precedence());
    assert_eq!(0, BinaryOp::GT.precedence());
    assert_eq!(0, BinaryOp::GTE.precedence());
    assert_eq!(1, BinaryOp::Add.precedence());
    assert_eq!(1, BinaryOp::Sub.precedence());
    assert_eq!(2, BinaryOp::Mul.precedence());
    assert_eq!(2, BinaryOp::Div.precedence());
    assert_eq!(3, BinaryOp::Pow.precedence());
    assert_eq!(3, BinaryOp::Mod.precedence());
    assert_eq!(tree("(2 ^ 3) % 4"), tree("2 ^ 3 % 4"));
    assert_eq!(tree("1 + ((2 * 3) ^ 4)"), tree("1 + (2 * 3) ^ 4"));
    assert_eq!(tree("(1 + (2 * (3 ^ 4))) < 5"), tree("1 + 2 * 3 ^ 4 < 5"));
    assert_eq!(tree("((1 - 2) - 3) + 4"), tree("1 - 2 - 3 + 4"));
}

#[test]
fn the_character_tables_say_of_ascii_what_the_proofs_take_them_to_say() {
    assert!(' '.is_whitespace());
    for c in '!'..='~' {
        assert!(!c.is_whitespace(), "{c}");
    }
    for c in " (){},;=!<>+-*/^%.\n".chars() {
        assert!(!c.is_alphabetic(), "{c:?}");
        assert!(!c.is_numeric(), "{c:?}");
    }
}

#[test]
fn minified_text_is_not_always_read_back() {
    let minified = print("x - 2", PrettyFormat::Minified);
    assert_eq!("x-2", minified);
    assert_eq!(
        Err(String::from(
            "ERROR: could not compile program: failed to compile remaining tokens: [LiteralNum(-2)]"
        )),
        xpress_calc::compile(&minified)
    );
    let spaced = print("x - 2", PrettyFormat::Spaced);
    assert_eq!(
        xpress_calc::compile("x - 2").unwrap(),
        xpress_calc::compile(&spaced).unwrap()
    );
}

#[test]
fn a_name_of_digits_is_not_read_back() {
    let once = xpress_calc::format("1 2").unwrap();
    assert_eq!("1 * 2", once);
    assert_ne!(
        xpress_calc::compile("1 2").unwrap(),
        xpress_calc::compile(&once).unwrap()
    );
}

#[test]
fn plain_and_legible_trees_are_read_back() {
    for source in [
        "1",
        "x",
        "{}",
        "{ a; b; { c } }",
        "f()",
        "f(a, g(b, 1.5), (x) => x)",
        "() => { }",
        "(a, b) => a * b + 1",
        "let area = (r) => 3.14 * r ^ 2",
        "if (a < b) { a } else { b }",
        "if (x) { if (y) { 1 } }",
        "a - b - c",
        "(a - b) * c ^ d % e",
        "a * (b + c) * d",
        "a + b ^ c + d",
        "sin(cos(x)) + sqrt(rand() * 2)",
        "round(x / 3) == floor(y) != (1 + 2)",
        "round(x / 3) == floor(y) != (1 >= 2)",
        "-90 + 1",
        "2 - (3 - 4)",
        "0.3 + -0.2 - .5",
        "2 ^ -1",
        "f(-1, (let a = -2) * 3)",
    ] {
        let once = xpress_calc::format(source).unwrap();
        assert_eq!(Ok(once.clone()), xpress_calc::format(&once), "{source}");
        assert_eq!(
            xpress_calc::compile(source),
            xpress_calc::compile(&once),
            "{source}"
        );
        assert_eq!(tree(source), tree(&once), "{source}");
    }
}

#[test]
fn the_character_tables_agree_with_what_the_laws_take_for_granted() {
    assert!(xpress_calc::lexer::spelling::ascii_tables_agree());
}

#[test]
fn a_text_printed_anew_compiles_to_the_same_bytecode() {
    for source in [
        "let s = (x) => (x - 3) * (x - 2)",
        "s(s(3) + s(2))",
        "s1(1/sqrt(2), 1/sqrt(2))",
        "let s2 = (x, y, z) => (x - y) mod z",
        "{let x = 0; if (3 > 2) { let x = 3 }; x}",
        "let loop = (i, n, f) => { if (i < n) { f(); loop(i + 1, n, f); } else {} }",
        "loop(0, 9, () => let y = y + 1)",
        "2(20 - 10)",
        "(x)(x) + 2x + 1",
        "let calc = (x) => { let y = 2(x + 1); y^2 + y + 3 }",
        "sin(90",
        "pi * E - \u{1D70B}",
        "a \u{00D7} b \u{00F7} c \u{2212} d \u{2264} e",
        "1 - (2 - (3 - (4 - 5)))",
        "1 - 2 - 3 - 4 - 5",
        "a ^ (b ^ (c % d)) ^ e",
        "(a == b) == (c == d)",
        "x_1 + _y2 * sinus",
        "-1 - -2 - (-3)",
        "1 + (() => 1)",
    ] {
        let once = xpress_calc::format(source).unwrap();
        assert_eq!(
            xpress_calc::compile(source),
            xpress_calc::compile(&once),
            "{source}"
        );
        assert_eq!(Ok(once.clone()), xpress_calc::format(&once), "{source}");
    }
}

#[test]
fn a_checked_format_stands_for_its_text() {
    for source in [
        "let calc= ( x, ) =>sin (90)",
        "2 - (3 - 4)",
        "-5 + 1",
        "1 + let x = 2",
        "{ a; b }",
        "\u{1D482} + _b",
    ] {
        let text = xpress_calc::roundtrip::format_checked(source).unwrap();
        assert_eq!(Ok(text.clone()), xpress_calc::format(source));
        assert_eq!(xpress_calc::compile(source), xpress_calc::compile(&text));
        assert_eq!(Ok(text.clone()), xpress_calc::format(&text));
    }
    assert_eq!(None, xpress_calc::roundtrip::format_checked("1 2"));
    assert_eq!(None, xpress_calc::roundtrip::format_checked("1 2x"));
    assert_eq!(None, xpress_calc::roundtrip::format_checked("+"));
    assert_eq!(None, xpress_calc::roundtrip::format_checked("1 ?"));
    assert_eq!(
        Some(String::from("1 * x")),
        xpress_calc::roundtrip::format_checked("1 x")
    );
}
