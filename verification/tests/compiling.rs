use xpress_calc::compiler::Compiler;
use xpress_calc::lexer;
use xpress_calc::lexer::Token;
use xpress_calc::number::Numeral;
use xpress_calc::vm::Instruction;

/// The numeral `text`, which must stand for the double `value`.
fn numeral(value: f64, text: &str) -> Numeral {
    let numeral = Numeral::parse(text).unwrap();
    assert_eq!(value, numeral.as_str().parse::<f64>().unwrap());
    numeral
}

fn instr_iter(input: &str) -> Vec<Instruction> {
    let tokens: Result<Vec<_>, _> = lexer::tokenize(input.into()).into_iter().collect();
    let tokens: Vec<Token> = tokens.unwrap();

    let mut compiler = Compiler::new(&tokens);
    let instructions = compiler.compile().expect("failed compile");
    instructions
}

#[test]
fn can_parse_negatives_and_decimals() {
    let mut tokens = lexer::tokenize("-90".into()).into_iter();
    assert_eq!(Some(Ok(Token::LiteralNum(numeral(-90.0, "-90")))), tokens.next());
    assert_eq!(None, tokens.next());

    let mut tokens = lexer::tokenize("0.3".into()).into_iter();
    assert_eq!(Some(Ok(Token::LiteralNum(numeral(0.3, "0.3")))), tokens.next());
    assert_eq!(None, tokens.next());

    let mut tokens = lexer::tokenize("0.3 - 0.2".into()).into_iter();
    assert_eq!(Some(Ok(Token::LiteralNum(numeral(0.3, "0.3")))), tokens.next());
    assert_eq!(Some(Ok(Token::Sub)), tokens.next());
    assert_eq!(Some(Ok(Token::LiteralNum(numeral(0.2, "0.2")))), tokens.next());
    assert_eq!(None, tokens.next());

    let mut tokens = lexer::tokenize("0.3 -0.2".into()).into_iter();
    assert_eq!(Some(Ok(Token::LiteralNum(numeral(0.3, "0.3")))), tokens.next());
    assert_eq!(Some(Ok(Token::Sub)), tokens.next());
    assert_eq!(Some(Ok(Token::LiteralNum(numeral(0.2, "0.2")))), tokens.next());
    assert_eq!(None, tokens.next());

    let mut tokens = lexer::tokenize("0.3 + -0.2".into()).into_iter();
    assert_eq!(Some(Ok(Token::LiteralNum(numeral(0.3, "0.3")))), tokens.next());
    assert_eq!(Some(Ok(Token::Plus)), tokens.next());
    assert_eq!(Some(Ok(Token::LiteralNum(numeral(-0.2, "-0.2")))), tokens.next());
    assert_eq!(None, tokens.next());
}

#[test]
fn can_parse_sin() {
    let mut tokens = lexer::tokenize("sin(90)".into()).into_iter();

    assert_eq!(Some(Ok(Token::Sine)), tokens.next());
    assert_eq!(Some(Ok(Token::OpenParen)), tokens.next());
    assert_eq!(Some(Ok(Token::LiteralNum(numeral(90.0, "90")))), tokens.next());
    assert_eq!(Some(Ok(Token::CloseParen)), tokens.next());
    assert_eq!(None, tokens.next());
}

#[test]
fn can_compile_define_fn() {
    let mut instructions = instr_iter("let s = (x) => sin(x) + x").into_iter();

    assert_eq!(
        Some(Instruction::PushRoutine(vec![
            Instruction::ShadowAssign(String::from("x")),
            Instruction::LoadLocal(String::from("x")),
            Instruction::Sine,
            Instruction::LoadLocal(String::from("x")),
            Instruction::Add
        ])),
        instructions.next()
    );
    assert_eq!(
        Some(Instruction::Assign(String::from("s"))),
        instructions.next()
    );
    assert_eq!(None, instructions.next());
}

#[test]
fn can_compile_sin() {
    let mut instructions = instr_iter("sin(90)").into_iter();

    assert_eq!(Some(Instruction::Push(numeral(90.0, "90"))), instructions.next());
    assert_eq!(Some(Instruction::Sine), instructions.next());
    assert_eq!(None, instructions.next());
}

#[test]
fn can_compile_add() {
    let mut instructions = instr_iter("90 + 20").into_iter();

    assert_eq!(Some(Instruction::Push(numeral(90.0, "90"))), instructions.next());
    assert_eq!(Some(Instruction::Push(numeral(20.0, "20"))), instructions.next());
    assert_eq!(Some(Instruction::Add), instructions.next());
    assert_eq!(None, instructions.next());

    let mut instructions = instr_iter("3+2").into_iter();

    assert_eq!(Some(Instruction::Push(numeral(3.0, "3"))), instructions.next());
    assert_eq!(Some(Instruction::Push(numeral(2.0, "2"))), instructions.next());
    assert_eq!(Some(Instruction::Add), instructions.next());
    assert_eq!(None, instructions.next());
}

#[test]
fn can_compile_sub() {
    let mut instructions = instr_iter("20 - 10").into_iter();

    assert_eq!(Some(Instruction::Push(numeral(20.0, "20"))), instructions.next());
    assert_eq!(Some(Instruction::Push(numeral(10.0, "10"))), instructions.next());
    assert_eq!(Some(Instruction::Sub), instructions.next());
    assert_eq!(None, instructions.next());
}

#[test]
fn can_compile_multiple() {
    let mut instructions = instr_iter("3 - sin(90)").into_iter();

    assert_eq!(Some(Instruction::Push(numeral(3.0, "3"))), instructions.next());
    assert_eq!(Some(Instruction::Push(numeral(90.0, "90"))), instructions.next());
    assert_eq!(Some(Instruction::Sine), instructions.next());
    assert_eq!(Some(Instruction::Sub), instructions.next());
    assert_eq!(None, instructions.next());
}

#[test]
fn can_compile_with_basic_parens() {
    let mut instructions = instr_iter("2 + (20 - 10)").into_iter();

    assert_eq!(Some(Instruction::Push(numeral(2.0, "2"))), instructions.next());
    assert_eq!(Some(Instruction::Push(numeral(20.0, "20"))), instructions.next());
    assert_eq!(Some(Instruction::Push(numeral(10.0, "10"))), instructions.next());
    assert_eq!(Some(Instruction::Sub), instructions.next());
    assert_eq!(Some(Instruction::Add), instructions.next());
    assert_eq!(None, instructions.next());
}
