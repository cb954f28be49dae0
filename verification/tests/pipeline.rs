use xpress_calc::parser::Bite;
use xpress_calc::parser::Chomp;

#[test]
fn can_pretty_print() {
    let formatted = xpress_calc::format("let calc= ( x, ) =>sin (90)").unwrap();
    assert_eq!("let calc = (x) => sin(90)", formatted);
}

#[test]
fn can_parse() {
    let source = Bite::new("x + y = z");
    let bite = source;

    let mut bite = bite.chomp(Chomp::whitespace());
    let lhs = bite.nibble(Chomp::alphanumeric()).unwrap();

    let mut bite = bite.chomp(Chomp::whitespace());
    let op = bite.nibble(Chomp::char_any(&['+', '-', '*', '/'])).unwrap();

    let mut bite = bite.chomp(Chomp::whitespace());
    let rhs = bite.nibble(Chomp::alphanumeric()).unwrap();

    let mut bite = bite.chomp(Chomp::whitespace());
    let eq = bite.nibble(Chomp::char('=')).unwrap();

    let mut bite = bite.chomp(Chomp::whitespace());
    let result = bite.nibble(Chomp::alphanumeric()).unwrap();

    assert_eq!(&[lhs, op, rhs, eq, result], &["x", "+", "y", "=", "z"]);
}
