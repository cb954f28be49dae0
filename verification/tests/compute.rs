use xpress_calc::number::Number;
use xpress_calc::vm::machine::ArithmeticOp;
use xpress_calc::vm::machine::UnaryOp;
use xpress_calc::vm::Action;
use xpress_calc::vm::Instruction;
use xpress_calc::vm::Operation;
use xpress_calc::vm::Value;
use xpress_calc::vm::VM;

fn answer(operation: &Operation) -> Number {
    let value: f64 = match operation {
        Operation::Convert(numeral) => numeral.as_str().parse::<f64>().unwrap(),
        Operation::Unary(op, x) => {
            let x = f64::from_bits(x.to_bits());
            match op {
                UnaryOp::Sine => x.to_radians().sin(),
                UnaryOp::Cosine => x.to_radians().cos(),
                UnaryOp::Log => x.log10(),
                UnaryOp::Round => x.round(),
                UnaryOp::Floor => x.floor(),
            }
        }
        Operation::Binary(op, lhs, rhs) => {
            let lhs = f64::from_bits(lhs.to_bits());
            let rhs = f64::from_bits(rhs.to_bits());
            match op {
                ArithmeticOp::Add => lhs + rhs,
                ArithmeticOp::Sub => lhs - rhs,
                ArithmeticOp::Mul => lhs * rhs,
                ArithmeticOp::Div => lhs / rhs,
                ArithmeticOp::Mod => lhs % rhs,
                ArithmeticOp::Pow => lhs.powf(rhs),
            }
        }
    };
    Number::from_bits(value.to_bits())
}

fn run(vm: &mut VM, program: &Vec<Instruction>) -> Result<Vec<String>, String> {
    let mut warnings = vec![];
    vm.load(program);
    loop {
        match vm.step() {
            Action::Proceed => {}
            Action::Evaluate(operation) => vm.push(Value::Number(answer(&operation))),
            Action::Warn(msg) => warnings.push(msg),
            Action::Finish => return Ok(warnings),
            Action::Abort(msg) => return Err(msg),
        }
    }
}

fn result(vm: &mut VM) -> Option<f64> {
    vm.pop_result().map(|x| f64::from_bits(x.to_bits()))
}

fn compute(vm: &mut VM, input: &str) -> Option<f64> {
    let program = match xpress_calc::compile(input) {
        Ok(value) => value,
        Err(msg) => {
            panic!("{}", msg);
        }
    };

    match run(vm, &program) {
        Ok(_) => {}
        Err(err) => {
            panic!("ERROR: could not compute expression: {err}");
        }
    }

    result(vm)
}

fn to_fixed(x: f64, decimals: usize) -> f64 {
    let factor = 10i32.pow(decimals as u32) as f64;
    (x * factor).round() / factor
}

#[test]
fn can_compute_define_fn() {
    let mut vm = VM::new();
    assert_eq!(None, compute(&mut vm, "let s = (x) => (x - 3) * (x - 2)"));
    assert_eq!(0.0, compute(&mut vm, "s(3)").unwrap().round());
    assert_eq!(0.0, compute(&mut vm, "s(2)").unwrap().round());
    assert_eq!(6.0, compute(&mut vm, "s(0)").unwrap().round());
    assert_eq!(6.0, compute(&mut vm, "s(s(3) + s(2))").unwrap().round());

    assert_eq!(None, compute(&mut vm, "let s1 = (x, y) => x^2 + y^2"));
    assert_eq!(
        1.0,
        to_fixed(compute(&mut vm, "s1(1/sqrt(2), 1/sqrt(2))").unwrap(), 2)
    );
    assert_eq!(
        1.0,
        to_fixed(compute(&mut vm, "s1(sin(40), cos(40))").unwrap(), 2)
    );
    assert_eq!(
        1.0,
        to_fixed(compute(&mut vm, "s1(sin(90), cos(90))").unwrap(), 2)
    );
    assert_eq!(
        None,
        compute(&mut vm, "let s2 = (x, y, z) => (x - y) mod z")
    );
    assert_eq!(1.0, compute(&mut vm, "s2(10, 1, 4)").unwrap().round());
    assert_eq!(2.0, compute(&mut vm, "s2(20, 9, 3)").unwrap().round());
}

#[test]
fn can_compute_sin() {
    let mut vm = VM::new();
    assert_eq!(0.0, compute(&mut vm, "sin(0)").unwrap().round());
    assert_eq!(1.0, compute(&mut vm, "sin(90)").unwrap().round());
    assert_eq!(0.0, compute(&mut vm, "sin(180)").unwrap().round());
    assert_eq!(-1.0, compute(&mut vm, "sin(270)").unwrap().round());

    assert_eq!(0.0, compute(&mut vm, "sin(90 + 90)").unwrap().round());
    assert_eq!(2.0, compute(&mut vm, "sin(90) + sin(90)").unwrap().round());
}

#[test]
fn can_compute_log() {
    let mut vm = VM::new();
    assert_eq!(3.0, compute(&mut vm, "log(1000)").unwrap().round());
}

#[test]
fn can_compute_add() {
    let mut vm = VM::new();
    assert_eq!(110.0, compute(&mut vm, "90 + 20").unwrap().round());
    assert_eq!(3.0, compute(&mut vm, "1 + 2").unwrap().round());
}

#[test]
fn can_compute_add_brackets() {
    let mut vm = VM::new();
    assert_eq!(3.0, compute(&mut vm, "(1) + (1) + (1)").unwrap().round());
    assert_eq!(
        10.0,
        compute(&mut vm, "( 1 ) + (2) + (3 ) + ( 4)")
            .unwrap()
            .round()
    );
    assert_eq!(16.0, compute(&mut vm, "( 8 + 8 )").unwrap().round());
    assert_eq!(4.0, compute(&mut vm, " ( 2 + 2 ) ").unwrap().round());
}

#[test]
fn can_compute_sub() {
    let mut vm = VM::new();
    assert_eq!(1.0, compute(&mut vm, "3 - 2").unwrap().round());
    assert_eq!(-80.0, compute(&mut vm, "20 - 100").unwrap().round());
}

#[test]
fn can_compute_pow() {
    let mut vm = VM::new();
    assert_eq!(9.0, compute(&mut vm, "3 ^ 2").unwrap().round());
    assert_eq!(1024.0, compute(&mut vm, "2^10").unwrap().round());
}

#[test]
fn can_compute_lt() {
    let mut vm = VM::new();
    assert_eq!(0.0, compute(&mut vm, "3 < 2").unwrap().round());
    assert_eq!(0.0, compute(&mut vm, "2 < 2").unwrap().round());
    assert_eq!(1.0, compute(&mut vm, "1 < 2").unwrap().round());

    assert_eq!(0.0, compute(&mut vm, "3 <= 2").unwrap().round());
    assert_eq!(1.0, compute(&mut vm, "2 <= 2").unwrap().round());
    assert_eq!(1.0, compute(&mut vm, "1 <= 2").unwrap().round());
}

#[test]
fn can_compute_gt() {
    let mut vm = VM::new();
    assert_eq!(1.0, compute(&mut vm, "3 > 2").unwrap().round());
    assert_eq!(0.0, compute(&mut vm, "2 > 2").unwrap().round());
    assert_eq!(0.0, compute(&mut vm, "1 > 2").unwrap().round());

    assert_eq!(1.0, compute(&mut vm, "3 >= 2").unwrap().round());
    assert_eq!(1.0, compute(&mut vm, "2 >= 2").unwrap().round());
    assert_eq!(0.0, compute(&mut vm, "1 >= 2").unwrap().round());
}

#[test]
fn can_compute_if_statements() {
    let mut vm = VM::new();
    assert_eq!(
        0.0,
        compute(&mut vm, "{let x = 0; if (3 < 2) { let x = 3 }; x}")
            .unwrap()
            .round()
    );
    assert_eq!(
        3.0,
        compute(&mut vm, "{let x = 0; if (3 > 2) { let x = 3 }; x}")
            .unwrap()
            .round()
    );
}

#[test]
fn can_compute_if_else_expressions() {
    let mut vm = VM::new();
    assert_eq!(
        5.0,
        compute(&mut vm, "if (1) { 5 } else { 8 }").unwrap().round()
    );
    assert_eq!(
        8.0,
        compute(&mut vm, "if (0) { 5 } else { 8 }").unwrap().round()
    );
}

#[test]
fn can_compute_loop_program() {
    let mut vm = VM::new();
    assert_eq!(
        None,
        compute(
            &mut vm,
            "let loop = (i, n, f) => { if (i < n) { f(); loop(i + 1, n, f); } else {} }"
        )
    );
    assert_eq!(None, compute(&mut vm, "let y = 0"));
    assert_eq!(None, compute(&mut vm, "loop(0, 9, () => let y = y + 1)"));
    assert_eq!(9.0, compute(&mut vm, "y").unwrap().round());
}

#[test]
fn can_compute_sqrt() {
    let mut vm = VM::new();
    assert_eq!(10.0, compute(&mut vm, "sqrt(100)").unwrap().round());
}

#[test]
fn can_compute_multiple() {
    let mut vm = VM::new();
    assert_eq!(2.0, compute(&mut vm, "3 - sin(90)").unwrap().round());
}

#[test]
fn can_compute_with_basic_parens() {
    let mut vm = VM::new();
    assert_eq!(20.0, compute(&mut vm, "2 * (20 - 10)").unwrap().round());
    assert_eq!(30.0, compute(&mut vm, "(2 * 20) - 10").unwrap().round());
}

#[test]
fn can_compute_with_implicit_multiplication() {
    let mut vm = VM::new();
    assert_eq!(20.0, compute(&mut vm, "2(20 - 10)").unwrap().round());
    assert_eq!(None, compute(&mut vm, "let x = 3"));
    assert_eq!(16.0, compute(&mut vm, "(x)(x) + 2x + 1").unwrap().round());
}

#[test]
fn can_compute_with_precedence() {
    let mut vm = VM::new();
    assert_eq!(11.0, compute(&mut vm, "2 * 3 + 5").unwrap().round());
    assert_eq!(17.0, compute(&mut vm, "2 + 3 * 5").unwrap().round());
}

#[test]
fn can_compute_variables() {
    let mut vm = VM::new();
    compute(&mut vm, "let x = 1 + 2");
    assert_eq!(5.0, compute(&mut vm, "x + 2").unwrap().round());
}

#[test]
fn can_compute_blocks() {
    let mut vm = VM::new();
    compute(&mut vm, "let x = { let y = 1 + 2; y + 3 }");
    assert_eq!(6.0, compute(&mut vm, "x").unwrap().round());
}

#[test]
fn can_compute_block_fn() {
    let mut vm = VM::new();
    compute(
        &mut vm,
        "let calc = (x) => { let y = 2(x + 1); y^2 + y + 3 }",
    );
    assert_eq!(45.0, compute(&mut vm, "calc(2)").unwrap().round());

    compute(&mut vm, "let y = 15");
    compute(&mut vm, "let calc2 = ( x ) => { let y = y * x }");
    assert_eq!(None, compute(&mut vm, "calc2(3)"));
    assert_eq!(45.0, compute(&mut vm, "y").unwrap().round());

    compute(&mut vm, "let calc = (x, y) => { x^2 + y^2 }");
    assert_eq!(13.0, compute(&mut vm, "calc(2, 3)").unwrap().round());

    compute(&mut vm, "let calc = () => {}");
    compute(&mut vm, "calc()");
    assert!(vm.pop_result().is_none());
}
