use xpress_calc::number::Number;
use xpress_calc::number::Numeral;
use xpress_calc::vm::machine::ArithmeticOp;
use xpress_calc::vm::machine::UnaryOp;
use xpress_calc::vm::scope::ScopeStack;
use xpress_calc::vm::Action;
use xpress_calc::vm::Instruction;
use xpress_calc::vm::Operation;
use xpress_calc::vm::Value;
use xpress_calc::vm::VM;

fn answer(operation: &Operation) -> Number {
    let value: f64 = match operation {
        Operation::Convert(numeral) => numeral.as_str().parse::<f64>().unwrap(),
        Operation::Unary(op, x) => {
            let x = f64::from_bits(x.to_bits());
            match op {
                UnaryOp::Sine => x.to_radians().sin(),
                UnaryOp::Cosine => x.to_radians().cos(),
                UnaryOp::Log => x.log10(),
                UnaryOp::Round => x.round(),
                UnaryOp::Floor => x.floor(),
            }
        }
        Operation::Binary(op, lhs, rhs) => {
            let lhs = f64::from_bits(lhs.to_bits());
            let rhs = f64::from_bits(rhs.to_bits());
            match op {
                ArithmeticOp::Add => lhs + rhs,
                ArithmeticOp::Sub => lhs - rhs,
                ArithmeticOp::Mul => lhs * rhs,
                ArithmeticOp::Div => lhs / rhs,
                ArithmeticOp::Mod => lhs % rhs,
                ArithmeticOp::Pow => lhs.powf(rhs),
            }
        }
    };
    Number::from_bits(value.to_bits())
}

fn run(vm: &mut VM, program: &Vec<Instruction>) -> Result<Vec<String>, String> {
    let mut warnings = vec![];
    vm.load(program);
    loop {
        match vm.step() {
            Action::Proceed => {}
            Action::Evaluate(operation) => vm.push(Value::Number(answer(&operation))),
            Action::Warn(msg) => warnings.push(msg),
            Action::Finish => return Ok(warnings),
            Action::Abort(msg) => return Err(msg),
        }
    }
}

fn result(vm: &mut VM) -> Option<f64> {
    vm.pop_result().map(|x| f64::from_bits(x.to_bits()))
}

fn compute(vm: &mut VM, input: &str) -> Option<f64> {
    let program = match xpress_calc::compile(input) {
        Ok(value) => value,
        Err(msg) => {
            panic!("{}", msg);
        }
    };

    match run(vm, &program) {
        Ok(_) => {}
        Err(err) => {
            panic!("ERROR: could not compute expression: {err}");
        }
    }

    result(vm)
}

fn push(text: &str) -> Instruction {
    Instruction::Push(Numeral::parse(text).unwrap())
}

fn load(name: &str) -> Instruction {
    Instruction::LoadLocal(String::from(name))
}

fn number(value: &Value) -> f64 {
    f64::from_bits(value.as_number().to_bits())
}

#[test]
fn a_missing_operand_is_fatal() {
    let mut vm = VM::new();
    assert_eq!(Err(String::from("missing rhs")), run(&mut vm, &vec![Instruction::Add]));
    assert_eq!(
        Err(String::from("missing lhs")),
        run(&mut vm, &vec![push("1"), Instruction::Mul])
    );
    assert_eq!(None, result(&mut vm));
    assert_eq!(
        Err(String::from("missing rhs")),
        run(&mut vm, &vec![Instruction::CmpLT])
    );
    assert_eq!(
        Err(String::from("missing lhs")),
        run(&mut vm, &vec![push("1"), Instruction::CmpEQ])
    );
    assert_eq!(
        Err(String::from("missing operand")),
        run(&mut vm, &vec![Instruction::Sine])
    );
    assert_eq!(
        Err(String::from("missing operand")),
        run(&mut vm, &vec![Instruction::SkipIfNot(vec![])])
    );
    assert_eq!(
        Err(String::from("missing operand")),
        run(&mut vm, &vec![Instruction::IfElse(vec![], vec![])])
    );
    assert_eq!(
        Err(String::from("missing assignment value")),
        run(&mut vm, &vec![Instruction::Assign(String::from("x"))])
    );
    assert_eq!(
        Err(String::from("missing assignment value")),
        run(&mut vm, &vec![Instruction::ShadowAssign(String::from("x"))])
    );
    assert_eq!(
        Err(String::from("no scope to leave")),
        run(&mut vm, &vec![Instruction::Leave])
    );
    assert_eq!(Some(3.0), compute(&mut vm, "1 + 2"));
}

#[test]
fn a_missing_variable_counts_as_zero() {
    let mut vm = VM::new();
    let program = xpress_calc::compile("x + 2").unwrap();
    assert_eq!(
        Ok(vec![String::from("WARN: missing variable 'x'")]),
        run(&mut vm, &program)
    );
    assert_eq!(Some(2.0), result(&mut vm));
}

#[test]
fn what_is_no_routine_cannot_be_called() {
    let mut vm = VM::new();
    assert_eq!(None, compute(&mut vm, "let f = 3"));
    let program = xpress_calc::compile("f()").unwrap();
    assert_eq!(
        Ok(vec![String::from("WARN: current value is not callable")]),
        run(&mut vm, &program)
    );
    assert_eq!(None, result(&mut vm));
    assert_eq!(
        Ok(vec![String::from("WARN: no current value to call")]),
        run(&mut vm, &vec![Instruction::CallRoutine])
    );
}

#[test]
fn a_failed_call_takes_its_scope_with_it() {
    let mut vm = VM::new();
    let routine = vec![Instruction::ShadowAssign(String::from("x")), Instruction::Add];
    let program = vec![push("5"), Instruction::PushRoutine(routine), Instruction::CallRoutine];
    assert_eq!(Err(String::from("missing rhs")), run(&mut vm, &program));
    assert_eq!(
        Ok(vec![String::from("WARN: missing variable 'x'")]),
        run(&mut vm, &vec![load("x")])
    );
    assert_eq!(Some(0.0), result(&mut vm));
}

#[test]
fn a_failed_block_in_a_call_leaves_one_scope_behind() {
    let mut vm = VM::new();
    let routine = vec![
        Instruction::ShadowAssign(String::from("x")),
        Instruction::Enter,
        Instruction::Add,
    ];
    let program = vec![push("5"), Instruction::PushRoutine(routine), Instruction::CallRoutine];
    assert_eq!(Err(String::from("missing rhs")), run(&mut vm, &program));
    assert_eq!(Ok(vec![]), run(&mut vm, &vec![load("x")]));
    assert_eq!(Some(5.0), result(&mut vm));
    assert_eq!(Ok(vec![]), run(&mut vm, &vec![Instruction::Leave]));
    assert_eq!(
        Ok(vec![String::from("WARN: missing variable 'x'")]),
        run(&mut vm, &vec![load("x")])
    );
}

#[test]
fn a_parameter_shadows_and_an_assignment_reaches_out() {
    let mut vm = VM::new();
    assert_eq!(None, compute(&mut vm, "let x = 1"));
    assert_eq!(None, compute(&mut vm, "let y = 15"));
    assert_eq!(None, compute(&mut vm, "let f = (x) => { let y = y * x; let z = 7; x }"));
    assert_eq!(Some(3.0), compute(&mut vm, "f(3)"));
    assert_eq!(Some(1.0), compute(&mut vm, "x"));
    assert_eq!(Some(45.0), compute(&mut vm, "y"));
    let program = xpress_calc::compile("z").unwrap();
    assert_eq!(
        Ok(vec![String::from("WARN: missing variable 'z'")]),
        run(&mut vm, &program)
    );
}

#[test]
fn free_names_are_those_of_the_caller() {
    let mut vm = VM::new();
    assert_eq!(None, compute(&mut vm, "let get = () => a"));
    assert_eq!(None, compute(&mut vm, "let with = (a) => get()"));
    assert_eq!(Some(4.0), compute(&mut vm, "with(4)"));
}

#[test]
fn a_routine_counts_as_one_if_it_has_code() {
    let mut vm = VM::new();
    assert_eq!(
        Ok(vec![]),
        run(&mut vm, &vec![Instruction::PushRoutine(vec![Instruction::Enter])])
    );
    assert!(vm.peek_routine().is_some());
    assert_eq!(Some(1.0), result(&mut vm));
    assert!(vm.peek_routine().is_none());
    assert_eq!(Ok(vec![]), run(&mut vm, &vec![Instruction::PushRoutine(vec![])]));
    assert_eq!(Some(&vec![]), vm.peek_routine());
    assert_eq!(Some(0.0), result(&mut vm));
    assert_eq!(Some(5.0), compute(&mut vm, "if ((x) => x) { 5 } else { 8 }"));
    assert_eq!(1.0, number(&Value::Routine(vec![Instruction::Leave])));
    assert_eq!(0.0, number(&Value::Routine(vec![])));
    assert_eq!(2.5, number(&Value::Number(Number::from_bits(2.5f64.to_bits()))));
    assert_eq!(1.0, number(&Value::Routine(vec![Instruction::Leave]).clone()));
}

#[test]
fn division_by_zero_is_no_error() {
    let mut vm = VM::new();
    assert_eq!(Some(f64::INFINITY), compute(&mut vm, "1 / 0"));
    assert!(compute(&mut vm, "0 / 0").unwrap().is_nan());
    assert_eq!(Some(0.0), compute(&mut vm, "0 / 0 == 0 / 0"));
    assert_eq!(Some(1.0), compute(&mut vm, "0 / 0 != 0 / 0"));
    assert_eq!(Some(0.0), compute(&mut vm, "0 / 0 < 1"));
    assert_eq!(Some(0.0), compute(&mut vm, "0 / 0 >= 1"));
    assert_eq!(Some(5.0), compute(&mut vm, "if (0 / 0) { 5 } else { 8 }"));
    assert_eq!(Some(1.0), compute(&mut vm, "0 == 0 * (0 - 1)"));
    assert_eq!(Some(8.0), compute(&mut vm, "if (0 * (0 - 1)) { 5 } else { 8 }"));
}

#[test]
fn the_host_is_asked_with_the_operands_in_order() {
    let mut vm = VM::new();
    vm.load(&vec![push("7"), push("2"), Instruction::Sub, Instruction::Floor]);
    assert!(matches!(vm.step(), Action::Evaluate(Operation::Convert(x)) if x.as_str() == "7"));
    vm.push(Value::Number(Number::from_bits(7.0f64.to_bits())));
    assert!(matches!(vm.step(), Action::Evaluate(Operation::Convert(x)) if x.as_str() == "2"));
    vm.push(Value::Number(Number::from_bits(2.0f64.to_bits())));
    match vm.step() {
        Action::Evaluate(Operation::Binary(ArithmeticOp::Sub, lhs, rhs)) => {
            assert_eq!(7.0f64.to_bits(), lhs.to_bits());
            assert_eq!(2.0f64.to_bits(), rhs.to_bits());
        }
        other => panic!("{other:?}"),
    }
    vm.push(Value::Number(Number::from_bits(5.5f64.to_bits())));
    match vm.step() {
        Action::Evaluate(Operation::Unary(UnaryOp::Floor, x)) => {
            assert_eq!(5.5f64.to_bits(), x.to_bits());
        }
        other => panic!("{other:?}"),
    }
    assert!(!vm.next_is_random());
    assert!(matches!(vm.step(), Action::Proceed));
    assert!(matches!(vm.step(), Action::Finish));
    assert!(matches!(vm.step(), Action::Finish));
}

#[test]
fn the_same_sample_gives_the_same_step() {
    let mut first = VM::new();
    let mut second = VM::new();
    first.load(&vec![Instruction::PushRandom]);
    second.load(&vec![Instruction::PushRandom]);
    assert!(first.next_is_random());
    assert!(matches!(first.step_with(0xC000_0000), Action::Proceed));
    assert!(matches!(second.step_with(0xC000_0000), Action::Proceed));
    assert_eq!(Some(0.75), result(&mut first));
    assert_eq!(Some(0.75), result(&mut second));
}

#[test]
fn the_generator_repeats_under_its_seed() {
    let mut first = VM::new();
    let mut second = VM::new();
    let mut expected: tiny_rng::Rng = tiny_rng::Rand::from_seed(0);
    for _ in 0..20 {
        let a = compute(&mut first, "rand()").unwrap();
        let b = compute(&mut second, "rand()").unwrap();
        assert_eq!(a, b);
        assert!(a >= 0.0 && a < 1.0);
        assert_eq!(tiny_rng::Rand::rand_f64(&mut expected), a);
    }
}

#[test]
fn the_same_expression_gives_the_same_value_again() {
    let mut vm = VM::new();
    for source in ["2 + 3 * 5", "sin(30) ^ 2 + cos(30) ^ 2", "{ 1; 2; 3 } % 2", "10 / 4 - 2.5"] {
        let first = xpress_calc::compile(source).unwrap();
        let second = xpress_calc::compile(source).unwrap();
        assert_eq!(first, second);
        let a = compute(&mut vm, source);
        let b = compute(&mut vm, source);
        assert_eq!(a, b);
        assert_eq!(a, compute(&mut VM::new(), source));
    }
}

#[test]
fn an_unterminated_call_computes() {
    let mut vm = VM::new();
    assert_eq!(1.0, compute(&mut vm, "sin(90").unwrap().round());
    assert_eq!(Some(3.0), compute(&mut vm, "{ (1 + 2"));
    assert_eq!(None, compute(&mut vm, "{ let a = (1 + 2"));
    assert_eq!(None, compute(&mut vm, "let b = (1 + 2"));
    assert_eq!(Some(0.0), compute(&mut vm, "a"));
    assert_eq!(Some(3.0), compute(&mut vm, "b"));
}

#[test]
fn a_program_loaded_meanwhile_runs_first() {
    assert_eq!(Some(2.0), compute(&mut VM::default(), "1 + 1"));
    let mut vm = VM::new();
    assert!(vm.is_well_formed());
    vm.load(&vec![Instruction::Enter, Instruction::Leave]);
    assert!(matches!(vm.step(), Action::Proceed));
    assert_eq!(Ok(vec![]), run(&mut vm, &vec![Instruction::Leave, Instruction::Enter]));
    assert!(vm.is_well_formed());
    assert_eq!(Some(2.0), compute(&mut vm, "2"));
}

#[test]
fn scopes_answer_from_the_innermost_binding() {
    let value = |x: f64| Value::Number(Number::from_bits(x.to_bits()));
    let mut scopes = ScopeStack::new();
    assert_eq!(1, scopes.depth());
    assert_eq!(Ok(false), scopes.put(String::from("a"), value(1.0)));
    assert_eq!(Ok(true), scopes.put(String::from("a"), value(2.0)));
    scopes.push();
    assert_eq!(Some((0, 0)), scopes.position("a"));
    assert_eq!(Ok(()), scopes.set(String::from("a"), value(3.0)));
    assert_eq!(Some((0, 0)), scopes.position("a"));
    assert_eq!(Ok(false), scopes.put(String::from("b"), value(4.0)));
    assert_eq!(Ok(false), scopes.put(String::from("a"), value(5.0)));
    assert_eq!(Some((1, 1)), scopes.position("a"));
    assert_eq!(5.0, number(scopes.get("a").unwrap()));
    assert_eq!(Ok(()), scopes.set(String::from("c"), value(6.0)));
    assert_eq!(Some((1, 2)), scopes.position("c"));
    scopes.pop();
    assert_eq!(3.0, number(scopes.get("a").unwrap()));
    assert!(scopes.get("b").is_none());
    assert_eq!(None, scopes.position("c"));
    scopes.pop();
    assert_eq!(1, scopes.depth());
    assert_eq!(3.0, number(scopes.get("a").unwrap()));
}
