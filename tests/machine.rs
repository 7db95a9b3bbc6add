use celsium::block::Block;
use celsium::bytecode::{BINOP, OPTCODE};
use celsium::module::{Function, FunctionSignature};
use celsium::value::{ObjectField, StackValue};
use celsium::vm::{HostRequest, Step, VmError, VM};
use celsium::{CelsiumProgram, Scope, SpecialFunctions};

fn scope() -> Scope {
    Scope { ast_id: 0, module_name: "main".to_string() }
}

fn float_of(v: &StackValue) -> f64 {
    match v {
        StackValue::Float { bits } => f64::from_bits(*bits),
        StackValue::Int { value } => *value as f64,
        _ => panic!("not a number"),
    }
}

fn host_float(op: BINOP, left: &StackValue, right: &StackValue) -> StackValue {
    let (a, b) = (float_of(left), float_of(right));
    let f = |x: f64| StackValue::Float { bits: x.to_bits() };
    match op {
        BINOP::Add => f(a + b),
        BINOP::Subtract => f(a - b),
        BINOP::Multiply => f(a * b),
        BINOP::Divide => f(a / b),
        BINOP::Remainder => f(a % b),
        BINOP::LessThan => StackValue::Bool { value: a < b },
        BINOP::LargerThan => StackValue::Bool { value: a > b },
        BINOP::LessOrEq => StackValue::Bool { value: a <= b },
        BINOP::LargerOrEq => StackValue::Bool { value: a >= b },
        BINOP::Eq => StackValue::Bool { value: a == b },
        BINOP::NotEq => StackValue::Bool { value: a != b },
        _ => panic!("not a float operator"),
    }
}

struct Outcome {
    vm: VM,
    printed: Vec<String>,
    error: Option<VmError>,
    requests: usize,
}

fn run(code: &Vec<OPTCODE>) -> Outcome {
    let mut vm = VM::new();
    let mut printed = vec![];
    let mut requests = 0;
    for _ in 0..100_000 {
        match vm.step(code) {
            Ok(Step::Continue) => {}
            Ok(Step::Print { text }) => printed.push(text),
            Ok(Step::Halted) => return Outcome { vm, printed, error: None, requests },
            Ok(Step::Request(HostRequest::FloatText { bits })) => {
                requests += 1;
                vm.supply_float_text(bits, f64::from_bits(bits).to_string());
            }
            Ok(Step::Request(HostRequest::FloatArithmetic { op, left, right })) => {
                requests += 1;
                vm.answer(host_float(op, &left, &right)).unwrap();
            }
            Ok(Step::Request(HostRequest::Input)) => {
                requests += 1;
                vm.answer(StackValue::String { value: "typed".to_string() }).unwrap();
            }
            Err(e) => return Outcome { vm, printed, error: Some(e), requests },
        }
    }
    panic!("the program did not halt");
}

fn observed(code: Vec<OPTCODE>) -> VM {
    let mut code = code;
    code.push(OPTCODE::PushToTestingStack { duplicate_stackvalue: false });
    let out = run(&code);
    assert_eq!(out.error, None);
    out.vm
}

fn fault(code: Vec<OPTCODE>) -> VmError {
    run(&code).error.expect("a fatal error")
}

fn int_value(v: i64) -> StackValue {
    StackValue::Int { value: v }
}

fn text(v: &str) -> StackValue {
    StackValue::String { value: v.to_string() }
}

#[test]
fn int_addition_is_exact() {
    let got = observed(vec![OPTCODE::LoadInt { value: 40 }, OPTCODE::LoadInt { value: 2 }, OPTCODE::Add]);
    assert_eq!(*got.testing_stack(), vec![int_value(42)]);
    let got = observed(vec![OPTCODE::LoadInt { value: -7 }, OPTCODE::LoadInt { value: -8 }, OPTCODE::Add]);
    assert_eq!(*got.testing_stack(), vec![int_value(-15)]);
}

#[test]
fn int_overflow_is_fatal() {
    assert_eq!(
        fault(vec![OPTCODE::LoadInt { value: i64::MAX }, OPTCODE::LoadInt { value: 1 }, OPTCODE::Add]),
        VmError::IntegerOverflow
    );
}

#[test]
fn int_division_rounds_toward_zero() {
    let got = observed(vec![OPTCODE::LoadInt { value: -7 }, OPTCODE::LoadInt { value: 2 }, OPTCODE::Divide]);
    assert_eq!(*got.testing_stack(), vec![int_value(-3)]);
    let got = observed(vec![OPTCODE::LoadInt { value: -7 }, OPTCODE::LoadInt { value: 2 }, OPTCODE::Remainder]);
    assert_eq!(*got.testing_stack(), vec![int_value(-1)]);
    let got = observed(vec![OPTCODE::LoadInt { value: 10 }, OPTCODE::LoadInt { value: 3 }, OPTCODE::Subtract]);
    assert_eq!(*got.testing_stack(), vec![int_value(7)]);
    let got = observed(vec![OPTCODE::LoadInt { value: 6 }, OPTCODE::LoadInt { value: 7 }, OPTCODE::Multiply]);
    assert_eq!(*got.testing_stack(), vec![int_value(42)]);
}

#[test]
fn int_division_by_zero_is_fatal() {
    assert_eq!(
        fault(vec![OPTCODE::LoadInt { value: 5 }, OPTCODE::LoadInt { value: 0 }, OPTCODE::Divide]),
        VmError::DivisionByZero
    );
    assert_eq!(
        fault(vec![OPTCODE::LoadInt { value: 5 }, OPTCODE::LoadInt { value: 0 }, OPTCODE::Remainder]),
        VmError::DivisionByZero
    );
}

#[test]
fn float_division_by_zero_goes_to_the_host() {
    let out = run(&vec![
        OPTCODE::LoadFloat { bits: 1.0f64.to_bits() },
        OPTCODE::LoadFloat { bits: 0.0f64.to_bits() },
        OPTCODE::Divide,
        OPTCODE::PushToTestingStack { duplicate_stackvalue: false },
    ]);
    assert_eq!(out.error, None);
    assert_eq!(out.requests, 1);
    assert_eq!(float_of(&out.vm.testing_stack()[0]), f64::INFINITY);
}

#[test]
fn string_and_number_concatenate() {
    let got = observed(vec![OPTCODE::LoadString { value: "n=".to_string() }, OPTCODE::LoadInt { value: -12 }, OPTCODE::Add]);
    assert_eq!(*got.testing_stack(), vec![text("n=-12")]);
    let got = observed(vec![OPTCODE::LoadInt { value: 5 }, OPTCODE::LoadString { value: "a".to_string() }, OPTCODE::Add]);
    assert_eq!(*got.testing_stack(), vec![text("5a")]);
    let got = observed(vec![
        OPTCODE::LoadString { value: "x".to_string() },
        OPTCODE::LoadFloat { bits: 1.5f64.to_bits() },
        OPTCODE::Add,
    ]);
    assert_eq!(*got.testing_stack(), vec![text("x1,5")]);
    let got = observed(vec![
        OPTCODE::LoadFloat { bits: 2.25f64.to_bits() },
        OPTCODE::LoadString { value: "!".to_string() },
        OPTCODE::Add,
    ]);
    assert_eq!(*got.testing_stack(), vec![text("2,25!")]);
}

#[test]
fn bool_in_arithmetic_is_fatal() {
    assert_eq!(
        fault(vec![OPTCODE::LoadBool { value: true }, OPTCODE::LoadInt { value: 1 }, OPTCODE::Add]),
        VmError::TypeMismatch
    );
    assert_eq!(
        fault(vec![OPTCODE::LoadString { value: "a".to_string() }, OPTCODE::LoadString { value: "a".to_string() }, OPTCODE::LessThan]),
        VmError::TypeMismatch
    );
}

#[test]
fn comparisons_and_logic() {
    let got = observed(vec![OPTCODE::LoadInt { value: 1 }, OPTCODE::LoadInt { value: 2 }, OPTCODE::LessThan]);
    assert_eq!(*got.testing_stack(), vec![StackValue::Bool { value: true }]);
    let got = observed(vec![OPTCODE::LoadBool { value: true }, OPTCODE::LoadBool { value: true }, OPTCODE::Eq]);
    assert_eq!(*got.testing_stack(), vec![StackValue::Bool { value: true }]);
    let got = observed(vec![OPTCODE::LoadBool { value: true }, OPTCODE::LoadBool { value: false }, OPTCODE::Xor]);
    assert_eq!(*got.testing_stack(), vec![StackValue::Bool { value: true }]);
    let got = observed(vec![OPTCODE::LoadBool { value: true }, OPTCODE::LoadBool { value: false }, OPTCODE::And]);
    assert_eq!(*got.testing_stack(), vec![StackValue::Bool { value: false }]);
    let got = observed(vec![OPTCODE::LoadBool { value: false }, OPTCODE::LoadBool { value: true }, OPTCODE::Or]);
    assert_eq!(*got.testing_stack(), vec![StackValue::Bool { value: true }]);
}

#[test]
fn falsy_values_take_the_jump() {
    let mut vm = VM::new();
    let code = vec![OPTCODE::LoadBool { value: false }];
    vm.step(&code).unwrap();
    assert_eq!(vm.must_jump(), Ok(true));
    for (v, expected) in [
        (StackValue::Bool { value: false }, true),
        (int_value(0), true),
        (text(""), true),
        (int_value(1), false),
        (StackValue::Bool { value: true }, false),
        (text("a"), false),
        (StackValue::Float { bits: 0.0f64.to_bits() }, false),
    ] {
        vm.push_stackvalue(v);
        assert_eq!(vm.must_jump(), Ok(expected));
    }
    assert_eq!(vm.must_jump(), Err(VmError::StackUnderflow));
}

fn counting_loop(n: i64) -> VM {
    let mut main = Block::new(scope());
    main.load_int(0);
    main.define_variable(0);
    let mut cond = Block::new(scope());
    cond.load_variable(0);
    cond.load_int(n);
    cond.binop(BINOP::LessThan);
    let mut body = Block::new(scope());
    body.load_variable(0);
    body.load_int(1);
    body.binop(BINOP::Add);
    body.assign_variable(0);
    body.load_string("ran");
    body.push_to_testing_stack(false);
    main.define_while_loop(body, cond);
    main.load_variable(0);
    main.push_to_testing_stack(false);
    let program = CelsiumProgram::new(main, vec![]);
    let out = run(program.get_bytecode());
    assert_eq!(out.error, None);
    out.vm
}

#[test]
fn while_loop_runs_its_body_n_times() {
    let got = counting_loop(3);
    assert_eq!(*got.testing_stack(), vec![text("ran"), text("ran"), text("ran"), int_value(3)]);
}

#[test]
fn while_loop_with_false_condition_runs_zero_times() {
    let got = counting_loop(0);
    assert_eq!(*got.testing_stack(), vec![int_value(0)]);
}

#[test]
fn if_else_takes_one_branch() {
    for (cond, expected) in [(true, "then"), (false, "else")] {
        let mut main = Block::new(scope());
        main.load_bool(cond);
        let mut then_block = Block::new(scope());
        then_block.load_string("then");
        then_block.push_to_testing_stack(false);
        let mut else_block = Block::new(scope());
        else_block.load_string("else");
        else_block.push_to_testing_stack(false);
        main.define_if_else_block(then_block, else_block);
        let program = CelsiumProgram::new(main, vec![]);
        let out = run(program.get_bytecode());
        assert_eq!(out.error, None);
        assert_eq!(*out.vm.testing_stack(), vec![text(expected)]);
    }
}

#[test]
fn simple_loop_repeats_its_block() {
    let mut main = Block::new(scope());
    main.load_int(3);
    let mut body = Block::new(scope());
    body.load_int(9);
    body.push_to_testing_stack(false);
    main.define_simple_loop(body);
    main.load_int(0);
    let mut empty = Block::new(scope());
    empty.load_int(1);
    empty.push_to_testing_stack(false);
    main.define_simple_loop(empty);
    let program = CelsiumProgram::new(main, vec![]);
    let out = run(program.get_bytecode());
    assert_eq!(out.error, None);
    assert_eq!(*out.vm.testing_stack(), vec![int_value(9), int_value(9), int_value(9)]);
}

#[test]
fn create_object_keeps_declaration_order() {
    let got = observed(vec![
        OPTCODE::LoadInt { value: 1 },
        OPTCODE::LoadInt { value: 2 },
        OPTCODE::CreateObject { field_names: vec!["a".to_string(), "b".to_string()] },
    ]);
    assert_eq!(
        *got.testing_stack(),
        vec![StackValue::Object {
            fields: vec![
                ObjectField { name: "a".to_string(), value: int_value(1) },
                ObjectField { name: "b".to_string(), value: int_value(2) },
            ]
        }]
    );
    let got = observed(vec![
        OPTCODE::LoadInt { value: 1 },
        OPTCODE::LoadInt { value: 2 },
        OPTCODE::CreateObject { field_names: vec!["a".to_string(), "b".to_string()] },
        OPTCODE::GetObjectField { field_name: "b".to_string() },
    ]);
    assert_eq!(*got.testing_stack(), vec![int_value(2)]);
}

#[test]
fn missing_field_is_fatal() {
    assert_eq!(
        fault(vec![
            OPTCODE::LoadInt { value: 1 },
            OPTCODE::CreateObject { field_names: vec!["a".to_string()] },
            OPTCODE::GetObjectField { field_name: "z".to_string() },
        ]),
        VmError::FieldNotFound
    );
}

#[test]
fn function_called_twice_returns_to_each_call_site() {
    let mut main = Block::new(scope());
    main.call_function("f");
    main.load_int(1);
    main.push_to_testing_stack(false);
    main.call_function("f");
    main.load_string("done");
    main.call_special_function(SpecialFunctions::Print { newline: true });
    let mut body = Block::new(scope());
    body.load_int(7);
    body.push_to_testing_stack(false);
    body.return_from_function();
    let f = Function {
        signature: FunctionSignature::new("f".to_string(), vec![], None),
        body,
    };
    let program = CelsiumProgram::new(main, vec![f]);
    let code = program.get_bytecode();
    assert_eq!(code[0], OPTCODE::JumpToFunction { target: 7, function_name: Some("f".to_string()) });
    assert_eq!(code[3], OPTCODE::JumpToFunction { target: 7, function_name: Some("f".to_string()) });
    assert_eq!(code.len(), 11);
    let out = run(code);
    assert_eq!(out.error, None);
    assert_eq!(*out.vm.testing_stack(), vec![int_value(7), int_value(1), int_value(7)]);
    assert_eq!(out.printed, vec!["done\n".to_string()]);
}

#[test]
fn linker_layout_and_unknown_calls() {
    let mut main = Block::new(scope());
    main.call_function("g");
    main.call_function("nowhere");
    let mut g_body = Block::new(scope());
    g_body.call_function("g");
    let g = Function { signature: FunctionSignature::new("g".to_string(), vec![], None), body: g_body };
    let program = CelsiumProgram::new(main, vec![g]);
    let code = program.get_bytecode();
    assert_eq!(
        *code,
        vec![
            OPTCODE::JumpToFunction { target: 3, function_name: Some("g".to_string()) },
            OPTCODE::CallFunction { name: "nowhere".to_string() },
            OPTCODE::Return,
            OPTCODE::JumpToFunction { target: 3, function_name: Some("g".to_string()) },
            OPTCODE::Return,
        ]
    );
    assert_eq!(fault(vec![OPTCODE::CallFunction { name: "nowhere".to_string() }]), VmError::UnresolvedCall);
}

#[test]
fn variables_and_arrays() {
    let got = observed(vec![
        OPTCODE::LoadInt { value: 10 },
        OPTCODE::LoadInt { value: 20 },
        OPTCODE::DefineArray { id: 3, init_values_count: 2 },
        OPTCODE::LoadInt { value: 30 },
        OPTCODE::PushToArray { id: 3 },
        OPTCODE::LoadInt { value: 99 },
        OPTCODE::LoadInt { value: 0 },
        OPTCODE::AssignAtArrayIndex { id: 3 },
        OPTCODE::LoadInt { value: 2 },
        OPTCODE::GetFromArray { id: 3 },
        OPTCODE::ArrayLength { id: 3 },
        OPTCODE::Add,
        OPTCODE::LoadVar { id: 3 },
        OPTCODE::PushToTestingStack { duplicate_stackvalue: false },
    ]);
    assert_eq!(*got.testing_stack(), vec![StackValue::Array { items: vec![int_value(99), int_value(20), int_value(30)] }, int_value(33)]);
}

#[test]
fn array_faults() {
    assert_eq!(
        fault(vec![OPTCODE::CreateArray { init_values_count: 0 }, OPTCODE::DefineVar { id: 0 }, OPTCODE::LoadInt { value: 0 }, OPTCODE::GetFromArray { id: 0 }]),
        VmError::IndexOutOfBounds
    );
    assert_eq!(fault(vec![OPTCODE::LoadInt { value: 0 }, OPTCODE::GetFromArray { id: 5 }]), VmError::UnboundVariable { id: 5 });
    assert_eq!(fault(vec![OPTCODE::LoadVar { id: 2 }]), VmError::UnboundVariable { id: 2 });
    assert_eq!(fault(vec![OPTCODE::LoadInt { value: 1 }, OPTCODE::AssignVar { id: 2 }]), VmError::UnboundVariable { id: 2 });
    assert_eq!(fault(vec![OPTCODE::Add]), VmError::StackUnderflow);
}

#[test]
fn other_fatal_errors() {
    assert_eq!(fault(vec![OPTCODE::Break]), VmError::UnloweredBreakOrContinue);
    assert_eq!(fault(vec![OPTCODE::Continue]), VmError::UnloweredBreakOrContinue);
    assert_eq!(fault(vec![OPTCODE::JumpBack { steps: 5 }]), VmError::JumpOutOfRange);
    assert_eq!(
        fault(vec![
            OPTCODE::LoadInt { value: 3 },
            OPTCODE::LoadInt { value: 3 },
            OPTCODE::CallSpecialFunction { function: SpecialFunctions::Random },
        ]),
        VmError::EmptyRandomRange
    );
}

#[test]
fn host_answers_are_checked() {
    let mut vm = VM::new();
    assert_eq!(vm.answer(int_value(1)), Err(VmError::UnexpectedAnswer));
    let code = vec![OPTCODE::CallSpecialFunction { function: SpecialFunctions::Input }];
    assert!(matches!(vm.step(&code), Ok(Step::Request(HostRequest::Input))));
    assert!(vm.awaiting_answer());
    vm.answer(text("hello")).unwrap();
    assert!(!vm.awaiting_answer());
    assert!(matches!(vm.step(&code), Ok(Step::Halted)));
    assert!(vm.halted());
    let mut waiting = VM::new();
    assert!(matches!(waiting.step(&code), Ok(Step::Request(HostRequest::Input))));
    assert!(matches!(waiting.step(&code), Err(VmError::AwaitingAnswer)));
    assert!(waiting.halted());
}

#[test]
fn fatal_error_stops_the_machine() {
    let code = vec![OPTCODE::LoadInt { value: 1 }, OPTCODE::LoadInt { value: 0 }, OPTCODE::Divide, OPTCODE::LoadInt { value: 5 }];
    let mut vm = VM::new();
    vm.step(&code).unwrap();
    vm.step(&code).unwrap();
    assert_eq!(vm.step(&code).unwrap_err(), VmError::DivisionByZero);
    assert!(vm.halted());
    assert!(matches!(vm.step(&code), Ok(Step::Halted)));
}

#[test]
fn random_stays_in_range() {
    let mut seen = std::collections::HashSet::new();
    for _ in 0..50 {
        let got = observed(vec![
            OPTCODE::LoadInt { value: 3 },
            OPTCODE::LoadInt { value: 6 },
            OPTCODE::CallSpecialFunction { function: SpecialFunctions::Random },
        ]);
        match got.testing_stack()[0] {
            StackValue::Int { value } => {
                assert!((3..6).contains(&value));
                seen.insert(value);
            }
            _ => panic!("not an int"),
        }
    }
    assert!(seen.len() > 1);
}

#[test]
fn predefined_variable_is_loaded() {
    let mut vm = VM::new();
    vm.define_var_with_stackvalue(4, text("kept"));
    let code = vec![OPTCODE::LoadVar { id: 4 }, OPTCODE::PushToTestingStack { duplicate_stackvalue: false }];
    while !matches!(vm.step(&code), Ok(Step::Halted)) {}
    assert_eq!(*vm.testing_stack(), vec![text("kept")]);
}

#[test]
fn length_of_values() {
    let len = |v: OPTCODE| observed(vec![v, OPTCODE::CallSpecialFunction { function: SpecialFunctions::Length }]);
    assert_eq!(*len(OPTCODE::LoadString { value: "héllo".to_string() }).testing_stack(), vec![int_value(5)]);
    assert_eq!(*len(OPTCODE::LoadInt { value: -120 }).testing_stack(), vec![int_value(4)]);
    assert_eq!(*len(OPTCODE::LoadBool { value: false }).testing_stack(), vec![int_value(1)]);
    assert_eq!(*len(OPTCODE::LoadFloat { bits: 1.25f64.to_bits() }).testing_stack(), vec![int_value(4)]);
}

#[test]
fn print_shows_values() {
    let out = run(&vec![
        OPTCODE::LoadInt { value: 1 },
        OPTCODE::LoadString { value: "a".to_string() },
        OPTCODE::LoadBool { value: true },
        OPTCODE::LoadFloat { bits: 0.5f64.to_bits() },
        OPTCODE::CreateArray { init_values_count: 4 },
        OPTCODE::CallSpecialFunction { function: SpecialFunctions::Print { newline: false } },
        OPTCODE::LoadInt { value: 4 },
        OPTCODE::CreateObject { field_names: vec!["x".to_string()] },
        OPTCODE::CallSpecialFunction { function: SpecialFunctions::Print { newline: true } },
    ]);
    assert_eq!(out.error, None);
    assert_eq!(out.printed, vec!["[1;\"a\";1;0,5]".to_string(), "Objekts {\n   x: 4\n}\n".to_string()]);
}
