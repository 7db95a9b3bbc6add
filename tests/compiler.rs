use celsium::block::Block;
use celsium::bytecode::{BINOP, OPTCODE};
use celsium::compiletime_helper::{CompileTimeHelper, DefineError};
use celsium::format_for_print::{format_for_print, int_to_string, FloatTexts};
use celsium::module::get_std_functions;
use celsium::math_operators::{add, divide, evaluate_binop, xor, BinopOutcome};
use celsium::stores::variable_store::VariableStore;
use celsium::typestack::TypeStack;
use celsium::value::StackValue;
use celsium::vm::VmError;
use celsium::{BuiltinTypes, ObjectFieldType, Scope};

fn scope(id: usize, module: &str) -> Scope {
    Scope { ast_id: id, module_name: module.to_string() }
}

fn helper() -> CompileTimeHelper {
    CompileTimeHelper::new("source".to_string(), "main".to_string())
}

#[test]
fn redefinition_in_same_scope_is_refused() {
    let mut h = helper();
    let first = h.def_var("x".to_string(), BuiltinTypes::Int, scope(1, "main"), false);
    assert_eq!(first, Ok(0));
    let second = h.def_var("x".to_string(), BuiltinTypes::Bool, scope(1, "main"), false);
    assert_eq!(second, Err(DefineError::AlreadyDefined));
    let array = h.def_array("x", BuiltinTypes::Int, 3, scope(1, "main"), false);
    assert_eq!(array, Err(DefineError::AlreadyDefined));
}

#[test]
fn same_name_in_other_scopes_gets_distinct_ids() {
    let mut h = helper();
    let a = h.def_var("x".to_string(), BuiltinTypes::Int, scope(1, "main"), false).unwrap();
    let b = h.def_var("x".to_string(), BuiltinTypes::Int, scope(2, "main"), false).unwrap();
    let c = h.def_var("x".to_string(), BuiltinTypes::Int, scope(1, "other"), false).unwrap();
    assert_eq!((a, b, c), (0, 1, 2));
    assert_eq!(h.find_variable(&"x".to_string(), &scope(2, "main")).unwrap().id, 1);
    assert_eq!(h.find_variable(&"x".to_string(), &scope(1, "other")).unwrap().id, 2);
    assert!(h.find_variable(&"x".to_string(), &scope(3, "main")).is_none());
}

#[test]
fn imported_name_is_refused() {
    let mut h = helper();
    h.import("y".to_string(), "lib".to_string(), "main".to_string());
    assert_eq!(
        h.def_var("y".to_string(), BuiltinTypes::Int, scope(1, "main"), false),
        Err(DefineError::AlreadyImported)
    );
    assert_eq!(h.def_var("y".to_string(), BuiltinTypes::Int, scope(1, "lib"), false), Ok(0));
}

#[test]
fn ids_are_shared_across_kinds() {
    let mut h = helper();
    let f = h.def_function("f".to_string(), vec![], scope(0, "main"), true, Some(BuiltinTypes::Int));
    let fields = vec![
        ObjectFieldType { name: "a".to_string(), data_type: BuiltinTypes::Int },
        ObjectFieldType { name: "b".to_string(), data_type: BuiltinTypes::String },
    ];
    let o = h.def_object("point".to_string(), scope(0, "main"), false, fields).unwrap();
    let v = h.def_var("v".to_string(), BuiltinTypes::Float, scope(0, "main"), false).unwrap();
    let arr = h.def_array("arr", BuiltinTypes::Bool, 4, scope(0, "main"), false).unwrap();
    assert_eq!((f, o, v, arr), (0, 1, 4, 5));
    assert_eq!(h.object_field_id(&"point".to_string(), &scope(0, "main"), &"a".to_string()), Some(2));
    assert_eq!(h.object_field_id(&"point".to_string(), &scope(0, "main"), &"b".to_string()), Some(3));
    assert_eq!(h.object_field_id(&"point".to_string(), &scope(0, "main"), &"c".to_string()), None);
    assert_eq!(h.object_field_id(&"point".to_string(), &scope(9, "main"), &"a".to_string()), None);
    assert_eq!(h.get_var_type(4), Some(BuiltinTypes::Float));
    assert_eq!(
        h.get_var_type(5),
        Some(BuiltinTypes::Array { element_type: Box::new(BuiltinTypes::Bool), length: Some(4) })
    );
    assert_eq!(h.get_var_type(77), None);
    assert_eq!(h.get_array_type_and_length(5), Some((&BuiltinTypes::Bool, 4)));
    assert_eq!(h.get_func_return_type(0), Some(&Some(BuiltinTypes::Int)));
    assert!(h.get_object_if_exists("point").is_some());
    assert!(h.get_object_if_exists("nothing").is_none());
}

#[test]
fn structs_belong_to_their_module() {
    let mut h = helper();
    h.define_struct("P".to_string(), vec![]);
    assert!(h.struct_exists("P").is_some());
    h.change_module("other source".to_string(), "other".to_string());
    assert!(h.struct_exists("P").is_none());
    h.switch_to_prev_module();
    assert!(h.struct_exists("P").is_some());
}

#[test]
fn variable_store_finds_by_scope() {
    let mut store = VariableStore::new();
    let a = store.define_variable("testvar".to_string(), scope(0, ""), BuiltinTypes::Int);
    let b = store.define_variable("testvar".to_string(), scope(1, ""), BuiltinTypes::Int);
    assert_eq!((a, b), (Ok(0), Ok(1)));
    assert_eq!(
        store.define_variable("testvar".to_string(), scope(1, ""), BuiltinTypes::Bool),
        Err(DefineError::AlreadyDefined)
    );
    assert_eq!(store.find_variable(&"testvar".to_string(), &scope(0, "")).unwrap().id, 0);
    assert_eq!(store.define_variable("next".to_string(), scope(1, ""), BuiltinTypes::Bool), Ok(2));
    assert_eq!(store.find_variable(&"testvar".to_string(), &scope(1, "")).unwrap().id, 1);
    assert!(store.find_variable(&"other".to_string(), &scope(0, "")).is_none());
}

#[test]
fn add_type_table() {
    let cases = [
        (BuiltinTypes::Int, BuiltinTypes::Int, Some(BuiltinTypes::Int)),
        (BuiltinTypes::Int, BuiltinTypes::Float, Some(BuiltinTypes::Float)),
        (BuiltinTypes::Float, BuiltinTypes::Int, Some(BuiltinTypes::Float)),
        (BuiltinTypes::String, BuiltinTypes::Int, Some(BuiltinTypes::String)),
        (BuiltinTypes::Float, BuiltinTypes::String, Some(BuiltinTypes::String)),
        (BuiltinTypes::Bool, BuiltinTypes::Bool, None),
        (BuiltinTypes::Int, BuiltinTypes::Bool, None),
    ];
    for (a, b, expected) in cases {
        let mut t = TypeStack::new();
        t.push(a);
        t.push(b);
        assert_eq!(t.binop(BINOP::Add), expected);
    }
}

#[test]
fn arithmetic_and_comparison_type_tables() {
    let check = |op: BINOP, a: BuiltinTypes, b: BuiltinTypes| {
        let mut t = TypeStack::new();
        t.push(a);
        t.push(b);
        t.binop(op)
    };
    assert_eq!(check(BINOP::Subtract, BuiltinTypes::Int, BuiltinTypes::Int), Some(BuiltinTypes::Int));
    assert_eq!(check(BINOP::Divide, BuiltinTypes::Float, BuiltinTypes::Int), Some(BuiltinTypes::Float));
    assert_eq!(check(BINOP::Multiply, BuiltinTypes::String, BuiltinTypes::Int), None);
    assert_eq!(check(BINOP::LessThan, BuiltinTypes::Int, BuiltinTypes::Float), Some(BuiltinTypes::Bool));
    assert_eq!(check(BINOP::LessThan, BuiltinTypes::Bool, BuiltinTypes::Bool), None);
    assert_eq!(check(BINOP::Eq, BuiltinTypes::Bool, BuiltinTypes::Bool), Some(BuiltinTypes::Bool));
    assert_eq!(check(BINOP::Eq, BuiltinTypes::String, BuiltinTypes::String), None);
}

#[test]
fn type_stack_results_stay_on_the_stack() {
    let mut t = TypeStack::new();
    assert_eq!(t.binop(BINOP::Add), None);
    t.push(BuiltinTypes::Int);
    t.push(BuiltinTypes::Int);
    t.push(BuiltinTypes::Float);
    assert_eq!(t.binop(BINOP::Multiply), Some(BuiltinTypes::Float));
    assert_eq!(t.pop_multiple(2), Some(vec![BuiltinTypes::Float, BuiltinTypes::Int]));
    assert_eq!(t.pop_multiple(1), None);
    assert_eq!(t.pop(), None);
    t.push(BuiltinTypes::Bool);
    assert_eq!(t.peek(), Some(BuiltinTypes::Bool));
    let mut h = helper();
    h.push(BuiltinTypes::String);
    h.push(BuiltinTypes::Int);
    assert_eq!(h.binop(BINOP::Add), Some(BuiltinTypes::String));
    assert_eq!(h.pop(), Some(BuiltinTypes::String));
}

#[test]
fn if_block_offsets() {
    let mut body = Block::new(scope(1, "m"));
    body.load_int(1);
    body.load_int(2);
    let mut main = Block::new(scope(0, "m"));
    main.load_bool(true);
    main.define_if_block(body);
    assert_eq!(
        main.bytecode,
        vec![
            OPTCODE::LoadBool { value: true },
            OPTCODE::JumpIfFalse { steps: 2 },
            OPTCODE::LoadInt { value: 1 },
            OPTCODE::LoadInt { value: 2 },
        ]
    );
}

#[test]
fn if_else_block_offsets() {
    let mut a = Block::new(scope(1, "m"));
    a.load_int(1);
    let mut b = Block::new(scope(2, "m"));
    b.load_int(2);
    b.load_int(3);
    let mut main = Block::new(scope(0, "m"));
    main.define_if_else_block(a, b);
    assert_eq!(
        main.bytecode,
        vec![
            OPTCODE::JumpIfFalse { steps: 2 },
            OPTCODE::LoadInt { value: 1 },
            OPTCODE::Jump { steps: 2 },
            OPTCODE::LoadInt { value: 2 },
            OPTCODE::LoadInt { value: 3 },
        ]
    );
}

#[test]
fn while_loop_offsets() {
    let mut body = Block::new(scope(1, "m"));
    body.load_int(1);
    let mut cond = Block::new(scope(1, "m"));
    cond.load_bool(true);
    cond.load_bool(true);
    cond.binop(BINOP::And);
    let mut main = Block::new(scope(0, "m"));
    main.define_while_loop(body, cond);
    assert_eq!(
        main.bytecode,
        vec![
            OPTCODE::LoadBool { value: true },
            OPTCODE::LoadBool { value: true },
            OPTCODE::And,
            OPTCODE::JumpIfFalse { steps: 2 },
            OPTCODE::LoadInt { value: 1 },
            OPTCODE::JumpBack { steps: 6 },
        ]
    );
}

#[test]
fn assembler_helpers_append_one_instruction() {
    let mut b = Block::new(scope(0, "m"));
    b.load_string("s");
    b.load_float(2.5f64.to_bits());
    b.define_variable(1);
    b.define_object(2);
    b.assign_variable(1);
    b.load_variable(1);
    b.create_array(2);
    b.define_array(3, 1);
    b.load_from_array(3);
    b.assign_to_array(3);
    b.get_array_length(3);
    b.push_to_array(3);
    b.create_object(vec!["a".to_string()]);
    b.get_object_field("a".to_string());
    b.set_object_field(2, "a".to_string());
    b.call_function("f");
    b.return_from_function();
    b.push_to_testing_stack(true);
    let mut other = Block::new(scope(1, "m"));
    other.load_int(5);
    b.add_blocks_bytecode(other);
    assert_eq!(b.bytecode.len(), 19);
    assert_eq!(b.bytecode[0], OPTCODE::LoadString { value: "s".to_string() });
    assert_eq!(b.bytecode[1], OPTCODE::LoadFloat { bits: 2.5f64.to_bits() });
    assert_eq!(b.bytecode[7], OPTCODE::DefineArray { id: 3, init_values_count: 1 });
    assert_eq!(b.bytecode[14], OPTCODE::SetObjectField { id: 2, field_name: "a".to_string() });
    assert_eq!(b.bytecode[16], OPTCODE::Return);
    assert_eq!(b.bytecode[18], OPTCODE::LoadInt { value: 5 });
}

#[test]
fn scope_equality_and_change() {
    let mut s = scope(3, "m");
    let t = s.change_ast_id(9);
    assert_eq!(t.ast_id, 9);
    assert_eq!(t.module_name, "m");
    assert!(s == scope(3, "m"));
    assert!(s != scope(3, "n"));
    assert!(s != t);
}

#[test]
fn integers_as_text() {
    assert_eq!(int_to_string(0), "0");
    assert_eq!(int_to_string(-12), "-12");
    assert_eq!(int_to_string(1234567890), "1234567890");
    assert_eq!(int_to_string(i64::MIN), "-9223372036854775808");
    assert_eq!(int_to_string(i64::MAX), "9223372036854775807");
}

#[test]
fn formatting_asks_for_missing_float_text() {
    let mut texts = FloatTexts::new();
    let v = StackValue::Array { items: vec![StackValue::Float { bits: 3.75f64.to_bits() }] };
    assert_eq!(format_for_print(&v, false, &texts), Err(3.75f64.to_bits()));
    texts.insert(3.75f64.to_bits(), "3.75".to_string());
    assert_eq!(format_for_print(&v, true, &texts), Ok("[3,75]\n".to_string()));
    assert_eq!(format_for_print(&StackValue::Bool { value: false }, false, &texts), Ok("0".to_string()));
}

#[test]
fn operators_on_values() {
    let texts = FloatTexts::new();
    let i = |v: i64| StackValue::Int { value: v };
    match evaluate_binop(BINOP::Remainder, &i(i64::MIN), &i(-1), &texts) {
        BinopOutcome::Fault(VmError::IntegerOverflow) => {}
        other => panic!("unexpected {:?}", other),
    }
    match divide(&i(9), &i(-2)) {
        BinopOutcome::Value(StackValue::Int { value }) => assert_eq!(value, -4),
        other => panic!("unexpected {:?}", other),
    }
    match add(&StackValue::String { value: "a".to_string() }, &StackValue::Float { bits: 1.5f64.to_bits() }, &texts) {
        BinopOutcome::NeedFloatText(bits) => assert_eq!(bits, 1.5f64.to_bits()),
        other => panic!("unexpected {:?}", other),
    }
    match add(&i(1), &StackValue::Float { bits: 1.5f64.to_bits() }, &texts) {
        BinopOutcome::FloatArithmetic => {}
        other => panic!("unexpected {:?}", other),
    }
    match xor(&StackValue::Bool { value: false }, &StackValue::Bool { value: false }) {
        BinopOutcome::Value(StackValue::Bool { value }) => assert!(!value),
        other => panic!("unexpected {:?}", other),
    }
}

#[test]
fn standard_function_signatures() {
    let fs = get_std_functions();
    let names: Vec<&str> = fs.iter().map(|f| f.name.as_str()).collect();
    assert_eq!(names, vec!["izvade", "izvadetp", "ievade", "garums", "nejaušs", "nejaušs_robežās"]);
    assert_eq!(fs[5].args.len(), 2);
    assert_eq!(fs[2].return_type, Some(BuiltinTypes::String));
}
