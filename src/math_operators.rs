//! What the binary operators compute at run time.
use vstd::prelude::*;

use crate::bytecode::BINOP;
use crate::format_for_print::{comma_text, int_text, int_to_string, FloatTexts};
use crate::value::{StackValue, Val};
use crate::vm::VmError;

verus! {

/// What applying a binary operator to two values comes to.
pub enum Evaluation {
    Value(Val),
    Fault(VmError),
    /// A float takes part: the host computes the result.
    FloatArithmetic,
    /// The decimal text of this float is needed first.
    NeedFloatText(u64),
}

/// The executable counterpart of [`Evaluation`].
#[derive(Debug)]
pub enum BinopOutcome {
    Value(StackValue),
    Fault(VmError),
    FloatArithmetic,
    NeedFloatText(u64),
}

impl BinopOutcome {
    /// The outcome with its value replaced by the value's model.
    pub open spec fn model(self) -> Evaluation {
        match self {
            BinopOutcome::Value(v) => Evaluation::Value(v.view()),
            BinopOutcome::Fault(e) => Evaluation::Fault(e),
            BinopOutcome::FloatArithmetic => Evaluation::FloatArithmetic,
            BinopOutcome::NeedFloatText(b) => Evaluation::NeedFloatText(b),
        }
    }
}

/// The integer fits in 64 bits.
pub open spec fn in_i64(x: int) -> bool {
    i64::MIN <= x <= i64::MAX
}

/// An integer result, or an overflow fault when it does not fit in 64 bits.
pub open spec fn int_result(x: int) -> Evaluation {
    if in_i64(x) {
        Evaluation::Value(Val::Int(x))
    } else {
        Evaluation::Fault(VmError::IntegerOverflow)
    }
}

/// The absolute value.
pub open spec fn abs(x: int) -> int {
    if x < 0 { -x } else { x }
}

/// Division rounding toward zero.
pub open spec fn trunc_div(x: int, y: int) -> int {
    if (x < 0) == (y < 0) { abs(x) / abs(y) } else { -(abs(x) / abs(y)) }
}

/// The remainder of division rounding toward zero: it takes the sign of `x`.
pub open spec fn trunc_rem(x: int, y: int) -> int {
    if x < 0 { -(abs(x) % abs(y)) } else { abs(x) % abs(y) }
}

/// Both values are numbers and at least one of them is a float.
pub open spec fn float_pair(a: Val, b: Val) -> bool {
    match (a, b) {
        (Val::Float(_), Val::Float(_)) => true,
        (Val::Float(_), Val::Int(_)) => true,
        (Val::Int(_), Val::Float(_)) => true,
        _ => false,
    }
}

/// `a + b`: integer sum, string concatenation (numbers shown in decimal, floats with a comma).
pub open spec fn add_spec(a: Val, b: Val, texts: Map<u64, Seq<char>>) -> Evaluation {
    match (a, b) {
        (Val::Int(x), Val::Int(y)) => int_result(x + y),
        (Val::Str(x), Val::Str(y)) => Evaluation::Value(Val::Str(x + y)),
        (Val::Str(x), Val::Int(y)) => Evaluation::Value(Val::Str(x + int_text(y))),
        (Val::Int(x), Val::Str(y)) => Evaluation::Value(Val::Str(int_text(x) + y)),
        (Val::Str(x), Val::Float(f)) => if texts.contains_key(f) {
            Evaluation::Value(Val::Str(x + comma_text(texts[f])))
        } else {
            Evaluation::NeedFloatText(f)
        },
        (Val::Float(f), Val::Str(y)) => if texts.contains_key(f) {
            Evaluation::Value(Val::Str(comma_text(texts[f]) + y))
        } else {
            Evaluation::NeedFloatText(f)
        },
        _ => if float_pair(a, b) {
            Evaluation::FloatArithmetic
        } else {
            Evaluation::Fault(VmError::TypeMismatch)
        },
    }
}

/// `-`, `*`, `/` and `%`: numbers only.
pub open spec fn arithmetic_spec(op: BINOP, a: Val, b: Val) -> Evaluation {
    match (a, b) {
        (Val::Int(x), Val::Int(y)) => match op {
            BINOP::Subtract => int_result(x - y),
            BINOP::Multiply => int_result(x * y),
            BINOP::Divide => if y == 0 {
                Evaluation::Fault(VmError::DivisionByZero)
            } else {
                int_result(trunc_div(x, y))
            },
            _ => if y == 0 {
                Evaluation::Fault(VmError::DivisionByZero)
            } else if x == i64::MIN && y == -1 {
                Evaluation::Fault(VmError::IntegerOverflow)
            } else {
                Evaluation::Value(Val::Int(trunc_rem(x, y)))
            },
        },
        _ => if float_pair(a, b) {
            Evaluation::FloatArithmetic
        } else {
            Evaluation::Fault(VmError::TypeMismatch)
        },
    }
}

/// `<`, `>`, `<=`, `>=`, `==`, `!=`: numbers, and booleans for the two equality operators.
pub open spec fn compare_spec(op: BINOP, a: Val, b: Val) -> Evaluation {
    match (a, b) {
        (Val::Int(x), Val::Int(y)) => Evaluation::Value(
            Val::Bool(
                match op {
                    BINOP::LessThan => x < y,
                    BINOP::LargerThan => x > y,
                    BINOP::LessOrEq => x <= y,
                    BINOP::LargerOrEq => x >= y,
                    BINOP::Eq => x == y,
                    _ => x != y,
                },
            ),
        ),
        (Val::Bool(x), Val::Bool(y)) => if op == BINOP::Eq {
            Evaluation::Value(Val::Bool(x == y))
        } else if op == BINOP::NotEq {
            Evaluation::Value(Val::Bool(x != y))
        } else {
            Evaluation::Fault(VmError::TypeMismatch)
        },
        _ => if float_pair(a, b) {
            Evaluation::FloatArithmetic
        } else {
            Evaluation::Fault(VmError::TypeMismatch)
        },
    }
}

/// What a binary operator computes from its left and right operand.
pub open spec fn evaluate(op: BINOP, a: Val, b: Val, texts: Map<u64, Seq<char>>) -> Evaluation {
    match op {
        BINOP::Add => add_spec(a, b, texts),
        BINOP::Subtract | BINOP::Multiply | BINOP::Divide | BINOP::Remainder => arithmetic_spec(op, a, b),
        BINOP::And => Evaluation::Value(Val::Bool(a == Val::Bool(true) && b == Val::Bool(true))),
        BINOP::Or => Evaluation::Value(Val::Bool(a == Val::Bool(true) || b == Val::Bool(true))),
        BINOP::Xor => Evaluation::Value(
            Val::Bool(
                if a == Val::Bool(true) {
                    b == Val::Bool(false)
                } else {
                    b != Val::Bool(false)
                },
            ),
        ),
        _ => compare_spec(op, a, b),
    }
}

fn concat(x: &String, y: &str) -> (r: String)
    ensures
        r@ == x@ + y@,
{
    let mut r = x.clone();
    r.append(y);
    r
}

fn is_float_pair(a: &StackValue, b: &StackValue) -> (r: bool)
    ensures
        r == float_pair(a.view(), b.view()),
{
    match (a, b) {
        (StackValue::Float { .. }, StackValue::Float { .. }) => true,
        (StackValue::Float { .. }, StackValue::Int { .. }) => true,
        (StackValue::Int { .. }, StackValue::Float { .. }) => true,
        _ => false,
    }
}

fn other_operands(a: &StackValue, b: &StackValue) -> (r: BinopOutcome)
    ensures
        r.model() == (if float_pair(a.view(), b.view()) {
            Evaluation::FloatArithmetic
        } else {
            Evaluation::Fault(VmError::TypeMismatch)
        }),
{
    if is_float_pair(a, b) {
        BinopOutcome::FloatArithmetic
    } else {
        BinopOutcome::Fault(VmError::TypeMismatch)
    }
}

/// Addition: integer sum, or string concatenation with numbers shown in decimal and floats
/// with a comma for the decimal point.
/// Running it on a boolean, array or object operand is a fatal program error, which `requires` leaves out.
pub fn add(a: &StackValue, b: &StackValue, texts: &FloatTexts) -> (r: BinopOutcome)
    requires
        !(a.view() is Bool || a.view() is Array || a.view() is Object),
        !(b.view() is Bool || b.view() is Array || b.view() is Object),
        texts.wf(),
    ensures
        r.model() == add_spec(a.view(), b.view(), texts@),
{
    add_checked(a, b, texts)
}

/// Addition: integer sum, or string concatenation with numbers shown in decimal and floats
/// with a comma for the decimal point.
/// Every fault, a boolean, array or object operand included, comes back as an error value: the form a step uses.
fn add_checked(a: &StackValue, b: &StackValue, texts: &FloatTexts) -> (r: BinopOutcome)
    requires
        texts.wf(),
    ensures
        r.model() == add_spec(a.view(), b.view(), texts@),
{
    match (a, b) {
        (StackValue::Int { value: x }, StackValue::Int { value: y }) => match x.checked_add(*y) {
            Some(s) => BinopOutcome::Value(StackValue::Int { value: s }),
            None => BinopOutcome::Fault(VmError::IntegerOverflow),
        },
        (StackValue::String { value: x }, StackValue::String { value: y }) => {
            BinopOutcome::Value(StackValue::String { value: concat(x, y.as_str()) })
        },
        (StackValue::String { value: x }, StackValue::Int { value: y }) => {
            let t = int_to_string(*y);
            BinopOutcome::Value(StackValue::String { value: concat(x, t.as_str()) })
        },
        (StackValue::Int { value: x }, StackValue::String { value: y }) => {
            let t = int_to_string(*x);
            BinopOutcome::Value(StackValue::String { value: concat(&t, y.as_str()) })
        },
        (StackValue::String { value: x }, StackValue::Float { bits }) => match texts.get(*bits) {
            Some(t) => {
                let mut r = x.clone();
                write_comma_text(t, &mut r);
                BinopOutcome::Value(StackValue::String { value: r })
            },
            None => BinopOutcome::NeedFloatText(*bits),
        },
        (StackValue::Float { bits }, StackValue::String { value: y }) => match texts.get(*bits) {
            Some(t) => {
                let mut r = String::new();
                write_comma_text(t, &mut r);
                r.append(y.as_str());
                BinopOutcome::Value(StackValue::String { value: r })
            },
            None => BinopOutcome::NeedFloatText(*bits),
        },
        _ => other_operands(a, b),
    }
}

fn write_comma_text(t: &String, out: &mut String)
    ensures
        final(out)@ == old(out)@ + comma_text(t@),
{
    crate::format_for_print::write_comma(t, out);
}

fn integer_arithmetic(op: BINOP, x: i64, y: i64) -> (r: BinopOutcome)
    requires
        op == BINOP::Subtract || op == BINOP::Multiply || op == BINOP::Divide || op
            == BINOP::Remainder,
    ensures
        r.model() == arithmetic_spec(op, Val::Int(x as int), Val::Int(y as int)),
{
    let checked = match op {
        BINOP::Subtract => x.checked_sub(y),
        BINOP::Multiply => x.checked_mul(y),
        BINOP::Divide => {
            if y == 0 {
                return BinopOutcome::Fault(VmError::DivisionByZero);
            }
            x.checked_div(y)
        },
        _ => {
            if y == 0 {
                return BinopOutcome::Fault(VmError::DivisionByZero);
            }
            if x == i64::MIN && y == -1 {
                return BinopOutcome::Fault(VmError::IntegerOverflow);
            }
            x.checked_rem(y)
        },
    };
    match checked {
        Some(v) => BinopOutcome::Value(StackValue::Int { value: v }),
        None => BinopOutcome::Fault(VmError::IntegerOverflow),
    }
}

/// Subtraction of numbers.
pub fn subtract(a: &StackValue, b: &StackValue) -> (r: BinopOutcome)
    ensures
        r.model() == arithmetic_spec(BINOP::Subtract, a.view(), b.view()),
{
    match (a, b) {
        (StackValue::Int { value: x }, StackValue::Int { value: y }) => integer_arithmetic(
            BINOP::Subtract,
            *x,
            *y,
        ),
        _ => other_operands(a, b),
    }
}

/// Multiplication of numbers.
pub fn multiply(a: &StackValue, b: &StackValue) -> (r: BinopOutcome)
    ensures
        r.model() == arithmetic_spec(BINOP::Multiply, a.view(), b.view()),
{
    match (a, b) {
        (StackValue::Int { value: x }, StackValue::Int { value: y }) => integer_arithmetic(
            BINOP::Multiply,
            *x,
            *y,
        ),
        _ => other_operands(a, b),
    }
}

/// Division of numbers; integers round toward zero and a zero divisor is fatal.
/// Running it on an integer divided by the integer zero is a fatal program error, which `requires` leaves out.
pub fn divide(a: &StackValue, b: &StackValue) -> (r: BinopOutcome)
    requires
        !(a.view() is Int && b.view() == Val::Int(0)),
    ensures
        r.model() == arithmetic_spec(BINOP::Divide, a.view(), b.view()),
{
    divide_checked(a, b)
}

/// Division of numbers; integers round toward zero and a zero divisor is fatal.
/// Every fault, an integer divided by the integer zero included, comes back as an error value: the form a step uses.
fn divide_checked(a: &StackValue, b: &StackValue) -> (r: BinopOutcome)
    ensures
        r.model() == arithmetic_spec(BINOP::Divide, a.view(), b.view()),
{
    match (a, b) {
        (StackValue::Int { value: x }, StackValue::Int { value: y }) => integer_arithmetic(
            BINOP::Divide,
            *x,
            *y,
        ),
        _ => other_operands(a, b),
    }
}

/// The remainder of a division of numbers; a zero divisor is fatal.
/// Running it on an integer divided by the integer zero is a fatal program error, which `requires` leaves out.
pub fn remainder(a: &StackValue, b: &StackValue) -> (r: BinopOutcome)
    requires
        !(a.view() is Int && b.view() == Val::Int(0)),
    ensures
        r.model() == arithmetic_spec(BINOP::Remainder, a.view(), b.view()),
{
    remainder_checked(a, b)
}

/// The remainder of a division of numbers; a zero divisor is fatal.
/// Every fault, an integer divided by the integer zero included, comes back as an error value: the form a step uses.
fn remainder_checked(a: &StackValue, b: &StackValue) -> (r: BinopOutcome)
    ensures
        r.model() == arithmetic_spec(BINOP::Remainder, a.view(), b.view()),
{
    match (a, b) {
        (StackValue::Int { value: x }, StackValue::Int { value: y }) => integer_arithmetic(
            BINOP::Remainder,
            *x,
            *y,
        ),
        _ => other_operands(a, b),
    }
}

fn compare(op: BINOP, a: &StackValue, b: &StackValue) -> (r: BinopOutcome)
    requires
        op == BINOP::LessThan || op == BINOP::LargerThan || op == BINOP::LessOrEq || op
            == BINOP::LargerOrEq || op == BINOP::Eq || op == BINOP::NotEq,
    ensures
        r.model() == compare_spec(op, a.view(), b.view()),
{
    match (a, b) {
        (StackValue::Int { value: x }, StackValue::Int { value: y }) => {
            let v = match op {
                BINOP::LessThan => *x < *y,
                BINOP::LargerThan => *x > *y,
                BINOP::LessOrEq => *x <= *y,
                BINOP::LargerOrEq => *x >= *y,
                BINOP::Eq => *x == *y,
                _ => *x != *y,
            };
            BinopOutcome::Value(StackValue::Bool { value: v })
        },
        (StackValue::Bool { value: x }, StackValue::Bool { value: y }) => match op {
            BINOP::Eq => BinopOutcome::Value(StackValue::Bool { value: *x == *y }),
            BINOP::NotEq => BinopOutcome::Value(StackValue::Bool { value: *x != *y }),
            _ => BinopOutcome::Fault(VmError::TypeMismatch),
        },
        _ => other_operands(a, b),
    }
}

/// `a < b` on numbers.
/// Running it on a string, array or object operand is a fatal program error, which `requires` leaves out.
pub fn less_than(a: &StackValue, b: &StackValue) -> (r: BinopOutcome)
    requires
        !(a.view() is Str || a.view() is Array || a.view() is Object),
        !(b.view() is Str || b.view() is Array || b.view() is Object),
    ensures
        r.model() == compare_spec(BINOP::LessThan, a.view(), b.view()),
{
    less_than_checked(a, b)
}

/// `a < b` on numbers.
/// Every fault, a string, array or object operand included, comes back as an error value: the form a step uses.
fn less_than_checked(a: &StackValue, b: &StackValue) -> (r: BinopOutcome)
    ensures
        r.model() == compare_spec(BINOP::LessThan, a.view(), b.view()),
{
    compare(BINOP::LessThan, a, b)
}

/// `a > b` on numbers.
pub fn larger_than(a: &StackValue, b: &StackValue) -> (r: BinopOutcome)
    ensures
        r.model() == compare_spec(BINOP::LargerThan, a.view(), b.view()),
{
    compare(BINOP::LargerThan, a, b)
}

/// `a <= b` on numbers.
pub fn less_or_eq(a: &StackValue, b: &StackValue) -> (r: BinopOutcome)
    ensures
        r.model() == compare_spec(BINOP::LessOrEq, a.view(), b.view()),
{
    compare(BINOP::LessOrEq, a, b)
}

/// `a >= b` on numbers.
pub fn larger_or_eq(a: &StackValue, b: &StackValue) -> (r: BinopOutcome)
    ensures
        r.model() == compare_spec(BINOP::LargerOrEq, a.view(), b.view()),
{
    compare(BINOP::LargerOrEq, a, b)
}

/// `a != b` on numbers or booleans.
pub fn not_eq(a: &StackValue, b: &StackValue) -> (r: BinopOutcome)
    ensures
        r.model() == compare_spec(BINOP::NotEq, a.view(), b.view()),
{
    compare(BINOP::NotEq, a, b)
}

/// `a == b` on numbers or booleans.
pub fn eq(a: &StackValue, b: &StackValue) -> (r: BinopOutcome)
    ensures
        r.model() == compare_spec(BINOP::Eq, a.view(), b.view()),
{
    compare(BINOP::Eq, a, b)
}

fn is_true(a: &StackValue) -> (r: bool)
    ensures
        r == (a.view() == Val::Bool(true)),
{
    match a {
        StackValue::Bool { value } => *value,
        _ => false,
    }
}

fn is_false(a: &StackValue) -> (r: bool)
    ensures
        r == (a.view() == Val::Bool(false)),
{
    match a {
        StackValue::Bool { value } => !*value,
        _ => false,
    }
}

/// True exactly when both values are `true`.
pub fn and(a: &StackValue, b: &StackValue) -> (r: BinopOutcome)
    ensures
        r.model() == evaluate(BINOP::And, a.view(), b.view(), Map::empty()),
{
    BinopOutcome::Value(StackValue::Bool { value: is_true(a) && is_true(b) })
}

/// True when either value is `true`.
pub fn or(a: &StackValue, b: &StackValue) -> (r: BinopOutcome)
    ensures
        r.model() == evaluate(BINOP::Or, a.view(), b.view(), Map::empty()),
{
    BinopOutcome::Value(StackValue::Bool { value: is_true(a) || is_true(b) })
}

/// When `a` is `true`, whether `b` is `false`; otherwise whether `b` is anything but `false`.
pub fn xor(a: &StackValue, b: &StackValue) -> (r: BinopOutcome)
    ensures
        r.model() == evaluate(BINOP::Xor, a.view(), b.view(), Map::empty()),
{
    let v = if is_true(a) {
        is_false(b)
    } else {
        !is_false(b)
    };
    BinopOutcome::Value(StackValue::Bool { value: v })
}

/// Applies a binary operator to the left operand `a` and the right operand `b`.
pub fn evaluate_binop(op: BINOP, a: &StackValue, b: &StackValue, texts: &FloatTexts) -> (r:
    BinopOutcome)
    requires
        texts.wf(),
    ensures
        r.model() == evaluate(op, a.view(), b.view(), texts@),
{
    match op {
        BINOP::Add => add_checked(a, b, texts),
        BINOP::Subtract => subtract(a, b),
        BINOP::Multiply => multiply(a, b),
        BINOP::Divide => divide_checked(a, b),
        BINOP::Remainder => remainder_checked(a, b),
        BINOP::LessThan => less_than_checked(a, b),
        BINOP::LargerThan => larger_than(a, b),
        BINOP::LessOrEq => less_or_eq(a, b),
        BINOP::LargerOrEq => larger_or_eq(a, b),
        BINOP::NotEq => not_eq(a, b),
        BINOP::Eq => eq(a, b),
        BINOP::And => and(a, b),
        BINOP::Or => or(a, b),
        BINOP::Xor => xor(a, b),
    }
}

/// Integer addition gives the sum whenever it fits in 64 bits; integer division and remainder
/// by zero are fatal; division with a float operand, a zero float divisor included, is never
/// fatal: the host computes the IEEE-754 result.
pub proof fn law_integer_arithmetic(a: i64, b: i64, f: u64, texts: Map<u64, Seq<char>>)
    requires
        in_i64(a + b),
    ensures
        evaluate(BINOP::Add, Val::Int(a as int), Val::Int(b as int), texts) == Evaluation::Value(Val::Int(a + b)),
        evaluate(BINOP::Divide, Val::Int(a as int), Val::Int(0), texts) == Evaluation::Fault(VmError::DivisionByZero),
        evaluate(BINOP::Remainder, Val::Int(a as int), Val::Int(0), texts) == Evaluation::Fault(VmError::DivisionByZero),
        evaluate(BINOP::Divide, Val::Float(f), Val::Float(0), texts) == Evaluation::FloatArithmetic,
        evaluate(BINOP::Divide, Val::Int(a as int), Val::Float(0), texts) == Evaluation::FloatArithmetic,
{
}

/// Adding a string and a number, in either order, concatenates the string with the number's
/// text: the decimal digits of an integer, or a float's text with every decimal point turned
/// into a comma, so that no decimal point remains.
pub proof fn law_string_number_concatenation(s: Seq<char>, i: int, f: u64, texts: Map<u64, Seq<char>>)
    requires
        texts.contains_key(f),
    ensures
        evaluate(BINOP::Add, Val::Str(s), Val::Int(i), texts) == Evaluation::Value(Val::Str(s + int_text(i))),
        evaluate(BINOP::Add, Val::Int(i), Val::Str(s), texts) == Evaluation::Value(Val::Str(int_text(i) + s)),
        evaluate(BINOP::Add, Val::Str(s), Val::Float(f), texts) == Evaluation::Value(Val::Str(s + comma_text(texts[f]))),
        evaluate(BINOP::Add, Val::Float(f), Val::Str(s), texts) == Evaluation::Value(Val::Str(comma_text(texts[f]) + s)),
        comma_text(texts[f]).len() == texts[f].len(),
        forall|k: int| 0 <= k < texts[f].len() ==> #[trigger] comma_text(texts[f])[k] == if texts[f][k] == '.' {
            ','
        } else {
            texts[f][k]
        },
        !comma_text(texts[f]).contains('.'),
{
    let t = texts[f];
    assert forall|k: int| 0 <= k < comma_text(t).len() implies comma_text(t)[k] != '.' by {}
}

/// A float text is asked for only when it is missing.
pub proof fn lemma_need_text_is_missing(op: BINOP, a: Val, b: Val, texts: Map<u64, Seq<char>>)
    ensures
        evaluate(op, a, b, texts) is NeedFloatText ==> !texts.contains_key(evaluate(op, a, b, texts)->NeedFloatText_0),
{
}

} // verus!
