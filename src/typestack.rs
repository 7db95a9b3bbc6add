//! Compile-time type inference over binary operators: a stack of types that mirrors the
//! machine's evaluation stack.
use vstd::prelude::*;

use crate::bytecode::BINOP;
use crate::{BuiltinTypes, TypeModel};

verus! {

/// An integer or float type.
pub open spec fn numeric(t: TypeModel) -> bool {
    t == TypeModel::Int || t == TypeModel::Float
}

/// The result type of a binary operator on a left and a right operand type; `None` is a type
/// error.
pub open spec fn binop_result(op: BINOP, a: TypeModel, b: TypeModel) -> Option<TypeModel> {
    match op {
        BINOP::Add => if a == TypeModel::Int && b == TypeModel::Int {
            Some(TypeModel::Int)
        } else if numeric(a) && numeric(b) {
            Some(TypeModel::Float)
        } else if (a == TypeModel::Str && (numeric(b) || b == TypeModel::Str)) || (numeric(a) && b
            == TypeModel::Str) {
            Some(TypeModel::Str)
        } else {
            None
        },
        BINOP::Subtract | BINOP::Multiply | BINOP::Divide | BINOP::Remainder => if a
            == TypeModel::Int && b == TypeModel::Int {
            Some(TypeModel::Int)
        } else if numeric(a) && numeric(b) {
            Some(TypeModel::Float)
        } else {
            None
        },
        BINOP::LessThan | BINOP::LargerThan | BINOP::LessOrEq | BINOP::LargerOrEq => if numeric(a)
            && numeric(b) {
            Some(TypeModel::Bool)
        } else {
            None
        },
        _ => if (numeric(a) && numeric(b)) || (a == TypeModel::Bool && b == TypeModel::Bool) {
            Some(TypeModel::Bool)
        } else {
            None
        },
    }
}

/// The model of an optional type.
pub open spec fn opt_type_view(t: Option<BuiltinTypes>) -> Option<TypeModel> {
    match t {
        Some(x) => Some(x.view()),
        None => None,
    }
}

fn is_numeric(t: &BuiltinTypes) -> (r: bool)
    ensures
        r == numeric(t.view()),
{
    match t {
        BuiltinTypes::Int | BuiltinTypes::Float => true,
        _ => false,
    }
}

/// The result type of a binary operator on a left and a right operand type.
pub fn binop_result_type(op: BINOP, a: &BuiltinTypes, b: &BuiltinTypes) -> (r: Option<BuiltinTypes>)
    ensures
        opt_type_view(r) == binop_result(op, a.view(), b.view()),
{
    let a_int = match a {
        BuiltinTypes::Int => true,
        _ => false,
    };
    let b_int = match b {
        BuiltinTypes::Int => true,
        _ => false,
    };
    let a_str = match a {
        BuiltinTypes::String => true,
        _ => false,
    };
    let b_str = match b {
        BuiltinTypes::String => true,
        _ => false,
    };
    let a_bool = match a {
        BuiltinTypes::Bool => true,
        _ => false,
    };
    let b_bool = match b {
        BuiltinTypes::Bool => true,
        _ => false,
    };
    let both_numeric = is_numeric(a) && is_numeric(b);
    match op {
        BINOP::Add => if a_int && b_int {
            Some(BuiltinTypes::Int)
        } else if both_numeric {
            Some(BuiltinTypes::Float)
        } else if (a_str && (is_numeric(b) || b_str)) || (is_numeric(a) && b_str) {
            Some(BuiltinTypes::String)
        } else {
            None
        },
        BINOP::Subtract | BINOP::Multiply | BINOP::Divide | BINOP::Remainder => if a_int && b_int {
            Some(BuiltinTypes::Int)
        } else if both_numeric {
            Some(BuiltinTypes::Float)
        } else {
            None
        },
        BINOP::LessThan | BINOP::LargerThan | BINOP::LessOrEq | BINOP::LargerOrEq => if both_numeric {
            Some(BuiltinTypes::Bool)
        } else {
            None
        },
        _ => if both_numeric || (a_bool && b_bool) {
            Some(BuiltinTypes::Bool)
        } else {
            None
        },
    }
}

/// The models of a sequence of types, in order.
pub open spec fn type_views(s: Seq<BuiltinTypes>) -> Seq<TypeModel> {
    s.map_values(|t: BuiltinTypes| t.view())
}

/// Pops the right and then the left operand type, and pushes the result type when there is
/// one. With fewer than two types on the stack nothing changes and there is no result.
pub fn apply_binop(stack: &mut Vec<BuiltinTypes>, op: BINOP) -> (r: Option<BuiltinTypes>)
    ensures
        old(stack)@.len() < 2 ==> r is None && final(stack)@ == old(stack)@,
        old(stack)@.len() >= 2 ==> ({
            let s = type_views(old(stack)@);
            let res = binop_result(op, s[s.len() - 2], s[s.len() - 1]);
            &&& opt_type_view(r) == res
            &&& type_views(final(stack)@) == match res {
                Some(t) => s.subrange(0, s.len() - 2).push(t),
                None => s.subrange(0, s.len() - 2),
            }
        }),
{
    if stack.len() < 2 {
        return None;
    }
    let ghost before = stack@;
    let right = stack.pop().unwrap();
    let left = stack.pop().unwrap();
    let r = binop_result_type(op, &left, &right);
    proof {
        assert(stack@ =~= before.subrange(0, before.len() - 2));
        assert(left == before[before.len() - 2]);
        assert(right == before[before.len() - 1]);
    }
    match r {
        Some(t) => {
            let c = t.copy_type();
            stack.push(c);
            proof {
                assert(type_views(stack@) =~= type_views(before).subrange(0, before.len() - 2).push(t.view()));
            }
            Some(t)
        },
        None => {
            proof {
                assert(type_views(stack@) =~= type_views(before).subrange(0, before.len() - 2));
            }
            None
        },
    }
}

/// A stack of compile-time types.
pub struct TypeStack {
    stack: Vec<BuiltinTypes>,
}

impl TypeStack {
    /// The types on the stack, bottom first.
    pub closed spec fn view(self) -> Seq<TypeModel> {
        type_views(self.stack@)
    }

    /// An empty stack.
    pub fn new() -> (r: TypeStack)
        ensures
            r@ == Seq::<TypeModel>::empty(),
    {
        let r = TypeStack { stack: Vec::new() };
        assert(r@ =~= Seq::<TypeModel>::empty());
        r
    }

    /// Pushes a type.
    pub fn push(&mut self, pushable_type: BuiltinTypes)
        ensures
            final(self)@ == old(self)@.push(pushable_type.view()),
    {
        self.stack.push(pushable_type);
        assert(self@ =~= old(self)@.push(pushable_type.view()));
    }

    /// Pops the top type.
    pub fn pop(&mut self) -> (r: Option<BuiltinTypes>)
        ensures
            old(self)@.len() == 0 ==> r is None && final(self)@ == old(self)@,
            old(self)@.len() > 0 ==> r is Some && r.unwrap().view() == old(self)@.last() && final(self)@
                == old(self)@.drop_last(),
    {
        let ghost before = self.stack@;
        let r = self.stack.pop();
        proof {
            assert(self@ =~= type_views(before).drop_last() || before.len() == 0);
            if before.len() == 0 {
                assert(self@ =~= type_views(before));
            }
        }
        r
    }

    /// Pops `count` types, topmost first; when fewer are there, pops them all and gives `None`.
    pub fn pop_multiple(&mut self, count: usize) -> (r: Option<Vec<BuiltinTypes>>)
        ensures
            old(self)@.len() < count ==> r is None && final(self)@ == Seq::<TypeModel>::empty(),
            old(self)@.len() >= count ==> r is Some && final(self)@ == old(self)@.subrange(
                0,
                old(self)@.len() - count,
            ) && type_views(r.unwrap()@) == old(self)@.subrange(
                old(self)@.len() - count,
                old(self)@.len() as int,
            ).reverse(),
    {
        let ghost before = self@;
        let mut result: Vec<BuiltinTypes> = Vec::new();
        let mut counter: usize = 0;
        while counter < count
            invariant
                before == old(self)@,
                counter <= count,
                counter <= before.len(),
                self@ == before.subrange(0, before.len() - counter),
                type_views(result@) == before.subrange(before.len() - counter, before.len() as int).reverse(),
            decreases count - counter,
        {
            let ghost mid = self@;
            match self.pop() {
                Some(t) => {
                    let ghost rb = result@;
                    result.push(t);
                    proof {
                        assert(type_views(result@) =~= type_views(rb).push(t.view()));
                        assert(before.subrange(before.len() - (counter + 1), before.len() as int).reverse()
                            =~= before.subrange(before.len() - counter, before.len() as int).reverse().push(mid.last()));
                        assert(self@ =~= before.subrange(0, before.len() - (counter + 1)));
                    }
                },
                None => {
                    proof {
                        assert(self@ =~= Seq::<TypeModel>::empty());
                    }
                    return None;
                },
            }
            counter = counter + 1;
        }
        Some(result)
    }

    /// The top type, consuming the stack.
    pub fn peek(self) -> (r: Option<BuiltinTypes>)
        ensures
            self@.len() == 0 ==> r is None,
            self@.len() > 0 ==> r is Some && r.unwrap().view() == self@.last(),
    {
        let mut s = self;
        s.pop()
    }

    /// Applies a binary operator to the two top types: pops the right and then the left
    /// operand type and pushes the result type. A type error gives `None` and leaves the
    /// operands popped; with fewer than two types nothing changes.
    pub fn binop(&mut self, binop: BINOP) -> (r: Option<BuiltinTypes>)
        ensures
            old(self)@.len() < 2 ==> r is None && final(self)@ == old(self)@,
            old(self)@.len() >= 2 ==> ({
                let s = old(self)@;
                let res = binop_result(binop, s[s.len() - 2], s[s.len() - 1]);
                &&& opt_type_view(r) == res
                &&& final(self)@ == match res {
                    Some(t) => s.subrange(0, s.len() - 2).push(t),
                    None => s.subrange(0, s.len() - 2),
                }
            }),
    {
        apply_binop(&mut self.stack, binop)
    }
}

} // verus!
