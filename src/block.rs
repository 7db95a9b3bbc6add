//! The structured bytecode assembler.
use vstd::prelude::*;

use crate::bytecode::{binop_instruction, BINOP, OPTCODE};
use crate::{Scope, SpecialFunctions};

verus! {

/// An ordered, append-only sequence of instructions and the scope it was built in.
#[derive(Debug, PartialEq)]
pub struct Block {
    pub bytecode: Vec<OPTCODE>,
    pub scope: Scope,
}

/// The instruction sequence of an if-block: skip the body when the condition is falsy.
pub open spec fn if_block_code(body: Seq<OPTCODE>) -> Seq<OPTCODE> {
    seq![OPTCODE::JumpIfFalse { steps: body.len() as usize }] + body
}

/// The instruction sequence of an if-else-block.
pub open spec fn if_else_block_code(if_body: Seq<OPTCODE>, else_body: Seq<OPTCODE>) -> Seq<OPTCODE> {
    seq![OPTCODE::JumpIfFalse { steps: (if_body.len() + 1) as usize }] + if_body
        + seq![OPTCODE::Jump { steps: else_body.len() as usize }] + else_body
}

/// The instruction sequence of a while-loop: the condition, a conditional exit, the body and
/// a jump back to the start of the condition.
pub open spec fn while_loop_code(body: Seq<OPTCODE>, cond: Seq<OPTCODE>) -> Seq<OPTCODE> {
    cond + seq![OPTCODE::JumpIfFalse { steps: (body.len() + 1) as usize }] + body
        + seq![OPTCODE::JumpBack { steps: (body.len() + cond.len() + 2) as usize }]
}

/// The jumps of a while-loop placed after `prefix` close it correctly: the conditional exit
/// jumps from the end of the condition to the first instruction after the loop, falling
/// through into the body otherwise; the jump at the end of the body returns to the first
/// instruction of the condition. (A jump moves the program counter to one past its own index
/// plus its steps forward, or minus its steps backward.)
pub proof fn law_while_loop_jumps(prefix: Seq<OPTCODE>, body: Seq<OPTCODE>, cond: Seq<OPTCODE>)
    requires
        body.len() + cond.len() + 2 <= usize::MAX,
    ensures
        ({
            let code = prefix + while_loop_code(body, cond);
            let start = prefix.len() as int;
            let exit_at = start + cond.len();
            let back_at = start + cond.len() + 1 + body.len();
            &&& code.len() == back_at + 1
            &&& code[exit_at] matches OPTCODE::JumpIfFalse { steps } && exit_at + 1 + steps == back_at + 1
            &&& exit_at + 1 == start + cond.len() + 1
            &&& code[back_at] matches OPTCODE::JumpBack { steps } && back_at + 1 - steps == start
            &&& forall|k: int| 0 <= k < cond.len() ==> code[start + k] == cond[k]
            &&& forall|k: int| 0 <= k < body.len() ==> code[exit_at + 1 + k] == body[k]
        }),
{
    let code = prefix + while_loop_code(body, cond);
    let start = prefix.len() as int;
    assert(code[start + cond.len()] == OPTCODE::JumpIfFalse { steps: (body.len() + 1) as usize });
    assert(code[start + cond.len() + 1 + body.len()] == OPTCODE::JumpBack {
        steps: (body.len() + cond.len() + 2) as usize,
    });
}

impl Block {
    /// An empty block built in `scope`.
    pub fn new(scope: Scope) -> (r: Block)
        ensures
            r.bytecode@ == Seq::<OPTCODE>::empty(),
            r.scope == scope,
    {
        Block { bytecode: Vec::new(), scope }
    }

    /// Appends a load of a string literal.
    pub fn load_string(&mut self, value: &str)
        ensures
            final(self).bytecode@.len() == old(self).bytecode@.len() + 1,
            final(self).bytecode@.drop_last() == old(self).bytecode@,
            final(self).bytecode@.last() matches OPTCODE::LoadString { value: s } && s@ == value@,
            final(self).scope == old(self).scope,
    {
        self.bytecode.push(OPTCODE::LoadString { value: String::from_str(value) });
        proof {
            assert(self.bytecode@.drop_last() =~= old(self).bytecode@);
        }
    }

    /// Appends a call of a function by name, resolved later by the linker.
    pub fn call_function(&mut self, name: &str)
        ensures
            final(self).bytecode@.len() == old(self).bytecode@.len() + 1,
            final(self).bytecode@.drop_last() == old(self).bytecode@,
            final(self).bytecode@.last() matches OPTCODE::CallFunction { name: s } && s@ == name@,
            final(self).scope == old(self).scope,
    {
        self.bytecode.push(OPTCODE::CallFunction { name: String::from_str(name) });
        proof {
            assert(self.bytecode@.drop_last() =~= old(self).bytecode@);
        }
    }

    /// Appends the instruction of a binary operator.
    pub fn binop(&mut self, operator: BINOP)
        ensures
            final(self).bytecode@ == old(self).bytecode@.push(binop_instruction(operator)),
            final(self).scope == old(self).scope,
    {
        let i = match operator {
            BINOP::Add => OPTCODE::Add,
            BINOP::Subtract => OPTCODE::Subtract,
            BINOP::Multiply => OPTCODE::Multiply,
            BINOP::Divide => OPTCODE::Divide,
            BINOP::Remainder => OPTCODE::Remainder,
            BINOP::LessThan => OPTCODE::LessThan,
            BINOP::LargerThan => OPTCODE::LargerThan,
            BINOP::LessOrEq => OPTCODE::LessOrEq,
            BINOP::LargerOrEq => OPTCODE::LargerOrEq,
            BINOP::NotEq => OPTCODE::NotEq,
            BINOP::Eq => OPTCODE::Eq,
            BINOP::And => OPTCODE::And,
            BINOP::Or => OPTCODE::Or,
            BINOP::Xor => OPTCODE::Xor,
        };
        self.bytecode.push(i);
    }

    /// Appends an if-block: a conditional jump over the body, then the body in place.
    pub fn define_if_block(&mut self, block: Block)
        ensures
            final(self).bytecode@ == old(self).bytecode@ + if_block_code(block.bytecode@),
            final(self).scope == old(self).scope,
    {
        let ghost body = block.bytecode@;
        let mut block = block;
        let block_length = block.bytecode.len();
        self.bytecode.push(OPTCODE::JumpIfFalse { steps: block_length });
        self.bytecode.append(&mut block.bytecode);
        proof {
            assert(self.bytecode@ =~= old(self).bytecode@ + if_block_code(body));
        }
    }

    /// Appends an if-else-block. The conditional jump skips the if-body and the jump that
    /// follows it; that jump skips the else-body.
    pub fn define_if_else_block(&mut self, if_block: Block, else_block: Block)
        requires
            if_block.bytecode@.len() < usize::MAX,
        ensures
            final(self).bytecode@ == old(self).bytecode@ + if_else_block_code(
                if_block.bytecode@,
                else_block.bytecode@,
            ),
            final(self).scope == old(self).scope,
    {
        let ghost if_body = if_block.bytecode@;
        let ghost else_body = else_block.bytecode@;
        let mut if_block = if_block;
        let mut else_block = else_block;
        let if_block_length = if_block.bytecode.len();
        let else_block_length = else_block.bytecode.len();
        self.bytecode.push(OPTCODE::JumpIfFalse { steps: if_block_length + 1 });
        self.bytecode.append(&mut if_block.bytecode);
        self.bytecode.push(OPTCODE::Jump { steps: else_block_length });
        self.bytecode.append(&mut else_block.bytecode);
        proof {
            assert(self.bytecode@ =~= old(self).bytecode@ + if_else_block_code(
                if_body,
                else_body,
            ));
        }
    }

    /// Appends a counted loop that the machine runs by re-entering the nested block.
    pub fn define_simple_loop(&mut self, loop_block: Block)
        ensures
            final(self).bytecode@.len() == old(self).bytecode@.len() + 1,
            final(self).bytecode@.drop_last() == old(self).bytecode@,
            final(self).bytecode@.last() == (OPTCODE::SimpleLoop { body_block: loop_block }),
            final(self).scope == old(self).scope,
    {
        self.bytecode.push(OPTCODE::SimpleLoop { body_block: loop_block });
        proof {
            assert(self.bytecode@.drop_last() =~= old(self).bytecode@);
        }
    }

    /// Appends a while-loop: the condition, a conditional exit past the loop, the body, and a
    /// jump back to the first instruction of the condition.
    pub fn define_while_loop(&mut self, loop_block: Block, conditional_block: Block)
        requires
            loop_block.bytecode@.len() + conditional_block.bytecode@.len() + 2 <= usize::MAX,
        ensures
            final(self).bytecode@ == old(self).bytecode@ + while_loop_code(
                loop_block.bytecode@,
                conditional_block.bytecode@,
            ),
            final(self).scope == old(self).scope,
    {
        let ghost body = loop_block.bytecode@;
        let ghost cond = conditional_block.bytecode@;
        let mut loop_block = loop_block;
        let mut conditional_block = conditional_block;
        let block_length = loop_block.bytecode.len();
        let condition_length = conditional_block.bytecode.len();
        self.bytecode.append(&mut conditional_block.bytecode);
        self.bytecode.push(OPTCODE::JumpIfFalse { steps: block_length + 1 });
        self.bytecode.append(&mut loop_block.bytecode);
        self.bytecode.push(OPTCODE::JumpBack { steps: block_length + condition_length + 2 });
        proof {
            assert(self.bytecode@ =~= old(self).bytecode@ + while_loop_code(
                body,
                cond,
            ));
        }
    }

    /// Appends the instructions of another block.
    pub fn add_blocks_bytecode(&mut self, block: Block)
        ensures
            final(self).bytecode@ == old(self).bytecode@ + block.bytecode@,
            final(self).scope == old(self).scope,
    {
        let mut block = block;
        self.bytecode.append(&mut block.bytecode);
    }

    /// Appends a load of an integer literal.
    pub fn load_int(&mut self, value: i64)
        ensures
            final(self).bytecode@ == old(self).bytecode@.push(OPTCODE::LoadInt { value }),
            final(self).scope == old(self).scope,
    {
        self.bytecode.push(OPTCODE::LoadInt { value });
    }

    /// Appends a load of a boolean literal.
    pub fn load_bool(&mut self, value: bool)
        ensures
            final(self).bytecode@ == old(self).bytecode@.push(OPTCODE::LoadBool { value }),
            final(self).scope == old(self).scope,
    {
        self.bytecode.push(OPTCODE::LoadBool { value });
    }

    /// Appends a load of a float literal, given as its IEEE-754 bit pattern.
    pub fn load_float(&mut self, bits: u64)
        ensures
            final(self).bytecode@ == old(self).bytecode@.push(OPTCODE::LoadFloat { bits }),
            final(self).scope == old(self).scope,
    {
        self.bytecode.push(OPTCODE::LoadFloat { bits });
    }

    /// Appends the binding of the popped value to variable `id`.
    pub fn define_variable(&mut self, id: usize)
        ensures
            final(self).bytecode@ == old(self).bytecode@.push(OPTCODE::DefineVar { id }),
            final(self).scope == old(self).scope,
    {
        self.bytecode.push(OPTCODE::DefineVar { id });
    }

    /// Appends the binding of the popped object to variable `id`.
    pub fn define_object(&mut self, id: usize)
        ensures
            final(self).bytecode@ == old(self).bytecode@.push(OPTCODE::DefineObject { id }),
            final(self).scope == old(self).scope,
    {
        self.bytecode.push(OPTCODE::DefineObject { id });
    }

    /// Appends a return to the caller.
    pub fn return_from_function(&mut self)
        ensures
            final(self).bytecode@ == old(self).bytecode@.push(OPTCODE::Return),
            final(self).scope == old(self).scope,
    {
        self.bytecode.push(OPTCODE::Return);
    }

    /// Appends the overwrite of variable `id` with the popped value.
    pub fn assign_variable(&mut self, id: usize)
        ensures
            final(self).bytecode@ == old(self).bytecode@.push(OPTCODE::AssignVar { id }),
            final(self).scope == old(self).scope,
    {
        self.bytecode.push(OPTCODE::AssignVar { id });
    }

    /// Appends a push of a copy of variable `id`.
    pub fn load_variable(&mut self, id: usize)
        ensures
            final(self).bytecode@ == old(self).bytecode@.push(OPTCODE::LoadVar { id }),
            final(self).scope == old(self).scope,
    {
        self.bytecode.push(OPTCODE::LoadVar { id });
    }

    /// Appends a call of a builtin operation.
    pub fn call_special_function(&mut self, function: SpecialFunctions)
        ensures
            final(self).bytecode@ == old(self).bytecode@.push(OPTCODE::CallSpecialFunction { function }),
            final(self).scope == old(self).scope,
    {
        self.bytecode.push(OPTCODE::CallSpecialFunction { function });
    }

    /// Appends a move (or copy) of the stack top to the observation buffer.
    pub fn push_to_testing_stack(&mut self, duplicate_stackvalue: bool)
        ensures
            final(self).bytecode@ == old(self).bytecode@.push(OPTCODE::PushToTestingStack { duplicate_stackvalue }),
            final(self).scope == old(self).scope,
    {
        self.bytecode.push(OPTCODE::PushToTestingStack { duplicate_stackvalue });
    }

    /// Appends the creation of an array from the top `init_values_count` values.
    pub fn create_array(&mut self, init_values_count: usize)
        ensures
            final(self).bytecode@ == old(self).bytecode@.push(OPTCODE::CreateArray { init_values_count }),
            final(self).scope == old(self).scope,
    {
        self.bytecode.push(OPTCODE::CreateArray { init_values_count });
    }

    /// Appends the creation of an array from the top `init_values_count` values, bound to `id`.
    pub fn define_array(&mut self, id: usize, init_values_count: usize)
        ensures
            final(self).bytecode@ == old(self).bytecode@.push(OPTCODE::DefineArray { id, init_values_count }),
            final(self).scope == old(self).scope,
    {
        self.bytecode.push(OPTCODE::DefineArray { id, init_values_count });
    }

    /// Appends a read of array variable `id` at the popped index.
    pub fn load_from_array(&mut self, id: usize)
        ensures
            final(self).bytecode@ == old(self).bytecode@.push(OPTCODE::GetFromArray { id }),
            final(self).scope == old(self).scope,
    {
        self.bytecode.push(OPTCODE::GetFromArray { id });
    }

    /// Appends a write into array variable `id` at the popped index.
    pub fn assign_to_array(&mut self, id: usize)
        ensures
            final(self).bytecode@ == old(self).bytecode@.push(OPTCODE::AssignAtArrayIndex { id }),
            final(self).scope == old(self).scope,
    {
        self.bytecode.push(OPTCODE::AssignAtArrayIndex { id });
    }

    /// Appends a push of the length of array variable `id`.
    pub fn get_array_length(&mut self, id: usize)
        ensures
            final(self).bytecode@ == old(self).bytecode@.push(OPTCODE::ArrayLength { id }),
            final(self).scope == old(self).scope,
    {
        self.bytecode.push(OPTCODE::ArrayLength { id });
    }

    /// Appends the push of the popped value onto array variable `id`.
    pub fn push_to_array(&mut self, id: usize)
        ensures
            final(self).bytecode@ == old(self).bytecode@.push(OPTCODE::PushToArray { id }),
            final(self).scope == old(self).scope,
    {
        self.bytecode.push(OPTCODE::PushToArray { id });
    }

    /// Appends the creation of an object from one popped value per field name.
    pub fn create_object(&mut self, field_names: Vec<String>)
        ensures
            final(self).bytecode@ == old(self).bytecode@.push(OPTCODE::CreateObject { field_names }),
            final(self).scope == old(self).scope,
    {
        self.bytecode.push(OPTCODE::CreateObject { field_names });
    }

    /// Appends a read of a field of the popped object.
    pub fn get_object_field(&mut self, field_name: String)
        ensures
            final(self).bytecode@ == old(self).bytecode@.push(OPTCODE::GetObjectField { field_name }),
            final(self).scope == old(self).scope,
    {
        self.bytecode.push(OPTCODE::GetObjectField { field_name });
    }

    /// Appends a write of the popped value into a field of object variable `id`.
    pub fn set_object_field(&mut self, id: usize, field_name: String)
        ensures
            final(self).bytecode@ == old(self).bytecode@.push(OPTCODE::SetObjectField { id, field_name }),
            final(self).scope == old(self).scope,
    {
        self.bytecode.push(OPTCODE::SetObjectField { id, field_name });
    }
}

} // verus!
